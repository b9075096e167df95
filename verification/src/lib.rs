//! Assembles voxel schematics. Block placements are gathered, laid out as a
//! dense grid of palette ids, packed as variable-length integers, and put
//! into a tagged document together with metadata.
//!
//! - [`palette`]: block names and their ids, in first-seen order.
//! - [`varint`]: the variable-length encoding of integers.
//! - [`grid`]: positions, sizes and the dense grid of cells.
//! - [`blocks`]: the builder that turns placements into packed blocks.
//! - [`schematic`]: the schematic and its document.
//! - [`assembler`]: from lines of text to a schematic.
//! - [`text`]: fields and numbers in a line of text.
//! - [`clock`]: the time of writing.
//! - [`nbt`]: the tagged values of `quartz_nbt`, and what is taken on trust
//!   of them.

pub mod assembler;
pub mod blocks;
pub mod clock;
pub mod grid;
pub mod nbt;
pub mod palette;
pub mod schematic;
pub mod text;
pub mod varint;

pub use schematic::{
    Biomes, Entities, Metadata, Schematic, SchematicBuilder, SchematicBuilderError,
};
