use quartz_nbt::{NbtCompound, NbtList, NbtTag};
use schematic_writer::blocks::{Blocks, BlocksBuilder};
use schematic_writer::palette::Palette;
use schematic_writer::schematic::{DATA_VERSION, FORMAT_VERSION};
use schematic_writer::varint::VarintArray;
use schematic_writer::{
    Biomes, Entities, Metadata, Schematic, SchematicBuilder, SchematicBuilderError,
};

fn metadata() -> Metadata {
    Metadata {
        name: "A name".to_string(),
        author: "An author".to_string(),
        required_mods: vec!["first".to_string(), "second".to_string()],
    }
}

fn blocks(width: u16, height: u16, length: u16) -> Blocks {
    let mut builder = BlocksBuilder::new();
    builder.add_block((width - 1, height - 1, length - 1).into(), "stone");
    builder.build()
}

#[test]
fn document_holds_the_required_fields() {
    let schematic = Schematic::new(metadata(), blocks(2, 3, 4), None, None, None);
    let nbt = schematic.to_nbt_at(1234567890123);
    assert_eq!(nbt.len(), 7);
    assert_eq!(nbt.get::<_, &NbtTag>("Version").unwrap(), &NbtTag::Int(3));
    assert_eq!(nbt.get::<_, &NbtTag>("DataVersion").unwrap(), &NbtTag::Int(3578));
    assert_eq!(FORMAT_VERSION, 3);
    assert_eq!(DATA_VERSION, 3578);
    assert_eq!(nbt.get::<_, &NbtTag>("Width").unwrap(), &NbtTag::Short(2));
    assert_eq!(nbt.get::<_, &NbtTag>("Height").unwrap(), &NbtTag::Short(3));
    assert_eq!(nbt.get::<_, &NbtTag>("Length").unwrap(), &NbtTag::Short(4));
    let meta = nbt.get::<_, &NbtCompound>("Metadata").unwrap();
    assert_eq!(meta.len(), 4);
    assert_eq!(meta.get::<_, &str>("Name").unwrap(), "A name");
    assert_eq!(meta.get::<_, &str>("Author").unwrap(), "An author");
    assert_eq!(meta.get::<_, &NbtTag>("Date").unwrap(), &NbtTag::Long(1234567890123));
    let mods = meta.get::<_, &NbtList>("RequiredMods").unwrap();
    assert_eq!(mods.len(), 2);
    assert_eq!(mods.get::<&str>(0).unwrap(), "first");
    assert_eq!(mods.get::<&str>(1).unwrap(), "second");
    assert_eq!(
        nbt.get::<_, &NbtCompound>("Blocks").unwrap(),
        &blocks(2, 3, 4).into_nbt()
    );
}

#[test]
fn absent_sections_leave_no_entry() {
    let schematic = Schematic::new(metadata(), blocks(1, 1, 1), None, None, None);
    let nbt = schematic.to_nbt_at(0);
    assert!(!nbt.contains_key("Offset"));
    assert!(!nbt.contains_key("Biomes"));
    assert!(!nbt.contains_key("Entities"));
}

#[test]
fn present_sections_are_written() {
    let mut palette = Palette::new();
    palette.get_id_or_insert("minecraft:plains");
    let mut data = VarintArray::new();
    data.push_u32(0);
    let biomes = Biomes { palette, data };
    let schematic = Schematic::new(
        metadata(),
        blocks(1, 1, 1),
        Some((-1, 2, 300000)),
        Some(biomes.clone()),
        Some(Entities {}),
    );
    let nbt = schematic.to_nbt_at(0);
    assert_eq!(nbt.len(), 10);
    assert_eq!(
        nbt.get::<_, &NbtTag>("Offset").unwrap(),
        &NbtTag::IntArray(vec![-1, 2, 300000])
    );
    let written = nbt.get::<_, &NbtCompound>("Biomes").unwrap();
    assert_eq!(written, &biomes.to_nbt());
    assert_eq!(written.len(), 2);
    assert_eq!(
        written
            .get::<_, &NbtCompound>("Palette")
            .unwrap()
            .get::<_, i32>("minecraft:plains")
            .unwrap(),
        0
    );
    assert_eq!(written.get::<_, &[i8]>("Data").unwrap(), &[0]);
    assert_eq!(nbt.get::<_, &NbtCompound>("Entities").unwrap().len(), 0);
    assert_eq!(Entities {}.into_nbt(), NbtCompound::new());
    assert_eq!(biomes.clone().into_nbt(), biomes.to_nbt());
}

#[test]
fn sizes_are_written_by_their_low_sixteen_bits() {
    let schematic = Schematic::new(metadata(), blocks(32767, 1, 1), None, None, None);
    let nbt = schematic.to_nbt_at(0);
    assert_eq!(nbt.get::<_, &NbtTag>("Width").unwrap(), &NbtTag::Short(32767));
    assert_eq!(nbt.get::<_, &NbtTag>("Height").unwrap(), &NbtTag::Short(1));
    assert_eq!(nbt.get::<_, &NbtTag>("Length").unwrap(), &NbtTag::Short(1));
    let schematic = Schematic::new(metadata(), blocks(1, 32768, 1), None, None, None);
    let nbt = schematic.to_nbt_at(0);
    assert_eq!(nbt.get::<_, &NbtTag>("Height").unwrap(), &NbtTag::Short(-32768));
    let mut builder = BlocksBuilder::new();
    builder.add_block((0, 0, 65535).into(), "stone");
    let schematic = Schematic::new(metadata(), builder.build(), None, None, None);
    let nbt = schematic.to_nbt_at(0);
    assert_eq!(nbt.get::<_, &NbtTag>("Length").unwrap(), &NbtTag::Short(0));
}

#[test]
fn same_schematic_and_date_give_the_same_document() {
    let schematic = Schematic::new(metadata(), blocks(2, 2, 2), Some((1, 2, 3)), None, None);
    let copy = schematic.clone();
    assert_eq!(schematic.to_nbt_at(7), schematic.to_nbt_at(7));
    assert_eq!(schematic.to_nbt_at(7), copy.to_nbt_at(7));
    assert_ne!(schematic.to_nbt_at(7), schematic.to_nbt_at(8));
}

#[test]
fn document_written_now_differs_by_its_date_alone() {
    let schematic = Schematic::new(metadata(), blocks(2, 2, 2), None, None, None);
    let now = schematic.to_nbt();
    let date = now
        .get::<_, &NbtCompound>("Metadata")
        .unwrap()
        .get::<_, i64>("Date")
        .unwrap();
    // Later than the first of January 2020.
    assert!(date > 1577836800000);
    assert_eq!(now, schematic.to_nbt_at(date));
    let consumed = schematic.clone().into_nbt();
    let date = consumed
        .get::<_, &NbtCompound>("Metadata")
        .unwrap()
        .get::<_, i64>("Date")
        .unwrap();
    assert_eq!(consumed, schematic.to_nbt_at(date));
}

#[test]
fn metadata_document() {
    let meta = metadata();
    let nbt = meta.to_nbt_at(-5);
    assert_eq!(nbt.get::<_, i64>("Date").unwrap(), -5);
    let now = meta.clone().into_nbt();
    let date = now.get::<_, i64>("Date").unwrap();
    assert!(date > 1577836800000);
    assert_eq!(now, meta.to_nbt_at(date));
    let bare = Metadata {
        name: String::new(),
        author: String::new(),
        required_mods: vec![],
    };
    let nbt = bare.to_nbt_at(0);
    assert_eq!(nbt.get::<_, &str>("Name").unwrap(), "");
    assert_eq!(nbt.get::<_, &NbtList>("RequiredMods").unwrap().len(), 0);
}

#[test]
fn builder_needs_metadata_and_blocks() {
    let empty = SchematicBuilder::default().build();
    assert_eq!(
        empty.err(),
        Some(SchematicBuilderError::UninitializedField("metadata"))
    );
    let no_metadata = SchematicBuilder::default().blocks(blocks(1, 1, 1)).build();
    assert_eq!(
        no_metadata.err(),
        Some(SchematicBuilderError::UninitializedField("metadata"))
    );
    let no_blocks = SchematicBuilder::default().metadata(metadata()).build();
    assert_eq!(
        no_blocks.err(),
        Some(SchematicBuilderError::UninitializedField("blocks"))
    );
}

#[test]
fn builder_builds_what_new_builds() {
    let built = SchematicBuilder::default()
        .blocks(blocks(2, 1, 2))
        .metadata(metadata())
        .build()
        .unwrap();
    let direct = Schematic::new(metadata(), blocks(2, 1, 2), None, None, None);
    assert_eq!(built.to_nbt_at(1), direct.to_nbt_at(1));
    let full = SchematicBuilder::default()
        .offset(Some((1, 2, 3)))
        .entities(Some(Entities {}))
        .biomes(None)
        .blocks(blocks(2, 1, 2))
        .metadata(metadata())
        .build()
        .unwrap();
    let direct = Schematic::new(
        metadata(),
        blocks(2, 1, 2),
        Some((1, 2, 3)),
        None,
        Some(Entities {}),
    );
    assert_eq!(full.to_nbt_at(1), direct.to_nbt_at(1));
}
