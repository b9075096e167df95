//! The schematic: the blocks together with metadata, an optional offset and
//! the optional biome and entity sections, and the document made of them.

use crate::blocks::{blocks_entries, Blocks, BlocksView};
use crate::clock::unix_millis;
use crate::nbt::{
    compound_entries, compound_insert, list_items, list_push, tag_compound, tag_int,
    tag_int_array, tag_list, tag_long, tag_short, tag_string, TagValue,
};
use crate::palette::{palette_entries, Palette};
use crate::varint::VarintArray;
use quartz_nbt::{NbtCompound, NbtList};
use vstd::prelude::*;

verus! {

/// The version of the schematic format that the document follows.
pub const FORMAT_VERSION: i32 = 3;

/// The version of the game data that the block names belong to.
pub const DATA_VERSION: i32 = 3578;

/// The largest size along an axis that a document can state.
pub const MAX_SIZE: usize = 0xffff;

/// The signed 16-bit integer with the same low sixteen bits as `size`: the
/// document holds a size that way. A size beyond [`MAX_SIZE`] is not
/// stated truly: what is written is what is left of it in sixteen bits.
pub open spec fn short_of(size: usize) -> i16 {
    if size % 0x1_0000 < 0x8000 {
        (size % 0x1_0000) as i16
    } else {
        (size % 0x1_0000 - 0x1_0000) as i16
    }
}

/// What the metadata hold.
pub struct MetadataView {
    pub name: Seq<char>,
    pub author: Seq<char>,
    pub required_mods: Seq<Seq<char>>,
}

/// The entries that the metadata write into the document, with `date` as
/// the time of writing in milliseconds since the Unix epoch.
pub open spec fn metadata_entries(metadata: MetadataView, date: i64) -> Map<Seq<char>, TagValue> {
    Map::<Seq<char>, TagValue>::empty().insert("Name"@, TagValue::String(metadata.name)).insert(
        "Author"@,
        TagValue::String(metadata.author),
    ).insert("Date"@, TagValue::Long(date)).insert(
        "RequiredMods"@,
        TagValue::List(metadata.required_mods.map_values(|name: Seq<char>| TagValue::String(name))),
    )
}

/// Who made the schematic, what it is called and which mods it needs.
#[derive(Debug)]
pub struct Metadata {
    pub name: String,
    pub author: String,
    pub required_mods: Vec<String>,
}

impl View for Metadata {
    type V = MetadataView;

    open spec fn view(&self) -> MetadataView {
        MetadataView {
            name: self.name@,
            author: self.author@,
            required_mods: self.required_mods@.map_values(|name: String| name@),
        }
    }
}

impl Clone for Metadata {
    fn clone(&self) -> (copy: Self)
        ensures
            copy@ == self@,
    {
        let mut required_mods: Vec<String> = Vec::new();
        let mut i: usize = 0;
        while i < self.required_mods.len()
            invariant
                i <= self.required_mods.len(),
                required_mods@.map_values(|name: String| name@) == self@.required_mods.take(
                    i as int,
                ),
            decreases self.required_mods.len() - i,
        {
            let ghost before = required_mods@.map_values(|name: String| name@);
            required_mods.push(self.required_mods[i].clone());
            assert(required_mods@.map_values(|name: String| name@) =~= before.push(
                self@.required_mods[i as int],
            ));
            assert(self@.required_mods.take(i + 1) =~= self@.required_mods.take(i as int).push(
                self@.required_mods[i as int],
            ));
            i += 1;
        }
        assert(self@.required_mods.take(i as int) =~= self@.required_mods);
        Metadata { name: self.name.clone(), author: self.author.clone(), required_mods }
    }
}

impl Metadata {
    /// The metadata as the document holds them, written at `date`.
    pub fn to_nbt_at(&self, date: i64) -> (compound: NbtCompound)
        ensures
            compound_entries(compound) == metadata_entries(self@, date),
    {
        let mut nbt = NbtCompound::new();
        compound_insert(&mut nbt, "Name", tag_string(self.name.clone()));
        compound_insert(&mut nbt, "Author", tag_string(self.author.clone()));
        compound_insert(&mut nbt, "Date", tag_long(date));
        let mut list = NbtList::new();
        let ghost mods = self@.required_mods;
        let ghost item = |name: Seq<char>| TagValue::String(name);
        let mut i: usize = 0;
        assert(list_items(list) =~= mods.take(0).map_values(item));
        while i < self.required_mods.len()
            invariant
                i <= self.required_mods.len(),
                mods == self@.required_mods,
                item == |name: Seq<char>| TagValue::String(name),
                list_items(list) == mods.take(i as int).map_values(item),
            decreases self.required_mods.len() - i,
        {
            list_push(&mut list, tag_string(self.required_mods[i].clone()));
            assert(mods.take(i + 1).map_values(item) =~= mods.take(i as int).map_values(item).push(
                item(mods[i as int]),
            ));
            i += 1;
        }
        assert(mods.take(i as int) =~= mods);
        compound_insert(&mut nbt, "RequiredMods", tag_list(list));
        nbt
    }

    /// The metadata as the document holds them, written now: the date is
    /// what the clock says.
    pub fn into_nbt(self) -> (compound: NbtCompound)
        ensures
            exists|date: i64| compound_entries(compound) == metadata_entries(self@, date),
    {
        self.to_nbt_at(unix_millis())
    }
}

/// What the biomes hold.
pub struct BiomesView {
    pub palette: Seq<Seq<char>>,
    pub data: Seq<i8>,
}

/// The entries that the biomes write into the document.
pub open spec fn biomes_entries(biomes: BiomesView) -> Map<Seq<char>, TagValue> {
    Map::<Seq<char>, TagValue>::empty().insert(
        "Palette"@,
        TagValue::Compound(palette_entries(biomes.palette)),
    ).insert("Data"@, TagValue::ByteArray(biomes.data))
}

/// The biomes of a schematic: a palette of biome names and packed ids.
#[derive(Debug)]
pub struct Biomes {
    pub palette: Palette,
    pub data: VarintArray,
}

impl View for Biomes {
    type V = BiomesView;

    open spec fn view(&self) -> BiomesView {
        BiomesView { palette: self.palette@, data: self.data@ }
    }
}

impl Clone for Biomes {
    fn clone(&self) -> (copy: Self)
        ensures
            copy@ == self@,
    {
        Biomes { palette: self.palette.clone(), data: self.data.clone() }
    }
}

impl Biomes {
    /// The biomes as the document holds them.
    pub fn to_nbt(&self) -> (compound: NbtCompound)
        ensures
            compound_entries(compound) == biomes_entries(self@),
    {
        let mut nbt = NbtCompound::new();
        compound_insert(&mut nbt, "Palette", tag_compound(self.palette.to_nbt()));
        compound_insert(&mut nbt, "Data", self.data.clone().into_nbt());
        nbt
    }

    /// The biomes as the document holds them.
    pub fn into_nbt(self) -> (compound: NbtCompound)
        ensures
            compound_entries(compound) == biomes_entries(self@),
    {
        self.to_nbt()
    }
}

/// The entities of a schematic. None can be given yet: the section is
/// written empty.
#[derive(Debug, Clone, Copy)]
pub struct Entities {}

impl Entities {
    /// The entities as the document holds them: a section without entries.
    pub fn into_nbt(self) -> (compound: NbtCompound)
        ensures
            compound_entries(compound) == (Map::<Seq<char>, TagValue>::empty()),
    {
        NbtCompound::new()
    }
}

/// What a schematic holds.
pub struct SchematicView {
    pub offset: Option<(i32, i32, i32)>,
    pub metadata: MetadataView,
    pub blocks: BlocksView,
    pub biomes: Option<BiomesView>,
    pub entities: bool,
}

/// The entries that every document holds: the two versions, the metadata
/// written at `date`, the size of the grid as the blocks have it, and the
/// blocks.
pub open spec fn required_entries(schematic: SchematicView, date: i64) -> Map<Seq<char>, TagValue> {
    Map::<Seq<char>, TagValue>::empty().insert("Version"@, TagValue::Int(FORMAT_VERSION)).insert(
        "DataVersion"@,
        TagValue::Int(DATA_VERSION),
    ).insert("Metadata"@, TagValue::Compound(metadata_entries(schematic.metadata, date))).insert(
        "Width"@,
        TagValue::Short(short_of(schematic.blocks.dimensions.width)),
    ).insert("Height"@, TagValue::Short(short_of(schematic.blocks.dimensions.height))).insert(
        "Length"@,
        TagValue::Short(short_of(schematic.blocks.dimensions.length)),
    ).insert("Blocks"@, TagValue::Compound(blocks_entries(schematic.blocks)))
}

/// `entries` with the offset behind them, where there is one.
pub open spec fn with_offset(
    entries: Map<Seq<char>, TagValue>,
    offset: Option<(i32, i32, i32)>,
) -> Map<Seq<char>, TagValue> {
    match offset {
        Some((x, y, z)) => entries.insert("Offset"@, TagValue::IntArray(seq![x, y, z])),
        None => entries,
    }
}

/// `entries` with the biomes behind them, where there are any.
pub open spec fn with_biomes(
    entries: Map<Seq<char>, TagValue>,
    biomes: Option<BiomesView>,
) -> Map<Seq<char>, TagValue> {
    match biomes {
        Some(biomes) => entries.insert("Biomes"@, TagValue::Compound(biomes_entries(biomes))),
        None => entries,
    }
}

/// `entries` with the entity section behind them, where there is one.
pub open spec fn with_entities(entries: Map<Seq<char>, TagValue>, entities: bool) -> Map<
    Seq<char>,
    TagValue,
> {
    if entities {
        entries.insert("Entities"@, TagValue::Compound(Map::empty()))
    } else {
        entries
    }
}

/// The entries of the document of a schematic written at `date`. A section
/// that the schematic does not have leaves no entry.
pub open spec fn schematic_entries(schematic: SchematicView, date: i64) -> Map<
    Seq<char>,
    TagValue,
> {
    with_entities(
        with_biomes(
            with_offset(required_entries(schematic, date), schematic.offset),
            schematic.biomes,
        ),
        schematic.entities,
    )
}

/// A schematic: blocks, metadata, and what else the document may hold.
#[derive(Debug)]
pub struct Schematic {
    offset: Option<(i32, i32, i32)>,
    metadata: Metadata,
    blocks: Blocks,
    biomes: Option<Biomes>,
    entities: Option<Entities>,
}

impl View for Schematic {
    type V = SchematicView;

    closed spec fn view(&self) -> SchematicView {
        SchematicView {
            offset: self.offset,
            metadata: self.metadata@,
            blocks: self.blocks@,
            biomes: match self.biomes {
                Some(biomes) => Some(biomes@),
                None => None,
            },
            entities: self.entities.is_some(),
        }
    }
}

impl Clone for Schematic {
    fn clone(&self) -> (copy: Self)
        ensures
            copy@ == self@,
    {
        let biomes = match &self.biomes {
            Some(biomes) => Some(biomes.clone()),
            None => None,
        };
        Schematic {
            offset: self.offset,
            metadata: self.metadata.clone(),
            blocks: self.blocks.clone(),
            biomes,
            entities: self.entities,
        }
    }
}

/// The low sixteen bits of a size, as the document holds them.
fn size_as_short(size: usize) -> (short: i16)
    ensures
        short == short_of(size),
{
    let short: i16 = size as i16;
    assert(short == short_of(size)) by (bit_vector)
        requires
            short == size as i16,
    ;
    short
}

impl Schematic {
    /// Puts a schematic together. Its size is that of the blocks: no other
    /// can be given.
    pub fn new(
        metadata: Metadata,
        blocks: Blocks,
        offset: Option<(i32, i32, i32)>,
        biomes: Option<Biomes>,
        entities: Option<Entities>,
    ) -> (schematic: Schematic)
        ensures
            schematic@ == (SchematicView {
                offset,
                metadata: metadata@,
                blocks: blocks@,
                biomes: match biomes {
                    Some(biomes) => Some(biomes@),
                    None => None,
                },
                entities: entities.is_some(),
            }),
    {
        Schematic { offset, metadata, blocks, biomes, entities }
    }

    /// The document of the schematic, written at `date`.
    pub fn to_nbt_at(&self, date: i64) -> (compound: NbtCompound)
        ensures
            compound_entries(compound) == schematic_entries(self@, date),
    {
        let dimensions = self.blocks.dimensions();
        let mut schematic = NbtCompound::new();
        compound_insert(&mut schematic, "Version", tag_int(FORMAT_VERSION));
        compound_insert(&mut schematic, "DataVersion", tag_int(DATA_VERSION));
        compound_insert(&mut schematic, "Metadata", tag_compound(self.metadata.to_nbt_at(date)));
        compound_insert(&mut schematic, "Width", tag_short(size_as_short(dimensions.width)));
        compound_insert(&mut schematic, "Height", tag_short(size_as_short(dimensions.height)));
        compound_insert(&mut schematic, "Length", tag_short(size_as_short(dimensions.length)));
        compound_insert(&mut schematic, "Blocks", tag_compound(self.blocks.to_nbt()));
        match self.offset {
            None => {},
            Some((x, y, z)) => {
                let mut offset: Vec<i32> = Vec::new();
                offset.push(x);
                offset.push(y);
                offset.push(z);
                assert(offset@ =~= seq![x, y, z]);
                compound_insert(&mut schematic, "Offset", tag_int_array(offset));
            },
        }
        match &self.biomes {
            None => {},
            Some(biomes) => {
                compound_insert(&mut schematic, "Biomes", tag_compound(biomes.to_nbt()));
            },
        }
        match self.entities {
            None => {},
            Some(entities) => {
                compound_insert(&mut schematic, "Entities", tag_compound(entities.into_nbt()));
            },
        }
        schematic
    }

    /// The document of the schematic, written now: the date in its metadata
    /// is what the clock says, and all else is fixed by the schematic.
    pub fn to_nbt(&self) -> (compound: NbtCompound)
        ensures
            exists|date: i64| compound_entries(compound) == schematic_entries(self@, date),
    {
        self.to_nbt_at(unix_millis())
    }

    /// The document of the schematic, written now: the date in its metadata
    /// is what the clock says, and all else is fixed by the schematic.
    pub fn into_nbt(self) -> (compound: NbtCompound)
        ensures
            exists|date: i64| compound_entries(compound) == schematic_entries(self@, date),
    {
        self.to_nbt()
    }
}

/// Why a builder gives no schematic.
#[derive(Debug, Clone, Copy, PartialEq, Eq)]
pub enum SchematicBuilderError {
    /// The part of this name was never given.
    UninitializedField(&'static str),
}

/// Takes the parts of a schematic one by one. The metadata and the blocks
/// must be given; the offset and the other sections may be left out.
#[derive(Debug)]
pub struct SchematicBuilder {
    pub offset: Option<(i32, i32, i32)>,
    pub metadata: Option<Metadata>,
    pub blocks: Option<Blocks>,
    pub biomes: Option<Biomes>,
    pub entities: Option<Entities>,
}

impl Default for SchematicBuilder {
    fn default() -> (builder: Self)
        ensures
            builder.offset.is_none(),
            builder.metadata.is_none(),
            builder.blocks.is_none(),
            builder.biomes.is_none(),
            builder.entities.is_none(),
    {
        SchematicBuilder {
            offset: None,
            metadata: None,
            blocks: None,
            biomes: None,
            entities: None,
        }
    }
}

impl SchematicBuilder {
    /// Sets the offset, or takes it away.
    pub fn offset(self, value: Option<(i32, i32, i32)>) -> (builder: Self)
        ensures
            builder == (SchematicBuilder { offset: value, ..self }),
    {
        SchematicBuilder { offset: value, ..self }
    }

    /// Sets the metadata.
    pub fn metadata(self, value: Metadata) -> (builder: Self)
        ensures
            builder == (SchematicBuilder { metadata: Some(value), ..self }),
    {
        SchematicBuilder { metadata: Some(value), ..self }
    }

    /// Sets the blocks.
    pub fn blocks(self, value: Blocks) -> (builder: Self)
        ensures
            builder == (SchematicBuilder { blocks: Some(value), ..self }),
    {
        SchematicBuilder { blocks: Some(value), ..self }
    }

    /// Sets the biomes, or takes them away.
    pub fn biomes(self, value: Option<Biomes>) -> (builder: Self)
        ensures
            builder == (SchematicBuilder { biomes: value, ..self }),
    {
        SchematicBuilder { biomes: value, ..self }
    }

    /// Sets the entities, or takes them away.
    pub fn entities(self, value: Option<Entities>) -> (builder: Self)
        ensures
            builder == (SchematicBuilder { entities: value, ..self }),
    {
        SchematicBuilder { entities: value, ..self }
    }

    /// The schematic of the parts given, or the name of the first part that
    /// is missing: the metadata come before the blocks.
    pub fn build(self) -> (built: Result<Schematic, SchematicBuilderError>)
        ensures
            match built {
                Ok(schematic) => self.metadata.is_some() && self.blocks.is_some() && schematic@
                    == (SchematicView {
                    offset: self.offset,
                    metadata: self.metadata.unwrap()@,
                    blocks: self.blocks.unwrap()@,
                    biomes: match self.biomes {
                        Some(biomes) => Some(biomes@),
                        None => None,
                    },
                    entities: self.entities.is_some(),
                }),
                Err(SchematicBuilderError::UninitializedField(name)) => if self.metadata.is_none() {
                    name@ == "metadata"@
                } else {
                    self.blocks.is_none() && name@ == "blocks"@
                },
            },
    {
        let SchematicBuilder { offset, metadata, blocks, biomes, entities } = self;
        let metadata = match metadata {
            Some(metadata) => metadata,
            None => {
                return Err(SchematicBuilderError::UninitializedField("metadata"));
            },
        };
        let blocks = match blocks {
            Some(blocks) => blocks,
            None => {
                return Err(SchematicBuilderError::UninitializedField("blocks"));
            },
        };
        Ok(Schematic::new(metadata, blocks, offset, biomes, entities))
    }
}

/// The names of the entries that every document holds.
pub open spec fn required_names() -> Set<Seq<char>> {
    set!["Version"@, "DataVersion"@, "Metadata"@, "Width"@, "Height"@, "Length"@, "Blocks"@]
}

/// The names of the optional entries.
pub open spec fn optional_names() -> Set<Seq<char>> {
    set!["Offset"@, "Biomes"@, "Entities"@]
}

/// No two entries of a document bear the same name.
pub proof fn lemma_names_differ()
    ensures
        required_names().len() == 7,
        optional_names().len() == 3,
        required_names().disjoint(optional_names()),
        "Version"@ != "DataVersion"@,
        "Version"@ != "Metadata"@,
        "DataVersion"@ != "Metadata"@,
        "Width"@ != "Version"@ && "Width"@ != "DataVersion"@ && "Width"@ != "Metadata"@,
        "Height"@ != "Version"@ && "Height"@ != "DataVersion"@ && "Height"@ != "Metadata"@
            && "Height"@ != "Width"@,
        "Length"@ != "Version"@ && "Length"@ != "DataVersion"@ && "Length"@ != "Metadata"@
            && "Length"@ != "Width"@ && "Length"@ != "Height"@,
        "Blocks"@ != "Version"@ && "Blocks"@ != "DataVersion"@ && "Blocks"@ != "Metadata"@
            && "Blocks"@ != "Width"@ && "Blocks"@ != "Height"@ && "Blocks"@ != "Length"@,
        "Offset"@ != "Biomes"@ && "Offset"@ != "Entities"@ && "Biomes"@ != "Entities"@,
{
    reveal_strlit("Version");
    reveal_strlit("DataVersion");
    reveal_strlit("Metadata");
    reveal_strlit("Width");
    reveal_strlit("Height");
    reveal_strlit("Length");
    reveal_strlit("Blocks");
    reveal_strlit("Offset");
    reveal_strlit("Biomes");
    reveal_strlit("Entities");
    assert("Version"@.len() == 7 && "DataVersion"@.len() == 11 && "Metadata"@.len() == 8);
    assert("Width"@.len() == 5 && "Height"@.len() == 6 && "Length"@.len() == 6);
    assert("Blocks"@.len() == 6 && "Offset"@.len() == 6 && "Biomes"@.len() == 6);
    assert("Entities"@.len() == 8);
    assert("Metadata"@[0] == 'M' && "Entities"@[0] == 'E');
    assert("Height"@[0] == 'H' && "Length"@[0] == 'L' && "Offset"@[0] == 'O');
    assert("Blocks"@[1] == 'l' && "Biomes"@[1] == 'i');
    assert("Blocks"@[0] == 'B' && "Biomes"@[0] == 'B');
    let required = required_names();
    assert(required =~= Set::<Seq<char>>::empty().insert("Version"@).insert("DataVersion"@).insert(
        "Metadata"@,
    ).insert("Width"@).insert("Height"@).insert("Length"@).insert("Blocks"@));
    let optional = optional_names();
    assert(optional =~= Set::<Seq<char>>::empty().insert("Offset"@).insert("Biomes"@).insert(
        "Entities"@,
    ));
}

/// A document holds the required entries and, of the offset, the biomes and
/// the entities, those that the schematic has: a section that is absent
/// leaves no entry, and nothing else is written.
pub proof fn lemma_document_names(schematic: SchematicView, date: i64)
    ensures
        forall|name: Seq<char>| #[trigger]
            schematic_entries(schematic, date).dom().contains(name) <==> {
                ||| required_names().contains(name)
                ||| schematic.offset.is_some() && name == "Offset"@
                ||| schematic.biomes.is_some() && name == "Biomes"@
                ||| schematic.entities && name == "Entities"@
            },
{
}

/// What a document holds under each name: the two versions, the metadata
/// written at `date`, the low sixteen bits of each size of the grid, the
/// blocks, and the optional sections that the schematic has.
pub proof fn lemma_document_fields(schematic: SchematicView, date: i64)
    ensures
        ({
            let entries = schematic_entries(schematic, date);
            &&& entries["Version"@] == TagValue::Int(FORMAT_VERSION)
            &&& entries["DataVersion"@] == TagValue::Int(DATA_VERSION)
            &&& entries["Metadata"@] == TagValue::Compound(
                metadata_entries(schematic.metadata, date),
            )
            &&& entries["Width"@] == TagValue::Short(short_of(schematic.blocks.dimensions.width))
            &&& entries["Height"@] == TagValue::Short(
                short_of(schematic.blocks.dimensions.height),
            )
            &&& entries["Length"@] == TagValue::Short(
                short_of(schematic.blocks.dimensions.length),
            )
            &&& entries["Blocks"@] == TagValue::Compound(blocks_entries(schematic.blocks))
            &&& schematic.offset matches Some((x, y, z)) ==> entries["Offset"@]
                == TagValue::IntArray(seq![x, y, z])
            &&& schematic.biomes matches Some(biomes) ==> entries["Biomes"@]
                == TagValue::Compound(biomes_entries(biomes))
            &&& schematic.entities ==> entries["Entities"@] == TagValue::Compound(Map::empty())
        }),
{
    lemma_names_differ();
    assert(required_names().contains("Version"@) && required_names().contains("DataVersion"@)
        && required_names().contains("Metadata"@) && required_names().contains("Width"@)
        && required_names().contains("Height"@) && required_names().contains("Length"@)
        && required_names().contains("Blocks"@));
    assert(optional_names().contains("Offset"@) && optional_names().contains("Biomes"@)
        && optional_names().contains("Entities"@));
}

/// The metadata write the name, the author, the date and the required
/// mods, each under its own name, and nothing else.
pub proof fn lemma_metadata_fields(metadata: MetadataView, date: i64)
    ensures
        forall|name: Seq<char>| #[trigger]
            metadata_entries(metadata, date).dom().contains(name) <==> {
                ||| name == "Name"@
                ||| name == "Author"@
                ||| name == "Date"@
                ||| name == "RequiredMods"@
            },
        metadata_entries(metadata, date)["Name"@] == TagValue::String(metadata.name),
        metadata_entries(metadata, date)["Author"@] == TagValue::String(metadata.author),
        metadata_entries(metadata, date)["Date"@] == TagValue::Long(date),
        metadata_entries(metadata, date)["RequiredMods"@] == TagValue::List(
            metadata.required_mods.map_values(|name: Seq<char>| TagValue::String(name)),
        ),
{
    reveal_strlit("Name");
    reveal_strlit("Author");
    reveal_strlit("Date");
    reveal_strlit("RequiredMods");
    assert("Name"@.len() == 4 && "Author"@.len() == 6 && "Date"@.len() == 4);
    assert("RequiredMods"@.len() == 12);
    assert("Name"@[0] == 'N' && "Date"@[0] == 'D');
}

/// The size that a document states, read as sixteen bits without a sign, is
/// the size of the grid, as long as that is no more than [`MAX_SIZE`].
pub proof fn lemma_short_of(size: usize)
    requires
        size <= MAX_SIZE,
    ensures
        short_of(size) >= 0 ==> short_of(size) == size,
        short_of(size) < 0 ==> short_of(size) + 0x1_0000 == size,
{
}

} // verus!
