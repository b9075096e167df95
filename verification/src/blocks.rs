//! The blocks of a schematic: placements gathered one by one, then laid out
//! as a dense grid of palette ids and packed.

use crate::grid::{Array3d, MAX_COORDINATE};
pub use crate::grid::{Coordinates, Dimensions};
use crate::nbt::{
    compound_entries, compound_insert, list_items, list_push, tag_compound, tag_list, tag_string,
    TagValue,
};
use crate::palette::{intern, interned, palette_entries, Palette, MAX_PALETTE};
use crate::varint::{packed, VarintArray};
use quartz_nbt::{NbtCompound, NbtList};
use vstd::prelude::*;

verus! {

/// What a block entity holds.
pub struct BlockEntityView {
    pub pos: Coordinates,
    pub id: Seq<char>,
    pub data: Option<Map<Seq<char>, TagValue>>,
}

/// The entries that a block entity writes into the document: its position,
/// its type name and, where it has any, its data.
pub open spec fn block_entity_entries(entity: BlockEntityView) -> Map<Seq<char>, TagValue> {
    let plain = Map::<Seq<char>, TagValue>::empty().insert(
        "Pos"@,
        TagValue::IntArray(seq![entity.pos.x as i32, entity.pos.y as i32, entity.pos.z as i32]),
    ).insert("Id"@, TagValue::String(entity.id));
    match entity.data {
        Some(data) => plain.insert("Data"@, TagValue::Compound(data)),
        None => plain,
    }
}

/// Data attached to the block at one position.
#[derive(Debug)]
pub struct BlockEntity {
    pos: Coordinates,
    id: String,
    data: Option<NbtCompound>,
}

impl View for BlockEntity {
    type V = BlockEntityView;

    closed spec fn view(&self) -> BlockEntityView {
        BlockEntityView {
            pos: self.pos,
            id: self.id@,
            data: match self.data {
                Some(data) => Some(compound_entries(data)),
                None => None,
            },
        }
    }
}

impl Clone for BlockEntity {
    fn clone(&self) -> (copy: Self)
        ensures
            copy@ == self@,
    {
        proof {
            use_type_invariant(self);
        }
        let data = match &self.data {
            Some(data) => Some(data.clone()),
            None => None,
        };
        BlockEntity { pos: self.pos, id: self.id.clone(), data }
    }
}

impl BlockEntity {
    /// The position fits the grid's coordinates.
    #[verifier::type_invariant]
    pub open spec fn well_formed(&self) -> bool {
        self@.pos.in_range()
    }

    /// A block entity of type `id` at `pos`, with or without data.
    pub fn new(pos: Coordinates, id: String, data: Option<NbtCompound>) -> (entity: BlockEntity)
        requires
            pos.in_range(),
        ensures
            entity@ == (BlockEntityView {
                pos,
                id: id@,
                data: match data {
                    Some(data) => Some(compound_entries(data)),
                    None => None,
                },
            }),
    {
        Self { pos, id, data }
    }

    /// The block entity as the document holds it.
    pub fn to_nbt(&self) -> (compound: NbtCompound)
        ensures
            compound_entries(compound) == block_entity_entries(self@),
    {
        proof {
            use_type_invariant(self);
        }
        let mut nbt = NbtCompound::new();
        compound_insert(&mut nbt, "Pos", self.pos.to_nbt());
        compound_insert(&mut nbt, "Id", tag_string(self.id.clone()));
        match &self.data {
            Some(data) => {
                compound_insert(&mut nbt, "Data", tag_compound(data.clone()));
            },
            None => {},
        }
        nbt
    }

    /// The block entity as the document holds it.
    pub fn into_nbt(self) -> (compound: NbtCompound)
        ensures
            compound_entries(compound) == block_entity_entries(self@),
    {
        self.to_nbt()
    }
}

/// The name of the block that fills every cell where nothing was placed.
pub const FILL_NAME: &'static str = "minecraft:air";

/// What a builder has gathered: the placements and the block entities, each
/// in the order in which they came.
pub struct BuilderView {
    pub placements: Seq<(Coordinates, Seq<char>)>,
    pub block_entities: Seq<BlockEntityView>,
}

/// The smallest box that holds every placement and at least one cell: along
/// each axis one more than the largest coordinate placed.
pub open spec fn bounding_box(placements: Seq<(Coordinates, Seq<char>)>) -> Dimensions
    decreases placements.len(),
{
    if placements.len() == 0 {
        Dimensions { width: 1, height: 1, length: 1 }
    } else {
        let rest = bounding_box(placements.drop_last());
        let at = placements.last().0;
        Dimensions {
            width: if at.x < rest.width {
                rest.width
            } else {
                (at.x + 1) as usize
            },
            height: if at.y < rest.height {
                rest.height
            } else {
                (at.y + 1) as usize
            },
            length: if at.z < rest.length {
                rest.length
            } else {
                (at.z + 1) as usize
            },
        }
    }
}

/// The name of the block in the cell at `index` of a box: that of the last
/// placement at the cell, or `fill` where there was none.
pub open spec fn cell_at(
    placements: Seq<(Coordinates, Seq<char>)>,
    fill: Seq<char>,
    dimensions: Dimensions,
    index: int,
) -> Seq<char>
    decreases placements.len(),
{
    if placements.len() == 0 {
        fill
    } else if placements.last().0.spec_linear_in(&dimensions) == Some(index) {
        placements.last().1
    } else {
        cell_at(placements.drop_last(), fill, dimensions, index)
    }
}

/// The ids in the cells of a box, in storage order: each cell holds the place
/// that the name of its block has in `palette`.
pub open spec fn grid_ids(
    placements: Seq<(Coordinates, Seq<char>)>,
    fill: Seq<char>,
    dimensions: Dimensions,
    palette: Seq<Seq<char>>,
) -> Seq<u32> {
    Seq::new(
        dimensions.spec_volume(),
        |index: int| palette.index_of(cell_at(placements, fill, dimensions, index)) as u32,
    )
}

impl BuilderView {
    /// No placement and no block entity.
    pub open spec fn nothing() -> BuilderView {
        BuilderView { placements: Seq::empty(), block_entities: Seq::empty() }
    }

    /// The names placed, in order.
    pub open spec fn names(self) -> Seq<Seq<char>> {
        self.placements.map_values(|placement: (Coordinates, Seq<char>)| placement.1)
    }

    /// The palette of the names placed: each distinct name once, in the
    /// order of first placement.
    pub open spec fn palette(self) -> Seq<Seq<char>> {
        interned(self.names())
    }

    /// The box that the placements span.
    pub open spec fn dimensions(self) -> Dimensions {
        bounding_box(self.placements)
    }

    /// Whether the palette takes `name`: it holds the name or has room for
    /// one more, as it has whenever there are fewer placements than a
    /// palette holds names.
    pub open spec fn admits(self, name: Seq<char>) -> bool {
        ||| self.placements.len() < MAX_PALETTE
        ||| self.palette().contains(name)
        ||| self.palette().len() < MAX_PALETTE
    }

    /// What is built from the placements: the palette with the fill name
    /// behind the names placed, unless it was placed itself; the box that
    /// the placements span; the ids of its cells, packed; and the block
    /// entities as they came.
    pub open spec fn built(self) -> BlocksView {
        let palette = intern(self.palette(), FILL_NAME@);
        BlocksView {
            palette,
            data: packed(grid_ids(self.placements, FILL_NAME@, self.dimensions(), palette)),
            block_entities: self.block_entities,
            dimensions: self.dimensions(),
        }
    }
}

/// What the blocks of a schematic hold.
pub struct BlocksView {
    pub palette: Seq<Seq<char>>,
    pub data: Seq<i8>,
    pub block_entities: Seq<BlockEntityView>,
    pub dimensions: Dimensions,
}

/// The entries that the blocks write into the document: the palette, the
/// packed cells, and the block entities in order.
pub open spec fn blocks_entries(blocks: BlocksView) -> Map<Seq<char>, TagValue> {
    Map::<Seq<char>, TagValue>::empty().insert(
        "Palette"@,
        TagValue::Compound(palette_entries(blocks.palette)),
    ).insert("Data"@, TagValue::ByteArray(blocks.data)).insert(
        "BlockEntities"@,
        TagValue::List(
            blocks.block_entities.map_values(
                |entity: BlockEntityView| TagValue::Compound(block_entity_entries(entity)),
            ),
        ),
    )
}

/// The blocks of a schematic, built and no longer changed.
#[derive(Debug)]
pub struct Blocks {
    palette: Palette,
    data: VarintArray,
    block_entities: Vec<BlockEntity>,
    dimensions: Dimensions,
}

impl View for Blocks {
    type V = BlocksView;

    closed spec fn view(&self) -> BlocksView {
        BlocksView {
            palette: self.palette@,
            data: self.data@,
            block_entities: self.block_entities@.map_values(|entity: BlockEntity| entity@),
            dimensions: self.dimensions,
        }
    }
}

impl Clone for Blocks {
    fn clone(&self) -> (copy: Self)
        ensures
            copy@ == self@,
    {
        let ghost entities = self@.block_entities;
        let mut block_entities: Vec<BlockEntity> = Vec::new();
        let mut i: usize = 0;
        while i < self.block_entities.len()
            invariant
                i <= self.block_entities.len(),
                entities == self.block_entities@.map_values(|entity: BlockEntity| entity@),
                block_entities@.map_values(|entity: BlockEntity| entity@) == entities.take(
                    i as int,
                ),
            decreases self.block_entities.len() - i,
        {
            let ghost before = block_entities@.map_values(|entity: BlockEntity| entity@);
            block_entities.push(self.block_entities[i].clone());
            assert(block_entities@.map_values(|entity: BlockEntity| entity@) =~= before.push(
                entities[i as int],
            ));
            assert(entities.take(i + 1) =~= entities.take(i as int).push(entities[i as int]));
            i += 1;
        }
        assert(entities.take(i as int) =~= entities);
        Blocks {
            palette: self.palette.clone(),
            data: self.data.clone(),
            block_entities,
            dimensions: self.dimensions,
        }
    }
}

impl Blocks {
    /// A builder that has gathered nothing yet.
    pub fn builder() -> (builder: BlocksBuilder)
        ensures
            builder@ == BuilderView::nothing(),
    {
        BlocksBuilder::new()
    }

    /// The palette.
    pub fn palette(&self) -> (palette: &Palette)
        ensures
            palette@ == self@.palette,
    {
        &self.palette
    }

    /// The packed cells.
    pub fn data(&self) -> (data: &VarintArray)
        ensures
            data@ == self@.data,
    {
        &self.data
    }

    /// The size of the grid.
    pub fn dimensions(&self) -> (dimensions: Dimensions)
        ensures
            dimensions == self@.dimensions,
    {
        self.dimensions
    }

    /// The blocks as the document holds them.
    pub fn to_nbt(&self) -> (compound: NbtCompound)
        ensures
            compound_entries(compound) == blocks_entries(self@),
    {
        let mut nbt = NbtCompound::new();
        compound_insert(&mut nbt, "Palette", tag_compound(self.palette.to_nbt()));
        compound_insert(&mut nbt, "Data", self.data.clone().into_nbt());
        let mut list = NbtList::new();
        let ghost entities = self@.block_entities;
        let ghost item = |entity: BlockEntityView| TagValue::Compound(block_entity_entries(entity));
        let mut i: usize = 0;
        assert(list_items(list) =~= entities.take(0).map_values(item));
        while i < self.block_entities.len()
            invariant
                i <= self.block_entities.len(),
                entities == self.block_entities@.map_values(|entity: BlockEntity| entity@),
                item == |entity: BlockEntityView| TagValue::Compound(block_entity_entries(entity)),
                list_items(list) == entities.take(i as int).map_values(item),
            decreases self.block_entities.len() - i,
        {
            list_push(&mut list, tag_compound(self.block_entities[i].to_nbt()));
            assert(entities.take(i + 1).map_values(item) =~= entities.take(i as int).map_values(
                item,
            ).push(item(entities[i as int])));
            i += 1;
        }
        assert(entities.take(i as int) =~= entities);
        compound_insert(&mut nbt, "BlockEntities", tag_list(list));
        nbt
    }

    /// The blocks as the document holds them.
    pub fn into_nbt(self) -> (compound: NbtCompound)
        ensures
            compound_entries(compound) == blocks_entries(self@),
    {
        self.to_nbt()
    }
}

/// Gathers placements and block entities, then builds the blocks from them.
#[derive(Debug)]
pub struct BlocksBuilder {
    palette: Palette,
    blocks: Vec<(Coordinates, u32)>,
    block_entities: Vec<BlockEntity>,
}

impl View for BlocksBuilder {
    type V = BuilderView;

    closed spec fn view(&self) -> BuilderView {
        BuilderView {
            placements: Seq::new(
                self.blocks@.len(),
                |i: int| (self.blocks@[i].0, self.palette@[self.blocks@[i].1 as int]),
            ),
            block_entities: self.block_entities@.map_values(|entity: BlockEntity| entity@),
        }
    }
}

impl BlocksBuilder {
    /// Every placement is in range and holds an id of the palette, and the
    /// palette is that of the names placed.
    #[verifier::type_invariant]
    closed spec fn well_formed(&self) -> bool {
        &&& forall|i: int|
            0 <= i < self.blocks@.len() ==> self.blocks@[i].1 < self.palette@.len()
                && self.blocks@[i].0.in_range()
        &&& self.palette@ == self@.palette()
    }

    /// A builder that has gathered nothing yet.
    pub fn new() -> (builder: Self)
        ensures
            builder@ == BuilderView::nothing(),
    {
        let builder = Self {
            palette: Palette::new(),
            blocks: Vec::new(),
            block_entities: Vec::new(),
        };
        assert(builder@.names() =~= Seq::<Seq<char>>::empty());
        assert(builder@.placements =~= BuilderView::nothing().placements);
        assert(builder@.block_entities =~= BuilderView::nothing().block_entities);
        builder
    }

    /// The palette of the names placed so far.
    pub fn palette(&self) -> (palette: &Palette)
        ensures
            palette@ == self@.palette(),
    {
        proof {
            use_type_invariant(self);
        }
        &self.palette
    }

    /// The box that the placements so far span.
    pub fn dimensions(&self) -> (dimensions: Dimensions)
        ensures
            dimensions == self@.dimensions(),
    {
        proof {
            use_type_invariant(self);
        }
        let ghost placements = self@.placements;
        let mut dimensions = Dimensions { width: 1, height: 1, length: 1 };
        let mut i: usize = 0;
        assert(placements.take(0) =~= Seq::<(Coordinates, Seq<char>)>::empty());
        while i < self.blocks.len()
            invariant
                i <= self.blocks.len(),
                placements == self@.placements,
                placements.len() == self.blocks@.len(),
                forall|j: int|
                    0 <= j < self.blocks@.len() ==> placements[j].0 == self.blocks@[j].0
                        && self.blocks@[j].0.in_range(),
                dimensions == bounding_box(placements.take(i as int)),
            decreases self.blocks.len() - i,
        {
            let at = self.blocks[i].0;
            proof {
                let upto = placements.take(i + 1);
                assert(upto.drop_last() =~= placements.take(i as int));
                assert(upto.last() == placements[i as int]);
            }
            if at.x >= dimensions.width {
                dimensions.width = at.x + 1;
            }
            if at.y >= dimensions.height {
                dimensions.height = at.y + 1;
            }
            if at.z >= dimensions.length {
                dimensions.length = at.z + 1;
            }
            i += 1;
        }
        assert(placements.take(i as int) =~= placements);
        dimensions
    }

    /// Takes a block entity, behind those taken before.
    pub fn add_block_entity(&mut self, block_entity: BlockEntity)
        ensures
            final(self)@ == (BuilderView {
                block_entities: old(self)@.block_entities.push(block_entity@),
                ..old(self)@
            }),
    {
        proof {
            use_type_invariant(&*self);
        }
        let mut taken = BlocksBuilder::new();
        std::mem::swap(self, &mut taken);
        let ghost before = taken@;
        let BlocksBuilder { palette, blocks, mut block_entities } = taken;
        block_entities.push(block_entity);
        proof {
            let after = BlocksBuilder { palette, blocks, block_entities };
            assert(after@.placements =~= before.placements);
            assert(after@.block_entities =~= before.block_entities.push(block_entity@));
        }
        *self = BlocksBuilder { palette, blocks, block_entities };
    }

    /// Places the block named `id` at `coordinates`, behind the placements
    /// made before. A later placement at a position overrides an earlier one.
    pub fn add_block(&mut self, coordinates: Coordinates, id: &str)
        requires
            coordinates.in_range(),
            old(self)@.admits(id@),
        ensures
            final(self)@ == (BuilderView {
                placements: old(self)@.placements.push((coordinates, id@)),
                ..old(self)@
            }),
    {
        proof {
            use_type_invariant(&*self);
        }
        let mut taken = BlocksBuilder::new();
        std::mem::swap(self, &mut taken);
        let ghost before = taken@;
        let BlocksBuilder { mut palette, mut blocks, block_entities } = taken;
        proof {
            crate::palette::lemma_interned_holds(before.names());
        }
        let number = palette.get_id_or_insert(id);
        blocks.push((coordinates, number));
        proof {
            let after = BlocksBuilder { palette, blocks, block_entities };
            assert(after@.placements =~= before.placements.push((coordinates, id@)));
            assert(after@.block_entities =~= before.block_entities);
            assert(after@.names() =~= before.names().push(id@));
            assert(after@.names().drop_last() =~= before.names());
        }
        *self = BlocksBuilder { palette, blocks, block_entities };
    }

    /// Builds the blocks: the box that the placements span, every cell
    /// filled with [`FILL_NAME`] and then overwritten by the placements in
    /// order, and the ids of the cells packed in storage order. The box
    /// holds every placement, and measures along each axis one more than
    /// the largest coordinate placed.
    ///
    /// The cells must be no more than a `usize` counts. Where addresses have
    /// 64 bits they never are; elsewhere [`BlocksBuilder::dimensions`] and
    /// [`Dimensions::checked_volume`] tell.
    pub fn build(self) -> (blocks: Blocks)
        requires
            self@.dimensions().spec_volume() <= usize::MAX,
            self@.admits(FILL_NAME@),
        ensures
            blocks@ == self@.built(),
            forall|i: int|
                0 <= i < self@.placements.len() ==> blocks@.dimensions.spec_contains(
                    &(#[trigger] self@.placements[i]).0,
                ),
            blocks@.dimensions.width == 1 || exists|i: int|
                0 <= i < self@.placements.len() && (#[trigger] self@.placements[i]).0.x + 1
                    == blocks@.dimensions.width,
            blocks@.dimensions.height == 1 || exists|i: int|
                0 <= i < self@.placements.len() && (#[trigger] self@.placements[i]).0.y + 1
                    == blocks@.dimensions.height,
            blocks@.dimensions.length == 1 || exists|i: int|
                0 <= i < self@.placements.len() && (#[trigger] self@.placements[i]).0.z + 1
                    == blocks@.dimensions.length,
    {
        proof {
            use_type_invariant(&self);
            lemma_bounding_box_tight(self@.placements);
            assert forall|i: int| 0 <= i < self@.placements.len() implies bounding_box(
                self@.placements,
            ).spec_contains(&(#[trigger] self@.placements[i]).0) by {
                lemma_bounding_box_holds(self@.placements, i);
            }
        }
        let dimensions = self.dimensions();
        let ghost placements = self@.placements;
        proof {
            crate::palette::lemma_interned_holds(self@.names());
        }
        let BlocksBuilder { mut palette, blocks, block_entities } = self;
        let ghost names_before = palette@;
        let fill = palette.get_id_or_insert(FILL_NAME);
        let ghost names = palette@;
        proof {
            use_type_invariant(&palette);
            assert forall|i: int| 0 <= i < blocks@.len() implies names.index_of(placements[i].1)
                == blocks@[i].1 by {
                assert(names[blocks@[i].1 as int] == names_before[blocks@[i].1 as int]);
                crate::palette::lemma_index_of_place(names, blocks@[i].1 as int);
            }
            crate::palette::lemma_index_of_place(names, fill as int);
        }
        let mut array = Array3d::new_with(dimensions, fill);
        let mut i: usize = 0;
        proof {
            assert(placements.take(0) =~= Seq::<(Coordinates, Seq<char>)>::empty());
            assert(array@ =~= grid_ids(placements.take(0), FILL_NAME@, dimensions, names));
        }
        while i < blocks.len()
            invariant
                i <= blocks.len(),
                placements.len() == blocks@.len(),
                forall|j: int|
                    0 <= j < blocks@.len() ==> placements[j].0 == blocks@[j].0 && names.index_of(
                        placements[j].1,
                    ) == blocks@[j].1,
                array.dimensions() == dimensions,
                array@ == grid_ids(placements.take(i as int), FILL_NAME@, dimensions, names),
            decreases blocks.len() - i,
        {
            let ghost cells = array@;
            array.set(&blocks[i].0, blocks[i].1);
            proof {
                let upto = placements.take(i + 1);
                let at = blocks@[i as int].0;
                assert(upto.drop_last() =~= placements.take(i as int));
                assert(upto.last() == placements[i as int]);
                if dimensions.spec_contains(&at) {
                    crate::grid::lemma_linear_index_in_volume(at, dimensions);
                }
                assert forall|j: int| 0 <= j < dimensions.spec_volume() implies array@[j]
                    == grid_ids(upto, FILL_NAME@, dimensions, names)[j] by {
                    assert(cells[j] == names.index_of(
                        cell_at(placements.take(i as int), FILL_NAME@, dimensions, j),
                    ) as u32);
                }
                assert(array@ =~= grid_ids(upto, FILL_NAME@, dimensions, names));
            }
            i += 1;
        }
        assert(placements.take(i as int) =~= placements);
        let cells = array.xzy_contents();
        let mut data = VarintArray::new();
        let mut k: usize = 0;
        assert(cells@.take(0) =~= Seq::<u32>::empty());
        while k < cells.len()
            invariant
                k <= cells.len(),
                data@ == packed(cells@.take(k as int)),
            decreases cells.len() - k,
        {
            proof {
                let upto = cells@.take(k + 1);
                assert(upto.drop_last() =~= cells@.take(k as int));
                assert(upto.last() == cells@[k as int]);
            }
            data.push_u32(cells[k]);
            k += 1;
        }
        assert(cells@.take(k as int) =~= cells@);
        Blocks { palette, data, block_entities, dimensions }
    }
}

/// The box that placements span holds each of them: a placement at the
/// largest coordinates placed is inside.
pub proof fn lemma_bounding_box_holds(placements: Seq<(Coordinates, Seq<char>)>, i: int)
    requires
        0 <= i < placements.len(),
        forall|j: int| 0 <= j < placements.len() ==> (#[trigger] placements[j]).0.in_range(),
    ensures
        bounding_box(placements).spec_contains(&placements[i].0),
    decreases placements.len(),
{
    let before = placements.drop_last();
    assert forall|j: int| 0 <= j < before.len() implies (#[trigger] before[j]).0.in_range() by {
        assert(before[j] == placements[j]);
    }
    lemma_bounding_box_tight(before);
    if i < placements.len() - 1 {
        lemma_bounding_box_holds(before, i);
        assert(before[i] == placements[i]);
    }
}

/// The box that placements span has at most as many cells as there are
/// positions in range: a number that fits in 48 bits.
pub proof fn lemma_bounding_box_volume(placements: Seq<(Coordinates, Seq<char>)>)
    requires
        forall|j: int| 0 <= j < placements.len() ==> (#[trigger] placements[j]).0.in_range(),
    ensures
        1 <= bounding_box(placements).spec_volume() <= 0x1_0000_0000_0000,
{
    lemma_bounding_box_tight(placements);
    let d = bounding_box(placements);
    let (w, h, l) = (d.width as int, d.height as int, d.length as int);
    assert(1 <= w * h * l <= 0x1_0000_0000_0000) by (nonlinear_arith)
        requires
            1 <= w <= 0x1_0000,
            1 <= h <= 0x1_0000,
            1 <= l <= 0x1_0000,
    ;
}

/// The box that placements span is no larger than they need: along each
/// axis it measures one more than the largest coordinate placed, and one
/// where nothing was placed beyond zero.
pub proof fn lemma_bounding_box_tight(placements: Seq<(Coordinates, Seq<char>)>)
    requires
        forall|j: int| 0 <= j < placements.len() ==> (#[trigger] placements[j]).0.in_range(),
    ensures
        ({
            let d = bounding_box(placements);
            &&& 1 <= d.width <= MAX_COORDINATE + 1
            &&& 1 <= d.height <= MAX_COORDINATE + 1
            &&& 1 <= d.length <= MAX_COORDINATE + 1
            &&& d.width == 1 || exists|j: int|
                0 <= j < placements.len() && (#[trigger] placements[j]).0.x + 1 == d.width
            &&& d.height == 1 || exists|j: int|
                0 <= j < placements.len() && (#[trigger] placements[j]).0.y + 1 == d.height
            &&& d.length == 1 || exists|j: int|
                0 <= j < placements.len() && (#[trigger] placements[j]).0.z + 1 == d.length
        }),
    decreases placements.len(),
{
    if placements.len() > 0 {
        let before = placements.drop_last();
        let last = placements.len() - 1;
        assert forall|j: int| 0 <= j < before.len() implies (#[trigger] before[j]).0.in_range() by {
            assert(before[j] == placements[j]);
        }
        lemma_bounding_box_tight(before);
        let was = bounding_box(before);
        let d = bounding_box(placements);
        assert(placements[last].0.in_range());
        if d.width != 1 {
            if d.width == was.width {
                let j = choose|j: int|
                    0 <= j < before.len() && (#[trigger] before[j]).0.x + 1 == was.width;
                assert(placements[j].0.x + 1 == d.width);
            } else {
                assert(placements[last].0.x + 1 == d.width);
            }
        }
        if d.height != 1 {
            if d.height == was.height {
                let j = choose|j: int|
                    0 <= j < before.len() && (#[trigger] before[j]).0.y + 1 == was.height;
                assert(placements[j].0.y + 1 == d.height);
            } else {
                assert(placements[last].0.y + 1 == d.height);
            }
        }
        if d.length != 1 {
            if d.length == was.length {
                let j = choose|j: int|
                    0 <= j < before.len() && (#[trigger] before[j]).0.z + 1 == was.length;
                assert(placements[j].0.z + 1 == d.length);
            } else {
                assert(placements[last].0.z + 1 == d.length);
            }
        }
    }
}

/// A placement inside the box sets the cell at its position and no other:
/// it overrides what was placed there before.
pub proof fn lemma_last_write_wins(
    placements: Seq<(Coordinates, Seq<char>)>,
    placement: (Coordinates, Seq<char>),
    fill: Seq<char>,
    dimensions: Dimensions,
    index: int,
)
    requires
        dimensions.spec_contains(&placement.0),
    ensures
        cell_at(placements.push(placement), fill, dimensions, index) == if index
            == placement.0.spec_linear_in(&dimensions).unwrap() {
            placement.1
        } else {
            cell_at(placements, fill, dimensions, index)
        },
{
    assert(placements.push(placement).drop_last() =~= placements);
}

/// A placement outside the box is passed over: every cell stays as it was.
pub proof fn lemma_outside_placement_dropped(
    placements: Seq<(Coordinates, Seq<char>)>,
    placement: (Coordinates, Seq<char>),
    fill: Seq<char>,
    dimensions: Dimensions,
    index: int,
)
    requires
        !dimensions.spec_contains(&placement.0),
    ensures
        cell_at(placements.push(placement), fill, dimensions, index) == cell_at(
            placements,
            fill,
            dimensions,
            index,
        ),
{
    assert(placements.push(placement).drop_last() =~= placements);
}

/// What is built depends on the placements and the block entities alone:
/// two builders that gathered the same, in the same order, build the same
/// palette and the same packed bytes.
pub proof fn lemma_build_deterministic(one: BuilderView, other: BuilderView)
    requires
        one.placements == other.placements,
        one.block_entities == other.block_entities,
    ensures
        one.built() == other.built(),
{
}

/// The name in a cell is the fill name or a name that was placed.
pub proof fn lemma_cell_name(
    placements: Seq<(Coordinates, Seq<char>)>,
    fill: Seq<char>,
    dimensions: Dimensions,
    index: int,
)
    ensures
        cell_at(placements, fill, dimensions, index) == fill || exists|i: int|
            0 <= i < placements.len() && (#[trigger] placements[i]).1 == cell_at(
                placements,
                fill,
                dimensions,
                index,
            ),
    decreases placements.len(),
{
    if placements.len() > 0 {
        let before = placements.drop_last();
        let name = cell_at(placements, fill, dimensions, index);
        if placements.last().0.spec_linear_in(&dimensions) == Some(index) {
            assert(placements[placements.len() - 1].1 == name);
        } else {
            lemma_cell_name(before, fill, dimensions, index);
            if name != fill {
                let i = choose|i: int| 0 <= i < before.len() && (#[trigger] before[i]).1 == name;
                assert(placements[i].1 == name);
            }
        }
    }
}

/// The id packed for a cell is an id of the palette built, and the palette
/// holds under it the name of the block in the cell.
pub proof fn lemma_built_ids(view: BuilderView, index: int)
    requires
        0 <= index < view.dimensions().spec_volume(),
        view.built().palette.len() <= MAX_PALETTE,
    ensures
        ({
            let built = view.built();
            let id = grid_ids(view.placements, FILL_NAME@, view.dimensions(), built.palette)[index];
            &&& id < built.palette.len()
            &&& built.palette[id as int] == cell_at(
                view.placements,
                FILL_NAME@,
                view.dimensions(),
                index,
            )
        }),
{
    let palette = view.built().palette;
    let name = cell_at(view.placements, FILL_NAME@, view.dimensions(), index);
    crate::palette::lemma_interned_holds(view.names());
    crate::palette::lemma_intern_idempotent(view.palette(), FILL_NAME@);
    lemma_cell_name(view.placements, FILL_NAME@, view.dimensions(), index);
    if name != FILL_NAME@ {
        let i = choose|i: int|
            0 <= i < view.placements.len() && (#[trigger] view.placements[i]).1 == name;
        assert(view.names()[i] == name);
        assert(view.palette().contains(name));
        let at = view.palette().index_of(name);
        assert(palette[at] == name);
    }
    assert(palette.contains(name));
}

/// The packed data hold one id for each cell of the box, in storage order:
/// reading them gives the grid back, and the size that the document states
/// is the size of what is packed.
pub proof fn lemma_built_data(view: BuilderView)
    ensures
        ({
            let built = view.built();
            let ids = grid_ids(view.placements, FILL_NAME@, built.dimensions, built.palette);
            &&& crate::varint::varint_values(crate::varint::unsigned_bytes(built.data))
                == ids.map_values(|id: u32| id as nat)
            &&& ids.len() == built.dimensions.spec_volume()
        }),
{
    let built = view.built();
    crate::varint::lemma_packed_round_trip(
        grid_ids(view.placements, FILL_NAME@, built.dimensions, built.palette),
    );
}

/// A block entity writes its position and its name, and its data where it
/// has any: one without data leaves no entry for them.
pub proof fn lemma_block_entity_fields(entity: BlockEntityView)
    ensures
        forall|name: Seq<char>| #[trigger]
            block_entity_entries(entity).dom().contains(name) <==> {
                ||| name == "Pos"@
                ||| name == "Id"@
                ||| entity.data.is_some() && name == "Data"@
            },
        "Data"@ != "Pos"@ && "Data"@ != "Id"@ && "Pos"@ != "Id"@,
        block_entity_entries(entity)["Pos"@] == TagValue::IntArray(
            seq![entity.pos.x as i32, entity.pos.y as i32, entity.pos.z as i32],
        ),
        block_entity_entries(entity)["Id"@] == TagValue::String(entity.id),
        entity.data matches Some(data) ==> block_entity_entries(entity)["Data"@]
            == TagValue::Compound(data),
{
    reveal_strlit("Pos");
    reveal_strlit("Id");
    reveal_strlit("Data");
    assert("Pos"@.len() == 3 && "Id"@.len() == 2 && "Data"@.len() == 4);
}

/// The blocks write their palette, their packed cells and their block
/// entities, each under its own name, and nothing else.
pub proof fn lemma_blocks_fields(blocks: BlocksView)
    ensures
        forall|name: Seq<char>| #[trigger]
            blocks_entries(blocks).dom().contains(name) <==> {
                ||| name == "Palette"@
                ||| name == "Data"@
                ||| name == "BlockEntities"@
            },
        "Palette"@ != "Data"@ && "Palette"@ != "BlockEntities"@ && "Data"@ != "BlockEntities"@,
        blocks_entries(blocks)["Palette"@] == TagValue::Compound(palette_entries(blocks.palette)),
        blocks_entries(blocks)["Data"@] == TagValue::ByteArray(blocks.data),
        blocks_entries(blocks)["BlockEntities"@] == TagValue::List(
            blocks.block_entities.map_values(
                |entity: BlockEntityView| TagValue::Compound(block_entity_entries(entity)),
            ),
        ),
{
    reveal_strlit("Palette");
    reveal_strlit("Data");
    reveal_strlit("BlockEntities");
    assert("Palette"@.len() == 7 && "Data"@.len() == 4 && "BlockEntities"@.len() == 13);
}

} // verus!
