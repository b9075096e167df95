//! From lines of text to a schematic. A line holds three coordinates, a block
//! name and, behind them, block data where there is any, all parted by single
//! spaces.

use crate::blocks::{BlockEntity, BlockEntityView, BlocksBuilder, BuilderView, FILL_NAME};
use crate::grid::Coordinates;
use crate::nbt::{
    backslashes_before, compound_entries, is_wide, opening_brackets, parse_snbt, snbt_parsed,
    snbt_text_safe, TagValue, MAX_SNBT_BRACKETS,
};
use crate::palette::{intern, interned, MAX_PALETTE};
use crate::schematic::{
    Metadata, MetadataView, Schematic, SchematicBuilder, SchematicView, MAX_SIZE,
};
use crate::text::{
    chars_of, find_space, first_space, parse_u16, split_fields, u16_of_text, IntErrorKind,
};
use quartz_nbt::snbt::SnbtError;
use quartz_nbt::NbtCompound;
use vstd::prelude::*;

verus! {

/// The most fields that a line has: the fifth holds the block data, spaces
/// and all.
pub const LINE_FIELDS: usize = 5;

/// What a line says.
pub struct LineView {
    pub position: (u16, u16, u16),
    pub block_id: Seq<char>,
    pub nbt: Option<Map<Seq<char>, TagValue>>,
}

/// The kinds of fault in a line.
#[derive(Debug, Clone, Copy, PartialEq, Eq, Structural)]
pub enum LineErrorKind {
    /// The line ends before the block name.
    EarlyEnd,
    /// The block data were not read: the parser found a fault in them, or
    /// they were not handed to it.
    Nbt,
    /// A coordinate is no 16-bit unsigned number.
    Int(IntErrorKind),
}

/// The number in field `i`, or the fault of the line at that field.
pub open spec fn number_field(fields: Seq<Seq<char>>, i: int) -> Result<u16, LineErrorKind> {
    if fields.len() <= i {
        Err(LineErrorKind::EarlyEnd)
    } else {
        match u16_of_text(fields[i]) {
            Ok(number) => Ok(number),
            Err(kind) => Err(LineErrorKind::Int(kind)),
        }
    }
}

/// The block data that `text` holds. A text that is not handed to the
/// parser holds none, as one that the parser does not read as data.
pub open spec fn data_field(text: Seq<char>) -> Result<Map<Seq<char>, TagValue>, LineErrorKind> {
    if snbt_text_safe(text) {
        match snbt_parsed(text) {
            Some(entries) => Ok(entries),
            None => Err(LineErrorKind::Nbt),
        }
    } else {
        Err(LineErrorKind::Nbt)
    }
}

/// What `text` says as a line, or the first fault in it, going from the
/// left.
pub open spec fn parsed_line(text: Seq<char>) -> Result<LineView, LineErrorKind> {
    let fields = split_fields(text, LINE_FIELDS as nat);
    match number_field(fields, 0) {
        Err(kind) => Err(kind),
        Ok(x) => match number_field(fields, 1) {
            Err(kind) => Err(kind),
            Ok(y) => match number_field(fields, 2) {
                Err(kind) => Err(kind),
                Ok(z) => if fields.len() < 4 {
                    Err(LineErrorKind::EarlyEnd)
                } else if fields.len() < 5 {
                    Ok(LineView { position: (x, y, z), block_id: fields[3], nbt: None })
                } else {
                    match data_field(fields[4]) {
                        Err(kind) => Err(kind),
                        Ok(entries) => Ok(
                            LineView {
                                position: (x, y, z),
                                block_id: fields[3],
                                nbt: Some(entries),
                            },
                        ),
                    }
                },
            },
        },
    }
}

/// Why block data were not read.
#[derive(Debug)]
pub enum NbtError {
    /// The parser found this fault.
    Parser(SnbtError),
    /// The text was not handed to the parser: it holds too many opening
    /// brackets, or escapes a character of three bytes or more.
    Refused,
}

/// A fault in a line.
#[derive(Debug)]
pub enum LineParseError {
    /// The line ends before the block name.
    EarlyEnd,
    /// The block data were not read.
    NbtParseError(NbtError),
    /// A coordinate is no 16-bit unsigned number.
    IntParseError(IntErrorKind),
}

impl View for LineParseError {
    type V = LineErrorKind;

    open spec fn view(&self) -> LineErrorKind {
        match self {
            LineParseError::EarlyEnd => LineErrorKind::EarlyEnd,
            LineParseError::NbtParseError(_) => LineErrorKind::Nbt,
            LineParseError::IntParseError(kind) => LineErrorKind::Int(*kind),
        }
    }
}

impl From<SnbtError> for LineParseError {
    fn from(value: SnbtError) -> (error: Self) {
        LineParseError::NbtParseError(NbtError::Parser(value))
    }
}

impl vstd::std_specs::convert::FromSpecImpl<SnbtError> for LineParseError {
    open spec fn obeys_from_spec() -> bool {
        true
    }

    open spec fn from_spec(value: SnbtError) -> Self {
        LineParseError::NbtParseError(NbtError::Parser(value))
    }
}

/// One line: a block at a position, with or without data.
#[derive(Debug)]
pub struct Line {
    pub position: (u16, u16, u16),
    pub block_id: String,
    pub nbt: Option<NbtCompound>,
}

impl View for Line {
    type V = LineView;

    open spec fn view(&self) -> LineView {
        LineView {
            position: self.position,
            block_id: self.block_id@,
            nbt: match self.nbt {
                Some(data) => Some(compound_entries(data)),
                None => None,
            },
        }
    }
}

/// The fields of a line as ranges of its characters: as many as the line
/// has fields, each from its first character up to the space behind it or
/// the end.
pub fn split_line(chars: &Vec<char>) -> (ranges: Vec<(usize, usize)>)
    ensures
        ranges@.len() == split_fields(chars@, LINE_FIELDS as nat).len(),
        forall|i: int|
            0 <= i < ranges@.len() ==> (#[trigger] ranges@[i]).0 <= ranges@[i].1 <= chars@.len()
                && chars@.subrange(ranges@[i].0 as int, ranges@[i].1 as int) == split_fields(
                chars@,
                LINE_FIELDS as nat,
            )[i],
        1 <= ranges@.len() <= LINE_FIELDS,
        ranges@[ranges@.len() - 1].1 == chars@.len(),
{
    let ghost fields = split_fields(chars@, LINE_FIELDS as nat);
    let mut ranges: Vec<(usize, usize)> = Vec::new();
    let mut start: usize = 0;
    let mut end: usize = find_space(chars, 0);
    assert(chars@.skip(0) =~= chars@);
    while ranges.len() < 4 && end < chars.len()
        invariant
            ranges@.len() <= 4,
            start <= end <= chars@.len(),
            end == start + first_space(chars@.skip(start as int)),
            fields == split_fields(chars@, LINE_FIELDS as nat),
            fields == Seq::new(
                ranges@.len(),
                |i: int| chars@.subrange(ranges@[i].0 as int, ranges@[i].1 as int),
            ) + split_fields(chars@.skip(start as int), (LINE_FIELDS - ranges@.len()) as nat),
            forall|i: int|
                0 <= i < ranges@.len() ==> (#[trigger] ranges@[i]).0 <= ranges@[i].1
                    <= chars@.len(),
        decreases chars@.len() - start,
    {
        let ghost rest = chars@.skip(start as int);
        let ghost done = Seq::new(
            ranges@.len(),
            |i: int| chars@.subrange(ranges@[i].0 as int, ranges@[i].1 as int),
        );
        let ghost left = (LINE_FIELDS - ranges@.len()) as nat;
        ranges.push((start, end));
        proof {
            assert(rest.take(end - start) =~= chars@.subrange(start as int, end as int));
            assert(rest.skip(end - start + 1) =~= chars@.skip(end + 1));
            assert(split_fields(rest, left) == seq![rest.take(end - start)] + split_fields(
                chars@.skip(end + 1),
                (left - 1) as nat,
            ));
            let done_after = Seq::new(
                ranges@.len(),
                |i: int| chars@.subrange(ranges@[i].0 as int, ranges@[i].1 as int),
            );
            assert(done_after =~= done + seq![rest.take(end - start)]);
            assert(fields =~= done_after + split_fields(chars@.skip(end + 1), (left - 1) as nat));
        }
        start = end + 1;
        end = find_space(chars, start);
    }
    let ghost rest = chars@.skip(start as int);
    let ghost done = Seq::new(
        ranges@.len(),
        |i: int| chars@.subrange(ranges@[i].0 as int, ranges@[i].1 as int),
    );
    ranges.push((start, chars.len()));
    proof {
        assert(rest =~= chars@.subrange(start as int, chars@.len() as int));
        assert(split_fields(rest, (LINE_FIELDS - done.len()) as nat) == seq![rest]);
        let done_after = Seq::new(
            ranges@.len(),
            |i: int| chars@.subrange(ranges@[i].0 as int, ranges@[i].1 as int),
        );
        assert(done_after =~= done + seq![rest]);
        assert(fields =~= done_after);
    }
    ranges
}

/// The number in field `i` of a line.
fn number_at(chars: &Vec<char>, ranges: &Vec<(usize, usize)>, i: usize) -> (number: Result<
    u16,
    LineParseError,
>)
    requires
        forall|i: int|
            0 <= i < ranges@.len() ==> (#[trigger] ranges@[i]).0 <= ranges@[i].1 <= chars@.len(),
    ensures
        match number {
            Ok(n) => number_field(
                Seq::new(
                    ranges@.len(),
                    |i: int| chars@.subrange(ranges@[i].0 as int, ranges@[i].1 as int),
                ),
                i as int,
            ) == Ok::<u16, LineErrorKind>(n),
            Err(error) => number_field(
                Seq::new(
                    ranges@.len(),
                    |i: int| chars@.subrange(ranges@[i].0 as int, ranges@[i].1 as int),
                ),
                i as int,
            ) == Err::<u16, LineErrorKind>(error@),
        },
{
    if ranges.len() <= i {
        return Err(LineParseError::EarlyEnd);
    }
    match parse_u16(chars, ranges[i].0, ranges[i].1) {
        Ok(number) => Ok(number),
        Err(kind) => Err(LineParseError::IntParseError(kind)),
    }
}

/// Whether the characters from `from` on may be handed to the parser of
/// block data.
fn text_is_safe(chars: &Vec<char>, from: usize) -> (safe: bool)
    requires
        from <= chars@.len(),
    ensures
        safe == snbt_text_safe(chars@.skip(from as int)),
{
    let ghost text = chars@.skip(from as int);
    let mut brackets: usize = 0;
    let mut escaped: bool = false;
    let mut at: usize = from;
    assert(text.take(0) =~= Seq::<char>::empty());
    while at < chars.len()
        invariant
            from <= at <= chars@.len(),
            text == chars@.skip(from as int),
            brackets == opening_brackets(text.take(at - from)),
            brackets <= at - from,
            escaped == (backslashes_before(text, at - from) % 2 == 1),
            forall|i: int|
                0 <= i < at - from && is_wide(#[trigger] text[i]) ==> backslashes_before(text, i)
                    % 2 == 0,
        decreases chars@.len() - at,
    {
        let c = chars[at];
        proof {
            let upto = text.take(at - from + 1);
            assert(upto.drop_last() =~= text.take(at - from));
            assert(upto.last() == c);
            assert(text[at - from] == c);
        }
        if escaped && c as u32 >= 0x800 {
            return false;
        }
        if c == '{' || c == '[' {
            brackets += 1;
        }
        escaped = c == '\\' && !escaped;
        at += 1;
    }
    assert(text.take(at - from) =~= text);
    brackets <= MAX_SNBT_BRACKETS
}

impl Line {
    /// The line with the block data that the parser made of its fifth
    /// field, or the fault that the parser found.
    pub fn with_data(
        position: (u16, u16, u16),
        block_id: String,
        parsed: Result<NbtCompound, SnbtError>,
    ) -> (line: Result<Line, LineParseError>)
        ensures
            match line {
                Ok(line) => parsed.is_ok() && line@ == (LineView {
                    position,
                    block_id: block_id@,
                    nbt: Some(compound_entries(parsed.unwrap())),
                }),
                Err(error) => parsed.is_err() && error == LineParseError::NbtParseError(
                    NbtError::Parser(parsed.unwrap_err()),
                ),
            },
    {
        match parsed {
            Ok(data) => Ok(Line { position, block_id, nbt: Some(data) }),
            Err(error) => Err(LineParseError::from(error)),
        }
    }

    /// Reads one line. A line that is faulty anywhere gives no part of
    /// itself: it is an error as a whole. Block data that are not handed to
    /// the parser are a fault of the same kind as those in which the parser
    /// finds one; what the error holds tells the two apart.
    pub fn parse(s: &str) -> (line: Result<Line, LineParseError>)
        ensures
            match line {
                Ok(line) => parsed_line(s@) == Ok::<LineView, LineErrorKind>(line@),
                Err(error) => parsed_line(s@) == Err::<LineView, LineErrorKind>(error@),
            },
            line matches Err(LineParseError::NbtParseError(fault)) ==> (fault is Refused
                <==> !snbt_text_safe(split_fields(s@, LINE_FIELDS as nat)[4])),
    {
        let chars = chars_of(s);
        let ranges = split_line(&chars);
        let ghost fields = split_fields(s@, LINE_FIELDS as nat);
        assert(fields =~= Seq::new(
            ranges@.len(),
            |i: int| chars@.subrange(ranges@[i].0 as int, ranges@[i].1 as int),
        ));
        let x = match number_at(&chars, &ranges, 0) {
            Ok(x) => x,
            Err(error) => {
                return Err(error);
            },
        };
        let y = match number_at(&chars, &ranges, 1) {
            Ok(y) => y,
            Err(error) => {
                return Err(error);
            },
        };
        let z = match number_at(&chars, &ranges, 2) {
            Ok(z) => z,
            Err(error) => {
                return Err(error);
            },
        };
        if ranges.len() < 4 {
            return Err(LineParseError::EarlyEnd);
        }
        let block_id = s.substring_char(ranges[3].0, ranges[3].1).to_owned();
        if ranges.len() < 5 {
            return Ok(Line { position: (x, y, z), block_id, nbt: None });
        }
        let text = s.substring_char(ranges[4].0, ranges[4].1);
        assert(ranges@[4].1 == chars@.len());
        assert(text@ =~= chars@.skip(ranges@[4].0 as int));
        if !text_is_safe(&chars, ranges[4].0) {
            return Err(LineParseError::NbtParseError(NbtError::Refused));
        }
        Line::with_data((x, y, z), block_id, parse_snbt(text))
    }
}

/// The name that a schematic made from lines bears.
pub const SCHEMATIC_NAME: &'static str = "Schematic";

/// The author that a schematic made from lines names.
pub const SCHEMATIC_AUTHOR: &'static str = "schematic_assembler";

/// The position that a line gives, as coordinates.
pub open spec fn coordinates_of(position: (u16, u16, u16)) -> Coordinates {
    Coordinates { x: position.0 as usize, y: position.1 as usize, z: position.2 as usize }
}

/// The placements that `lines` make: one for each line, in order.
pub open spec fn placements_of(lines: Seq<LineView>) -> Seq<(Coordinates, Seq<char>)> {
    lines.map_values(|line: LineView| (coordinates_of(line.position), line.block_id))
}

/// The block entities that `lines` make: one for each line with block data,
/// in order, at the position and with the name of its line.
pub open spec fn block_entities_of(lines: Seq<LineView>) -> Seq<BlockEntityView>
    decreases lines.len(),
{
    if lines.len() == 0 {
        Seq::empty()
    } else {
        let before = block_entities_of(lines.drop_last());
        let line = lines.last();
        match line.nbt {
            Some(data) => before.push(
                BlockEntityView {
                    pos: coordinates_of(line.position),
                    id: line.block_id,
                    data: Some(data),
                },
            ),
            None => before,
        }
    }
}

/// What a builder has gathered when it has taken `lines`.
pub open spec fn gathered(lines: Seq<LineView>) -> BuilderView {
    BuilderView { placements: placements_of(lines), block_entities: block_entities_of(lines) }
}

/// Whether a schematic can hold `lines`: the palette has room for their
/// names and the fill name, the grid that they span can be laid out in
/// memory, and the document can state its size, which it holds in sixteen
/// bits for each axis.
pub open spec fn within_limits(lines: Seq<LineView>) -> bool {
    &&& intern(gathered(lines).palette(), FILL_NAME@).len() <= MAX_PALETTE
    &&& gathered(lines).dimensions().spec_volume() <= usize::MAX
    &&& gathered(lines).dimensions().width <= MAX_SIZE
    &&& gathered(lines).dimensions().height <= MAX_SIZE
    &&& gathered(lines).dimensions().length <= MAX_SIZE
}

/// The schematic that `lines` make: their blocks under a fixed name and
/// author, with no offset and no other section.
pub open spec fn schematic_of(lines: Seq<LineView>) -> SchematicView {
    SchematicView {
        offset: None,
        metadata: MetadataView {
            name: SCHEMATIC_NAME@,
            author: SCHEMATIC_AUTHOR@,
            required_mods: Seq::empty(),
        },
        blocks: gathered(lines).built(),
        biomes: None,
        entities: false,
    }
}

/// The palette of a part of the names is no longer than that of all.
pub proof fn lemma_interned_prefix(names: Seq<Seq<char>>, k: int)
    requires
        0 <= k <= names.len(),
    ensures
        interned(names.take(k)).len() <= interned(names).len(),
    decreases names.len(),
{
    if k == names.len() {
        assert(names.take(k) =~= names);
    } else {
        assert(names.drop_last().take(k) =~= names.take(k));
        lemma_interned_prefix(names.drop_last(), k);
    }
}

/// Makes a schematic from lines: each line places its block, and a line
/// with block data adds a block entity at the same position. `None` where
/// the lines are beyond what a schematic can hold.
pub fn make_schematic(lines: Vec<Line>) -> (made: Option<Schematic>)
    ensures
        match made {
            Some(schematic) => within_limits(lines@.map_values(|line: Line| line@)) && schematic@
                == schematic_of(lines@.map_values(|line: Line| line@)),
            None => !within_limits(lines@.map_values(|line: Line| line@)),
        },
{
    let ghost views = lines@.map_values(|line: Line| line@);
    let ghost names = gathered(views).names();
    let mut builder = BlocksBuilder::new();
    let mut i: usize = 0;
    proof {
        assert(views.take(0) =~= Seq::<LineView>::empty());
        assert(builder@.placements =~= placements_of(views.take(0)));
        assert(builder@.block_entities =~= block_entities_of(views.take(0)));
    }
    while i < lines.len()
        invariant
            i <= lines.len(),
            views == lines@.map_values(|line: Line| line@),
            names == gathered(views).names(),
            builder@ == gathered(views.take(i as int)),
        decreases lines.len() - i,
    {
        let line = &lines[i];
        let coordinates = Coordinates::from(line.position);
        proof {
            let upto = views.take(i + 1);
            assert(upto.drop_last() =~= views.take(i as int));
            assert(upto.last() == line@);
            assert(placements_of(upto) =~= placements_of(views.take(i as int)).push(
                (coordinates, line.block_id@),
            ));
            assert(gathered(upto).names() =~= names.take(i + 1));
            assert(gathered(views.take(i as int)).names() =~= names.take(i as int));
            assert(names.take(i + 1).drop_last() =~= names.take(i as int));
            assert(names.take(i + 1).last() == line.block_id@);
        }
        let palette = builder.palette();
        if palette.len() >= MAX_PALETTE && !palette.contains(line.block_id.as_str()) {
            proof {
                lemma_interned_prefix(names, i + 1);
            }
            return None;
        }
        builder.add_block(coordinates, line.block_id.as_str());
        match &line.nbt {
            Some(data) => {
                let id = line.block_id.clone();
                builder.add_block_entity(BlockEntity::new(coordinates, id, Some(data.clone())));
            },
            None => {},
        }
        i += 1;
    }
    assert(views.take(i as int) =~= views);
    let palette = builder.palette();
    if palette.len() >= MAX_PALETTE && !palette.contains(FILL_NAME) {
        return None;
    }
    let dimensions = builder.dimensions();
    if dimensions.checked_volume().is_none() {
        return None;
    }
    if dimensions.width > MAX_SIZE || dimensions.height > MAX_SIZE || dimensions.length
        > MAX_SIZE {
        return None;
    }
    let blocks = builder.build();
    let metadata = Metadata {
        name: SCHEMATIC_NAME.to_owned(),
        author: SCHEMATIC_AUTHOR.to_owned(),
        required_mods: Vec::new(),
    };
    assert(metadata@.required_mods =~= Seq::<Seq<char>>::empty());
    match SchematicBuilder::default().blocks(blocks).metadata(metadata).build() {
        Ok(schematic) => Some(schematic),
        Err(_) => None,
    }
}

} // verus!
