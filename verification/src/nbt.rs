//! The tagged values of the document, as `quartz_nbt` holds them, and what
//! this library takes on trust about building and reading them. Nothing in
//! this file is proved: each contract says what the source of `quartz_nbt`
//! shows of the item it names.

use quartz_nbt::snbt::SnbtError;
use quartz_nbt::{NbtCompound, NbtList, NbtTag};
use vstd::prelude::*;

verus! {

/// What a tag holds, as a mathematical value. The two floating-point kinds
/// stand by their bit patterns.
pub enum TagValue {
    Byte(i8),
    Short(i16),
    Int(i32),
    Long(i64),
    Float(u32),
    Double(u64),
    ByteArray(Seq<i8>),
    String(Seq<char>),
    List(Seq<TagValue>),
    Compound(Map<Seq<char>, TagValue>),
    IntArray(Seq<i32>),
    LongArray(Seq<i64>),
}

/// `quartz_nbt::NbtTag`: one tagged value.
#[verifier::external_type_specification]
#[verifier::external_body]
pub struct ExNbtTag(NbtTag);

/// `quartz_nbt::NbtCompound`: tags by name.
#[verifier::external_type_specification]
#[verifier::external_body]
pub struct ExNbtCompound(NbtCompound);

/// `quartz_nbt::NbtList`: tags in order.
#[verifier::external_type_specification]
#[verifier::external_body]
pub struct ExNbtList(NbtList);

/// `quartz_nbt::snbt::SnbtError`: why a text is no compound.
#[verifier::external_type_specification]
#[verifier::external_body]
pub struct ExSnbtError(SnbtError);

/// What `tag` holds.
pub uninterp spec fn tag_value(tag: NbtTag) -> TagValue;

/// The entries of `compound`, by name.
pub uninterp spec fn compound_entries(compound: NbtCompound) -> Map<Seq<char>, TagValue>;

/// The items of `list`, in order.
pub uninterp spec fn list_items(list: NbtList) -> Seq<TagValue>;

/// What `snbt::parse` makes of `text`: the entries of the compound that it
/// reads, or `None` where it reports an error.
pub uninterp spec fn snbt_parsed(text: Seq<char>) -> Option<Map<Seq<char>, TagValue>>;

/// `NbtTag::Short` holds the integer given.
#[verifier::external_body]
pub(crate) fn tag_short(value: i16) -> (tag: NbtTag)
    ensures
        tag_value(tag) == TagValue::Short(value),
{
    NbtTag::Short(value)
}

/// `NbtTag::Int` holds the integer given.
#[verifier::external_body]
pub(crate) fn tag_int(value: i32) -> (tag: NbtTag)
    ensures
        tag_value(tag) == TagValue::Int(value),
{
    NbtTag::Int(value)
}

/// `NbtTag::Long` holds the integer given.
#[verifier::external_body]
pub(crate) fn tag_long(value: i64) -> (tag: NbtTag)
    ensures
        tag_value(tag) == TagValue::Long(value),
{
    NbtTag::Long(value)
}

/// `NbtTag::String` holds the text given.
#[verifier::external_body]
pub(crate) fn tag_string(text: String) -> (tag: NbtTag)
    ensures
        tag_value(tag) == TagValue::String(text@),
{
    NbtTag::String(text)
}

/// `NbtTag::ByteArray` holds the bytes given, in order.
#[verifier::external_body]
pub(crate) fn tag_byte_array(bytes: Vec<i8>) -> (tag: NbtTag)
    ensures
        tag_value(tag) == TagValue::ByteArray(bytes@),
{
    NbtTag::ByteArray(bytes)
}

/// `NbtTag::IntArray` holds the integers given, in order.
#[verifier::external_body]
pub(crate) fn tag_int_array(values: Vec<i32>) -> (tag: NbtTag)
    ensures
        tag_value(tag) == TagValue::IntArray(values@),
{
    NbtTag::IntArray(values)
}

/// `NbtTag::List` holds the items of the list given.
#[verifier::external_body]
pub(crate) fn tag_list(list: NbtList) -> (tag: NbtTag)
    ensures
        tag_value(tag) == TagValue::List(list_items(list)),
{
    NbtTag::List(list)
}

/// `NbtTag::Compound` holds the entries of the compound given.
#[verifier::external_body]
pub(crate) fn tag_compound(compound: NbtCompound) -> (tag: NbtTag)
    ensures
        tag_value(tag) == TagValue::Compound(compound_entries(compound)),
{
    NbtTag::Compound(compound)
}

/// `NbtCompound::new` gives a compound without entries.
pub assume_specification[ NbtCompound::new ]() -> (compound: NbtCompound)
    ensures
        compound_entries(compound) == (Map::<Seq<char>, TagValue>::empty()),
;

/// `NbtCompound::insert` sets the entry under `name` to `tag`, in place of
/// an entry that stood under that name, and leaves the other entries.
#[verifier::external_body]
pub(crate) fn compound_insert(compound: &mut NbtCompound, name: &str, tag: NbtTag)
    ensures
        compound_entries(*final(compound)) == compound_entries(*old(compound)).insert(
            name@,
            tag_value(tag),
        ),
{
    compound.insert(name, tag);
}

/// `NbtCompound::clone` gives a compound with the same entries.
pub assume_specification[ <NbtCompound as Clone>::clone ](compound: &NbtCompound) -> (copy:
    NbtCompound)
    ensures
        compound_entries(copy) == compound_entries(*compound),
;

/// `NbtList::new` gives a list without items.
pub assume_specification[ NbtList::new ]() -> (list: NbtList)
    ensures
        list_items(list) == Seq::<TagValue>::empty(),
;

/// `NbtList::push` adds `tag` behind the items of the list.
#[verifier::external_body]
pub(crate) fn list_push(list: &mut NbtList, tag: NbtTag)
    ensures
        list_items(*final(list)) == list_items(*old(list)).push(tag_value(tag)),
{
    list.push(tag);
}

/// The most opening brackets that a text handed to the parser may hold. The
/// parser calls itself once for each level of nesting, and a text has no
/// more levels than opening brackets. Which brackets open a level only the
/// parser's own reading tells, so all of them count. So many levels a stack
/// of two megabytes holds, with a third of it to spare.
pub const MAX_SNBT_BRACKETS: usize = 512;

/// Whether `c` opens a compound or a list.
pub open spec fn is_opening(c: char) -> bool {
    c == '{' || c == '['
}

/// The number of opening brackets in `text`.
pub open spec fn opening_brackets(text: Seq<char>) -> nat
    decreases text.len(),
{
    if text.len() == 0 {
        0
    } else {
        opening_brackets(text.drop_last()) + if is_opening(text.last()) {
            1nat
        } else {
            0nat
        }
    }
}

/// Whether `c` takes three bytes or more.
pub open spec fn is_wide(c: char) -> bool {
    c as u32 >= 0x800
}

/// The number of backslashes that stand one behind the other right before
/// the place `at` of `text`.
pub open spec fn backslashes_before(text: Seq<char>, at: int) -> nat
    decreases at,
{
    if at <= 0 || at > text.len() || text[at - 1] != '\\' {
        0
    } else {
        1 + backslashes_before(text, at - 1)
    }
}

/// Whether no character of three bytes or more is escaped in `text`: before
/// each of them stands an even number of backslashes, which escape one
/// another in pairs and leave none for the character.
pub open spec fn escapes_are_narrow(text: Seq<char>) -> bool {
    forall|i: int|
        0 <= i < text.len() && is_wide(#[trigger] text[i]) ==> backslashes_before(text, i) % 2
            == 0
}

/// Whether `text` may be handed to the parser: on such a text it returns,
/// with a compound or with an error.
pub open spec fn snbt_text_safe(text: Seq<char>) -> bool {
    opening_brackets(text) <= MAX_SNBT_BRACKETS && escapes_are_narrow(text)
}

/// `snbt::parse` reads a compound from the start of `text` or reports an
/// error, and which of the two, and which compound, depends on the text
/// alone. Two kinds of text are kept from it. On an unknown escape in a
/// quoted string it cuts the text two bytes before the end of the escaped
/// character, and panics where that character takes three bytes or more;
/// in a quoted string it reads backslashes in pairs from the first of a
/// run, so that a character is escaped only behind an odd number of them.
/// And it calls itself for each level of nesting, so that a text nested
/// deeply enough exhausts the stack.
#[verifier::external_body]
pub(crate) fn parse_snbt(text: &str) -> (parsed: Result<NbtCompound, SnbtError>)
    requires
        snbt_text_safe(text@),
    ensures
        match parsed {
            Ok(compound) => snbt_parsed(text@) == Some(compound_entries(compound)),
            Err(_) => snbt_parsed(text@).is_none(),
        },
{
    quartz_nbt::snbt::parse(text)
}

} // verus!
