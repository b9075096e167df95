//! Text as a run of characters: fields parted by spaces, and decimal
//! numbers.

use vstd::prelude::*;

verus! {

/// Why a text is not a 16-bit unsigned number.
#[derive(Debug, Clone, Copy, PartialEq, Eq, Structural)]
pub enum IntErrorKind {
    /// The text is empty.
    Empty,
    /// The text holds a character that is no decimal digit, or a sign alone.
    InvalidDigit,
    /// The number is too large for sixteen bits.
    PosOverflow,
}

/// Whether `c` is a decimal digit.
pub open spec fn is_digit(c: char) -> bool {
    '0' <= c <= '9'
}

/// The value of the decimal digit `c`.
pub open spec fn digit_value(c: char) -> nat {
    (c as u32 - '0' as u32) as nat
}

/// The number that `digits` spell behind a number read so far, read from
/// the left, or what goes wrong first: a character that is no digit, or a
/// value beyond sixteen bits.
pub open spec fn digits_value(digits: Seq<char>, so_far: nat) -> Result<u16, IntErrorKind>
    decreases digits.len(),
{
    if digits.len() == 0 {
        Ok(so_far as u16)
    } else if !is_digit(digits[0]) {
        Err(IntErrorKind::InvalidDigit)
    } else if so_far * 10 + digit_value(digits[0]) > u16::MAX {
        Err(IntErrorKind::PosOverflow)
    } else {
        digits_value(digits.drop_first(), so_far * 10 + digit_value(digits[0]))
    }
}

/// The 16-bit unsigned number that `text` spells: decimal digits, with or
/// without a plus sign before them.
pub open spec fn u16_of_text(text: Seq<char>) -> Result<u16, IntErrorKind> {
    if text.len() == 0 {
        Err(IntErrorKind::Empty)
    } else if text[0] == '+' {
        if text.len() == 1 {
            Err(IntErrorKind::InvalidDigit)
        } else {
            digits_value(text.drop_first(), 0)
        }
    } else {
        digits_value(text, 0)
    }
}

/// Whether `text` holds decimal digits alone.
pub open spec fn all_digits(text: Seq<char>) -> bool {
    forall|i: int| 0 <= i < text.len() ==> is_digit(#[trigger] text[i])
}

/// The number that the decimal digits `digits` spell behind the number
/// `before`: each digit counts ten times the one behind it.
pub open spec fn decimal_behind(before: nat, digits: Seq<char>) -> nat
    decreases digits.len(),
{
    if digits.len() == 0 {
        before
    } else {
        decimal_behind(before, digits.drop_last()) * 10 + digit_value(digits.last())
    }
}

/// The number that the decimal digits `digits` spell.
pub open spec fn decimal(digits: Seq<char>) -> nat {
    decimal_behind(0, digits)
}

/// The digits of a text that spells a number: the text without its plus
/// sign.
pub open spec fn unsigned_part(text: Seq<char>) -> Seq<char> {
    if text.len() > 0 && text[0] == '+' {
        text.drop_first()
    } else {
        text
    }
}

/// The place of the first space in `text`, or the length of `text` where
/// it holds none.
pub open spec fn first_space(text: Seq<char>) -> int
    decreases text.len(),
{
    if text.len() == 0 || text[0] == ' ' {
        0
    } else {
        1 + first_space(text.drop_first())
    }
}

/// The fields of `text`, which single spaces part, up to `limit` of them:
/// the last field is all that is left, spaces included.
pub open spec fn split_fields(text: Seq<char>, limit: nat) -> Seq<Seq<char>>
    decreases limit,
{
    if limit == 0 {
        Seq::empty()
    } else if limit == 1 || first_space(text) == text.len() {
        seq![text]
    } else {
        seq![text.take(first_space(text))] + split_fields(
            text.skip(first_space(text) + 1),
            (limit - 1) as nat,
        )
    }
}

/// `fields` put together again, with a space between each two.
pub open spec fn joined(fields: Seq<Seq<char>>) -> Seq<char>
    decreases fields.len(),
{
    if fields.len() == 0 {
        Seq::empty()
    } else if fields.len() == 1 {
        fields[0]
    } else {
        fields[0] + seq![' '] + joined(fields.drop_first())
    }
}

/// The first space is where no space stands before and one stands at, or
/// the end.
pub proof fn lemma_first_space(text: Seq<char>)
    ensures
        0 <= first_space(text) <= text.len(),
        forall|i: int| 0 <= i < first_space(text) ==> text[i] != ' ',
        first_space(text) < text.len() ==> text[first_space(text)] == ' ',
    decreases text.len(),
{
    if text.len() == 0 || text[0] == ' ' {
    } else {
        let rest = text.drop_first();
        lemma_first_space(rest);
        assert forall|i: int| 0 <= i < first_space(text) implies text[i] != ' ' by {
            if i > 0 {
                assert(text[i] == rest[i - 1]);
            }
        }
        if first_space(text) < text.len() {
            assert(text[first_space(text)] == rest[first_space(rest)]);
        }
    }
}

/// A place with no space before it and a space at it, or the end, is the
/// first space.
pub proof fn lemma_first_space_is(text: Seq<char>, at: int)
    requires
        0 <= at <= text.len(),
        forall|i: int| 0 <= i < at ==> text[i] != ' ',
        at < text.len() ==> text[at] == ' ',
    ensures
        first_space(text) == at,
{
    lemma_first_space(text);
    let found = first_space(text);
    if found < at {
        assert(text[found] == ' ');
    } else if found > at {
        assert(text[at] != ' ');
    }
}

/// The characters of `text`, in order.
pub fn chars_of(text: &str) -> (chars: Vec<char>)
    ensures
        chars@ == text@,
{
    let mut chars: Vec<char> = Vec::new();
    for c in it: text.chars()
        invariant
            it.seq() == text@,
            chars@ == text@.take(it.index()),
    {
        chars.push(c);
        assert(text@.take(it.index() + 1) =~= text@.take(it.index()).push(c));
    }
    assert(text@.take(text@.len() as int) =~= text@);
    chars
}

/// The place of the first space at or behind `from`, or the length of
/// `chars` where none is left.
pub fn find_space(chars: &Vec<char>, from: usize) -> (at: usize)
    requires
        from <= chars@.len(),
    ensures
        from <= at <= chars@.len(),
        at == from + first_space(chars@.skip(from as int)),
{
    let mut at: usize = from;
    while at < chars.len() && chars[at] != ' '
        invariant
            from <= at <= chars@.len(),
            forall|i: int| from <= i < at ==> chars@[i] != ' ',
        decreases chars@.len() - at,
    {
        at += 1;
    }
    proof {
        let rest = chars@.skip(from as int);
        assert forall|i: int| 0 <= i < at - from implies rest[i] != ' ' by {
            assert(rest[i] == chars@[from + i]);
        }
        lemma_first_space_is(rest, at - from);
    }
    at
}

/// The number that the characters of `chars` from `from` up to `to` spell.
pub fn parse_u16(chars: &Vec<char>, from: usize, to: usize) -> (number: Result<u16, IntErrorKind>)
    requires
        from <= to <= chars@.len(),
    ensures
        number == u16_of_text(chars@.subrange(from as int, to as int)),
{
    let ghost text = chars@.subrange(from as int, to as int);
    if from == to {
        return Err(IntErrorKind::Empty);
    }
    let mut at: usize = from;
    if chars[from] == '+' {
        if to - from == 1 {
            return Err(IntErrorKind::InvalidDigit);
        }
        at = from + 1;
        assert(text.drop_first() =~= chars@.subrange(at as int, to as int));
    }
    let mut value: u16 = 0;
    while at < to
        invariant
            from <= at <= to <= chars@.len(),
            text == chars@.subrange(from as int, to as int),
            u16_of_text(text) == digits_value(chars@.subrange(at as int, to as int), value as nat),
        decreases to - at,
    {
        let c = chars[at];
        let ghost rest = chars@.subrange(at as int, to as int);
        assert(rest[0] == c);
        assert(rest.drop_first() =~= chars@.subrange(at + 1, to as int));
        if c < '0' || c > '9' {
            return Err(IntErrorKind::InvalidDigit);
        }
        let digit: u32 = c as u32 - '0' as u32;
        let next: u32 = value as u32 * 10 + digit;
        if next > 0xffff {
            return Err(IntErrorKind::PosOverflow);
        }
        value = next as u16;
        at += 1;
    }
    assert(chars@.subrange(at as int, to as int) =~= Seq::<char>::empty());
    Ok(value)
}

/// Digits behind a number spell no less than the number.
proof fn lemma_decimal_grows(before: nat, digits: Seq<char>)
    ensures
        decimal_behind(before, digits) >= before,
    decreases digits.len(),
{
    if digits.len() > 0 {
        lemma_decimal_grows(before, digits.drop_last());
    }
}

/// Reading the first digit into the number before gives the same as
/// spelling all the digits behind it.
proof fn lemma_decimal_front(before: nat, digits: Seq<char>)
    requires
        digits.len() > 0,
    ensures
        decimal_behind(before, digits) == decimal_behind(
            before * 10 + digit_value(digits[0]),
            digits.drop_first(),
        ),
    decreases digits.len(),
{
    let first = before * 10 + digit_value(digits[0]);
    if digits.len() == 1 {
        assert(digits.drop_last() =~= Seq::<char>::empty());
        assert(digits.drop_first() =~= Seq::<char>::empty());
        assert(decimal_behind(before, digits.drop_last()) == before);
        assert(decimal_behind(first, digits.drop_first()) == first);
    } else {
        let shorter = digits.drop_last();
        let rest = digits.drop_first();
        lemma_decimal_front(before, shorter);
        assert(shorter.drop_first() =~= rest.drop_last());
        assert(rest.last() == digits.last());
        assert(shorter[0] == digits[0]);
        assert(decimal_behind(first, rest) == decimal_behind(first, rest.drop_last()) * 10
            + digit_value(rest.last()));
    }
}

/// Reading digits from the left gives the number that they spell, and
/// fails where a character is no digit or the number is beyond sixteen
/// bits.
pub proof fn lemma_digits_value(digits: Seq<char>, so_far: nat)
    requires
        so_far <= u16::MAX,
    ensures
        digits_value(digits, so_far) is Ok <==> all_digits(digits) && decimal_behind(
            so_far,
            digits,
        ) <= u16::MAX,
        digits_value(digits, so_far) matches Ok(number) ==> number == decimal_behind(
            so_far,
            digits,
        ),
    decreases digits.len(),
{
    if digits.len() > 0 {
        let rest = digits.drop_first();
        let next = so_far * 10 + digit_value(digits[0]);
        assert forall|i: int| 0 <= i < rest.len() implies rest[i] == digits[i + 1] by {}
        if is_digit(digits[0]) {
            lemma_decimal_front(so_far, digits);
            if next > u16::MAX {
                lemma_decimal_grows(next, rest);
            } else {
                lemma_digits_value(rest, next);
                if all_digits(rest) {
                    assert forall|i: int| 0 <= i < digits.len() implies is_digit(
                        #[trigger] digits[i],
                    ) by {
                        if i > 0 {
                            assert(is_digit(rest[i - 1]));
                        }
                    }
                } else {
                    let i = choose|i: int| 0 <= i < rest.len() && !is_digit(#[trigger] rest[i]);
                    assert(!is_digit(digits[i + 1]));
                }
            }
        } else {
            assert(!all_digits(digits));
        }
    }
}

/// A text spells the number `number` just where it holds, with or without a
/// plus sign before them, one decimal digit or more that spell it.
pub proof fn lemma_u16_of_text(text: Seq<char>, number: u16)
    ensures
        u16_of_text(text) == Ok::<u16, IntErrorKind>(number) <==> {
            &&& unsigned_part(text).len() > 0
            &&& all_digits(unsigned_part(text))
            &&& decimal(unsigned_part(text)) == number
        },
{
    if text.len() > 0 {
        lemma_digits_value(unsigned_part(text), 0);
        if text[0] != '+' && text.len() > 0 {
            assert(unsigned_part(text) == text);
        }
    }
}

/// The fields of a text are at least one and at most as many as the
/// limit allows; put together again with spaces between them they are the
/// text; and no field holds a space, but for the last one where the limit
/// is reached.
pub proof fn lemma_split_fields(text: Seq<char>, limit: nat)
    requires
        limit >= 1,
    ensures
        1 <= split_fields(text, limit).len() <= limit,
        joined(split_fields(text, limit)) == text,
        forall|i: int|
            0 <= i < split_fields(text, limit).len() - 1 ==> !(#[trigger] split_fields(
                text,
                limit,
            )[i]).contains(' '),
        split_fields(text, limit).len() < limit ==> !split_fields(text, limit).last().contains(' '),
    decreases limit,
{
    let fields = split_fields(text, limit);
    let at = first_space(text);
    lemma_first_space(text);
    if limit == 1 || at == text.len() {
        if limit > 1 {
            assert forall|i: int| 0 <= i < text.len() implies text[i] != ' ' by {}
        }
    } else {
        let head = text.take(at);
        let rest = text.skip(at + 1);
        let others = split_fields(rest, (limit - 1) as nat);
        lemma_split_fields(rest, (limit - 1) as nat);
        assert(fields == seq![head] + others);
        assert(fields.drop_first() =~= others);
        assert(fields[0] == head);
        assert(head + seq![' '] + rest =~= text);
        assert forall|i: int| 0 <= i < head.len() implies head[i] != ' ' by {
            assert(head[i] == text[i]);
        }
        assert forall|i: int| 0 <= i < fields.len() - 1 implies !(#[trigger] fields[i]).contains(
            ' ',
        ) by {
            if i > 0 {
                assert(fields[i] == others[i - 1]);
            }
        }
        assert(fields.last() == others.last());
    }
}

} // verus!
