//! Variable-length integers: seven payload bits per byte, least significant
//! group first, the high bit of a byte set when another byte follows.

use crate::nbt::{tag_byte_array, tag_value, TagValue};
use quartz_nbt::NbtTag;
use vstd::prelude::*;

verus! {

/// The bytes that encode `v`, as they stand on the wire: the low seven bits
/// first, and the continuation bit on every byte but the last.
pub open spec fn varint_bytes(v: nat) -> Seq<u8>
    decreases v,
{
    if v < 128 {
        seq![v as u8]
    } else {
        seq![(v % 128 + 128) as u8] + varint_bytes(v / 128)
    }
}

/// The signed byte with the same bit pattern as `b`.
pub open spec fn signed_byte(b: u8) -> i8 {
    if b < 128 {
        b as i8
    } else {
        (b - 256) as i8
    }
}

/// `bytes`, each reinterpreted as a signed byte.
pub open spec fn signed_bytes(bytes: Seq<u8>) -> Seq<i8> {
    Seq::new(bytes.len(), |i: int| signed_byte(bytes[i]))
}

/// The unsigned number with the same 32-bit pattern as `v`.
pub open spec fn unsigned_of_i32(v: i32) -> nat {
    if v >= 0 {
        v as nat
    } else {
        (v + 0x1_0000_0000) as nat
    }
}

/// The unsigned number with the same 64-bit pattern as `v`.
pub open spec fn unsigned_of_i64(v: i64) -> nat {
    if v >= 0 {
        v as nat
    } else {
        (v + 0x1_0000_0000_0000_0000) as nat
    }
}

/// The unsigned byte with the same bit pattern as `b`.
pub open spec fn unsigned_byte(b: i8) -> u8 {
    if b >= 0 {
        b as u8
    } else {
        (b + 256) as u8
    }
}

/// `bytes`, each reinterpreted as an unsigned byte.
pub open spec fn unsigned_bytes(bytes: Seq<i8>) -> Seq<u8> {
    Seq::new(bytes.len(), |i: int| unsigned_byte(bytes[i]))
}

/// The signed number with the same 32-bit pattern as `v`.
pub open spec fn i32_of_unsigned(v: nat) -> int {
    if v < 0x8000_0000 {
        v as int
    } else {
        v - 0x1_0000_0000
    }
}

/// The signed number with the same 64-bit pattern as `v`.
pub open spec fn i64_of_unsigned(v: nat) -> int {
    if v < 0x8000_0000_0000_0000 {
        v as int
    } else {
        v - 0x1_0000_0000_0000_0000
    }
}

/// Whether `bytes` is one whole encoding: at least one byte, the
/// continuation bit set on every byte but the last, and clear on the last.
pub open spec fn is_varint(bytes: Seq<u8>) -> bool {
    &&& bytes.len() >= 1
    &&& forall|i: int| 0 <= i < bytes.len() - 1 ==> bytes[i] >= 128
    &&& bytes.last() < 128
}

/// The number that a run of seven-bit groups stands for, the least
/// significant group first. The continuation bits do not count.
pub open spec fn varint_value(bytes: Seq<u8>) -> nat
    decreases bytes.len(),
{
    if bytes.len() == 0 {
        0
    } else {
        (bytes[0] % 128) as nat + 128 * varint_value(bytes.drop_first())
    }
}

/// The encodings of `values`, one behind the other, as the buffer holds
/// them.
pub open spec fn packed(values: Seq<u32>) -> Seq<i8>
    decreases values.len(),
{
    if values.len() == 0 {
        Seq::empty()
    } else {
        packed(values.drop_last()) + signed_bytes(varint_bytes(values.last() as nat))
    }
}

/// The length of the first encoding in `bytes`: the bytes up to the first
/// one without continuation bit, that one counted.
pub open spec fn first_len(bytes: Seq<u8>) -> int
    decreases bytes.len(),
{
    if bytes.len() == 0 {
        0
    } else if bytes[0] < 128 {
        1
    } else {
        1 + first_len(bytes.drop_first())
    }
}

/// The numbers that a run of encodings holds, in order.
pub open spec fn varint_values(bytes: Seq<u8>) -> Seq<nat>
    decreases bytes.len(),
{
    if bytes.len() == 0 || first_len(bytes) <= 0 || first_len(bytes) > bytes.len() {
        Seq::empty()
    } else {
        seq![varint_value(bytes.take(first_len(bytes)))] + varint_values(
            bytes.skip(first_len(bytes)),
        )
    }
}

/// A growing buffer of variable-length integers, held as signed bytes.
#[derive(Debug, PartialEq, Eq)]
pub struct VarintArray {
    bytes: Vec<i8>,
}

impl Clone for VarintArray {
    fn clone(&self) -> (copy: Self)
        ensures
            copy@ == self@,
    {
        Self { bytes: self.bytes.clone() }
    }
}

impl View for VarintArray {
    type V = Seq<i8>;

    closed spec fn view(&self) -> Seq<i8> {
        self.bytes@
    }
}

impl VarintArray {
    /// Gives up the buffer.
    pub fn take(self) -> (bytes: Vec<i8>)
        ensures
            bytes@ == self@,
    {
        self.bytes
    }

    /// The bytes written so far.
    pub fn bytes(&self) -> (bytes: &[i8])
        ensures
            bytes@ == self@,
    {
        self.bytes.as_slice()
    }

    /// The buffer as the document holds it: an array of signed bytes.
    pub fn into_nbt(self) -> (tag: NbtTag)
        ensures
            tag_value(tag) == TagValue::ByteArray(self@),
    {
        tag_byte_array(self.bytes)
    }

    /// An empty buffer.
    pub fn new() -> (array: Self)
        ensures
            array@ == Seq::<i8>::empty(),
    {
        Self { bytes: Vec::new() }
    }

    /// Appends one byte, keeping its bit pattern.
    pub fn push_byte(&mut self, byte: u8)
        ensures
            final(self)@ == old(self)@.push(signed_byte(byte)),
    {
        let signed: i8 = byte as i8;
        assert(signed == signed_byte(byte)) by (bit_vector)
            requires
                signed == byte as i8,
        ;
        self.bytes.push(signed);
    }

    /// Appends the encoding of `value`.
    pub fn push_u32(&mut self, value: u32)
        ensures
            final(self)@ == old(self)@ + signed_bytes(varint_bytes(value as nat)),
    {
        let mut rest: u32 = value;
        loop
            invariant
                self@ + signed_bytes(varint_bytes(rest as nat)) == old(self)@ + signed_bytes(
                    varint_bytes(value as nat),
                ),
            decreases rest,
        {
            if rest & !0x7f == 0 {
                assert(rest < 128) by (bit_vector)
                    requires
                        rest & !0x7f == 0,
                ;
                proof {
                    lemma_signed_single(rest as u8);
                }
                self.push_byte(rest as u8);
                return ;
            }
            let group: u32 = rest & 0x7f | 0x80;
            let next: u32 = rest >> 7;
            assert(rest >= 128 && group == rest % 128 + 128 && next == rest / 128) by (bit_vector)
                requires
                    rest & !0x7f != 0,
                    group == rest & 0x7f | 0x80,
                    next == rest >> 7,
            ;
            proof {
                lemma_signed_cons(group as u8, varint_bytes(next as nat));
            }
            self.push_byte(group as u8);
            rest = next;
        }
    }

    /// Appends the encoding of `value`.
    pub fn push_u64(&mut self, value: u64)
        ensures
            final(self)@ == old(self)@ + signed_bytes(varint_bytes(value as nat)),
    {
        let mut rest: u64 = value;
        loop
            invariant
                self@ + signed_bytes(varint_bytes(rest as nat)) == old(self)@ + signed_bytes(
                    varint_bytes(value as nat),
                ),
            decreases rest,
        {
            if rest & !0x7f == 0 {
                assert(rest < 128) by (bit_vector)
                    requires
                        rest & !0x7f == 0,
                ;
                proof {
                    lemma_signed_single(rest as u8);
                }
                self.push_byte(rest as u8);
                return ;
            }
            let group: u64 = rest & 0x7f | 0x80;
            let next: u64 = rest >> 7;
            assert(rest >= 128 && group == rest % 128 + 128 && next == rest / 128) by (bit_vector)
                requires
                    rest & !0x7f != 0,
                    group == rest & 0x7f | 0x80,
                    next == rest >> 7,
            ;
            proof {
                lemma_signed_cons(group as u8, varint_bytes(next as nat));
            }
            self.push_byte(group as u8);
            rest = next;
        }
    }

    /// Appends a signed integer, encoded by its 32-bit pattern: a negative
    /// one takes five bytes.
    pub fn push_int(&mut self, value: i32)
        ensures
            final(self)@ == old(self)@ + signed_bytes(varint_bytes(unsigned_of_i32(value))),
    {
        let pattern: u32 = value as u32;
        assert((value >= 0 ==> pattern == value) && (value < 0 ==> pattern == value
            + 0x1_0000_0000)) by (bit_vector)
            requires
                pattern == value as u32,
        ;
        self.push_u32(pattern);
    }

    /// Appends a signed integer, encoded by its 64-bit pattern: a negative
    /// one takes ten bytes.
    pub fn push_long(&mut self, value: i64)
        ensures
            final(self)@ == old(self)@ + signed_bytes(varint_bytes(unsigned_of_i64(value))),
    {
        let pattern: u64 = value as u64;
        assert((value >= 0 ==> pattern == value) && (value < 0 ==> pattern == value
            + 0x1_0000_0000_0000_0000)) by (bit_vector)
            requires
                pattern == value as u64,
        ;
        self.push_u64(pattern);
    }
}

/// Reinterpreting a single byte gives a single signed byte.
proof fn lemma_signed_single(b: u8)
    ensures
        signed_bytes(seq![b]) == seq![signed_byte(b)],
{
    assert(signed_bytes(seq![b]) =~= seq![signed_byte(b)]);
}

/// Reinterpreting goes through a sequence byte by byte.
proof fn lemma_signed_cons(b: u8, rest: Seq<u8>)
    ensures
        signed_bytes(seq![b] + rest) == seq![signed_byte(b)] + signed_bytes(rest),
{
    assert(signed_bytes(seq![b] + rest) =~= seq![signed_byte(b)] + signed_bytes(rest));
}

/// Every number has one whole encoding, and reading its groups back gives
/// the number again.
pub proof fn lemma_varint_round_trip(v: nat)
    ensures
        is_varint(varint_bytes(v)),
        varint_value(varint_bytes(v)) == v,
    decreases v,
{
    if v < 128 {
        let bytes = varint_bytes(v);
        assert(bytes.drop_first() =~= Seq::<u8>::empty());
        assert(varint_value(bytes.drop_first()) == 0);
        assert(varint_value(bytes) == (bytes[0] % 128) as nat + 128 * varint_value(
            bytes.drop_first(),
        ));
    } else {
        let head = (v % 128 + 128) as u8;
        let tail = varint_bytes(v / 128);
        lemma_varint_round_trip(v / 128);
        assert(varint_bytes(v) == seq![head] + tail);
        assert((seq![head] + tail).drop_first() =~= tail);
        assert(head % 128 == v % 128);
        assert(varint_value(varint_bytes(v)) == (head % 128) as nat + 128 * varint_value(tail));
        assert forall|i: int| 0 <= i < varint_bytes(v).len() - 1 implies varint_bytes(v)[i]
            >= 128 by {
            if i > 0 {
                assert(varint_bytes(v)[i] == tail[i - 1]);
            }
        }
        assert(varint_bytes(v).last() == tail.last());
    }
}

/// The signed bytes that the buffer holds give the wire bytes back.
pub proof fn lemma_unsigned_of_signed(bytes: Seq<u8>)
    ensures
        unsigned_bytes(signed_bytes(bytes)) == bytes,
{
    assert(unsigned_bytes(signed_bytes(bytes)) =~= bytes);
}

/// Decoding what `push_u32` appends gives the value pushed.
pub proof fn lemma_round_trip_u32(v: u32)
    ensures
        varint_value(unsigned_bytes(signed_bytes(varint_bytes(v as nat)))) == v,
{
    lemma_varint_round_trip(v as nat);
    lemma_unsigned_of_signed(varint_bytes(v as nat));
}

/// Decoding what `push_u64` appends gives the value pushed.
pub proof fn lemma_round_trip_u64(v: u64)
    ensures
        varint_value(unsigned_bytes(signed_bytes(varint_bytes(v as nat)))) == v,
{
    lemma_varint_round_trip(v as nat);
    lemma_unsigned_of_signed(varint_bytes(v as nat));
}

/// Decoding what `push_int` appends, and reading the result as a 32-bit
/// pattern, gives the value pushed.
pub proof fn lemma_round_trip_i32(v: i32)
    ensures
        i32_of_unsigned(
            varint_value(unsigned_bytes(signed_bytes(varint_bytes(unsigned_of_i32(v))))),
        ) == v,
{
    lemma_varint_round_trip(unsigned_of_i32(v));
    lemma_unsigned_of_signed(varint_bytes(unsigned_of_i32(v)));
}

/// Decoding what `push_long` appends, and reading the result as a 64-bit
/// pattern, gives the value pushed.
pub proof fn lemma_round_trip_i64(v: i64)
    ensures
        i64_of_unsigned(
            varint_value(unsigned_bytes(signed_bytes(varint_bytes(unsigned_of_i64(v))))),
        ) == v,
{
    lemma_varint_round_trip(unsigned_of_i64(v));
    lemma_unsigned_of_signed(varint_bytes(unsigned_of_i64(v)));
}

/// An encoding ends where its first byte without continuation bit stands,
/// whatever follows it.
pub proof fn lemma_first_len(encoding: Seq<u8>, rest: Seq<u8>)
    requires
        is_varint(encoding),
    ensures
        first_len(encoding + rest) == encoding.len(),
    decreases encoding.len(),
{
    let bytes = encoding + rest;
    assert(bytes[0] == encoding[0]);
    if encoding.len() > 1 {
        let tail = encoding.drop_first();
        assert(bytes.drop_first() =~= tail + rest);
        assert(tail.last() == encoding.last());
        assert forall|i: int| 0 <= i < tail.len() - 1 implies tail[i] >= 128 by {
            assert(tail[i] == encoding[i + 1]);
        }
        lemma_first_len(tail, rest);
    }
}

/// Reading a run of encodings gives the number of the first one, then
/// those of the rest.
pub proof fn lemma_values_step(v: nat, rest: Seq<u8>)
    ensures
        varint_values(varint_bytes(v) + rest) == seq![v] + varint_values(rest),
{
    let encoding = varint_bytes(v);
    lemma_varint_round_trip(v);
    lemma_first_len(encoding, rest);
    let bytes = encoding + rest;
    assert(bytes.take(encoding.len() as int) =~= encoding);
    assert(bytes.skip(encoding.len() as int) =~= rest);
}

/// What is packed starts with the encoding of the first value.
proof fn lemma_packed_front(values: Seq<u32>)
    requires
        values.len() > 0,
    ensures
        packed(values) == signed_bytes(varint_bytes(values[0] as nat)) + packed(
            values.drop_first(),
        ),
    decreases values.len(),
{
    if values.len() == 1 {
        assert(values.drop_last() =~= Seq::<u32>::empty());
        assert(values.drop_first() =~= Seq::<u32>::empty());
        assert(packed(values) =~= signed_bytes(varint_bytes(values[0] as nat)) + packed(
            values.drop_first(),
        ));
    } else {
        let before = values.drop_last();
        lemma_packed_front(before);
        assert(before.drop_first() =~= values.drop_first().drop_last());
        assert(values.drop_first().last() == values.last());
        assert(packed(values) =~= signed_bytes(varint_bytes(values[0] as nat)) + packed(
            values.drop_first(),
        ));
    }
}

/// Reading what was packed gives the values back, each in its place: the
/// packed bytes hold as many numbers as there were values.
pub proof fn lemma_packed_round_trip(values: Seq<u32>)
    ensures
        varint_values(unsigned_bytes(packed(values))) == values.map_values(|v: u32| v as nat),
    decreases values.len(),
{
    let numbers = values.map_values(|v: u32| v as nat);
    if values.len() == 0 {
        assert(unsigned_bytes(packed(values)) =~= Seq::<u8>::empty());
        assert(numbers =~= Seq::<nat>::empty());
    } else {
        let first = varint_bytes(values[0] as nat);
        let rest = values.drop_first();
        lemma_packed_front(values);
        lemma_packed_round_trip(rest);
        lemma_unsigned_of_signed(first);
        assert(unsigned_bytes(signed_bytes(first) + packed(rest)) =~= first + unsigned_bytes(
            packed(rest),
        ));
        lemma_values_step(values[0] as nat, unsigned_bytes(packed(rest)));
        assert(numbers =~= seq![values[0] as nat] + rest.map_values(|v: u32| v as nat));
    }
}

} // verus!
