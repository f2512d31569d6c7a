//! How numbers stand in a chunk: fixed-width values as little-endian bytes,
//! and lengths and counts as groups of seven bits.

use vstd::arithmetic::div_mod::lemma_mod_breakdown;
use vstd::prelude::*;

verus! {

/// The numbers that stand in a chunk in groups of seven bits.
pub type Unsigned = u64;

/// The most groups of a number that can come before its last one.
pub const TAIL_LEN: usize = 8;

/// The most groups that a number can have.
pub const UNSG_LEN: usize = 9;

/// Why a chunk cannot be loaded.
#[derive(PartialEq, Eq, Structural, Clone, Copy, Debug)]
pub enum LoadError {
    /// The header is not that of a chunk which this crate can read: the
    /// signatures, the widths of its types or its test values are others.
    Incompatible,
    /// The bytes after the header do not make up a function: a field is cut
    /// short, a count is too large or a constant is of no known kind.
    Malformed,
}

/// What a decoder gives: what is left of the input, and the value read.
pub type Res<'a, T> = Result<(&'a [u8], T), LoadError>;

/// The number whose little-endian bytes are `s`.
pub open spec fn le_value(s: Seq<u8>) -> nat
    decreases s.len(),
{
    if s.len() == 0 {
        0
    } else {
        s[0] as nat + 256 * le_value(s.drop_first())
    }
}

/// The lowest `width` little-endian bytes of `v`.
pub open spec fn le_bytes(v: nat, width: nat) -> Seq<u8>
    decreases width,
{
    if width == 0 {
        Seq::empty()
    } else {
        seq![(v % 256) as u8] + le_bytes(v / 256, (width - 1) as nat)
    }
}

/// The number of values that `width` bytes can hold.
pub open spec fn range(width: nat) -> nat
    decreases width,
{
    if width == 0 {
        1
    } else {
        256 * range((width - 1) as nat)
    }
}

/// Every width can hold some value.
pub proof fn lemma_range_positive(width: nat)
    ensures
        range(width) > 0,
    decreases width,
{
    if width > 0 {
        lemma_range_positive((width - 1) as nat);
    }
}

/// `width` bytes hold a number below `range(width)`.
pub proof fn lemma_le_value_bound(s: Seq<u8>)
    ensures
        le_value(s) < range(s.len()),
    decreases s.len(),
{
    if s.len() > 0 {
        lemma_le_value_bound(s.drop_first());
    }
}

/// A number is encoded in as many bytes as its width says.
pub proof fn lemma_le_bytes_len(v: nat, width: nat)
    ensures
        le_bytes(v, width).len() == width,
    decreases width,
{
    if width > 0 {
        lemma_le_bytes_len(v / 256, (width - 1) as nat);
    }
}

/// Decoding the bytes of a number gives the number back, as far as the
/// bytes can hold it.
pub proof fn lemma_le_round_trip(v: nat, width: nat)
    ensures
        le_value(le_bytes(v, width)) == v % range(width),
    decreases width,
{
    if width > 0 {
        let rest = le_bytes(v / 256, (width - 1) as nat);
        lemma_le_round_trip(v / 256, (width - 1) as nat);
        assert(le_bytes(v, width).drop_first() =~= rest);
        lemma_range_positive((width - 1) as nat);
        lemma_mod_breakdown(v as int, 256, range((width - 1) as nat) as int);
    }
}

/// Encoding the number that bytes hold gives the bytes back.
pub proof fn lemma_le_bytes_of_value(s: Seq<u8>)
    ensures
        le_bytes(le_value(s), s.len()) == s,
    decreases s.len(),
{
    if s.len() > 0 {
        lemma_le_bytes_of_value(s.drop_first());
        assert(le_bytes(le_value(s), s.len()) =~= s);
    } else {
        assert(le_bytes(le_value(s), s.len()) =~= s);
    }
}

/// `nom::number::complete::u8` on a byte slice.
///
/// Trusted: the parser fails on an empty input, and on any other gives the
/// first byte and the input from its second byte on.
#[verifier::external_body]
pub(crate) fn byte(input: &[u8]) -> (r: Option<(&[u8], u8)>)
    ensures
        r is Some <==> input@.len() >= 1,
        r is Some ==> r.unwrap().0@ == input@.skip(1),
        r is Some ==> r.unwrap().1 == input@[0],
{
    match nom::number::complete::u8::<&[u8], nom::error::Error<&[u8]>>(input) {
        Ok((rest, v)) => Some((rest, v)),
        Err(_) => None,
    }
}

/// `nom::number::complete::le_u16` on a byte slice.
///
/// Trusted: the parser fails on fewer than two bytes, and on any other
/// input adds up the first two bytes, each shifted left by eight times its
/// position, and gives the input from its third byte on.
#[verifier::external_body]
pub(crate) fn le_u16(input: &[u8]) -> (r: Option<(&[u8], u16)>)
    ensures
        r is Some <==> input@.len() >= 2,
        r is Some ==> r.unwrap().0@ == input@.skip(2),
        r is Some ==> r.unwrap().1 == le_value(input@.take(2)),
{
    match nom::number::complete::le_u16::<&[u8], nom::error::Error<&[u8]>>(input) {
        Ok((rest, v)) => Some((rest, v)),
        Err(_) => None,
    }
}

/// `nom::number::complete::le_u32` on a byte slice.
///
/// Trusted: the parser fails on fewer than four bytes, and on any other
/// input adds up the first four bytes, each shifted left by eight times its
/// position, and gives the input from its fifth byte on.
#[verifier::external_body]
pub(crate) fn le_u32(input: &[u8]) -> (r: Option<(&[u8], u32)>)
    ensures
        r is Some <==> input@.len() >= 4,
        r is Some ==> r.unwrap().0@ == input@.skip(4),
        r is Some ==> r.unwrap().1 == le_value(input@.take(4)),
{
    match nom::number::complete::le_u32::<&[u8], nom::error::Error<&[u8]>>(input) {
        Ok((rest, v)) => Some((rest, v)),
        Err(_) => None,
    }
}

/// `nom::number::complete::le_u64` on a byte slice.
///
/// Trusted: the parser fails on fewer than eight bytes, and on any other
/// input adds up the first eight bytes, each shifted left by eight times its
/// position, and gives the input from its ninth byte on.
#[verifier::external_body]
pub(crate) fn le_u64(input: &[u8]) -> (r: Option<(&[u8], u64)>)
    ensures
        r is Some <==> input@.len() >= 8,
        r is Some ==> r.unwrap().0@ == input@.skip(8),
        r is Some ==> r.unwrap().1 == le_value(input@.take(8)),
{
    match nom::number::complete::le_u64::<&[u8], nom::error::Error<&[u8]>>(input) {
        Ok((rest, v)) => Some((rest, v)),
        Err(_) => None,
    }
}

/// `nom::number::complete::le_u128` on a byte slice.
///
/// Trusted: the parser fails on fewer than sixteen bytes, and on any other
/// input adds up the first sixteen bytes, each shifted left by eight times
/// its position, and gives the input from its seventeenth byte on.
#[verifier::external_body]
pub(crate) fn le_u128(input: &[u8]) -> (r: Option<(&[u8], u128)>)
    ensures
        r is Some <==> input@.len() >= 16,
        r is Some ==> r.unwrap().0@ == input@.skip(16),
        r is Some ==> r.unwrap().1 == le_value(input@.take(16)),
{
    match nom::number::complete::le_u128::<&[u8], nom::error::Error<&[u8]>>(input) {
        Ok((rest, v)) => Some((rest, v)),
        Err(_) => None,
    }
}

/// Appends the lowest `width` little-endian bytes of `v`.
pub fn push_le(w: &mut Vec<u8>, v: u128, width: usize)
    ensures
        final(w)@ == old(w)@ + le_bytes(v as nat, width as nat),
    decreases width,
{
    if width > 0 {
        w.push((v % 256) as u8);
        push_le(w, v / 256, width - 1);
        proof {
            assert(w@ =~= old(w)@ + le_bytes(v as nat, width as nat));
        }
    } else {
        proof {
            assert(w@ =~= old(w)@ + le_bytes(v as nat, width as nat));
        }
    }
}

/// A value with a fixed number of bytes in a chunk.
pub trait Serde: Sized {
    /// The bytes that stand for the value.
    spec fn spec_ser(self) -> Seq<u8>;

    /// What is left of `input` behind the value at its beginning, and the
    /// value; `None` where `input` is too short to hold one.
    spec fn spec_deser(input: Seq<u8>) -> Option<(Seq<u8>, Self)>;

    /// Appends the bytes that stand for the value.
    fn ser(self, w: &mut Vec<u8>)
        ensures
            final(w)@ == old(w)@ + self.spec_ser(),
    ;

    /// Reads a value from the beginning of `input`.
    fn deser(input: &[u8]) -> (r: Result<(&[u8], Self), LoadError>)
        ensures
            match Self::spec_deser(input@) {
                Some((rest, v)) => r is Ok && r->Ok_0.0@ == rest && r->Ok_0.1 == v,
                None => r is Err && r->Err_0 == LoadError::Malformed,
            },
    ;

    /// A value that was written is read back as it was, and what stood after
    /// it is left over.
    proof fn lemma_round_trip(self, rest: Seq<u8>)
        ensures
            Self::spec_deser(self.spec_ser() + rest) == Some((rest, self)),
    ;

    /// Reading a value takes bytes away from the front of the input.
    proof fn lemma_deser_rest(input: Seq<u8>)
        ensures
            Self::spec_deser(input) matches Some((rest, _)) ==> rest.len() < input.len(),
    ;
}

/// What is left of `input` behind its first `width` bytes, and the number
/// that these hold; `None` where `input` is shorter.
pub open spec fn le_deser(input: Seq<u8>, width: nat) -> Option<(Seq<u8>, nat)> {
    if input.len() >= width {
        Some((input.skip(width as int), le_value(input.take(width as int))))
    } else {
        None
    }
}

/// The number that was written in `width` bytes is read back, as far as the
/// bytes can hold it.
pub proof fn lemma_le_deser(v: nat, width: nat, rest: Seq<u8>)
    ensures
        le_deser(le_bytes(v, width) + rest, width) == Some((rest, v % range(width))),
{
    let bytes = le_bytes(v, width);
    lemma_le_bytes_len(v, width);
    lemma_le_round_trip(v, width);
    assert((bytes + rest).skip(width as int) =~= rest);
    assert((bytes + rest).take(width as int) =~= bytes);
}

impl Serde for u8 {
    open spec fn spec_ser(self) -> Seq<u8> {
        seq![self]
    }

    open spec fn spec_deser(input: Seq<u8>) -> Option<(Seq<u8>, u8)> {
        if input.len() > 0 {
            Some((input.skip(1), input[0]))
        } else {
            None
        }
    }

    fn ser(self, w: &mut Vec<u8>) {
        w.push(self);
        proof {
            assert(w@ =~= old(w)@ + seq![self]);
        }
    }

    fn deser(input: &[u8]) -> (r: Result<(&[u8], u8), LoadError>) {
        match byte(input) {
            Some(found) => Ok(found),
            None => Err(LoadError::Malformed),
        }
    }

    proof fn lemma_round_trip(self, rest: Seq<u8>) {
        assert((seq![self] + rest).skip(1) =~= rest);
    }

    proof fn lemma_deser_rest(input: Seq<u8>) {
    }
}

impl Serde for i8 {
    open spec fn spec_ser(self) -> Seq<u8> {
        seq![self as u8]
    }

    open spec fn spec_deser(input: Seq<u8>) -> Option<(Seq<u8>, i8)> {
        if input.len() > 0 {
            Some((input.skip(1), input[0] as i8))
        } else {
            None
        }
    }

    fn ser(self, w: &mut Vec<u8>) {
        w.push(self as u8);
        proof {
            assert(w@ =~= old(w)@ + seq![self as u8]);
        }
    }

    fn deser(input: &[u8]) -> (r: Result<(&[u8], i8), LoadError>) {
        match byte(input) {
            Some((rest, v)) => Ok((rest, v as i8)),
            None => Err(LoadError::Malformed),
        }
    }

    proof fn lemma_round_trip(self, rest: Seq<u8>) {
        assert((seq![self as u8] + rest).skip(1) =~= rest);
        assert((self as u8) as i8 == self) by (bit_vector);
    }

    proof fn lemma_deser_rest(input: Seq<u8>) {
    }
}

impl Serde for u32 {
    open spec fn spec_ser(self) -> Seq<u8> {
        le_bytes(self as nat, 4)
    }

    open spec fn spec_deser(input: Seq<u8>) -> Option<(Seq<u8>, u32)> {
        match le_deser(input, 4) {
            Some((rest, v)) => Some((rest, v as u32)),
            None => None,
        }
    }

    fn ser(self, w: &mut Vec<u8>) {
        push_le(w, self as u128, 4);
    }

    fn deser(input: &[u8]) -> (r: Result<(&[u8], u32), LoadError>) {
        match le_u32(input) {
            Some(found) => Ok(found),
            None => Err(LoadError::Malformed),
        }
    }

    proof fn lemma_round_trip(self, rest: Seq<u8>) {
        lemma_le_deser(self as nat, 4, rest);
        assert(range(4) == 0x1_0000_0000) by {
            reveal_with_fuel(range, 5);
        }
    }

    proof fn lemma_deser_rest(input: Seq<u8>) {
    }
}

impl Serde for u64 {
    open spec fn spec_ser(self) -> Seq<u8> {
        le_bytes(self as nat, 8)
    }

    open spec fn spec_deser(input: Seq<u8>) -> Option<(Seq<u8>, u64)> {
        match le_deser(input, 8) {
            Some((rest, v)) => Some((rest, v as u64)),
            None => None,
        }
    }

    fn ser(self, w: &mut Vec<u8>) {
        push_le(w, self as u128, 8);
    }

    fn deser(input: &[u8]) -> (r: Result<(&[u8], u64), LoadError>) {
        match le_u64(input) {
            Some(found) => Ok(found),
            None => Err(LoadError::Malformed),
        }
    }

    proof fn lemma_round_trip(self, rest: Seq<u8>) {
        lemma_le_deser(self as nat, 8, rest);
        assert(range(8) == 0x1_0000_0000_0000_0000) by {
            reveal_with_fuel(range, 9);
        }
    }

    proof fn lemma_deser_rest(input: Seq<u8>) {
    }
}

impl Serde for i64 {
    open spec fn spec_ser(self) -> Seq<u8> {
        le_bytes((self as u64) as nat, 8)
    }

    open spec fn spec_deser(input: Seq<u8>) -> Option<(Seq<u8>, i64)> {
        match le_deser(input, 8) {
            Some((rest, v)) => Some((rest, (v as u64) as i64)),
            None => None,
        }
    }

    fn ser(self, w: &mut Vec<u8>) {
        push_le(w, self as u64 as u128, 8);
    }

    fn deser(input: &[u8]) -> (r: Result<(&[u8], i64), LoadError>) {
        match le_u64(input) {
            Some((rest, v)) => Ok((rest, v as i64)),
            None => Err(LoadError::Malformed),
        }
    }

    proof fn lemma_round_trip(self, rest: Seq<u8>) {
        lemma_le_deser((self as u64) as nat, 8, rest);
        assert(range(8) == 0x1_0000_0000_0000_0000) by {
            reveal_with_fuel(range, 9);
        }
        assert((self as u64) as i64 == self) by (bit_vector);
    }

    proof fn lemma_deser_rest(input: Seq<u8>) {
    }
}

impl Serde for u16 {
    open spec fn spec_ser(self) -> Seq<u8> {
        le_bytes(self as nat, 2)
    }

    open spec fn spec_deser(input: Seq<u8>) -> Option<(Seq<u8>, u16)> {
        match le_deser(input, 2) {
            Some((rest, v)) => Some((rest, v as u16)),
            None => None,
        }
    }

    fn ser(self, w: &mut Vec<u8>) {
        push_le(w, self as u128, 2);
    }

    fn deser(input: &[u8]) -> (r: Result<(&[u8], u16), LoadError>) {
        match le_u16(input) {
            Some(found) => Ok(found),
            None => Err(LoadError::Malformed),
        }
    }

    proof fn lemma_round_trip(self, rest: Seq<u8>) {
        lemma_le_deser(self as nat, 2, rest);
        assert(range(2) == 0x1_0000) by {
            reveal_with_fuel(range, 3);
        }
    }

    proof fn lemma_deser_rest(input: Seq<u8>) {
    }
}

impl Serde for i16 {
    open spec fn spec_ser(self) -> Seq<u8> {
        le_bytes((self as u16) as nat, 2)
    }

    open spec fn spec_deser(input: Seq<u8>) -> Option<(Seq<u8>, i16)> {
        match le_deser(input, 2) {
            Some((rest, v)) => Some((rest, (v as u16) as i16)),
            None => None,
        }
    }

    fn ser(self, w: &mut Vec<u8>) {
        push_le(w, self as u16 as u128, 2);
    }

    fn deser(input: &[u8]) -> (r: Result<(&[u8], i16), LoadError>) {
        match le_u16(input) {
            Some((rest, v)) => Ok((rest, v as i16)),
            None => Err(LoadError::Malformed),
        }
    }

    proof fn lemma_round_trip(self, rest: Seq<u8>) {
        lemma_le_deser((self as u16) as nat, 2, rest);
        assert(range(2) == 0x1_0000) by {
            reveal_with_fuel(range, 3);
        }
        assert((self as u16) as i16 == self) by (bit_vector);
    }

    proof fn lemma_deser_rest(input: Seq<u8>) {
    }
}

impl Serde for i32 {
    open spec fn spec_ser(self) -> Seq<u8> {
        le_bytes((self as u32) as nat, 4)
    }

    open spec fn spec_deser(input: Seq<u8>) -> Option<(Seq<u8>, i32)> {
        match le_deser(input, 4) {
            Some((rest, v)) => Some((rest, (v as u32) as i32)),
            None => None,
        }
    }

    fn ser(self, w: &mut Vec<u8>) {
        push_le(w, self as u32 as u128, 4);
    }

    fn deser(input: &[u8]) -> (r: Result<(&[u8], i32), LoadError>) {
        match le_u32(input) {
            Some((rest, v)) => Ok((rest, v as i32)),
            None => Err(LoadError::Malformed),
        }
    }

    proof fn lemma_round_trip(self, rest: Seq<u8>) {
        lemma_le_deser((self as u32) as nat, 4, rest);
        assert(range(4) == 0x1_0000_0000) by {
            reveal_with_fuel(range, 5);
        }
        assert((self as u32) as i32 == self) by (bit_vector);
    }

    proof fn lemma_deser_rest(input: Seq<u8>) {
    }
}

impl Serde for u128 {
    open spec fn spec_ser(self) -> Seq<u8> {
        le_bytes(self as nat, 16)
    }

    open spec fn spec_deser(input: Seq<u8>) -> Option<(Seq<u8>, u128)> {
        match le_deser(input, 16) {
            Some((rest, v)) => Some((rest, v as u128)),
            None => None,
        }
    }

    fn ser(self, w: &mut Vec<u8>) {
        push_le(w, self as u128, 16);
    }

    fn deser(input: &[u8]) -> (r: Result<(&[u8], u128), LoadError>) {
        match le_u128(input) {
            Some(found) => Ok(found),
            None => Err(LoadError::Malformed),
        }
    }

    proof fn lemma_round_trip(self, rest: Seq<u8>) {
        lemma_le_deser(self as nat, 16, rest);
        assert(range(16) == 0x1_0000_0000_0000_0000_0000_0000_0000_0000) by {
            reveal_with_fuel(range, 17);
        }
    }

    proof fn lemma_deser_rest(input: Seq<u8>) {
    }
}

impl Serde for i128 {
    open spec fn spec_ser(self) -> Seq<u8> {
        le_bytes((self as u128) as nat, 16)
    }

    open spec fn spec_deser(input: Seq<u8>) -> Option<(Seq<u8>, i128)> {
        match le_deser(input, 16) {
            Some((rest, v)) => Some((rest, (v as u128) as i128)),
            None => None,
        }
    }

    fn ser(self, w: &mut Vec<u8>) {
        push_le(w, self as u128 as u128, 16);
    }

    fn deser(input: &[u8]) -> (r: Result<(&[u8], i128), LoadError>) {
        match le_u128(input) {
            Some((rest, v)) => Ok((rest, v as i128)),
            None => Err(LoadError::Malformed),
        }
    }

    proof fn lemma_round_trip(self, rest: Seq<u8>) {
        lemma_le_deser((self as u128) as nat, 16, rest);
        assert(range(16) == 0x1_0000_0000_0000_0000_0000_0000_0000_0000) by {
            reveal_with_fuel(range, 17);
        }
        assert((self as u128) as i128 == self) by (bit_vector);
    }

    proof fn lemma_deser_rest(input: Seq<u8>) {
    }
}

/// The groups of seven bits that `v` is made of, highest first; none for zero.
pub open spec fn groups(v: nat) -> Seq<u8>
    decreases v,
{
    if v == 0 {
        Seq::empty()
    } else {
        groups(v / 128).push((v % 128) as u8)
    }
}

/// The number that groups of seven bits make up, highest first.
pub open spec fn groups_value(s: Seq<u8>) -> nat
    decreases s.len(),
{
    if s.len() == 0 {
        0
    } else {
        128 * groups_value(s.drop_last()) + s.last() as nat
    }
}

/// The number of values that `count` groups can hold.
pub open spec fn groups_range(count: nat) -> nat
    decreases count,
{
    if count == 0 {
        1
    } else {
        128 * groups_range((count - 1) as nat)
    }
}

/// The largest number that has an encoding of its own: one bit less than
/// the type holds, since nine groups hold 63 bits.
pub const UNSIGNED_MAX: u64 = 0x7FFF_FFFF_FFFF_FFFF;

/// What of `v` is encoded: its lowest 63 bits.
pub open spec fn encoded_part(v: u64) -> nat {
    (v % 0x8000_0000_0000_0000) as nat
}

/// The lowest `count` groups of seven bits of `v`, highest first, with
/// zeros for the groups that `v` does not reach.
pub open spec fn fixed_groups(v: nat, count: nat) -> Seq<u8>
    decreases count,
{
    if count == 0 {
        Seq::empty()
    } else {
        fixed_groups(v / 128, (count - 1) as nat).push((v % 128) as u8)
    }
}

/// The groups that stand before the last one: as many as the number needs,
/// and all eight for a number above [`UNSIGNED_MAX`], of which the lowest
/// 63 bits are written.
pub open spec fn leading_groups(v: u64) -> Seq<u8> {
    if v <= UNSIGNED_MAX {
        groups(encoded_part(v) / 128)
    } else {
        fixed_groups(encoded_part(v) / 128, TAIL_LEN as nat)
    }
}

/// The bytes that stand for a length or a count: the groups of the number,
/// highest first, with the eighth bit set in the last of them and in no other.
pub open spec fn unsigned_bytes(v: u64) -> Seq<u8> {
    leading_groups(v).push((128 + encoded_part(v) % 128) as u8)
}

/// The number of bytes at the beginning of `s`, but no more than `most`,
/// that have the eighth bit clear.
pub open spec fn tail_len(s: Seq<u8>, most: nat) -> nat
    decreases most,
{
    if most == 0 || s.len() == 0 || s[0] >= 128 {
        0
    } else {
        1 + tail_len(s.drop_first(), (most - 1) as nat)
    }
}

/// What is left of `s` behind the number at its beginning, and the number.
/// A number is at most eight bytes with the eighth bit clear and then one
/// with the eighth bit set; `None` where `s` does not begin like that.
pub open spec fn spec_load_unsigned(s: Seq<u8>) -> Option<(Seq<u8>, u64)> {
    let k = tail_len(s, TAIL_LEN as nat) as int;
    if k < s.len() && s[k] >= 128 {
        Some((s.skip(k + 1), (128 * groups_value(s.take(k)) + (s[k] - 128)) as u64))
    } else {
        None
    }
}

/// The groups of a number are as many as the number needs, each has the
/// eighth bit clear, and together they make up the number.
pub proof fn lemma_groups(v: nat, count: nat)
    requires
        v < groups_range(count),
    ensures
        groups(v).len() <= count,
        forall|i: int| 0 <= i < groups(v).len() ==> #[trigger] groups(v)[i] < 128,
        groups_value(groups(v)) == v,
    decreases v,
{
    if v > 0 {
        lemma_groups(v / 128, (count - 1) as nat);
        assert(groups(v).drop_last() =~= groups(v / 128));
    }
}

/// Where `count` bytes with the eighth bit clear stand at the beginning of
/// `s`, and no such byte follows them or `count` is all that are looked
/// for, `count` is what `tail_len` finds.
pub proof fn lemma_tail_len(s: Seq<u8>, most: nat, count: nat)
    requires
        count <= most,
        count <= s.len(),
        forall|i: int| 0 <= i < count ==> s[i] < 128,
        count == most || count == s.len() || s[count as int] >= 128,
    ensures
        tail_len(s, most) == count,
    decreases count,
{
    if count > 0 {
        let t = s.drop_first();
        assert forall|i: int| 0 <= i < count - 1 implies t[i] < 128 by {
            assert(t[i] == s[i + 1]);
        }
        lemma_tail_len(t, (most - 1) as nat, (count - 1) as nat);
    }
}

/// A fixed number of groups are that many, each has the eighth bit clear,
/// and together they make up the number, where they can hold it.
pub proof fn lemma_fixed_groups(v: nat, count: nat)
    requires
        v < groups_range(count),
    ensures
        fixed_groups(v, count).len() == count,
        forall|i: int| 0 <= i < count ==> #[trigger] fixed_groups(v, count)[i] < 128,
        groups_value(fixed_groups(v, count)) == v,
    decreases count,
{
    if count > 0 {
        lemma_fixed_groups(v / 128, (count - 1) as nat);
        assert(fixed_groups(v, count).drop_last() =~= fixed_groups(v / 128, (count - 1) as nat));
    }
}

/// The groups before the last one are at most eight, each has the eighth
/// bit clear, and together they make up what is written of the number
/// without its lowest seven bits.
pub proof fn lemma_leading_groups(v: u64)
    ensures
        leading_groups(v).len() <= TAIL_LEN,
        v > UNSIGNED_MAX ==> leading_groups(v).len() == TAIL_LEN,
        forall|i: int| 0 <= i < leading_groups(v).len() ==> #[trigger] leading_groups(v)[i] < 128,
        groups_value(leading_groups(v)) == encoded_part(v) / 128,
{
    assert(groups_range(8) == 0x100_0000_0000_0000) by {
        reveal_with_fuel(groups_range, 9);
    }
    lemma_groups(encoded_part(v) / 128, 8);
    lemma_fixed_groups(encoded_part(v) / 128, 8);
}

/// An encoding is at most nine bytes long, and that of a number above
/// [`UNSIGNED_MAX`] is nine bytes long.
pub proof fn lemma_unsigned_bytes_len(v: u64)
    ensures
        1 <= unsigned_bytes(v).len() <= UNSG_LEN,
        v > UNSIGNED_MAX ==> unsigned_bytes(v).len() == UNSG_LEN,
{
    lemma_leading_groups(v);
}

/// A number that was written is read back, as far as nine groups hold it,
/// and what stood after it is left over.
pub proof fn lemma_unsigned_round_trip(v: u64, rest: Seq<u8>)
    ensures
        spec_load_unsigned(unsigned_bytes(v) + rest) == Some((rest, encoded_part(v) as u64)),
        v <= UNSIGNED_MAX ==> spec_load_unsigned(unsigned_bytes(v) + rest) == Some((rest, v)),
{
    let low = encoded_part(v);
    let tail = leading_groups(v);
    let s = unsigned_bytes(v) + rest;
    lemma_leading_groups(v);
    assert forall|i: int| 0 <= i < tail.len() implies s[i] < 128 by {
        assert(s[i] == tail[i]);
    }
    assert(s[tail.len() as int] == (128 + low % 128) as u8);
    lemma_tail_len(s, TAIL_LEN as nat, tail.len());
    assert(s.take(tail.len() as int) =~= tail);
    assert(s.skip(tail.len() as int + 1) =~= rest);
}

fn dump_groups(v: u64, w: &mut Vec<u8>)
    ensures
        final(w)@ == old(w)@ + groups(v as nat),
    decreases v,
{
    if v > 0 {
        dump_groups(v / 128, w);
        w.push((v % 128) as u8);
    }
    proof {
        assert(w@ =~= old(w)@ + groups(v as nat));
    }
}

fn dump_fixed_groups(v: u64, count: usize, w: &mut Vec<u8>)
    ensures
        final(w)@ == old(w)@ + fixed_groups(v as nat, count as nat),
    decreases count,
{
    if count > 0 {
        dump_fixed_groups(v / 128, count - 1, w);
        w.push((v % 128) as u8);
    }
    proof {
        assert(w@ =~= old(w)@ + fixed_groups(v as nat, count as nat));
    }
}

/// Appends the bytes that stand for `val`. Of a number above
/// [`UNSIGNED_MAX`] only the lowest 63 bits are written, in nine bytes.
pub fn dump_unsigned(val: Unsigned, w: &mut Vec<u8>)
    ensures
        final(w)@ == old(w)@ + unsigned_bytes(val),
        final(w)@.len() <= old(w)@.len() + UNSG_LEN,
{
    let low = val % 0x8000_0000_0000_0000;
    if val <= UNSIGNED_MAX {
        dump_groups(low / 128, w);
    } else {
        dump_fixed_groups(low / 128, TAIL_LEN, w);
    }
    w.push((128 + low % 128) as u8);
    proof {
        assert(w@ =~= old(w)@ + unsigned_bytes(val));
        lemma_unsigned_bytes_len(val);
    }
}

/// Reads a length or a count from the beginning of `input`.
pub fn load_unsigned(input: &[u8]) -> (r: Res<'_, Unsigned>)
    ensures
        match spec_load_unsigned(input@) {
            Some((rest, v)) => r is Ok && r->Ok_0.0@ == rest && r->Ok_0.1 == v,
            None => r is Err && r->Err_0 == LoadError::Malformed,
        },
{
    let mut k: usize = 0;
    let mut acc: u64 = 0;
    proof {
        assert(input@.take(0) =~= Seq::<u8>::empty());
    }
    while k < TAIL_LEN && k < input.len() && input[k] < 128
        invariant
            k <= TAIL_LEN,
            k <= input.len(),
            forall|i: int| 0 <= i < k ==> input@[i] < 128,
            acc == groups_value(input@.take(k as int)),
            acc < groups_range(k as nat),
        decreases TAIL_LEN - k,
    {
        proof {
            reveal_with_fuel(groups_range, 10);
            let next = input@.take(k + 1);
            assert(next.drop_last() =~= input@.take(k as int));
        }
        acc = acc * 128 + input[k] as u64;
        k += 1;
    }
    proof {
        reveal_with_fuel(groups_range, 10);
        lemma_tail_len(input@, TAIL_LEN as nat, k as nat);
    }
    let after = vstd::slice::slice_subrange(input, k, input.len());
    match byte(after) {
        Some((rest, head)) => {
            if head >= 128 {
                proof {
                    assert(after@.skip(1) =~= input@.skip(k + 1));
                }
                Ok((rest, acc * 128 + (head - 128) as u64))
            } else {
                Err(LoadError::Malformed)
            }
        },
        None => Err(LoadError::Malformed),
    }
}

} // verus!
