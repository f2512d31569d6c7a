//! The text that the generator writes: bytes, with a place kept for each
//! float constant, which only the caller can print.

use vstd::prelude::*;
use vstd::slice::slice_to_vec;
use vstd::string::StringSliceAdditionalSpecFns;

verus! {

/// One unit of the generated text.
#[derive(PartialEq, Eq, Structural, Clone, Copy, Debug)]
pub enum Token {
    /// A byte of the text.
    Byte(u8),
    /// The place of a float literal, with the bits of the float.
    Number(u64),
}

/// A run of the generated text, as the generator hands it out.
#[derive(PartialEq, Eq, Debug)]
pub enum Piece {
    /// Bytes to be written as they are.
    Text(Vec<u8>),
    /// A float, given by its bits, to be written as a C literal.
    Number(u64),
}

/// The tokens that stand for a run of bytes.
pub open spec fn text(bytes: Seq<u8>) -> Seq<Token> {
    Seq::new(bytes.len(), |i: int| Token::Byte(bytes[i]))
}

/// The tokens that stand for a string, byte by byte.
pub open spec fn lit(s: &str) -> Seq<Token> {
    text(s.spec_bytes())
}

impl Piece {
    /// The tokens of one piece.
    pub open spec fn tokens(self) -> Seq<Token> {
        match self {
            Piece::Text(bytes) => text(bytes@),
            Piece::Number(bits) => seq![Token::Number(bits)],
        }
    }
}

/// The tokens of a list of pieces, in order.
pub open spec fn flatten(pieces: Seq<Piece>) -> Seq<Token>
    decreases pieces.len(),
{
    if pieces.len() == 0 {
        Seq::empty()
    } else {
        flatten(pieces.drop_last()) + pieces.last().tokens()
    }
}

/// The generated text so far.
#[derive(PartialEq, Eq, Debug)]
pub struct Code {
    pub pieces: Vec<Piece>,
}

impl View for Code {
    type V = Seq<Token>;

    open spec fn view(&self) -> Seq<Token> {
        flatten(self.pieces@)
    }
}

/// Text of two runs of bytes, one after the other.
pub proof fn lemma_text_add(a: Seq<u8>, b: Seq<u8>)
    ensures
        text(a + b) == text(a) + text(b),
{
    assert(text(a + b) =~= text(a) + text(b));
}

/// The tokens of two lists of pieces, one after the other.
pub proof fn lemma_flatten_add(a: Seq<Piece>, b: Seq<Piece>)
    ensures
        flatten(a + b) == flatten(a) + flatten(b),
    decreases b.len(),
{
    if b.len() == 0 {
        assert(a + b =~= a);
        assert(flatten(a) + flatten(b) =~= flatten(a));
    } else {
        lemma_flatten_add(a, b.drop_last());
        assert((a + b).drop_last() =~= a + b.drop_last());
        assert(flatten(a + b) =~= flatten(a) + flatten(b));
    }
}

impl Code {
    /// No text at all.
    pub fn new() -> (code: Code)
        ensures
            code@ == Seq::<Token>::empty(),
    {
        Code { pieces: Vec::new() }
    }

    fn push(&mut self, piece: Piece)
        ensures
            final(self)@ == old(self)@ + piece.tokens(),
    {
        proof {
            assert(self.pieces@.push(piece).drop_last() =~= self.pieces@);
        }
        self.pieces.push(piece);
    }

    /// Adds the text of `other`.
    pub fn append(&mut self, other: Code)
        ensures
            final(self)@ == old(self)@ + other@,
    {
        let mut other = other;
        proof {
            lemma_flatten_add(self.pieces@, other.pieces@);
        }
        self.pieces.append(&mut other.pieces);
    }

    /// Adds the bytes of `bytes`.
    pub fn bytes(&mut self, bytes: Vec<u8>)
        ensures
            final(self)@ == old(self)@ + text(bytes@),
    {
        self.push(Piece::Text(bytes));
    }

    /// Adds the bytes of a string.
    pub fn text(&mut self, s: &str)
        ensures
            final(self)@ == old(self)@ + lit(s),
    {
        let bytes = slice_to_vec(s.as_bytes());
        self.push(Piece::Text(bytes));
    }

    /// Adds the place of a float literal.
    pub fn number(&mut self, bits: u64)
        ensures
            final(self)@ == old(self)@ + seq![Token::Number(bits)],
    {
        self.push(Piece::Number(bits));
    }
}

/// The ASCII digit for a value below ten.
pub open spec fn digit(d: nat) -> u8 {
    (0x30 + d) as u8
}

/// A number in decimal, without sign or leading zeros.
pub open spec fn decimal(n: nat) -> Seq<u8>
    decreases n,
{
    if n < 10 {
        seq![digit(n)]
    } else {
        decimal(n / 10).push(digit(n % 10))
    }
}

/// A signed number in decimal, with `-` before a negative one.
pub open spec fn signed_decimal(n: int) -> Seq<u8> {
    if n < 0 {
        seq![0x2Du8] + decimal((-n) as nat)
    } else {
        decimal(n as nat)
    }
}

/// The ASCII hex digit for a value below sixteen, in upper or lower case.
pub open spec fn hex_digit(d: nat, upper: bool) -> u8 {
    if d < 10 {
        (0x30 + d) as u8
    } else if upper {
        (0x41 + d - 10) as u8
    } else {
        (0x61 + d - 10) as u8
    }
}

/// The lowest `width` hex digits of a number, highest first.
pub open spec fn hex(n: nat, width: nat, upper: bool) -> Seq<u8>
    decreases width,
{
    if width == 0 {
        Seq::empty()
    } else {
        hex(n / 16, (width - 1) as nat, upper).push(hex_digit(n % 16, upper))
    }
}

/// Appends `n` in decimal.
pub fn push_decimal(out: &mut Vec<u8>, n: u64)
    ensures
        final(out)@ == old(out)@ + decimal(n as nat),
    decreases n,
{
    if n >= 10 {
        push_decimal(out, n / 10);
    }
    out.push(0x30 + (n % 10) as u8);
    proof {
        assert(out@ =~= old(out)@ + decimal(n as nat));
    }
}

/// Appends `n` in decimal, with its sign.
pub fn push_signed_decimal(out: &mut Vec<u8>, n: i64)
    ensures
        final(out)@ == old(out)@ + signed_decimal(n as int),
{
    if n < 0 {
        out.push(0x2D);
        let m: u64 = (-(n as i128)) as u64;
        push_decimal(out, m);
        proof {
            assert(out@ =~= old(out)@ + signed_decimal(n as int));
        }
    } else {
        push_decimal(out, n as u64);
    }
}

/// Appends the lowest `width` hex digits of `n`.
pub fn push_hex(out: &mut Vec<u8>, n: u32, width: u8, upper: bool)
    ensures
        final(out)@ == old(out)@ + hex(n as nat, width as nat, upper),
    decreases width,
{
    if width > 0 {
        push_hex(out, n / 16, width - 1, upper);
        let d: u8 = (n % 16) as u8;
        let c: u8 = if d < 10 {
            0x30 + d
        } else if upper {
            0x41 + (d - 10)
        } else {
            0x61 + (d - 10)
        };
        out.push(c);
        proof {
            assert(out@ =~= old(out)@ + hex(n as nat, width as nat, upper));
        }
    } else {
        proof {
            assert(out@ =~= old(out)@ + hex(n as nat, width as nat, upper));
        }
    }
}

/// A text in which every occurrence of `pattern` is replaced by `with`. The
/// text is read from the left, and what has been replaced is not read again.
/// An empty pattern occurs nowhere.
pub open spec fn replace(t: Seq<u8>, pattern: Seq<u8>, with: Seq<u8>) -> Seq<u8>
    decreases t.len(),
{
    if pattern.len() == 0 || t.len() < pattern.len() {
        t
    } else if t.take(pattern.len() as int) == pattern {
        with + replace(t.skip(pattern.len() as int), pattern, with)
    } else {
        seq![t[0]] + replace(t.skip(1), pattern, with)
    }
}

/// Whether `pattern` stands in `t` at `at`.
fn occurs_at(t: &[u8], at: usize, pattern: &[u8]) -> (r: bool)
    requires
        at + pattern.len() <= t.len(),
    ensures
        r == (t@.skip(at as int).take(pattern.len() as int) == pattern@),
{
    let mut k: usize = 0;
    while k < pattern.len()
        invariant
            k <= pattern.len(),
            at + pattern.len() <= t.len(),
            forall|j: int| 0 <= j < k ==> t[at + j] == pattern[j],
        decreases pattern.len() - k,
    {
        if t[at + k] != pattern[k] {
            proof {
                let window = t@.skip(at as int).take(pattern.len() as int);
                assert(window[k as int] == t[at + k]);
            }
            return false;
        }
        k += 1;
    }
    proof {
        assert(t@.skip(at as int).take(pattern.len() as int) =~= pattern@);
    }
    true
}

/// Appends the bytes of `bytes`.
pub fn push_bytes(out: &mut Vec<u8>, bytes: &[u8])
    ensures
        final(out)@ == old(out)@ + bytes@,
{
    let mut k: usize = 0;
    while k < bytes.len()
        invariant
            k <= bytes.len(),
            out@ == old(out)@ + bytes@.take(k as int),
        decreases bytes.len() - k,
    {
        out.push(bytes[k]);
        proof {
            assert(bytes@.take(k + 1) =~= bytes@.take(k as int).push(bytes[k as int]));
            assert(out@ =~= old(out)@ + bytes@.take(k + 1));
        }
        k += 1;
    }
    proof {
        assert(bytes@.take(k as int) =~= bytes@);
    }
}

/// The text of `template` with every occurrence of `pattern` replaced by `with`.
pub fn substitute(template: &[u8], pattern: &[u8], with: &[u8]) -> (out: Vec<u8>)
    ensures
        out@ == replace(template@, pattern@, with@),
{
    let mut out: Vec<u8> = Vec::new();
    if pattern.len() == 0 {
        push_bytes(&mut out, template);
        return out;
    }
    let ghost whole = replace(template@, pattern@, with@);
    let mut i: usize = 0;
    proof {
        assert(template@.skip(0) =~= template@);
    }
    while i < template.len()
        invariant
            i <= template.len(),
            pattern.len() > 0,
            whole == replace(template@, pattern@, with@),
            out@ + replace(template@.skip(i as int), pattern@, with@) == whole,
        decreases template.len() - i,
    {
        let ghost rest = template@.skip(i as int);
        let ghost before = out@;
        if template.len() - i < pattern.len() {
            let tail = vstd::slice::slice_subrange(template, i, template.len());
            push_bytes(&mut out, tail);
            proof {
                assert(tail@ =~= rest);
                assert(template@.skip(template.len() as int) =~= Seq::<u8>::empty());
                assert(out@ + Seq::<u8>::empty() =~= before + rest);
            }
            i = template.len();
        } else if occurs_at(template, i, pattern) {
            push_bytes(&mut out, with);
            proof {
                let next = replace(template@.skip(i + pattern.len()), pattern@, with@);
                assert(rest.skip(pattern.len() as int) =~= template@.skip(i + pattern.len()));
                assert(out@ + next =~= before + (with@ + next));
            }
            i += pattern.len();
        } else {
            out.push(template[i]);
            proof {
                let next = replace(template@.skip(i + 1), pattern@, with@);
                assert(rest.skip(1) =~= template@.skip(i + 1));
                assert(out@ + next =~= before + (seq![rest[0]] + next));
            }
            i += 1;
        }
    }
    proof {
        assert(out@ + Seq::<u8>::empty() =~= out@);
    }
    out
}

/// The C literal for a float, where `shown` is the float in decimal: a
/// decimal without a point gets `.0` behind it, so that it is no integer.
pub open spec fn float_literal(shown: Seq<u8>) -> Seq<u8> {
    if shown.contains(0x2Eu8) {
        shown
    } else {
        shown + seq![0x2Eu8, 0x30u8]
    }
}

/// The bytes to write at the place of a float literal, where `shown` is the
/// float in decimal.
pub fn number_literal(shown: &[u8]) -> (out: Vec<u8>)
    ensures
        out@ == float_literal(shown@),
{
    let mut out: Vec<u8> = Vec::new();
    push_bytes(&mut out, shown);
    assert(out@ =~= shown@);
    let mut i: usize = 0;
    while i < shown.len()
        invariant
            i <= shown.len(),
            out@ == shown@,
            forall|k: int| 0 <= k < i ==> shown@[k] != 0x2Eu8,
        decreases shown.len() - i,
    {
        if shown[i] == 0x2E {
            proof {
                assert(shown@.contains(shown@[i as int]));
            }
            return out;
        }
        i += 1;
    }
    out.push(0x2E);
    out.push(0x30);
    proof {
        assert(!shown@.contains(0x2Eu8));
        assert(out@ =~= shown@ + seq![0x2Eu8, 0x30u8]);
    }
    out
}

} // verus!
