//! The decoded form of a chunk: instruction words, constants, descriptors,
//! basic blocks and the tree of function prototypes, each with the
//! mathematical value that the contracts of this crate speak of.

use crate::common::bitext::{get_bit, get_bits, lemma_bit_ranges};
pub use crate::common::number::Res;
pub use crate::common::opcode::Opcode;
use vstd::prelude::*;
use vstd::std_specs::convert::FromSpecImpl;
use vstd::utf8::encode_utf8;

verus! {

/// An instruction word.
pub type Instruction = u32;

/// An integer constant.
pub type Integer = i64;

/// A float constant, held by its bits.
pub type Number = u64;

/// The first six bytes of every chunk.
pub const LUA_MAGIC: [u8; 6] = [0x1B, 0x4C, 0x75, 0x61, 0x54, 0x00];

/// The six bytes that follow the magic; they show whether a transfer has
/// changed line ends or cut off the eighth bit.
pub const LUA_DATA: [u8; 6] = [0x19, 0x93, 0x0D, 0x0A, 0x1A, 0x0A];

/// The integer that a chunk's header holds as a test of its byte order.
pub const LUA_INT: Integer = 0x5678;

/// The bits of the float 370.5, which a chunk's header holds as a test of its
/// float format.
pub const LUA_NUM: Number = 0x4077_2800_0000_0000;

/// Half the range of the signed jump field, which is stored with this bias.
pub const SJ_BIAS: i32 = 0xFF_FFFF;

/// One instruction word.
#[derive(PartialEq, Eq, Structural, Clone, Copy, Debug)]
pub struct Inst {
    pub inner: Instruction,
}

impl Inst {
    /// The opcode: the low seven bits of the word.
    pub open spec fn spec_opcode(self) -> Opcode {
        Opcode::of_tag((self.inner % 128) as u8)
    }

    /// The flag "k": bit 15 of the word.
    pub open spec fn spec_k(self) -> bool {
        (self.inner / 32768) % 2 == 1
    }

    /// The field "ax": bits 7 to 31 of the word.
    pub open spec fn spec_ax(self) -> u32 {
        self.inner / 128
    }

    /// The field "bx": bits 15 to 31 of the word.
    pub open spec fn spec_bx(self) -> u32 {
        self.inner / 32768
    }

    /// The field "sj": bits 7 to 31 of the word, less the bias.
    pub open spec fn spec_sj(self) -> i32 {
        (self.inner / 128 - SJ_BIAS) as i32
    }

    #[verifier::when_used_as_spec(spec_opcode)]
    pub fn opcode(self) -> (op: Opcode)
        ensures
            op == self.spec_opcode(),
    {
        proof {
            lemma_bit_ranges(self.inner);
        }
        let tag = get_bits(self.inner, 0, 7);
        Opcode::from(tag as u8)
    }

    #[verifier::when_used_as_spec(spec_k)]
    pub fn k(self) -> (r: bool)
        ensures
            r == self.spec_k(),
    {
        proof {
            lemma_bit_ranges(self.inner);
        }
        get_bit(self.inner, 15)
    }

    #[verifier::when_used_as_spec(spec_ax)]
    pub fn ax(self) -> (r: u32)
        ensures
            r == self.spec_ax(),
    {
        proof {
            lemma_bit_ranges(self.inner);
        }
        get_bits(self.inner, 7, 32)
    }

    #[verifier::when_used_as_spec(spec_bx)]
    pub fn bx(self) -> (r: u32)
        ensures
            r == self.spec_bx(),
            r < 0x2_0000,
    {
        proof {
            lemma_bit_ranges(self.inner);
        }
        get_bits(self.inner, 15, 32)
    }

    #[verifier::when_used_as_spec(spec_sj)]
    pub fn sj(self) -> (r: i32)
        ensures
            r == self.spec_sj(),
            -SJ_BIAS <= r <= SJ_BIAS + 1,
    {
        proof {
            lemma_bit_ranges(self.inner);
        }
        let raw = get_bits(self.inner, 7, 32);
        raw as i32 - SJ_BIAS
    }
}

impl Inst {
    /// The word that holds an opcode and nothing else.
    pub open spec fn of_opcode(op: Opcode) -> Inst {
        Inst { inner: op.tag() as u32 }
    }
}

impl From<Opcode> for Inst {
    fn from(op: Opcode) -> (inst: Inst) {
        let tag: u8 = u8::from(op);
        Inst { inner: tag as u32 }
    }
}

impl FromSpecImpl<Opcode> for Inst {
    open spec fn obeys_from_spec() -> bool {
        true
    }

    open spec fn from_spec(op: Opcode) -> Inst {
        Inst::of_opcode(op)
    }
}

impl Default for Inst {
    fn default() -> (inst: Inst)
        ensures
            inst == Inst::of_opcode(Opcode::Invalid),
    {
        Inst::from(Opcode::Invalid)
    }
}

/// An instruction made from an opcode alone decodes to that opcode, with
/// every operand field zero.
pub proof fn lemma_inst_of_opcode(op: Opcode)
    ensures
        Inst::of_opcode(op).spec_opcode() == op,
        Inst::of_opcode(op).spec_ax() == 0,
        Inst::of_opcode(op).spec_bx() == 0,
        !Inst::of_opcode(op).spec_k(),
{
    op.lemma_tag_of_tag();
}

/// The kind of a constant, as the byte that stands before it in a chunk.
#[derive(PartialEq, Eq, Structural, Clone, Copy, Debug)]
pub enum Constant {
    Nil,
    False,
    True,
    Integer,
    Number,
    ShortString,
    LongString,
}

impl Constant {
    /// The byte that stands for this kind.
    pub open spec fn tag(self) -> u8 {
        match self {
            Constant::Nil => 0x00,
            Constant::False => 0x01,
            Constant::True => 0x11,
            Constant::Integer => 0x03,
            Constant::Number => 0x13,
            Constant::ShortString => 0x04,
            Constant::LongString => 0x14,
        }
    }

    /// The kind that a byte stands for, if it stands for one.
    pub open spec fn of_tag(tag: u8) -> Option<Constant> {
        if tag == 0x00 {
            Some(Constant::Nil)
        } else if tag == 0x01 {
            Some(Constant::False)
        } else if tag == 0x11 {
            Some(Constant::True)
        } else if tag == 0x03 {
            Some(Constant::Integer)
        } else if tag == 0x13 {
            Some(Constant::Number)
        } else if tag == 0x04 {
            Some(Constant::ShortString)
        } else if tag == 0x14 {
            Some(Constant::LongString)
        } else {
            None
        }
    }

    /// The kind that `tag` stands for; `None` for a byte outside the closed set.
    pub fn try_from(tag: u8) -> (kind: Option<Constant>)
        ensures
            kind == Constant::of_tag(tag),
    {
        match tag {
            0x00 => Some(Constant::Nil),
            0x01 => Some(Constant::False),
            0x11 => Some(Constant::True),
            0x03 => Some(Constant::Integer),
            0x13 => Some(Constant::Number),
            0x04 => Some(Constant::ShortString),
            0x14 => Some(Constant::LongString),
            _ => None,
        }
    }
}

impl From<Constant> for u8 {
    fn from(kind: Constant) -> (tag: u8) {
        match kind {
            Constant::Nil => 0x00,
            Constant::False => 0x01,
            Constant::True => 0x11,
            Constant::Integer => 0x03,
            Constant::Number => 0x13,
            Constant::ShortString => 0x04,
            Constant::LongString => 0x14,
        }
    }
}

impl FromSpecImpl<Constant> for u8 {
    open spec fn obeys_from_spec() -> bool {
        true
    }

    open spec fn from_spec(kind: Constant) -> u8 {
        kind.tag()
    }
}

/// A line of the source together with the first instruction that belongs to it.
#[derive(PartialEq, Eq, Structural, Clone, Copy, Debug)]
pub struct AbsLine {
    pub pc: u32,
    pub line: u32,
}

/// A constant of a function. A float is held by its bits.
#[derive(PartialEq, Eq, Clone, Debug)]
pub enum Value {
    Nil,
    False,
    True,
    Integer(Integer),
    Number(Number),
    NoString,
    String(String),
}

/// What a [`Value`] is, with a string as the sequence of its characters.
pub enum ValueView {
    Nil,
    False,
    True,
    Integer(i64),
    Number(u64),
    NoString,
    String(Seq<char>),
}

impl View for Value {
    type V = ValueView;

    open spec fn view(&self) -> ValueView {
        match self {
            Value::Nil => ValueView::Nil,
            Value::False => ValueView::False,
            Value::True => ValueView::True,
            Value::Integer(i) => ValueView::Integer(*i),
            Value::Number(n) => ValueView::Number(*n),
            Value::NoString => ValueView::NoString,
            Value::String(s) => ValueView::String(s@),
        }
    }
}

impl ValueView {
    /// Whether the constant can be written with its length before it: a
    /// string must be shorter than the largest number there is.
    pub open spec fn fits(self) -> bool {
        self matches ValueView::String(s) ==> encode_utf8(s).len() < u64::MAX
    }
}

impl ValueView {
    /// Whether the constant can stand in a chunk: the length of a string,
    /// and one more, must be a number that a `u32` holds.
    pub open spec fn loadable(self) -> bool {
        self matches ValueView::String(s) ==> encode_utf8(s).len() < u32::MAX
    }

    /// What is kept of the constant in a reduced chunk: nil, a boolean and
    /// a string as they are, and nil for a number.
    pub open spec fn reduced(self) -> ValueView {
        match self {
            ValueView::Integer(_) | ValueView::Number(_) => ValueView::Nil,
            kept => kept,
        }
    }
}

impl UpvalueView {
    /// What is kept of the upvalue in a reduced chunk: all but its name.
    pub open spec fn reduced(self) -> UpvalueView {
        UpvalueView { name: None, in_stack: self.in_stack, index: self.index }
    }
}

/// The characters of a name that may be absent.
pub open spec fn name_view(name: Option<String>) -> Option<Seq<char>> {
    match name {
        Some(s) => Some(s@),
        None => None,
    }
}

/// A local variable and the instructions over which it is live.
#[derive(PartialEq, Eq, Debug)]
pub struct Local {
    pub name: Option<String>,
    pub start_pc: u32,
    pub end_pc: u32,
}

/// What a [`Local`] is.
pub struct LocalView {
    pub name: Option<Seq<char>>,
    pub start_pc: u32,
    pub end_pc: u32,
}

impl View for Local {
    type V = LocalView;

    open spec fn view(&self) -> LocalView {
        LocalView { name: name_view(self.name), start_pc: self.start_pc, end_pc: self.end_pc }
    }
}

/// A variable that a closure captures: from the enclosing function's stack
/// (`in_stack`) or from the enclosing closure's own upvalues, at `index`.
#[derive(PartialEq, Eq, Debug)]
pub struct Upvalue {
    pub name: Option<String>,
    pub in_stack: bool,
    pub index: u8,
}

/// What an [`Upvalue`] is.
pub struct UpvalueView {
    pub name: Option<Seq<char>>,
    pub in_stack: bool,
    pub index: u8,
}

impl View for Upvalue {
    type V = UpvalueView;

    open spec fn view(&self) -> UpvalueView {
        UpvalueView { name: name_view(self.name), in_stack: self.in_stack, index: self.index }
    }
}

/// Where control goes after a block: to the block with the given ordinal, or
/// nowhere that the splitter could name, with the offset of the jump.
#[derive(PartialEq, Eq, Structural, Clone, Copy, Debug)]
pub enum Target {
    Label(u32),
    Undefined(i32),
}

/// A run of instructions with one way in and one target.
#[derive(PartialEq, Eq, Debug)]
pub struct Block {
    pub code: Vec<Inst>,
    pub target: Target,
}

/// What a [`Block`] is.
pub struct BlockView {
    pub code: Seq<Inst>,
    pub target: Target,
}

impl View for Block {
    type V = BlockView;

    open spec fn view(&self) -> BlockView {
        BlockView { code: self.code@, target: self.target }
    }
}

/// A function of the chunk, with the functions nested in it.
#[derive(PartialEq, Eq, Debug)]
pub struct Proto {
    pub source: Option<String>,
    pub is_vararg: u8,
    pub num_stack: u8,
    pub num_param: u8,
    pub line_defined: u32,
    pub last_line_defined: u32,
    pub value_list: Vec<Value>,
    pub block_list: Vec<Block>,
    pub child_list: Vec<Proto>,
    pub upval_list: Vec<Upvalue>,
    pub rel_line_list: Vec<i8>,
    pub abs_line_list: Vec<AbsLine>,
    pub local_list: Vec<Local>,
}

/// What a [`Proto`] is: the same tree, with sequences for the lists.
pub struct ProtoView {
    pub source: Option<Seq<char>>,
    pub is_vararg: u8,
    pub num_stack: u8,
    pub num_param: u8,
    pub line_defined: u32,
    pub last_line_defined: u32,
    pub value_list: Seq<ValueView>,
    pub block_list: Seq<BlockView>,
    pub child_list: Seq<ProtoView>,
    pub upval_list: Seq<UpvalueView>,
    pub rel_line_list: Seq<i8>,
    pub abs_line_list: Seq<AbsLine>,
    pub local_list: Seq<LocalView>,
}

impl ProtoView {
    /// Whether each string constant of the tree can be written with its
    /// length before it.
    pub open spec fn fits(self) -> bool
        decreases self,
    {
        &&& forall|i: int| 0 <= i < self.value_list.len() ==> (#[trigger] self.value_list[i]).fits()
        &&& forall|i: int| 0 <= i < self.child_list.len() ==> (#[trigger] self.child_list[i]).fits()
    }
}

impl ProtoView {
    /// Whether every list of constants, of upvalues and of nested functions
    /// in the tree has a count that a `u32` holds.
    pub open spec fn counted(self) -> bool
        decreases self,
    {
        &&& self.value_list.len() <= u32::MAX
        &&& self.upval_list.len() <= u32::MAX
        &&& self.child_list.len() <= u32::MAX
        &&& forall|i: int|
            0 <= i < self.child_list.len() ==> (#[trigger] self.child_list[i]).counted()
    }

    /// Whether every string constant in the tree has a length that, with
    /// one added, a `u32` holds.
    pub open spec fn strings_loadable(self) -> bool
        decreases self,
    {
        &&& forall|i: int|
            0 <= i < self.value_list.len() ==> (#[trigger] self.value_list[i]).loadable()
        &&& forall|i: int|
            0 <= i < self.child_list.len() ==> (#[trigger] self.child_list[i]).strings_loadable()
    }

    /// A tree whose lists are counted and whose strings are loadable can
    /// stand in a chunk.
    pub proof fn lemma_loadable(self)
        requires
            self.counted(),
            self.strings_loadable(),
        ensures
            self.loadable(),
        decreases self,
    {
        assert forall|i: int| 0 <= i < self.child_list.len() implies (#[trigger] self.child_list[i]).loadable() by {
            self.child_list[i].lemma_loadable();
        }
    }

    /// Whether the tree can stand in a chunk: every list in it has a count,
    /// and every string a length, that a `u32` holds.
    pub open spec fn loadable(self) -> bool
        decreases self,
    {
        &&& self.value_list.len() <= u32::MAX
        &&& self.upval_list.len() <= u32::MAX
        &&& self.child_list.len() <= u32::MAX
        &&& forall|i: int|
            0 <= i < self.value_list.len() ==> (#[trigger] self.value_list[i]).loadable()
        &&& forall|i: int|
            0 <= i < self.child_list.len() ==> (#[trigger] self.child_list[i]).loadable()
    }
}

/// The value of a prototype tree.
pub open spec fn proto_view(p: Proto) -> ProtoView
    decreases p,
{
    ProtoView {
        source: name_view(p.source),
        is_vararg: p.is_vararg,
        num_stack: p.num_stack,
        num_param: p.num_param,
        line_defined: p.line_defined,
        last_line_defined: p.last_line_defined,
        value_list: Seq::new(p.value_list@.len(), |i: int| p.value_list@[i]@),
        block_list: Seq::new(p.block_list@.len(), |i: int| p.block_list@[i]@),
        child_list: Seq::new(
            p.child_list@.len(),
            |i: int|
                if 0 <= i < p.child_list@.len() {
                    proto_view(p.child_list@[i])
                } else {
                    arbitrary()
                },
        ),
        upval_list: Seq::new(p.upval_list@.len(), |i: int| p.upval_list@[i]@),
        rel_line_list: p.rel_line_list@,
        abs_line_list: p.abs_line_list@,
        local_list: Seq::new(p.local_list@.len(), |i: int| p.local_list@[i]@),
    }
}

impl View for Proto {
    type V = ProtoView;

    open spec fn view(&self) -> ProtoView {
        proto_view(*self)
    }
}

impl Proto {
    /// The lists of a prototype's value hold the values of the prototype's
    /// own lists, item by item.
    pub proof fn lemma_view(&self)
        ensures
            self@.value_list.len() == self.value_list@.len(),
            self@.block_list.len() == self.block_list@.len(),
            self@.child_list.len() == self.child_list@.len(),
            self@.upval_list.len() == self.upval_list@.len(),
            self@.local_list.len() == self.local_list@.len(),
            forall|i: int|
                0 <= i < self.value_list@.len() ==> #[trigger] self@.value_list[i]
                    == self.value_list@[i]@,
            forall|i: int|
                0 <= i < self.block_list@.len() ==> #[trigger] self@.block_list[i]
                    == self.block_list@[i]@,
            forall|i: int|
                0 <= i < self.child_list@.len() ==> #[trigger] self@.child_list[i]
                    == self.child_list@[i]@,
            forall|i: int|
                0 <= i < self.upval_list@.len() ==> #[trigger] self@.upval_list[i]
                    == self.upval_list@[i]@,
            forall|i: int|
                0 <= i < self.local_list@.len() ==> #[trigger] self@.local_list[i]
                    == self.local_list@[i]@,
            self@.rel_line_list == self.rel_line_list@,
            self@.abs_line_list == self.abs_line_list@,
            self@.source == name_view(self.source),
            self@.is_vararg == self.is_vararg,
            self@.num_stack == self.num_stack,
            self@.num_param == self.num_param,
            self@.line_defined == self.line_defined,
            self@.last_line_defined == self.last_line_defined,
    {
        reveal_with_fuel(proto_view, 2);
    }
}

impl Value {
    /// Whether the constant can be written with its length before it.
    pub fn fits(&self) -> (r: bool)
        ensures
            r == self@.fits(),
    {
        match self {
            Value::String(s) => (s.as_str().as_bytes().len() as u64) < u64::MAX,
            _ => true,
        }
    }
}

impl Proto {
    /// Whether each string constant of the tree can be written with its
    /// length before it.
    pub fn fits(&self) -> (r: bool)
        ensures
            r == self@.fits(),
        decreases self,
    {
        proof {
            self.lemma_view();
        }
        let mut i: usize = 0;
        while i < self.value_list.len()
            invariant
                i <= self.value_list.len(),
                self@.value_list.len() == self.value_list.len(),
                forall|k: int|
                    0 <= k < self.value_list@.len() ==> #[trigger] self@.value_list[k]
                        == self.value_list@[k]@,
                forall|k: int| 0 <= k < i ==> (#[trigger] self@.value_list[k]).fits(),
            decreases self.value_list.len() - i,
        {
            if !self.value_list[i].fits() {
                proof {
                    assert(!self@.value_list[i as int].fits());
                }
                return false;
            }
            i += 1;
        }
        let mut j: usize = 0;
        while j < self.child_list.len()
            invariant
                j <= self.child_list.len(),
                self@.child_list.len() == self.child_list.len(),
                forall|k: int|
                    0 <= k < self.child_list@.len() ==> #[trigger] self@.child_list[k]
                        == self.child_list@[k]@,
                forall|k: int|
                    0 <= k < self.value_list@.len() ==> (#[trigger] self@.value_list[k]).fits(),
                forall|k: int| 0 <= k < j ==> (#[trigger] self@.child_list[k]).fits(),
            decreases self.child_list.len() - j,
        {
            if !self.child_list[j].fits() {
                proof {
                    assert(!self@.child_list[j as int].fits());
                }
                return false;
            }
            j += 1;
        }
        true
    }
}

} // verus!
