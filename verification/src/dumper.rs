//! Writes a prototype tree back into a chunk that holds what the generated
//! code needs at load time: the shape of the tree, the constants but for the
//! numbers, and the upvalues. Every function body is a single `Return0`.

use crate::codegen::text::push_bytes;
use crate::common::list::{join, lemma_join_same};
use crate::common::number::{dump_unsigned, unsigned_bytes, Serde};
use crate::common::opcode::Opcode;
use crate::common::types::{
    Constant, Inst, Instruction, Integer, Number, Proto, ProtoView, Upvalue, UpvalueView, Value,
    ValueView, LUA_DATA, LUA_INT, LUA_MAGIC, LUA_NUM,
};
use vstd::layout::size_of;
use vstd::prelude::*;
use vstd::utf8::encode_utf8;

verus! {

/// Why a prototype tree cannot be written as a chunk.
#[derive(PartialEq, Eq, Structural, Clone, Copy, Debug)]
pub enum DumpError {
    /// The main function has more upvalues than the one byte for their count can say.
    TooManyUpvalues,
}

/// The widths that the header states: four bytes for an instruction, eight
/// for an integer and eight for a float.
pub open spec fn header_widths() -> Seq<u8> {
    seq![4u8, 8u8, 8u8]
}

/// The header of every chunk that this crate reads and writes: the two
/// signatures, the widths of an instruction, an integer and a float, and an
/// integer and a float as a test of how these are stored.
pub open spec fn header_bytes() -> Seq<u8> {
    LUA_MAGIC@ + LUA_DATA@ + header_widths() + LUA_INT.spec_ser() + LUA_NUM.spec_ser()
}

/// Appends the width of `T` in bytes.
pub fn dump_size_of<T>(w: &mut Vec<u8>)
    requires
        size_of::<T>() <= u8::MAX,
    ensures
        final(w)@ == old(w)@ + seq![size_of::<T>() as u8],
{
    let width: usize = core::mem::size_of::<T>();
    (width as u8).ser(w);
}

/// Appends the header.
pub fn dump_lua_header(w: &mut Vec<u8>)
    ensures
        final(w)@ == old(w)@ + header_bytes(),
{
    broadcast use vstd::layout::layout_of_primitives;

    push_bytes(w, LUA_MAGIC.as_slice());
    push_bytes(w, LUA_DATA.as_slice());
    dump_size_of::<Instruction>(w);
    dump_size_of::<Integer>(w);
    dump_size_of::<Number>(w);
    LUA_INT.ser(w);
    LUA_NUM.ser(w);
    proof {
        assert(w@ =~= old(w)@ + header_bytes());
    }
}

/// Appends a length or a count.
pub fn dump_integer(val: u64, w: &mut Vec<u8>)
    ensures
        final(w)@ == old(w)@ + unsigned_bytes(val),
{
    dump_unsigned(val, w)
}

/// A string in a chunk: its length in bytes and one more, then its bytes.
pub open spec fn string_bytes(s: Seq<char>) -> Seq<u8> {
    unsigned_bytes((encode_utf8(s).len() + 1) as u64) + encode_utf8(s)
}

/// Appends a string.
pub fn dump_string(val: &str, w: &mut Vec<u8>)
    requires
        encode_utf8(val@).len() < u64::MAX,
    ensures
        final(w)@ == old(w)@ + string_bytes(val@),
{
    let bytes = val.as_bytes();
    dump_integer(bytes.len() as u64 + 1, w);
    push_bytes(w, bytes);
    proof {
        assert(w@ =~= old(w)@ + string_bytes(val@));
    }
}

/// Appends the count of `list` and then its items, each as `dump` writes it.
fn dump_list<T, M>(
    list: &[T],
    dump: M,
    w: &mut Vec<u8>,
    Ghost(each): Ghost<spec_fn(T) -> Seq<u8>>,
) where M: Fn(&T, &mut Vec<u8>)
    requires
        forall|i: int, v: &mut Vec<u8>|
            0 <= i < list@.len() ==> call_requires(dump, (&#[trigger] list@[i], v)),
        forall|x: &T, v: &mut Vec<u8>, u: ()|
            call_ensures(dump, (x, v), u) ==> final(v)@ == v@ + each(*x),
    ensures
        final(w)@ == old(w)@ + unsigned_bytes(list@.len() as u64) + join(list@, each),
{
    dump_integer(list.len() as u64, w);
    let ghost head = w@;
    let mut i: usize = 0;
    proof {
        assert(w@ =~= head + join(list@.take(0), each));
    }
    while i < list.len()
        invariant
            i <= list.len(),
            forall|i: int, v: &mut Vec<u8>|
                0 <= i < list@.len() ==> call_requires(dump, (&#[trigger] list@[i], v)),
            forall|x: &T, v: &mut Vec<u8>, u: ()|
                call_ensures(dump, (x, v), u) ==> final(v)@ == v@ + each(*x),
            w@ == head + join(list@.take(i as int), each),
        decreases list.len() - i,
    {
        dump(&list[i], w);
        proof {
            assert(list@.take(i + 1).drop_last() =~= list@.take(i as int));
            assert(w@ =~= head + join(list@.take(i + 1), each));
        }
        i += 1;
    }
    proof {
        assert(list@.take(i as int) =~= list@);
    }
}

/// The body that every function gets: one instruction, `Return0`.
pub open spec fn dummy_inst_bytes() -> Seq<u8> {
    unsigned_bytes(1) + Inst::of_opcode(Opcode::Return0).inner.spec_ser()
}

/// Appends a list of instructions that holds one `Return0`.
pub fn dump_dummy_inst(w: &mut Vec<u8>)
    ensures
        final(w)@ == old(w)@ + dummy_inst_bytes(),
{
    let ret_inst = Inst::from(Opcode::Return0);
    dump_integer(1, w);
    ret_inst.inner.ser(w);
    proof {
        assert(w@ =~= old(w)@ + dummy_inst_bytes());
    }
}

/// A constant in a chunk. Nil, the two booleans and strings are kept, and a
/// string has the short or the long tag by its length; a number is written
/// as nil.
pub open spec fn constant_bytes(value: ValueView) -> Seq<u8> {
    match value {
        ValueView::False => seq![Constant::False.tag()],
        ValueView::True => seq![Constant::True.tag()],
        ValueView::NoString => seq![Constant::ShortString.tag()] + unsigned_bytes(0),
        ValueView::String(s) => seq![
            if encode_utf8(s).len() < 40 {
                Constant::ShortString.tag()
            } else {
                Constant::LongString.tag()
            },
        ] + string_bytes(s),
        ValueView::Nil | ValueView::Integer(_) | ValueView::Number(_) => seq![
            Constant::Nil.tag(),
        ],
    }
}

/// Appends a constant.
pub fn dump_constant(value: &Value, w: &mut Vec<u8>)
    requires
        value@.fits(),
    ensures
        final(w)@ == old(w)@ + constant_bytes(value@),
{
    match value {
        Value::False => {
            u8::from(Constant::False).ser(w);
        },
        Value::True => {
            u8::from(Constant::True).ser(w);
        },
        Value::NoString => {
            u8::from(Constant::ShortString).ser(w);
            dump_integer(0, w);
        },
        Value::String(s) => {
            let s = s.as_str();
            if s.as_bytes().len() < 40 {
                u8::from(Constant::ShortString).ser(w);
            } else {
                u8::from(Constant::LongString).ser(w);
            }
            dump_string(s, w);
        },
        Value::Nil | Value::Integer(_) | Value::Number(_) => {
            u8::from(Constant::Nil).ser(w);
        },
    }
    proof {
        assert(w@ =~= old(w)@ + constant_bytes(value@));
    }
}

/// An upvalue in a chunk: where it is taken from, its index there, and a
/// zero for its kind.
pub open spec fn upvalue_bytes(value: UpvalueView) -> Seq<u8> {
    seq![if value.in_stack { 1u8 } else { 0u8 }, value.index, 0u8]
}

/// Appends an upvalue.
pub fn dump_upval(value: &Upvalue, w: &mut Vec<u8>)
    ensures
        final(w)@ == old(w)@ + upvalue_bytes(value@),
{
    let in_stack: u8 = if value.in_stack { 1 } else { 0 };
    let index = value.index;
    in_stack.ser(w);
    index.ser(w);
    0u8.ser(w);
    proof {
        assert(w@ =~= old(w)@ + upvalue_bytes(value@));
    }
}

/// The first part of a function in a chunk, without what the generated code
/// does not need: no name and no lines, the number of the parameters,
/// whether there are variable arguments, the size of the frame, one
/// instruction for a body, the constants, the upvalues, and the number of
/// the nested functions.
pub open spec fn head_bytes(p: ProtoView) -> Seq<u8> {
    unsigned_bytes(0) + unsigned_bytes(0) + unsigned_bytes(0) + seq![
        p.num_param,
        p.is_vararg,
        p.num_stack,
    ] + dummy_inst_bytes() + unsigned_bytes(p.value_list.len() as u64) + join(
        p.value_list,
        |v: ValueView| constant_bytes(v),
    ) + unsigned_bytes(p.upval_list.len() as u64) + join(
        p.upval_list,
        |u: UpvalueView| upvalue_bytes(u),
    ) + unsigned_bytes(p.child_list.len() as u64)
}

/// The last part of a function in a chunk: four lists for debugging, all empty.
pub open spec fn debug_bytes() -> Seq<u8> {
    unsigned_bytes(0) + unsigned_bytes(0) + unsigned_bytes(0) + unsigned_bytes(0)
}

/// A function in a chunk: its first part, the functions nested in it, and
/// its last part.
pub open spec fn function_bytes(p: ProtoView) -> Seq<u8>
    decreases p, p.child_list.len() + 1,
{
    head_bytes(p) + children_bytes(p, p.child_list.len()) + debug_bytes()
}

/// The first `count` functions nested in `p`, one after the other.
pub open spec fn children_bytes(p: ProtoView, count: nat) -> Seq<u8>
    decreases p, count,
{
    if count == 0 || count > p.child_list.len() {
        Seq::empty()
    } else {
        children_bytes(p, (count - 1) as nat) + function_bytes(p.child_list[count - 1])
    }
}

/// Appends the functions nested in `proto`.
fn dump_children(proto: &Proto, w: &mut Vec<u8>)
    requires
        proto@.fits(),
    ensures
        final(w)@ == old(w)@ + children_bytes(proto@, proto@.child_list.len()),
    decreases proto, 0nat,
{
    proof {
        proto.lemma_view();
    }
    let ghost p = proto@;
    let mut i: usize = 0;
    proof {
        assert(w@ =~= old(w)@ + children_bytes(p, 0));
    }
    while i < proto.child_list.len()
        invariant
            i <= proto.child_list.len(),
            p == proto@,
            p.fits(),
            p.child_list.len() == proto.child_list.len(),
            forall|k: int|
                0 <= k < proto.child_list@.len() ==> #[trigger] p.child_list[k]
                    == proto.child_list@[k]@,
            w@ == old(w)@ + children_bytes(p, i as nat),
        decreases proto.child_list.len() - i,
    {
        let child = &proto.child_list[i];
        proof {
            assert(p.child_list[i as int] == child@);
            assert(p.child_list[i as int].fits());
        }
        dump_function(child, w);
        proof {
            assert(w@ =~= old(w)@ + children_bytes(p, (i + 1) as nat));
        }
        i += 1;
    }
}

/// Appends the constants of `proto`, with their count before them.
fn dump_constants(proto: &Proto, w: &mut Vec<u8>)
    requires
        proto@.fits(),
    ensures
        final(w)@ == old(w)@ + unsigned_bytes(proto@.value_list.len() as u64) + join(
            proto@.value_list,
            |v: ValueView| constant_bytes(v),
        ),
{
    proof {
        proto.lemma_view();
    }
    let ghost each = |v: Value| constant_bytes(v@);
    proof {
        assert forall|i: int, v: &mut Vec<u8>| 0 <= i < proto.value_list@.len() implies call_requires(
            dump_constant,
            (&#[trigger] proto.value_list@[i], v),
        ) by {
            assert(proto@.value_list[i].fits());
        }
        lemma_join_same(
            proto.value_list@,
            each,
            proto@.value_list,
            |v: ValueView| constant_bytes(v),
        );
    }
    dump_list(proto.value_list.as_slice(), dump_constant, w, Ghost(each));
}

/// Appends the upvalues of `proto`, with their count before them.
fn dump_upvalues(proto: &Proto, w: &mut Vec<u8>)
    ensures
        final(w)@ == old(w)@ + unsigned_bytes(proto@.upval_list.len() as u64) + join(
            proto@.upval_list,
            |u: UpvalueView| upvalue_bytes(u),
        ),
{
    proof {
        proto.lemma_view();
    }
    let ghost each = |u: Upvalue| upvalue_bytes(u@);
    proof {
        lemma_join_same(
            proto.upval_list@,
            each,
            proto@.upval_list,
            |u: UpvalueView| upvalue_bytes(u),
        );
    }
    dump_list(proto.upval_list.as_slice(), dump_upval, w, Ghost(each));
}

/// Appends a function.
pub fn dump_function(proto: &Proto, w: &mut Vec<u8>)
    requires
        proto@.fits(),
    ensures
        final(w)@ == old(w)@ + function_bytes(proto@),
    decreases proto, 1nat,
{
    proof {
        proto.lemma_view();
    }
    let ghost p = proto@;
    dump_integer(0, w);
    dump_integer(0, w);
    dump_integer(0, w);
    proto.num_param.ser(w);
    proto.is_vararg.ser(w);
    proto.num_stack.ser(w);
    dump_dummy_inst(w);
    let ghost head = unsigned_bytes(0) + unsigned_bytes(0) + unsigned_bytes(0) + seq![
        p.num_param,
        p.is_vararg,
        p.num_stack,
    ] + dummy_inst_bytes();
    assert(w@ =~= old(w)@ + head);
    dump_constants(proto, w);
    dump_upvalues(proto, w);
    dump_integer(proto.child_list.len() as u64, w);
    assert(w@ =~= old(w)@ + head_bytes(p));
    dump_children(proto, w);
    dump_integer(0, w);
    dump_integer(0, w);
    dump_integer(0, w);
    dump_integer(0, w);
    proof {
        assert(w@ =~= old(w)@ + function_bytes(p));
    }
}

/// A chunk that holds the tree `p`.
pub open spec fn module_bytes(p: ProtoView) -> Seq<u8> {
    header_bytes() + seq![p.upval_list.len() as u8] + function_bytes(p)
}

/// What [`dump_lua_module`] gives for the tree `p`.
pub open spec fn spec_dump_lua_module(p: ProtoView) -> Result<Seq<u8>, DumpError> {
    if p.upval_list.len() > u8::MAX {
        Err(DumpError::TooManyUpvalues)
    } else {
        Ok(module_bytes(p))
    }
}

/// Writes a chunk that holds the tree `proto`.
pub fn dump_lua_module(proto: &Proto) -> (r: Result<Vec<u8>, DumpError>)
    requires
        proto@.fits(),
    ensures
        match spec_dump_lua_module(proto@) {
            Ok(bytes) => r is Ok && r->Ok_0@ == bytes,
            Err(e) => r == Err::<Vec<u8>, DumpError>(e),
        },
{
    proof {
        proto.lemma_view();
    }
    let mut vec: Vec<u8> = Vec::new();
    let len = proto.upval_list.len();
    if len > 255 {
        return Err(DumpError::TooManyUpvalues);
    }
    let nup = len as u8;
    dump_lua_header(&mut vec);
    nup.ser(&mut vec);
    dump_function(proto, &mut vec);
    proof {
        assert(vec@ =~= module_bytes(proto@));
    }
    Ok(vec)
}

} // verus!
