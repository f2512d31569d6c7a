//! What reading makes of a chunk that was written: the tree that was
//! written, as far as a reduced chunk keeps it.

use crate::common::list::{join, lemma_many_join, many};
use crate::common::number::{
    lemma_unsigned_bytes_len, lemma_unsigned_round_trip, unsigned_bytes, Serde,
};
use crate::common::opcode::Opcode;
use crate::common::types::{
    lemma_inst_of_opcode, BlockView, Constant, Inst, ProtoView, Target, UpvalueView, ValueView,
};
use crate::dumper::{
    children_bytes, constant_bytes, debug_bytes, dummy_inst_bytes, function_bytes, head_bytes,
    header_bytes, module_bytes, spec_dump_lua_module, string_bytes, upvalue_bytes,
};
use crate::loader::{
    proto_of, spec_load_abs_line_info, spec_load_constant, spec_load_function,
    spec_load_functions, spec_load_head, spec_load_instruction, spec_load_list, spec_load_local,
    spec_load_lua_module, spec_load_rel_line, spec_load_sizes, spec_load_string_opt, spec_load_t,
    spec_load_tail, spec_load_upvalue, HeadView, TailView,
};
use crate::splitter::{
    edges, jump_offset, labels_for, marks, offset_at, ordered, rank, spec_split, targets_for,
};
use vstd::prelude::*;
use vstd::utf8::{encode_utf8, encode_utf8_decode_utf8, encode_utf8_valid_utf8};

verus! {

/// What a reduced chunk keeps of a tree: the shape of the tree, the number
/// of the parameters, the variable arguments and the size of the frame of
/// every function, its constants, with nil for every number, and its
/// upvalues without their names. Every function has `Return0` for
/// a body, in one block.
pub open spec fn reduced(p: ProtoView) -> ProtoView
    decreases p,
{
    ProtoView {
        source: None,
        is_vararg: p.is_vararg,
        num_stack: p.num_stack,
        num_param: p.num_param,
        line_defined: 0,
        last_line_defined: 0,
        value_list: Seq::new(p.value_list.len(), |i: int| p.value_list[i].reduced()),
        block_list: spec_split(seq![Inst::of_opcode(Opcode::Return0)]),
        child_list: Seq::new(
            p.child_list.len(),
            |i: int|
                if 0 <= i < p.child_list.len() {
                    reduced(p.child_list[i])
                } else {
                    arbitrary()
                },
        ),
        upval_list: Seq::new(p.upval_list.len(), |i: int| p.upval_list[i].reduced()),
        rel_line_list: Seq::empty(),
        abs_line_list: Seq::empty(),
        local_list: Seq::empty(),
    }
}

/// The blocks of the body that every function has in a reduced chunk: one
/// block with the one instruction, and for its target the label behind it.
pub proof fn lemma_reduced_blocks()
    ensures
        spec_split(seq![Inst::of_opcode(Opcode::Return0)]) == seq![
            BlockView {
                code: seq![Inst::of_opcode(Opcode::Return0)],
                target: Target::Label(1),
            },
        ],
{
    let inst = Inst::of_opcode(Opcode::Return0);
    let code = seq![inst];
    lemma_inst_of_opcode(Opcode::Return0);
    let labels = labels_for(Set::empty(), code);
    let targets = targets_for(Map::empty(), code);
    assert(jump_offset(inst) is None);
    assert forall|at: usize| labels.contains(at) <==> at == 0 || at == 1 by {
        if edges(code, 1).contains(at) {
            let pc = choose|pc: int| 0 <= pc < 1 && marks(code, pc, at as int);
            assert(pc == 0);
        }
        assert(marks(code, 0, 1));
    }
    let list = ordered(labels, 1);
    assert(list =~= seq![0usize, 1usize]) by {
        reveal_with_fuel(ordered, 3);
    }
    assert(!targets.contains_key(0));
    assert(offset_at(targets, 0) == 0);
    assert(rank(list, 1) == 2) by {
        reveal_with_fuel(rank, 3);
        assert(list.drop_last() =~= seq![0usize]);
        assert(list.drop_last().drop_last() =~= Seq::<usize>::empty());
    }
    assert(code.subrange(0, 1) =~= code);
    assert(spec_split(code) =~= seq![BlockView { code, target: Target::Label(1) }]);
}

/// A count that was written is read back.
pub proof fn lemma_count(v: u32, tail: Seq<u8>)
    ensures
        spec_load_t(unsigned_bytes(v as u64) + tail) == Some((tail, v)),
{
    lemma_unsigned_round_trip(v as u64, tail);
}

/// A string that was written is read back.
pub proof fn lemma_string(s: Seq<char>, tail: Seq<u8>)
    requires
        encode_utf8(s).len() < u32::MAX,
    ensures
        spec_load_string_opt(string_bytes(s) + tail) == Some((tail, Some(s))),
{
    let bytes = encode_utf8(s);
    let len = (bytes.len() + 1) as u32;
    lemma_count(len, bytes + tail);
    assert(string_bytes(s) + tail =~= unsigned_bytes(len as u64) + (bytes + tail));
    assert((bytes + tail).skip(len - 1) =~= tail);
    assert((bytes + tail).take(len - 1) =~= bytes);
    encode_utf8_valid_utf8(s);
    encode_utf8_decode_utf8(s);
}

/// A constant that was written is read back as it was, a number as nil.
pub proof fn lemma_constant(v: ValueView, tail: Seq<u8>)
    requires
        v.loadable(),
    ensures
        spec_load_constant(constant_bytes(v) + tail) == Some((tail, v.reduced())),
{
    let s = constant_bytes(v) + tail;
    match v {
        ValueView::NoString => {
            let rest = unsigned_bytes(0) + tail;
            assert(s =~= seq![Constant::ShortString.tag()] + rest);
            assert(s.skip(1) =~= rest);
            lemma_count(0, tail);
        },
        ValueView::String(text) => {
            let rest = string_bytes(text) + tail;
            assert(s.skip(1) =~= rest);
            lemma_string(text, tail);
        },
        _ => {
            assert(s.skip(1) =~= tail);
        },
    }
}

/// An upvalue that was written is read back without its name.
pub proof fn lemma_upvalue(u: UpvalueView, tail: Seq<u8>)
    ensures
        spec_load_upvalue(upvalue_bytes(u) + tail) == Some((tail, u.reduced())),
{
    assert((upvalue_bytes(u) + tail).skip(3) =~= tail);
}

/// A list that was written is read back, where each of its items is.
pub proof fn lemma_list<A, B>(
    items: Seq<A>,
    each: spec_fn(A) -> Seq<u8>,
    one: spec_fn(Seq<u8>) -> Option<(Seq<u8>, B)>,
    back: spec_fn(A) -> B,
    tail: Seq<u8>,
)
    requires
        items.len() <= u32::MAX,
        forall|i: int, t: Seq<u8>|
            0 <= i < items.len() ==> #[trigger] one(each(items[i]) + t) == Some(
                (t, back(items[i])),
            ),
    ensures
        spec_load_list(unsigned_bytes(items.len() as u64) + join(items, each) + tail, one) == Some(
            (tail, Seq::new(items.len(), |i: int| back(items[i]))),
        ),
{
    let count = items.len() as u32;
    lemma_count(count, join(items, each) + tail);
    assert(unsigned_bytes(items.len() as u64) + join(items, each) + tail =~= unsigned_bytes(
        count as u64,
    ) + (join(items, each) + tail));
    lemma_many_join(items, each, one, back, tail);
}

/// A list without items that was written is read back.
pub proof fn lemma_empty_list<B>(one: spec_fn(Seq<u8>) -> Option<(Seq<u8>, B)>, tail: Seq<u8>)
    ensures
        spec_load_list(unsigned_bytes(0) + tail, one) == Some((tail, Seq::<B>::empty())),
{
    lemma_count(0, tail);
}

/// The body of a function in a reduced chunk is read back as one `Return0`.
pub proof fn lemma_dummy_inst(tail: Seq<u8>)
    ensures
        spec_load_list(dummy_inst_bytes() + tail, |x: Seq<u8>| spec_load_instruction(x)) == Some(
            (tail, seq![Inst::of_opcode(Opcode::Return0)]),
        ),
{
    let inst = Inst::of_opcode(Opcode::Return0);
    let word = inst.inner.spec_ser();
    let one = |x: Seq<u8>| spec_load_instruction(x);
    lemma_count(1, word + tail);
    assert(dummy_inst_bytes() + tail =~= unsigned_bytes(1) + (word + tail));
    inst.inner.lemma_round_trip(tail);
    assert(many(word + tail, 0, one) == Some((word + tail, Seq::<Inst>::empty())));
    assert(one(word + tail) == Some((tail, inst)));
    assert(Seq::<Inst>::empty().push(inst) =~= seq![inst]);
    reveal_with_fuel(many, 2);
}

/// The first part of a function as it is read back from a reduced chunk.
pub open spec fn reduced_head(p: ProtoView) -> HeadView {
    HeadView {
        source: None,
        line_defined: 0,
        last_line_defined: 0,
        num_param: p.num_param,
        is_vararg: p.is_vararg,
        num_stack: p.num_stack,
        inst_list: seq![Inst::of_opcode(Opcode::Return0)],
        value_list: Seq::new(p.value_list.len(), |i: int| p.value_list[i].reduced()),
        upval_list: Seq::new(p.upval_list.len(), |i: int| p.upval_list[i].reduced()),
        children: p.child_list.len() as u32,
    }
}

/// The last part of a function as it is read back from a reduced chunk.
pub open spec fn reduced_tail() -> TailView {
    TailView {
        rel_line_list: Seq::empty(),
        abs_line_list: Seq::empty(),
        local_list: Seq::empty(),
        name_list: Seq::empty(),
    }
}

/// The constants of a function that were written are read back.
proof fn lemma_values(p: ProtoView, tail: Seq<u8>)
    requires
        p.loadable(),
    ensures
        spec_load_list(
            unsigned_bytes(p.value_list.len() as u64) + join(
                p.value_list,
                |v: ValueView| constant_bytes(v),
            ) + tail,
            |x: Seq<u8>| spec_load_constant(x),
        ) == Some((tail, reduced_head(p).value_list)),
{
    let each = |v: ValueView| constant_bytes(v);
    let one = |x: Seq<u8>| spec_load_constant(x);
    assert forall|i: int, t: Seq<u8>| 0 <= i < p.value_list.len() implies #[trigger] one(
        each(p.value_list[i]) + t,
    ) == Some((t, p.value_list[i].reduced())) by {
        lemma_constant(p.value_list[i], t);
    }
    lemma_list(p.value_list, each, one, |v: ValueView| v.reduced(), tail);
}

/// The upvalues of a function that were written are read back.
proof fn lemma_upvalues(p: ProtoView, tail: Seq<u8>)
    requires
        p.loadable(),
    ensures
        spec_load_list(
            unsigned_bytes(p.upval_list.len() as u64) + join(
                p.upval_list,
                |u: UpvalueView| upvalue_bytes(u),
            ) + tail,
            |x: Seq<u8>| spec_load_upvalue(x),
        ) == Some((tail, reduced_head(p).upval_list)),
{
    let each = |u: UpvalueView| upvalue_bytes(u);
    let one = |x: Seq<u8>| spec_load_upvalue(x);
    assert forall|i: int, t: Seq<u8>| 0 <= i < p.upval_list.len() implies #[trigger] one(
        each(p.upval_list[i]) + t,
    ) == Some((t, p.upval_list[i].reduced())) by {
        lemma_upvalue(p.upval_list[i], t);
    }
    lemma_list(p.upval_list, each, one, |u: UpvalueView| u.reduced(), tail);
}

/// Ten pieces and a tail, one after the other, as they are read: piece by
/// piece, with each list behind its count.
proof fn lemma_pieces(
    a: Seq<u8>,
    b: Seq<u8>,
    c: Seq<u8>,
    d: Seq<u8>,
    e: Seq<u8>,
    f: Seq<u8>,
    g: Seq<u8>,
    h: Seq<u8>,
    i: Seq<u8>,
    j: Seq<u8>,
    tail: Seq<u8>,
)
    ensures
        a + b + c + d + e + f + g + h + i + j + tail == a + (b + (c + (d + (e + ((f + g) + ((h + i)
            + (j + tail))))))),
{
    assert(a + b + c + d + e + f + g + h + i + j + tail =~= a + (b + (c + (d + (e + ((f + g) + ((h
        + i) + (j + tail))))))));
}

/// The first part of a function that was written is read back.
pub proof fn lemma_head(p: ProtoView, tail: Seq<u8>)
    requires
        p.loadable(),
    ensures
        spec_load_head(head_bytes(p) + tail) == Some((tail, reduced_head(p))),
        head_bytes(p).len() > 0,
{
    let sizes = seq![p.num_param, p.is_vararg, p.num_stack];
    let values = unsigned_bytes(p.value_list.len() as u64) + join(
        p.value_list,
        |v: ValueView| constant_bytes(v),
    );
    let upvals = unsigned_bytes(p.upval_list.len() as u64) + join(
        p.upval_list,
        |u: UpvalueView| upvalue_bytes(u),
    );
    let s8 = tail;
    let s7 = unsigned_bytes(p.child_list.len() as u64) + s8;
    let s6 = upvals + s7;
    let s5 = values + s6;
    let s4 = dummy_inst_bytes() + s5;
    let s3 = sizes + s4;
    let s2 = unsigned_bytes(0) + s3;
    let s1 = unsigned_bytes(0) + s2;
    let s0 = unsigned_bytes(0) + s1;
    lemma_unsigned_bytes_len(0);
    assert(head_bytes(p) + tail == s0) by {
        lemma_pieces(
            unsigned_bytes(0),
            unsigned_bytes(0),
            unsigned_bytes(0),
            sizes,
            dummy_inst_bytes(),
            unsigned_bytes(p.value_list.len() as u64),
            join(p.value_list, |v: ValueView| constant_bytes(v)),
            unsigned_bytes(p.upval_list.len() as u64),
            join(p.upval_list, |u: UpvalueView| upvalue_bytes(u)),
            unsigned_bytes(p.child_list.len() as u64),
            tail,
        );
    }
    assert(spec_load_string_opt(s0) == Some((s1, None::<Seq<char>>))) by {
        lemma_count(0, s1);
    }
    assert(spec_load_t(s1) == Some((s2, 0u32))) by {
        lemma_count(0, s2);
    }
    assert(spec_load_t(s2) == Some((s3, 0u32))) by {
        lemma_count(0, s3);
    }
    assert(spec_load_sizes(s3) == Some((s4, (p.num_param, p.is_vararg, p.num_stack)))) by {
        assert(s3.skip(3) =~= s4);
    }
    assert(spec_load_list(s4, |x: Seq<u8>| spec_load_instruction(x)) == Some(
        (s5, seq![Inst::of_opcode(Opcode::Return0)]),
    )) by {
        lemma_dummy_inst(s5);
    }
    assert(spec_load_list(s5, |x: Seq<u8>| spec_load_constant(x)) == Some(
        (s6, reduced_head(p).value_list),
    )) by {
        lemma_values(p, s6);
    }
    assert(spec_load_list(s6, |x: Seq<u8>| spec_load_upvalue(x)) == Some(
        (s7, reduced_head(p).upval_list),
    )) by {
        lemma_upvalues(p, s7);
    }
    assert(spec_load_t(s7) == Some((s8, p.child_list.len() as u32))) by {
        lemma_count(p.child_list.len() as u32, s8);
    }
}

/// The last part of a function that was written is read back.
pub proof fn lemma_tail(tail: Seq<u8>)
    ensures
        spec_load_tail(debug_bytes() + tail) == Some((tail, reduced_tail())),
{
    let s4 = tail;
    let s3 = unsigned_bytes(0) + s4;
    let s2 = unsigned_bytes(0) + s3;
    let s1 = unsigned_bytes(0) + s2;
    let s0 = unsigned_bytes(0) + s1;
    assert(debug_bytes() + tail =~= s0);
    lemma_empty_list(|x: Seq<u8>| spec_load_rel_line(x), s1);
    lemma_empty_list(|x: Seq<u8>| spec_load_abs_line_info(x), s2);
    lemma_empty_list(|x: Seq<u8>| spec_load_local(x), s3);
    lemma_empty_list(|x: Seq<u8>| spec_load_string_opt(x), s4);
}

/// A function that was written is read back as what a reduced chunk keeps of it.
pub proof fn lemma_function(p: ProtoView, tail: Seq<u8>)
    requires
        p.loadable(),
    ensures
        spec_load_function(function_bytes(p) + tail) == Some((tail, reduced(p))),
    decreases p, p.child_list.len() + 1,
{
    let count = p.child_list.len();
    let s = function_bytes(p) + tail;
    let s2 = debug_bytes() + tail;
    let s1 = children_bytes(p, count) + s2;
    assert(s =~= head_bytes(p) + s1);
    lemma_head(p, s1);
    lemma_children(p, count, s2);
    lemma_tail(tail);
    let children = Seq::new(count, |i: int| reduced(p.child_list[i]));
    let got = proto_of(reduced_head(p), children, reduced_tail());
    assert(got.upval_list =~= reduced(p).upval_list);
    assert(got.child_list =~= reduced(p).child_list);
    assert(got == reduced(p));
}

/// The functions nested in a function that were written are read back.
pub proof fn lemma_children(p: ProtoView, count: nat, tail: Seq<u8>)
    requires
        p.loadable(),
        count <= p.child_list.len(),
    ensures
        spec_load_functions(children_bytes(p, count) + tail, count) == Some(
            (tail, Seq::new(count, |i: int| reduced(p.child_list[i]))),
        ),
    decreases p, count,
{
    let s = children_bytes(p, count) + tail;
    let read = Seq::new(count, |i: int| reduced(p.child_list[i]));
    if count == 0 {
        assert(s =~= tail);
        assert(read =~= Seq::<ProtoView>::empty());
    } else {
        let child = p.child_list[count - 1];
        let rest = function_bytes(child) + tail;
        assert(s =~= children_bytes(p, (count - 1) as nat) + rest);
        lemma_children(p, (count - 1) as nat, rest);
        lemma_function(child, tail);
        assert(read =~= Seq::new((count - 1) as nat, |i: int| reduced(p.child_list[i])).push(
            reduced(child),
        ));
    }
}

/// A text that begins with `a`, goes on with the one byte `b` and then with
/// `c`, as it is read: `a` first, then the byte, then the rest.
proof fn lemma_begins(a: Seq<u8>, b: u8, c: Seq<u8>, tail: Seq<u8>)
    ensures
        crate::loader::is_prefix(a, a + seq![b] + c + tail),
        u8::spec_deser((a + seq![b] + c + tail).skip(a.len() as int)) == Some((c + tail, b)),
{
    let s = a + seq![b] + c + tail;
    assert(s.take(a.len() as int) =~= a);
    assert(s.skip(a.len() as int) =~= seq![b] + (c + tail));
    assert((seq![b] + (c + tail)).skip(1) =~= c + tail);
}

/// Round trip: a tree that can stand in a chunk, and whose main function
/// has no more upvalues than a byte can count, is written as a chunk, and
/// reading that chunk gives what a reduced chunk keeps of the tree: the same
/// kinds of constants with the same strings, the same upvalues but for
/// their names, and the same nested functions. What stands behind the chunk
/// is left over.
pub proof fn lemma_round_trip(p: ProtoView, tail: Seq<u8>)
    requires
        p.loadable(),
        p.upval_list.len() <= u8::MAX,
    ensures
        spec_dump_lua_module(p) == Ok::<Seq<u8>, crate::dumper::DumpError>(module_bytes(p)),
        spec_load_lua_module(module_bytes(p) + tail) == Ok::<
            (Seq<u8>, ProtoView),
            crate::common::number::LoadError,
        >((tail, reduced(p))),
{
    lemma_begins(header_bytes(), p.upval_list.len() as u8, function_bytes(p), tail);
    lemma_function(p, tail);
}

/// Round trip of what was read: the main function of a chunk, written as a
/// reduced chunk and read again, is what a reduced chunk keeps of it. This
/// holds of a main function with no more upvalues than a byte can count,
/// and of string constants that can be written with a length that a `u32`
/// holds, as every string can that was read from valid UTF-8. A string that
/// was read from other bytes may have grown.
pub proof fn lemma_reload(s: Seq<u8>, tail: Seq<u8>)
    requires
        spec_load_lua_module(s) is Ok,
        spec_load_lua_module(s)->Ok_0.1.upval_list.len() <= u8::MAX,
        spec_load_lua_module(s)->Ok_0.1.strings_loadable(),
    ensures
        ({
            let p = spec_load_lua_module(s)->Ok_0.1;
            &&& spec_dump_lua_module(p) == Ok::<Seq<u8>, crate::dumper::DumpError>(module_bytes(p))
            &&& spec_load_lua_module(module_bytes(p) + tail) == Ok::<
                (Seq<u8>, ProtoView),
                crate::common::number::LoadError,
            >((tail, reduced(p)))
        }),
{
    let p = spec_load_lua_module(s)->Ok_0.1;
    if let Some((rest, _)) = u8::spec_deser(s.skip(header_bytes().len() as int)) {
        crate::loader::lemma_function_counted(rest);
    }
    p.lemma_loadable();
    lemma_round_trip(p, tail);
}

} // verus!
