//! The generator: one C function for every prototype of the tree.

use crate::codegen::baked::{
    Boilerplate, LENGTH, LUA_ALL_VARARG, LUA_INIT_CODE, LUA_IS_VARARG, LUA_NO_VARARG, LUA_NUM_PARAM,
    NUM_PARAM, NUM_STACK,
};
use crate::codegen::text::{
    decimal, hex, lemma_text_add, lit, push_bytes, push_decimal, push_hex, push_signed_decimal,
    replace, signed_decimal, substitute, text, Code, Token,
};
use crate::common::list::{join, lemma_join_push};
use crate::common::opcode::Opcode;
use crate::common::types::{Block, BlockView, Inst, Proto, ProtoView, Target, Value, ValueView};
use crate::dumper::{dump_lua_module, spec_dump_lua_module, DumpError};
use vstd::prelude::*;
use vstd::string::StringSliceAdditionalSpecFns;
use vstd::utf8::encode_utf8;

verus! {

/// How an instruction is written out.
#[derive(PartialEq, Eq, Structural, Clone, Copy, Debug)]
pub enum OpType {
    /// The instruction alone.
    Normal,
    /// An arithmetic instruction, written together with the fallback that follows it.
    Skip,
    /// An instruction whose wide operand stands in the instruction that follows it.
    Extra,
    /// A jump or a test, written with the labels of its two ways on.
    Control,
    /// The making of a closure, written with the function it is made from.
    Closure,
}

/// Why no code can be generated for a prototype tree.
#[derive(PartialEq, Eq, Structural, Clone, Copy, Debug)]
pub enum GenError {
    /// A jump or a test stands in a block whose target is no label.
    UnsupportedControlFlow,
    /// An instruction that is written together with its successor stands last in its block.
    MissingOperand,
    /// A closure is made from a nested function that the prototype does not have.
    MissingChild,
    /// The tree has more functions than can be counted.
    TooManyFunctions,
    /// The main function has more than 255 upvalues.
    TooManyUpvalues,
}

/// The arithmetic opcodes, each of which is followed by its fallback.
pub open spec fn is_arithmetic(op: Opcode) -> bool {
    ||| op is AddI
    ||| op is AddK
    ||| op is SubK
    ||| op is MulK
    ||| op is ModK
    ||| op is PowK
    ||| op is DivK
    ||| op is IDivK
    ||| op is BandK
    ||| op is BorK
    ||| op is BxorK
    ||| op is ShrI
    ||| op is ShlI
    ||| op is Add
    ||| op is Sub
    ||| op is Mul
    ||| op is Mod
    ||| op is Pow
    ||| op is Div
    ||| op is IDiv
    ||| op is Band
    ||| op is Bor
    ||| op is Bxor
    ||| op is Shl
    ||| op is Shr
}

/// The opcodes that take a wide operand from the instruction after them.
pub open spec fn is_wide(op: Opcode) -> bool {
    ||| op is LoadKX
    ||| op is NewTable
    ||| op is SetList
}

/// The opcodes that pass control on to one of two blocks.
pub open spec fn is_control(op: Opcode) -> bool {
    ||| op is LFalseSkip
    ||| op is Jmp
    ||| op is Eq
    ||| op is Lt
    ||| op is Le
    ||| op is EqK
    ||| op is EqI
    ||| op is LtI
    ||| op is LeI
    ||| op is GtI
    ||| op is GeI
    ||| op is Test
    ||| op is TestSet
    ||| op is ForLoop
    ||| op is ForPrep
    ||| op is TForPrep
    ||| op is TForLoop
}

/// How an opcode is written out. This depends on the opcode and on nothing else.
pub open spec fn op_type(op: Opcode) -> OpType {
    if is_arithmetic(op) {
        OpType::Skip
    } else if is_wide(op) {
        OpType::Extra
    } else if is_control(op) {
        OpType::Control
    } else if op is Closure {
        OpType::Closure
    } else {
        OpType::Normal
    }
}

#[verifier::when_used_as_spec(op_type)]
pub fn as_op_type(op: Opcode) -> (ty: OpType)
    ensures
        ty == op_type(op),
{
    match op {
            Opcode::Move
            | Opcode::LoadI
            | Opcode::LoadF
            | Opcode::LoadK
            | Opcode::LoadFalse
            | Opcode::LoadTrue
            | Opcode::LoadNil
            | Opcode::GetUpval
            | Opcode::SetUpval
            | Opcode::GetTabUp
            | Opcode::GetTable
            | Opcode::GetI
            | Opcode::GetField
            | Opcode::SetTabUp
            | Opcode::SetTable
            | Opcode::SetI
            | Opcode::SetField
            | Opcode::Method
            | Opcode::MmBin
            | Opcode::MmBinI
            | Opcode::MmBinK
            | Opcode::Unm
            | Opcode::Bnot
            | Opcode::Not
            | Opcode::Len
            | Opcode::Concat
            | Opcode::Close
            | Opcode::Tbc
            | Opcode::Call
            | Opcode::TailCall
            | Opcode::Return
            | Opcode::Return0
            | Opcode::Return1
            | Opcode::TForCall
            | Opcode::Vararg
            | Opcode::VarargPrep
            | Opcode::ExtraArg
            | Opcode::Invalid => OpType::Normal,
            Opcode::AddI
            | Opcode::AddK
            | Opcode::SubK
            | Opcode::MulK
            | Opcode::ModK
            | Opcode::PowK
            | Opcode::DivK
            | Opcode::IDivK
            | Opcode::BandK
            | Opcode::BorK
            | Opcode::BxorK
            | Opcode::ShrI
            | Opcode::ShlI
            | Opcode::Add
            | Opcode::Sub
            | Opcode::Mul
            | Opcode::Mod
            | Opcode::Pow
            | Opcode::Div
            | Opcode::IDiv
            | Opcode::Band
            | Opcode::Bor
            | Opcode::Bxor
            | Opcode::Shl
            | Opcode::Shr => OpType::Skip,
            Opcode::LoadKX
            | Opcode::NewTable
            | Opcode::SetList => OpType::Extra,
            Opcode::LFalseSkip
            | Opcode::Jmp
            | Opcode::Eq
            | Opcode::Lt
            | Opcode::Le
            | Opcode::EqK
            | Opcode::EqI
            | Opcode::LtI
            | Opcode::LeI
            | Opcode::GtI
            | Opcode::GeI
            | Opcode::Test
            | Opcode::TestSet
            | Opcode::ForLoop
            | Opcode::ForPrep
            | Opcode::TForPrep
            | Opcode::TForLoop => OpType::Control,
            Opcode::Closure => OpType::Closure,
    }
}

/// The ordinal of the block that a target names.
pub open spec fn label_of(target: Target) -> Result<u32, GenError> {
    match target {
        Target::Label(label) => Ok(label),
        Target::Undefined(_) => Err(GenError::UnsupportedControlFlow),
    }
}

/// The ordinal of the block that `target` names; a target that names no
/// block is unsupported control flow.
pub fn assume_label(target: &Target) -> (r: Result<u32, GenError>)
    ensures
        r == label_of(*target),
{
    match target {
        Target::Label(label) => Ok(*label),
        Target::Undefined(_) => Err(GenError::UnsupportedControlFlow),
    }
}

/// An instruction word as it is written: `0x` and eight hex digits.
pub open spec fn word_bytes(inst: Inst) -> Seq<u8> {
    "0x".spec_bytes() + hex(inst.inner as nat, 8, false)
}

/// An instruction as a call of the macro named after its opcode, with the
/// instruction word as the first argument and `call` as the rest of them.
pub open spec fn inst_bytes(inst: Inst, call: Seq<u8>) -> Seq<u8> {
    encode_utf8(inst.spec_opcode().spec_name()) + "(".spec_bytes() + word_bytes(inst) + call
        + ");".spec_bytes()
}

fn push_word(out: &mut Vec<u8>, inst: Inst)
    ensures
        final(out)@ == old(out)@ + word_bytes(inst),
{
    push_bytes(out, "0x".as_bytes());
    push_hex(out, inst.inner, 8, false);
    proof {
        assert(out@ =~= old(out)@ + word_bytes(inst));
    }
}

/// Writes one instruction, with `call` as its further arguments.
pub fn write_instruction(w: &mut Code, inst: Inst, call: &[u8])
    ensures
        final(w)@ == old(w)@ + text(inst_bytes(inst, call@)),
{
    let mut line: Vec<u8> = Vec::new();
    push_bytes(&mut line, inst.opcode().name().as_bytes());
    push_bytes(&mut line, "(".as_bytes());
    push_word(&mut line, inst);
    push_bytes(&mut line, call);
    push_bytes(&mut line, ");".as_bytes());
    proof {
        assert(line@ =~= inst_bytes(inst, call@));
    }
    w.bytes(line);
}

/// The further arguments of the instruction at `at` in a block's code, and
/// the number of instructions that are written with it: itself, and the one
/// after it where that one belongs to it. `block` is the ordinal of the block
/// and `refs` holds the ordinal of each nested function.
pub open spec fn operand_bytes(
    code: Seq<Inst>,
    at: int,
    target: Target,
    block: nat,
    refs: Seq<usize>,
) -> Result<(Seq<u8>, int), GenError>
    recommends
        0 <= at < code.len(),
{
    let inst = code[at];
    match op_type(inst.spec_opcode()) {
        OpType::Normal => Ok((Seq::empty(), 1)),
        OpType::Extra => if inst.spec_opcode() is SetList && !inst.spec_k() {
            Ok((", 0".spec_bytes(), 1))
        } else if at + 1 < code.len() {
            Ok((", ".spec_bytes() + decimal(code[at + 1].spec_ax() as nat), 2))
        } else {
            Err(GenError::MissingOperand)
        },
        OpType::Skip => if at + 1 < code.len() {
            Ok(
                (
                    ", ".spec_bytes() + encode_utf8(code[at + 1].spec_opcode().spec_name())
                        + "(".spec_bytes() + word_bytes(code[at + 1]) + ")".spec_bytes(),
                    2,
                ),
            )
        } else {
            Err(GenError::MissingOperand)
        },
        OpType::Control => match target {
            Target::Label(label) => Ok(
                (
                    ", label_".spec_bytes() + decimal(label as nat) + ", label_".spec_bytes()
                        + decimal(block + 1),
                    1,
                ),
            ),
            Target::Undefined(_) => Err(GenError::UnsupportedControlFlow),
        },
        OpType::Closure => if inst.spec_bx() < refs.len() {
            Ok((", lua_func_".spec_bytes() + decimal(refs[inst.spec_bx() as int] as nat), 1))
        } else {
            Err(GenError::MissingChild)
        },
    }
}

/// The instructions of a block from `from` on, as they are written.
pub open spec fn body_bytes(
    code: Seq<Inst>,
    from: int,
    target: Target,
    block: nat,
    refs: Seq<usize>,
) -> Result<Seq<u8>, GenError>
    decreases code.len() - from,
{
    if from < 0 || from >= code.len() {
        Ok(Seq::empty())
    } else {
        match operand_bytes(code, from, target, block, refs) {
            Err(e) => Err(e),
            Ok((call, width)) => match body_bytes(code, from + width, target, block, refs) {
                Err(e) => Err(e),
                Ok(rest) => Ok(inst_bytes(code[from], call) + rest),
            },
        }
    }
}

/// A block as it is written: its label on a line of its own, then its instructions.
pub open spec fn block_bytes(blk: BlockView, block: nat, refs: Seq<usize>) -> Result<
    Seq<u8>,
    GenError,
> {
    match body_bytes(blk.code, 0, blk.target, block, refs) {
        Err(e) => Err(e),
        Ok(body) => Ok("label_".spec_bytes() + decimal(block) + ":\n".spec_bytes() + body),
    }
}

/// The first `count` blocks of a function, as they are written.
pub open spec fn blocks_bytes(blocks: Seq<BlockView>, count: nat, refs: Seq<usize>) -> Result<
    Seq<u8>,
    GenError,
>
    decreases count,
{
    if count == 0 {
        Ok(Seq::empty())
    } else {
        match blocks_bytes(blocks, (count - 1) as nat, refs) {
            Err(e) => Err(e),
            Ok(before) => match block_bytes(blocks[count - 1], (count - 1) as nat, refs) {
                Err(e) => Err(e),
                Ok(blk) => Ok(before + blk),
            },
        }
    }
}

/// Works out the further arguments of the instruction at `at`.
fn operand(code: &Vec<Inst>, at: usize, target: &Target, block: usize, refs: &Vec<usize>) -> (r:
    Result<(Vec<u8>, usize), GenError>)
    requires
        at < code.len(),
        block < usize::MAX,
    ensures
        match operand_bytes(code@, at as int, *target, block as nat, refs@) {
            Ok((call, width)) => r is Ok && r->Ok_0.0@ == call && r->Ok_0.1 == width,
            Err(e) => r == Err::<(Vec<u8>, usize), GenError>(e),
        },
{
    let inst = code[at];
    let mut call: Vec<u8> = Vec::new();
    match as_op_type(inst.opcode()) {
        OpType::Normal => {
            assert(call@ =~= Seq::<u8>::empty());
            Ok((call, 1))
        },
        OpType::Extra => {
            if inst.opcode() == Opcode::SetList && !inst.k() {
                push_bytes(&mut call, ", 0".as_bytes());
                assert(call@ =~= ", 0".spec_bytes());
                Ok((call, 1))
            } else if at + 1 < code.len() {
                let tail = code[at + 1];
                push_bytes(&mut call, ", ".as_bytes());
                push_decimal(&mut call, tail.ax() as u64);
                Ok((call, 2))
            } else {
                Err(GenError::MissingOperand)
            }
        },
        OpType::Skip => {
            if at + 1 < code.len() {
                let tail = code[at + 1];
                push_bytes(&mut call, ", ".as_bytes());
                push_bytes(&mut call, tail.opcode().name().as_bytes());
                push_bytes(&mut call, "(".as_bytes());
                push_word(&mut call, tail);
                push_bytes(&mut call, ")".as_bytes());
                Ok((call, 2))
            } else {
                Err(GenError::MissingOperand)
            }
        },
        OpType::Control => {
            match assume_label(target) {
                Ok(label) => {
                    push_bytes(&mut call, ", label_".as_bytes());
                    push_decimal(&mut call, label as u64);
                    push_bytes(&mut call, ", label_".as_bytes());
                    push_decimal(&mut call, (block + 1) as u64);
                    Ok((call, 1))
                },
                Err(e) => Err(e),
            }
        },
        OpType::Closure => {
            let at_child = inst.bx() as usize;
            if at_child < refs.len() {
                push_bytes(&mut call, ", lua_func_".as_bytes());
                push_decimal(&mut call, refs[at_child] as u64);
                Ok((call, 1))
            } else {
                Err(GenError::MissingChild)
            }
        },
    }
}

/// Writes one block: its label, then its instructions. Nothing is written
/// of a block that cannot be written.
pub fn write_block(w: &mut Code, blk: &Block, block: usize, refs: &Vec<usize>) -> (r: Result<
    (),
    GenError,
>)
    requires
        block < usize::MAX,
    ensures
        match block_bytes(blk@, block as nat, refs@) {
            Ok(t) => r is Ok && final(w)@ == old(w)@ + text(t),
            Err(e) => r == Err::<(), GenError>(e) && final(w)@ == old(w)@,
        },
{
    let mut own = Code::new();
    block_into(&mut own, blk, block, refs)?;
    assert(old(w)@ + (Seq::<Token>::empty() + own@) =~= old(w)@ + own@);
    w.append(own);
    Ok(())
}

/// Writes one block, and what there is of it before the instruction that
/// cannot be written.
fn block_into(w: &mut Code, blk: &Block, block: usize, refs: &Vec<usize>) -> (r: Result<
    (),
    GenError,
>)
    requires
        block < usize::MAX,
    ensures
        match block_bytes(blk@, block as nat, refs@) {
            Ok(t) => r is Ok && final(w)@ == old(w)@ + text(t),
            Err(e) => r == Err::<(), GenError>(e),
        },
{
    let mut label: Vec<u8> = Vec::new();
    push_bytes(&mut label, "label_".as_bytes());
    push_decimal(&mut label, block as u64);
    push_bytes(&mut label, ":\n".as_bytes());
    let ghost head = "label_".spec_bytes() + decimal(block as nat) + ":\n".spec_bytes();
    assert(label@ =~= head);
    w.bytes(label);
    let ghost whole = body_bytes(blk.code@, 0, blk.target, block as nat, refs@);
    let ghost mut body: Seq<u8> = Seq::empty();
    let mut at: usize = 0;
    proof {
        lemma_text_add(head, body);
        assert(head + body =~= head);
    }
    while at < blk.code.len()
        invariant
            block < usize::MAX,
            whole == body_bytes(blk.code@, 0, blk.target, block as nat, refs@),
            w@ == old(w)@ + text(head + body),
            match body_bytes(blk.code@, at as int, blk.target, block as nat, refs@) {
                Ok(rest) => whole == Ok::<Seq<u8>, GenError>(body + rest),
                Err(e) => whole == Err::<Seq<u8>, GenError>(e),
            },
        decreases blk.code.len() - at,
    {
        let (call, width) = operand(&blk.code, at, &blk.target, block, refs)?;
        let inst = blk.code[at];
        write_instruction(w, inst, call.as_slice());
        proof {
            let line = inst_bytes(inst, call@);
            lemma_text_add(head + body, line);
            assert(head + body + line =~= head + (body + line));
            match body_bytes(blk.code@, at + width, blk.target, block as nat, refs@) {
                Ok(rest) => {
                    assert(body + line + rest =~= body + (line + rest));
                },
                Err(e) => {},
            }
            body = body + line;
        }
        at += width;
    }
    Ok(())
}

/// One constant as an entry of the C table of constants. A string has no
/// entry of its own kind: the generated code never reads one from this table.
pub open spec fn constant_tokens(value: ValueView) -> Seq<Token> {
    match value {
        ValueView::Nil | ValueView::NoString | ValueView::String(_) => lit(
            "{ { .i = 0 }, LUA_VNIL }",
        ),
        ValueView::False => lit("{ { .i = 0 }, LUA_VFALSE }"),
        ValueView::True => lit("{ { .i = 0 }, LUA_VTRUE }"),
        ValueView::Integer(i) => lit("{ { .i = ") + text(signed_decimal(i as int)) + lit(
            " }, LUA_VNUMINT }",
        ),
        ValueView::Number(bits) => lit("{ { .n = ") + seq![Token::Number(bits)] + lit(
            " }, LUA_VNUMFLT }",
        ),
    }
}

/// The entries of the first `count` constants, each followed by a comma.
pub open spec fn constants_tokens(values: Seq<ValueView>, count: nat) -> Seq<Token>
    decreases count,
{
    if count == 0 {
        Seq::empty()
    } else {
        constants_tokens(values, (count - 1) as nat) + constant_tokens(values[count - 1]) + lit(",")
    }
}

/// The C table that holds a function's constants, place by place.
pub open spec fn const_list_tokens(values: Seq<ValueView>) -> Seq<Token> {
    lit("static TValue const ct_k[") + text(decimal(values.len())) + lit("] = {")
        + constants_tokens(values, values.len()) + lit("};")
}

fn write_constant(w: &mut Code, value: &Value)
    ensures
        final(w)@ == old(w)@ + constant_tokens(value@),
{
    match value {
        Value::Nil | Value::NoString | Value::String(_) => {
            w.text("{ { .i = 0 }, LUA_VNIL }");
        },
        Value::False => {
            w.text("{ { .i = 0 }, LUA_VFALSE }");
        },
        Value::True => {
            w.text("{ { .i = 0 }, LUA_VTRUE }");
        },
        Value::Integer(i) => {
            w.text("{ { .i = ");
            let mut shown: Vec<u8> = Vec::new();
            push_signed_decimal(&mut shown, *i);
            assert(shown@ =~= signed_decimal(*i as int));
            w.bytes(shown);
            w.text(" }, LUA_VNUMINT }");
            assert(w@ =~= old(w)@ + constant_tokens(value@));
        },
        Value::Number(bits) => {
            w.text("{ { .n = ");
            w.number(*bits);
            w.text(" }, LUA_VNUMFLT }");
            assert(w@ =~= old(w)@ + constant_tokens(value@));
        },
    }
}

/// Writes the C table of a function's constants.
pub fn write_const_list(w: &mut Code, proto: &Proto)
    ensures
        final(w)@ == old(w)@ + const_list_tokens(proto@.value_list),
{
    proof {
        proto.lemma_view();
    }
    let ghost values = proto@.value_list;
    let len = proto.value_list.len();
    w.text("static TValue const ct_k[");
    let mut shown: Vec<u8> = Vec::new();
    push_decimal(&mut shown, len as u64);
    assert(shown@ =~= decimal(len as nat));
    w.bytes(shown);
    w.text("] = {");
    let ghost head = w@;
    let mut i: usize = 0;
    while i < len
        invariant
            i <= len,
            len == proto.value_list.len(),
            values == proto@.value_list,
            values.len() == len,
            forall|k: int| 0 <= k < len ==> #[trigger] values[k] == proto.value_list@[k]@,
            w@ == head + constants_tokens(values, i as nat),
        decreases len - i,
    {
        write_constant(w, &proto.value_list[i]);
        w.text(",");
        proof {
            assert(values[i as int] == proto.value_list@[i as int]@);
            assert(w@ =~= head + constants_tokens(values, (i + 1) as nat));
        }
        i += 1;
    }
    w.text("};");
    proof {
        assert(w@ =~= old(w)@ + const_list_tokens(values));
    }
}

/// The line that says where a function's registers begin.
pub open spec fn offset_bytes(is_vararg: u8, num_param: u8) -> Seq<u8> {
    if is_vararg == 0 {
        LUA_NO_VARARG.spec_bytes()
    } else if num_param == 0 {
        LUA_ALL_VARARG.spec_bytes()
    } else {
        replace(LUA_IS_VARARG.spec_bytes(), NUM_PARAM.spec_bytes(), decimal(num_param as nat))
    }
}

/// The loop that sets the parameters without an argument to nil, for a
/// function that has parameters.
pub open spec fn fill_bytes(num_param: u8) -> Seq<u8> {
    if num_param != 0 {
        replace(LUA_NUM_PARAM.spec_bytes(), NUM_PARAM.spec_bytes(), decimal(num_param as nat))
    } else {
        Seq::empty()
    }
}

/// What a function begins with: the frame, the stack check, the table of
/// constants, the beginning of the registers and the filling of the parameters.
pub open spec fn init_tokens(p: ProtoView) -> Seq<Token> {
    text(replace(LUA_INIT_CODE.spec_bytes(), NUM_STACK.spec_bytes(), decimal(p.num_stack as nat)))
        + const_list_tokens(p.value_list) + text(offset_bytes(p.is_vararg, p.num_param)) + text(
        fill_bytes(p.num_param),
    )
}

fn shown(n: u64) -> (out: Vec<u8>)
    ensures
        out@ == decimal(n as nat),
{
    let mut out: Vec<u8> = Vec::new();
    push_decimal(&mut out, n);
    assert(out@ =~= decimal(n as nat));
    out
}

/// Writes what a function begins with.
pub fn write_init(w: &mut Code, proto: &Proto)
    ensures
        final(w)@ == old(w)@ + init_tokens(proto@),
{
    proof {
        proto.lemma_view();
    }
    let num_stack = shown(proto.num_stack as u64);
    w.bytes(substitute(LUA_INIT_CODE.as_bytes(), NUM_STACK.as_bytes(), num_stack.as_slice()));
    write_const_list(w, proto);
    if proto.is_vararg == 0 {
        w.text(LUA_NO_VARARG);
    } else if proto.num_param == 0 {
        w.text(LUA_ALL_VARARG);
    } else {
        let num_param = shown(proto.num_param as u64);
        w.bytes(substitute(LUA_IS_VARARG.as_bytes(), NUM_PARAM.as_bytes(), num_param.as_slice()));
    }
    if proto.num_param != 0 {
        let num_param = shown(proto.num_param as u64);
        w.bytes(substitute(LUA_NUM_PARAM.as_bytes(), NUM_PARAM.as_bytes(), num_param.as_slice()));
    }
    proof {
        assert(text(Seq::<u8>::empty()) =~= Seq::<Token>::empty());
        assert(w@ =~= old(w)@ + init_tokens(proto@));
    }
}

/// The C function of the prototype `p` alone, which has the ordinal `index`
/// and whose blocks are written as `body`: the head with the name, what
/// every function begins with, the blocks, and the closing brace with an
/// empty line behind it.
pub open spec fn own_tokens(p: ProtoView, index: usize, body: Seq<u8>) -> Seq<Token> {
    lit("int lua_func_") + text(decimal(index as nat)) + lit("(lua_State* L) {") + init_tokens(p)
        + text(body) + lit("}\n") + lit("\n")
}

/// The C function of the prototype `p` and, before it, those of the functions
/// nested in it, together with the last ordinal that was given out. `p` has
/// the ordinal `index`; the functions nested in it are numbered on from
/// there, each one before the functions nested in itself.
pub open spec fn function_tokens(p: ProtoView, index: usize) -> Result<(Seq<Token>, usize), GenError>
    decreases p, p.child_list.len() + 1,
{
    match children_tokens(p, p.child_list.len(), index) {
        Err(e) => Err(e),
        Ok((before, refs, last)) => match blocks_bytes(p.block_list, p.block_list.len(), refs) {
            Err(e) => Err(e),
            Ok(body) => Ok((before + own_tokens(p, index, body), last)),
        },
    }
}

/// The C functions of the first `count` functions nested in `p`, with the
/// functions nested in them; the ordinal of each of the `count`; and the last
/// ordinal that was given out. `index` is the ordinal of `p`.
pub open spec fn children_tokens(p: ProtoView, count: nat, index: usize) -> Result<
    (Seq<Token>, Seq<usize>, usize),
    GenError,
>
    decreases p, count,
{
    if count == 0 || count > p.child_list.len() {
        Ok((Seq::empty(), Seq::empty(), index))
    } else {
        match children_tokens(p, (count - 1) as nat, index) {
            Err(e) => Err(e),
            Ok((before, refs, last)) => if last == usize::MAX {
                Err(GenError::TooManyFunctions)
            } else {
                match function_tokens(p.child_list[count - 1], (last + 1) as usize) {
                    Err(e) => Err(e),
                    Ok((child, end)) => Ok((before + child, refs.push((last + 1) as usize), end)),
                }
            },
        }
    }
}

/// Once one of the nested functions cannot be written, none of the later
/// ones changes that.
proof fn lemma_children_error(p: ProtoView, count: nat, more: nat, index: usize)
    requires
        count <= more <= p.child_list.len(),
        children_tokens(p, count, index) is Err,
    ensures
        children_tokens(p, more, index) == Err::<(Seq<Token>, Seq<usize>, usize), GenError>(
            children_tokens(p, count, index)->Err_0,
        ),
    decreases more,
{
    if more > count {
        lemma_children_error(p, count, (more - 1) as nat, index);
    }
}

/// Once one of the blocks cannot be written, none of the later ones changes that.
proof fn lemma_blocks_error(blocks: Seq<BlockView>, count: nat, more: nat, refs: Seq<usize>)
    requires
        count <= more,
        blocks_bytes(blocks, count, refs) is Err,
    ensures
        blocks_bytes(blocks, more, refs) == Err::<Seq<u8>, GenError>(
            blocks_bytes(blocks, count, refs)->Err_0,
        ),
    decreases more,
{
    if more > count {
        lemma_blocks_error(blocks, count, (more - 1) as nat, refs);
    }
}

/// A function without constants, parameters, variable arguments and nested
/// functions, with one block at most: it begins with the frame and the
/// stack check, an empty table of constants and the registers at the
/// beginning of the frame; its text is that of one function, with the
/// ordinal it was given and with no label but that of its one block; and no
/// other ordinal is given out.
pub proof fn lemma_plain_function(p: ProtoView, index: usize)
    requires
        p.child_list.len() == 0,
        p.value_list.len() == 0,
        p.is_vararg == 0,
        p.num_param == 0,
        p.block_list.len() <= 1,
    ensures
        init_tokens(p) == text(
            replace(LUA_INIT_CODE.spec_bytes(), NUM_STACK.spec_bytes(), decimal(p.num_stack as nat)),
        ) + lit("static TValue const ct_k[") + text(seq![0x30u8]) + lit("] = {") + lit("};") + lit(
            LUA_NO_VARARG,
        ),
        p.block_list.len() == 0 ==> function_tokens(p, index) == Ok::<
            (Seq<Token>, usize),
            GenError,
        >((own_tokens(p, index, Seq::empty()), index)),
        p.block_list.len() == 1 ==> function_tokens(p, index) == match block_bytes(
            p.block_list[0],
            0,
            Seq::empty(),
        ) {
            Ok(body) => Ok::<(Seq<Token>, usize), GenError>((own_tokens(p, index, body), index)),
            Err(e) => Err::<(Seq<Token>, usize), GenError>(e),
        },
{
    assert(init_tokens(p) =~= text(
        replace(LUA_INIT_CODE.spec_bytes(), NUM_STACK.spec_bytes(), decimal(p.num_stack as nat)),
    ) + lit("static TValue const ct_k[") + text(seq![0x30u8]) + lit("] = {") + lit("};") + lit(
        LUA_NO_VARARG,
    )) by {
        assert(decimal(0) =~= seq![0x30u8]);
        assert(text(Seq::<u8>::empty()) =~= Seq::<Token>::empty());
    }
    assert(children_tokens(p, 0, index) == Ok::<(Seq<Token>, Seq<usize>, usize), GenError>(
        (Seq::empty(), Seq::empty(), index),
    ));
    reveal_with_fuel(blocks_bytes, 2);
    assert forall|body: Seq<u8>|
        Seq::<Token>::empty() + #[trigger] own_tokens(p, index, body) == own_tokens(
            p,
            index,
            body,
        ) by {
        assert(Seq::<Token>::empty() + own_tokens(p, index, body) =~= own_tokens(p, index, body));
    }
    if p.block_list.len() == 1 {
        if let Ok(body) = block_bytes(p.block_list[0], 0, Seq::empty()) {
            assert(Seq::<u8>::empty() + body =~= body);
        }
    }
}

/// Whether the instruction at `at` is written in its own right where the
/// block is written from `from` on: every instruction before it can be
/// written, and it is not the successor that belongs to the one before it.
pub open spec fn reaches(
    code: Seq<Inst>,
    from: int,
    at: int,
    target: Target,
    block: nat,
    refs: Seq<usize>,
) -> bool
    decreases at - from,
{
    if from == at {
        true
    } else if 0 <= from < at && from < code.len() {
        match operand_bytes(code, from, target, block, refs) {
            Ok((_, width)) => if 1 <= width && from + width <= at {
                reaches(code, from + width, at, target, block, refs)
            } else {
                false
            },
            Err(_) => false,
        }
    } else {
        false
    }
}

/// A block without a label for its target cannot be written once a jump or
/// a test in it is reached: that is unsupported control flow.
pub proof fn lemma_undefined_block(
    code: Seq<Inst>,
    from: int,
    at: int,
    offset: i32,
    block: nat,
    refs: Seq<usize>,
)
    requires
        0 <= at < code.len(),
        reaches(code, from, at, Target::Undefined(offset), block, refs),
        op_type(code[at].spec_opcode()) is Control,
    ensures
        body_bytes(code, from, Target::Undefined(offset), block, refs) == Err::<Seq<u8>, GenError>(
            GenError::UnsupportedControlFlow,
        ),
    decreases at - from,
{
    if from != at {
        let width = operand_bytes(code, from, Target::Undefined(offset), block, refs)->Ok_0.1;
        assert(1 <= width && from + width <= at);
        lemma_undefined_block(code, from + width, at, offset, block, refs);
    }
}

/// No code is generated for a function with a block that has no label for
/// its target and in which a jump or a test is reached, where the functions
/// nested in it and the blocks before that block can be written: that is
/// unsupported control flow.
pub proof fn lemma_undefined_target(p: ProtoView, index: usize, i: int, at: int)
    requires
        children_tokens(p, p.child_list.len(), index) is Ok,
        0 <= i < p.block_list.len(),
        blocks_bytes(
            p.block_list,
            i as nat,
            children_tokens(p, p.child_list.len(), index)->Ok_0.1,
        ) is Ok,
        p.block_list[i].target is Undefined,
        0 <= at < p.block_list[i].code.len(),
        reaches(
            p.block_list[i].code,
            0,
            at,
            p.block_list[i].target,
            i as nat,
            children_tokens(p, p.child_list.len(), index)->Ok_0.1,
        ),
        op_type(p.block_list[i].code[at].spec_opcode()) is Control,
    ensures
        function_tokens(p, index) == Err::<(Seq<Token>, usize), GenError>(
            GenError::UnsupportedControlFlow,
        ),
{
    let refs = children_tokens(p, p.child_list.len(), index)->Ok_0.1;
    let blk = p.block_list[i];
    let offset = blk.target->Undefined_0;
    lemma_undefined_block(blk.code, 0, at, offset, i as nat, refs);
    assert(block_bytes(blk, i as nat, refs) is Err);
    assert(blocks_bytes(p.block_list, (i + 1) as nat, refs) == Err::<Seq<u8>, GenError>(
        GenError::UnsupportedControlFlow,
    ));
    lemma_blocks_error(p.block_list, (i + 1) as nat, p.block_list.len(), refs);
}

/// Writes the C functions of the functions nested in `proto`, and returns
/// their ordinals.
fn write_children(w: &mut Code, index: &mut usize, proto: &Proto) -> (r: Result<
    Vec<usize>,
    GenError,
>)
    ensures
        match children_tokens(proto@, proto@.child_list.len(), *old(index)) {
            Ok((t, refs, last)) => r is Ok && r->Ok_0@ == refs && final(w)@ == old(w)@ + t
                && *final(index) == last,
            Err(e) => r == Err::<Vec<usize>, GenError>(e),
        },
    decreases proto, 0nat,
{
    proof {
        proto.lemma_view();
    }
    let ghost p = proto@;
    let ghost saved = *index;
    let mut child_ref: Vec<usize> = Vec::with_capacity(proto.child_list.len());
    let ghost mut written: Seq<Token> = Seq::empty();
    let mut k: usize = 0;
    proof {
        assert(w@ =~= old(w)@ + written);
    }
    while k < proto.child_list.len()
        invariant
            k <= proto.child_list.len(),
            p == proto@,
            saved == *old(index),
            p.child_list.len() == proto.child_list.len(),
            forall|i: int|
                0 <= i < proto.child_list@.len() ==> #[trigger] p.child_list[i]
                    == proto.child_list@[i]@,
            children_tokens(p, k as nat, saved) == Ok::<(Seq<Token>, Seq<usize>, usize), GenError>(
                (written, child_ref@, *index),
            ),
            w@ == old(w)@ + written,
        decreases proto.child_list.len() - k,
    {
        if *index == usize::MAX {
            proof {
                assert(children_tokens(p, (k + 1) as nat, saved) is Err);
                lemma_children_error(p, (k + 1) as nat, p.child_list.len(), saved);
            }
            return Err(GenError::TooManyFunctions);
        }
        *index += 1;
        let ghost first = *index;
        let ghost refs = child_ref@;
        child_ref.push(*index);
        let child = &proto.child_list[k];
        proof {
            assert(p.child_list[k as int] == child@);
        }
        match write_function(w, index, child) {
            Err(e) => {
                proof {
                    assert(children_tokens(p, (k + 1) as nat, saved) is Err);
                    lemma_children_error(p, (k + 1) as nat, p.child_list.len(), saved);
                }
                return Err(e);
            },
            Ok(()) => {
                proof {
                    let t = function_tokens(child@, first)->Ok_0.0;
                    assert(w@ =~= old(w)@ + (written + t));
                    written = written + t;
                    assert(child_ref@ =~= refs.push(first));
                }
            },
        }
        k += 1;
    }
    Ok(child_ref)
}

/// Writes the blocks of `proto`, one after the other.
fn write_blocks(w: &mut Code, proto: &Proto, refs: &Vec<usize>) -> (r: Result<(), GenError>)
    ensures
        match blocks_bytes(proto@.block_list, proto@.block_list.len(), refs@) {
            Ok(t) => r is Ok && final(w)@ == old(w)@ + text(t),
            Err(e) => r == Err::<(), GenError>(e),
        },
{
    proof {
        proto.lemma_view();
    }
    let ghost blocks = proto@.block_list;
    let ghost mut body: Seq<u8> = Seq::empty();
    let mut i: usize = 0;
    proof {
        assert(w@ =~= old(w)@ + text(body));
    }
    while i < proto.block_list.len()
        invariant
            i <= proto.block_list.len(),
            blocks == proto@.block_list,
            blocks.len() == proto.block_list.len(),
            forall|j: int|
                0 <= j < proto.block_list@.len() ==> #[trigger] blocks[j] == proto.block_list@[j]@,
            blocks_bytes(blocks, i as nat, refs@) == Ok::<Seq<u8>, GenError>(body),
            w@ == old(w)@ + text(body),
        decreases proto.block_list.len() - i,
    {
        let blk = &proto.block_list[i];
        proof {
            assert(blocks[i as int] == blk@);
        }
        match block_into(w, blk, i, refs) {
            Err(e) => {
                proof {
                    assert(blocks_bytes(blocks, (i + 1) as nat, refs@) is Err);
                    lemma_blocks_error(blocks, (i + 1) as nat, blocks.len(), refs@);
                }
                return Err(e);
            },
            Ok(()) => {
                proof {
                    let t = block_bytes(blk@, i as nat, refs@)->Ok_0;
                    lemma_text_add(body, t);
                    assert(w@ =~= old(w)@ + text(body + t));
                    body = body + t;
                }
            },
        }
        i += 1;
    }
    Ok(())
}

/// Seven pieces of text that were added one by one behind a text stand
/// behind it as one text.
proof fn lemma_added(
    o: Seq<Token>,
    a: Seq<Token>,
    b: Seq<Token>,
    c: Seq<Token>,
    d: Seq<Token>,
    e: Seq<Token>,
    f: Seq<Token>,
    g: Seq<Token>,
)
    ensures
        o + a + b + c + d + e + f + g == o + (a + b + c + d + e + f + g),
{
    assert(o + a + b + c + d + e + f + g =~= o + (a + b + c + d + e + f + g));
}

/// Writes the C function of `proto` alone, which has the ordinal `index`;
/// `refs` holds the ordinals of the functions nested in it.
fn write_own(w: &mut Code, index: usize, proto: &Proto, refs: &Vec<usize>) -> (r: Result<
    (),
    GenError,
>)
    ensures
        match blocks_bytes(proto@.block_list, proto@.block_list.len(), refs@) {
            Ok(body) => r is Ok && final(w)@ == old(w)@ + own_tokens(proto@, index, body),
            Err(e) => r == Err::<(), GenError>(e),
        },
{
    w.text("int lua_func_");
    w.bytes(shown(index as u64));
    w.text("(lua_State* L) {");
    write_init(w, proto);
    write_blocks(w, proto, refs)?;
    w.text("}\n");
    w.text("\n");
    proof {
        let body = blocks_bytes(proto@.block_list, proto@.block_list.len(), refs@)->Ok_0;
        lemma_added(
            old(w)@,
            lit("int lua_func_"),
            text(decimal(index as nat)),
            lit("(lua_State* L) {"),
            init_tokens(proto@),
            text(body),
            lit("}\n"),
            lit("\n"),
        );
    }
    Ok(())
}

/// Writes the C function of `proto`, after those of the functions nested in
/// it. `index` holds the ordinal of `proto` and, afterwards, the last ordinal
/// given out. Where a function of the tree cannot be written, nothing is
/// written and no ordinal is given out.
pub fn write_function(w: &mut Code, index: &mut usize, proto: &Proto) -> (r: Result<(), GenError>)
    ensures
        match function_tokens(proto@, *old(index)) {
            Ok((t, last)) => r is Ok && final(w)@ == old(w)@ + t && *final(index) == last,
            Err(e) => r == Err::<(), GenError>(e) && final(w)@ == old(w)@ && *final(index) == *old(
                index,
            ),
        },
    decreases proto, 1nat,
{
    let saved = *index;
    let mut own = Code::new();
    let mut last = saved;
    let child_ref = write_children(&mut own, &mut last, proto)?;
    let ghost before = own@;
    write_own(&mut own, saved, proto, &child_ref)?;
    proof {
        let children = children_tokens(proto@, proto@.child_list.len(), saved)->Ok_0.0;
        let body = blocks_bytes(proto@.block_list, proto@.block_list.len(), child_ref@)->Ok_0;
        assert(before =~= children);
        assert(own@ == children + own_tokens(proto@, saved, body));
    }
    *index = last;
    w.append(own);
    Ok(())
}

/// A byte as it stands in a C string: a backslash, `x` and two hex digits.
pub open spec fn escaped_byte(b: u8) -> Seq<u8> {
    "\\x".spec_bytes() + hex(b as nat, 2, true)
}

/// The end of the generated text: the chunk `dumped` as a C string, and the
/// host's setup code with the length of the chunk in it.
pub open spec fn glue_bytes(dumped: Seq<u8>, setup: Seq<u8>) -> Seq<u8> {
    "char const* BT_GLUE = \"".spec_bytes() + join(dumped, |b: u8| escaped_byte(b))
        + "\";\n".spec_bytes() + "\n".spec_bytes() + replace(
        setup,
        LENGTH.spec_bytes(),
        decimal(dumped.len()),
    )
}

/// The end of the generated text for the tree `p`.
pub open spec fn call_site_bytes(p: ProtoView, setup: Seq<u8>) -> Result<Seq<u8>, GenError> {
    match spec_dump_lua_module(p) {
        Ok(dumped) => Ok(glue_bytes(dumped, setup)),
        Err(_) => Err(GenError::TooManyUpvalues),
    }
}

/// Writes the reduced chunk of `proto` as a C string, and the host's setup
/// code after it. Nothing is written where the chunk cannot be written.
pub fn write_call_site(w: &mut Code, proto: &Proto, setup: &[u8]) -> (r: Result<(), GenError>)
    requires
        proto@.fits(),
    ensures
        match call_site_bytes(proto@, setup@) {
            Ok(t) => r is Ok && final(w)@ == old(w)@ + text(t),
            Err(e) => r == Err::<(), GenError>(e) && final(w)@ == old(w)@,
        },
{
    let dumped = match dump_lua_module(proto) {
        Ok(dumped) => dumped,
        Err(DumpError::TooManyUpvalues) => {
            return Err(GenError::TooManyUpvalues);
        },
    };
    let len = shown(dumped.len() as u64);
    let mut out: Vec<u8> = Vec::new();
    push_bytes(&mut out, "char const* BT_GLUE = \"".as_bytes());
    let ghost head = out@;
    let ghost each = |b: u8| escaped_byte(b);
    let mut i: usize = 0;
    proof {
        assert(out@ =~= head + join(dumped@.take(0), each));
    }
    while i < dumped.len()
        invariant
            i <= dumped.len(),
            each == (|b: u8| escaped_byte(b)),
            out@ == head + join(dumped@.take(i as int), each),
        decreases dumped.len() - i,
    {
        push_bytes(&mut out, "\\x".as_bytes());
        push_hex(&mut out, dumped[i] as u32, 2, true);
        proof {
            assert(dumped@.take(i + 1) =~= dumped@.take(i as int).push(dumped@[i as int]));
            lemma_join_push(dumped@.take(i as int), dumped@[i as int], each);
            assert(out@ =~= head + join(dumped@.take(i + 1), each));
        }
        i += 1;
    }
    proof {
        assert(dumped@.take(i as int) =~= dumped@);
    }
    push_bytes(&mut out, "\";\n".as_bytes());
    push_bytes(&mut out, "\n".as_bytes());
    let filled = substitute(setup, LENGTH.as_bytes(), len.as_slice());
    push_bytes(&mut out, filled.as_slice());
    proof {
        assert(out@ =~= glue_bytes(dumped@, setup@));
    }
    w.bytes(out);
    Ok(())
}

/// The whole generated text for the tree `p`: the host's helpers and its
/// macros, each with a line end after it, the C function of every function
/// of the tree, and the reduced chunk with the host's setup code.
pub open spec fn spec_transpile(p: ProtoView, interp: Seq<u8>, macros: Seq<u8>, setup: Seq<u8>) -> Result<
    Seq<Token>,
    GenError,
> {
    match function_tokens(p, 0) {
        Err(e) => Err(e),
        Ok((functions, _)) => match call_site_bytes(p, setup) {
            Err(e) => Err(e),
            Ok(glue) => Ok(
                text(interp) + lit("\n") + text(macros) + lit("\n") + functions + text(glue),
            ),
        },
    }
}

/// Generates the C text for the tree `proto`.
///
/// The function of the root has the ordinal 0. Generation fails where a
/// block with a jump or a test has no label as its target, where an
/// instruction lacks the successor that belongs to it, where a closure names
/// a nested function that is not there, and where the root has more than 255
/// upvalues; of several failures, the one that comes first in the text is
/// reported, and that of the upvalues last.
pub fn transpile(proto: &Proto, boilerplate: &Boilerplate) -> (r: Result<Code, GenError>)
    requires
        proto@.fits(),
    ensures
        match spec_transpile(proto@, boilerplate.interp@, boilerplate.macros@, boilerplate.setup@) {
            Ok(t) => r is Ok && r->Ok_0@ == t,
            Err(e) => r is Err && r->Err_0 == e,
        },
{
    let mut w = Code::new();
    let mut index: usize = 0;
    let mut interp: Vec<u8> = Vec::new();
    push_bytes(&mut interp, boilerplate.interp.as_slice());
    assert(interp@ =~= boilerplate.interp@);
    w.bytes(interp);
    w.text("\n");
    let mut macros: Vec<u8> = Vec::new();
    push_bytes(&mut macros, boilerplate.macros.as_slice());
    assert(macros@ =~= boilerplate.macros@);
    w.bytes(macros);
    w.text("\n");
    match write_function(&mut w, &mut index, proto) {
        Ok(()) => {},
        Err(e) => {
            return Err(e);
        },
    }
    match write_call_site(&mut w, proto, boilerplate.setup.as_slice()) {
        Ok(()) => {},
        Err(e) => {
            return Err(e);
        },
    }
    proof {
        assert(w@ =~= spec_transpile(
            proto@,
            boilerplate.interp@,
            boilerplate.macros@,
            boilerplate.setup@,
        )->Ok_0);
    }
    Ok(w)
}

} // verus!
