use lean::codegen::baked::Boilerplate;
use lean::codegen::gen::{
    as_op_type, assume_label, transpile, write_block, write_call_site, write_const_list,
    write_function, write_init, write_instruction, GenError, OpType,
};
use lean::codegen::text::{
    number_literal, push_bytes, push_decimal, push_hex, push_signed_decimal, substitute, Code,
    Piece,
};
use lean::common::number::LoadError;
use lean::common::opcode::Opcode;
use lean::common::types::{Block, Inst, Proto, Target, Upvalue, Value};
use lean::dumper::dump_lua_module;
use lean::{transpile_data, Failure};

fn render(code: &Code) -> String {
    let mut out = Vec::new();
    for piece in &code.pieces {
        match piece {
            Piece::Text(bytes) => out.extend_from_slice(bytes),
            Piece::Number(bits) => {
                let shown = f64::from_bits(*bits).to_string();
                out.extend_from_slice(&number_literal(shown.as_bytes()));
            }
        }
    }
    String::from_utf8(out).unwrap()
}

fn proto() -> Proto {
    Proto {
        source: None,
        is_vararg: 0,
        num_stack: 2,
        num_param: 0,
        line_defined: 0,
        last_line_defined: 0,
        value_list: vec![],
        block_list: vec![],
        child_list: vec![],
        upval_list: vec![],
        rel_line_list: vec![],
        abs_line_list: vec![],
        local_list: vec![],
    }
}

fn op(op: Opcode) -> Inst {
    Inst::from(op)
}

fn block(code: &[Inst], target: Target) -> Block {
    Block { code: code.to_vec(), target }
}

fn init(num_stack: u8) -> String {
    format!(
        "\nCallInfo *const ci = L->ci;\nLClosure *const cl = lua_get_l_closure(ci);\n\
         TValue const *const rt_k = cl->p->k;\n\ncheckstackGCp(L, {}, ci->func);\n\n\
         StkId base = ci->func + 1;\n",
        num_stack
    )
}

fn fill(num_param: u8) -> String {
    format!(
        "\nStkId param_end = base + {};\n\nwhile (L->top < param_end) {{\n\
         \tsetnilvalue(s2v(L->top));\n\tL->top++;\n}}\n",
        num_param
    )
}

fn boilerplate(interp: &str, macros: &str, setup: &str) -> Boilerplate {
    Boilerplate {
        interp: interp.as_bytes().to_vec(),
        macros: macros.as_bytes().to_vec(),
        setup: setup.as_bytes().to_vec(),
    }
}

#[test]
fn numbers_in_decimal() {
    let shown = |n: u64| {
        let mut out = vec![b'#'];
        push_decimal(&mut out, n);
        String::from_utf8(out).unwrap()
    };
    assert_eq!(shown(0), "#0");
    assert_eq!(shown(7), "#7");
    assert_eq!(shown(10), "#10");
    assert_eq!(shown(1234567890), "#1234567890");
    assert_eq!(shown(u64::MAX), format!("#{}", u64::MAX));
    let signed = |n: i64| {
        let mut out = Vec::new();
        push_signed_decimal(&mut out, n);
        String::from_utf8(out).unwrap()
    };
    assert_eq!(signed(0), "0");
    assert_eq!(signed(-1), "-1");
    assert_eq!(signed(4711), "4711");
    assert_eq!(signed(i64::MAX), i64::MAX.to_string());
    assert_eq!(signed(i64::MIN), i64::MIN.to_string());
}

#[test]
fn numbers_in_hex() {
    let shown = |n: u32, width: u8, upper: bool| {
        let mut out = Vec::new();
        push_hex(&mut out, n, width, upper);
        String::from_utf8(out).unwrap()
    };
    assert_eq!(shown(0, 8, false), "00000000");
    assert_eq!(shown(0xDEAD_BEEF, 8, false), format!("{:08x}", 0xDEAD_BEEFu32));
    assert_eq!(shown(0xAB, 2, true), "AB");
    assert_eq!(shown(0x0A, 2, true), format!("{:02X?}", 0x0Au8));
    assert_eq!(shown(0x1AB, 2, false), "ab");
    assert_eq!(shown(0x1AB, 0, false), "");
}

#[test]
fn bytes_are_appended() {
    let mut out = vec![1];
    push_bytes(&mut out, &[2, 3]);
    push_bytes(&mut out, &[]);
    assert_eq!(out, vec![1, 2, 3]);
}

#[test]
fn names_in_a_template_are_replaced() {
    let replaced = |t: &str, p: &str, w: &str| {
        String::from_utf8(substitute(t.as_bytes(), p.as_bytes(), w.as_bytes())).unwrap()
    };
    assert_eq!(replaced("a `N` b `N`", "`N`", "12"), "a 12 b 12");
    assert_eq!(replaced("a `N` b `N`", "`N`", "12"), "a `N` b `N`".replace("`N`", "12"));
    assert_eq!(replaced("aaa", "aa", "b"), "ba");
    assert_eq!(replaced("aaaa", "aa", "a"), "aa");
    assert_eq!(replaced("abc", "abcd", "x"), "abc");
    assert_eq!(replaced("abc", "abc", ""), "");
    assert_eq!(replaced("", "a", "b"), "");
    assert_eq!(replaced("xyz", "", "!"), "xyz");
    assert_eq!(replaced("`LENGTH", "`LENGTH`", "1"), "`LENGTH");
}

#[test]
fn a_float_literal_has_a_point() {
    let literal = |f: f64| String::from_utf8(number_literal(f.to_string().as_bytes())).unwrap();
    assert_eq!(literal(1.5), "1.5");
    assert_eq!(literal(2.0), "2.0");
    assert_eq!(literal(-0.0), "-0.0");
    assert_eq!(literal(370.5), "370.5");
    assert_eq!(literal(1e21), "1000000000000000000000.0");
    assert_eq!(literal(f64::INFINITY), "inf.0");
    assert_eq!(literal(f64::NAN), "NaN.0");
}

#[test]
fn text_is_kept_in_pieces() {
    let mut code = Code::new();
    assert!(code.pieces.is_empty());
    code.text("ab");
    code.bytes(vec![b'c']);
    code.number(2.5f64.to_bits());
    code.text(";");
    assert_eq!(code.pieces.len(), 4);
    assert_eq!(render(&code), "abc2.5;");
}

#[test]
fn every_opcode_has_its_type() {
    let skip = [
        Opcode::AddI,
        Opcode::AddK,
        Opcode::SubK,
        Opcode::MulK,
        Opcode::ModK,
        Opcode::PowK,
        Opcode::DivK,
        Opcode::IDivK,
        Opcode::BandK,
        Opcode::BorK,
        Opcode::BxorK,
        Opcode::ShlI,
        Opcode::ShrI,
        Opcode::Add,
        Opcode::Sub,
        Opcode::Mul,
        Opcode::Mod,
        Opcode::Pow,
        Opcode::Div,
        Opcode::IDiv,
        Opcode::Band,
        Opcode::Bor,
        Opcode::Bxor,
        Opcode::Shl,
        Opcode::Shr,
    ];
    let extra = [Opcode::LoadKX, Opcode::NewTable, Opcode::SetList];
    let control = [
        Opcode::LFalseSkip,
        Opcode::Jmp,
        Opcode::Eq,
        Opcode::Lt,
        Opcode::Le,
        Opcode::EqK,
        Opcode::EqI,
        Opcode::LtI,
        Opcode::LeI,
        Opcode::GtI,
        Opcode::GeI,
        Opcode::Test,
        Opcode::TestSet,
        Opcode::ForLoop,
        Opcode::ForPrep,
        Opcode::TForPrep,
        Opcode::TForLoop,
    ];
    let mut normal = 0;
    for tag in 0..=83u8 {
        let op = Opcode::from(tag);
        let want = if skip.contains(&op) {
            OpType::Skip
        } else if extra.contains(&op) {
            OpType::Extra
        } else if control.contains(&op) {
            OpType::Control
        } else if op == Opcode::Closure {
            OpType::Closure
        } else {
            normal += 1;
            OpType::Normal
        };
        assert_eq!(as_op_type(op), want, "{:?}", op);
        assert_eq!(as_op_type(op), as_op_type(Opcode::from(tag)));
    }
    assert_eq!(normal, 84 - 25 - 3 - 17 - 1);
    assert_eq!(as_op_type(Opcode::Return0), OpType::Normal);
    assert_eq!(as_op_type(Opcode::TForCall), OpType::Normal);
    assert_eq!(as_op_type(Opcode::Invalid), OpType::Normal);
}

#[test]
fn only_a_label_is_a_target() {
    assert_eq!(assume_label(&Target::Label(7)), Ok(7));
    assert_eq!(assume_label(&Target::Undefined(3)), Err(GenError::UnsupportedControlFlow));
}

#[test]
fn an_instruction_is_a_call_of_its_macro() {
    let mut w = Code::new();
    write_instruction(&mut w, op(Opcode::Return0), b"");
    assert_eq!(render(&w), "Return0(0x00000047);");
    write_instruction(&mut w, Inst { inner: 0xFFFF_FF80 }, b", x");
    assert_eq!(render(&w), "Return0(0x00000047);Move(0xffffff80, x);");
    let mut w = Code::new();
    write_instruction(&mut w, Inst { inner: 0xFF }, b"");
    assert_eq!(render(&w), "Invalid(0x000000ff);");
}

fn block_text(blk: &Block, index: usize, refs: &[usize]) -> Result<String, GenError> {
    let mut w = Code::new();
    write_block(&mut w, blk, index, &refs.to_vec())?;
    Ok(render(&w))
}

#[test]
fn a_block_is_its_label_and_its_instructions() {
    let blk = block(&[op(Opcode::Move), op(Opcode::Return0)], Target::Label(1));
    assert_eq!(block_text(&blk, 0, &[]).unwrap(), "label_0:\nMove(0x00000000);Return0(0x00000047);");
    let blk = block(&[], Target::Undefined(0));
    assert_eq!(block_text(&blk, 12, &[]).unwrap(), "label_12:\n");
}

#[test]
fn a_jump_names_its_target_and_the_next_block() {
    let jmp = Inst { inner: 0x7FFF_FFB8 };
    assert_eq!(jmp.opcode(), Opcode::Jmp);
    let blk = block(&[jmp], Target::Label(1));
    assert_eq!(block_text(&blk, 0, &[]).unwrap(), "label_0:\nJmp(0x7fffffb8, label_1, label_1);");
    let blk = block(&[op(Opcode::Move), op(Opcode::Test)], Target::Label(10));
    assert_eq!(
        block_text(&blk, 4, &[]).unwrap(),
        "label_4:\nMove(0x00000000);Test(0x00000042, label_10, label_5);"
    );
}

#[test]
fn nothing_is_written_of_what_cannot_be_written() {
    let blk = block(&[op(Opcode::Move), op(Opcode::Jmp)], Target::Undefined(5));
    let mut w = Code::new();
    w.text("before");
    assert!(write_block(&mut w, &blk, 0, &vec![]).is_err());
    assert_eq!(render(&w), "before");

    let mut child = proto();
    child.block_list = vec![block(&[op(Opcode::Move)], Target::Label(1)), blk];
    let mut root = proto();
    root.child_list = vec![proto(), child];
    let mut index = 5;
    assert_eq!(
        write_function(&mut w, &mut index, &root).unwrap_err(),
        GenError::UnsupportedControlFlow
    );
    assert_eq!(render(&w), "before");
    assert_eq!(index, 5);

    let mut many = proto();
    many.upval_list =
        (0..256).map(|i| Upvalue { name: None, in_stack: true, index: i as u8 }).collect();
    assert!(write_call_site(&mut w, &many, b"setup").is_err());
    assert_eq!(render(&w), "before");
}

#[test]
fn text_is_added_to_text() {
    let mut first = Code::new();
    first.text("a");
    first.number(1.5f64.to_bits());
    let mut second = Code::new();
    second.text("b");
    second.text("c");
    first.append(second);
    first.append(Code::new());
    assert_eq!(first.pieces.len(), 4);
    assert_eq!(render(&first), "a1.5bc");
}

#[test]
fn a_jump_without_a_label_is_unsupported() {
    let blk = block(&[op(Opcode::Move), op(Opcode::Jmp)], Target::Undefined(5));
    assert_eq!(block_text(&blk, 0, &[]).unwrap_err(), GenError::UnsupportedControlFlow);
    // wherever the jump stands, and whatever test it is
    for control in [Opcode::Jmp, Opcode::Test, Opcode::Eq, Opcode::ForLoop, Opcode::TForPrep] {
        for before in 0..3 {
            let mut code = vec![op(Opcode::Move); before];
            code.push(op(control));
            code.push(op(Opcode::Return0));
            let blk = block(&code, Target::Undefined(-1));
            assert_eq!(block_text(&blk, 7, &[]).unwrap_err(), GenError::UnsupportedControlFlow);
        }
    }
    // a jump that is written as the fallback of an addition is not reached
    let blk = block(&[op(Opcode::Add), op(Opcode::Jmp)], Target::Undefined(5));
    assert_eq!(block_text(&blk, 0, &[]).unwrap(), "label_0:\nAdd(0x00000022, Jmp(0x00000038));");
    // a block that passes control on to nothing needs no label
    let blk = block(&[op(Opcode::Move), op(Opcode::Return0)], Target::Undefined(5));
    assert_eq!(block_text(&blk, 0, &[]).unwrap(), "label_0:\nMove(0x00000000);Return0(0x00000047);");
}

#[test]
fn arithmetic_is_written_with_its_fallback() {
    let blk = block(&[op(Opcode::Add), op(Opcode::MmBin), op(Opcode::Return0)], Target::Label(1));
    assert_eq!(
        block_text(&blk, 0, &[]).unwrap(),
        "label_0:\nAdd(0x00000022, MmBin(0x0000002e));Return0(0x00000047);"
    );
    let blk = block(&[op(Opcode::AddI), Inst { inner: 0x12_3456_00 | 47 }], Target::Label(1));
    assert_eq!(block_text(&blk, 0, &[]).unwrap(), "label_0:\nAddI(0x00000015, MmBinI(0x1234562f));");
}

#[test]
fn a_wide_operand_is_taken_from_the_next_instruction() {
    let extra = |ax: u32| Inst { inner: (ax << 7) | 82 };
    let blk = block(&[op(Opcode::LoadKX), extra(5)], Target::Label(1));
    assert_eq!(block_text(&blk, 0, &[]).unwrap(), "label_0:\nLoadKX(0x00000004, 5);");
    let blk = block(&[op(Opcode::NewTable), extra(0x1FF_FFFF)], Target::Label(1));
    assert_eq!(block_text(&blk, 0, &[]).unwrap(), "label_0:\nNewTable(0x00000013, 33554431);");
    let set_list = Inst { inner: (1 << 15) | 78 };
    let blk = block(&[set_list, extra(9), op(Opcode::Return0)], Target::Label(1));
    assert_eq!(
        block_text(&blk, 0, &[]).unwrap(),
        "label_0:\nSetList(0x0000804e, 9);Return0(0x00000047);"
    );
}

#[test]
fn a_list_without_the_flag_has_no_wide_operand() {
    let blk = block(&[op(Opcode::SetList), op(Opcode::Return0)], Target::Label(1));
    assert_eq!(
        block_text(&blk, 0, &[]).unwrap(),
        "label_0:\nSetList(0x0000004e, 0);Return0(0x00000047);"
    );
    let blk = block(&[op(Opcode::SetList)], Target::Label(1));
    assert_eq!(block_text(&blk, 0, &[]).unwrap(), "label_0:\nSetList(0x0000004e, 0);");
}

#[test]
fn an_instruction_without_its_successor_cannot_be_written() {
    for first in [Opcode::Add, Opcode::ShrI, Opcode::LoadKX, Opcode::NewTable] {
        let blk = block(&[op(Opcode::Move), op(first)], Target::Label(1));
        assert_eq!(block_text(&blk, 0, &[]).unwrap_err(), GenError::MissingOperand, "{:?}", first);
    }
    let set_list = Inst { inner: (1 << 15) | 78 };
    let blk = block(&[set_list], Target::Label(1));
    assert_eq!(block_text(&blk, 0, &[]).unwrap_err(), GenError::MissingOperand);
}

#[test]
fn a_closure_names_the_function_it_is_made_from() {
    let closure = |bx: u32| Inst { inner: (bx << 15) | 79 };
    let blk = block(&[closure(0), closure(1)], Target::Label(1));
    assert_eq!(
        block_text(&blk, 0, &[4, 17]).unwrap(),
        "label_0:\nClosure(0x0000004f, lua_func_4);Closure(0x0000804f, lua_func_17);"
    );
    assert_eq!(block_text(&blk, 0, &[4]).unwrap_err(), GenError::MissingChild);
    assert_eq!(block_text(&blk, 0, &[]).unwrap_err(), GenError::MissingChild);
}

#[test]
fn of_two_failures_the_first_is_reported() {
    let blk = block(&[op(Opcode::Jmp), op(Opcode::Add)], Target::Undefined(1));
    assert_eq!(block_text(&blk, 0, &[]).unwrap_err(), GenError::UnsupportedControlFlow);
    let blk = block(&[op(Opcode::Closure), op(Opcode::Jmp)], Target::Undefined(1));
    assert_eq!(block_text(&blk, 0, &[]).unwrap_err(), GenError::MissingChild);
}

#[test]
fn the_table_of_constants() {
    let mut p = proto();
    let mut w = Code::new();
    write_const_list(&mut w, &p);
    assert_eq!(render(&w), "static TValue const ct_k[0] = {};");

    p.value_list = vec![
        Value::Nil,
        Value::False,
        Value::True,
        Value::Integer(-5),
        Value::Number(1.5f64.to_bits()),
        Value::Number(3f64.to_bits()),
        Value::NoString,
        Value::String("x".to_string()),
        Value::Integer(i64::MIN),
    ];
    let mut w = Code::new();
    write_const_list(&mut w, &p);
    assert_eq!(
        render(&w),
        "static TValue const ct_k[9] = {\
         { { .i = 0 }, LUA_VNIL },\
         { { .i = 0 }, LUA_VFALSE },\
         { { .i = 0 }, LUA_VTRUE },\
         { { .i = -5 }, LUA_VNUMINT },\
         { { .n = 1.5 }, LUA_VNUMFLT },\
         { { .n = 3.0 }, LUA_VNUMFLT },\
         { { .i = 0 }, LUA_VNIL },\
         { { .i = 0 }, LUA_VNIL },\
         { { .i = -9223372036854775808 }, LUA_VNUMINT },\
         };"
    );
    let numbers: Vec<u64> = w
        .pieces
        .iter()
        .filter_map(|p| match p {
            Piece::Number(bits) => Some(*bits),
            _ => None,
        })
        .collect();
    assert_eq!(numbers, vec![1.5f64.to_bits(), 3f64.to_bits()]);
}

fn init_text(is_vararg: u8, num_param: u8, num_stack: u8) -> String {
    let mut p = proto();
    p.is_vararg = is_vararg;
    p.num_param = num_param;
    p.num_stack = num_stack;
    let mut w = Code::new();
    write_init(&mut w, &p);
    render(&w)
}

#[test]
fn the_beginning_of_a_function_without_variable_arguments() {
    let table = "static TValue const ct_k[0] = {};";
    assert_eq!(
        init_text(0, 0, 2),
        format!("{}{}int const param_offset = 0;", init(2), table)
    );
    assert_eq!(
        init_text(0, 3, 255),
        format!("{}{}int const param_offset = 0;{}", init(255), table, fill(3))
    );
}

#[test]
fn the_beginning_of_a_function_with_variable_arguments() {
    let table = "static TValue const ct_k[0] = {};";
    assert_eq!(
        init_text(1, 0, 7),
        format!("{}{}int const param_offset = cast_int(L->top - base);", init(7), table)
    );
    assert_eq!(
        init_text(2, 4, 7),
        format!(
            "{}{}int param_offset = cast_int(L->top - base);\n\n\
             if (param_offset < 4) {{\n\tparam_offset = 4;\n}}\n{}",
            init(7),
            table,
            fill(4)
        )
    );
}

fn function(index: usize, p: &Proto, body: &str) -> String {
    let mut w = Code::new();
    write_init(&mut w, p);
    format!("int lua_func_{}(lua_State* L) {{{}{}}}\n\n", index, render(&w), body)
}

#[test]
fn a_function_without_blocks_has_no_label() {
    let p = proto();
    let mut w = Code::new();
    let mut index = 0;
    write_function(&mut w, &mut index, &p).unwrap();
    assert_eq!(index, 0);
    assert_eq!(
        render(&w),
        format!(
            "int lua_func_0(lua_State* L) {{{}static TValue const ct_k[0] = {{}};\
             int const param_offset = 0;}}\n\n",
            init(2)
        )
    );
}

#[test]
fn functions_are_numbered_before_and_written_behind_those_nested_in_them() {
    let closure = |bx: u32| Inst { inner: (bx << 15) | 79 };
    let ret = op(Opcode::Return0);
    let mut grandchild = proto();
    grandchild.num_stack = 3;
    grandchild.block_list = vec![block(&[ret], Target::Label(1))];
    let mut first = proto();
    first.num_stack = 4;
    first.child_list = vec![grandchild];
    first.block_list = vec![block(&[closure(0), ret], Target::Label(1))];
    let mut second = proto();
    second.num_stack = 5;
    let mut root = proto();
    root.child_list = vec![first, second];
    root.block_list = vec![
        block(&[closure(1), op(Opcode::Jmp)], Target::Label(1)),
        block(&[closure(0), ret], Target::Label(2)),
    ];

    let mut w = Code::new();
    let mut index = 0;
    write_function(&mut w, &mut index, &root).unwrap();
    assert_eq!(index, 3);
    let want = [
        function(2, &root.child_list[0].child_list[0], "label_0:\nReturn0(0x00000047);"),
        function(
            1,
            &root.child_list[0],
            "label_0:\nClosure(0x0000004f, lua_func_2);Return0(0x00000047);",
        ),
        function(3, &root.child_list[1], ""),
        function(
            0,
            &root,
            "label_0:\nClosure(0x0000804f, lua_func_3);Jmp(0x00000038, label_1, label_1);\
             label_1:\nClosure(0x0000004f, lua_func_1);Return0(0x00000047);",
        ),
    ]
    .concat();
    assert_eq!(render(&w), want);

    let mut w = Code::new();
    let mut index = 10;
    write_function(&mut w, &mut index, &root.child_list[0]).unwrap();
    assert_eq!(index, 11);
    assert!(render(&w).contains("int lua_func_10(lua_State* L) {"));
    assert!(render(&w).contains("lua_func_11);"));
}

#[test]
fn a_failure_in_a_nested_function_comes_first() {
    let mut bad_child = proto();
    bad_child.block_list = vec![block(&[op(Opcode::Add)], Target::Label(1))];
    let mut root = proto();
    root.child_list = vec![proto(), bad_child];
    root.block_list = vec![block(&[op(Opcode::Jmp)], Target::Undefined(0))];
    let mut w = Code::new();
    let mut index = 0;
    assert_eq!(write_function(&mut w, &mut index, &root).unwrap_err(), GenError::MissingOperand);
    root.child_list.pop();
    let mut w = Code::new();
    let mut index = 0;
    assert_eq!(
        write_function(&mut w, &mut index, &root).unwrap_err(),
        GenError::UnsupportedControlFlow
    );
}

#[test]
fn functions_cannot_be_numbered_beyond_the_largest_number() {
    let mut root = proto();
    root.child_list = vec![proto()];
    let mut w = Code::new();
    let mut index = usize::MAX;
    assert_eq!(write_function(&mut w, &mut index, &root).unwrap_err(), GenError::TooManyFunctions);
    let mut w = Code::new();
    let mut index = usize::MAX - 1;
    assert!(write_function(&mut w, &mut index, &root).is_ok());
    assert_eq!(index, usize::MAX);
}

fn escaped(bytes: &[u8]) -> String {
    bytes.iter().map(|b| format!("\\x{:02X}", b)).collect()
}

#[test]
fn the_chunk_is_embedded_as_a_string() {
    let mut p = proto();
    p.value_list = vec![Value::String("\"\n".to_string()), Value::Number(0)];
    let dumped = dump_lua_module(&p).unwrap();
    let mut w = Code::new();
    write_call_site(&mut w, &p, b"load(BT_GLUE, `LENGTH`); /* `LENGTH` */").unwrap();
    assert_eq!(
        render(&w),
        format!(
            "char const* BT_GLUE = \"{}\";\n\nload(BT_GLUE, {}); /* {} */",
            escaped(&dumped),
            dumped.len(),
            dumped.len()
        )
    );
    assert!(render(&w).starts_with("char const* BT_GLUE = \"\\x1B\\x4C\\x75\\x61\\x54\\x00\\x19"));
}

#[test]
fn too_many_main_upvalues_fail_last() {
    let mut p = proto();
    p.upval_list =
        (0..256).map(|i| Upvalue { name: None, in_stack: true, index: i as u8 }).collect();
    let mut w = Code::new();
    assert_eq!(write_call_site(&mut w, &p, b"").unwrap_err(), GenError::TooManyUpvalues);
    assert_eq!(transpile(&p, &boilerplate("", "", "")).unwrap_err(), GenError::TooManyUpvalues);
    p.block_list = vec![block(&[op(Opcode::Jmp)], Target::Undefined(0))];
    assert_eq!(
        transpile(&p, &boilerplate("", "", "")).unwrap_err(),
        GenError::UnsupportedControlFlow
    );
}

#[test]
fn the_whole_text() {
    let mut p = proto();
    p.block_list = vec![block(&[op(Opcode::Return0)], Target::Label(1))];
    p.value_list = vec![Value::Number(0.25f64.to_bits())];
    let code = transpile(&p, &boilerplate("/* helpers */", "/* macros */", "/* `LENGTH` */")).unwrap();
    let dumped = dump_lua_module(&p).unwrap();
    assert_eq!(
        render(&code),
        format!(
            "/* helpers */\n/* macros */\n\
             int lua_func_0(lua_State* L) {{{}\
             static TValue const ct_k[1] = {{{{ {{ .n = 0.25 }}, LUA_VNUMFLT }},}};\
             int const param_offset = 0;\
             label_0:\nReturn0(0x00000047);}}\n\n\
             char const* BT_GLUE = \"{}\";\n\n/* {} */",
            init(2),
            escaped(&dumped),
            dumped.len()
        )
    );
}

const HEADER: [u8; 31] = [
    0x1B, 0x4C, 0x75, 0x61, 0x54, 0x00, 0x19, 0x93, 0x0D, 0x0A, 0x1A, 0x0A, 4, 8, 8, 0x78, 0x56,
    0, 0, 0, 0, 0, 0, 0, 0, 0, 0, 0, 0x28, 0x77, 0x40,
];

fn chunk(code: &[u32]) -> Vec<u8> {
    let mut out = HEADER.to_vec();
    out.push(0);
    out.extend_from_slice(&[0x80, 0x80, 0x80, 0, 0, 2]);
    out.push(0x80 | code.len() as u8);
    for word in code {
        out.extend_from_slice(&word.to_le_bytes());
    }
    out.extend_from_slice(&[0x80, 0x80, 0x80, 0x80, 0x80, 0x80, 0x80]);
    out
}

#[test]
fn a_chunk_with_nothing_in_it_gives_one_function() {
    let text = render(&transpile_data(&chunk(&[]), &boilerplate("", "", "")).unwrap());
    let reduced = chunk(&[71]);
    assert_eq!(
        text,
        format!(
            "\n\nint lua_func_0(lua_State* L) {{{}static TValue const ct_k[0] = {{}};\
             int const param_offset = 0;}}\n\n\
             char const* BT_GLUE = \"{}\";\n\n",
            init(2),
            escaped(&reduced)
        )
    );
    assert_eq!(text.matches("lua_func_").count(), 1);
    assert!(!text.contains("label_"));

    let text = render(&transpile_data(&chunk(&[71]), &boilerplate("", "", "")).unwrap());
    assert_eq!(text.matches("lua_func_").count(), 1);
    assert_eq!(text.matches("label_").count(), 1);
    assert!(text.contains("int const param_offset = 0;label_0:\nReturn0(0x00000047);}\n\n"));
}

#[test]
fn a_jump_behind_the_end_is_unsupported() {
    let templates = boilerplate("", "", "");
    // the jump at 0 leads behind the return at 1
    let jmp = |sj: i32| (((sj + 0xFF_FFFF) as u32) << 7) | 56;
    assert_eq!(
        transpile_data(&chunk(&[jmp(5), 71]), &templates).unwrap_err(),
        Failure::Gen(GenError::UnsupportedControlFlow)
    );
    // and so does a jump before the beginning
    assert_eq!(
        transpile_data(&chunk(&[0, jmp(-3), 71]), &templates).unwrap_err(),
        Failure::Gen(GenError::UnsupportedControlFlow)
    );
    // a jump to the end of the function gets the label behind the last block
    let text = render(&transpile_data(&chunk(&[jmp(1), 71]), &templates).unwrap());
    assert!(text.contains("label_0:\nJmp(0x80000038, label_2, label_1);label_1:\nReturn0("));
    // a return needs no label, wherever it would lead
    let text = render(&transpile_data(&chunk(&[71]), &templates).unwrap());
    assert!(text.contains("label_0:\nReturn0(0x00000047);}"));
}

#[test]
fn what_is_no_chunk_is_not_transpiled() {
    let templates = boilerplate("", "", "");
    assert_eq!(
        transpile_data(b"print('hello')", &templates).unwrap_err(),
        Failure::Load(LoadError::Incompatible)
    );
    let mut cut = chunk(&[71]);
    cut.pop();
    assert_eq!(transpile_data(&cut, &templates).unwrap_err(), Failure::Load(LoadError::Malformed));
    let mut long = chunk(&[71]);
    long.push(0);
    assert_eq!(transpile_data(&long, &templates).unwrap_err(), Failure::TrailingGarbage);
    // an addition at the end of a block, since the jump before it lands behind it
    assert_eq!(
        transpile_data(&chunk(&[0x8000_0038, 34, 71]), &templates).unwrap_err(),
        Failure::Gen(GenError::MissingOperand)
    );
    // instructions behind the last block are not written
    assert!(transpile_data(&chunk(&[34]), &templates).is_ok());
    // a closure of a function that is not there
    assert_eq!(
        transpile_data(&chunk(&[79, 71]), &templates).unwrap_err(),
        Failure::Gen(GenError::MissingChild)
    );
}
