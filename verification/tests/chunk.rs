use lean::common::number::LoadError;
use lean::common::types::{AbsLine, Block, Inst, Local, Proto, Target, Upvalue, Value};
use lean::dumper::{
    dump_constant, dump_dummy_inst, dump_function, dump_integer, dump_lua_header, dump_lua_module,
    dump_size_of, dump_string, dump_upval, DumpError,
};
use lean::loader::{
    load_abs_line_info, load_constant, load_function, load_instruction, load_local,
    load_lua_module, load_rel_line, load_string, load_string_opt, load_t, load_upvalue,
    verify_lua_header, verify_size_of,
};

const HEADER: [u8; 31] = [
    0x1B, 0x4C, 0x75, 0x61, 0x54, 0x00, 0x19, 0x93, 0x0D, 0x0A, 0x1A, 0x0A, 4, 8, 8, 0x78, 0x56,
    0, 0, 0, 0, 0, 0, 0, 0, 0, 0, 0, 0x28, 0x77, 0x40,
];

// One instruction, `Return0`, as a list.
const ONE_RETURN: [u8; 5] = [0x81, 71, 0, 0, 0];

fn count(v: u64) -> Vec<u8> {
    let mut groups = vec![(v & 0x7F) as u8 | 0x80];
    let mut rest = v >> 7;
    while rest != 0 {
        groups.insert(0, (rest & 0x7F) as u8);
        rest >>= 7;
    }
    groups
}

fn string(s: &[u8]) -> Vec<u8> {
    let mut out = count(s.len() as u64 + 1);
    out.extend_from_slice(s);
    out
}

fn list(items: &[Vec<u8>]) -> Vec<u8> {
    let mut out = count(items.len() as u64);
    for item in items {
        out.extend_from_slice(item);
    }
    out
}

fn join(parts: &[&[u8]]) -> Vec<u8> {
    parts.iter().flat_map(|p| p.iter().copied()).collect()
}

/// A function without a name, lines, parameters, constants, upvalues, nested
/// functions or anything for debugging, with `code` for its instructions.
fn plain_function(code: &[u32]) -> Vec<u8> {
    let words: Vec<Vec<u8>> = code.iter().map(|w| w.to_le_bytes().to_vec()).collect();
    join(&[
        &[0x80, 0x80, 0x80],
        &[0, 0, 2],
        &list(&words),
        &[0x80, 0x80, 0x80],
        &[0x80, 0x80, 0x80, 0x80],
    ])
}

fn plain_proto(code: &[u32]) -> Proto {
    Proto {
        source: None,
        is_vararg: 0,
        num_stack: 2,
        num_param: 0,
        line_defined: 0,
        last_line_defined: 0,
        value_list: vec![],
        block_list: vec![],
        child_list: vec![],
        upval_list: vec![],
        rel_line_list: vec![],
        abs_line_list: vec![],
        local_list: vec![],
    }
    .with_code(code)
}

trait WithCode {
    fn with_code(self, code: &[u32]) -> Self;
}

impl WithCode for Proto {
    fn with_code(mut self, code: &[u32]) -> Self {
        let code: Vec<Inst> = code.iter().map(|w| Inst { inner: *w }).collect();
        self.block_list = lean::splitter::Splitter::new().split(code);
        self
    }
}

fn return_block() -> Block {
    Block { code: vec![Inst { inner: 71 }], target: Target::Label(1) }
}

#[test]
fn header_is_the_fixed_one() {
    let mut w = Vec::new();
    dump_lua_header(&mut w);
    assert_eq!(w, HEADER.to_vec());
    let mut sentinel = Vec::new();
    sentinel.extend_from_slice(&0x5678i64.to_le_bytes());
    sentinel.extend_from_slice(&370.5f64.to_le_bytes());
    assert_eq!(&HEADER[15..], &sentinel[..]);
}

#[test]
fn header_is_accepted() {
    let input = join(&[&HEADER, &[1, 2, 3]]);
    let (rest, ()) = verify_lua_header(&input).unwrap();
    assert_eq!(rest, &[1, 2, 3]);
    assert!(verify_lua_header(&HEADER).unwrap().0.is_empty());
}

#[test]
fn any_other_header_is_incompatible() {
    for at in 0..HEADER.len() {
        let mut input = HEADER.to_vec();
        input[at] ^= 0x01;
        input.extend_from_slice(&[0, 0]);
        assert_eq!(verify_lua_header(&input).unwrap_err(), LoadError::Incompatible, "byte {}", at);
    }
    for len in 0..HEADER.len() {
        assert_eq!(
            verify_lua_header(&HEADER[..len]).unwrap_err(),
            LoadError::Incompatible,
            "length {}",
            len
        );
    }
}

#[test]
fn a_wrong_integer_in_the_header_is_incompatible() {
    let mut input = join(&[&HEADER, &[0], &plain_function(&[71])]);
    assert!(load_lua_module(&input).is_ok());
    input[15] = 0x79;
    assert_eq!(load_lua_module(&input).unwrap_err(), LoadError::Incompatible);
}

#[test]
fn widths_are_checked_against_the_types() {
    assert_eq!(verify_size_of::<u32>(&[4, 9]).unwrap(), (&[9u8][..], 4));
    assert_eq!(verify_size_of::<i64>(&[8]).unwrap().1, 8);
    assert_eq!(verify_size_of::<u8>(&[1]).unwrap().1, 1);
    assert_eq!(verify_size_of::<u32>(&[8]).unwrap_err(), LoadError::Incompatible);
    assert_eq!(verify_size_of::<i64>(&[4, 8]).unwrap_err(), LoadError::Incompatible);
    assert_eq!(verify_size_of::<u32>(&[]).unwrap_err(), LoadError::Malformed);
    let mut w = Vec::new();
    dump_size_of::<u32>(&mut w);
    dump_size_of::<i64>(&mut w);
    dump_size_of::<u16>(&mut w);
    assert_eq!(w, vec![4, 8, 2]);
}

#[test]
fn counts_must_fit_a_u32() {
    assert_eq!(load_t(&count(0)).unwrap().1, 0);
    assert_eq!(load_t(&count(u32::MAX as u64)).unwrap().1, u32::MAX);
    assert_eq!(load_t(&count(u32::MAX as u64 + 1)).unwrap_err(), LoadError::Malformed);
    assert_eq!(load_t(&[]).unwrap_err(), LoadError::Malformed);
}

#[test]
fn strings_have_their_length_and_one_before_them() {
    let input = join(&[&string(b"hello"), &[7]]);
    let (rest, s) = load_string_opt(&input).unwrap();
    assert_eq!(s.as_deref(), Some("hello"));
    assert_eq!(rest, &[7]);

    let (rest, s) = load_string_opt(&[0x80, 7]).unwrap();
    assert!(s.is_none());
    assert_eq!(rest, &[7]);

    let (_, s) = load_string_opt(&[0x81]).unwrap();
    assert_eq!(s.as_deref(), Some(""));

    assert_eq!(load_string_opt(&[0x83, b'a']).unwrap_err(), LoadError::Malformed);
    assert_eq!(load_string_opt(&[]).unwrap_err(), LoadError::Malformed);
}

#[test]
fn strings_that_are_not_utf8_are_read_with_replacements() {
    let (_, s) = load_string_opt(&string(&[b'a', 0xFF, b'b'])).unwrap();
    assert_eq!(s.as_deref(), Some("a\u{FFFD}b"));
    let (_, s) = load_string_opt(&string("gr\u{FC}n".as_bytes())).unwrap();
    assert_eq!(s.as_deref(), Some("gr\u{FC}n"));
}

#[test]
fn string_constants() {
    assert_eq!(load_string(&string(b"x")).unwrap().1, Value::String("x".to_string()));
    assert_eq!(load_string(&[0x80]).unwrap().1, Value::NoString);
}

#[test]
fn constants_of_every_kind() {
    assert_eq!(load_constant(&[0x00, 9]).unwrap(), (&[9u8][..], Value::Nil));
    assert_eq!(load_constant(&[0x01]).unwrap().1, Value::False);
    assert_eq!(load_constant(&[0x11]).unwrap().1, Value::True);
    let int = join(&[&[0x03], &(-5i64).to_le_bytes()]);
    assert_eq!(load_constant(&int).unwrap().1, Value::Integer(-5));
    let num = join(&[&[0x13], &1.5f64.to_le_bytes()]);
    assert_eq!(load_constant(&num).unwrap().1, Value::Number(1.5f64.to_bits()));
    let short = join(&[&[0x04], &string(b"ab")]);
    assert_eq!(load_constant(&short).unwrap().1, Value::String("ab".to_string()));
    let long = join(&[&[0x14], &string(b"ab")]);
    assert_eq!(load_constant(&long).unwrap().1, Value::String("ab".to_string()));
    assert_eq!(load_constant(&[0x04, 0x80]).unwrap().1, Value::NoString);
}

#[test]
fn constants_of_no_kind_are_malformed() {
    for tag in [0x02u8, 0x05, 0x10, 0x12, 0x15, 0x24, 0xFF] {
        assert_eq!(load_constant(&[tag, 0, 0]).unwrap_err(), LoadError::Malformed);
    }
    assert_eq!(load_constant(&[]).unwrap_err(), LoadError::Malformed);
    assert_eq!(load_constant(&[0x03, 1, 2, 3]).unwrap_err(), LoadError::Malformed);
    assert_eq!(load_constant(&[0x13, 1, 2, 3]).unwrap_err(), LoadError::Malformed);
    assert_eq!(load_constant(&[0x04]).unwrap_err(), LoadError::Malformed);
}

#[test]
fn small_items() {
    assert_eq!(load_instruction(&[71, 0, 0, 0, 5]).unwrap(), (&[5u8][..], Inst { inner: 71 }));
    assert_eq!(load_instruction(&[71, 0, 0]).unwrap_err(), LoadError::Malformed);

    let (rest, upv) = load_upvalue(&[1, 3, 9, 5]).unwrap();
    assert_eq!(upv, Upvalue { name: None, in_stack: true, index: 3 });
    assert_eq!(rest, &[5]);
    assert_eq!(load_upvalue(&[0, 7, 0]).unwrap().1, Upvalue { name: None, in_stack: false, index: 7 });
    assert_eq!(load_upvalue(&[2, 7, 0]).unwrap().1.in_stack, true);
    assert_eq!(load_upvalue(&[1, 3]).unwrap_err(), LoadError::Malformed);

    let line = join(&[&count(300), &count(12)]);
    assert_eq!(load_abs_line_info(&line).unwrap().1, AbsLine { pc: 300, line: 12 });
    assert_eq!(load_abs_line_info(&count(300)).unwrap_err(), LoadError::Malformed);

    let local = join(&[&string(b"i"), &count(1), &count(9)]);
    assert_eq!(
        load_local(&local).unwrap().1,
        Local { name: Some("i".to_string()), start_pc: 1, end_pc: 9 }
    );
    assert_eq!(load_local(&string(b"i")).unwrap_err(), LoadError::Malformed);

    assert_eq!(load_rel_line(&[0xFF, 1]).unwrap(), (&[1u8][..], -1));
    assert_eq!(load_rel_line(&[]).unwrap_err(), LoadError::Malformed);
}

#[test]
fn a_function_with_everything() {
    let child = plain_function(&[71]);
    let input = join(&[
        &string(b"@main.lua"),
        &count(3),
        &count(40),
        &[2, 1, 9],
        &list(&[56u32.to_le_bytes().to_vec(), 71u32.to_le_bytes().to_vec()]),
        &list(&[vec![0x01], join(&[&[0x04], &string(b"print")])]),
        &list(&[vec![1, 0, 0], vec![0, 4, 1], vec![1, 5, 0]]),
        &list(&[child.clone(), child]),
        &list(&[vec![1], vec![0xFE]]),
        &list(&[join(&[&count(0), &count(3)])]),
        &list(&[join(&[&string(b"a"), &count(0), &count(2)])]),
        &list(&[string(b"_ENV"), vec![0x80]]),
        &[0xAB],
    ]);
    let (rest, proto) = load_function(&input).unwrap();
    assert_eq!(rest, &[0xAB]);
    let mut nested = plain_proto(&[71]);
    nested.block_list = vec![return_block()];
    assert_eq!(
        proto,
        Proto {
            source: Some("@main.lua".to_string()),
            is_vararg: 1,
            num_stack: 9,
            num_param: 2,
            line_defined: 3,
            last_line_defined: 40,
            value_list: vec![Value::False, Value::String("print".to_string())],
            block_list: vec![
                // the jump leads to a place before the first instruction
                Block { code: vec![Inst { inner: 56 }], target: Target::Undefined(-0xFF_FFFF) },
                Block { code: vec![Inst { inner: 71 }], target: Target::Label(2) },
            ],
            child_list: vec![nested, {
                let mut other = plain_proto(&[71]);
                other.block_list = vec![return_block()];
                other
            }],
            upval_list: vec![
                Upvalue { name: Some("_ENV".to_string()), in_stack: true, index: 0 },
                Upvalue { name: None, in_stack: false, index: 4 },
                Upvalue { name: None, in_stack: true, index: 5 },
            ],
            rel_line_list: vec![1, -2],
            abs_line_list: vec![AbsLine { pc: 0, line: 3 }],
            local_list: vec![Local { name: Some("a".to_string()), start_pc: 0, end_pc: 2 }],
        }
    );
}

#[test]
fn names_beyond_the_upvalues_are_dropped() {
    let input = join(&[
        &[0x80, 0x80, 0x80],
        &[0, 0, 2],
        &ONE_RETURN,
        &[0x80],
        &list(&[vec![1, 0, 0]]),
        &[0x80],
        &[0x80, 0x80, 0x80],
        &list(&[string(b"a"), string(b"b")]),
    ]);
    let (_, proto) = load_function(&input).unwrap();
    assert_eq!(proto.upval_list, vec![Upvalue { name: Some("a".to_string()), in_stack: true, index: 0 }]);
}

#[test]
fn a_function_that_is_cut_short_is_malformed() {
    let whole = plain_function(&[71]);
    assert!(load_function(&whole).is_ok());
    for len in 0..whole.len() {
        assert_eq!(load_function(&whole[..len]).unwrap_err(), LoadError::Malformed, "length {}", len);
    }
}

#[test]
fn a_count_beyond_the_input_is_malformed() {
    let input = join(&[&[0x80, 0x80, 0x80], &[0, 0, 2], &count(1_000_000), &[71, 0, 0, 0]]);
    assert_eq!(load_function(&input).unwrap_err(), LoadError::Malformed);
}

#[test]
fn a_chunk_is_a_header_a_byte_and_a_function() {
    let input = join(&[&HEADER, &[1], &plain_function(&[71])]);
    let (rest, proto) = load_lua_module(&input).unwrap();
    assert!(rest.is_empty());
    let mut want = plain_proto(&[]);
    want.block_list = vec![return_block()];
    assert_eq!(proto, want);

    let trailing = join(&[&input, &[1, 2]]);
    assert_eq!(load_lua_module(&trailing).unwrap().0, &[1, 2]);

    assert_eq!(load_lua_module(&HEADER).unwrap_err(), LoadError::Malformed);
    let no_function = join(&[&HEADER, &[1]]);
    assert_eq!(load_lua_module(&no_function).unwrap_err(), LoadError::Malformed);
    assert_eq!(load_lua_module(&[]).unwrap_err(), LoadError::Incompatible);
    assert_eq!(load_lua_module(b"\x1bLua\x53\x00").unwrap_err(), LoadError::Incompatible);
}

#[test]
fn small_things_are_written() {
    let mut w = Vec::new();
    dump_integer(300, &mut w);
    assert_eq!(w, vec![0x02, 0xAC]);

    let mut w = Vec::new();
    dump_string("hello", &mut w);
    assert_eq!(w, string(b"hello"));

    let mut w = Vec::new();
    dump_dummy_inst(&mut w);
    assert_eq!(w, ONE_RETURN.to_vec());

    let mut w = Vec::new();
    dump_upval(&Upvalue { name: Some("x".to_string()), in_stack: true, index: 7 }, &mut w);
    dump_upval(&Upvalue { name: None, in_stack: false, index: 255 }, &mut w);
    assert_eq!(w, vec![1, 7, 0, 0, 255, 0]);
}

#[test]
fn numbers_are_written_as_nil() {
    let written = |v: Value| {
        let mut w = Vec::new();
        dump_constant(&v, &mut w);
        w
    };
    assert_eq!(written(Value::Nil), vec![0x00]);
    assert_eq!(written(Value::False), vec![0x01]);
    assert_eq!(written(Value::True), vec![0x11]);
    assert_eq!(written(Value::Integer(7)), vec![0x00]);
    assert_eq!(written(Value::Number(1.5f64.to_bits())), vec![0x00]);
    assert_eq!(written(Value::NoString), vec![0x04, 0x80]);
    assert_eq!(written(Value::String(String::new())), vec![0x04, 0x81]);
    assert_eq!(written(Value::String("ab".to_string())), join(&[&[0x04], &string(b"ab")]));
}

#[test]
fn what_was_read_is_read_back_reduced() {
    let function = join(&[
        &string(b"@f.lua"),
        &count(1),
        &count(2),
        &[1, 0, 3],
        &list(&[71u32.to_le_bytes().to_vec()]),
        &list(&[
            vec![0x01],
            vec![0x11],
            vec![0x00],
            join(&[&[0x03], &7i64.to_le_bytes()]),
            join(&[&[0x13], &2.5f64.to_le_bytes()]),
            join(&[&[0x14], &string(b"long")]),
            vec![0x04, 0x80],
        ]),
        &list(&[vec![1, 0, 0], vec![0, 9, 0]]),
        &list(&[plain_function(&[71]), plain_function(&[71])]),
        &[0x80, 0x80, 0x80],
        &list(&[string(b"_ENV")]),
    ]);
    let input = join(&[&HEADER, &[2], &function]);
    let (_, p) = load_lua_module(&input).unwrap();
    let d = dump_lua_module(&p).unwrap();
    let (rest, q) = load_lua_module(&d).unwrap();
    assert!(rest.is_empty());
    assert_eq!(
        q.value_list,
        vec![
            Value::False,
            Value::True,
            Value::Nil,
            Value::Nil,
            Value::Nil,
            Value::String("long".to_string()),
            Value::NoString,
        ]
    );
    assert_eq!(
        q.upval_list,
        vec![
            Upvalue { name: None, in_stack: true, index: 0 },
            Upvalue { name: None, in_stack: false, index: 9 },
        ]
    );
    assert_eq!(q.child_list.len(), p.child_list.len());
    assert_eq!((q.num_param, q.is_vararg, q.num_stack), (1, 0, 3));
    assert_eq!(q, reduced(&p));
}

#[test]
fn a_string_is_short_below_forty_bytes() {
    let written = |s: &str| {
        let mut w = Vec::new();
        dump_constant(&Value::String(s.to_string()), &mut w);
        w[0]
    };
    assert_eq!(written(&"x".repeat(39)), 0x04);
    assert_eq!(written(&"x".repeat(40)), 0x14);
    // the length counts bytes, not characters
    assert_eq!(written(&"\u{E9}".repeat(19)), 0x04);
    assert_eq!(written(&"\u{E9}".repeat(20)), 0x14);
}

#[test]
fn a_short_and_a_long_string_come_back() {
    let short = "12345".to_string();
    let long = "x".repeat(45);
    let mut proto = plain_proto(&[71]);
    proto.value_list = vec![Value::String(short.clone()), Value::String(long.clone())];
    let chunk = dump_lua_module(&proto).unwrap();
    let constants = join(&[
        &count(2),
        &[0x04],
        &string(short.as_bytes()),
        &[0x14],
        &string(long.as_bytes()),
    ]);
    assert!(chunk.windows(constants.len()).any(|w| w == &constants[..]));
    let (rest, back) = load_lua_module(&chunk).unwrap();
    assert!(rest.is_empty());
    assert_eq!(back.value_list, vec![Value::String(short), Value::String(long)]);
}

#[test]
fn a_function_is_written_without_its_body_and_its_debug_lists() {
    let mut proto = plain_proto(&[1, 2, 71]);
    proto.source = Some("@x".to_string());
    proto.line_defined = 5;
    proto.last_line_defined = 6;
    proto.num_param = 3;
    proto.is_vararg = 1;
    proto.num_stack = 8;
    proto.value_list = vec![Value::Integer(1), Value::NoString];
    proto.upval_list = vec![Upvalue { name: Some("u".to_string()), in_stack: true, index: 2 }];
    proto.child_list = vec![plain_proto(&[])];
    proto.rel_line_list = vec![1, 1, 1];
    proto.abs_line_list = vec![AbsLine { pc: 1, line: 1 }];
    proto.local_list = vec![Local { name: None, start_pc: 0, end_pc: 1 }];
    let mut w = vec![0xEE];
    dump_function(&proto, &mut w);
    let child = join(&[
        &[0x80, 0x80, 0x80],
        &[0, 0, 2],
        &ONE_RETURN,
        &[0x80, 0x80, 0x80],
        &[0x80, 0x80, 0x80, 0x80],
    ]);
    let want = join(&[
        &[0xEE],
        &[0x80, 0x80, 0x80],
        &[3, 1, 8],
        &ONE_RETURN,
        &list(&[vec![0x00], vec![0x04, 0x80]]),
        &list(&[vec![1, 2, 0]]),
        &list(&[child]),
        &[0x80, 0x80, 0x80, 0x80],
    ]);
    assert_eq!(w, want);
}

#[test]
fn a_chunk_is_written_with_the_number_of_the_main_upvalues() {
    let mut proto = plain_proto(&[71]);
    proto.upval_list = vec![
        Upvalue { name: None, in_stack: true, index: 0 },
        Upvalue { name: None, in_stack: false, index: 1 },
    ];
    let chunk = dump_lua_module(&proto).unwrap();
    assert_eq!(&chunk[..31], &HEADER[..]);
    assert_eq!(chunk[31], 2);
    let mut function = Vec::new();
    dump_function(&proto, &mut function);
    assert_eq!(&chunk[32..], &function[..]);
}

#[test]
fn more_than_255_main_upvalues_cannot_be_written() {
    let upvalue = |i: usize| Upvalue { name: None, in_stack: true, index: i as u8 };
    let mut proto = plain_proto(&[71]);
    proto.upval_list = (0..255).map(upvalue).collect();
    assert!(dump_lua_module(&proto).is_ok());
    proto.upval_list = (0..256).map(upvalue).collect();
    assert_eq!(dump_lua_module(&proto).unwrap_err(), DumpError::TooManyUpvalues);
    // a nested function may have as many as it likes
    let mut outer = plain_proto(&[71]);
    outer.child_list = vec![proto];
    assert!(dump_lua_module(&outer).is_ok());
}

#[test]
fn strings_of_any_length_that_there_is_fit() {
    assert!(Value::Nil.fits());
    assert!(Value::Number(u64::MAX).fits());
    assert!(Value::String(String::new()).fits());
    assert!(Value::String("x".repeat(100_000)).fits());
    let mut inner = plain_proto(&[71]);
    inner.value_list = vec![Value::String("abc".to_string()), Value::NoString];
    let mut outer = plain_proto(&[71]);
    outer.child_list = vec![plain_proto(&[]), inner];
    assert!(outer.fits());
}

fn reduced(proto: &Proto) -> Proto {
    Proto {
        source: None,
        is_vararg: proto.is_vararg,
        num_stack: proto.num_stack,
        num_param: proto.num_param,
        line_defined: 0,
        last_line_defined: 0,
        value_list: proto
            .value_list
            .iter()
            .map(|v| match v {
                Value::Integer(_) | Value::Number(_) => Value::Nil,
                kept => kept.clone(),
            })
            .collect(),
        block_list: vec![return_block()],
        child_list: proto.child_list.iter().map(reduced).collect(),
        upval_list: proto
            .upval_list
            .iter()
            .map(|u| Upvalue { name: None, in_stack: u.in_stack, index: u.index })
            .collect(),
        rel_line_list: vec![],
        abs_line_list: vec![],
        local_list: vec![],
    }
}

#[test]
fn what_is_written_is_read_back_reduced() {
    let mut leaf = plain_proto(&[3, 71]);
    leaf.source = Some("=leaf".to_string());
    leaf.value_list = vec![Value::String("gr\u{FC}n".to_string()), Value::Number(7)];
    leaf.upval_list = vec![Upvalue { name: Some("up".to_string()), in_stack: false, index: 9 }];
    let mut middle = plain_proto(&[56, 71]);
    middle.num_param = 4;
    middle.is_vararg = 1;
    middle.child_list = vec![leaf, plain_proto(&[])];
    middle.local_list = vec![Local { name: Some("l".to_string()), start_pc: 1, end_pc: 2 }];
    let mut root = plain_proto(&[71]);
    root.line_defined = 10;
    root.num_stack = 200;
    root.value_list = vec![
        Value::Nil,
        Value::True,
        Value::False,
        Value::Integer(i64::MIN),
        Value::NoString,
        Value::String("y".repeat(300)),
    ];
    root.upval_list = vec![Upvalue { name: Some("_ENV".to_string()), in_stack: true, index: 0 }];
    root.child_list = vec![plain_proto(&[71]), middle];
    root.rel_line_list = vec![0, 1];

    let mut chunk = dump_lua_module(&root).unwrap();
    chunk.extend_from_slice(&[0xDE, 0xAD]);
    let (rest, back) = load_lua_module(&chunk).unwrap();
    assert_eq!(rest, &[0xDE, 0xAD]);
    assert_eq!(back, reduced(&root));
    assert_eq!(
        back.value_list,
        vec![
            Value::Nil,
            Value::True,
            Value::False,
            Value::Nil,
            Value::NoString,
            Value::String("y".repeat(300)),
        ]
    );
    // and what was read is written as the same bytes again
    let again = dump_lua_module(&back).unwrap();
    assert_eq!(&chunk[..chunk.len() - 2], &again[..]);
}
