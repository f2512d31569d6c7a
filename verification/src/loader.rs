//! Reads a chunk into a prototype tree.

use crate::common::list::{lemma_many_len, lemma_many_none, many, views};
use crate::common::number::{
    le_bytes, le_value, lemma_le_bytes_len, lemma_le_bytes_of_value, lemma_le_round_trip,
    lemma_le_value_bound, load_unsigned, range, spec_load_unsigned, LoadError, Res, Serde,
};
use crate::common::types::{
    name_view, AbsLine, Constant, Inst, Instruction, Integer, Local, LocalView, Number, Proto,
    ProtoView, Upvalue, UpvalueView, Value, ValueView, LUA_DATA, LUA_INT, LUA_MAGIC, LUA_NUM,
};
use crate::dumper::{header_bytes, header_widths};
use crate::splitter::{spec_split, Splitter};
use vstd::layout::size_of;
use vstd::prelude::*;
use vstd::utf8::{decode_utf8, valid_utf8};

verus! {

/// The characters that `String::from_utf8_lossy` makes of bytes that are
/// not valid UTF-8.
pub uninterp spec fn utf8_lossy(bytes: Seq<u8>) -> Seq<char>;

/// The characters that bytes are read as: those that they encode, where
/// they are valid UTF-8.
pub open spec fn lossy_chars(bytes: Seq<u8>) -> Seq<char> {
    if valid_utf8(bytes) {
        decode_utf8(bytes)
    } else {
        utf8_lossy(bytes)
    }
}

/// `String::from_utf8_lossy`, with its result as a `String`.
///
/// Trusted: bytes that are valid UTF-8 are read as the characters that they
/// encode, and what is made of other bytes depends on the bytes alone.
#[verifier::external_body]
pub(crate) fn from_utf8_lossy(bytes: &[u8]) -> (s: String)
    ensures
        valid_utf8(bytes@) ==> s@ == decode_utf8(bytes@),
        !valid_utf8(bytes@) ==> s@ == utf8_lossy(bytes@),
{
    String::from_utf8_lossy(bytes).into_owned()
}

/// `nom::bytes::complete::take` on a byte slice.
///
/// Trusted: the parser fails where the input has fewer than `count` bytes,
/// and otherwise splits it behind its first `count` bytes.
#[verifier::external_body]
pub(crate) fn take(input: &[u8], count: usize) -> (r: Option<(&[u8], &[u8])>)
    ensures
        r is Some <==> count <= input@.len(),
        r is Some ==> r.unwrap().0@ == input@.skip(count as int),
        r is Some ==> r.unwrap().1@ == input@.take(count as int),
{
    match nom::bytes::complete::take::<usize, &[u8], nom::error::Error<&[u8]>>(count)(input) {
        Ok(found) => Some(found),
        Err(_) => None,
    }
}

/// Whether `s` begins with `p`.
pub open spec fn is_prefix(p: Seq<u8>, s: Seq<u8>) -> bool {
    p.len() <= s.len() && s.take(p.len() as int) == p
}

/// `nom::bytes::complete::tag` on byte slices.
///
/// Trusted: the parser succeeds where the input begins with `bytes`, and
/// then splits the input behind them.
#[verifier::external_body]
pub(crate) fn tag<'a>(input: &'a [u8], bytes: &[u8]) -> (r: Option<(&'a [u8], &'a [u8])>)
    ensures
        r is Some <==> is_prefix(bytes@, input@),
        r is Some ==> r.unwrap().0@ == input@.skip(bytes@.len() as int),
        r is Some ==> r.unwrap().1@ == bytes@,
{
    match nom::bytes::complete::tag::<&[u8], &[u8], nom::error::Error<&[u8]>>(bytes)(input) {
        Ok(found) => Some(found),
        Err(_) => None,
    }
}

/// Whether a decoder's result `r` on `input` is the one `expected`: what is
/// left and the value read, with `view` from the value read to its value in
/// contracts, or the failure to read one. What is left is shorter than `input`.
pub open spec fn reads<T, V>(
    r: Result<(&[u8], T), LoadError>,
    expected: Option<(Seq<u8>, V)>,
    view: spec_fn(T) -> V,
    input: Seq<u8>,
) -> bool {
    match expected {
        Some((rest, v)) => r matches Ok((left, item)) && left@ == rest && view(item) == v
            && rest.len() < input.len(),
        None => r matches Err(e) && e == LoadError::Malformed,
    }
}

/// What is left of `s` behind the count at its beginning, and the count;
/// `None` where there is none or it is greater than a `u32`.
pub open spec fn spec_load_t(s: Seq<u8>) -> Option<(Seq<u8>, u32)> {
    match spec_load_unsigned(s) {
        Some((rest, v)) => if v <= u32::MAX {
            Some((rest, v as u32))
        } else {
            None
        },
        None => None,
    }
}

/// Reads a count that a `u32` can hold.
pub fn load_t(input: &[u8]) -> (r: Res<'_, u32>)
    ensures
        reads(r, spec_load_t(input@), |v: u32| v, input@),
{
    match load_unsigned(input) {
        Ok((rest, v)) => {
            if v <= u32::MAX as u64 {
                Ok((rest, v as u32))
            } else {
                Err(LoadError::Malformed)
            }
        },
        Err(e) => Err(e),
    }
}

/// What is left of `s` behind the string at its beginning, and the string:
/// a length, and one byte fewer than the length says. The length zero
/// stands for no string.
pub open spec fn spec_load_string_opt(s: Seq<u8>) -> Option<(Seq<u8>, Option<Seq<char>>)> {
    match spec_load_t(s) {
        Some((rest, len)) => if len == 0 {
            Some((rest, None))
        } else if len - 1 <= rest.len() {
            Some((rest.skip(len - 1), Some(lossy_chars(rest.take(len - 1)))))
        } else {
            None
        },
        None => None,
    }
}

/// Reads a string that may be absent.
pub fn load_string_opt(input: &[u8]) -> (r: Res<'_, Option<String>>)
    ensures
        reads(r, spec_load_string_opt(input@), |name: Option<String>| name_view(name), input@),
{
    let (input, len) = match load_t(input) {
        Ok(found) => found,
        Err(e) => {
            return Err(e);
        },
    };
    if len == 0 {
        return Ok((input, None));
    }
    match take(input, (len - 1) as usize) {
        Some((input, inner)) => {
            let value = from_utf8_lossy(inner);
            Ok((input, Some(value)))
        },
        None => Err(LoadError::Malformed),
    }
}

/// A string constant as it is read: a string, or the absence of one.
pub open spec fn string_value(s: Option<Seq<char>>) -> ValueView {
    match s {
        Some(s) => ValueView::String(s),
        None => ValueView::NoString,
    }
}

/// What is left of `s` behind the string constant at its beginning, and the constant.
pub open spec fn spec_load_string(s: Seq<u8>) -> Option<(Seq<u8>, ValueView)> {
    match spec_load_string_opt(s) {
        Some((rest, name)) => Some((rest, string_value(name))),
        None => None,
    }
}

/// Reads a string constant.
pub fn load_string(input: &[u8]) -> (r: Res<'_, Value>)
    ensures
        reads(r, spec_load_string(input@), |v: Value| v@, input@),
{
    match load_string_opt(input) {
        Ok((rest, Some(s))) => Ok((rest, Value::String(s))),
        Ok((rest, None)) => Ok((rest, Value::NoString)),
        Err(e) => Err(e),
    }
}

/// What is left of `s` behind the list at its beginning, and the items of
/// the list: a count, then as many items, each as `one` reads it.
pub open spec fn spec_load_list<A>(
    s: Seq<u8>,
    one: spec_fn(Seq<u8>) -> Option<(Seq<u8>, A)>,
) -> Option<(Seq<u8>, Seq<A>)> {
    match spec_load_t(s) {
        Some((rest, count)) => many(rest, count as nat, one),
        None => None,
    }
}

/// Reads a list: a count, then as many items, each as `func` reads it.
pub(crate) fn load_list<'a, T, V, F>(
    input: &'a [u8],
    func: F,
    Ghost(one): Ghost<spec_fn(Seq<u8>) -> Option<(Seq<u8>, V)>>,
    Ghost(view): Ghost<spec_fn(T) -> V>,
) -> (r: Res<'a, Vec<T>>) where F: Fn(&'a [u8]) -> Res<'a, T>
    requires
        forall|x: &'a [u8]| call_requires(func, (x,)),
        forall|x: &'a [u8], r: Res<'a, T>|
            call_ensures(func, (x,), r) ==> reads(r, one(x@), view, x@),
    ensures
        reads(r, spec_load_list(input@, one), |list: Vec<T>| views(list@, view), input@),
        r matches Ok((_, list)) ==> list.len() <= u32::MAX,
{
    let (start, count) = match load_t(input) {
        Ok(found) => found,
        Err(e) => {
            return Err(e);
        },
    };
    let mut list: Vec<T> = Vec::new();
    let mut rest = start;
    let mut k: u32 = 0;
    proof {
        assert(views(list@, view) =~= Seq::<V>::empty());
    }
    while k < count
        invariant
            k <= count,
            forall|x: &'a [u8]| call_requires(func, (x,)),
            forall|x: &'a [u8], r: Res<'a, T>|
                call_ensures(func, (x,), r) ==> reads(r, one(x@), view, x@),
            spec_load_t(input@) == Some((start@, count)),
            start@.len() < input@.len(),
            many(start@, k as nat, one) == Some((rest@, views(list@, view))),
            rest@.len() <= start@.len(),
            list.len() == k,
        decreases count - k,
    {
        match func(rest) {
            Ok((after, item)) => {
                proof {
                    assert(views(list@.push(item), view) =~= views(list@, view).push(view(item)));
                }
                list.push(item);
                rest = after;
            },
            Err(e) => {
                proof {
                    lemma_many_none(start@, (k + 1) as nat, count as nat, one);
                }
                return Err(e);
            },
        }
        k += 1;
    }
    Ok((rest, list))
}

/// What is left of `s` behind the instruction at its beginning, and the instruction.
pub open spec fn spec_load_instruction(s: Seq<u8>) -> Option<(Seq<u8>, Inst)> {
    match u32::spec_deser(s) {
        Some((rest, inner)) => Some((rest, Inst { inner })),
        None => None,
    }
}

/// Reads an instruction.
pub fn load_instruction(input: &[u8]) -> (r: Res<'_, Inst>)
    ensures
        reads(r, spec_load_instruction(input@), |inst: Inst| inst, input@),
{
    proof {
        u32::lemma_deser_rest(input@);
    }
    match Instruction::deser(input) {
        Ok((rest, inner)) => Ok((rest, Inst { inner })),
        Err(e) => Err(e),
    }
}

/// What is left of `s` behind the constant at its beginning, and the
/// constant: a byte for its kind, and then what the kind asks for.
pub open spec fn spec_load_constant(s: Seq<u8>) -> Option<(Seq<u8>, ValueView)> {
    match u8::spec_deser(s) {
        Some((rest, tag)) => match Constant::of_tag(tag) {
            Some(Constant::Nil) => Some((rest, ValueView::Nil)),
            Some(Constant::False) => Some((rest, ValueView::False)),
            Some(Constant::True) => Some((rest, ValueView::True)),
            Some(Constant::Integer) => match i64::spec_deser(rest) {
                Some((rest, i)) => Some((rest, ValueView::Integer(i))),
                None => None,
            },
            Some(Constant::Number) => match u64::spec_deser(rest) {
                Some((rest, bits)) => Some((rest, ValueView::Number(bits))),
                None => None,
            },
            Some(Constant::ShortString) | Some(Constant::LongString) => spec_load_string(rest),
            None => None,
        },
        None => None,
    }
}

/// Reads a constant.
pub fn load_constant(input: &[u8]) -> (r: Res<'_, Value>)
    ensures
        reads(r, spec_load_constant(input@), |v: Value| v@, input@),
{
    let (input, tag) = u8::deser(input)?;
    proof {
        i64::lemma_deser_rest(input@);
        u64::lemma_deser_rest(input@);
    }
    match Constant::try_from(tag) {
        Some(Constant::Nil) => Ok((input, Value::Nil)),
        Some(Constant::False) => Ok((input, Value::False)),
        Some(Constant::True) => Ok((input, Value::True)),
        Some(Constant::Integer) => {
            let (input, i) = Integer::deser(input)?;
            Ok((input, Value::Integer(i)))
        },
        Some(Constant::Number) => {
            let (input, bits) = Number::deser(input)?;
            Ok((input, Value::Number(bits)))
        },
        Some(Constant::ShortString) | Some(Constant::LongString) => load_string(input),
        None => Err(LoadError::Malformed),
    }
}

/// What is left of `s` behind the upvalue at its beginning, and the
/// upvalue: a byte that is not zero where it is taken from the stack, its
/// index, and a byte for its kind, which is not kept. It has no name yet.
pub open spec fn spec_load_upvalue(s: Seq<u8>) -> Option<(Seq<u8>, UpvalueView)> {
    if s.len() >= 3 {
        Some((s.skip(3), UpvalueView { name: None, in_stack: s[0] != 0, index: s[1] }))
    } else {
        None
    }
}

/// Reads an upvalue.
pub fn load_upvalue(input: &[u8]) -> (r: Res<'_, Upvalue>)
    ensures
        reads(r, spec_load_upvalue(input@), |u: Upvalue| u@, input@),
{
    let ghost s = input@;
    let (input, in_stack) = u8::deser(input)?;
    let (input, index) = u8::deser(input)?;
    let (input, _) = u8::deser(input)?;
    proof {
        assert(input@ =~= s.skip(3));
    }
    let result = Upvalue { name: None, in_stack: in_stack != 0, index };
    Ok((input, result))
}

/// What is left of `s` behind the entry of the line table at its beginning,
/// and the entry: an instruction's place and a line.
pub open spec fn spec_load_abs_line_info(s: Seq<u8>) -> Option<(Seq<u8>, AbsLine)> {
    match spec_load_t(s) {
        Some((rest, pc)) => match spec_load_t(rest) {
            Some((rest, line)) => Some((rest, AbsLine { pc, line })),
            None => None,
        },
        None => None,
    }
}

/// Reads an entry of the line table.
pub fn load_abs_line_info(input: &[u8]) -> (r: Res<'_, AbsLine>)
    ensures
        reads(r, spec_load_abs_line_info(input@), |l: AbsLine| l, input@),
{
    let (input, pc) = load_t(input)?;
    let (input, line) = load_t(input)?;
    let result = AbsLine { pc, line };
    Ok((input, result))
}

/// What is left of `s` behind the local variable at its beginning, and the
/// variable: its name, and the first and the last place at which it is live.
pub open spec fn spec_load_local(s: Seq<u8>) -> Option<(Seq<u8>, LocalView)> {
    match spec_load_string_opt(s) {
        Some((rest, name)) => match spec_load_t(rest) {
            Some((rest, start_pc)) => match spec_load_t(rest) {
                Some((rest, end_pc)) => Some((rest, LocalView { name, start_pc, end_pc })),
                None => None,
            },
            None => None,
        },
        None => None,
    }
}

/// Reads a local variable.
pub fn load_local(input: &[u8]) -> (r: Res<'_, Local>)
    ensures
        reads(r, spec_load_local(input@), |l: Local| l@, input@),
{
    let (input, name) = load_string_opt(input)?;
    let (input, start_pc) = load_t(input)?;
    let (input, end_pc) = load_t(input)?;
    let result = Local { name, start_pc, end_pc };
    Ok((input, result))
}

/// What is left of `s` behind the line step at its beginning, and the step.
pub open spec fn spec_load_rel_line(s: Seq<u8>) -> Option<(Seq<u8>, i8)> {
    i8::spec_deser(s)
}

/// Reads a line step: how far the line of an instruction is from that of
/// the instruction before it.
pub fn load_rel_line(input: &[u8]) -> (r: Res<'_, i8>)
    ensures
        reads(r, spec_load_rel_line(input@), |step: i8| step, input@),
{
    proof {
        i8::lemma_deser_rest(input@);
    }
    i8::deser(input)
}

/// What stands in a function before the functions nested in it.
struct Head {
    source: Option<String>,
    line_defined: u32,
    last_line_defined: u32,
    num_param: u8,
    is_vararg: u8,
    num_stack: u8,
    inst_list: Vec<Inst>,
    value_list: Vec<Value>,
    upval_list: Vec<Upvalue>,
    children: u32,
}

/// What stands in a function before the functions nested in it: its name
/// and lines, the number of its parameters, whether it takes variable
/// arguments, the size of its frame, its instructions, constants and
/// upvalues, and the number of the functions nested in it.
pub struct HeadView {
    pub source: Option<Seq<char>>,
    pub line_defined: u32,
    pub last_line_defined: u32,
    pub num_param: u8,
    pub is_vararg: u8,
    pub num_stack: u8,
    pub inst_list: Seq<Inst>,
    pub value_list: Seq<ValueView>,
    pub upval_list: Seq<UpvalueView>,
    pub children: u32,
}

impl View for Head {
    type V = HeadView;

    closed spec fn view(&self) -> HeadView {
        HeadView {
            source: name_view(self.source),
            line_defined: self.line_defined,
            last_line_defined: self.last_line_defined,
            num_param: self.num_param,
            is_vararg: self.is_vararg,
            num_stack: self.num_stack,
            inst_list: self.inst_list@,
            value_list: views(self.value_list@, |v: Value| v@),
            upval_list: views(self.upval_list@, |u: Upvalue| u@),
            children: self.children,
        }
    }
}

/// What stands in a function behind the functions nested in it.
struct Tail {
    rel_line_list: Vec<i8>,
    abs_line_list: Vec<AbsLine>,
    local_list: Vec<Local>,
    name_list: Vec<Option<String>>,
}

/// What stands in a function behind the functions nested in it, all of it
/// for debugging: the line steps, the line table, the local variables and
/// the names of the upvalues.
pub struct TailView {
    pub rel_line_list: Seq<i8>,
    pub abs_line_list: Seq<AbsLine>,
    pub local_list: Seq<LocalView>,
    pub name_list: Seq<Option<Seq<char>>>,
}

impl View for Tail {
    type V = TailView;

    closed spec fn view(&self) -> TailView {
        TailView {
            rel_line_list: self.rel_line_list@,
            abs_line_list: self.abs_line_list@,
            local_list: views(self.local_list@, |l: Local| l@),
            name_list: views(self.name_list@, |name: Option<String>| name_view(name)),
        }
    }
}

/// What is left of `s` behind the three bytes at its beginning, and the bytes.
pub open spec fn spec_load_sizes(s: Seq<u8>) -> Option<(Seq<u8>, (u8, u8, u8))> {
    if s.len() >= 3 {
        Some((s.skip(3), (s[0], s[1], s[2])))
    } else {
        None
    }
}

/// What is left of `s` behind the first part of a function, and that part.
pub open spec fn spec_load_head(s: Seq<u8>) -> Option<(Seq<u8>, HeadView)> {
    match spec_load_string_opt(s) {
        None => None,
        Some((s1, source)) => match spec_load_t(s1) {
            None => None,
            Some((s2, line_defined)) => match spec_load_t(s2) {
                None => None,
                Some((s3, last_line_defined)) => match spec_load_sizes(s3) {
                    None => None,
                    Some((s4, sizes)) => match spec_load_list(
                        s4,
                        |x: Seq<u8>| spec_load_instruction(x),
                    ) {
                        None => None,
                        Some((s5, inst_list)) => match spec_load_list(
                            s5,
                            |x: Seq<u8>| spec_load_constant(x),
                        ) {
                            None => None,
                            Some((s6, value_list)) => match spec_load_list(
                                s6,
                                |x: Seq<u8>| spec_load_upvalue(x),
                            ) {
                                None => None,
                                Some((s7, upval_list)) => match spec_load_t(s7) {
                                    None => None,
                                    Some((s8, children)) => Some(
                                        (
                                            s8,
                                            HeadView {
                                                source,
                                                line_defined,
                                                last_line_defined,
                                                num_param: sizes.0,
                                                is_vararg: sizes.1,
                                                num_stack: sizes.2,
                                                inst_list,
                                                value_list,
                                                upval_list,
                                                children,
                                            },
                                        ),
                                    ),
                                },
                            },
                        },
                    },
                },
            },
        },
    }
}

/// What is left of `s` behind the last part of a function, and that part.
pub open spec fn spec_load_tail(s: Seq<u8>) -> Option<(Seq<u8>, TailView)> {
    match spec_load_list(s, |x: Seq<u8>| spec_load_rel_line(x)) {
        None => None,
        Some((s1, rel_line_list)) => match spec_load_list(
            s1,
            |x: Seq<u8>| spec_load_abs_line_info(x),
        ) {
            None => None,
            Some((s2, abs_line_list)) => match spec_load_list(
                s2,
                |x: Seq<u8>| spec_load_local(x),
            ) {
                None => None,
                Some((s3, local_list)) => match spec_load_list(
                    s3,
                    |x: Seq<u8>| spec_load_string_opt(x),
                ) {
                    None => None,
                    Some((s4, name_list)) => Some(
                        (s4, TailView { rel_line_list, abs_line_list, local_list, name_list }),
                    ),
                },
            },
        },
    }
}

/// The upvalues with their names: the first name for the first upvalue, and
/// so on, as far as there are both.
pub open spec fn named(upvals: Seq<UpvalueView>, names: Seq<Option<Seq<char>>>) -> Seq<
    UpvalueView,
> {
    Seq::new(
        upvals.len(),
        |i: int|
            if i < names.len() {
                UpvalueView { name: names[i], in_stack: upvals[i].in_stack, index: upvals[i].index }
            } else {
                upvals[i]
            },
    )
}

/// The function that is made of its parts. Its blocks are those of its instructions.
pub open spec fn proto_of(head: HeadView, children: Seq<ProtoView>, tail: TailView) -> ProtoView {
    ProtoView {
        source: head.source,
        is_vararg: head.is_vararg,
        num_stack: head.num_stack,
        num_param: head.num_param,
        line_defined: head.line_defined,
        last_line_defined: head.last_line_defined,
        value_list: head.value_list,
        block_list: spec_split(head.inst_list),
        child_list: children,
        upval_list: named(head.upval_list, tail.name_list),
        rel_line_list: tail.rel_line_list,
        abs_line_list: tail.abs_line_list,
        local_list: tail.local_list,
    }
}

/// What is left of `s` behind the function at its beginning, and the function.
pub open spec fn spec_load_function(s: Seq<u8>) -> Option<(Seq<u8>, ProtoView)>
    decreases s.len(), 0nat,
{
    match spec_load_head(s) {
        None => None,
        Some((s1, head)) => if s1.len() < s.len() {
            match spec_load_functions(s1, head.children as nat) {
                None => None,
                Some((s2, children)) => match spec_load_tail(s2) {
                    None => None,
                    Some((s3, tail)) => Some((s3, proto_of(head, children, tail))),
                },
            }
        } else {
            None
        },
    }
}

/// What is left of `s` behind the `count` functions at its beginning, and
/// the functions.
pub open spec fn spec_load_functions(s: Seq<u8>, count: nat) -> Option<(Seq<u8>, Seq<ProtoView>)>
    decreases s.len(), count + 1,
{
    if count == 0 {
        Some((s, Seq::empty()))
    } else {
        match spec_load_functions(s, (count - 1) as nat) {
            None => None,
            Some((s1, items)) => if s1.len() <= s.len() {
                match spec_load_function(s1) {
                    None => None,
                    Some((s2, item)) => Some((s2, items.push(item))),
                }
            } else {
                None
            },
        }
    }
}

/// Once one of the functions cannot be read, no greater count can be read either.
proof fn lemma_functions_none(s: Seq<u8>, count: nat, more: nat)
    requires
        count <= more,
        spec_load_functions(s, count) is None,
    ensures
        spec_load_functions(s, more) is None,
    decreases more,
{
    if more > count {
        lemma_functions_none(s, count, (more - 1) as nat);
    }
}

/// Reads the first part of a function.
fn load_head(input: &[u8]) -> (r: Res<'_, Head>)
    ensures
        reads(r, spec_load_head(input@), |h: Head| h@, input@),
        r matches Ok((_, head)) ==> head.inst_list.len() <= u32::MAX,
{
    let (input, source) = load_string_opt(input)?;
    let (input, line_defined) = load_t(input)?;
    let (input, last_line_defined) = load_t(input)?;
    let ghost s3 = input@;
    let (input, num_param) = u8::deser(input)?;
    let (input, is_vararg) = u8::deser(input)?;
    let (input, num_stack) = u8::deser(input)?;
    proof {
        assert(input@ =~= s3.skip(3));
    }
    let ghost one_inst = |x: Seq<u8>| spec_load_instruction(x);
    let ghost one_value = |x: Seq<u8>| spec_load_constant(x);
    let ghost one_upval = |x: Seq<u8>| spec_load_upvalue(x);
    let ghost view_inst = |inst: Inst| inst;
    let ghost view_value = |v: Value| v@;
    let ghost view_upval = |u: Upvalue| u@;
    let (input, inst_list) = load_list::<Inst, Inst, _>(
        input,
        load_instruction,
        Ghost(one_inst),
        Ghost(view_inst),
    )?;
    let (input, value_list) = load_list::<Value, ValueView, _>(
        input,
        load_constant,
        Ghost(one_value),
        Ghost(view_value),
    )?;
    let (input, upval_list) = load_list::<Upvalue, UpvalueView, _>(
        input,
        load_upvalue,
        Ghost(one_upval),
        Ghost(view_upval),
    )?;
    let (input, children) = load_t(input)?;
    proof {
        assert(views(inst_list@, view_inst) =~= inst_list@);
    }
    let head = Head {
        source,
        line_defined,
        last_line_defined,
        num_param,
        is_vararg,
        num_stack,
        inst_list,
        value_list,
        upval_list,
        children,
    };
    Ok((input, head))
}

/// Reads the last part of a function.
fn load_tail(input: &[u8]) -> (r: Res<'_, Tail>)
    ensures
        reads(r, spec_load_tail(input@), |t: Tail| t@, input@),
{
    let ghost one_step = |x: Seq<u8>| spec_load_rel_line(x);
    let ghost one_line = |x: Seq<u8>| spec_load_abs_line_info(x);
    let ghost one_local = |x: Seq<u8>| spec_load_local(x);
    let ghost one_name = |x: Seq<u8>| spec_load_string_opt(x);
    let ghost view_step = |step: i8| step;
    let ghost view_line = |l: AbsLine| l;
    let ghost view_local = |l: Local| l@;
    let ghost view_name = |name: Option<String>| name_view(name);
    let (input, rel_line_list) = load_list::<i8, i8, _>(
        input,
        load_rel_line,
        Ghost(one_step),
        Ghost(view_step),
    )?;
    let (input, abs_line_list) = load_list::<AbsLine, AbsLine, _>(
        input,
        load_abs_line_info,
        Ghost(one_line),
        Ghost(view_line),
    )?;
    let (input, local_list) = load_list::<Local, LocalView, _>(
        input,
        load_local,
        Ghost(one_local),
        Ghost(view_local),
    )?;
    let (input, name_list) = load_list::<Option<String>, Option<Seq<char>>, _>(
        input,
        load_string_opt,
        Ghost(one_name),
        Ghost(view_name),
    )?;
    proof {
        assert(views(rel_line_list@, view_step) =~= rel_line_list@);
        assert(views(abs_line_list@, view_line) =~= abs_line_list@);
    }
    let tail = Tail { rel_line_list, abs_line_list, local_list, name_list };
    Ok((input, tail))
}

/// A name that may be absent, once more.
fn clone_name(name: &Option<String>) -> (r: Option<String>)
    ensures
        name_view(r) == name_view(*name),
{
    match name {
        Some(s) => Some(s.clone()),
        None => None,
    }
}

/// Gives the upvalues their names, the first name to the first upvalue.
fn name_upvalues(upval_list: Vec<Upvalue>, name_list: &Vec<Option<String>>) -> (r: Vec<Upvalue>)
    ensures
        views(r@, |u: Upvalue| u@) == named(
            views(upval_list@, |u: Upvalue| u@),
            views(name_list@, |name: Option<String>| name_view(name)),
        ),
{
    let mut result: Vec<Upvalue> = Vec::new();
    let mut i: usize = 0;
    while i < upval_list.len()
        invariant
            i <= upval_list.len(),
            result.len() == i,
            forall|k: int|
                0 <= k < i ==> (#[trigger] result@[k])@ == named(
                    views(upval_list@, |u: Upvalue| u@),
                    views(name_list@, |name: Option<String>| name_view(name)),
                )[k],
        decreases upval_list.len() - i,
    {
        let upv = &upval_list[i];
        let name = if i < name_list.len() {
            clone_name(&name_list[i])
        } else {
            clone_name(&upv.name)
        };
        result.push(Upvalue { name, in_stack: upv.in_stack, index: upv.index });
        i += 1;
    }
    proof {
        assert(views(result@, |u: Upvalue| u@) =~= named(
            views(upval_list@, |u: Upvalue| u@),
            views(name_list@, |name: Option<String>| name_view(name)),
        ));
    }
    result
}

/// What a list of functions is.
pub open spec fn proto_views(list: Seq<Proto>) -> Seq<ProtoView> {
    Seq::new(list.len(), |i: int| list[i]@)
}

/// Reads `count` functions.
fn load_functions(input: &[u8], count: u32) -> (r: Res<'_, Vec<Proto>>)
    ensures
        match spec_load_functions(input@, count as nat) {
            Some((rest, items)) => r matches Ok((left, list)) && left@ == rest && proto_views(list@)
                == items && rest.len() <= input@.len(),
            None => r matches Err(e) && e == LoadError::Malformed,
        },
    decreases input@.len(), 1nat,
{
    let mut list: Vec<Proto> = Vec::new();
    let mut rest = input;
    let mut k: u32 = 0;
    proof {
        assert(proto_views(list@) =~= Seq::<ProtoView>::empty());
    }
    while k < count
        invariant
            k <= count,
            spec_load_functions(input@, k as nat) == Some((rest@, proto_views(list@))),
            rest@.len() <= input@.len(),
        decreases count - k,
    {
        match load_function(rest) {
            Ok((after, item)) => {
                proof {
                    assert(proto_views(list@.push(item)) =~= proto_views(list@).push(item@));
                }
                list.push(item);
                rest = after;
            },
            Err(e) => {
                proof {
                    lemma_functions_none(input@, (k + 1) as nat, count as nat);
                }
                return Err(e);
            },
        }
        k += 1;
    }
    Ok((rest, list))
}

/// Reads a function, with the functions nested in it, and cuts its
/// instructions into blocks.
pub fn load_function(input: &[u8]) -> (r: Res<'_, Proto>)
    ensures
        reads(r, spec_load_function(input@), |p: Proto| p@, input@),
    decreases input@.len(), 0nat,
{
    let (rest, head) = load_head(input)?;
    let ghost h = head@;
    let (rest, child_list) = load_functions(rest, head.children)?;
    let (rest, tail) = load_tail(rest)?;
    let ghost t = tail@;
    let Head {
        source,
        line_defined,
        last_line_defined,
        num_param,
        is_vararg,
        num_stack,
        inst_list,
        value_list,
        upval_list,
        children,
    } = head;
    let Tail { rel_line_list, abs_line_list, local_list, name_list } = tail;
    let block_list = Splitter::new().split(inst_list);
    let upval_list = name_upvalues(upval_list, &name_list);
    let result = Proto {
        source,
        is_vararg,
        num_stack,
        num_param,
        line_defined,
        last_line_defined,
        value_list,
        block_list,
        child_list,
        upval_list,
        rel_line_list,
        abs_line_list,
        local_list,
    };
    proof {
        result.lemma_view();
        let want = proto_of(h, proto_views(child_list@), t);
        assert(result@.value_list =~= want.value_list);
        assert(result@.block_list =~= want.block_list);
        assert(result@.child_list =~= want.child_list);
        assert(result@.upval_list =~= want.upval_list);
        assert(result@.local_list =~= want.local_list);
        assert(result@ == want);
    }
    Ok((rest, result))
}

/// What is left of `s` behind the byte at its beginning, and the byte,
/// where the byte is the width of `T` in bytes. Another width is that of an
/// incompatible format; no byte at all is a malformed input.
pub open spec fn spec_verify_size_of<T>(s: Seq<u8>) -> Result<(Seq<u8>, u8), LoadError> {
    match u8::spec_deser(s) {
        Some((rest, width)) => if size_of::<T>() == width {
            Ok((rest, width))
        } else {
            Err(LoadError::Incompatible)
        },
        None => Err(LoadError::Malformed),
    }
}

/// Reads a byte and accepts it where it is the width of `T` in bytes.
pub fn verify_size_of<T>(input: &[u8]) -> (r: Res<'_, u8>)
    ensures
        match spec_verify_size_of::<T>(input@) {
            Ok((rest, width)) => r matches Ok((left, found)) && left@ == rest && found == width,
            Err(e) => r matches Err(found) && found == e,
        },
{
    let (rest, width) = u8::deser(input)?;
    if core::mem::size_of::<T>() == width as usize {
        Ok((rest, width))
    } else {
        Err(LoadError::Incompatible)
    }
}

/// A text begins with two parts, one after the other, where it begins with
/// the first and goes on with the second.
pub proof fn lemma_prefix_add(a: Seq<u8>, b: Seq<u8>, s: Seq<u8>)
    ensures
        is_prefix(a + b, s) <==> is_prefix(a, s) && is_prefix(b, s.skip(a.len() as int)),
{
    if is_prefix(a + b, s) {
        assert(s.take(a.len() as int) =~= (a + b).take(a.len() as int));
        assert((a + b).take(a.len() as int) =~= a);
        assert(s.skip(a.len() as int).take(b.len() as int) =~= s.take((a + b).len() as int).skip(
            a.len() as int,
        ));
        assert((a + b).skip(a.len() as int) =~= b);
    }
    if is_prefix(a, s) && is_prefix(b, s.skip(a.len() as int)) {
        assert(s.take((a + b).len() as int) =~= s.take(a.len() as int) + s.skip(
            a.len() as int,
        ).take(b.len() as int));
    }
}

/// Eight bytes hold a given number exactly where they are the bytes of it.
proof fn lemma_holds(bytes: Seq<u8>, v: u64)
    requires
        bytes.len() == 8,
    ensures
        le_value(bytes) == v <==> bytes == le_bytes(v as nat, 8),
{
    lemma_le_bytes_of_value(bytes);
    lemma_le_round_trip(v as nat, 8);
    assert(range(8) == 0x1_0000_0000_0000_0000) by {
        reveal_with_fuel(range, 9);
    }
}

/// Reads the header of a chunk, and accepts the one that this crate writes.
pub fn verify_lua_header(input: &[u8]) -> (r: Res<'_, ()>)
    ensures
        r is Ok <==> is_prefix(header_bytes(), input@),
        r matches Ok((rest, _)) ==> rest@ == input@.skip(header_bytes().len() as int),
        r matches Err(e) ==> e == LoadError::Incompatible,
{
    broadcast use vstd::layout::layout_of_primitives;

    let ghost s = input@;
    let ghost m = LUA_MAGIC@;
    let ghost d = LUA_DATA@;
    let ghost z = header_widths();
    let ghost i = LUA_INT.spec_ser();
    let ghost n = LUA_NUM.spec_ser();
    proof {
        lemma_le_bytes_len((LUA_INT as u64) as nat, 8);
        lemma_le_bytes_len(LUA_NUM as nat, 8);
        lemma_prefix_add(m + d + z + i, n, s);
        lemma_prefix_add(m + d + z, i, s);
        lemma_prefix_add(m + d, z, s);
        lemma_prefix_add(m, d, s);
        assert(header_bytes() == m + d + z + i + n);
    }
    let r1 = match tag(input, LUA_MAGIC.as_slice()) {
        Some((rest, _)) => rest,
        None => {
            return Err(LoadError::Incompatible);
        },
    };
    let r2 = match tag(r1, LUA_DATA.as_slice()) {
        Some((rest, _)) => rest,
        None => {
            return Err(LoadError::Incompatible);
        },
    };
    proof {
        assert(r2@ =~= s.skip((m + d).len() as int));
        if is_prefix(z, r2@) {
            assert(r2@.take(3) == z);
            assert(r2@[0] == r2@.take(3)[0]);
            assert(r2@[1] == r2@.take(3)[1]);
            assert(r2@[2] == r2@.take(3)[2]);
        }
    }
    let r3 = match verify_size_of::<Instruction>(r2) {
        Ok((rest, _)) => rest,
        Err(_) => {
            return Err(LoadError::Incompatible);
        },
    };
    let r4 = match verify_size_of::<Integer>(r3) {
        Ok((rest, _)) => rest,
        Err(_) => {
            return Err(LoadError::Incompatible);
        },
    };
    let r5 = match verify_size_of::<Number>(r4) {
        Ok((rest, _)) => rest,
        Err(_) => {
            return Err(LoadError::Incompatible);
        },
    };
    proof {
        assert(r2@.take(3) =~= z);
        assert(r5@ =~= s.skip((m + d + z).len() as int));
        if r5@.len() >= 8 {
            lemma_holds(r5@.take(8), LUA_INT as u64);
        }
    }
    let r6 = match Integer::deser(r5) {
        Ok((rest, v)) => {
            proof {
                let raw = le_value(r5@.take(8)) as u64;
                lemma_le_value_bound(r5@.take(8));
                assert(range(8) == 0x1_0000_0000_0000_0000) by {
                    reveal_with_fuel(range, 9);
                }
                assert(raw as i64 == 0x5678i64 <==> raw == 0x5678u64) by (bit_vector);
            }
            if v == LUA_INT {
                rest
            } else {
                return Err(LoadError::Incompatible);
            }
        },
        Err(_) => {
            return Err(LoadError::Incompatible);
        },
    };
    proof {
        assert(r6@ =~= s.skip((m + d + z + i).len() as int));
        if r6@.len() >= 8 {
            lemma_holds(r6@.take(8), LUA_NUM);
            lemma_le_value_bound(r6@.take(8));
            assert(range(8) == 0x1_0000_0000_0000_0000) by {
                reveal_with_fuel(range, 9);
            }
        }
    }
    let r7 = match Number::deser(r6) {
        Ok((rest, v)) => {
            if v == LUA_NUM {
                rest
            } else {
                return Err(LoadError::Incompatible);
            }
        },
        Err(_) => {
            return Err(LoadError::Incompatible);
        },
    };
    proof {
        assert(r7@ =~= s.skip(header_bytes().len() as int));
    }
    Ok((r7, ()))
}

/// What is left of `s` behind the chunk at its beginning, and the main
/// function of the chunk: the header, a byte for the number of the main
/// function's upvalues, which is not looked at, and the main function.
pub open spec fn spec_load_lua_module(s: Seq<u8>) -> Result<(Seq<u8>, ProtoView), LoadError> {
    if !is_prefix(header_bytes(), s) {
        Err(LoadError::Incompatible)
    } else {
        match u8::spec_deser(s.skip(header_bytes().len() as int)) {
            None => Err(LoadError::Malformed),
            Some((rest, _)) => match spec_load_function(rest) {
                None => Err(LoadError::Malformed),
                Some(found) => Ok(found),
            },
        }
    }
}

/// Reads a chunk: gives its main function and the bytes behind the chunk.
///
/// The chunk is incompatible where it does not begin with the header that
/// this crate writes, and malformed where what follows is no function.
pub fn load_lua_module(input: &[u8]) -> (r: Res<'_, Proto>)
    ensures
        match spec_load_lua_module(input@) {
            Ok((rest, p)) => r matches Ok((left, proto)) && left@ == rest && proto@ == p,
            Err(e) => r matches Err(found) && found == e,
        },
        r matches Ok((left, _)) ==> is_suffix(left@, input@) && left@.len() < input@.len(),
        r matches Ok((_, proto)) ==> proto@.counted(),
{
    proof {
        lemma_module_end(input@);
        if is_prefix(header_bytes(), input@) {
            if let Some((rest, _)) = u8::spec_deser(input@.skip(header_bytes().len() as int)) {
                lemma_function_counted(rest);
            }
        }
    }
    let (input, _) = verify_lua_header(input)?;
    let (input, _) = u8::deser(input)?;
    load_function(input)
}

/// Whether `rest` is the end of `s`.
pub open spec fn is_suffix(rest: Seq<u8>, s: Seq<u8>) -> bool {
    rest.len() <= s.len() && rest == s.skip(s.len() - rest.len())
}

/// Whether what a decoder leaves of `s` is the end of `s`.
pub open spec fn leaves_end<A>(r: Option<(Seq<u8>, A)>, s: Seq<u8>) -> bool {
    r matches Some((rest, _)) ==> is_suffix(rest, s)
}

/// The end of the end of a text is an end of the text.
proof fn lemma_suffix(a: Seq<u8>, b: Seq<u8>, c: Seq<u8>)
    requires
        is_suffix(a, b),
        is_suffix(b, c),
    ensures
        is_suffix(a, c),
{
    assert(a =~= c.skip(c.len() - a.len()));
}

/// A text without its first bytes is an end of the text.
proof fn lemma_skip(s: Seq<u8>, k: int)
    requires
        0 <= k <= s.len(),
    ensures
        is_suffix(s.skip(k), s),
{
}

proof fn lemma_t_end(s: Seq<u8>)
    ensures
        leaves_end(spec_load_t(s), s),
{
}

proof fn lemma_string_opt_end(s: Seq<u8>)
    ensures
        leaves_end(spec_load_string_opt(s), s),
{
    if let Some((rest, len)) = spec_load_t(s) {
        lemma_t_end(s);
        if len != 0 && len - 1 <= rest.len() {
            lemma_skip(rest, len - 1);
            lemma_suffix(rest.skip(len - 1), rest, s);
        }
    }
}

proof fn lemma_constant_end(s: Seq<u8>)
    ensures
        leaves_end(spec_load_constant(s), s),
{
    if let Some((rest, _)) = u8::spec_deser(s) {
        lemma_skip(s, 1);
        lemma_string_opt_end(rest);
        if let Some((after, _)) = spec_load_string(rest) {
            lemma_suffix(after, rest, s);
        }
        if let Some((after, _)) = i64::spec_deser(rest) {
            lemma_skip(rest, 8);
            lemma_suffix(after, rest, s);
        }
        if let Some((after, _)) = u64::spec_deser(rest) {
            lemma_skip(rest, 8);
            lemma_suffix(after, rest, s);
        }
    }
}

proof fn lemma_abs_line_info_end(s: Seq<u8>)
    ensures
        leaves_end(spec_load_abs_line_info(s), s),
{
    if let Some((s1, _)) = spec_load_t(s) {
        lemma_t_end(s);
        if let Some((s2, _)) = spec_load_t(s1) {
            lemma_t_end(s1);
            lemma_suffix(s2, s1, s);
        }
    }
}

proof fn lemma_local_end(s: Seq<u8>)
    ensures
        leaves_end(spec_load_local(s), s),
{
    if let Some((s1, _)) = spec_load_string_opt(s) {
        lemma_string_opt_end(s);
        if let Some((s2, _)) = spec_load_t(s1) {
            lemma_t_end(s1);
            lemma_suffix(s2, s1, s);
            if let Some((s3, _)) = spec_load_t(s2) {
                lemma_t_end(s2);
                lemma_suffix(s3, s2, s);
            }
        }
    }
}

proof fn lemma_many_end<A>(s: Seq<u8>, count: nat, one: spec_fn(Seq<u8>) -> Option<(Seq<u8>, A)>)
    requires
        forall|x: Seq<u8>| leaves_end(#[trigger] one(x), x),
    ensures
        leaves_end(many(s, count, one), s),
    decreases count,
{
    assert(s.skip(0) =~= s);
    if count > 0 {
        lemma_many_end(s, (count - 1) as nat, one);
        if let Some((s1, _)) = many(s, (count - 1) as nat, one) {
            if let Some((s2, _)) = one(s1) {
                assert(leaves_end(one(s1), s1));
                lemma_suffix(s2, s1, s);
            }
        }
    }
}

proof fn lemma_list_end<A>(s: Seq<u8>, one: spec_fn(Seq<u8>) -> Option<(Seq<u8>, A)>)
    requires
        forall|x: Seq<u8>| leaves_end(#[trigger] one(x), x),
    ensures
        leaves_end(spec_load_list(s, one), s),
{
    if let Some((s1, count)) = spec_load_t(s) {
        lemma_t_end(s);
        lemma_many_end(s1, count as nat, one);
        if let Some((s2, _)) = many(s1, count as nat, one) {
            lemma_suffix(s2, s1, s);
        }
    }
}

proof fn lemma_head_end(s: Seq<u8>)
    ensures
        leaves_end(spec_load_head(s), s),
{
    let one_inst = |x: Seq<u8>| spec_load_instruction(x);
    let one_value = |x: Seq<u8>| spec_load_constant(x);
    let one_upval = |x: Seq<u8>| spec_load_upvalue(x);
    assert forall|x: Seq<u8>| leaves_end(#[trigger] one_inst(x), x) by {}
    assert forall|x: Seq<u8>| leaves_end(#[trigger] one_value(x), x) by {
        lemma_constant_end(x);
    }
    assert forall|x: Seq<u8>| leaves_end(#[trigger] one_upval(x), x) by {}
    if let Some((s1, _)) = spec_load_string_opt(s) {
        lemma_string_opt_end(s);
        if let Some((s2, _)) = spec_load_t(s1) {
            lemma_t_end(s1);
            lemma_suffix(s2, s1, s);
            if let Some((s3, _)) = spec_load_t(s2) {
                lemma_t_end(s2);
                lemma_suffix(s3, s2, s);
                if let Some((s4, _)) = spec_load_sizes(s3) {
                    lemma_suffix(s4, s3, s);
                    if let Some((s5, _)) = spec_load_list(s4, one_inst) {
                        lemma_list_end(s4, one_inst);
                        lemma_suffix(s5, s4, s);
                        if let Some((s6, _)) = spec_load_list(s5, one_value) {
                            lemma_list_end(s5, one_value);
                            lemma_suffix(s6, s5, s);
                            if let Some((s7, _)) = spec_load_list(s6, one_upval) {
                                lemma_list_end(s6, one_upval);
                                lemma_suffix(s7, s6, s);
                                if let Some((s8, _)) = spec_load_t(s7) {
                                    lemma_t_end(s7);
                                    lemma_suffix(s8, s7, s);
                                }
                            }
                        }
                    }
                }
            }
        }
    }
}

proof fn lemma_tail_end(s: Seq<u8>)
    ensures
        leaves_end(spec_load_tail(s), s),
{
    let one_step = |x: Seq<u8>| spec_load_rel_line(x);
    let one_line = |x: Seq<u8>| spec_load_abs_line_info(x);
    let one_local = |x: Seq<u8>| spec_load_local(x);
    let one_name = |x: Seq<u8>| spec_load_string_opt(x);
    assert forall|x: Seq<u8>| leaves_end(#[trigger] one_step(x), x) by {}
    assert forall|x: Seq<u8>| leaves_end(#[trigger] one_line(x), x) by {
        lemma_abs_line_info_end(x);
    }
    assert forall|x: Seq<u8>| leaves_end(#[trigger] one_local(x), x) by {
        lemma_local_end(x);
    }
    assert forall|x: Seq<u8>| leaves_end(#[trigger] one_name(x), x) by {
        lemma_string_opt_end(x);
    }
    if let Some((s1, _)) = spec_load_list(s, one_step) {
        lemma_list_end(s, one_step);
        if let Some((s2, _)) = spec_load_list(s1, one_line) {
            lemma_list_end(s1, one_line);
            lemma_suffix(s2, s1, s);
            if let Some((s3, _)) = spec_load_list(s2, one_local) {
                lemma_list_end(s2, one_local);
                lemma_suffix(s3, s2, s);
                if let Some((s4, _)) = spec_load_list(s3, one_name) {
                    lemma_list_end(s3, one_name);
                    lemma_suffix(s4, s3, s);
                }
            }
        }
    }
}

/// What is left behind a function is the end of the input.
pub proof fn lemma_function_end(s: Seq<u8>)
    ensures
        leaves_end(spec_load_function(s), s),
    decreases s.len(), 0nat,
{
    if let Some((s1, head)) = spec_load_head(s) {
        lemma_head_end(s);
        if s1.len() < s.len() {
            if let Some((s2, _)) = spec_load_functions(s1, head.children as nat) {
                lemma_functions_end(s1, head.children as nat);
                lemma_suffix(s2, s1, s);
                if let Some((s3, _)) = spec_load_tail(s2) {
                    lemma_tail_end(s2);
                    lemma_suffix(s3, s2, s);
                }
            }
        }
    }
}

/// What is left behind a number of functions is the end of the input.
pub proof fn lemma_functions_end(s: Seq<u8>, count: nat)
    ensures
        leaves_end(spec_load_functions(s, count), s),
    decreases s.len(), count + 1,
{
    assert(s.skip(0) =~= s);
    if count > 0 {
        lemma_functions_end(s, (count - 1) as nat);
        if let Some((s1, _)) = spec_load_functions(s, (count - 1) as nat) {
            if s1.len() <= s.len() {
                lemma_function_end(s1);
                if let Some((s2, _)) = spec_load_function(s1) {
                    lemma_suffix(s2, s1, s);
                }
            }
        }
    }
}

/// What is left behind a chunk is the end of the input, and shorter than it.
pub proof fn lemma_module_end(s: Seq<u8>)
    ensures
        spec_load_lua_module(s) matches Ok((rest, _)) ==> is_suffix(rest, s) && rest.len() < s.len(),
{
    if is_prefix(header_bytes(), s) {
        let s1 = s.skip(header_bytes().len() as int);
        lemma_skip(s, header_bytes().len() as int);
        if let Some((s2, _)) = u8::spec_deser(s1) {
            lemma_skip(s1, 1);
            lemma_suffix(s2, s1, s);
            lemma_function_end(s2);
            if let Some((s3, _)) = spec_load_function(s2) {
                lemma_suffix(s3, s2, s);
            }
        }
    }
}

/// A list that was read has a count that a `u32` holds.
proof fn lemma_list_len<A>(s: Seq<u8>, one: spec_fn(Seq<u8>) -> Option<(Seq<u8>, A)>)
    ensures
        spec_load_list(s, one) matches Some((_, items)) ==> items.len() <= u32::MAX,
{
    if let Some((s1, count)) = spec_load_t(s) {
        lemma_many_len(s1, count as nat, one);
    }
}

/// In a function that was read, every list of constants, of upvalues and of
/// nested functions has a count that a `u32` holds.
pub proof fn lemma_function_counted(s: Seq<u8>)
    ensures
        spec_load_function(s) matches Some((_, p)) ==> p.counted(),
    decreases s.len(), 0nat,
{
    if let Some((s1, head)) = spec_load_head(s) {
        if s1.len() < s.len() {
            lemma_functions_counted(s1, head.children as nat);
            lemma_head_len(s);
        }
    }
}

/// The lists in the first part of a function have counts that a `u32` holds.
proof fn lemma_head_len(s: Seq<u8>)
    ensures
        spec_load_head(s) matches Some((_, head)) ==> head.value_list.len() <= u32::MAX
            && head.upval_list.len() <= u32::MAX,
{
    if let Some((s1, _)) = spec_load_string_opt(s) {
        if let Some((s2, _)) = spec_load_t(s1) {
            if let Some((s3, _)) = spec_load_t(s2) {
                if let Some((s4, _)) = spec_load_sizes(s3) {
                    if let Some((s5, _)) = spec_load_list(s4, |x: Seq<u8>| spec_load_instruction(x)) {
                        lemma_list_len(s5, |x: Seq<u8>| spec_load_constant(x));
                        if let Some((s6, _)) = spec_load_list(
                            s5,
                            |x: Seq<u8>| spec_load_constant(x),
                        ) {
                            lemma_list_len(s6, |x: Seq<u8>| spec_load_upvalue(x));
                        }
                    }
                }
            }
        }
    }
}

/// Of `count` functions that were read there are `count`, and in each of
/// them every list has a count that a `u32` holds.
pub proof fn lemma_functions_counted(s: Seq<u8>, count: nat)
    ensures
        spec_load_functions(s, count) matches Some((_, items)) ==> items.len() == count && forall|
            i: int,
        | 0 <= i < items.len() ==> (#[trigger] items[i]).counted(),
    decreases s.len(), count + 1,
{
    if count > 0 {
        lemma_functions_counted(s, (count - 1) as nat);
        if let Some((s1, _)) = spec_load_functions(s, (count - 1) as nat) {
            if s1.len() <= s.len() {
                lemma_function_counted(s1);
            }
        }
    }
}

/// A string constant that was read from valid UTF-8 is as long as its
/// bytes were, and so can be written with a length that a `u32` holds.
pub proof fn lemma_string_loadable(s: Seq<u8>)
    requires
        spec_load_t(s) matches Some((rest, len)) && (len > 0 && len - 1 <= rest.len()
            ==> valid_utf8(rest.take(len - 1))),
    ensures
        spec_load_string(s) matches Some((_, v)) ==> v.loadable(),
{
    if let Some((rest, len)) = spec_load_t(s) {
        if len > 0 && len - 1 <= rest.len() {
            vstd::utf8::decode_utf8_encode_utf8(rest.take(len - 1));
        }
    }
}

} // verus!
