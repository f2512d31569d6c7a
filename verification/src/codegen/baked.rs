//! The fixed C text that stands around the generated code.

use vstd::prelude::*;

verus! {

/// What every function begins with. `NUM_STACK` between backticks stands for
/// the size of the function's frame.
pub const LUA_INIT_CODE: &'static str = "
CallInfo *const ci = L->ci;
LClosure *const cl = lua_get_l_closure(ci);
TValue const *const rt_k = cl->p->k;

checkstackGCp(L, `NUM_STACK`, ci->func);

StkId base = ci->func + 1;
";

/// What sets the parameters that the caller left out to nil. `NUM_PARAM`
/// between backticks stands for the number of the function's parameters.
pub const LUA_NUM_PARAM: &'static str = "
StkId param_end = base + `NUM_PARAM`;

while (L->top < param_end) {
	setnilvalue(s2v(L->top));
	L->top++;
}
";

/// Where the registers of a function without variable arguments begin.
pub const LUA_NO_VARARG: &'static str = "int const param_offset = 0;";

/// Where the registers of a function begin that takes variable arguments and
/// has no parameter of its own: behind the arguments that are there.
pub const LUA_ALL_VARARG: &'static str = "int const param_offset = cast_int(L->top - base);";

/// Where the registers of a function begin that takes variable arguments
/// after `NUM_PARAM` parameters of its own: behind the arguments that are
/// there, and behind the parameters in any case.
pub const LUA_IS_VARARG: &'static str = "int param_offset = cast_int(L->top - base);

if (param_offset < `NUM_PARAM`) {
	param_offset = `NUM_PARAM`;
}
";

/// The name that stands for the frame size in a template.
pub const NUM_STACK: &'static str = "`NUM_STACK`";

/// The name that stands for the number of parameters in a template.
pub const NUM_PARAM: &'static str = "`NUM_PARAM`";

/// The name that stands for the length of the embedded chunk in a template.
pub const LENGTH: &'static str = "`LENGTH`";

/// The C text that the host supplies: it stands before the functions, between
/// them and after them, and the generator does not look into it, except for
/// the name `LENGTH` in `setup`.
pub struct Boilerplate {
    /// The helpers that the generated code calls.
    pub interp: Vec<u8>,
    /// The macros that the instructions are written as calls of.
    pub macros: Vec<u8>,
    /// What loads the embedded chunk and enters the generated functions.
    /// `LENGTH` between backticks stands for the chunk's length.
    pub setup: Vec<u8>,
}

} // verus!
