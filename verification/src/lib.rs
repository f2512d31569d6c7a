//! Turns a compiled Lua 5.4 chunk into C source: the chunk is decoded into a
//! tree of prototypes, each instruction list is cut into basic blocks, and
//! every prototype is written out as one C function.

pub mod codegen;
pub mod common;
pub mod dumper;
pub mod labels;
pub mod loader;
pub mod round_trip;
pub mod splitter;

use crate::codegen::baked::Boilerplate;
use crate::codegen::gen::{spec_transpile, transpile, GenError};
use crate::codegen::text::{Code, Token};
use crate::common::number::LoadError;
use crate::loader::{load_lua_module, spec_load_lua_module};
use vstd::prelude::*;

verus! {

/// Why no C text comes of the bytes of a file.
#[derive(PartialEq, Eq, Structural, Clone, Copy, Debug)]
pub enum Failure {
    /// The bytes do not begin with a chunk that can be read.
    Load(LoadError),
    /// Something stands behind the chunk.
    TrailingGarbage,
    /// A string constant of the chunk is too long to be written again.
    TooLarge,
    /// No code can be generated for the chunk.
    Gen(GenError),
}

/// The C text for the chunk that `data` is, with the host's text around it.
pub open spec fn spec_transpile_data(
    data: Seq<u8>,
    interp: Seq<u8>,
    macros: Seq<u8>,
    setup: Seq<u8>,
) -> Result<Seq<Token>, Failure> {
    match spec_load_lua_module(data) {
        Err(e) => Err(Failure::Load(e)),
        Ok((trail, p)) => if trail.len() != 0 {
            Err(Failure::TrailingGarbage)
        } else if !p.fits() {
            Err(Failure::TooLarge)
        } else {
            match spec_transpile(p, interp, macros, setup) {
                Ok(text) => Ok(text),
                Err(e) => Err(Failure::Gen(e)),
            }
        },
    }
}

/// Reads `data` as a chunk and generates the C text for it.
///
/// This fails where `data` does not begin with a chunk, where anything
/// stands behind the chunk, and where no code can be generated for it.
pub fn transpile_data(data: &[u8], boilerplate: &Boilerplate) -> (r: Result<Code, Failure>)
    ensures
        match spec_transpile_data(
            data@,
            boilerplate.interp@,
            boilerplate.macros@,
            boilerplate.setup@,
        ) {
            Ok(text) => r matches Ok(code) && code@ == text,
            Err(e) => r matches Err(found) && found == e,
        },
{
    let (trail, proto) = match load_lua_module(data) {
        Ok(found) => found,
        Err(e) => {
            return Err(Failure::Load(e));
        },
    };
    if trail.len() != 0 {
        return Err(Failure::TrailingGarbage);
    }
    if !proto.fits() {
        return Err(Failure::TooLarge);
    }
    match transpile(&proto, boilerplate) {
        Ok(code) => Ok(code),
        Err(e) => Err(Failure::Gen(e)),
    }
}

} // verus!
