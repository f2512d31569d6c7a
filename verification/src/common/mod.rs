pub mod bitext;
pub mod list;
pub mod number;
pub mod opcode;
pub mod types;
