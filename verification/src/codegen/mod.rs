pub mod baked;
pub mod gen;
pub mod text;
