pub mod fmc_core;
pub mod interpreter;
pub mod machines;
pub mod text;
