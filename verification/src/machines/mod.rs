pub mod input;
pub mod krivine_machine;
pub mod machine;
pub mod random;
pub mod semantics;
pub mod stores;
pub mod trace;

pub use krivine_machine::KrivineMachine;
pub use machine::Machine;
