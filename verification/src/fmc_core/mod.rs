pub mod choice;
pub mod location;
pub mod names;
pub mod operation;
pub mod render;
pub mod special;
pub mod term;

pub use choice::Choice;
pub use location::Location;
pub use operation::Operation;
pub use special::Special;
pub use term::Term;
