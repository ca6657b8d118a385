pub mod model;
pub mod library;
pub mod laws;
pub mod command;

pub use model::Error;
pub use library::{Book, Borrowable, Library};
