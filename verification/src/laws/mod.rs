//! What holds of the library as a whole.
pub mod command;
pub mod counts;
pub mod digest;
pub mod lines;
pub mod message;
pub mod order;
pub mod phrase;
pub mod prompt;
pub mod recent;
pub mod session;
pub mod text;
pub mod totals;
pub mod views;
pub mod wording;
