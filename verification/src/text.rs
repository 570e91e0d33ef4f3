//! Text, as sequences of characters.

pub mod chars;
pub mod laws;
pub mod number;
pub mod order;
pub mod pad;
pub mod path;
pub mod search;
pub mod split;
pub mod words;
