//! Seeded synthesis of a fictional phonology, and of pronounceable words
//! and compound words drawn from it.

pub mod catalog;
pub mod choice;
pub mod inventory;
pub mod lang;
pub mod render;
pub mod rng;
pub mod run;
pub mod table;
pub mod word;

pub use crate::lang::SynthLang;
pub use crate::word::Word;
