//! Phrase segmentation of text written without spaces between words.
//!
//! A trained linear model scores every position of the text from a window of
//! six characters, their Unicode blocks and the three previous decisions; a
//! position whose score exceeds a threshold opens a new phrase. The library
//! yields the UTF-8 byte offsets at which phrases begin.
pub mod block;
pub mod features;
pub mod iter;
pub mod laws;
pub mod model;
pub mod parser;
pub mod text;

pub use crate::iter::{BudouxSegmenter, BudouxSegmenterIterator};
pub use crate::parser::BudouxParser;
