//! A spelling-correction library.
//!
//! A corpus is tokenized into a word-frequency table (with a serialized cache
//! form), and a query word is corrected by generating every candidate within
//! one or two character edits and picking the most frequent one, with a
//! length-dependent confidence threshold between the two edit distances.

pub mod corpus;
pub mod edits;
pub mod engine;
pub mod table;

pub use table::CorpusError;
pub use table::FrequencyTable;
