//! A table-driven lexical analyser.
//!
//! A [`table::RuleTable`] holds ordered patterns, the rules active in each
//! start condition, the action of each rule and the numeric kind of each token
//! type. A [`tokenizer::Tokenizer`] scans a source buffer with such a table and
//! hands out one token per call, with byte offsets and line/column positions.

pub mod table;
pub mod matcher;
pub mod model;
pub mod tokenizer;
pub mod laws;




