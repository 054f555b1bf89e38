//! Semantic core of a polynomial-identity-language (PIL) compiler and analyzer:
//! the analyzed intermediate representation of constraint systems (polynomials,
//! identities, expressions, function-value definitions) together with the
//! result algebra a row-by-row symbolic evaluator uses to report complete or
//! partial progress when deducing witness values, and the extraction of data
//! objects from an assembly listing for a simpler front end.

pub mod analyzed;
pub mod data_parser;
pub mod eval_result;
pub mod number;
