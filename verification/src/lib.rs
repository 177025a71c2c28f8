//! The text side and the bookkeeping of an ascent calculation.
//!
//! A journey is given as a list of tokens, one per segment, each written
//! `<distance>,<angle>`. This library holds what can be said of such a
//! calculation without computing on the numbers themselves:
//!
//! - [`float_literal`]: the grammar of the literals that stand in a token;
//! - [`cli`]: the unit of the angles, the parsing of tokens into their two
//!   literals, and the errors that a malformed token gives rise to;
//! - [`ascent_data`]: on which side, ascent or descent, an elevation change
//!   counts, decided by the sign bit of its bit pattern;
//! - [`plotting`]: the layout of the report.
//!
//! Every function is verified against a model over sequences of characters
//! or of bit patterns.

pub mod ascent_data;
pub mod cli;
pub mod float_literal;
pub mod plotting;
