//! Validation of ECMAScript regular-expression literals `/body/flags`: the
//! body is checked against the RegExp grammar (Unicode mode or legacy mode,
//! by the `u` flag), the flags against the six that exist.
//!
//! `grammar` states the grammar as spec functions; `parser` holds the
//! validator, whose methods are proved to compute exactly those functions.
use vstd::prelude::*;

pub mod error;
pub mod flags;
pub mod grammar;
pub mod ident;
pub mod laws;
pub mod literal;
pub mod parser;
pub mod text;
pub mod unicode;
pub mod unicode_tables;

pub use error::{Error, ErrorKind, ParseError};
pub use flags::RegExFlags;
pub use parser::{RegexParser, State};
pub use unicode::{validate_name, validate_name_and_value, validate_name_or_value};

verus! {

} // verus!
