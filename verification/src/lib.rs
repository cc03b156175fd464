//! Decoding of evaluated terms into plainly typed values.
//!
//! A consumer that knows the type it wants asks a term to be read for a target
//! ([`deserialize`]) and is handed a scalar, or a cursor over the elements of
//! an array or the fields of a record ([`accessor`]), from which it pulls the
//! terms to read next. Metadata around a term is looked through on the way, and
//! what cannot be read is refused with an error ([`error`]) that names what was
//! asked for and what was found.

pub mod accessor;
pub mod deserialize;
pub mod error;
pub mod identifier;
pub mod number;
pub mod term;
