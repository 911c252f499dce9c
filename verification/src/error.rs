//! Parse failures.  Both kinds abort the whole parse and carry the
//! offending token together with the full input it was found in.

use vstd::prelude::*;

verus! {

#[derive(Debug)]
pub enum ParseError {
    /// The token is empty, does not end in an alphabetic character, or its
    /// leading characters are not a decimal integer that fits in an `i32`.
    MalformedTerm { token: String, input: String },
    /// Two sign tokens (`+` or `-`) appeared in a row.
    MalformedExpression { token: String, input: String },
}

} // verus!
