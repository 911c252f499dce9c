//! Term tokens: one optional signed decimal coefficient followed by a
//! single alphabetic variable character, e.g. `"5x"`, `"-12y"`, `"z"`.

use vstd::prelude::*;
use crate::error::ParseError;
use crate::numerals::{is_i32_literal, int_literal_value, parse_i32};

verus! {

/// An ASCII alphabetic character, `'A'`-`'Z'` or `'a'`-`'z'`.
pub open spec fn is_alpha_char(c: char) -> bool {
    (65 <= c as u32 && c as u32 <= 90) || (97 <= c as u32 && c as u32 <= 122)
}

/// One signed monomial: a coefficient paired with a variable symbol.
#[derive(Debug, Clone, Copy, PartialEq, Eq, Structural)]
pub struct Term {
    pub coefficient: i32,
    pub variable: char,
}

impl Term {
    /// A term is well formed when its variable is alphabetic.
    pub open spec fn wf(self) -> bool {
        is_alpha_char(self.variable)
    }
}

/// A well-formed term token: its last character is the (alphabetic)
/// variable, and anything before it is a decimal integer coefficient that
/// fits in an `i32`.
pub open spec fn valid_term_token(t: Seq<char>) -> bool {
    &&& t.len() >= 1
    &&& is_alpha_char(t.last())
    &&& t.len() > 1 ==> is_i32_literal(t.drop_last())
}

/// The coefficient a term token spells out: `1` when omitted.
pub open spec fn token_coefficient(t: Seq<char>) -> int {
    if t.len() == 1 {
        1
    } else {
        int_literal_value(t.drop_last())
    }
}

/// The variable character of a term token.
pub open spec fn token_variable(t: Seq<char>) -> char {
    t.last()
}

fn malformed_term(token: &str) -> (e: ParseError)
    ensures
        e matches ParseError::MalformedTerm { token: tk, input: inp } && tk@ == token@ && inp@
            == token@,
{
    ParseError::MalformedTerm { token: token.to_owned(), input: token.to_owned() }
}

/// Parse one term token.  On a well-formed token the result carries
/// exactly the coefficient and variable the token spells out; on anything
/// else it is a `MalformedTerm` error naming the token.
pub fn parse_term(token: &str) -> (r: Result<Term, ParseError>)
    ensures
        match r {
            Ok(t) => {
                &&& valid_term_token(token@)
                &&& t.coefficient as int == token_coefficient(token@)
                &&& t.variable == token_variable(token@)
                &&& t.wf()
            },
            Err(e) => {
                &&& !valid_term_token(token@)
                &&& e matches ParseError::MalformedTerm { token: tk, input: inp } && tk@ == token@
                    && inp@ == token@
            },
        },
{
    let n = token.unicode_len();
    if n == 0 {
        return Err(malformed_term(token));
    }
    let last = token.get_char(n - 1);
    let u = last as u32;
    if !((65 <= u && u <= 90) || (97 <= u && u <= 122)) {
        return Err(malformed_term(token));
    }
    if n == 1 {
        return Ok(Term { coefficient: 1, variable: last });
    }
    let prefix = token.substring_char(0, n - 1);
    proof {
        assert(prefix@ =~= token@.drop_last());
    }
    match parse_i32(prefix) {
        Some(v) => Ok(Term { coefficient: v, variable: last }),
        None => Err(malformed_term(token)),
    }
}

} // verus!
