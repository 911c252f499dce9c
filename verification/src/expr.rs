//! Expressions: a whitespace-separated stream of sign tokens (`+`, `-`)
//! and term tokens, folded left to right into an ordered list of terms by
//! a two-bit sign-state machine.

use vstd::prelude::*;
use crate::error::ParseError;
use crate::term::{Term, parse_term, token_coefficient, token_variable, valid_term_token};

verus! {

/// A whitespace character (the ASCII ones).
pub open spec fn is_space_char(c: char) -> bool {
    c == ' ' || c == '\t' || c == '\n' || c == '\r' || c == '\u{b}' || c == '\u{c}'
}

/// Splitting continued: `cur` is the run of non-space characters read so
/// far and not yet closed off.
pub open spec fn split_tokens_from(s: Seq<char>, cur: Seq<char>) -> Seq<Seq<char>>
    decreases s.len(),
{
    if s.len() == 0 {
        if cur.len() == 0 {
            Seq::empty()
        } else {
            seq![cur]
        }
    } else if is_space_char(s[0]) {
        if cur.len() == 0 {
            split_tokens_from(s.subrange(1, s.len() as int), Seq::empty())
        } else {
            seq![cur] + split_tokens_from(s.subrange(1, s.len() as int), Seq::empty())
        }
    } else {
        split_tokens_from(s.subrange(1, s.len() as int), cur.push(s[0]))
    }
}

/// The maximal nonempty runs of non-whitespace characters, in order.
pub open spec fn split_tokens(s: Seq<char>) -> Seq<Seq<char>> {
    split_tokens_from(s, Seq::empty())
}

pub open spec fn is_plus_token(t: Seq<char>) -> bool {
    t.len() == 1 && t[0] == '+'
}

pub open spec fn is_minus_token(t: Seq<char>) -> bool {
    t.len() == 1 && t[0] == '-'
}

pub open spec fn is_sign_token(t: Seq<char>) -> bool {
    is_plus_token(t) || is_minus_token(t)
}

/// What scanning a token stream yields: the parsed terms, or the offending
/// token of the first failure.
pub enum ParseOutcome {
    /// Every token consumed; these are the terms, in source order.
    Parsed(Seq<Term>),
    /// This term token is malformed, or its negated coefficient does not
    /// fit in an `i32`.
    BadTerm(Seq<char>),
    /// This sign token directly follows another sign token.
    BadSigns(Seq<char>),
}

/// The coefficient a term token contributes under a pending negation.
pub open spec fn signed_coefficient(t: Seq<char>, negate: bool) -> int {
    if negate {
        -token_coefficient(t)
    } else {
        token_coefficient(t)
    }
}

/// The sign-state machine, one token at a time.  `pending_neg` records an
/// unconsumed `-` that applies to the next term; `prev_sign` records that
/// the previous token was a sign, so a second sign in a row is an error.
pub open spec fn run_tokens(toks: Seq<Seq<char>>, pending_neg: bool, prev_sign: bool) -> ParseOutcome
    decreases toks.len(),
{
    if toks.len() == 0 {
        ParseOutcome::Parsed(Seq::empty())
    } else {
        let t = toks[0];
        if is_sign_token(t) {
            if prev_sign {
                ParseOutcome::BadSigns(t)
            } else {
                run_tokens(toks.drop_first(), is_minus_token(t), true)
            }
        } else if !valid_term_token(t) || !(i32::MIN <= signed_coefficient(t, pending_neg)
            <= i32::MAX) {
            ParseOutcome::BadTerm(t)
        } else {
            let term = Term {
                coefficient: signed_coefficient(t, pending_neg) as i32,
                variable: token_variable(t),
            };
            match run_tokens(toks.drop_first(), false, false) {
                ParseOutcome::Parsed(rest) => ParseOutcome::Parsed(seq![term] + rest),
                e => e,
            }
        }
    }
}

/// What parsing an expression string yields: tokenize on whitespace, then
/// run the sign-state machine from its initial state.
pub open spec fn expression_outcome(s: Seq<char>) -> ParseOutcome {
    run_tokens(split_tokens(s), false, false)
}

fn is_space_exec(c: char) -> (r: bool)
    ensures
        r == is_space_char(c),
{
    c == ' ' || c == '\t' || c == '\n' || c == '\r' || c == '\u{b}' || c == '\u{c}'
}

/// Split on whitespace, exactly as `split_tokens` describes.
fn tokenize(s: &str) -> (r: Vec<String>)
    ensures
        r@.map_values(|t: String| t@) == split_tokens(s@),
{
    let n = s.unicode_len();
    let mut toks: Vec<String> = Vec::new();
    let mut start: usize = 0;
    let mut in_tok: bool = false;
    let mut i: usize = 0;
    proof {
        assert(s@.subrange(0, n as int) =~= s@);
        assert(toks@.map_values(|t: String| t@) + split_tokens(s@) =~= split_tokens(s@));
    }
    while i < n
        invariant
            i <= n,
            n == s@.len(),
            in_tok ==> start < i,
            split_tokens(s@) == toks@.map_values(|t: String| t@) + split_tokens_from(
                s@.subrange(i as int, n as int),
                if in_tok {
                    s@.subrange(start as int, i as int)
                } else {
                    Seq::empty()
                },
            ),
        decreases n - i,
    {
        let ghost tail = s@.subrange(i as int, n as int);
        let ghost cur: Seq<char> = if in_tok {
            s@.subrange(start as int, i as int)
        } else {
            Seq::empty()
        };
        proof {
            assert(tail[0] == s@[i as int]);
            assert(tail.subrange(1, tail.len() as int) =~= s@.subrange(i + 1, n as int));
        }
        let c = s.get_char(i);
        if is_space_exec(c) {
            if in_tok {
                let tok = s.substring_char(start, i).to_owned();
                proof {
                    assert((toks@.push(tok)).map_values(|t: String| t@) =~= toks@.map_values(
                        |t: String| t@,
                    ).push(tok@));
                    assert(toks@.map_values(|t: String| t@) + (seq![cur] + split_tokens_from(
                        s@.subrange(i + 1, n as int),
                        Seq::empty(),
                    )) =~= toks@.map_values(|t: String| t@).push(cur) + split_tokens_from(
                        s@.subrange(i + 1, n as int),
                        Seq::empty(),
                    ));
                }
                toks.push(tok);
                in_tok = false;
            }
        } else {
            if !in_tok {
                start = i;
                in_tok = true;
                proof {
                    assert(Seq::<char>::empty().push(c) =~= s@.subrange(start as int, i + 1));
                }
            } else {
                proof {
                    assert(cur.push(c) =~= s@.subrange(start as int, i + 1));
                }
            }
        }
        i = i + 1;
    }
    proof {
        assert(s@.subrange(i as int, n as int) =~= Seq::<char>::empty());
    }
    if in_tok {
        let tok = s.substring_char(start, n).to_owned();
        proof {
            assert((toks@.push(tok)).map_values(|t: String| t@) =~= toks@.map_values(
                |t: String| t@,
            ).push(tok@));
            assert(toks@.map_values(|t: String| t@) + seq![tok@] =~= toks@.map_values(
                |t: String| t@,
            ).push(tok@));
        }
        toks.push(tok);
    } else {
        proof {
            assert(toks@.map_values(|t: String| t@) + Seq::<Seq<char>>::empty() =~= toks@.map_values(
                |t: String| t@,
            ));
        }
    }
    toks
}

/// Prefix already-parsed terms onto the outcome of the remaining tokens.
pub open spec fn prepend_terms(ts: Seq<Term>, o: ParseOutcome) -> ParseOutcome {
    match o {
        ParseOutcome::Parsed(rest) => ParseOutcome::Parsed(ts + rest),
        _ => o,
    }
}

/// Parse a whole expression.  On success the result lists the terms in
/// source order, exactly as `expression_outcome` describes; each failure
/// maps to the error kind of its outcome and names the offending token and
/// the input.
pub fn parse_expression(input: &str) -> (r: Result<Vec<Term>, ParseError>)
    ensures
        match r {
            Ok(terms) => expression_outcome(input@) == ParseOutcome::Parsed(terms@),
            Err(e) => match e {
                ParseError::MalformedTerm { token, input: origin } => expression_outcome(input@)
                    == ParseOutcome::BadTerm(token@) && origin@ == input@,
                ParseError::MalformedExpression { token, input: origin } => expression_outcome(
                    input@,
                ) == ParseOutcome::BadSigns(token@) && origin@ == input@,
            },
        },
{
    let tokens = tokenize(input);
    let ghost toks = split_tokens(input@);
    let mut terms: Vec<Term> = Vec::new();
    let mut pending_neg: bool = false;
    let mut prev_sign: bool = false;
    let mut i: usize = 0;
    proof {
        assert(toks.skip(0) =~= toks);
        assert(terms@ + Seq::<Term>::empty() =~= terms@);
        if run_tokens(toks, false, false) is Parsed {
            let all = run_tokens(toks, false, false)->Parsed_0;
            assert(terms@ + all =~= all);
        }
    }
    while i < tokens.len()
        invariant
            i <= tokens.len(),
            toks == split_tokens(input@),
            tokens@.map_values(|t: String| t@) == toks,
            run_tokens(toks, false, false) == prepend_terms(
                terms@,
                run_tokens(toks.skip(i as int), pending_neg, prev_sign),
            ),
        decreases tokens.len() - i,
    {
        let ghost rest = toks.skip(i as int);
        proof {
            assert(rest[0] == tokens@.map_values(|t: String| t@)[i as int]);
            assert(rest.drop_first() =~= toks.skip(i + 1));
        }
        let tok: &String = &tokens[i];
        let ts: &str = tok.as_str();
        let tlen = ts.unicode_len();
        let is_p = tlen == 1 && ts.get_char(0) == '+';
        let is_m = tlen == 1 && ts.get_char(0) == '-';
        if is_p || is_m {
            if prev_sign {
                return Err(
                    ParseError::MalformedExpression {
                        token: ts.to_owned(),
                        input: input.to_owned(),
                    },
                );
            }
            pending_neg = is_m;
            prev_sign = true;
        } else {
            let parsed = parse_term(ts);
            match parsed {
                Err(_) => {
                    return Err(
                        ParseError::MalformedTerm { token: ts.to_owned(), input: input.to_owned() },
                    );
                },
                Ok(t) => {
                    let coefficient: i32 = if pending_neg {
                        if t.coefficient == i32::MIN {
                            // negating it would not fit in an i32
                            return Err(
                                ParseError::MalformedTerm {
                                    token: ts.to_owned(),
                                    input: input.to_owned(),
                                },
                            );
                        }
                        -t.coefficient
                    } else {
                        t.coefficient
                    };
                    let term = Term { coefficient, variable: t.variable };
                    proof {
                        let after = run_tokens(toks.skip(i + 1), false, false);
                        if after is Parsed {
                            let rs = after->Parsed_0;
                            assert(terms@ + (seq![term] + rs) =~= terms@.push(term) + rs);
                        }
                    }
                    terms.push(term);
                    pending_neg = false;
                    prev_sign = false;
                },
            }
        }
        i = i + 1;
    }
    proof {
        assert(toks.skip(i as int) =~= Seq::<Seq<char>>::empty());
        assert(terms@ + Seq::<Term>::empty() =~= terms@);
    }
    Ok(terms)
}

} // verus!
