//! Statements that relate the parsers to each other: serializing terms and
//! parsing the result is the identity, a lone sign token negates the next
//! term, and two sign tokens in a row always fail.

use vstd::prelude::*;
use crate::expr::{
    expression_outcome, is_minus_token, is_sign_token, is_space_char, run_tokens, split_tokens,
    split_tokens_from, ParseOutcome,
};
use crate::numerals::{
    all_dec_digits, digit_value, digits_value, has_sign_prefix, int_literal_value, is_dec_digit,
    is_int_literal, literal_digits,
};
use crate::term::{is_alpha_char, token_coefficient, token_variable, valid_term_token, Term};

verus! {

/// The decimal digit character for a value between 0 and 9.
pub open spec fn dec_digit_char(d: int) -> char
    recommends
        0 <= d <= 9,
{
    if d == 0 {
        '0'
    } else if d == 1 {
        '1'
    } else if d == 2 {
        '2'
    } else if d == 3 {
        '3'
    } else if d == 4 {
        '4'
    } else if d == 5 {
        '5'
    } else if d == 6 {
        '6'
    } else if d == 7 {
        '7'
    } else if d == 8 {
        '8'
    } else {
        '9'
    }
}

/// The decimal digit string of a natural number, without a sign and
/// without superfluous leading zeros.
pub open spec fn dec_digits_of(n: nat) -> Seq<char>
    decreases n,
{
    if n < 10 {
        seq![dec_digit_char(n as int)]
    } else {
        dec_digits_of(n / 10).push(dec_digit_char((n % 10) as int))
    }
}

pub proof fn lemma_dec_digits_of(n: nat)
    ensures
        dec_digits_of(n).len() >= 1,
        all_dec_digits(dec_digits_of(n)),
        digits_value(dec_digits_of(n)) == n,
    decreases n,
{
    if n < 10 {
        assert(digits_value(Seq::<char>::empty()) == 0);
        assert(seq![dec_digit_char(n as int)].drop_last() =~= Seq::<char>::empty());
        assert(seq![dec_digit_char(n as int)].last() == dec_digit_char(n as int));
        assert(digit_value(dec_digit_char(n as int)) == n);
    } else {
        lemma_dec_digits_of(n / 10);
        let s = dec_digits_of(n / 10);
        let c = dec_digit_char((n % 10) as int);
        crate::numerals::lemma_digits_value_push(s, c);
        assert(digit_value(c) == n % 10);
        assert(digits_value(s.push(c)) == (n / 10) * 10 + n % 10);
        assert((n / 10) * 10 + n % 10 == n) by (nonlinear_arith);
        assert(forall|i: int| 0 <= i < s.push(c).len() ==> is_dec_digit(#[trigger] s.push(c)[i]));
    }
}

/// Splitting steps over a prefix of non-space characters by absorbing it
/// into the pending token.
proof fn lemma_split_from_over_nonspace(a: Seq<char>, b: Seq<char>, cur: Seq<char>)
    requires
        forall|i: int| 0 <= i < a.len() ==> !is_space_char(#[trigger] a[i]),
    ensures
        split_tokens_from(a + b, cur) == split_tokens_from(b, cur + a),
    decreases a.len(),
{
    if a.len() == 0 {
        assert(a + b =~= b);
        assert(cur + a =~= cur);
    } else {
        assert((a + b)[0] == a[0]);
        assert((a + b).subrange(1, (a + b).len() as int) =~= a.subrange(1, a.len() as int) + b);
        lemma_split_from_over_nonspace(a.subrange(1, a.len() as int), b, cur.push(a[0]));
        assert(cur.push(a[0]) + a.subrange(1, a.len() as int) =~= cur + a);
    }
}

/// A space closes off the pending token.
proof fn lemma_split_from_space(b: Seq<char>, cur: Seq<char>, c: char)
    requires
        is_space_char(c),
        cur.len() >= 1,
    ensures
        split_tokens_from(seq![c] + b, cur) == seq![cur] + split_tokens_from(b, Seq::empty()),
{
    assert((seq![c] + b)[0] == c);
    assert((seq![c] + b).subrange(1, (seq![c] + b).len() as int) =~= b);
}

/// A nonempty all-non-space sequence is one whole token; splitting the
/// text that follows a space after it goes on independently.
pub proof fn lemma_split_token_then_space(t: Seq<char>, rest: Seq<char>)
    requires
        t.len() >= 1,
        forall|i: int| 0 <= i < t.len() ==> !is_space_char(#[trigger] t[i]),
    ensures
        split_tokens(t + seq![' '] + rest) == seq![t] + split_tokens(rest),
{
    assert(t + seq![' '] + rest =~= t + (seq![' '] + rest));
    lemma_split_from_over_nonspace(t, seq![' '] + rest, Seq::empty());
    assert(Seq::<char>::empty() + t =~= t);
    lemma_split_from_space(rest, t, ' ');
}

/// A nonempty all-non-space sequence splits into exactly itself.
pub proof fn lemma_split_single_token(t: Seq<char>)
    requires
        t.len() >= 1,
        forall|i: int| 0 <= i < t.len() ==> !is_space_char(#[trigger] t[i]),
    ensures
        split_tokens(t) == seq![t],
{
    lemma_split_from_over_nonspace(t, Seq::empty(), Seq::empty());
    assert(t + Seq::<char>::empty() =~= t);
    assert(Seq::<char>::empty() + t =~= t);
}

/// The token a term is written as: the coefficient's digits, then the
/// variable character, e.g. `Term { coefficient: 5, variable: 'x' }` as
/// `"5x"`.
pub open spec fn render_term(t: Term) -> Seq<char>
    recommends
        t.coefficient >= 0,
{
    dec_digits_of(t.coefficient as nat).push(t.variable)
}

/// Terms written out joined by ` + `, e.g. `"2x + 3y"`.
pub open spec fn render_expression(ts: Seq<Term>) -> Seq<char>
    decreases ts.len(),
{
    if ts.len() == 0 {
        Seq::empty()
    } else if ts.len() == 1 {
        render_term(ts[0])
    } else {
        render_term(ts[0]) + seq![' ', '+', ' '] + render_expression(ts.drop_first())
    }
}

/// Terms whose rendering needs no sign tokens: nonnegative coefficients
/// and alphabetic variables.
pub open spec fn positive_plain_terms(ts: Seq<Term>) -> bool {
    forall|i: int|
        0 <= i < ts.len() ==> (#[trigger] ts[i]).coefficient >= 0 && is_alpha_char(ts[i].variable)
}

/// What a rendered expression tokenizes to: term tokens with a `+` token
/// between each pair of neighbours.
pub open spec fn rendered_tokens(ts: Seq<Term>) -> Seq<Seq<char>>
    decreases ts.len(),
{
    if ts.len() == 0 {
        Seq::empty()
    } else if ts.len() == 1 {
        seq![render_term(ts[0])]
    } else {
        seq![render_term(ts[0]), seq!['+']] + rendered_tokens(ts.drop_first())
    }
}

/// The rendering of a term with a nonnegative coefficient is a well-formed
/// term token, free of whitespace, spelling out that term exactly.
proof fn lemma_render_term_facts(t: Term)
    requires
        t.coefficient >= 0,
        is_alpha_char(t.variable),
    ensures
        render_term(t).len() >= 2,
        valid_term_token(render_term(t)),
        !is_sign_token(render_term(t)),
        token_coefficient(render_term(t)) == t.coefficient,
        token_variable(render_term(t)) == t.variable,
        forall|i: int|
            0 <= i < render_term(t).len() ==> !is_space_char(#[trigger] render_term(t)[i]),
{
    let ds = dec_digits_of(t.coefficient as nat);
    let tok = render_term(t);
    lemma_dec_digits_of(t.coefficient as nat);
    assert(tok.drop_last() =~= ds);
    assert(tok.last() == t.variable);
    assert(is_dec_digit(ds[0]));
    assert(!has_sign_prefix(ds));
    assert(literal_digits(ds) == ds);
    assert(int_literal_value(ds) == t.coefficient);
    assert(is_int_literal(ds));
    assert forall|i: int| 0 <= i < tok.len() implies !is_space_char(#[trigger] tok[i]) by {
        if i < tok.len() - 1 {
            assert(tok[i] == ds[i]);
            assert(is_dec_digit(ds[i]));
        } else {
            assert(tok[i] == t.variable);
        }
    }
}

/// A well-formed term token contains no whitespace and is not a sign
/// token.
proof fn lemma_valid_token_plain(t: Seq<char>)
    requires
        valid_term_token(t),
    ensures
        !is_sign_token(t),
        forall|i: int| 0 <= i < t.len() ==> !is_space_char(#[trigger] t[i]),
{
    assert forall|i: int| 0 <= i < t.len() implies !is_space_char(#[trigger] t[i]) by {
        if i == t.len() - 1 {
            assert(is_alpha_char(t[i]));
        } else {
            let p = t.drop_last();
            let ds = literal_digits(p);
            assert(t[i] == p[i]);
            if has_sign_prefix(p) {
                if i == 0 {
                    assert(p[0] == '+' || p[0] == '-');
                } else {
                    assert(ds[i - 1] == p[i]);
                    assert(is_dec_digit(ds[i - 1]));
                }
            } else {
                assert(ds[i] == p[i]);
                assert(is_dec_digit(ds[i]));
            }
        }
    }
    if t.len() == 1 {
        assert(is_alpha_char(t[0]));
    }
}

/// Tokenizing a rendered expression yields its terms' tokens with a `+`
/// token between each pair of neighbours.
proof fn lemma_split_rendered(ts: Seq<Term>)
    requires
        positive_plain_terms(ts),
    ensures
        split_tokens(render_expression(ts)) == rendered_tokens(ts),
    decreases ts.len(),
{
    if ts.len() == 0 {
    } else if ts.len() == 1 {
        lemma_render_term_facts(ts[0]);
        lemma_split_single_token(render_term(ts[0]));
    } else {
        let t0 = render_term(ts[0]);
        let rest = render_expression(ts.drop_first());
        lemma_render_term_facts(ts[0]);
        assert(render_expression(ts) =~= t0 + seq![' '] + (seq!['+'] + seq![' '] + rest));
        lemma_split_token_then_space(t0, seq!['+'] + seq![' '] + rest);
        assert(seq!['+'] + seq![' '] + rest =~= seq!['+'] + seq![' '] + rest);
        lemma_split_token_then_space(seq!['+'], rest);
        lemma_split_rendered(ts.drop_first());
        assert(split_tokens(render_expression(ts)) =~= seq![t0, seq!['+']] + rendered_tokens(
            ts.drop_first(),
        ));
    }
}

/// Running the sign-state machine over a rendered expression's tokens
/// returns exactly its terms, whatever the incoming `prev_sign` state.
proof fn lemma_run_rendered(ts: Seq<Term>, prev_sign: bool)
    requires
        positive_plain_terms(ts),
    ensures
        run_tokens(rendered_tokens(ts), false, prev_sign) == ParseOutcome::Parsed(ts),
    decreases ts.len(),
{
    if ts.len() == 0 {
        assert(ts =~= Seq::<Term>::empty());
    } else {
        let toks = rendered_tokens(ts);
        let tok = render_term(ts[0]);
        lemma_render_term_facts(ts[0]);
        let term = Term {
            coefficient: token_coefficient(tok) as i32,
            variable: token_variable(tok),
        };
        assert(term == ts[0]);
        if ts.len() == 1 {
            assert(toks.drop_first() =~= Seq::<Seq<char>>::empty());
            assert(seq![term] + Seq::<Term>::empty() =~= ts);
        } else {
            assert(toks[0] == tok);
            assert(toks.drop_first() =~= seq![seq!['+']] + rendered_tokens(ts.drop_first()));
            let tail = toks.drop_first();
            assert(is_sign_token(tail[0]) && !is_minus_token(tail[0]));
            assert(tail.drop_first() =~= rendered_tokens(ts.drop_first()));
            assert(positive_plain_terms(ts.drop_first()));
            lemma_run_rendered(ts.drop_first(), true);
            assert(run_tokens(toks.drop_first(), false, false) == ParseOutcome::Parsed(
                ts.drop_first(),
            ));
            assert(seq![term] + ts.drop_first() =~= ts);
        }
    }
}

/// Round trip: writing any sequence of sign-free terms out as
/// `"{c}{v} + {c}{v} + ..."` and parsing the result returns exactly those
/// terms, coefficients unchanged.
pub proof fn lemma_render_parse_round_trip(ts: Seq<Term>)
    requires
        positive_plain_terms(ts),
    ensures
        expression_outcome(render_expression(ts)) == ParseOutcome::Parsed(ts),
{
    lemma_split_rendered(ts);
    lemma_run_rendered(ts, false);
}

/// A lone `-` token negates the coefficient of the term that follows it:
/// `"- {token}"` parses to that term with its coefficient negated.
pub proof fn lemma_minus_negates(t: Seq<char>)
    requires
        valid_term_token(t),
        token_coefficient(t) != i32::MIN,
    ensures
        expression_outcome(seq!['-', ' '] + t) == ParseOutcome::Parsed(
            seq![
                Term {
                    coefficient: (-token_coefficient(t)) as i32,
                    variable: token_variable(t),
                },
            ],
        ),
{
    reveal_with_fuel(run_tokens, 4);
    lemma_valid_token_plain(t);
    assert(seq!['-', ' '] + t =~= seq!['-'] + seq![' '] + t);
    lemma_split_token_then_space(seq!['-'], t);
    lemma_split_single_token(t);
    let toks = split_tokens(seq!['-', ' '] + t);
    assert(toks =~= seq![seq!['-'], t]);
    assert(is_minus_token(toks[0]));
    assert(toks.drop_first() =~= seq![t]);
    assert(seq![t].drop_first() =~= Seq::<Seq<char>>::empty());
    let term = Term { coefficient: (-token_coefficient(t)) as i32, variable: token_variable(t) };
    assert(seq![term] + Seq::<Term>::empty() =~= seq![term]);
}

/// Two sign tokens in a row always fail: `"- - ..."` is a
/// `MalformedExpression` whatever follows.
pub proof fn lemma_double_sign_fails(rest: Seq<char>)
    ensures
        expression_outcome(seq!['-', ' ', '-', ' '] + rest) == ParseOutcome::BadSigns(seq!['-']),
{
    reveal_with_fuel(run_tokens, 3);
    assert(seq!['-', ' ', '-', ' '] + rest =~= seq!['-'] + seq![' '] + (seq!['-'] + seq![' ']
        + rest));
    lemma_split_token_then_space(seq!['-'], seq!['-'] + seq![' '] + rest);
    lemma_split_token_then_space(seq!['-'], rest);
    let toks = split_tokens(seq!['-', ' ', '-', ' '] + rest);
    assert(toks =~= seq![seq!['-']] + (seq![seq!['-']] + split_tokens(rest)));
    assert(is_minus_token(toks[0]));
    assert(toks.drop_first() =~= seq![seq!['-']] + split_tokens(rest));
    assert(is_minus_token(toks.drop_first()[0]));
}

/// The empty input parses to the empty term list, not an error.
pub proof fn lemma_empty_input()
    ensures
        expression_outcome(Seq::<char>::empty()) == ParseOutcome::Parsed(Seq::<Term>::empty()),
{
}

} // verus!
