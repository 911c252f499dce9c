//! Decimal integer literals: what it means for a character sequence to be
//! a base-10 signed integer, and a verified parser for them.

use vstd::prelude::*;

verus! {

/// A decimal digit character, `'0'` through `'9'`.
pub open spec fn is_dec_digit(c: char) -> bool {
    48 <= c as u32 && c as u32 <= 57
}

/// Numeric value of a decimal digit character.
pub open spec fn digit_value(c: char) -> int {
    c as u32 - 48
}

pub open spec fn all_dec_digits(s: Seq<char>) -> bool {
    forall|i: int| 0 <= i < s.len() ==> is_dec_digit(#[trigger] s[i])
}

/// Value of a digit string read in base 10, most significant digit first.
pub open spec fn digits_value(s: Seq<char>) -> int
    decreases s.len(),
{
    if s.len() == 0 {
        0
    } else {
        digits_value(s.drop_last()) * 10 + digit_value(s.last())
    }
}

pub proof fn lemma_digits_value_nonneg(s: Seq<char>)
    requires
        all_dec_digits(s),
    ensures
        digits_value(s) >= 0,
    decreases s.len(),
{
    if s.len() > 0 {
        lemma_digits_value_nonneg(s.drop_last());
    }
}

/// Extending a digit string by one digit multiplies its value by ten and
/// adds the new digit.
pub proof fn lemma_digits_value_push(s: Seq<char>, c: char)
    ensures
        digits_value(s.push(c)) == digits_value(s) * 10 + digit_value(c),
{
    assert(s.push(c).drop_last() =~= s);
    assert(s.push(c).last() == c);
}

/// The value of a digit string is at least the value of any of its
/// prefixes: appending digits never decreases the value.
pub proof fn lemma_digits_value_prefix_le(s: Seq<char>, i: int)
    requires
        all_dec_digits(s),
        0 <= i <= s.len(),
    ensures
        digits_value(s.subrange(0, i)) <= digits_value(s),
    decreases s.len() - i,
{
    if i < s.len() {
        let p = s.subrange(0, i);
        let q = s.subrange(0, i + 1);
        assert(q.drop_last() =~= p);
        lemma_digits_value_nonneg(p);
        assert(digits_value(q) == digits_value(p) * 10 + digit_value(q.last()));
        lemma_digits_value_prefix_le(s, i + 1);
    } else {
        assert(s.subrange(0, i) =~= s);
    }
}

/// The sequence starts with an explicit `+` or `-`.
pub open spec fn has_sign_prefix(s: Seq<char>) -> bool {
    s.len() > 0 && (s[0] == '+' || s[0] == '-')
}

/// The digits of a literal: everything after the optional sign.
pub open spec fn literal_digits(s: Seq<char>) -> Seq<char> {
    if has_sign_prefix(s) {
        s.subrange(1, s.len() as int)
    } else {
        s
    }
}

pub open spec fn literal_negative(s: Seq<char>) -> bool {
    s.len() > 0 && s[0] == '-'
}

/// A well-formed signed decimal integer literal: an optional `+` or `-`
/// sign followed by one or more decimal digits, nothing else.
pub open spec fn is_int_literal(s: Seq<char>) -> bool {
    literal_digits(s).len() > 0 && all_dec_digits(literal_digits(s))
}

/// The signed value of a well-formed integer literal.
pub open spec fn int_literal_value(s: Seq<char>) -> int {
    if literal_negative(s) {
        -digits_value(literal_digits(s))
    } else {
        digits_value(literal_digits(s))
    }
}

/// The literal is well formed and its value fits in an `i32`.
pub open spec fn is_i32_literal(s: Seq<char>) -> bool {
    &&& is_int_literal(s)
    &&& i32::MIN <= int_literal_value(s) <= i32::MAX
}

/// Parse a base-10 signed integer.  Returns `Some(v)` exactly when the
/// whole input is an optional sign followed by one or more decimal digits
/// whose signed value `v` fits in an `i32`, and `None` otherwise.
pub fn parse_i32(s: &str) -> (r: Option<i32>)
    ensures
        match r {
            Some(v) => is_i32_literal(s@) && v as int == int_literal_value(s@),
            None => !is_i32_literal(s@),
        },
{
    let n = s.unicode_len();
    if n == 0 {
        return None;
    }
    let first = s.get_char(0);
    let negative: bool = first == '-';
    let start: usize = if first == '-' || first == '+' {
        1
    } else {
        0
    };
    if start == n {
        // a bare sign has no digits
        return None;
    }
    let ghost body = literal_digits(s@);
    proof {
        assert(body =~= s@.subrange(start as int, n as int));
    }
    let limit: u64 = if negative {
        2147483648
    } else {
        2147483647
    };
    let mut acc: u64 = 0;
    let mut i: usize = start;
    while i < n
        invariant
            start <= i <= n,
            n == s@.len(),
            start == (if has_sign_prefix(s@) { 1int } else { 0int }),
            negative == literal_negative(s@),
            body == literal_digits(s@),
            body =~= s@.subrange(start as int, n as int),
            limit == (if negative { 2147483648u64 } else { 2147483647u64 }),
            all_dec_digits(body.subrange(0, i - start)),
            acc as int == digits_value(body.subrange(0, i - start)),
            acc <= limit,
        decreases n - i,
    {
        let c = s.get_char(i);
        let u = c as u32;
        let ghost seen = body.subrange(0, i - start);
        let ghost seen_next = body.subrange(0, i + 1 - start);
        proof {
            assert(body[i - start] == s@[i as int]);
            assert(seen_next =~= seen.push(c));
        }
        if !(48 <= u && u <= 57) {
            // a non-digit after the sign: not an integer literal
            return None;
        }
        let d = (u - 48) as u64;
        proof {
            lemma_digits_value_push(seen, c);
        }
        acc = acc * 10 + d;
        if acc > limit {
            // every extension of these digits is at least as large, so the
            // value cannot fit in an i32
            proof {
                if is_int_literal(s@) {
                    lemma_digits_value_prefix_le(body, i + 1 - start);
                }
            }
            return None;
        }
        i = i + 1;
    }
    proof {
        assert(body.subrange(0, n - start) =~= body);
        if negative {
            assert(int_literal_value(s@) == -(acc as int));
        } else {
            assert(int_literal_value(s@) == acc as int);
        }
    }
    if negative {
        if acc == 2147483648 {
            Some(i32::MIN)
        } else {
            Some(-(acc as i32))
        }
    } else {
        Some(acc as i32)
    }
}

} // verus!
