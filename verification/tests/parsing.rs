use polyparse::error::ParseError;
use polyparse::expr::parse_expression;
use polyparse::term::{parse_term, Term};

#[test]
fn test_polynomial_term_parse() {
    let term = parse_term("5x").unwrap();
    assert_eq!(
        term,
        Term {
            coefficient: 5,
            variable: 'x'
        }
    );

    let term = parse_term("y").unwrap();
    assert_eq!(
        term,
        Term {
            coefficient: 1,
            variable: 'y'
        }
    );
}

#[test]
fn test_polynomial_parse() {
    let polynomial = parse_expression("2x + 3y - 5z").unwrap();
    assert_eq!(
        polynomial,
        vec![
            Term {
                coefficient: 2,
                variable: 'x'
            },
            Term {
                coefficient: 3,
                variable: 'y'
            },
            Term {
                coefficient: -5,
                variable: 'z'
            }
        ]
    );
}

#[test]
fn term_with_signed_coefficient() {
    assert_eq!(
        parse_term("-12y").unwrap(),
        Term {
            coefficient: -12,
            variable: 'y'
        }
    );
    assert_eq!(
        parse_term("+4z").unwrap(),
        Term {
            coefficient: 4,
            variable: 'z'
        }
    );
}

#[test]
fn term_at_i32_bounds() {
    assert_eq!(
        parse_term("2147483647q").unwrap(),
        Term {
            coefficient: i32::MAX,
            variable: 'q'
        }
    );
    assert_eq!(
        parse_term("-2147483648q").unwrap(),
        Term {
            coefficient: i32::MIN,
            variable: 'q'
        }
    );
}

#[test]
fn term_without_variable_is_malformed() {
    let err = parse_term("5").unwrap_err();
    match err {
        ParseError::MalformedTerm { token, input } => {
            assert_eq!(token, "5");
            assert_eq!(input, "5");
        }
        _ => panic!("expected MalformedTerm"),
    }
}

#[test]
fn malformed_terms_are_rejected() {
    assert!(parse_term("").is_err());
    assert!(parse_term("12").is_err());
    assert!(parse_term("x2").is_err());
    assert!(parse_term("--2x").is_err());
    assert!(parse_term("2 x").is_err());
    assert!(parse_term("2.5x").is_err());
    assert!(parse_term("2147483648q").is_err());
    assert!(parse_term("99999999999999999999x").is_err());
}

#[test]
fn empty_input_is_an_empty_expression() {
    assert_eq!(parse_expression("").unwrap(), vec![]);
    assert_eq!(parse_expression("   \t \n").unwrap(), vec![]);
}

#[test]
fn leading_plus_is_a_no_op() {
    assert_eq!(
        parse_expression("+ 2x").unwrap(),
        vec![Term {
            coefficient: 2,
            variable: 'x'
        }]
    );
}

#[test]
fn leading_minus_negates_first_term() {
    assert_eq!(
        parse_expression("- 7x").unwrap(),
        vec![Term {
            coefficient: -7,
            variable: 'x'
        }]
    );
}

#[test]
fn two_signs_in_a_row_fail() {
    let err = parse_expression("x - - y").unwrap_err();
    match err {
        ParseError::MalformedExpression { token, input } => {
            assert_eq!(token, "-");
            assert_eq!(input, "x - - y");
        }
        _ => panic!("expected MalformedExpression"),
    }
    assert!(parse_expression("- - 2x").is_err());
    assert!(parse_expression("2x + + 3y").is_err());
}

#[test]
fn malformed_term_aborts_expression() {
    let err = parse_expression("2x + 5").unwrap_err();
    match err {
        ParseError::MalformedTerm { token, input } => {
            assert_eq!(token, "5");
            assert_eq!(input, "2x + 5");
        }
        _ => panic!("expected MalformedTerm"),
    }
}

#[test]
fn trailing_sign_is_not_detected() {
    // known gap: a dangling trailing sign token is accepted
    assert_eq!(
        parse_expression("2x +").unwrap(),
        vec![Term {
            coefficient: 2,
            variable: 'x'
        }]
    );
}

#[test]
fn repeated_variables_stay_separate() {
    assert_eq!(
        parse_expression("2x + 3x").unwrap(),
        vec![
            Term {
                coefficient: 2,
                variable: 'x'
            },
            Term {
                coefficient: 3,
                variable: 'x'
            }
        ]
    );
}

#[test]
fn mixed_whitespace_separates_tokens() {
    assert_eq!(
        parse_expression("\t2x\n+   3y \r").unwrap(),
        vec![
            Term {
                coefficient: 2,
                variable: 'x'
            },
            Term {
                coefficient: 3,
                variable: 'y'
            }
        ]
    );
}

#[test]
fn plus_joined_coefficients_parse_back_verbatim() {
    assert_eq!(
        parse_expression("12a + 0b + 7c").unwrap(),
        vec![
            Term {
                coefficient: 12,
                variable: 'a'
            },
            Term {
                coefficient: 0,
                variable: 'b'
            },
            Term {
                coefficient: 7,
                variable: 'c'
            }
        ]
    );
}

#[test]
fn negating_the_minimum_coefficient_fails() {
    // -(-2147483648) does not fit in an i32, so the negated term is rejected
    assert_eq!(
        parse_expression("-2147483648v").unwrap(),
        vec![Term {
            coefficient: i32::MIN,
            variable: 'v'
        }]
    );
    assert!(parse_expression("- -2147483648v").is_err());
}
