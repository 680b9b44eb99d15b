use calc_core::Numeral;
use calc_core::ParsingToken;

fn numeral_value(n: &Numeral) -> f64 {
    let mut s = String::new();
    s.extend(n.int_part.iter());
    s.push('.');
    s.extend(n.frac_part.iter());
    s.parse().unwrap()
}

fn chars(v: &[char]) -> String {
    v.iter().collect()
}

#[test]
fn tokenize_integer_literal() {
    let tokens = ParsingToken::tokenize("3").unwrap();
    assert_eq!(tokens.len(), 1);
    match &tokens[0] {
        ParsingToken::Number(n) => {
            assert_eq!(chars(&n.int_part), "3");
            assert_eq!(chars(&n.frac_part), "");
            assert_eq!(numeral_value(n), 3.0);
        }
        _ => panic!("expected a number token"),
    }
}

#[test]
fn tokenize_leading_dot_literal() {
    let tokens = ParsingToken::tokenize(".5").unwrap();
    assert_eq!(tokens.len(), 1);
    match &tokens[0] {
        ParsingToken::Number(n) => {
            assert_eq!(chars(&n.int_part), "0");
            assert_eq!(chars(&n.frac_part), "5");
            assert_eq!(numeral_value(n), 0.5);
        }
        _ => panic!("expected a number token"),
    }
}

#[test]
fn tokenize_fractional_literal() {
    let tokens = ParsingToken::tokenize("12.75").unwrap();
    assert_eq!(tokens.len(), 1);
    match &tokens[0] {
        ParsingToken::Number(n) => {
            assert_eq!(chars(&n.int_part), "12");
            assert_eq!(chars(&n.frac_part), "75");
            assert_eq!(numeral_value(n), 12.75);
        }
        _ => panic!("expected a number token"),
    }
}

#[test]
fn empty_parenthesis_fails() {
    let err = ParsingToken::tokenize("()").unwrap_err();
    assert_eq!(err.message(), "Empty parenthesis");
    assert_eq!(err.index(), Some(0));
    assert_eq!(err.base().as_deref(), Some("()"));
}

#[test]
fn spaced_parenthesis_documents_existing_behavior() {
    // Only an immediately adjacent `()` is reported empty: with spaces
    // inside, the lexer emits a group with no tokens in it.
    let tokens = ParsingToken::tokenize("(   )").unwrap();
    assert_eq!(tokens.len(), 1);
    match &tokens[0] {
        ParsingToken::Parenthesis(children) => assert_eq!(children.len(), 0),
        _ => panic!("expected a group token"),
    }
}

#[test]
fn unclosed_parenthesis_fails() {
    let err = ParsingToken::tokenize("(1+2").unwrap_err();
    assert_eq!(err.message(), "Parenthesis not closed");
    assert_eq!(err.index(), Some(3));
    assert_eq!(err.base().as_deref(), Some("(1+2"));
}

#[test]
fn invalid_character_fails_at_index() {
    let err = ParsingToken::tokenize("1 & 2").unwrap_err();
    assert_eq!(err.message(), "Invalid character");
    assert_eq!(err.index(), Some(2));
    assert_eq!(err.base().as_deref(), Some("1 & 2"));
}

#[test]
fn second_decimal_point_fails() {
    let err = ParsingToken::tokenize("1.2.3").unwrap_err();
    assert_eq!(err.message(), "Invalid number");
    assert_eq!(err.index(), Some(3));
}

#[test]
fn doubled_operator_fails() {
    let err = ParsingToken::tokenize("1++2").unwrap_err();
    assert_eq!(err.message(), "Invalid number");
    assert_eq!(err.index(), Some(2));
}

#[test]
fn error_inside_group_keeps_inner_text() {
    // The group's inside is scanned on its own, so the error points into
    // the substring between the parentheses.
    let err = ParsingToken::tokenize("(+)").unwrap_err();
    assert_eq!(err.message(), "Invalid number");
    assert_eq!(err.index(), Some(0));
    assert_eq!(err.base().as_deref(), Some("+"));
}

#[test]
fn minus_after_group_reads_as_unary() {
    // The unary test keys on the number buffer alone, so the minus after a
    // closed group becomes a negation mark, not a subtraction.
    let tokens = ParsingToken::tokenize("(1+2)-3").unwrap();
    assert_eq!(tokens.len(), 3);
    assert!(matches!(tokens[0], ParsingToken::Parenthesis(_)));
    match &tokens[1] {
        ParsingToken::Operator(o) => assert_eq!(*o, calc_core::Operator::Inverse),
        _ => panic!("expected an operator token"),
    }
    match &tokens[2] {
        ParsingToken::Number(n) => assert_eq!(numeral_value(n), 3.0),
        _ => panic!("expected a number token"),
    }
}

#[test]
fn lone_dot_documents_existing_behavior() {
    // A bare point seeds the integer buffer with `0` and flushes it at the
    // end of the text, so `.` reads as the number zero.
    let tokens = ParsingToken::tokenize(".").unwrap();
    assert_eq!(tokens.len(), 1);
    match &tokens[0] {
        ParsingToken::Number(n) => assert_eq!(numeral_value(n), 0.0),
        _ => panic!("expected a number token"),
    }
}

#[test]
fn spaces_inside_number_documents_existing_behavior() {
    // Spaces are ignored outright, so digits on either side of one run
    // together into a single number.
    let tokens = ParsingToken::tokenize("1 2").unwrap();
    assert_eq!(tokens.len(), 1);
    match &tokens[0] {
        ParsingToken::Number(n) => assert_eq!(numeral_value(n), 12.0),
        _ => panic!("expected a number token"),
    }
}

#[test]
fn tokens_render_back_to_input() {
    let tokens = ParsingToken::tokenize("1 + 2 * 3 / 2 - 4").unwrap();
    assert_eq!(calc_core::render::tokens_to_text(&tokens), "1 + 2 * 3 / 2 - 4");
}

#[test]
fn group_renders_with_parentheses() {
    let tokens = ParsingToken::tokenize("3(4+5)").unwrap();
    assert_eq!(calc_core::render::tokens_to_text(&tokens), "3 * (4 + 5)");
}
