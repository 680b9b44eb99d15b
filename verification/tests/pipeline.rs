use calc_core::Function;
use calc_core::Numeral;
use calc_core::Operator;
use calc_core::ParsingToken;
use calc_core::Token;

fn numeral_value(n: &Numeral) -> f64 {
    let mut s = String::new();
    s.extend(n.int_part.iter());
    s.push('.');
    s.extend(n.frac_part.iter());
    s.parse().unwrap()
}

fn eval(t: &Token) -> f64 {
    match t {
        Token::Number(n) => numeral_value(n),
        Token::Operator(f, args) => {
            assert!(f.arity_matches(args.len()));
            match f.operator {
                Operator::Add => eval(&args[0]) + eval(&args[1]),
                Operator::Subtract => eval(&args[0]) - eval(&args[1]),
                Operator::Multiply => eval(&args[0]) * eval(&args[1]),
                Operator::Divide => eval(&args[0]) / eval(&args[1]),
                Operator::Pow => eval(&args[0]).powf(eval(&args[1])),
                Operator::Inverse => -eval(&args[0]),
            }
        }
    }
}

fn eval_str(input: &str) -> f64 {
    let tokens = ParsingToken::tokenize(input).unwrap();
    let tree = Token::new(&tokens).unwrap();
    eval(&tree)
}

#[test]
fn multiplication_binds_tighter() {
    assert_eq!(eval_str("1 + 2 * 3"), 7.0);
}

#[test]
fn leftmost_tie_break_documents_existing_behavior() {
    // The split lands on the leftmost of the equal-priority minuses, so
    // the tree leans right: 1 - (2 - 3), not the conventional (1 - 2) - 3.
    assert_eq!(eval_str("1 - 2 - 3"), 2.0);
}

#[test]
fn pow_leftmost_split_documents_existing_behavior() {
    // The split lands on the first `^`, which becomes the root with
    // everything after it as its right operand: 2^(3^2) = 512, the same
    // right-leaning shape the minus gets.
    assert_eq!(eval_str("2^3^2"), 512.0);
}

#[test]
fn implicit_multiplication_before_group() {
    assert_eq!(eval_str("3(4+5)"), 27.0);
}

#[test]
fn implicit_multiplication_after_group() {
    assert_eq!(eval_str("(1+2)3"), 9.0);
}

#[test]
fn minus_after_group_documents_existing_behavior() {
    // The minus after the group was read as unary, and the unary split
    // drops everything before it: the whole expression builds as inv(3).
    assert_eq!(eval_str("(1+2)-3"), -3.0);
}

#[test]
fn default_demonstration_expression() {
    assert_eq!(eval_str("1 + 2 * 3 / 2 - 4"), 0.0);
}

#[test]
fn nested_groups() {
    assert_eq!(eval_str("((2))"), 2.0);
}

#[test]
fn unary_minus() {
    assert_eq!(eval_str("-3"), -3.0);
}

#[test]
fn division_by_zero_is_infinity() {
    assert_eq!(eval_str("1/0"), f64::INFINITY);
}

#[test]
fn many_numbers_fails() {
    let tokens = ParsingToken::tokenize("(1)(2)").unwrap();
    let err = Token::new(&tokens).unwrap_err();
    assert_eq!(err.message(), "There are many numbers in the input, expected operator");
    assert_eq!(err.index(), None);
    assert!(err.base().is_none());
}

#[test]
fn spaced_empty_group_fails_at_build() {
    let tokens = ParsingToken::tokenize("(   )").unwrap();
    let err = Token::new(&tokens).unwrap_err();
    assert_eq!(err.message(), "There are many numbers in the input, expected operator");
}

#[test]
fn lone_operator_token_fails() {
    let tokens = ParsingToken::tokenize("-").unwrap();
    let err = Token::new(&tokens).unwrap_err();
    assert_eq!(err.message(), "Invalid token:  - , expected number");
}

#[test]
fn tree_renders_as_named_applications() {
    let tokens = ParsingToken::tokenize("1+2*3").unwrap();
    let tree = Token::new(&tokens).unwrap();
    assert_eq!(tree.to_text(), "add(1, mul(2, 3))");
}

#[test]
fn unary_tree_renders_with_one_operand() {
    let tokens = ParsingToken::tokenize("-3").unwrap();
    let tree = Token::new(&tokens).unwrap();
    assert_eq!(tree.to_text(), "inv(3)");
}

#[test]
fn fractional_literal_renders_verbatim() {
    let tokens = ParsingToken::tokenize("2.50 * 2").unwrap();
    let tree = Token::new(&tokens).unwrap();
    assert_eq!(tree.to_text(), "mul(2.50, 2)");
    assert_eq!(eval(&tree), 5.0);
}

#[test]
fn positioned_error_renders_with_caret() {
    let err = ParsingToken::tokenize("1 & 2").unwrap_err();
    assert_eq!(err.to_text(), "Error: Invalid character\n1 & 2\n  ^\n");
}

#[test]
fn plain_error_renders_message_alone() {
    let tokens = ParsingToken::tokenize("(1)(2)").unwrap();
    let err = Token::new(&tokens).unwrap_err();
    assert_eq!(
        err.to_text(),
        "Error: There are many numbers in the input, expected operator\n"
    );
}

#[test]
fn error_constructors_carry_position() {
    let e = calc_core::ParsingError::indexed("boom".to_string(), "1+1".to_string(), 2);
    assert_eq!(e.message(), "boom");
    assert_eq!(e.base().as_deref(), Some("1+1"));
    assert_eq!(e.index(), Some(2));
    let p = calc_core::ParsingError::not_indexed("boom".to_string());
    assert_eq!(p.message(), "boom");
    assert!(p.base().is_none());
    assert_eq!(p.index(), None);
}

#[test]
fn operator_counts_and_priorities() {
    assert_eq!(Operator::Add.count(), 2);
    assert_eq!(Operator::Subtract.count(), 2);
    assert_eq!(Operator::Multiply.count(), 2);
    assert_eq!(Operator::Divide.count(), 2);
    assert_eq!(Operator::Pow.count(), 2);
    assert_eq!(Operator::Inverse.count(), 1);
    assert_eq!(Operator::Add.priority(), 1);
    assert_eq!(Operator::Subtract.priority(), 1);
    assert_eq!(Operator::Multiply.priority(), 2);
    assert_eq!(Operator::Divide.priority(), 2);
    assert_eq!(Operator::Pow.priority(), 3);
    assert_eq!(Operator::Inverse.priority(), 4);
}

#[test]
fn operator_symbols_and_parsing() {
    assert_eq!(Operator::from_symbol('+'), Some(Operator::Add));
    assert_eq!(Operator::from_symbol('-'), Some(Operator::Subtract));
    assert_eq!(Operator::from_symbol('*'), Some(Operator::Multiply));
    assert_eq!(Operator::from_symbol('/'), Some(Operator::Divide));
    assert_eq!(Operator::from_symbol('^'), Some(Operator::Pow));
    assert_eq!(Operator::from_symbol('x'), None);
    assert_eq!(Operator::Inverse.symbol(), '-');
    assert_eq!(Operator::Subtract.symbol(), '-');
    assert_eq!(Operator::Pow.symbol(), '^');
}

#[test]
fn operation_registry_names_and_arities() {
    let f = Function::from_operator(&Operator::Pow);
    assert_eq!(f.signature, "pow");
    assert_eq!(f.arguments_count, 2);
    assert!(f.arity_matches(2));
    assert!(!f.arity_matches(1));
    let g = Function::from_operator(&Operator::Inverse);
    assert_eq!(g.signature, "inv");
    assert_eq!(g.arguments_count, 1);
    assert_eq!(g.operator, Operator::Inverse);
}
