use rust_fun::{expression_tree, parse_expr, remove_whitespace, tokenize, BinOp, Expr, ExprError, Token};

fn value(e: &Expr) -> f64 {
    match e {
        Expr::Num(text) => text.parse::<f64>().unwrap(),
        Expr::Bin(op, a, b) => {
            let x = value(a);
            let y = value(b);
            match op {
                BinOp::Add => x + y,
                BinOp::Subtract => x - y,
                BinOp::Multiply => x * y,
                BinOp::Divide => x / y,
            }
        }
    }
}

fn evaluate(text: &str) -> Result<f64, ExprError> {
    let tokens = tokenize(text)?;
    let tree = parse_expr(&tokens)?;
    Ok(value(&tree))
}

fn num(s: &str) -> Expr {
    Expr::Num(s.to_string())
}

fn bin(op: BinOp, a: Expr, b: Expr) -> Expr {
    Expr::Bin(op, Box::new(a), Box::new(b))
}

#[test]
fn multiplication_binds_tighter() {
    assert_eq!(evaluate("2+3*4"), Ok(14.0));
    assert_eq!(
        expression_tree("2+3*4"),
        Ok(bin(BinOp::Add, num("2"), bin(BinOp::Multiply, num("3"), num("4"))))
    );
}

#[test]
fn subtraction_is_left_associative() {
    assert_eq!(evaluate("8-3-2"), Ok(3.0));
    assert_eq!(
        expression_tree("8-3-2"),
        Ok(bin(BinOp::Subtract, bin(BinOp::Subtract, num("8"), num("3")), num("2")))
    );
}

#[test]
fn division_is_left_associative() {
    assert_eq!(evaluate("8/4/2"), Ok(1.0));
}

#[test]
fn mixed_levels_fold_left() {
    assert_eq!(evaluate("1+2*3-4/2"), Ok(5.0));
    assert_eq!(evaluate("10-2*3*1+6/3"), Ok(6.0));
    assert_eq!(
        expression_tree("1-2*3+4"),
        Ok(bin(
            BinOp::Add,
            bin(BinOp::Subtract, num("1"), bin(BinOp::Multiply, num("2"), num("3"))),
            num("4")
        ))
    );
}

#[test]
fn division_by_zero_is_not_an_error() {
    let inf = evaluate("5/0").unwrap();
    assert!(inf.is_infinite() && inf > 0.0);
    assert!(evaluate("0/0").unwrap().is_nan());
}

#[test]
fn decimals_are_read() {
    assert_eq!(evaluate("1.5+2.5"), Ok(4.0));
    assert_eq!(evaluate(".5*4"), Ok(2.0));
    assert_eq!(evaluate("3.*2"), Ok(6.0));
}

#[test]
fn doubled_operator_tokenizes_but_does_not_parse() {
    let tokens = tokenize("2++3").unwrap();
    assert_eq!(
        tokens,
        vec![Token::Number("2".to_string()), Token::Add, Token::Add, Token::Number("3".to_string())]
    );
    assert_eq!(parse_expr(&tokens), Err(ExprError::UnexpectedToken));
}

#[test]
fn invalid_character_is_reported() {
    assert_eq!(tokenize("2&3"), Err(ExprError::InvalidCharacter('&')));
    assert_eq!(expression_tree("7x"), Err(ExprError::InvalidCharacter('x')));
}

#[test]
fn malformed_literal_is_reported() {
    assert_eq!(tokenize("1.2.3+4"), Err(ExprError::NumberFormat));
    assert_eq!(tokenize("4+."), Err(ExprError::NumberFormat));
    assert_eq!(tokenize("1..2"), Err(ExprError::NumberFormat));
}

#[test]
fn first_error_in_reading_order_wins() {
    assert_eq!(tokenize("1.2.3&"), Err(ExprError::InvalidCharacter('&')));
}

#[test]
fn missing_operands_are_rejected() {
    assert_eq!(expression_tree(""), Err(ExprError::UnexpectedToken));
    assert_eq!(expression_tree("+2"), Err(ExprError::UnexpectedToken));
    assert_eq!(expression_tree("2*"), Err(ExprError::UnexpectedToken));
    assert_eq!(expression_tree("2+3*/4"), Err(ExprError::UnexpectedToken));
}

#[test]
fn trailing_number_after_complete_expression_is_ignored() {
    let tokens = vec![
        Token::Number("2".to_string()),
        Token::Add,
        Token::Number("3".to_string()),
        Token::Number("9".to_string()),
        Token::Multiply,
    ];
    assert_eq!(parse_expr(&tokens), Ok(bin(BinOp::Add, num("2"), num("3"))));
}

#[test]
fn spaces_inside_input_are_skipped() {
    assert_eq!(
        tokenize("1 2 + 3"),
        Ok(vec![Token::Number("12".to_string()), Token::Add, Token::Number("3".to_string())])
    );
}

#[test]
fn repeated_runs_agree() {
    let first = evaluate("7*8+5").unwrap();
    let second = evaluate("7*8+5").unwrap();
    assert_eq!(first, 61.0);
    assert_eq!(first, second);
    assert_eq!(tokenize("7*8+5"), tokenize("7*8+5"));
}

#[test]
fn whitespace_is_removed() {
    let mut s = String::from(" 7 *\t8\n+ 5\u{a0}");
    remove_whitespace(&mut s);
    assert_eq!(s, "7*8+5");
    let mut empty = String::new();
    remove_whitespace(&mut empty);
    assert_eq!(empty, "");
}

#[test]
fn product_run_stops_before_a_sum() {
    assert_eq!(expression_tree("2*3+"), Err(ExprError::UnexpectedToken));
    assert_eq!(
        expression_tree("2*3+4/8"),
        Ok(bin(BinOp::Add, bin(BinOp::Multiply, num("2"), num("3")), bin(BinOp::Divide, num("4"), num("8"))))
    );
}
