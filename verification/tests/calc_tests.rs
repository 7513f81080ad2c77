use calc_rs::Error;
use calc_rs::evaluator::eval;
use calc_rs::lexer::{tokenize, Token};
use calc_rs::parser::{parse, parse_expr, parse_factor, parse_term, BinOp, Node, UnOp};

#[test]
fn valid_inputs_give_ok_or_documented_error() {
    // Inputs over the accepted alphabet either evaluate or fail with a
    // documented error; none of them is an unknown-token failure.
    assert_eq!(calc_rs::calc("0"), Ok(0));
    assert_eq!(calc_rs::calc("42"), Ok(42));
    assert_eq!(calc_rs::calc("1 + 2 + 3 + 4"), Ok(10));
    assert_eq!(calc_rs::calc("10 - (2 * 3)"), Ok(4));
    assert_eq!(calc_rs::calc("((((5))))"), Ok(5));
    assert_eq!(calc_rs::calc(")"), Err(Error::UnexpectedToken));
    assert_eq!(calc_rs::calc("()"), Err(Error::UnexpectedToken));
    assert_eq!(calc_rs::calc("5 / 0"), Err(Error::DivisionByZero));
}

#[test]
fn same_text_twice_gives_identical_results() {
    let first = calc_rs::calc("6 * 7 - (3 / 2)");
    let second = calc_rs::calc("6 * 7 - (3 / 2)");
    assert_eq!(first, second);
    assert_eq!(first, Ok(41));
    let first_err = calc_rs::calc("2 +");
    let second_err = calc_rs::calc("2 +");
    assert_eq!(first_err, second_err);
    assert_eq!(first_err, Err(Error::UnexpectedToken));
}

#[test]
fn subtraction_is_left_associative() {
    assert_eq!(calc_rs::calc("1 - 2 - 3"), Ok(-4));
    assert_eq!(calc_rs::calc("100 / 10 / 5"), Ok(2));
}

#[test]
fn multiplication_binds_tighter_than_addition() {
    assert_eq!(calc_rs::calc("2 + 3 * 4"), Ok(14));
    assert_eq!(calc_rs::calc("(2 + 3) * 4"), Ok(20));
}

#[test]
fn unary_minus_chains() {
    assert_eq!(calc_rs::calc("--5"), Ok(5));
    assert_eq!(calc_rs::calc("---5"), Ok(-5));
    assert_eq!(calc_rs::calc("-5 + 3"), Ok(-2));
    assert_eq!(calc_rs::calc("2 * -3"), Ok(-6));
}

#[test]
fn whitespace_is_insignificant_between_tokens() {
    assert_eq!(calc_rs::calc("1+2"), Ok(3));
    assert_eq!(calc_rs::calc(" 1 + 2 "), Ok(3));
    assert_eq!(calc_rs::calc("1+2"), calc_rs::calc(" 1 + 2 "));
    assert_eq!(calc_rs::calc("\t1\n+\r2"), Ok(3));
}

#[test]
fn unicode_whitespace_is_skipped_too() {
    // U+3000 (ideographic space) has the Unicode White_Space property.
    assert_eq!(calc_rs::calc("1\u{3000}+\u{3000}2"), Ok(3));
    assert_eq!(calc_rs::calc("\u{3000}7\u{3000}"), Ok(7));
    // Skipped whitespace still separates digit runs: this is `1 2`, a
    // grammar error, not `12` and not an unknown token.
    assert_eq!(calc_rs::calc("1\u{3000}2"), Err(Error::UnexpectedToken));
}

#[test]
fn unknown_character_fails_tokenizing() {
    assert_eq!(calc_rs::calc("1 + a"), Err(Error::UnknownToken));
    assert_eq!(calc_rs::calc("1 + \u{e9}"), Err(Error::UnknownToken));
    assert_eq!(calc_rs::calc("3 % 2"), Err(Error::UnknownToken));
}

#[test]
fn malformed_grammar_fails_parsing() {
    assert_eq!(calc_rs::calc("1 +"), Err(Error::UnexpectedToken));
    assert_eq!(calc_rs::calc("(1 + 2"), Err(Error::UnexpectedToken));
    assert_eq!(calc_rs::calc("1 2"), Err(Error::UnexpectedToken));
    assert_eq!(calc_rs::calc(""), Err(Error::UnexpectedToken));
    assert_eq!(calc_rs::calc("* 3"), Err(Error::UnexpectedToken));
    assert_eq!(calc_rs::calc("1 + 2)"), Err(Error::UnexpectedToken));
}

#[test]
fn division_truncates_toward_zero() {
    assert_eq!(calc_rs::calc("7 / 2"), Ok(3));
    assert_eq!(calc_rs::calc("-7 / 2"), Ok(-3));
    assert_eq!(calc_rs::calc("7 / -2"), Ok(-3));
    assert_eq!(calc_rs::calc("-7 / -2"), Ok(3));
}

#[test]
fn division_by_zero_is_reported() {
    assert_eq!(calc_rs::calc("1 / 0"), Err(Error::DivisionByZero));
    assert_eq!(calc_rs::calc("1 / (2 - 2)"), Err(Error::DivisionByZero));
    assert_eq!(calc_rs::calc("0 / 1"), Ok(0));
}

#[test]
fn arithmetic_wraps_around_i32() {
    assert_eq!(calc_rs::calc("2147483647 + 1"), Ok(i32::MIN));
    // A number literal too big for i32 wraps during accumulation.
    assert_eq!(calc_rs::calc("2147483648"), Ok(i32::MIN));
    // The one overflowing division wraps as well.
    assert_eq!(calc_rs::calc("(0 - 2147483647 - 1) / (0 - 1)"), Ok(i32::MIN));
    // Negating i32::MIN wraps back to itself.
    assert_eq!(calc_rs::calc("-2147483648"), Ok(i32::MIN));
}

#[test]
fn tokenize_splits_text_into_tokens() {
    assert_eq!(
        tokenize("12+3"),
        Ok(vec![Token::Number(12), Token::Plus, Token::Number(3)])
    );
    assert_eq!(
        tokenize("()+-*/"),
        Ok(vec![
            Token::Paren,
            Token::Paren,
            Token::Plus,
            Token::Minus,
            Token::Mul,
            Token::Div,
        ])
    );
    assert_eq!(tokenize("  "), Ok(vec![]));
    assert_eq!(tokenize("905"), Ok(vec![Token::Number(905)]));
    assert_eq!(tokenize("1 a"), Err(Error::UnknownToken));
}

#[test]
fn parse_builds_the_expected_tree() {
    let tree = parse(vec![Token::Number(1), Token::Plus, Token::Number(2)]);
    assert_eq!(
        tree,
        Ok(Node::Binary {
            lhs: Box::new(Node::Number(1)),
            op: BinOp::Add,
            rhs: Box::new(Node::Number(2)),
        })
    );
    assert_eq!(parse(vec![Token::Plus]), Err(Error::UnexpectedToken));
    assert_eq!(
        parse(vec![Token::Paren, Token::Number(1)]),
        Err(Error::UnexpectedToken)
    );
    assert_eq!(
        parse(vec![Token::Number(1), Token::Number(2)]),
        Err(Error::UnexpectedToken)
    );
}

#[test]
fn parse_routines_report_the_next_position() {
    let toks = vec![Token::Number(7), Token::Mul, Token::Number(2)];
    assert_eq!(parse_factor(&toks, 0), Ok((Node::Number(7), 1)));
    assert_eq!(
        parse_term(&toks, 0),
        Ok((
            Node::Binary {
                lhs: Box::new(Node::Number(7)),
                op: BinOp::Mul,
                rhs: Box::new(Node::Number(2)),
            },
            3,
        ))
    );
    assert_eq!(
        parse_expr(&toks, 2),
        Ok((Node::Number(2), 3))
    );
    assert_eq!(parse_factor(&toks, 1), Err(Error::UnexpectedToken));
}

#[test]
fn eval_reduces_trees() {
    assert_eq!(eval(Node::Number(5)), Ok(5));
    assert_eq!(
        eval(Node::Unary {
            operand: Box::new(Node::Number(5)),
            op: UnOp::Minus,
        }),
        Ok(-5)
    );
    assert_eq!(
        eval(Node::Binary {
            lhs: Box::new(Node::Number(9)),
            op: BinOp::Div,
            rhs: Box::new(Node::Number(0)),
        }),
        Err(Error::DivisionByZero)
    );
    assert_eq!(
        eval(Node::Binary {
            lhs: Box::new(Node::Number(6)),
            op: BinOp::Sub,
            rhs: Box::new(Node::Number(10)),
        }),
        Ok(-4)
    );
}
