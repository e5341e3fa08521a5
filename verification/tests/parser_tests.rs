use slang::lexer::token::CharCursor;
use slang::parser::ast::{parse_str, Expr};
use slang::parser::lexer;
use slang::utils::SError;

#[test]
fn lexer_test_get_number() {
    assert_eq!(lexer::gettok(&mut CharCursor::new("0")), Ok(lexer::Token::Number("0".to_string())));
    assert_eq!(lexer::gettok(&mut CharCursor::new(" 1")), Ok(lexer::Token::Number("1".to_string())));
    assert_eq!(lexer::gettok(&mut CharCursor::new("2  3")), Ok(lexer::Token::Number("2".to_string())));
}

#[test]
fn lexer_test_get_identifier() {
    assert_eq!(lexer::gettok(&mut CharCursor::new("g")), Ok(lexer::Token::Identifier("g".to_string())));
    assert_eq!(lexer::gettok(&mut CharCursor::new("galileo")), Ok(lexer::Token::Identifier("galileo".to_string())));
    assert_eq!(lexer::gettok(&mut CharCursor::new("gali leo")), Ok(lexer::Token::Identifier("gali".to_string())));
    assert_eq!(lexer::gettok(&mut CharCursor::new("g4l1l30")), Ok(lexer::Token::Identifier("g4l1l30".to_string())));
    assert_eq!(lexer::gettok(&mut CharCursor::new("gali_leo")), Ok(lexer::Token::Identifier("gali_leo".to_string())));

    assert_eq!(lexer::gettok(&mut CharCursor::new("fn")), Ok(lexer::Token::Function));
    assert_eq!(lexer::gettok(&mut CharCursor::new("return")), Ok(lexer::Token::Return));
}

#[test]
fn lexer_test_eof() {
    assert_eq!(lexer::gettok(&mut CharCursor::new("")), Err(lexer::LexerError::EOF));
    assert_eq!(lexer::gettok(&mut CharCursor::new("   ")), Err(lexer::LexerError::EOF));
}

#[test]
fn test_parse_none() {
    assert_eq!(parse_str("none"), Ok(Expr::NoneLit));
}

#[test]
fn test_parse_bool() {
    assert_eq!(parse_str("true"), Ok(Expr::Bool(true)));
    assert_eq!(parse_str("false"), Ok(Expr::Bool(false)));
}

#[test]
fn test_parse_number() {
    assert_eq!(parse_str("0"), Ok(Expr::Number(0)));
}

#[test]
fn test_parse_block() {
    assert_eq!(parse_str("{}"), Ok(Expr::Block(vec![])));
    assert_eq!(parse_str("{0}"), Ok(Expr::Block(vec![Expr::Number(0)])));
    assert_eq!(parse_str("{{0}}"), Ok(Expr::Block(vec![Expr::Block(vec![Expr::Number(0)])])));
    assert_eq!(parse_str("{{0 1}}"), Ok(Expr::Block(vec![Expr::Block(vec![Expr::Number(0), Expr::Number(1)])])));
    assert_eq!(parse_str("{"), Err(SError::LexerEOF));
}

#[test]
fn test_parse_paren() {
    assert_eq!(parse_str("(0)"), Ok(Expr::Number(0)));
    assert_eq!(parse_str("((0))"), Ok(Expr::Number(0)));
    assert_eq!(parse_str("("), Err(SError::LexerEOF));
    assert_eq!(parse_str("(0"), Err(SError::ParserExpectedClosingParen));
}

#[test]
fn test_parse_function() {
    assert_eq!(parse_str("fn zero() 0"), Ok(Expr::BinaryOp{op: "=".to_string(), lhs: Box::new(Expr::VarRef("zero".to_string())), rhs: Box::new(Expr::Function{ params: vec![], body: Box::new(Expr::Number(0))})}));
    assert_eq!(parse_str("fn oneParam(x) {}"), Ok(Expr::BinaryOp{op: "=".to_string(), lhs: Box::new(Expr::VarRef("oneParam".to_string())), rhs: Box::new(Expr::Function{ params: vec!["x".to_string()], body: Box::new(Expr::Block(vec![]))})}));
    assert_eq!(parse_str("fn twoParams(x, y) {}"), Ok(Expr::BinaryOp{op: "=".to_string(), lhs: Box::new(Expr::VarRef("twoParams".to_string())), rhs: Box::new(Expr::Function{ params: vec!["x".to_string(), "y".to_string()], body: Box::new(Expr::Block(vec![]))})}));
    assert_eq!(parse_str("fn () {}"), Err(SError::ParserInvalidFunctionNoName));
    assert_eq!(parse_str("fn main {}"), Err(SError::ParserInvalidFunctionNoLParen));
    assert_eq!(parse_str("fn main (x y) {}"), Err(SError::ParserInvalidFunctionMissingComma));
    assert_eq!(parse_str("fn main (,) {}"), Err(SError::ParserInvalidFunctionExtraComma));
    assert_eq!(parse_str("fn main (,x) {}"), Err(SError::ParserInvalidFunctionExtraComma));
    assert_eq!(parse_str("fn main (x,) {}"), Err(SError::ParserInvalidFunctionExpectedParam));
    assert_eq!(parse_str("fn main (fn x) {}"), Err(SError::ParserInvalidFunctionInvalidToken));
}

#[test]
fn test_parse_return() {
    assert_eq!(parse_str("return 0"), Ok(Expr::Return(Box::new(Expr::Number(0)))));
    assert_eq!(parse_str("return"), Err(SError::LexerEOF));
}

#[test]
fn test_parse_varref() {
    assert_eq!(parse_str("x"), Ok(Expr::VarRef("x".to_string())));
}

#[test]
fn test_parse_call() {
    assert_eq!(parse_str("zero()"), Ok(Expr::Call { callee: "zero".to_string(), args: vec![] }));
    assert_eq!(parse_str("one(0)"), Ok(Expr::Call { callee: "one".to_string(), args: vec![Expr::Number(0)] }));
    assert_eq!(parse_str("two(0, 1)"), Ok(Expr::Call { callee: "two".to_string(), args: vec![Expr::Number(0), Expr::Number(1)] }));
}

#[test]
fn test_parse_binaryop() {
    assert_eq!(parse_str("0 + 1"), Ok(Expr::BinaryOp { op: "+".to_string(),  lhs: Box::new(Expr::Number(0)), rhs: Box::new(Expr::Number(1)) }));
    assert_eq!(parse_str("0 + 1 - 2"), Ok(Expr::BinaryOp { op: "-".to_string(), lhs: Box::new(Expr::BinaryOp { op: "+".to_string(),  lhs: Box::new(Expr::Number(0)), rhs: Box::new(Expr::Number(1)) }), rhs: Box::new(Expr::Number(2))}));
    assert_eq!(parse_str("0 + 1 * 2"), Ok(Expr::BinaryOp { op: "+".to_string(),  lhs: Box::new(Expr::Number(0)), rhs: Box::new(Expr::BinaryOp { op: "*".to_string(), lhs: Box::new(Expr::Number(1)), rhs: Box::new(Expr::Number(2)) }) }));

    assert_eq!(parse_str("x = 0"), Ok(Expr::BinaryOp { op: "=".to_string(),  lhs: Box::new(Expr::VarRef("x".to_string())), rhs: Box::new(Expr::Number(0)) }));
    assert_eq!(parse_str("x = y"), Ok(Expr::BinaryOp { op: "=".to_string(),  lhs: Box::new(Expr::VarRef("x".to_string())), rhs: Box::new(Expr::VarRef("y".to_string())) }));
    assert_eq!(parse_str("0 = x"), Ok(Expr::BinaryOp { op: "=".to_string(),  lhs: Box::new(Expr::Number(0)), rhs: Box::new(Expr::VarRef("x".to_string())) }));
}

#[test]
fn test_parse_number_overflow() {
    // fits exactly
    assert_eq!(parse_str("2147483647"), Ok(Expr::Number(2147483647)));
    // one past the largest 32-bit signed integer
    assert_eq!(parse_str("2147483648"), Err(SError::ParserInvalidNumber));
    assert_eq!(parse_str("9999999999999999999"), Err(SError::ParserInvalidNumber));
}

#[test]
fn test_parse_unexpected_token() {
    assert_eq!(parse_str(")"), Err(SError::ParserUnexpectedToken));
    assert_eq!(parse_str("f(1,)"), Err(SError::ParserUnexpectedToken));
}

#[test]
fn test_parse_call_missing_comma() {
    assert_eq!(parse_str("f(1 2)"), Err(SError::ParserInvalidCallMissingComma));
}

#[test]
fn test_parse_keywords_are_literals() {
    // the reserved words never read as variables, even before parentheses
    assert_eq!(parse_str("none(1)"), Ok(Expr::NoneLit));
    assert_eq!(parse_str("true = 1"), Ok(Expr::BinaryOp { op: "=".to_string(), lhs: Box::new(Expr::Bool(true)), rhs: Box::new(Expr::Number(1)) }));
}

#[test]
fn test_parse_leading_zeros() {
    assert_eq!(parse_str("00012"), Ok(Expr::Number(12)));
}

#[test]
fn test_unknown_character_is_a_parse_failure() {
    // an unknown character is fatal to tokenization and propagates as a
    // parse failure of its own kind, never conflated with end of input
    assert_eq!(parse_str("1 + @ 2"), Err(SError::LexerUnknownToken));
    assert_eq!(parse_str("1 @"), Err(SError::LexerUnknownToken));
    assert_eq!(parse_str("@"), Err(SError::LexerUnknownToken));
    assert_eq!(parse_str("{1 @}"), Err(SError::LexerUnknownToken));
}

#[test]
fn test_pending_operator_needs_operand() {
    // end of input after a consumed binary operator is a terminal failure
    assert_eq!(parse_str("1 +"), Err(SError::LexerEOF));
    assert_eq!(parse_str("1 * 2 -"), Err(SError::LexerEOF));
    assert_eq!(parse_str("x ="), Err(SError::LexerEOF));
    assert_eq!(parse_str("1 + @"), Err(SError::LexerUnknownToken));
}

#[test]
fn test_parse_stops_at_non_operator() {
    // a parse takes one expression and leaves the rest of the stream alone
    assert_eq!(parse_str("1 ; 2"), Ok(Expr::Number(1)));
    assert_eq!(parse_str(";"), Err(SError::ParserUnexpectedToken));
}
