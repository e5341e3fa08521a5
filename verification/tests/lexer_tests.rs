use slang::lexer::error::LexerError;
use slang::lexer::token::{gettok_str, Token};
use slang::lexer::tokenizer::tokenize;

#[test]
fn test_full_function() {
    let code = "\
fn main(x, y) {
    return 1
}";

    assert_eq!(tokenize(code).into_vec(), vec![
        Token::Function, Token::Identifier("main".to_string()), Token::LParen,
            Token::Identifier("x".to_string()), Token::Comma, Token::Identifier("y".to_string()),
        Token::RParen, Token::LBrack,
            Token::Return, Token::Number("1".to_string()),
        Token::RBrack,
    ]);
}

#[test]
fn token_test_get_number() {
    assert_eq!(gettok_str("0"), Ok(Token::Number("0".to_string())));
    assert_eq!(gettok_str(" 1"), Ok(Token::Number("1".to_string())));
    assert_eq!(gettok_str("2  3"), Ok(Token::Number("2".to_string())));
}

#[test]
fn token_test_get_identifier() {
    assert_eq!(gettok_str("g"), Ok(Token::Identifier("g".to_string())));
    assert_eq!(gettok_str("galileo"), Ok(Token::Identifier("galileo".to_string())));
    assert_eq!(gettok_str("gali leo"), Ok(Token::Identifier("gali".to_string())));
    assert_eq!(gettok_str("g4l1l30"), Ok(Token::Identifier("g4l1l30".to_string())));
    assert_eq!(gettok_str("gali_leo"), Ok(Token::Identifier("gali_leo".to_string())));

    assert_eq!(gettok_str("fn"), Ok(Token::Function));
    assert_eq!(gettok_str("return"), Ok(Token::Return));
    assert_eq!(gettok_str("let"), Ok(Token::Let));
    assert_eq!(gettok_str("and"), Ok(Token::LAnd));
    assert_eq!(gettok_str("or"), Ok(Token::LOr));
    assert_eq!(gettok_str("not"), Ok(Token::LNot));
}

#[test]
fn test_misc() {
    assert_eq!(gettok_str(""), Err(LexerError::EOF));
    assert_eq!(gettok_str("("), Ok(Token::LParen));
    assert_eq!(gettok_str(")"), Ok(Token::RParen));
    assert_eq!(gettok_str("{"), Ok(Token::LBrack));
    assert_eq!(gettok_str("}"), Ok(Token::RBrack));
    assert_eq!(gettok_str(","), Ok(Token::Comma));
    assert_eq!(gettok_str(";"), Ok(Token::SemiColon));
    assert_eq!(gettok_str("="), Ok(Token::Assign));
    assert_eq!(gettok_str("+"), Ok(Token::Add));
    assert_eq!(gettok_str("-"), Ok(Token::Sub));
    assert_eq!(gettok_str("*"), Ok(Token::Mul));
    assert_eq!(gettok_str("/"), Ok(Token::Div));
    assert_eq!(gettok_str("=="), Ok(Token::Equals));
    assert_eq!(gettok_str("= ="), Ok(Token::Assign));
    assert_eq!(gettok_str("!="), Ok(Token::Nequals));
    assert_eq!(gettok_str("<"), Ok(Token::LeThan));
    assert_eq!(gettok_str("<="), Ok(Token::LeqThan));
    assert_eq!(gettok_str(">"), Ok(Token::GeThan));
    assert_eq!(gettok_str(">="), Ok(Token::GeqThan));
}

#[test]
fn test_unknown_character() {
    assert_eq!(gettok_str("@"), Err(LexerError::UnknownToken));
    assert_eq!(gettok_str("#7"), Err(LexerError::UnknownToken));
}

#[test]
fn test_digit_string_is_one_token() {
    assert_eq!(tokenize("12345").into_vec(), vec![Token::Number("12345".to_string())]);
    assert_eq!(tokenize("007").into_vec(), vec![Token::Number("007".to_string())]);
    assert_eq!(tokenize("9").into_vec(), vec![Token::Number("9".to_string())]);
}

#[test]
fn test_tokenize_surfaces_unknown() {
    // an unknown character ends the stream, and the stream remembers that it
    // ended in failure rather than at the ordinary end of input
    let toks = tokenize("1 + @ 2");
    assert_eq!(toks.terminator(), LexerError::UnknownToken);
    assert_eq!(
        toks.into_vec(),
        vec![Token::Number("1".to_string()), Token::Add]
    );
    assert_eq!(tokenize("1 + 2").terminator(), LexerError::EOF);
    assert_eq!(tokenize("").terminator(), LexerError::EOF);
}

#[test]
fn test_tokens_next_and_peek() {
    let mut toks = tokenize("x = 1");
    assert_eq!(toks.peek(), Some(&Token::Identifier("x".to_string())));
    assert_eq!(toks.next(), Some(Token::Identifier("x".to_string())));
    assert_eq!(toks.next(), Some(Token::Assign));
    assert_eq!(toks.next(), Some(Token::Number("1".to_string())));
    assert_eq!(toks.peek(), None);
    assert_eq!(toks.next(), None);
}

#[test]
fn test_token_queries() {
    assert!(Token::Add.is_binary_operator());
    assert!(Token::Assign.is_binary_operator());
    assert!(Token::LNot.is_binary_operator());
    assert!(!Token::LParen.is_binary_operator());
    assert!(!Token::Number("1".to_string()).is_binary_operator());

    assert_eq!(Token::Assign.get_precedence(), 2);
    assert_eq!(Token::LAnd.get_precedence(), 9);
    assert_eq!(Token::LOr.get_precedence(), 9);
    assert_eq!(Token::Equals.get_precedence(), 10);
    assert_eq!(Token::LeqThan.get_precedence(), 10);
    assert_eq!(Token::Add.get_precedence(), 20);
    assert_eq!(Token::Sub.get_precedence(), 20);
    assert_eq!(Token::Mul.get_precedence(), 40);
    assert_eq!(Token::Div.get_precedence(), 40);
    assert_eq!(Token::RBrack.get_precedence(), -1);
    assert_eq!(Token::LNot.get_precedence(), -1);
}

#[test]
fn test_whitespace_variety() {
    assert_eq!(gettok_str("\t\n\r 5"), Ok(Token::Number("5".to_string())));
    assert_eq!(gettok_str("   "), Err(LexerError::EOF));
}

#[test]
fn test_keyword_needs_word_boundary() {
    // a keyword prefix inside a longer word stays an identifier
    assert_eq!(gettok_str("fnx"), Ok(Token::Identifier("fnx".to_string())));
    assert_eq!(gettok_str("returned"), Ok(Token::Identifier("returned".to_string())));
    assert_eq!(gettok_str("android"), Ok(Token::Identifier("android".to_string())));
}
