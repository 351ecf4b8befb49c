use aster::ann::Ann;
use aster::data::Data;
use aster::lex::lex;
use aster::local::Local;
use aster::token::AnnToken;
use aster::token::Token;

#[test]
fn lex_empty() {
    // no source code? no tokens!
    assert_eq!(lex("".to_string()), Some(vec![]));
}

#[test]
fn lex_assignment() {
    let source = "heck = true".to_string();

    let result = vec![
        AnnToken::new(Token::Symbol(Local::new("heck".to_string())), Ann::new(0, 4)),
        AnnToken::new(Token::Assign, Ann::new(5, 1)),
        AnnToken::new(Token::Boolean(Data::Boolean(true)), Ann::new(7, 4)),
    ];

    assert_eq!(lex(source), Some(result));
}

#[test]
fn whitespace() {
    let source = "  true  ;  ".to_string();

    let result = vec![
        AnnToken::new(Token::Boolean(Data::Boolean(true)), Ann::new(2, 4)),
        AnnToken::new(Token::Sep, Ann::new(8, 1)),
    ];

    assert_eq!(lex(source), Some(result));
}

#[test]
fn block() {
    let source = "{\n\thello = true\n\thello\n}".to_string();

    let result = vec![
        AnnToken::new(Token::OpenBracket, Ann::new(0, 1)),
        AnnToken::new(Token::Sep, Ann::new(1, 1)),
        AnnToken::new(Token::Symbol(Local::new("hello".to_string())), Ann::new(3, 5)),
        AnnToken::new(Token::Assign, Ann::new(9, 1)),
        AnnToken::new(Token::Boolean(Data::Boolean(true)), Ann::new(11, 4)),
        AnnToken::new(Token::Sep, Ann::new(15, 1)),
        AnnToken::new(Token::Symbol(Local::new("hello".to_string())), Ann::new(17, 5)),
        AnnToken::new(Token::Sep, Ann::new(22, 1)),
        AnnToken::new(Token::CloseBracket, Ann::new(23, 1)),
    ];

    assert_eq!(lex(source), Some(result));
}

#[test]
fn function() {
    let source = "identity = x -> x\nidentity (identity \"heck\")".to_string();
    let result = vec![
        AnnToken::new(Token::Symbol(Local::new("identity".to_string())), Ann::new(0, 8)),
        AnnToken::new(Token::Assign, Ann::new(9, 1)),
        AnnToken::new(Token::Symbol(Local::new("x".to_string())), Ann::new(11, 1)),
        AnnToken::new(Token::Lambda, Ann::new(13, 2)),
        AnnToken::new(Token::Symbol(Local::new("x".to_string())), Ann::new(16, 1)),
        AnnToken::new(Token::Sep, Ann::new(17, 1)),
        AnnToken::new(Token::Symbol(Local::new("identity".to_string())), Ann::new(18, 8)),
        AnnToken::new(Token::OpenParen, Ann::new(27, 1)),
        AnnToken::new(Token::Symbol(Local::new("identity".to_string())), Ann::new(28, 8)),
        AnnToken::new(Token::Str(Data::Str("heck".to_string())), Ann::new(37, 6)),
        AnnToken::new(Token::CloseParen, Ann::new(43, 1)),
    ];

    assert_eq!(lex(source), Some(result));
}

#[test]
fn lex_false_keyword() {
    let result = vec![AnnToken::new(Token::Boolean(Data::Boolean(false)), Ann::new(0, 5))];
    assert_eq!(lex("false".to_string()), Some(result));
}

#[test]
fn lex_unterminated_string() {
    assert_eq!(lex("\"heck".to_string()), None);
}

#[test]
fn lex_unknown_character() {
    assert_eq!(lex("@".to_string()), None);
}

#[test]
fn lex_lone_dash() {
    assert_eq!(lex("x - y".to_string()), None);
}

#[test]
fn lex_empty_string_token() {
    let result = vec![AnnToken::new(Token::Str(Data::Str("".to_string())), Ann::new(0, 2))];
    assert_eq!(lex("\"\"".to_string()), Some(result));
}

#[test]
fn lex_strips_all_whitespace_but_newline() {
    // form feed, vertical tab and a Unicode space are stripped like spaces
    let source = "\u{0C}true\u{0B}\u{2003};".to_string();
    let result = vec![
        AnnToken::new(Token::Boolean(Data::Boolean(true)), Ann::new(1, 4)),
        AnnToken::new(Token::Sep, Ann::new(7, 1)),
    ];
    assert_eq!(lex(source), Some(result));
}
