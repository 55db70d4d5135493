use minic::lexer::{Aides, DefaultLexer, KeyWord, LexerError, Operator, Token, Unclosed};

fn lex_all(src: &str) -> Vec<Result<Token, LexerError>> {
    let mut lexer = DefaultLexer::new(src.as_bytes().to_vec());
    let mut out = Vec::new();
    loop {
        let t = lexer.lex();
        let stop = matches!(t, Ok(Token::Eof) | Err(_));
        out.push(t);
        if stop {
            return out;
        }
    }
}

fn only_token(src: &str) -> Token {
    let mut all = lex_all(src);
    assert_eq!(all.len(), 2, "{} should lex to one token", src);
    assert!(matches!(all[1], Ok(Token::Eof)));
    all.remove(0).unwrap()
}

#[test]
fn longest_match_add_equal() {
    assert_eq!(only_token("+="), Token::Oper(Operator::AddEqual));
}

#[test]
fn longest_match_all_pairs() {
    let cases = [
        ("++", Operator::Plus),
        ("--", Operator::Minus),
        ("-=", Operator::SubEqual),
        ("->", Operator::RightArrow),
        ("==", Operator::Equal),
        ("!=", Operator::NotEqual),
        (">=", Operator::GreateEqual),
        ("<=", Operator::LessEqual),
        ("&&", Operator::LogicAnd),
        ("||", Operator::LogicOr),
        ("<<", Operator::BitShiftLeft),
        (">>", Operator::BitShiftRight),
        ("<-", Operator::LeftArrow),
    ];
    for (src, op) in cases {
        assert_eq!(only_token(src), Token::Oper(op), "{}", src);
    }
}

#[test]
fn one_byte_operators_leave_the_next_byte() {
    let cases = [
        ("+a", Operator::Add),
        ("-a", Operator::Sub),
        ("=a", Operator::Assign),
        (">a", Operator::Greate),
        ("<a", Operator::Less),
        ("!a", Operator::LogicNot),
        ("&a", Operator::BitAnd),
        ("|a", Operator::BitOr),
        ("/a", Operator::Div),
    ];
    for (src, op) in cases {
        let all = lex_all(src);
        assert_eq!(all.len(), 3, "{}", src);
        assert_eq!(*all[0].as_ref().unwrap(), Token::Oper(op), "{}", src);
        assert_eq!(*all[1].as_ref().unwrap(), Token::Ident("a".to_string()), "{}", src);
    }
}

#[test]
fn single_byte_tokens() {
    let all = lex_all(".,;:*%~?(){}@");
    let expected = vec![
        Token::Aide(Aides::Dot),
        Token::Aide(Aides::Comma),
        Token::Aide(Aides::Semicolon),
        Token::Aide(Aides::Colon),
        Token::Oper(Operator::Star),
        Token::Oper(Operator::Mod),
        Token::Oper(Operator::BitNot),
        Token::Oper(Operator::Question),
        Token::Oper(Operator::LeftParen),
        Token::Oper(Operator::RightParen),
        Token::Oper(Operator::LeftBrace),
        Token::Oper(Operator::RightBrace),
        Token::Unknown,
        Token::Eof,
    ];
    let got: Vec<Token> = all.into_iter().map(|t| t.unwrap()).collect();
    assert_eq!(got, expected);
}

#[test]
fn keyword_versus_identifier() {
    assert_eq!(only_token("int"), Token::KeyWord(KeyWord::Int));
    assert_eq!(only_token("integer"), Token::Ident("integer".to_string()));
    assert_eq!(only_token("in"), Token::Ident("in".to_string()));
    assert_eq!(only_token("float"), Token::KeyWord(KeyWord::Float));
    assert_eq!(only_token("fn"), Token::KeyWord(KeyWord::Fn));
    assert_eq!(only_token("return"), Token::KeyWord(KeyWord::Return));
    assert_eq!(only_token("var"), Token::KeyWord(KeyWord::Var));
    assert_eq!(only_token("_x"), Token::Ident("_x".to_string()));
}

#[test]
fn identifier_continues_with_letters_only() {
    let all = lex_all("ab1");
    assert_eq!(*all[0].as_ref().unwrap(), Token::Ident("ab".to_string()));
    assert_eq!(*all[1].as_ref().unwrap(), Token::Number(1));
    assert_eq!(*all[2].as_ref().unwrap(), Token::Eof);
}

#[test]
fn is_type_keywords() {
    assert!(KeyWord::Int.is_type());
    assert!(KeyWord::Float.is_type());
    assert!(!KeyWord::Fn.is_type());
    assert!(!KeyWord::Return.is_type());
    assert!(!KeyWord::Var.is_type());
}

#[test]
fn line_counting() {
    let mut lexer = DefaultLexer::new(b"\n\n".to_vec());
    assert_eq!(lexer.line(), 0);
    assert_eq!(lexer.lex().unwrap(), Token::Eof);
    assert_eq!(lexer.line(), 2);
}

#[test]
fn line_counting_between_tokens() {
    let mut lexer = DefaultLexer::new(b"a\r\n\tb c\n".to_vec());
    assert_eq!(lexer.lex().unwrap(), Token::Ident("a".to_string()));
    assert_eq!(lexer.line(), 0);
    assert_eq!(lexer.lex().unwrap(), Token::Ident("b".to_string()));
    assert_eq!(lexer.line(), 3);
    assert_eq!(lexer.lex().unwrap(), Token::Ident("c".to_string()));
    assert_eq!(lexer.lex().unwrap(), Token::Eof);
    assert_eq!(lexer.line(), 4);
}

#[test]
fn unterminated_block_comment() {
    let all = lex_all("/* abc");
    assert_eq!(all.len(), 1);
    assert_eq!(all[0].as_ref().unwrap_err(), &LexerError::Unterminated(Unclosed::Comment));
}

#[test]
fn unterminated_string() {
    let all = lex_all("\"abc");
    assert_eq!(all.len(), 1);
    assert_eq!(all[0].as_ref().unwrap_err(), &LexerError::Unterminated(Unclosed::Str));
}

#[test]
fn block_comment_with_star_inside() {
    let all = lex_all("/* a * b */x");
    assert_eq!(*all[0].as_ref().unwrap(), Token::Aide(Aides::MultNote));
    assert_eq!(*all[1].as_ref().unwrap(), Token::Ident("x".to_string()));
}

#[test]
fn line_comment_runs_to_newline() {
    let mut lexer = DefaultLexer::new(b"// note\nx".to_vec());
    assert_eq!(lexer.lex().unwrap(), Token::Aide(Aides::Note));
    assert_eq!(lexer.lex().unwrap(), Token::Ident("x".to_string()));
    assert_eq!(lexer.line(), 1);
}

#[test]
fn string_literal_text() {
    assert_eq!(only_token("\"ab c\""), Token::Str("ab c".to_string()));
    assert_eq!(only_token("\"\""), Token::Str(String::new()));
}

#[test]
fn slash_as_last_byte() {
    let all = lex_all("a /");
    assert_eq!(*all[0].as_ref().unwrap(), Token::Ident("a".to_string()));
    assert_eq!(all[1].as_ref().unwrap_err(), &LexerError::UnExpected);
}

#[test]
fn numbers() {
    assert_eq!(only_token("12345"), Token::Number(12345));
    assert_eq!(only_token("0"), Token::Number(0));
    let max = isize::MAX.to_string();
    assert_eq!(only_token(&max), Token::Number(isize::MAX));
}

#[test]
fn number_too_large() {
    let src = format!("{}0", isize::MAX);
    let all = lex_all(&src);
    assert_eq!(all.len(), 1);
    assert_eq!(all[0].as_ref().unwrap_err(), &LexerError::TooLarge);
}

#[test]
fn token_level() {
    assert_eq!(Token::Oper(Operator::LogicOr).level(), 1);
    assert_eq!(Token::Oper(Operator::Equal).level(), 5);
    assert_eq!(Token::Oper(Operator::Add).level(), 8);
    assert_eq!(Token::Oper(Operator::Star).level(), 9);
    assert_eq!(Token::Oper(Operator::Assign).level(), 0);
    assert_eq!(Token::Ident("a".to_string()).level(), 0);
}
