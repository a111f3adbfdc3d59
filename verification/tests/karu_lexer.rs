use karu::karu_lexer::{Lexer, Token};

fn toks(src: &str) -> Vec<(Token, String)> {
    Lexer::tokenize(src).unwrap()
}

fn kinds(src: &str) -> Vec<Token> {
    toks(src).into_iter().map(|t| t.0).collect()
}

fn number_of(t: &(Token, String)) -> f64 {
    assert_eq!(t.0, Token::Number);
    t.1.parse::<f64>().unwrap()
}

#[test]
fn test_lex_keywords() {
    let tokens = kinds("allow deny if and or not in forall exists");
    assert_eq!(
        tokens,
        vec![
            Token::Allow,
            Token::Deny,
            Token::If,
            Token::And,
            Token::Or,
            Token::Not,
            Token::In,
            Token::Forall,
            Token::Exists,
            Token::Eof,
        ]
    );
}

#[test]
fn test_lex_operators() {
    let tokens = kinds("== != < > <= >=");
    assert_eq!(
        tokens,
        vec![Token::Eq, Token::Ne, Token::Lt, Token::Gt, Token::Le, Token::Ge, Token::Eof]
    );
}

#[test]
fn test_lex_literals() {
    let tokens = toks(r#"true false null 42 3.5 "hello""#);
    assert_eq!(tokens.len(), 7);
    assert_eq!(tokens[0].0, Token::True);
    assert_eq!(tokens[1].0, Token::False);
    assert_eq!(tokens[2].0, Token::Null);
    assert_eq!(number_of(&tokens[3]), 42.0);
    assert_eq!(number_of(&tokens[4]), 3.5);
    assert_eq!(tokens[5], (Token::Str, "hello".to_string()));
    assert_eq!(tokens[6].0, Token::Eof);
}

#[test]
fn test_lex_identifiers() {
    let tokens = toks("foo bar_baz _private");
    assert_eq!(
        tokens,
        vec![
            (Token::Ident, "foo".to_string()),
            (Token::Ident, "bar_baz".to_string()),
            (Token::Ident, "_private".to_string()),
            (Token::Eof, String::new()),
        ]
    );
}

#[test]
fn test_lex_delimiters() {
    let tokens = kinds("() {} [] , : ; . _");
    assert_eq!(
        tokens,
        vec![
            Token::LParen,
            Token::RParen,
            Token::LBrace,
            Token::RBrace,
            Token::LBracket,
            Token::RBracket,
            Token::Comma,
            Token::Colon,
            Token::Semi,
            Token::Dot,
            Token::Underscore,
            Token::Eof,
        ]
    );
}

#[test]
fn test_lex_string_escapes() {
    let tokens = toks(r#""hello\nworld""#);
    assert_eq!(tokens, vec![(Token::Str, "hello\nworld".to_string()), (Token::Eof, String::new())]);
}

#[test]
fn test_lex_comments_stripped() {
    let tokens = kinds("allow // this is a comment\ndeny");
    assert_eq!(tokens, vec![Token::Allow, Token::Deny, Token::Eof]);
}

#[test]
fn test_lex_negative_number() {
    let tokens = toks("-42 -3.5");
    assert_eq!(tokens.len(), 3);
    assert_eq!(number_of(&tokens[0]), -42.0);
    assert_eq!(number_of(&tokens[1]), -3.5);
    assert_eq!(tokens[2].0, Token::Eof);
}

#[test]
fn test_lex_rule_example() {
    let src = r#"allow(actor, action, resource) if action == "read";"#;
    let tokens = toks(src);
    assert!(tokens.iter().any(|t| t.0 == Token::Allow));
    assert!(tokens.iter().any(|t| t.0 == Token::If));
    assert!(tokens.iter().any(|t| t.0 == Token::Eq));
    assert!(tokens.contains(&(Token::Str, "read".to_string())));
}

#[test]
fn test_lex_object_pattern() {
    let src = r#"{ name: "lhs", value: 10 }"#;
    let tokens = toks(src);
    assert_eq!(tokens.len(), 10);
    assert_eq!(tokens[0].0, Token::LBrace);
    assert_eq!(tokens[1], (Token::Ident, "name".to_string()));
    assert_eq!(tokens[2].0, Token::Colon);
    assert_eq!(tokens[3], (Token::Str, "lhs".to_string()));
    assert_eq!(tokens[4].0, Token::Comma);
    assert_eq!(tokens[5], (Token::Ident, "value".to_string()));
    assert_eq!(tokens[6].0, Token::Colon);
    assert_eq!(number_of(&tokens[7]), 10.0);
    assert_eq!(tokens[8].0, Token::RBrace);
    assert_eq!(tokens[9].0, Token::Eof);
}

#[test]
fn test_lex_error_unterminated_string() {
    let result = Lexer::tokenize(r#""hello"#);
    assert!(result.is_err());
    let err = result.unwrap_err();
    assert!(err.message.contains("Unterminated"));
}

#[test]
fn test_lex_test_and_expect_keywords() {
    let tokens = toks(r#"test "hello" { expect allow }"#);
    assert_eq!(
        tokens,
        vec![
            (Token::Test, String::new()),
            (Token::Str, "hello".to_string()),
            (Token::LBrace, String::new()),
            (Token::Expect, String::new()),
            (Token::Allow, String::new()),
            (Token::RBrace, String::new()),
            (Token::Eof, String::new()),
        ]
    );
}

#[test]
fn test_lex_error_unknown_character() {
    let result = Lexer::tokenize("@");
    assert!(result.is_err());
    let err = result.unwrap_err();
    assert!(err.message.contains("Unexpected character"));
}

#[test]
fn lex_positions_and_errors_are_exact() {
    let t = Lexer::tokenize_spanned("allow\n  deny").unwrap();
    assert_eq!((t[0].line, t[0].column), (1, 1));
    assert_eq!((t[1].line, t[1].column), (2, 3));
    assert_eq!((t[2].line, t[2].column), (2, 7));
    let e = Lexer::tokenize("a = b").unwrap_err();
    assert_eq!(e.message, "Expected '==' for equality");
    assert_eq!((e.line, e.column), (1, 4));
    let e = Lexer::tokenize("x ! y").unwrap_err();
    assert_eq!(e.message, "Expected '!=' for not-equal");
    let e = Lexer::tokenize("1.2.3").unwrap_err();
    assert_eq!(e.message, "Invalid number: 1.2.3");
    assert_eq!((e.line, e.column), (1, 6));
    let e = Lexer::tokenize("-1e").unwrap_err();
    assert_eq!(e.message, "Invalid number: 1e");
    let e = Lexer::tokenize("\"abc\\").unwrap_err();
    assert_eq!(e.message, "Unterminated string escape");
    let e = Lexer::tokenize("  \"abc").unwrap_err();
    assert_eq!((e.line, e.column), (1, 4));
    let t = toks("1e5 2E-3 7. x-1");
    assert_eq!(t[0], (Token::Number, "1e5".to_string()));
    assert_eq!(t[1], (Token::Number, "2E-3".to_string()));
    assert_eq!(t[2], (Token::Number, "7.".to_string()));
    assert_eq!(t[3], (Token::Ident, "x".to_string()));
    assert_eq!(t[4], (Token::Number, "-1".to_string()));
    let e = Lexer::tokenize("a--b").unwrap_err();
    assert_eq!(e.message, "Unexpected character: '-'");
}

#[test]
fn lex_keywords_underscore_and_unicode() {
    let t = toks("like use schema mod actor resource action assert abstract import on is __x é");
    let k: Vec<Token> = t.iter().map(|x| x.0).collect();
    assert_eq!(
        k,
        vec![
            Token::Like,
            Token::Use,
            Token::Schema,
            Token::Mod,
            Token::Actor,
            Token::Resource,
            Token::Action,
            Token::Assert,
            Token::Abstract,
            Token::Import,
            Token::On,
            Token::Is,
            Token::Underscore,
            Token::Ident,
            Token::Ident,
            Token::Eof,
        ]
    );
    assert_eq!(t[13].1, "_x");
    assert_eq!(t[14].1, "é");
    let mut lx = Lexer::new("// note here  \nallow");
    let c = lx.next_spanned().unwrap();
    assert_eq!((c.token, c.text.as_str()), (Token::Comment, "note here"));
    let a = lx.next_spanned().unwrap();
    assert_eq!(a.token, Token::Allow);
    assert_eq!(lx.next_spanned().unwrap().token, Token::Eof);
}

#[test]
fn punctuation_spellings_lex_back_to_their_tokens() {
    let cases = [
        ("(", Token::LParen),
        (")", Token::RParen),
        ("{", Token::LBrace),
        ("}", Token::RBrace),
        ("[", Token::LBracket),
        ("]", Token::RBracket),
        (",", Token::Comma),
        (":", Token::Colon),
        (";", Token::Semi),
        (".", Token::Dot),
        ("|", Token::Pipe),
        ("?", Token::Question),
        ("<", Token::Lt),
        (">", Token::Gt),
        ("==", Token::Eq),
        ("!=", Token::Ne),
        ("<=", Token::Le),
        (">=", Token::Ge),
    ];
    for (text, t) in cases {
        let got = toks(text);
        assert_eq!(got.len(), 2, "{}", text);
        assert_eq!(got[0].0, t);
        assert_eq!(got[1].0, Token::Eof);
    }
}
