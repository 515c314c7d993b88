use lexer::{is_operator, is_valid_ident, tokenize, Lexer, Token};

fn is_eq(expected: &[Token], actual: &[Token]) {
    if expected.len() != actual.len() {
        panic!(
            "expected len is not equal to actual len. expected: {}, actual: {}",
            expected.len(),
            actual.len()
        );
    }

    for (first, second) in expected.iter().zip(actual.iter()) {
        assert_eq!(*first, *second);
    }
}

#[test]
fn parens() {
    let input = "(((((())))))";
    let expected = &[
        Token::OpenParen,
        Token::OpenParen,
        Token::OpenParen,
        Token::OpenParen,
        Token::OpenParen,
        Token::OpenParen,
        Token::CloseParen,
        Token::CloseParen,
        Token::CloseParen,
        Token::CloseParen,
        Token::CloseParen,
        Token::CloseParen,
        Token::EOF,
    ];
    let actual: Vec<Token> = tokenize(input);
    is_eq(expected, &actual);
}

#[test]
fn ident() {
    let input = "(+ 1 1)";
    let expected = &[
        Token::OpenParen,
        Token::Identifier("+".into()),
        Token::InvalidToken,
        Token::InvalidToken,
        Token::CloseParen,
        Token::EOF,
    ];
    let actual: Vec<Token> = tokenize(input)
        .into_iter()
        .filter(|t| *t != Token::Whitespace)
        .collect();
    println!("Expected: {:?}", expected);
    println!("Actual: {:?}", actual);
    is_eq(expected, &actual);
}

#[test]
fn single_run_without_separators() {
    let actual = tokenize("1+/a");
    let expected = &[
        Token::InvalidToken,
        Token::Identifier("+/a".into()),
        Token::EOF,
    ];
    is_eq(expected, &actual);
}

#[test]
fn unrecognized_character() {
    let actual = tokenize("#");
    let expected = &[Token::InvalidToken, Token::EOF];
    is_eq(expected, &actual);
}

#[test]
fn empty_input() {
    let actual = tokenize("");
    let expected = &[Token::EOF];
    is_eq(expected, &actual);
}

#[test]
fn eof_is_last_and_unique() {
    for input in ["", "(((((())))))", "(+ 1 1)", "# # #", "abc", "  "] {
        let tokens = tokenize(input);
        let eof_count = tokens.iter().filter(|t| **t == Token::EOF).count();
        assert_eq!(eof_count, 1);
        assert_eq!(*tokens.last().unwrap(), Token::EOF);
    }
}

#[test]
fn nothing_after_eof() {
    let mut lexer = Lexer::new("(a)");
    let mut last = None;
    loop {
        match lexer.next_token() {
            Some(t) => last = Some(t),
            None => break,
        }
    }
    assert_eq!(last, Some(Token::EOF));
    assert_eq!(lexer.next_token(), None);
    assert_eq!(lexer.next_token(), None);
    assert_eq!(lexer.next_token(), None);
}

#[test]
fn spans_reproduce_input() {
    let input = "(ab)+/c()";
    let mut rebuilt = String::new();
    for token in tokenize(input) {
        match token {
            Token::OpenParen => rebuilt.push('('),
            Token::CloseParen => rebuilt.push(')'),
            Token::Identifier(text) => rebuilt.push_str(&text),
            Token::EOF => {}
            other => panic!("unexpected token: {:?}", other),
        }
    }
    assert_eq!(rebuilt, input);
}

#[test]
fn identifiers_nonempty_and_valid() {
    for input in ["abc de+f", "(+ x yz)", "a#b", "//++"] {
        for token in tokenize(input) {
            if let Token::Identifier(text) = token {
                assert!(!text.is_empty());
                assert!(text.chars().all(is_valid_ident));
            }
        }
    }
}

#[test]
fn whitespace_not_coalesced() {
    let actual = tokenize("a  b");
    let expected = &[
        Token::Identifier("a".into()),
        Token::Whitespace,
        Token::Whitespace,
        Token::Identifier("b".into()),
        Token::EOF,
    ];
    is_eq(expected, &actual);
    let actual = tokenize(" \t\n");
    let expected = &[
        Token::Whitespace,
        Token::Whitespace,
        Token::Whitespace,
        Token::EOF,
    ];
    is_eq(expected, &actual);
}

#[test]
fn operator_characters() {
    assert!(is_operator('+'));
    assert!(is_operator('/'));
    assert!(!is_operator('-'));
    assert!(!is_operator('a'));
    assert!(!is_operator(' '));
}

#[test]
fn identifier_characters() {
    assert!(is_valid_ident('a'));
    assert!(is_valid_ident('Z'));
    assert!(is_valid_ident('+'));
    assert!(is_valid_ident('/'));
    assert!(!is_valid_ident('1'));
    assert!(!is_valid_ident(' '));
    assert!(!is_valid_ident('\t'));
    assert!(!is_valid_ident('('));
    assert!(!is_valid_ident(')'));
    assert!(!is_valid_ident('#'));
}

#[test]
fn maximal_identifier_runs() {
    let actual = tokenize("ab+cd ef");
    let expected = &[
        Token::Identifier("ab+cd".into()),
        Token::Whitespace,
        Token::Identifier("ef".into()),
        Token::EOF,
    ];
    is_eq(expected, &actual);
}

#[test]
fn parens_break_identifier_runs() {
    let actual = tokenize("a(b)c");
    let expected = &[
        Token::Identifier("a".into()),
        Token::OpenParen,
        Token::Identifier("b".into()),
        Token::CloseParen,
        Token::Identifier("c".into()),
        Token::EOF,
    ];
    is_eq(expected, &actual);
}
