use hldr::{lex, tokenize, Keyword, LexError, LexErrorKind, Position, Symbol, Token, TokenPosition};

fn tp(start: (usize, usize), end: (usize, usize), token: Token) -> TokenPosition {
    TokenPosition {
        token,
        start_position: Position { line: start.0, column: start.1 },
        end_position: Position { line: end.0, column: end.1 },
    }
}

fn nl(line: usize, column: usize) -> TokenPosition {
    tp((line, column), (line, column), Token::Newline)
}

fn unexpected(c: char, line: usize, column: usize) -> LexError {
    LexError { kind: LexErrorKind::UnexpectedCharacter(c), position: Position { line, column } }
}

fn ident(s: &str) -> Token {
    Token::Identifier(s.to_owned())
}

#[test]
fn test_empty_input() {
    assert_eq!(tokenize(""), Ok(Vec::new()));
}

// A lone carriage return is a line break, and so is a carriage return with its line feed.
#[test]
fn test_input_with_newlines() {
    assert_eq!(
        tokenize("\n\r\r\n\n"),
        Ok(vec![nl(1, 1), nl(2, 1), tp((3, 1), (3, 2), Token::Newline), nl(4, 1)])
    );
}

#[test]
fn test_comment_and_newlines() {
    let input = "\n-- this is -- a comment\r\n";
    assert_eq!(tokenize(input), Ok(vec![nl(1, 1), tp((2, 24), (2, 25), Token::Newline)]));
}

#[test]
fn test_keywords() {
    assert_eq!(
        tokenize("as"),
        Ok(vec![tp((1, 1), (1, 2), Token::Keyword(Keyword::As)), nl(1, 3)])
    );
}

#[test]
fn test_bools() {
    assert_eq!(
        tokenize("true t false f"),
        Ok(vec![
            tp((1, 1), (1, 4), Token::Boolean(true)),
            tp((1, 6), (1, 6), Token::Boolean(true)),
            tp((1, 8), (1, 12), Token::Boolean(false)),
            tp((1, 14), (1, 14), Token::Boolean(false)),
            nl(1, 15),
        ])
    );
}

#[test]
fn test_identifiers() {
    for ident_text in
        ["something", "anything", "more_things", "__and_more__", "even_this_💝_", "_123", "_1__23"]
    {
        let n = ident_text.chars().count();
        assert_eq!(
            tokenize(ident_text),
            Ok(vec![tp((1, 1), (1, n), ident(ident_text)), nl(1, n + 1)])
        );
    }
}

#[test]
fn test_quoted_identifiers() {
    let input = "\"this is an identifier\" \"and so
        is this\"";
    assert_eq!(
        tokenize(input),
        Ok(vec![
            tp((1, 1), (1, 23), Token::QuotedIdentifier("this is an identifier".to_string())),
            tp((1, 25), (2, 16), Token::QuotedIdentifier("and so\n        is this".to_string())),
            nl(2, 17),
        ])
    );
}

// Signs start comments and digit groups are not read, so only unsigned plain numbers lex.
#[test]
fn test_numbers() {
    for num in ["0", "0.", ".0", "123", "12.34", "1.", ".2"] {
        let n = num.chars().count();
        assert_eq!(
            tokenize(num),
            Ok(vec![tp((1, 1), (1, n), Token::Number(num.to_string())), nl(1, n + 1)])
        );
    }
    for (num, c) in [("-456", '4'), ("-45.67", '4'), ("-3.", '3'), ("-.4", '.')] {
        assert_eq!(tokenize(num), Err(unexpected(c, 1, 2)));
    }
    for (num, column) in [("1_2", 2), ("1_2_3", 2), ("12_34", 3), ("1_2.3_4", 2), ("1_2.3_4_5", 2)] {
        assert_eq!(tokenize(num), Err(unexpected('_', 1, column)));
    }
}

#[test]
fn test_malformed_numbers() {
    for (input, column) in [("1.1. ", 4), (".1.1 ", 3)] {
        assert_eq!(tokenize(input), Err(unexpected('.', 1, column)), "{}", input);
    }
    for (input, column) in [("12_.34", 3), ("12__34", 3), ("12._34", 4), ("123_ ", 4), ("12.34_ ", 6)] {
        assert_eq!(tokenize(input), Err(unexpected('_', 1, column)), "{}", input);
    }
}

#[test]
fn test_text() {
    let input = "'this is text'  'and this is too, isn''t that cool?' 'and
        this!'";
    assert_eq!(
        tokenize(input),
        Ok(vec![
            tp((1, 1), (1, 14), Token::Text("this is text".to_string())),
            tp((1, 17), (1, 52), Token::Text("and this is too, isn't that cool?".to_string())),
            tp((1, 54), (2, 14), Token::Text("and\n        this!".to_string())),
            nl(2, 15),
        ])
    );
}

#[test]
fn test_underscores() {
    assert_eq!(
        tokenize("_ _ _one two_"),
        Ok(vec![
            tp((1, 1), (1, 1), Token::Symbol(Symbol::Underscore)),
            tp((1, 3), (1, 3), Token::Symbol(Symbol::Underscore)),
            tp((1, 5), (1, 8), ident("_one")),
            tp((1, 10), (1, 13), ident("two_")),
            nl(1, 14),
        ])
    );
}

#[test]
fn test_other_symbols_followed_by_identifiers() {
    let input = r#" .one ."two" @three @"four" "#;
    assert_eq!(
        tokenize(input),
        Ok(vec![
            tp((1, 1), (1, 1), Token::Indent(" ".to_string())),
            tp((1, 2), (1, 2), Token::Symbol(Symbol::Period)),
            tp((1, 3), (1, 5), ident("one")),
            tp((1, 7), (1, 7), Token::Symbol(Symbol::Period)),
            tp((1, 8), (1, 12), Token::QuotedIdentifier("two".to_string())),
            tp((1, 14), (1, 14), Token::Symbol(Symbol::AtSign)),
            tp((1, 15), (1, 19), ident("three")),
            tp((1, 21), (1, 21), Token::Symbol(Symbol::AtSign)),
            tp((1, 22), (1, 27), Token::QuotedIdentifier("four".to_string())),
            nl(1, 29),
        ])
    );
}

#[test]
fn mod_test_empty_input() {
    assert_eq!(lex(""), Ok(Vec::new()));
}

// NULs are skipped; the tab between them separates nothing, and the line still ends.
#[test]
fn test_null_input() {
    let input = format!("{}\t{}", '\0', '\0');
    assert_eq!(lex(&input), Ok(vec![Token::Newline]));
}

#[test]
fn mod_test_input_with_newlines() {
    assert_eq!(
        lex("\n\r\r\n\n"),
        Ok(vec![Token::Newline, Token::Newline, Token::Newline, Token::Newline])
    );
}

#[test]
fn mod_test_comment_and_newlines() {
    assert_eq!(lex("\n-- this is -- a comment\r\n"), Ok(vec![Token::Newline, Token::Newline]));
}

#[test]
fn mod_test_keywords() {
    assert_eq!(lex("as"), Ok(vec![Token::Keyword(Keyword::As), Token::Newline]));
}

#[test]
fn mod_test_bools() {
    assert_eq!(
        lex("true t false f"),
        Ok(vec![
            Token::Boolean(true),
            Token::Boolean(true),
            Token::Boolean(false),
            Token::Boolean(false),
            Token::Newline,
        ])
    );
}

#[test]
fn mod_test_identifiers() {
    for ident_text in
        ["something", "anything", "more_things", "__and_more__", "even_this_💝_", "_123", "_1__23"]
    {
        assert_eq!(lex(ident_text), Ok(vec![ident(ident_text), Token::Newline]));
    }
}

#[test]
fn mod_test_quoted_identifiers() {
    let input = "\"this is an identifier\" \"and so
        is this\"";
    assert_eq!(
        lex(input),
        Ok(vec![
            Token::QuotedIdentifier("this is an identifier".to_string()),
            Token::QuotedIdentifier("and so\n        is this".to_string()),
            Token::Newline,
        ])
    );
}

#[test]
fn mod_test_numbers() {
    for num in ["0", "0.", ".0", "123", "12.34", "1.", ".2"] {
        assert_eq!(lex(num), Ok(vec![Token::Number(num.to_string()), Token::Newline]));
    }
    for (num, c) in [("-456", '4'), ("-45.67", '4'), ("-3.", '3'), ("-.4", '.')] {
        assert_eq!(lex(num), Err(unexpected(c, 1, 2)));
    }
    for num in ["1_2", "1_2_3", "1_2.3_4", "1_2.3_4_5"] {
        assert_eq!(lex(num), Err(unexpected('_', 1, 2)));
    }
    assert_eq!(lex("12_34"), Err(unexpected('_', 1, 3)));
}

#[test]
fn mod_test_malformed_numbers() {
    for (input, column) in [("1.1.", 4), (".1.1", 3)] {
        assert_eq!(lex(input), Err(unexpected('.', 1, column)), "{}", input);
    }
    for (input, column) in [("12_.34", 3), ("123_", 4), ("12__34", 3), ("12._34", 4), ("12.34_", 6)] {
        assert_eq!(lex(input), Err(unexpected('_', 1, column)), "{}", input);
    }
}

#[test]
fn mod_test_text() {
    let input = "'this is text'  'and this is too, isn''t that cool?' 'and
        this!'";
    assert_eq!(
        lex(input),
        Ok(vec![
            Token::Text("this is text".to_string()),
            Token::Text("and this is too, isn't that cool?".to_string()),
            Token::Text("and\n        this!".to_string()),
            Token::Newline,
        ])
    );
}

#[test]
fn mod_test_underscores() {
    assert_eq!(
        lex("_ _ _one two_"),
        Ok(vec![
            Token::Symbol(Symbol::Underscore),
            Token::Symbol(Symbol::Underscore),
            ident("_one"),
            ident("two_"),
            Token::Newline,
        ])
    );
}

// `#` is ASCII punctuation that no token uses.
#[test]
fn test_other_symbols() {
    assert_eq!(lex(". one. .two # three# #four"), Err(unexpected('#', 1, 13)));
}

#[test]
fn carriage_returns_end_lines() {
    assert_eq!(
        tokenize("a\r\n  b\rc -- x\r\n"),
        Ok(vec![
            tp((1, 1), (1, 1), ident("a")),
            tp((1, 2), (1, 3), Token::Newline),
            tp((2, 1), (2, 2), Token::Indent("  ".to_string())),
            tp((2, 3), (2, 3), ident("b")),
            nl(2, 4),
            tp((3, 1), (3, 1), ident("c")),
            tp((3, 7), (3, 8), Token::Newline),
        ])
    );
    assert_eq!(
        lex("a -\r"),
        Err(LexError { kind: LexErrorKind::ExpectedComment, position: Position { line: 1, column: 4 } })
    );
}

#[test]
fn nul_is_skipped_between_tokens() {
    assert_eq!(lex("a\0b"), Ok(vec![ident("a"), ident("b"), Token::Newline]));
}

#[test]
fn lone_underscore_word_is_the_anonymous_marker() {
    assert_eq!(hldr::lexer::identifier_to_token(vec!['_']), Token::Symbol(Symbol::Underscore));
    assert_eq!(hldr::lexer::identifier_to_token(vec!['_', 'a']), ident("_a"));
    assert_eq!(hldr::lexer::identifier_to_token(vec!['t']), Token::Boolean(true));
}

#[test]
fn period_then_digit_is_a_number() {
    assert_eq!(
        tokenize(". .5"),
        Ok(vec![
            tp((1, 1), (1, 1), Token::Symbol(Symbol::Period)),
            tp((1, 3), (1, 4), Token::Number(".5".to_string())),
            nl(1, 5),
        ])
    );
}
