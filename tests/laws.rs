use hldr::{
    default_data_file, lex, parse, tokenize, LexError, LexErrorKind, Position, Symbol, Token,
    TokenPosition,
};

fn offset_of(input: &[char], p: Position) -> usize {
    let (mut line, mut column) = (1, 1);
    for (i, c) in input.iter().enumerate() {
        if line == p.line && column == p.column {
            return i;
        }
        if *c == '\n' {
            line += 1;
            column = 1;
        } else {
            column += 1;
        }
    }
    input.len()
}

fn quote(text: &str, q: char) -> String {
    let mut out = String::new();
    out.push(q);
    for c in text.chars() {
        out.push(c);
        if c == q {
            out.push(c);
        }
    }
    out.push(q);
    out
}

fn spellings(t: &Token) -> Vec<String> {
    match t {
        Token::Boolean(true) => vec!["true".into(), "t".into()],
        Token::Boolean(false) => vec!["false".into(), "f".into()],
        Token::Identifier(s) | Token::Number(s) | Token::Indent(s) => vec![s.clone()],
        Token::QuotedIdentifier(s) => vec![quote(s, '"')],
        Token::Text(s) => vec![quote(s, '\'')],
        Token::Keyword(_) => vec!["as".into()],
        Token::Symbol(Symbol::AtSign) => vec!["@".into()],
        Token::Symbol(Symbol::Period) => vec![".".into()],
        Token::Symbol(Symbol::Underscore) => vec!["_".into()],
        Token::Newline => vec!["\n".into()],
    }
}

/// Puts each token back at its place and checks that it spells the characters there, and that
/// every other character is a blank or lies in a comment.
fn check_round_trip(input: &str) {
    let chars: Vec<char> = input.chars().collect();
    let tokens: Vec<TokenPosition> = tokenize(input).unwrap();
    let mut covered = vec![false; chars.len()];
    let mut previous_end: Option<usize> = None;
    for tp in &tokens {
        let first = offset_of(&chars, tp.start_position);
        let last = offset_of(&chars, tp.end_position);
        if first == chars.len() {
            assert_eq!(tp.token, Token::Newline);
            continue;
        }
        if let Some(e) = previous_end {
            assert!(e < first);
        }
        previous_end = Some(last);
        let raw: String = chars[first..=last].iter().collect();
        assert!(spellings(&tp.token).contains(&raw), "{:?} at {:?}", raw, tp);
        for c in covered.iter_mut().take(last + 1).skip(first) {
            *c = true;
        }
    }
    let mut in_comment = false;
    for (i, c) in chars.iter().enumerate() {
        if *c == '\n' {
            in_comment = false;
        }
        if !covered[i] && *c == '-' && i + 1 < chars.len() && chars[i + 1] == '-' {
            in_comment = true;
        }
        if !covered[i] {
            assert!(in_comment || *c == ' ' || *c == '\t', "{:?} at {}", c, i);
        }
    }
}

#[test]
fn round_trip_of_a_file() {
    check_round_trip(
        "public -- the schema\n  pet as p\n    _\n      name 'it''s' -- c\n      \"x\"\"y\" t\n      r s.t@r.c\n\n",
    );
    check_round_trip("123 0.1 --c\n  .5\n1.");
    check_round_trip("a@b.c -- done");
}

#[test]
fn tokenize_error_is_single() {
    assert_eq!(
        tokenize("ok\n  bad ~"),
        Err(LexError {
            kind: LexErrorKind::UnexpectedCharacter('~'),
            position: Position { line: 2, column: 7 }
        })
    );
}

#[test]
fn empty_input_gives_nothing() {
    assert_eq!(lex(""), Ok(vec![]));
    assert_eq!(parse(tokenize("").unwrap()), Ok(vec![]));
}

#[test]
fn boundary_numbers() {
    assert_eq!(
        lex("123 0.1 --c\n  .5\n1."),
        Ok(vec![
            Token::Number("123".into()),
            Token::Number("0.1".into()),
            Token::Newline,
            Token::Indent("  ".into()),
            Token::Number(".5".into()),
            Token::Newline,
            Token::Number("1.".into()),
            Token::Newline,
        ])
    );
}

#[test]
fn boundary_booleans_are_case_sensitive() {
    assert_eq!(
        lex("t T true"),
        Ok(vec![
            Token::Boolean(true),
            Token::Identifier("T".into()),
            Token::Boolean(true),
            Token::Newline,
        ])
    );
}

#[test]
fn boundary_unclosed_quoted_name() {
    assert_eq!(
        tokenize("\"asdf"),
        Err(LexError {
            kind: LexErrorKind::UnclosedQuotedIdentifier,
            position: Position { line: 1, column: 5 }
        })
    );
}

#[test]
fn dash_before_line_end_expects_comment() {
    assert_eq!(
        lex("a -\nb"),
        Err(LexError { kind: LexErrorKind::ExpectedComment, position: Position { line: 1, column: 4 } })
    );
}

#[test]
fn positions_order_by_line_then_column() {
    assert!(Position { line: 1, column: 9 } < Position { line: 2, column: 1 });
    assert!(Position { line: 2, column: 1 } < Position { line: 2, column: 3 });
}

#[test]
fn default_data_file_is_place_hldr() {
    assert_eq!(default_data_file(), "place.hldr");
}
