use hldr::{lex, Keyword, LexError, LexErrorKind, Position, Symbol, Token};

fn indent(sp: &str) -> Token {
    Token::Indent(sp.to_owned())
}

fn ident(s: &str) -> Token {
    Token::Identifier(s.to_owned())
}

fn quoted(s: &str) -> Token {
    Token::QuotedIdentifier(s.to_owned())
}

fn text(s: &str) -> Token {
    Token::Text(s.to_owned())
}

fn number(s: &str) -> Token {
    Token::Number(s.to_owned())
}

fn at() -> Token {
    Token::Symbol(Symbol::AtSign)
}

fn period() -> Token {
    Token::Symbol(Symbol::Period)
}

fn underscore() -> Token {
    Token::Symbol(Symbol::Underscore)
}

fn err(line: usize, column: usize, kind: LexErrorKind) -> Result<Vec<Token>, LexError> {
    Err(LexError { position: Position { line, column }, kind })
}

#[test]
fn empty() {
    assert_eq!(lex(""), Ok(vec![]));
}

#[test]
fn identifier_and_keywords() {
    assert_eq!(
        lex("something as \"wat\""),
        Ok(vec![ident("something"), Token::Keyword(Keyword::As), quoted("wat"), Token::Newline])
    );
}

#[test]
fn whitespace() {
    let file = "  \n\n \t \n\t  \n\n   \n\t";
    assert_eq!(
        lex(file),
        Ok(vec![
            indent("  "),
            Token::Newline,
            Token::Newline,
            indent(" \t "),
            Token::Newline,
            indent("\t  "),
            Token::Newline,
            Token::Newline,
            indent("   "),
            Token::Newline,
            indent("\t"),
            Token::Newline,
        ])
    );
}

#[test]
fn comments_ignored() {
    let file = "-- a comment\n  -- another comment\n";
    assert_eq!(lex(file), Ok(vec![Token::Newline, indent("  "), Token::Newline]));
}

#[test]
fn comment_incomplete() {
    let file = "-- a comment\n  - bad comment";
    assert_eq!(lex(file), err(2, 4, LexErrorKind::UnexpectedCharacter(' ')));
}

#[test]
fn comment_unfinished() {
    let file = "-- a comment\n  -";
    assert_eq!(lex(file), err(2, 3, LexErrorKind::ExpectedComment));
}

#[test]
fn simple_numbers() {
    let file = "123 0.12341 --a comment\n    .1234\n1.1235";
    assert_eq!(
        lex(file),
        Ok(vec![
            number("123"),
            number("0.12341"),
            Token::Newline,
            indent("    "),
            number(".1234"),
            Token::Newline,
            number("1.1235"),
            Token::Newline,
        ])
    );
}

#[test]
fn double_dots() {
    assert_eq!(lex(".."), err(1, 2, LexErrorKind::UnexpectedCharacter('.')));
}

#[test]
fn double_decimals1() {
    assert_eq!(lex(".123."), err(1, 5, LexErrorKind::UnexpectedCharacter('.')));
}

#[test]
fn double_decimals2() {
    assert_eq!(lex("1.123."), err(1, 6, LexErrorKind::UnexpectedCharacter('.')));
}

#[test]
fn simple_identifiers() {
    let file = "identifier1 ident_ifier2 --a comment\n    _ident3";
    assert_eq!(
        lex(file),
        Ok(vec![
            ident("identifier1"),
            ident("ident_ifier2"),
            Token::Newline,
            indent("    "),
            ident("_ident3"),
            Token::Newline,
        ])
    );
}

#[test]
fn identifier_cant_start_with_number() {
    assert_eq!(lex("1asdf"), err(1, 2, LexErrorKind::UnexpectedCharacter('a')));
}

#[test]
fn mod_bools() {
    let file = "t T true\n\tTrue TRUE f \n  F false False FALSE";
    assert_eq!(
        lex(file),
        Ok(vec![
            Token::Boolean(true),
            ident("T"),
            Token::Boolean(true),
            Token::Newline,
            indent("\t"),
            ident("True"),
            ident("TRUE"),
            Token::Boolean(false),
            Token::Newline,
            indent("  "),
            ident("F"),
            Token::Boolean(false),
            ident("False"),
            ident("FALSE"),
            Token::Newline,
        ])
    );
}

#[test]
fn mod_quoted_identifiers() {
    let file = r#""some identifier" ident_ifier2 -- a "quoted comment"
    "-- another""@""""identifier"
"#;
    assert_eq!(
        lex(file),
        Ok(vec![
            quoted("some identifier"),
            ident("ident_ifier2"),
            Token::Newline,
            indent("    "),
            quoted(r#"-- another"@""identifier"#),
            Token::Newline,
        ])
    );
}

#[test]
fn unclosed_quoted_identifier() {
    assert_eq!(lex("\"asdf"), err(1, 5, LexErrorKind::UnclosedQuotedIdentifier));
}

#[test]
fn test_strings() {
    let file = "'some string'\n'another''s string' too 'and again'";
    assert_eq!(
        lex(file),
        Ok(vec![
            text("some string"),
            Token::Newline,
            text("another's string"),
            ident("too"),
            text("and again"),
            Token::Newline,
        ])
    );
}

#[test]
fn unclosed_string() {
    assert_eq!(lex("'asdf"), err(1, 5, LexErrorKind::UnclosedString));
}

#[test]
fn underscore_after_indent() {
    assert_eq!(lex("\t_"), Ok(vec![indent("\t"), underscore(), Token::Newline]));
}

#[test]
fn underscore_with_comment() {
    assert_eq!(lex("\t_ -- some comment"), Ok(vec![indent("\t"), underscore(), Token::Newline]));
}

#[test]
fn at_sign_alone() {
    assert_eq!(lex("@"), Ok(vec![at(), Token::Newline]));
    assert_eq!(lex("\t\t@"), Ok(vec![indent("\t\t"), at(), Token::Newline]));
}

#[test]
fn at_sign_identifiers_whitespace_before() {
    assert_eq!(
        lex("some @identifiers"),
        Ok(vec![ident("some"), at(), ident("identifiers"), Token::Newline])
    );
}

// An `@` is a token of its own, so blanks after it only separate it from the next token.
#[test]
fn at_sign_identifiers_whitespace_after() {
    assert_eq!(
        lex("some@ identifiers"),
        Ok(vec![ident("some"), at(), ident("identifiers"), Token::Newline])
    );
}

#[test]
fn at_sign_in_identifiers() {
    assert_eq!(
        lex("some@identifier"),
        Ok(vec![ident("some"), at(), ident("identifier"), Token::Newline])
    );
    assert_eq!(
        lex(r#""some"@"identifier""#),
        Ok(vec![quoted("some"), at(), quoted("identifier"), Token::Newline])
    );
}

// A `.` that no digit follows is a period symbol, at the end of the input too.
#[test]
fn period_alone() {
    assert_eq!(lex("."), Ok(vec![period(), Token::Newline]));
    assert_eq!(lex("\t\t."), Ok(vec![indent("\t\t"), period(), Token::Newline]));
    assert_eq!(lex("\t\t. "), Ok(vec![indent("\t\t"), period(), Token::Newline]));
}

#[test]
fn period_identifiers_whitespace_before() {
    assert_eq!(
        lex("some .identifiers"),
        Ok(vec![ident("some"), period(), ident("identifiers"), Token::Newline])
    );
    assert_eq!(
        lex(r#""some" ."identifiers""#),
        Ok(vec![quoted("some"), period(), quoted("identifiers"), Token::Newline])
    );
}

#[test]
fn period_identifiers_whitespace_after() {
    assert_eq!(
        lex("some. identifiers"),
        Ok(vec![ident("some"), period(), ident("identifiers"), Token::Newline])
    );
    assert_eq!(
        lex(r#""some". "identifiers""#),
        Ok(vec![quoted("some"), period(), quoted("identifiers"), Token::Newline])
    );
}

#[test]
fn period_in_identifiers() {
    assert_eq!(
        lex("some.identifier"),
        Ok(vec![ident("some"), period(), ident("identifier"), Token::Newline])
    );
    assert_eq!(
        lex(r#""some"."identifier""#),
        Ok(vec![quoted("some"), period(), quoted("identifier"), Token::Newline])
    );
}

fn nested_prefix() -> Vec<Token> {
    vec![
        ident("schema1"),
        Token::Newline,
        indent("  "),
        ident("table1"),
        Token::Newline,
        indent("    "),
        ident("record1"),
        Token::Newline,
        indent("      "),
        ident("column1"),
    ]
}

fn with_prefix(rest: Vec<Token>) -> Vec<Token> {
    let mut v = nested_prefix();
    v.extend(rest);
    v
}

#[test]
fn fully_qualified_reference() {
    assert_eq!(
        lex("schema.table@record.column"),
        Ok(vec![
            ident("schema"),
            period(),
            ident("table"),
            at(),
            ident("record"),
            period(),
            ident("column"),
            Token::Newline,
        ])
    );
    assert_eq!(
        lex("schema1\n  table1\n    record1\n      column1 schema2.table2@record2.column2"),
        Ok(with_prefix(vec![
            ident("schema2"),
            period(),
            ident("table2"),
            at(),
            ident("record2"),
            period(),
            ident("column2"),
            Token::Newline,
        ]))
    );
    assert_eq!(
        lex(r#""schema"."some table @ "@"some record"."column""#),
        Ok(vec![
            quoted("schema"),
            period(),
            quoted("some table @ "),
            at(),
            quoted("some record"),
            period(),
            quoted("column"),
            Token::Newline,
        ])
    );
    assert_eq!(
        lex("schema1\n  table1\n    record1\n      column1 \"schema2\".\"table2\"@\"record2\".\"column2\""),
        Ok(with_prefix(vec![
            quoted("schema2"),
            period(),
            quoted("table2"),
            at(),
            quoted("record2"),
            period(),
            quoted("column2"),
            Token::Newline,
        ]))
    );
}

#[test]
fn table_qualified_reference() {
    assert_eq!(
        lex("table@record.column"),
        Ok(vec![ident("table"), at(), ident("record"), period(), ident("column"), Token::Newline])
    );
    assert_eq!(
        lex("schema1\n  table1\n    record1\n      column1 table2@record2.column2"),
        Ok(with_prefix(vec![
            ident("table2"),
            at(),
            ident("record2"),
            period(),
            ident("column2"),
            Token::Newline,
        ]))
    );
    assert_eq!(
        lex(r#""some table @ "@"some record"."column""#),
        Ok(vec![
            quoted("some table @ "),
            at(),
            quoted("some record"),
            period(),
            quoted("column"),
            Token::Newline,
        ])
    );
    assert_eq!(
        lex("schema1\n  table1\n    record1\n      column1 \"table2\"@\"record2\".\"column2\""),
        Ok(with_prefix(vec![
            quoted("table2"),
            at(),
            quoted("record2"),
            period(),
            quoted("column2"),
            Token::Newline,
        ]))
    );
}

#[test]
fn unqualified_reference() {
    assert_eq!(
        lex("@record.column"),
        Ok(vec![at(), ident("record"), period(), ident("column"), Token::Newline])
    );
    assert_eq!(
        lex("schema1\n  table1\n    record1\n      column1 @record2.column2"),
        Ok(with_prefix(vec![at(), ident("record2"), period(), ident("column2"), Token::Newline]))
    );
    assert_eq!(
        lex(r#"@some_record."column""#),
        Ok(vec![at(), ident("some_record"), period(), quoted("column"), Token::Newline])
    );
    assert_eq!(
        lex("schema1\n  table1\n    record1\n      column1 @record2.\"column2\""),
        Ok(with_prefix(vec![at(), ident("record2"), period(), quoted("column2"), Token::Newline]))
    );
}

#[test]
fn good_file() {
    let file = r#"public
  -- This is a newline comment
  pet
    cupid
      name 'Cupid' -- This is a trailing comment
      species 'cat'
      lap_cat true

    _
      name 'Eiyre'
      lap_cat false

  person
    kevin
      name 'Kevin'
      age 39
      favorite_book 'Cat''s Cradle'

"quoted @ schema"
  message
    _
      text 'Hello, world!'
"#;
    assert_eq!(
        lex(file),
        Ok(vec![
            ident("public"),
            Token::Newline,
            indent("  "),
            Token::Newline,
            indent("  "),
            ident("pet"),
            Token::Newline,
            indent("    "),
            ident("cupid"),
            Token::Newline,
            indent("      "),
            ident("name"),
            text("Cupid"),
            Token::Newline,
            indent("      "),
            ident("species"),
            text("cat"),
            Token::Newline,
            indent("      "),
            ident("lap_cat"),
            Token::Boolean(true),
            Token::Newline,
            Token::Newline,
            indent("    "),
            underscore(),
            Token::Newline,
            indent("      "),
            ident("name"),
            text("Eiyre"),
            Token::Newline,
            indent("      "),
            ident("lap_cat"),
            Token::Boolean(false),
            Token::Newline,
            Token::Newline,
            indent("  "),
            ident("person"),
            Token::Newline,
            indent("    "),
            ident("kevin"),
            Token::Newline,
            indent("      "),
            ident("name"),
            text("Kevin"),
            Token::Newline,
            indent("      "),
            ident("age"),
            number("39"),
            Token::Newline,
            indent("      "),
            ident("favorite_book"),
            text("Cat's Cradle"),
            Token::Newline,
            Token::Newline,
            quoted("quoted @ schema"),
            Token::Newline,
            indent("  "),
            ident("message"),
            Token::Newline,
            indent("    "),
            underscore(),
            Token::Newline,
            indent("      "),
            ident("text"),
            text("Hello, world!"),
            Token::Newline,
        ])
    );
}
