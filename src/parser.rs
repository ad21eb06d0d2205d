use vstd::prelude::*;
use vstd::string::StringExecFns;

use crate::chars::{chars_of, is_blank, is_inline_whitespace};
use crate::position::Position;
use crate::token::{copy_token, Keyword, Symbol, Token, TokenPosition, TokenPositionV, TokenV};
use crate::tree::{
    Attribute, AttributeV, Record, RecordV, ReferenceV, ReferenceValue, Schema, SchemaV, Table,
    TableV, Value, ValueV, text_of,
};

verus! {

/// What is wrong with the structure of a token sequence.
#[derive(Clone, Debug, PartialEq, Eq)]
pub enum ParseErrorKind {
    /// The token cannot stand where it stands.
    UnexpectedToken(Token),
    /// The indentation is not a whole number of indent units.
    InconsistentIndent,
    /// An indentation token without text.
    EmptyIndent,
    /// An indentation token with a character that is neither a space nor a tab.
    InvalidIndent,
    /// A line nested deeper than an attribute, or deeper than the nodes open above it allow.
    UnexpectedIndentLevel(usize),
    /// A reference that the line ends in, with the text read of it.
    IncompleteReference(String),
}

/// A structural error, at the token that shows it.
#[derive(Clone, Debug, PartialEq, Eq)]
pub struct ParseError {
    pub kind: ParseErrorKind,
    pub position: Position,
}

pub ghost enum ParseErrorKindV {
    UnexpectedToken(TokenV),
    InconsistentIndent,
    EmptyIndent,
    InvalidIndent,
    UnexpectedIndentLevel(usize),
    IncompleteReference(Seq<char>),
}

pub ghost struct ParseErrorV {
    pub kind: ParseErrorKindV,
    pub position: Position,
}

impl View for ParseError {
    type V = ParseErrorV;

    open spec fn view(&self) -> ParseErrorV {
        ParseErrorV {
            kind: match self.kind {
                ParseErrorKind::UnexpectedToken(t) => ParseErrorKindV::UnexpectedToken(t@),
                ParseErrorKind::InconsistentIndent => ParseErrorKindV::InconsistentIndent,
                ParseErrorKind::EmptyIndent => ParseErrorKindV::EmptyIndent,
                ParseErrorKind::InvalidIndent => ParseErrorKindV::InvalidIndent,
                ParseErrorKind::UnexpectedIndentLevel(n) => ParseErrorKindV::UnexpectedIndentLevel(n),
                ParseErrorKind::IncompleteReference(s) => ParseErrorKindV::IncompleteReference(s@),
            },
            position: self.position,
        }
    }
}

/// The states of the parser: where in a line it stands, and what it has read of the line.
#[derive(Clone, Debug, PartialEq, Eq)]
pub enum State {
    /// At the start of a line.
    LineStart,
    /// After the indentation of a line, with its place.
    Indented(String, Position),
    /// After the content of a line: only its end may follow.
    LineEnd,
    /// After a table's name: its end or `as` may follow.
    TableEnd,
    /// After `as`: the table's alias follows.
    TableAlias,
    /// After an attribute's name: its value follows.
    AttributeValue(String),
    /// After an attribute's name and a name that begins its value (the token kept).
    Reference(String, String, TokenPosition),
    /// After `name first.`.
    ReferenceDot(String, String),
    /// After `name first.second`: a record and its column, or a schema and its table.
    ReferencePair(String, String, String),
    /// After the `@` of a reference, with its schema and table if given.
    ReferenceRecord(String, Option<String>, Option<String>),
    /// After the record of a reference.
    ReferenceRecordName(String, Option<String>, Option<String>, String),
    /// After `record.` in a reference.
    ReferenceColumn(String, Option<String>, Option<String>, String),
}

pub ghost enum Mode {
    LineStart,
    Indented(Seq<char>, Position),
    LineEnd,
    TableEnd,
    TableAlias,
    AttributeValue(Seq<char>),
    Reference(Seq<char>, Seq<char>, TokenPositionV),
    ReferenceDot(Seq<char>, Seq<char>),
    ReferencePair(Seq<char>, Seq<char>, Seq<char>),
    ReferenceRecord(Seq<char>, Option<Seq<char>>, Option<Seq<char>>),
    ReferenceRecordName(Seq<char>, Option<Seq<char>>, Option<Seq<char>>, Seq<char>),
    ReferenceColumn(Seq<char>, Option<Seq<char>>, Option<Seq<char>>, Seq<char>),
}

impl View for State {
    type V = Mode;

    open spec fn view(&self) -> Mode {
        match self {
            State::LineStart => Mode::LineStart,
            State::Indented(w, p) => Mode::Indented(w@, *p),
            State::LineEnd => Mode::LineEnd,
            State::TableEnd => Mode::TableEnd,
            State::TableAlias => Mode::TableAlias,
            State::AttributeValue(a) => Mode::AttributeValue(a@),
            State::Reference(a, i, tp) => Mode::Reference(a@, i@, tp@),
            State::ReferenceDot(a, i) => Mode::ReferenceDot(a@, i@),
            State::ReferencePair(a, i, j) => Mode::ReferencePair(a@, i@, j@),
            State::ReferenceRecord(a, s, t) => Mode::ReferenceRecord(a@, text_of(*s), text_of(*t)),
            State::ReferenceRecordName(a, s, t, r) => Mode::ReferenceRecordName(
                a@,
                text_of(*s),
                text_of(*t),
                r@,
            ),
            State::ReferenceColumn(a, s, t, r) => Mode::ReferenceColumn(
                a@,
                text_of(*s),
                text_of(*t),
                r@,
            ),
        }
    }
}

/// The parser after some tokens: the indent unit once known, the schemas that are complete, the
/// schema, table and record that are open (each holding its complete children), and the state.
#[verifier::ext_equal]
pub ghost struct Build {
    pub unit: Option<Seq<char>>,
    pub done: Seq<SchemaV>,
    pub schema: Option<SchemaV>,
    pub table: Option<TableV>,
    pub record: Option<RecordV>,
    pub mode: Mode,
}

pub open spec fn close_record(b: Build) -> Build {
    match (b.table, b.record) {
        (Some(t), Some(r)) => Build {
            table: Some(TableV { records: t.records.push(r), ..t }),
            record: None,
            ..b
        },
        _ => Build { record: None, ..b },
    }
}

pub open spec fn close_table(b: Build) -> Build {
    let c = close_record(b);
    match (c.schema, c.table) {
        (Some(s), Some(t)) => Build {
            schema: Some(SchemaV { tables: s.tables.push(t), ..s }),
            table: None,
            ..c
        },
        _ => Build { table: None, ..c },
    }
}

pub open spec fn close_schema(b: Build) -> Build {
    let c = close_table(b);
    match c.schema {
        Some(s) => Build { done: c.done.push(s), schema: None, ..c },
        None => c,
    }
}

/// The whole tree: every open node closed into its parent.
pub open spec fn tree(b: Build) -> Seq<SchemaV> {
    close_schema(b).done
}

pub open spec fn open_schema(b: Build, name: Seq<char>) -> Build {
    Build { schema: Some(SchemaV { name, tables: seq![] }), ..close_schema(b) }
}

pub open spec fn open_table(b: Build, name: Seq<char>) -> Build {
    Build { table: Some(TableV { name, alias: None, records: seq![] }), ..close_table(b) }
}

pub open spec fn open_record(b: Build, name: Option<Seq<char>>) -> Build {
    Build { record: Some(RecordV { name, attributes: seq![] }), ..close_record(b) }
}

pub open spec fn set_alias(b: Build, alias: Seq<char>) -> Build {
    match b.table {
        Some(t) => Build { table: Some(TableV { alias: Some(alias), ..t }), ..b },
        None => b,
    }
}

pub open spec fn add_attribute(b: Build, a: AttributeV) -> Build {
    match b.record {
        Some(r) => Build {
            record: Some(RecordV { attributes: r.attributes.push(a), ..r }),
            ..b
        },
        None => b,
    }
}

pub open spec fn with_mode(b: Build, mode: Mode) -> Build {
    Build { mode, ..b }
}

/// The number of times that `unit` repeats to make `w`, if it does.
pub open spec fn level(unit: Seq<char>, w: Seq<char>) -> Option<nat>
    decreases w.len(),
{
    if w.len() == 0 {
        Some(0)
    } else if unit.len() == 0 || w.len() < unit.len() || w.subrange(0, unit.len() as int)
        != unit {
        None
    } else {
        match level(unit, w.subrange(unit.len() as int, w.len() as int)) {
            Some(k) => Some(k + 1),
            None => None,
        }
    }
}

pub open spec fn all_blank(w: Seq<char>) -> bool {
    forall|i: int| 0 <= i < w.len() ==> is_blank(#[trigger] w[i])
}

/// The name that a token gives, if it is a name.
pub open spec fn name_of(t: TokenV) -> Option<Seq<char>> {
    match t {
        TokenV::Identifier(s) => Some(s),
        TokenV::QuotedIdentifier(s) => Some(s),
        _ => None,
    }
}

pub open spec fn unexpected_error(tp: TokenPositionV) -> ParseErrorV {
    ParseErrorV {
        kind: ParseErrorKindV::UnexpectedToken(tp.token),
        position: tp.start_position,
    }
}

pub open spec fn incomplete(text: Seq<char>, tp: TokenPositionV) -> ParseErrorV {
    ParseErrorV { kind: ParseErrorKindV::IncompleteReference(text), position: tp.start_position }
}

/// The text of a reference up to its `@`: `schema.table@`, `table@` or `@`.
pub open spec fn qualifier(schema: Option<Seq<char>>, table: Option<Seq<char>>) -> Seq<char> {
    (match schema {
        Some(s) => s + seq!['.'],
        None => seq![],
    }) + (match table {
        Some(t) => t,
        None => seq![],
    }) + seq!['@']
}

pub open spec fn reference(
    schema: Option<Seq<char>>,
    table: Option<Seq<char>>,
    record: Seq<char>,
    column: Seq<char>,
) -> ValueV {
    ValueV::Reference(ReferenceV { schema, table, record, column })
}

/// The first token of a line at depth 1, 2 or 3 (a table, a record, an attribute).
pub open spec fn content_step(b: Build, depth: nat, tp: TokenPositionV) -> Result<
    Build,
    ParseErrorV,
> {
    if depth == 1 {
        match name_of(tp.token) {
            Some(n) => Ok(with_mode(open_table(b, n), Mode::TableEnd)),
            None => Err(unexpected_error(tp)),
        }
    } else if depth == 2 {
        match name_of(tp.token) {
            Some(n) => Ok(with_mode(open_record(b, Some(n)), Mode::LineEnd)),
            None => if tp.token == TokenV::Symbol(Symbol::Underscore) {
                Ok(with_mode(open_record(b, None), Mode::LineEnd))
            } else {
                Err(unexpected_error(tp))
            },
        }
    } else {
        match name_of(tp.token) {
            Some(n) => Ok(with_mode(b, Mode::AttributeValue(n))),
            None => Err(unexpected_error(tp)),
        }
    }
}

/// The first token after the indentation `w` (at `wp`) of a line that is not blank. The first
/// such indentation of the input sets the indent unit; the depth of the line is the number of
/// units in its indentation, and must be 1, 2 or 3 under an open schema, table or record.
pub open spec fn indented_step(b: Build, w: Seq<char>, wp: Position, tp: TokenPositionV) -> Result<
    Build,
    ParseErrorV,
> {
    if w.len() == 0 {
        Err(ParseErrorV { kind: ParseErrorKindV::EmptyIndent, position: wp })
    } else if !all_blank(w) {
        Err(ParseErrorV { kind: ParseErrorKindV::InvalidIndent, position: wp })
    } else {
        let unit = match b.unit {
            Some(u) => u,
            None => w,
        };
        match level(unit, w) {
            None => Err(ParseErrorV { kind: ParseErrorKindV::InconsistentIndent, position: wp }),
            Some(d) => if (d == 1 && b.schema is Some) || (d == 2 && b.table is Some) || (d == 3
                && b.record is Some) {
                content_step(Build { unit: Some(unit), ..b }, d, tp)
            } else {
                Err(
                    ParseErrorV {
                        kind: ParseErrorKindV::UnexpectedIndentLevel(d as usize),
                        position: wp,
                    },
                )
            },
        }
    }
}

/// The parser `b` reading the token `tp`.
pub open spec fn parse_step(b: Build, tp: TokenPositionV) -> Result<Build, ParseErrorV> {
    let t = tp.token;
    let nl = t == TokenV::Newline;
    match b.mode {
        Mode::LineStart => if nl {
            Ok(b)
        } else if let TokenV::Indent(w) = t {
            Ok(with_mode(b, Mode::Indented(w, tp.start_position)))
        } else if let Some(n) = name_of(t) {
            Ok(with_mode(open_schema(b, n), Mode::LineEnd))
        } else {
            Err(unexpected_error(tp))
        },
        Mode::Indented(w, wp) => if nl {
            Ok(with_mode(b, Mode::LineStart))
        } else {
            indented_step(b, w, wp, tp)
        },
        Mode::LineEnd => if nl {
            Ok(with_mode(b, Mode::LineStart))
        } else {
            Err(unexpected_error(tp))
        },
        Mode::TableEnd => if nl {
            Ok(with_mode(b, Mode::LineStart))
        } else if t == TokenV::Keyword(Keyword::As) {
            Ok(with_mode(b, Mode::TableAlias))
        } else {
            Err(unexpected_error(tp))
        },
        Mode::TableAlias => if let TokenV::Identifier(a) = t {
            Ok(with_mode(set_alias(b, a), Mode::LineEnd))
        } else {
            Err(unexpected_error(tp))
        },
        Mode::AttributeValue(a) => match t {
            TokenV::Boolean(v) => Ok(
                with_mode(add_attribute(b, AttributeV { name: a, value: ValueV::Boolean(v) }), Mode::LineEnd),
            ),
            TokenV::Number(v) => Ok(
                with_mode(add_attribute(b, AttributeV { name: a, value: ValueV::Number(v) }), Mode::LineEnd),
            ),
            TokenV::Text(v) => Ok(
                with_mode(add_attribute(b, AttributeV { name: a, value: ValueV::Text(v) }), Mode::LineEnd),
            ),
            TokenV::Symbol(Symbol::AtSign) => Ok(with_mode(b, Mode::ReferenceRecord(a, None, None))),
            _ => match name_of(t) {
                Some(i) => Ok(with_mode(b, Mode::Reference(a, i, tp))),
                None => Err(unexpected_error(tp)),
            },
        },
        Mode::Reference(a, i, itp) => if t == TokenV::Symbol(Symbol::AtSign) {
            Ok(with_mode(b, Mode::ReferenceRecord(a, None, Some(i))))
        } else if t == TokenV::Symbol(Symbol::Period) {
            Ok(with_mode(b, Mode::ReferenceDot(a, i)))
        } else if nl {
            Err(unexpected_error(itp))
        } else {
            Err(unexpected_error(tp))
        },
        Mode::ReferenceDot(a, i) => if let Some(j) = name_of(t) {
            Ok(with_mode(b, Mode::ReferencePair(a, i, j)))
        } else if nl {
            Err(incomplete(i + seq!['.'], tp))
        } else {
            Err(unexpected_error(tp))
        },
        Mode::ReferencePair(a, i, j) => if t == TokenV::Symbol(Symbol::AtSign) {
            Ok(with_mode(b, Mode::ReferenceRecord(a, Some(i), Some(j))))
        } else if nl {
            Ok(
                with_mode(
                    add_attribute(b, AttributeV { name: a, value: reference(None, None, i, j) }),
                    Mode::LineStart,
                ),
            )
        } else {
            Err(unexpected_error(tp))
        },
        Mode::ReferenceRecord(a, s, tb) => if let Some(r) = name_of(t) {
            Ok(with_mode(b, Mode::ReferenceRecordName(a, s, tb, r)))
        } else if nl {
            Err(incomplete(qualifier(s, tb), tp))
        } else {
            Err(unexpected_error(tp))
        },
        Mode::ReferenceRecordName(a, s, tb, r) => if t == TokenV::Symbol(Symbol::Period) {
            Ok(with_mode(b, Mode::ReferenceColumn(a, s, tb, r)))
        } else if nl {
            Err(incomplete(qualifier(s, tb) + r, tp))
        } else {
            Err(unexpected_error(tp))
        },
        Mode::ReferenceColumn(a, s, tb, r) => if let Some(c) = name_of(t) {
            Ok(
                with_mode(
                    add_attribute(b, AttributeV { name: a, value: reference(s, tb, r, c) }),
                    Mode::LineEnd,
                ),
            )
        } else if nl {
            Err(incomplete(qualifier(s, tb) + r + seq!['.'], tp))
        } else {
            Err(unexpected_error(tp))
        },
    }
}

pub open spec fn initial_build() -> Build {
    Build {
        unit: None,
        done: seq![],
        schema: None,
        table: None,
        record: None,
        mode: Mode::LineStart,
    }
}

/// The parser after the first `n` tokens of `ts`, or the first error among them.
pub open spec fn parse_prefix(ts: Seq<TokenPositionV>, n: int) -> Result<Build, ParseErrorV>
    decreases n,
{
    if n <= 0 {
        Ok(initial_build())
    } else {
        match parse_prefix(ts, n - 1) {
            Ok(b) => parse_step(b, ts[n - 1]),
            Err(e) => Err(e),
        }
    }
}

/// The end of the tokens: a line left open is ended as by a line feed at `p`.
pub open spec fn parse_end(b: Build, p: Position) -> Result<Seq<SchemaV>, ParseErrorV> {
    match b.mode {
        Mode::LineStart => Ok(tree(b)),
        Mode::Indented(_, _) => Ok(tree(b)),
        _ => match parse_step(
            b,
            TokenPositionV { token: TokenV::Newline, start_position: p, end_position: p },
        ) {
            Ok(c) => Ok(tree(c)),
            Err(e) => Err(e),
        },
    }
}

/// The schemas that the tokens `ts` describe, or the first structural error.
pub open spec fn parse_spec(ts: Seq<TokenPositionV>) -> Result<Seq<SchemaV>, ParseErrorV> {
    match parse_prefix(ts, ts.len() as int) {
        Ok(b) => parse_end(b, ts.last().end_position),
        Err(e) => Err(e),
    }
}


/// A parser: the indent unit once known, the complete schemas, the open schema, table and
/// record, and the state of the line being read.
pub struct Parser {
    pub indent_unit: Option<String>,
    pub schemas: Vec<Schema>,
    pub schema: Option<Schema>,
    pub table: Option<Table>,
    pub record: Option<Record>,
    pub state: State,
}

pub open spec fn schema_view(o: Option<Schema>) -> Option<SchemaV> {
    match o {
        Some(s) => Some(s@),
        None => None,
    }
}

pub open spec fn table_view(o: Option<Table>) -> Option<TableV> {
    match o {
        Some(t) => Some(t@),
        None => None,
    }
}

pub open spec fn record_view(o: Option<Record>) -> Option<RecordV> {
    match o {
        Some(r) => Some(r@),
        None => None,
    }
}

impl View for Parser {
    type V = Build;

    open spec fn view(&self) -> Build {
        Build {
            unit: text_of(self.indent_unit),
            done: self.schemas@.map_values(|s: Schema| s@),
            schema: schema_view(self.schema),
            table: table_view(self.table),
            record: record_view(self.record),
            mode: self.state@,
        }
    }
}

fn copy_position(tp: &TokenPosition) -> (r: TokenPosition)
    ensures
        r@ == tp@,
{
    TokenPosition {
        token: copy_token(&tp.token),
        start_position: tp.start_position,
        end_position: tp.end_position,
    }
}

fn unexpected(tp: &TokenPosition) -> (e: ParseError)
    ensures
        e@ == unexpected_error(tp@),
{
    ParseError {
        kind: ParseErrorKind::UnexpectedToken(copy_token(&tp.token)),
        position: tp.start_position,
    }
}

/// The name that the token gives, if it is a name.
fn token_name(t: &Token) -> (r: Option<String>)
    ensures
        text_of(r) == name_of(t@),
{
    match t {
        Token::Identifier(s) => Some(s.clone()),
        Token::QuotedIdentifier(s) => Some(s.clone()),
        _ => None,
    }
}

fn qualifier_text(schema: &Option<String>, table: &Option<String>) -> (r: String)
    ensures
        r@ == qualifier(text_of(*schema), text_of(*table)),
{
    let mut out = String::new();
    match schema {
        Some(s) => {
            out.append(s.as_str());
            out.append(".");
        },
        None => {},
    }
    match table {
        Some(t) => {
            out.append(t.as_str());
        },
        None => {},
    }
    out.append("@");
    proof {
        reveal_strlit(".");
        reveal_strlit("@");
        let q = qualifier(text_of(*schema), text_of(*table));
        assert(out@ =~= q);
    }
    out
}

/// Whether every character of `w` is a space or a tab.
fn blanks_only(w: &Vec<char>) -> (r: bool)
    ensures
        r == all_blank(w@),
{
    let mut i: usize = 0;
    while i < w.len()
        invariant
            0 <= i <= w@.len(),
            forall|k: int| 0 <= k < i ==> is_blank(#[trigger] w@[k]),
        decreases w@.len() - i,
    {
        if !is_inline_whitespace(w[i]) {
            return false;
        }
        i += 1;
    }
    true
}

proof fn lemma_level_bound(unit: Seq<char>, w: Seq<char>)
    requires
        level(unit, w) is Some,
    ensures
        level(unit, w)->0 <= w.len(),
    decreases w.len(),
{
    if w.len() > 0 {
        lemma_level_bound(unit, w.subrange(unit.len() as int, w.len() as int));
    }
}

/// The number of times that `unit` repeats to make `w`, if it does.
pub fn indent_level(unit: &Vec<char>, w: &Vec<char>) -> (r: Option<usize>)
    ensures
        match level(unit@, w@) {
            Some(k) => k <= w@.len() && r == Some(k as usize),
            None => r is None,
        },
{
    let u = unit.len();
    let n = w.len();
    if n == 0 {
        return Some(0);
    }
    if u == 0 {
        return None;
    }
    let mut i: usize = 0;
    let mut k: usize = 0;
    assert(w@.subrange(0, n as int) =~= w@);
    while i < n
        invariant
            0 < u == unit@.len(),
            n == w@.len(),
            0 <= i <= n,
            k <= i,
            level(unit@, w@) == match level(unit@, w@.subrange(i as int, n as int)) {
                Some(m) => Some((m + k) as nat),
                None => None::<nat>,
            },
        decreases n - i,
    {
        let ghost rest = w@.subrange(i as int, n as int);
        if n - i < u {
            assert(level(unit@, rest) is None);
            return None;
        }
        let mut j: usize = 0;
        while j < u
            invariant
                0 < u == unit@.len(),
                n == w@.len(),
                i + u <= n,
                rest == w@.subrange(i as int, n as int),
                level(unit@, w@) == match level(unit@, rest) {
                    Some(m) => Some((m + k) as nat),
                    None => None::<nat>,
                },
                0 <= j <= u,
                forall|m: int| 0 <= m < j ==> w@[i + m] == #[trigger] unit@[m],
            decreases u - j,
        {
            if w[i + j] != unit[j] {
                assert(rest.subrange(0, u as int)[j as int] != unit@[j as int]);
                assert(level(unit@, rest) is None);
                return None;
            }
            j += 1;
        }
        assert(rest.subrange(0, u as int) =~= unit@);
        assert(rest.subrange(u as int, rest.len() as int) =~= w@.subrange(i + u, n as int));
        i = i + u;
        k = k + 1;
    }
    proof {
        assert(w@.subrange(n as int, n as int) =~= Seq::<char>::empty());
        lemma_level_bound(unit@, w@);
    }
    Some(k)
}

impl Parser {
    /// A parser that has read nothing.
    pub open spec fn fresh(&self) -> bool {
        self@ == initial_build()
    }

    /// A parser at the start of a token sequence, with no indent unit and no tree yet.
    pub fn new() -> (r: Self)
        ensures
            r.fresh(),
    {
        let p = Parser {
            indent_unit: None,
            schemas: Vec::new(),
            schema: None,
            table: None,
            record: None,
            state: State::LineStart,
        };
        assert(p@ =~= initial_build());
        p
    }

    fn close_record(&mut self)
        ensures
            final(self)@ == close_record(old(self)@),
    {
        let r = self.record.take();
        match r {
            Some(r) => {
                let t = self.table.take();
                match t {
                    Some(t) => {
                        let mut t = t;
                        let ghost t0 = t;
                        t.records.push(r);
                        assert(t@.records =~= t0@.records.push(r@));
                        self.table = Some(t);
                    },
                    None => {},
                }
            },
            None => {},
        }
        assert(self@ =~= close_record(old(self)@));
    }

    fn close_table(&mut self)
        ensures
            final(self)@ == close_table(old(self)@),
    {
        self.close_record();
        let ghost c = self@;
        let t = self.table.take();
        match t {
            Some(t) => {
                let s = self.schema.take();
                match s {
                    Some(s) => {
                        let mut s = s;
                        let ghost s0 = s;
                        s.tables.push(t);
                        assert(s@.tables =~= s0@.tables.push(t@));
                        self.schema = Some(s);
                    },
                    None => {},
                }
            },
            None => {},
        }
        assert(self@ =~= close_table(old(self)@));
    }

    fn close_schema(&mut self)
        ensures
            final(self)@ == close_schema(old(self)@),
    {
        self.close_table();
        let ghost c = self@;
        let s = self.schema.take();
        match s {
            Some(s) => {
                self.schemas.push(s);
                assert(self@.done =~= c.done.push(s@));
            },
            None => {},
        }
        assert(self@ =~= close_schema(old(self)@));
    }

    fn open_schema(&mut self, name: String)
        ensures
            final(self)@ == open_schema(old(self)@, name@),
    {
        self.close_schema();
        self.schema = Some(Schema { name, tables: Vec::new() });
        assert(self@ =~= open_schema(old(self)@, name@));
    }

    fn open_table(&mut self, name: String)
        ensures
            final(self)@ == open_table(old(self)@, name@),
    {
        self.close_table();
        self.table = Some(Table { name, alias: None, records: Vec::new() });
        assert(self@ =~= open_table(old(self)@, name@));
    }

    fn open_record(&mut self, name: Option<String>)
        ensures
            final(self)@ == open_record(old(self)@, text_of(name)),
    {
        self.close_record();
        self.record = Some(Record { name, attributes: Vec::new() });
        assert(self@ =~= open_record(old(self)@, text_of(name)));
    }

    fn set_alias(&mut self, alias: String)
        ensures
            final(self)@ == set_alias(old(self)@, alias@),
    {
        let t = self.table.take();
        match t {
            Some(t) => {
                let mut t = t;
                t.alias = Some(alias);
                self.table = Some(t);
            },
            None => {},
        }
        assert(self@ =~= set_alias(old(self)@, alias@));
    }

    fn add_attribute(&mut self, a: Attribute)
        ensures
            final(self)@ == add_attribute(old(self)@, a@),
    {
        let r = self.record.take();
        match r {
            Some(r) => {
                let mut r = r;
                let ghost r0 = r;
                r.attributes.push(a);
                assert(r@.attributes =~= r0@.attributes.push(a@));
                self.record = Some(r);
            },
            None => {},
        }
        assert(self@ =~= add_attribute(old(self)@, a@));
    }

    fn set_state(&mut self, st: State)
        ensures
            final(self)@ == with_mode(old(self)@, st@),
    {
        self.state = st;
        assert(self@ =~= with_mode(old(self)@, st@));
    }
}


fn is_newline(t: &Token) -> (r: bool)
    ensures
        r == (t@ == TokenV::Newline),
{
    match t {
        Token::Newline => true,
        _ => false,
    }
}

fn is_symbol(t: &Token, y: Symbol) -> (r: bool)
    ensures
        r == (t@ == TokenV::Symbol(y)),
{
    match t {
        Token::Symbol(x) => *x == y,
        _ => false,
    }
}

fn is_as(t: &Token) -> (r: bool)
    ensures
        r == (t@ == TokenV::Keyword(Keyword::As)),
{
    match t {
        Token::Keyword(Keyword::As) => true,
        _ => false,
    }
}

fn incomplete_reference(text: String, tp: &TokenPosition) -> (e: ParseError)
    ensures
        e@ == incomplete(text@, tp@),
{
    ParseError { kind: ParseErrorKind::IncompleteReference(text), position: tp.start_position }
}

impl Parser {
    /// The first token of a line at depth `d`.
    fn receive_content(&mut self, d: usize, tp: &TokenPosition) -> (r: Result<(), ParseError>)
        requires
            d == 1 || d == 2 || d == 3,
        ensures
            match content_step(old(self)@, d as nat, tp@) {
                Ok(b) => r is Ok && final(self)@ == b,
                Err(e) => r is Err && r->Err_0@ == e,
            },
    {
        let name = token_name(&tp.token);
        if d == 1 {
            match name {
                Some(n) => {
                    self.open_table(n);
                    self.set_state(State::TableEnd);
                },
                None => {
                    return Err(unexpected(tp));
                },
            }
        } else if d == 2 {
            match name {
                Some(n) => {
                    self.open_record(Some(n));
                    self.set_state(State::LineEnd);
                },
                None => {
                    if is_symbol(&tp.token, Symbol::Underscore) {
                        self.open_record(None);
                        self.set_state(State::LineEnd);
                    } else {
                        return Err(unexpected(tp));
                    }
                },
            }
        } else {
            match name {
                Some(n) => {
                    self.set_state(State::AttributeValue(n));
                },
                None => {
                    return Err(unexpected(tp));
                },
            }
        }
        Ok(())
    }

    /// The first token after the indentation `w` (at `wp`) of a line.
    fn receive_indented(&mut self, w: String, wp: Position, tp: &TokenPosition) -> (r: Result<
        (),
        ParseError,
    >)
        ensures
            match indented_step(old(self)@, w@, wp, tp@) {
                Ok(b) => r is Ok && final(self)@ == b,
                Err(e) => r is Err && r->Err_0@ == e,
            },
    {
        let wc = chars_of(w.as_str());
        if wc.len() == 0 {
            return Err(ParseError { kind: ParseErrorKind::EmptyIndent, position: wp });
        }
        if !blanks_only(&wc) {
            return Err(ParseError { kind: ParseErrorKind::InvalidIndent, position: wp });
        }
        let unit: String = match &self.indent_unit {
            Some(u) => u.clone(),
            None => w.clone(),
        };
        let uc = chars_of(unit.as_str());
        match indent_level(&uc, &wc) {
            None => Err(ParseError { kind: ParseErrorKind::InconsistentIndent, position: wp }),
            Some(d) => {
                if (d == 1 && self.schema.is_some()) || (d == 2 && self.table.is_some()) || (d == 3
                    && self.record.is_some()) {
                    self.indent_unit = Some(unit);
                    assert(self@ =~= Build { unit: Some(unit@), ..old(self)@ });
                    self.receive_content(d, tp)
                } else {
                    Err(
                        ParseError {
                            kind: ParseErrorKind::UnexpectedIndentLevel(d),
                            position: wp,
                        },
                    )
                }
            },
        }
    }

    /// Reads the token `tp`.
    fn receive(&mut self, tp: &TokenPosition) -> (r: Result<(), ParseError>)
        ensures
            match parse_step(old(self)@, tp@) {
                Ok(b) => r is Ok && final(self)@ == b,
                Err(e) => r is Err && r->Err_0@ == e,
            },
    {
        let mut st = State::LineStart;
        std::mem::swap(&mut self.state, &mut st);
        let ghost b0 = old(self)@;
        assert(self@ =~= with_mode(b0, Mode::LineStart));
        let t = &tp.token;
        let nl = is_newline(t);
        match st {
            State::LineStart => {
                if nl {
                } else {
                    match t {
                        Token::Indent(w) => {
                            self.set_state(State::Indented(w.clone(), tp.start_position));
                        },
                        _ => match token_name(t) {
                            Some(n) => {
                                self.open_schema(n);
                                self.set_state(State::LineEnd);
                            },
                            None => {
                                return Err(unexpected(tp));
                            },
                        },
                    }
                }
            },
            State::Indented(w, wp) => {
                if !nl {
                    return self.receive_indented(w, wp, tp);
                }
            },
            State::LineEnd => {
                if !nl {
                    return Err(unexpected(tp));
                }
            },
            State::TableEnd => {
                if is_as(t) {
                    self.set_state(State::TableAlias);
                } else if !nl {
                    return Err(unexpected(tp));
                }
            },
            State::TableAlias => {
                match t {
                    Token::Identifier(a) => {
                        self.set_alias(a.clone());
                        self.set_state(State::LineEnd);
                    },
                    _ => {
                        return Err(unexpected(tp));
                    },
                }
            },
            State::AttributeValue(a) => {
                match t {
                    Token::Boolean(v) => {
                        self.add_attribute(Attribute { name: a, value: Value::Boolean(*v) });
                        self.set_state(State::LineEnd);
                    },
                    Token::Number(v) => {
                        self.add_attribute(Attribute { name: a, value: Value::Number(v.clone()) });
                        self.set_state(State::LineEnd);
                    },
                    Token::Text(v) => {
                        self.add_attribute(Attribute { name: a, value: Value::Text(v.clone()) });
                        self.set_state(State::LineEnd);
                    },
                    Token::Symbol(Symbol::AtSign) => {
                        self.set_state(State::ReferenceRecord(a, None, None));
                    },
                    _ => match token_name(t) {
                        Some(i) => {
                            self.set_state(State::Reference(a, i, copy_position(tp)));
                        },
                        None => {
                            return Err(unexpected(tp));
                        },
                    },
                }
            },
            State::Reference(a, i, itp) => {
                if is_symbol(t, Symbol::AtSign) {
                    self.set_state(State::ReferenceRecord(a, None, Some(i)));
                } else if is_symbol(t, Symbol::Period) {
                    self.set_state(State::ReferenceDot(a, i));
                } else if nl {
                    return Err(unexpected(&itp));
                } else {
                    return Err(unexpected(tp));
                }
            },
            State::ReferenceDot(a, i) => {
                match token_name(t) {
                    Some(j) => {
                        self.set_state(State::ReferencePair(a, i, j));
                    },
                    None => {
                        if nl {
                            let ghost i0 = i@;
                            let mut text = i;
                            text.append(".");
                            proof {
                                reveal_strlit(".");
                                assert(text@ =~= i0 + seq!['.']);
                            }
                            return Err(incomplete_reference(text, tp));
                        } else {
                            return Err(unexpected(tp));
                        }
                    },
                }
            },
            State::ReferencePair(a, i, j) => {
                if is_symbol(t, Symbol::AtSign) {
                    self.set_state(State::ReferenceRecord(a, Some(i), Some(j)));
                } else if nl {
                    let value = Value::Reference(
                        ReferenceValue { schema: None, table: None, record: i, column: j },
                    );
                    self.add_attribute(Attribute { name: a, value });
                    self.set_state(State::LineStart);
                } else {
                    return Err(unexpected(tp));
                }
            },
            State::ReferenceRecord(a, s, tb) => {
                match token_name(t) {
                    Some(r) => {
                        self.set_state(State::ReferenceRecordName(a, s, tb, r));
                    },
                    None => {
                        if nl {
                            return Err(incomplete_reference(qualifier_text(&s, &tb), tp));
                        } else {
                            return Err(unexpected(tp));
                        }
                    },
                }
            },
            State::ReferenceRecordName(a, s, tb, r) => {
                if is_symbol(t, Symbol::Period) {
                    self.set_state(State::ReferenceColumn(a, s, tb, r));
                } else if nl {
                    let mut text = qualifier_text(&s, &tb);
                    text.append(r.as_str());
                    return Err(incomplete_reference(text, tp));
                } else {
                    return Err(unexpected(tp));
                }
            },
            State::ReferenceColumn(a, s, tb, r) => {
                match token_name(t) {
                    Some(c) => {
                        let value = Value::Reference(
                            ReferenceValue { schema: s, table: tb, record: r, column: c },
                        );
                        self.add_attribute(Attribute { name: a, value });
                        self.set_state(State::LineEnd);
                    },
                    None => {
                        if nl {
                            let mut text = qualifier_text(&s, &tb);
                            text.append(r.as_str());
                            text.append(".");
                            proof {
                                reveal_strlit(".");
                                assert(text@ =~= qualifier(text_of(s), text_of(tb)) + r@ + seq!['.']);
                            }
                            return Err(incomplete_reference(text, tp));
                        } else {
                            return Err(unexpected(tp));
                        }
                    },
                }
            },
        }
        proof {
            let b = parse_step(b0, tp@)->Ok_0;
            assert(self@ =~= b);
        }
        Ok(())
    }
}


/// Errors are kept: once the first `k` tokens fail, every longer prefix fails alike.
pub proof fn lemma_parse_error_persists(ts: Seq<TokenPositionV>, k: int, m: int)
    requires
        0 <= k <= m,
        parse_prefix(ts, k) is Err,
    ensures
        parse_prefix(ts, m) == parse_prefix(ts, k),
    decreases m - k,
{
    if m > k {
        lemma_parse_error_persists(ts, k, m - 1);
    }
}

pub open spec fn token_views(tokens: Seq<TokenPosition>) -> Seq<TokenPositionV> {
    tokens.map_values(|tp: TokenPosition| tp@)
}

pub open spec fn schema_views(schemas: Seq<Schema>) -> Seq<SchemaV> {
    schemas.map_values(|s: Schema| s@)
}

impl Parser {
    /// Reads `tokens` through, from a parser that has read nothing: on success the parser holds
    /// in `schemas` the whole tree that they describe.
    pub fn parse(self, tokens: Vec<TokenPosition>) -> (r: Result<Self, ParseError>)
        requires
            self.fresh(),
        ensures
            match r {
                Ok(p) => parse_spec(token_views(tokens@)) == Ok::<Seq<SchemaV>, ParseErrorV>(
                    schema_views(p.schemas@),
                ),
                Err(e) => parse_spec(token_views(tokens@)) == Err::<Seq<SchemaV>, ParseErrorV>(e@),
            },
    {
        let mut p = self;
        let ghost ts = token_views(tokens@);
        let n = tokens.len();
        let mut i: usize = 0;
        while i < n
            invariant
                0 <= i <= n,
                n == tokens@.len(),
                ts == token_views(tokens@),
                parse_prefix(ts, i as int) == Ok::<Build, ParseErrorV>(p@),
            decreases n - i,
        {
            assert(ts[i as int] == tokens@[i as int]@);
            let r = p.receive(&tokens[i]);
            match r {
                Err(e) => {
                    proof {
                        lemma_parse_error_persists(ts, i + 1, n as int);
                    }
                    return Err(e);
                },
                Ok(()) => {},
            }
            i += 1;
        }
        let open_line = match &p.state {
            State::LineStart => false,
            State::Indented(_, _) => false,
            _ => true,
        };
        if open_line {
            assert(n > 0);
            let last = tokens[n - 1].end_position;
            assert(last == ts.last().end_position);
            let nl = TokenPosition { token: Token::Newline, start_position: last, end_position: last };
            p.receive(&nl)?;
        }
        p.close_schema();
        Ok(p)
    }
}

/// The schemas that `tokens` describe, or the first structural error.
pub fn parse(tokens: Vec<TokenPosition>) -> (r: Result<Vec<Schema>, ParseError>)
    ensures
        match r {
            Ok(ss) => parse_spec(token_views(tokens@)) == Ok::<Seq<SchemaV>, ParseErrorV>(
                schema_views(ss@),
            ),
            Err(e) => parse_spec(token_views(tokens@)) == Err::<Seq<SchemaV>, ParseErrorV>(e@),
        },
{
    let p = Parser::new().parse(tokens)?;
    Ok(p.schemas)
}

} // verus!
