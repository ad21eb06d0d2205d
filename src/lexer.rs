use vstd::prelude::*;

use crate::chars::{
    chars_of, is_ascii_digit, is_blank, is_digit, is_inline_whitespace, is_name_char,
    is_valid_identifier, string_from,
};
use crate::position::{advance, is_line_end, lemma_position_bounds, position_at, Position};
use crate::token::{copy_token, Keyword, Symbol, Token, TokenPosition, TokenPositionV, TokenV};

verus! {

/// What went wrong while reading characters into tokens.
#[derive(Clone, Copy, Debug, PartialEq, Eq, Structural)]
pub enum LexErrorKind {
    /// The character cannot stand where it stands.
    UnexpectedCharacter(char),
    /// A single `-` that a second `-` does not follow.
    ExpectedComment,
    /// A text literal that the input ends in.
    UnclosedString,
    /// A quoted name that the input ends in.
    UnclosedQuotedIdentifier,
}

/// A lexical error, at the offending character; for an input that ends too soon, at its last
/// character.
#[derive(Clone, Copy, Debug, PartialEq, Eq, Structural)]
pub struct LexError {
    pub kind: LexErrorKind,
    pub position: Position,
}

/// The states of the scanner.
#[derive(Clone, Copy, Debug, PartialEq, Eq, Structural)]
pub enum State {
    /// Between tokens.
    Start,
    /// In the blanks that begin a line.
    Indent,
    /// In the digits of a number without a decimal point.
    Integer,
    /// In a number after its decimal point.
    Float,
    /// After a `.`: a symbol, or the start of a number such as `.5`.
    Period,
    /// In an unquoted name.
    Identifier,
    /// After a `_`: the anonymous marker, or the start of a name.
    Underscore,
    /// Inside a double-quoted name.
    QuotedIdentifier,
    /// After a `"` inside a quoted name: its end, or the first of two.
    QuotedIdentifierEnd,
    /// Inside a text literal.
    Text,
    /// After a `'` inside a text literal: its end, or the first of two.
    TextEnd,
    /// After a single `-`.
    Dash,
    /// In a comment, up to the end of the line.
    Comment,
    /// After a carriage return: a line break, which a line feed right after it joins.
    CarriageReturn,
}

/// A token with the indices of its first and last character in the input. The line feed that
/// ends an input whose last line has no line break has the index of the input's length.
pub ghost struct Lexeme {
    pub token: TokenV,
    pub first: int,
    pub last: int,
}

/// The scanner after some characters: its state, the decoded text of the token that it is
/// building, where that token began, and the tokens so far.
pub ghost struct Scan {
    pub state: State,
    pub buf: Seq<char>,
    pub start: int,
    pub tokens: Seq<Lexeme>,
}

/// The token that an unquoted name spells: the anonymous marker `_`, the literals `true`, `t`,
/// `false`, `f` and the keyword `as`, compared case-sensitively; any other name is an identifier.
pub open spec fn identifier_token(w: Seq<char>) -> TokenV {
    if w == seq!['_'] {
        TokenV::Symbol(Symbol::Underscore)
    } else if w == seq!['t', 'r', 'u', 'e'] || w == seq!['t'] {
        TokenV::Boolean(true)
    } else if w == seq!['f', 'a', 'l', 's', 'e'] || w == seq!['f'] {
        TokenV::Boolean(false)
    } else if w == seq!['a', 's'] {
        TokenV::Keyword(Keyword::As)
    } else {
        TokenV::Identifier(w)
    }
}

/// The token that the scanner holds complete in state `st`, if any: it is emitted as soon as a
/// character arrives that cannot extend it.
pub open spec fn pending(st: State, buf: Seq<char>) -> Option<TokenV> {
    match st {
        State::Indent => Some(TokenV::Indent(buf)),
        State::Integer => Some(TokenV::Number(buf)),
        State::Float => Some(TokenV::Number(buf)),
        State::Period => Some(TokenV::Symbol(Symbol::Period)),
        State::Identifier => Some(identifier_token(buf)),
        State::Underscore => Some(TokenV::Symbol(Symbol::Underscore)),
        State::QuotedIdentifierEnd => Some(TokenV::QuotedIdentifier(buf)),
        State::TextEnd => Some(TokenV::Text(buf)),
        State::CarriageReturn => Some(TokenV::Newline),
        _ => None,
    }
}

pub open spec fn unexpected_at(s: Seq<char>, i: int) -> LexError {
    LexError { kind: LexErrorKind::UnexpectedCharacter(s[i]), position: position_at(s, i) }
}

pub open spec fn emit(sc: Scan, t: TokenV, first: int, last: int) -> Scan {
    Scan { tokens: sc.tokens.push(Lexeme { token: t, first, last }), ..sc }
}

pub open spec fn enter(sc: Scan, st: State, buf: Seq<char>, i: int) -> Scan {
    Scan { state: st, buf, start: i, tokens: sc.tokens }
}

/// The scanner's pending token emitted, its last character at index `last`.
pub open spec fn close(sc: Scan, last: int) -> Scan {
    enter(emit(sc, pending(sc.state, sc.buf)->0, sc.start, last), State::Start, seq![], last + 1)
}

/// The character at index `i` read between tokens.
pub open spec fn scan_start(sc: Scan, s: Seq<char>, i: int) -> Result<Scan, LexError> {
    let c = s[i];
    if c == '\n' {
        Ok(enter(emit(sc, TokenV::Newline, i, i), State::Start, seq![], i))
    } else if c == '\r' {
        Ok(enter(sc, State::CarriageReturn, seq![], i))
    } else if c == '\0' {
        Ok(enter(sc, State::Start, seq![], i))
    } else if is_blank(c) {
        if i == 0 || is_line_end(s[i - 1]) {
            Ok(enter(sc, State::Indent, seq![c], i))
        } else {
            Ok(enter(sc, State::Start, seq![], i))
        }
    } else if is_digit(c) {
        Ok(enter(sc, State::Integer, seq![c], i))
    } else if c == '.' {
        Ok(enter(sc, State::Period, seq![], i))
    } else if c == '@' {
        Ok(enter(emit(sc, TokenV::Symbol(Symbol::AtSign), i, i), State::Start, seq![], i))
    } else if c == '_' {
        Ok(enter(sc, State::Underscore, seq!['_'], i))
    } else if c == '\'' {
        Ok(enter(sc, State::Text, seq![], i))
    } else if c == '"' {
        Ok(enter(sc, State::QuotedIdentifier, seq![], i))
    } else if c == '-' {
        Ok(enter(sc, State::Dash, seq![], i))
    } else if is_name_char(c) {
        Ok(enter(sc, State::Identifier, seq![c], i))
    } else {
        Err(unexpected_at(s, i))
    }
}

/// The character at index `i` read by the scanner `sc`.
pub open spec fn scan_step(sc: Scan, s: Seq<char>, i: int) -> Result<Scan, LexError> {
    let c = s[i];
    let grown = Scan { buf: sc.buf.push(c), ..sc };
    match sc.state {
        State::Start => scan_start(sc, s, i),
        State::Indent => if is_blank(c) {
            Ok(grown)
        } else {
            scan_start(close(sc, i - 1), s, i)
        },
        State::Integer => if is_digit(c) {
            Ok(grown)
        } else if c == '.' {
            Ok(Scan { state: State::Float, ..grown })
        } else if is_name_char(c) {
            Err(unexpected_at(s, i))
        } else {
            scan_start(close(sc, i - 1), s, i)
        },
        State::Float => if is_digit(c) {
            Ok(grown)
        } else if c == '.' || is_name_char(c) {
            Err(unexpected_at(s, i))
        } else {
            scan_start(close(sc, i - 1), s, i)
        },
        State::Period => if is_digit(c) {
            Ok(Scan { state: State::Float, buf: seq!['.', c], ..sc })
        } else if c == '.' {
            Err(unexpected_at(s, i))
        } else {
            scan_start(close(sc, i - 1), s, i)
        },
        State::Identifier => if is_name_char(c) {
            Ok(grown)
        } else {
            scan_start(close(sc, i - 1), s, i)
        },
        State::Underscore => if is_name_char(c) {
            Ok(Scan { state: State::Identifier, ..grown })
        } else {
            scan_start(close(sc, i - 1), s, i)
        },
        State::QuotedIdentifier => if c == '"' {
            Ok(Scan { state: State::QuotedIdentifierEnd, ..sc })
        } else {
            Ok(grown)
        },
        State::QuotedIdentifierEnd => if c == '"' {
            Ok(Scan { state: State::QuotedIdentifier, ..grown })
        } else {
            scan_start(close(sc, i - 1), s, i)
        },
        State::Text => if c == '\'' {
            Ok(Scan { state: State::TextEnd, ..sc })
        } else {
            Ok(grown)
        },
        State::TextEnd => if c == '\'' {
            Ok(Scan { state: State::Text, ..grown })
        } else {
            scan_start(close(sc, i - 1), s, i)
        },
        State::Dash => if c == '-' {
            Ok(Scan { state: State::Comment, ..sc })
        } else if is_line_end(c) {
            Err(LexError { kind: LexErrorKind::ExpectedComment, position: position_at(s, i) })
        } else {
            Err(unexpected_at(s, i))
        },
        State::Comment => if c == '\n' {
            Ok(enter(emit(sc, TokenV::Newline, i, i), State::Start, seq![], i))
        } else if c == '\r' {
            Ok(enter(sc, State::CarriageReturn, seq![], i))
        } else {
            Ok(sc)
        },
        State::CarriageReturn => if c == '\n' {
            Ok(enter(emit(sc, TokenV::Newline, sc.start, i), State::Start, seq![], i))
        } else {
            scan_start(close(sc, i - 1), s, i)
        },
    }
}

pub open spec fn initial_scan() -> Scan {
    Scan { state: State::Start, buf: seq![], start: 0, tokens: seq![] }
}

/// The scanner after the first `n` characters of `s`, or the first error among them.
pub open spec fn scan_prefix(s: Seq<char>, n: int) -> Result<Scan, LexError>
    decreases n,
{
    if n <= 0 {
        Ok(initial_scan())
    } else {
        match scan_prefix(s, n - 1) {
            Ok(sc) => scan_step(sc, s, n - 1),
            Err(e) => Err(e),
        }
    }
}

/// The end of the input read by the scanner `sc`: the pending token is emitted, an unclosed
/// quote or a lone `-` is an error at the last character, and a last line without a line break
/// gets a line feed.
pub open spec fn scan_end(sc: Scan, s: Seq<char>) -> Result<Seq<Lexeme>, LexError> {
    let n = s.len() as int;
    let closed = match sc.state {
        State::QuotedIdentifier => Err(
            LexError { kind: LexErrorKind::UnclosedQuotedIdentifier, position: position_at(s, n - 1) },
        ),
        State::Text => Err(
            LexError { kind: LexErrorKind::UnclosedString, position: position_at(s, n - 1) },
        ),
        State::Dash => Err(
            LexError { kind: LexErrorKind::ExpectedComment, position: position_at(s, n - 1) },
        ),
        State::Start => Ok(sc.tokens),
        State::Comment => Ok(sc.tokens),
        _ => Ok(close(sc, n - 1).tokens),
    };
    match closed {
        Ok(ts) => if n > 0 && !is_line_end(s[n - 1]) {
            Ok(ts.push(Lexeme { token: TokenV::Newline, first: n, last: n }))
        } else {
            Ok(ts)
        },
        Err(e) => Err(e),
    }
}

/// The tokens of `s` with the indices of their characters, or the first lexical error.
pub open spec fn lexemes(s: Seq<char>) -> Result<Seq<Lexeme>, LexError> {
    match scan_prefix(s, s.len() as int) {
        Ok(sc) => scan_end(sc, s),
        Err(e) => Err(e),
    }
}

pub open spec fn located(s: Seq<char>, l: Lexeme) -> TokenPositionV {
    TokenPositionV {
        token: l.token,
        start_position: position_at(s, l.first),
        end_position: position_at(s, l.last),
    }
}

/// The tokens of `s` with their places, or the first lexical error.
pub open spec fn tokenize_spec(s: Seq<char>) -> Result<Seq<TokenPositionV>, LexError> {
    match lexemes(s) {
        Ok(ls) => Ok(ls.map_values(|l: Lexeme| located(s, l))),
        Err(e) => Err(e),
    }
}

/// The tokens of `s`, or the first lexical error.
pub open spec fn lex_spec(s: Seq<char>) -> Result<Seq<TokenV>, LexError> {
    match lexemes(s) {
        Ok(ls) => Ok(ls.map_values(|l: Lexeme| l.token)),
        Err(e) => Err(e),
    }
}


/// Errors are kept: once the first `k` characters fail, every longer prefix fails alike.
pub proof fn lemma_scan_error_persists(s: Seq<char>, k: int, m: int)
    requires
        0 <= k <= m,
        scan_prefix(s, k) is Err,
    ensures
        scan_prefix(s, m) == scan_prefix(s, k),
    decreases m - k,
{
    if m > k {
        lemma_scan_error_persists(s, k, m - 1);
    }
}

/// The token that an unquoted name spells (see `identifier_token`).
pub fn identifier_to_token(w: Vec<char>) -> (t: Token)
    ensures
        t@ == identifier_token(w@),
{
    let n = w.len();
    if n == 1 && w[0] == '_' {
        assert(w@ =~= seq!['_']);
        Token::Symbol(Symbol::Underscore)
    } else if (n == 4 && w[0] == 't' && w[1] == 'r' && w[2] == 'u' && w[3] == 'e') || (n == 1 && w[0]
        == 't') {
        assert(w@ =~= seq!['t', 'r', 'u', 'e'] || w@ =~= seq!['t']);
        Token::Boolean(true)
    } else if (n == 5 && w[0] == 'f' && w[1] == 'a' && w[2] == 'l' && w[3] == 's' && w[4] == 'e')
        || (n == 1 && w[0] == 'f') {
        assert(w@ =~= seq!['f', 'a', 'l', 's', 'e'] || w@ =~= seq!['f']);
        Token::Boolean(false)
    } else if n == 2 && w[0] == 'a' && w[1] == 's' {
        assert(w@ =~= seq!['a', 's']);
        Token::Keyword(Keyword::As)
    } else {
        assert(w@ != seq!['t', 'r', 'u', 'e']);
        assert(w@ != seq!['t']);
        assert(w@ != seq!['f', 'a', 'l', 's', 'e']);
        assert(w@ != seq!['f']);
        assert(w@ != seq!['a', 's']);
        assert(w@ != seq!['_']);
        Token::Identifier(string_from(w))
    }
}

/// A scanner over one input: its state, the token it is building, the places it tracks, and the
/// tokens it has emitted.
pub struct Tokenizer {
    pub state: State,
    pub buf: Vec<char>,
    pub start: usize,
    pub start_position: Position,
    pub last_position: Position,
    pub position: Position,
    pub tokens: Vec<TokenPosition>,
}

impl Tokenizer {
    /// A scanner that has read nothing.
    pub open spec fn fresh(&self) -> bool {
        &&& self.state == State::Start
        &&& self.buf@.len() == 0
        &&& self.start == 0
        &&& self.start_position == (Position { line: 1, column: 1 })
        &&& self.position == (Position { line: 1, column: 1 })
        &&& self.tokens@.len() == 0
    }

    /// The scanner holds `sc` after reading the first `i` characters of `s`.
    closed spec fn tracks(&self, s: Seq<char>, sc: Scan, i: int) -> bool {
        &&& self.state == sc.state
        &&& self.buf@ == sc.buf
        &&& self.start as int == sc.start
        &&& 0 <= sc.start <= i
        &&& self.start_position == position_at(s, sc.start)
        &&& self.position == position_at(s, i)
        &&& (i > 0 ==> self.last_position == position_at(s, i - 1))
        &&& self.tokens@.len() == sc.tokens.len()
        &&& forall|k: int|
            0 <= k < sc.tokens.len() ==> #[trigger] self.tokens@[k]@ == located(s, sc.tokens[k])
    }

    /// A scanner at the first place of an input, with nothing read.
    pub fn new() -> (r: Self)
        ensures
            r.fresh(),
    {
        Tokenizer {
            state: State::Start,
            buf: Vec::new(),
            start: 0,
            start_position: Position { line: 1, column: 1 },
            last_position: Position { line: 1, column: 1 },
            position: Position { line: 1, column: 1 },
            tokens: Vec::new(),
        }
    }

    /// The error for the character `c` at the current place.
    fn unexpected(&self, c: char) -> (e: LexError)
        ensures
            e == (LexError { kind: LexErrorKind::UnexpectedCharacter(c), position: self.position }),
    {
        LexError { kind: LexErrorKind::UnexpectedCharacter(c), position: self.position }
    }

    fn add_token(&mut self, token: Token, start_position: Position, end_position: Position)
        ensures
            final(self).tokens@ == old(self).tokens@.push(
                TokenPosition { token, start_position, end_position },
            ),
            final(self).state == old(self).state,
            final(self).buf == old(self).buf,
            final(self).start == old(self).start,
            final(self).start_position == old(self).start_position,
            final(self).last_position == old(self).last_position,
            final(self).position == old(self).position,
    {
        self.tokens.push(TokenPosition { token, start_position, end_position });
    }

    /// Enters state `st` at the character at index `i`, with an empty buffer.
    fn reset_with(&mut self, st: State, i: usize)
        ensures
            final(self).state == st,
            final(self).buf@ == Seq::<char>::empty(),
            final(self).start == i,
            final(self).start_position == old(self).position,
            final(self).tokens == old(self).tokens,
            final(self).last_position == old(self).last_position,
            final(self).position == old(self).position,
    {
        self.state = st;
        self.buf = Vec::new();
        self.start = i;
        self.start_position = self.position;
    }

    fn drain_stack(&mut self) -> (r: Vec<char>)
        ensures
            r@ == old(self).buf@,
            final(self).buf@ == Seq::<char>::empty(),
            final(self).state == old(self).state,
            final(self).start == old(self).start,
            final(self).start_position == old(self).start_position,
            final(self).tokens == old(self).tokens,
            final(self).last_position == old(self).last_position,
            final(self).position == old(self).position,
    {
        let mut b: Vec<char> = Vec::new();
        std::mem::swap(&mut self.buf, &mut b);
        b
    }

    /// Emits the pending token, whose last character is the one before index `i`.
    fn close(&mut self, Ghost(s): Ghost<Seq<char>>, Ghost(sc): Ghost<Scan>, i: usize)
        requires
            old(self).tracks(s, sc, i as int),
            pending(sc.state, sc.buf) is Some,
            0 < i,
        ensures
            final(self).tracks(s, close(sc, i - 1), i as int),
    {
        let st = self.state;
        let w = self.drain_stack();
        let token = match st {
            State::Indent => Token::Indent(string_from(w)),
            State::Integer => Token::Number(string_from(w)),
            State::Float => Token::Number(string_from(w)),
            State::Period => Token::Symbol(Symbol::Period),
            State::Identifier => identifier_to_token(w),
            State::Underscore => Token::Symbol(Symbol::Underscore),
            State::QuotedIdentifierEnd => Token::QuotedIdentifier(string_from(w)),
            State::CarriageReturn => Token::Newline,
            _ => Token::Text(string_from(w)),
        };
        let start_position = self.start_position;
        let end_position = self.last_position;
        self.add_token(token, start_position, end_position);
        self.reset_with(State::Start, i);
        proof {
            let sc2 = close(sc, i - 1);
            assert(sc2.tokens.last() == Lexeme { token: token@, first: sc.start, last: i - 1 });
            assert forall|k: int| 0 <= k < sc2.tokens.len() implies #[trigger] self.tokens@[k]@
                == located(s, sc2.tokens[k]) by {
                if k < sc.tokens.len() {
                    assert(self.tokens@[k] == old(self).tokens@[k]);
                }
            }
        }
    }

    /// Reads the character at index `i` between tokens.
    fn receive_start(&mut self, s: &Vec<char>, i: usize, Ghost(sc): Ghost<Scan>) -> (r: Result<
        (),
        LexError,
    >)
        requires
            old(self).tracks(s@, sc, i as int),
            i < s@.len(),
        ensures
            match scan_start(sc, s@, i as int) {
                Ok(sc2) => r is Ok && final(self).tracks(s@, sc2, i as int),
                Err(e) => r == Err::<(), LexError>(e),
            },
    {
        let c = s[i];
        let p = self.position;
        if c == '\n' {
            self.add_token(Token::Newline, p, p);
            self.reset_with(State::Start, i);
        } else if c == '\r' {
            self.reset_with(State::CarriageReturn, i);
        } else if c == '\0' {
            self.reset_with(State::Start, i);
        } else if is_inline_whitespace(c) {
            if i == 0 || s[i - 1] == '\n' || s[i - 1] == '\r' {
                self.reset_with(State::Indent, i);
                self.buf.push(c);
            } else {
                self.reset_with(State::Start, i);
            }
        } else if is_ascii_digit(c) {
            self.reset_with(State::Integer, i);
            self.buf.push(c);
        } else if c == '.' {
            self.reset_with(State::Period, i);
        } else if c == '@' {
            self.add_token(Token::Symbol(Symbol::AtSign), p, p);
            self.reset_with(State::Start, i);
        } else if c == '_' {
            self.reset_with(State::Underscore, i);
            self.buf.push(c);
        } else if c == '\'' {
            self.reset_with(State::Text, i);
        } else if c == '"' {
            self.reset_with(State::QuotedIdentifier, i);
        } else if c == '-' {
            self.reset_with(State::Dash, i);
        } else if is_valid_identifier(c) {
            self.reset_with(State::Identifier, i);
            self.buf.push(c);
        } else {
            return Err(self.unexpected(c));
        }
        proof {
            let sc2 = scan_start(sc, s@, i as int)->Ok_0;
            assert(self.buf@ =~= sc2.buf);
            assert forall|k: int| 0 <= k < sc2.tokens.len() implies #[trigger] self.tokens@[k]@
                == located(s@, sc2.tokens[k]) by {
                if k < sc.tokens.len() {
                    assert(self.tokens@[k] == old(self).tokens@[k]);
                }
            }
        }
        Ok(())
    }

    /// Reads the character at index `i`, then moves the places on past it.
    #[verifier::rlimit(60)]
    fn receive(&mut self, s: &Vec<char>, i: usize, Ghost(sc): Ghost<Scan>) -> (r: Result<
        (),
        LexError,
    >)
        requires
            old(self).tracks(s@, sc, i as int),
            i < s@.len() < usize::MAX,
            i > 0 || sc.state == State::Start,
        ensures
            match scan_step(sc, s@, i as int) {
                Ok(sc2) => r is Ok && final(self).tracks(s@, sc2, i + 1),
                Err(e) => r == Err::<(), LexError>(e),
            },
    {
        let c = s[i];
        let p = self.position;
        let ghost grown = Scan { buf: sc.buf.push(c), ..sc };
        let ghost next: Scan;
        match self.state {
            State::Start => {
                self.receive_start(s, i, Ghost(sc))?;
                proof { next = scan_start(sc, s@, i as int)->Ok_0; }
            },
            State::Indent => {
                if is_inline_whitespace(c) {
                    self.buf.push(c);
                    proof { next = grown; }
                } else {
                    self.close(Ghost(s@), Ghost(sc), i);
                    self.receive_start(s, i, Ghost(close(sc, i - 1)))?;
                    proof { next = scan_start(close(sc, i - 1), s@, i as int)->Ok_0; }
                }
            },
            State::Integer => {
                if is_ascii_digit(c) {
                    self.buf.push(c);
                    proof { next = grown; }
                } else if c == '.' {
                    self.buf.push(c);
                    self.state = State::Float;
                    proof { next = Scan { state: State::Float, ..grown }; }
                } else if is_valid_identifier(c) {
                    return Err(self.unexpected(c));
                } else {
                    self.close(Ghost(s@), Ghost(sc), i);
                    self.receive_start(s, i, Ghost(close(sc, i - 1)))?;
                    proof { next = scan_start(close(sc, i - 1), s@, i as int)->Ok_0; }
                }
            },
            State::Float => {
                if is_ascii_digit(c) {
                    self.buf.push(c);
                    proof { next = grown; }
                } else if c == '.' || is_valid_identifier(c) {
                    return Err(self.unexpected(c));
                } else {
                    self.close(Ghost(s@), Ghost(sc), i);
                    self.receive_start(s, i, Ghost(close(sc, i - 1)))?;
                    proof { next = scan_start(close(sc, i - 1), s@, i as int)->Ok_0; }
                }
            },
            State::Period => {
                if is_ascii_digit(c) {
                    self.buf = Vec::new();
                    self.buf.push('.');
                    self.buf.push(c);
                    self.state = State::Float;
                    proof {
                        next = Scan { state: State::Float, buf: seq!['.', c], ..sc };
                        assert(self.buf@ =~= next.buf);
                    }
                } else if c == '.' {
                    return Err(self.unexpected(c));
                } else {
                    self.close(Ghost(s@), Ghost(sc), i);
                    self.receive_start(s, i, Ghost(close(sc, i - 1)))?;
                    proof { next = scan_start(close(sc, i - 1), s@, i as int)->Ok_0; }
                }
            },
            State::Identifier => {
                if is_valid_identifier(c) {
                    self.buf.push(c);
                    proof { next = grown; }
                } else {
                    self.close(Ghost(s@), Ghost(sc), i);
                    self.receive_start(s, i, Ghost(close(sc, i - 1)))?;
                    proof { next = scan_start(close(sc, i - 1), s@, i as int)->Ok_0; }
                }
            },
            State::Underscore => {
                if is_valid_identifier(c) {
                    self.buf.push(c);
                    self.state = State::Identifier;
                    proof { next = Scan { state: State::Identifier, ..grown }; }
                } else {
                    self.close(Ghost(s@), Ghost(sc), i);
                    self.receive_start(s, i, Ghost(close(sc, i - 1)))?;
                    proof { next = scan_start(close(sc, i - 1), s@, i as int)->Ok_0; }
                }
            },
            State::QuotedIdentifier => {
                if c == '"' {
                    self.state = State::QuotedIdentifierEnd;
                    proof { next = Scan { state: State::QuotedIdentifierEnd, ..sc }; }
                } else {
                    self.buf.push(c);
                    proof { next = grown; }
                }
            },
            State::QuotedIdentifierEnd => {
                if c == '"' {
                    self.buf.push(c);
                    self.state = State::QuotedIdentifier;
                    proof { next = Scan { state: State::QuotedIdentifier, ..grown }; }
                } else {
                    self.close(Ghost(s@), Ghost(sc), i);
                    self.receive_start(s, i, Ghost(close(sc, i - 1)))?;
                    proof { next = scan_start(close(sc, i - 1), s@, i as int)->Ok_0; }
                }
            },
            State::Text => {
                if c == '\'' {
                    self.state = State::TextEnd;
                    proof { next = Scan { state: State::TextEnd, ..sc }; }
                } else {
                    self.buf.push(c);
                    proof { next = grown; }
                }
            },
            State::TextEnd => {
                if c == '\'' {
                    self.buf.push(c);
                    self.state = State::Text;
                    proof { next = Scan { state: State::Text, ..grown }; }
                } else {
                    self.close(Ghost(s@), Ghost(sc), i);
                    self.receive_start(s, i, Ghost(close(sc, i - 1)))?;
                    proof { next = scan_start(close(sc, i - 1), s@, i as int)->Ok_0; }
                }
            },
            State::Dash => {
                if c == '-' {
                    self.state = State::Comment;
                    proof { next = Scan { state: State::Comment, ..sc }; }
                } else if c == '\n' || c == '\r' {
                    return Err(LexError { kind: LexErrorKind::ExpectedComment, position: p });
                } else {
                    return Err(self.unexpected(c));
                }
            },
            State::Comment => {
                if c == '\n' {
                    self.add_token(Token::Newline, p, p);
                    self.reset_with(State::Start, i);
                    proof {
                        next = enter(emit(sc, TokenV::Newline, i as int, i as int), State::Start, seq![], i as int);
                        assert(self.buf@ =~= next.buf);
                        assert forall|k: int| 0 <= k < next.tokens.len() implies #[trigger] self.tokens@[k]@
                            == located(s@, next.tokens[k]) by {
                            if k < sc.tokens.len() {
                                assert(self.tokens@[k] == old(self).tokens@[k]);
                            }
                        }
                    }
                } else if c == '\r' {
                    self.reset_with(State::CarriageReturn, i);
                    proof {
                        next = enter(sc, State::CarriageReturn, seq![], i as int);
                        assert(self.buf@ =~= next.buf);
                    }
                } else {
                    proof { next = sc; }
                }
            },
            State::CarriageReturn => {
                if c == '\n' {
                    let start_position = self.start_position;
                    self.add_token(Token::Newline, start_position, p);
                    self.reset_with(State::Start, i);
                    proof {
                        next = enter(emit(sc, TokenV::Newline, sc.start, i as int), State::Start, seq![], i as int);
                        assert(self.buf@ =~= next.buf);
                        assert forall|k: int| 0 <= k < next.tokens.len() implies #[trigger] self.tokens@[k]@
                            == located(s@, next.tokens[k]) by {
                            if k < sc.tokens.len() {
                                assert(self.tokens@[k] == old(self).tokens@[k]);
                            }
                        }
                    }
                } else {
                    self.close(Ghost(s@), Ghost(sc), i);
                    self.receive_start(s, i, Ghost(close(sc, i - 1)))?;
                    proof { next = scan_start(close(sc, i - 1), s@, i as int)->Ok_0; }
                }
            },
        }
        assert(scan_step(sc, s@, i as int) == Ok::<Scan, LexError>(next));
        proof {
            lemma_position_bounds(s@, i as int);
        }
        self.last_position = self.position;
        let lf_next = i + 1 < s.len() && s[i + 1] == '\n';
        self.position = advance(self.position, c, lf_next);
        Ok(())
    }

    /// Reads the end of the input `s`, of which all characters have been read.
    fn finish(&mut self, s: &Vec<char>, Ghost(sc): Ghost<Scan>) -> (r: Result<(), LexError>)
        requires
            old(self).tracks(s@, sc, s@.len() as int),
            s@.len() > 0 || sc.state == State::Start,
        ensures
            match scan_end(sc, s@) {
                Ok(ls) => r is Ok && final(self).tokens@.len() == ls.len() && forall|k: int|
                    0 <= k < ls.len() ==> #[trigger] final(self).tokens@[k]@ == located(s@, ls[k]),
                Err(e) => r == Err::<(), LexError>(e),
            },
    {
        let n = s.len();
        let ghost mut closed: Scan = sc;
        match self.state {
            State::QuotedIdentifier => {
                return Err(
                    LexError {
                        kind: LexErrorKind::UnclosedQuotedIdentifier,
                        position: self.last_position,
                    },
                );
            },
            State::Text => {
                return Err(
                    LexError { kind: LexErrorKind::UnclosedString, position: self.last_position },
                );
            },
            State::Dash => {
                return Err(
                    LexError { kind: LexErrorKind::ExpectedComment, position: self.last_position },
                );
            },
            State::Start => {},
            State::Comment => {},
            _ => {
                self.close(Ghost(s@), Ghost(sc), n);
                proof { closed = close(sc, n - 1); }
            },
        }
        if n > 0 && s[n - 1] != '\n' && s[n - 1] != '\r' {
            let p = self.position;
            self.add_token(Token::Newline, p, p);
            proof {
                let ls = closed.tokens.push(Lexeme { token: TokenV::Newline, first: n as int, last: n as int });
                assert forall|k: int| 0 <= k < ls.len() implies #[trigger] self.tokens@[k]@
                    == located(s@, ls[k]) by {}
            }
        }
        Ok(())
    }

    /// Reads `input` through, from a scanner that has read nothing: on success the scanner holds
    /// the tokens of `input` with their places.
    pub fn tokenize(self, input: &str) -> (r: Result<Self, LexError>)
        requires
            self.fresh(),
            input@.len() < usize::MAX,
        ensures
            match r {
                Ok(t) => tokenize_spec(input@) == Ok::<Seq<TokenPositionV>, LexError>(
                    t.tokens@.map_values(|tp: TokenPosition| tp@),
                ),
                Err(e) => tokenize_spec(input@) == Err::<Seq<TokenPositionV>, LexError>(e),
            },
    {
        let mut t = self;
        let chars = chars_of(input);
        let n = chars.len();
        let ghost s = chars@;
        let ghost mut sc = initial_scan();
        let mut i: usize = 0;
        assert(t.buf@ =~= sc.buf);
        assert(t.tracks(s, sc, 0));
        while i < n
            invariant
                0 <= i <= n,
                n == s.len(),
                s == chars@,
                s == input@,
                n < usize::MAX,
                scan_prefix(s, i as int) == Ok::<Scan, LexError>(sc),
                t.tracks(s, sc, i as int),
                i > 0 || sc.state == State::Start,
            decreases n - i,
        {
            let r = t.receive(&chars, i, Ghost(sc));
            match r {
                Err(e) => {
                    proof {
                        lemma_scan_error_persists(s, i + 1, n as int);
                    }
                    return Err(e);
                },
                Ok(()) => {},
            }
            proof {
                sc = scan_step(sc, s, i as int)->Ok_0;
            }
            i += 1;
        }
        t.finish(&chars, Ghost(sc))?;
        proof {
            let ls = lexemes(s)->Ok_0;
            assert(t.tokens@.map_values(|tp: TokenPosition| tp@) =~= ls.map_values(
                |l: Lexeme| located(s, l),
            ));
        }
        Ok(t)
    }
}

/// The tokens of `input` with the places of their first and last characters, or the first
/// lexical error.
pub fn tokenize(input: &str) -> (r: Result<Vec<TokenPosition>, LexError>)
    requires
        input@.len() < usize::MAX,
    ensures
        match r {
            Ok(ts) => tokenize_spec(input@) == Ok::<Seq<TokenPositionV>, LexError>(
                ts@.map_values(|tp: TokenPosition| tp@),
            ),
            Err(e) => tokenize_spec(input@) == Err::<Seq<TokenPositionV>, LexError>(e),
        },
{
    let t = Tokenizer::new().tokenize(input)?;
    Ok(t.tokens)
}

/// The tokens of `text` without their places, or the first lexical error.
pub fn lex(text: &str) -> (r: Result<Vec<Token>, LexError>)
    requires
        text@.len() < usize::MAX,
    ensures
        match r {
            Ok(ts) => lex_spec(text@) == Ok::<Seq<TokenV>, LexError>(
                ts@.map_values(|t: Token| t@),
            ),
            Err(e) => lex_spec(text@) == Err::<Seq<TokenV>, LexError>(e),
        },
{
    let placed = tokenize(text)?;
    let ghost ls = lexemes(text@)->Ok_0;
    proof {
        let f = |l: Lexeme| located(text@, l);
        let g = |tp: TokenPosition| tp@;
        assert(ls.map_values(f) == placed@.map_values(g));
        assert(ls.map_values(f).len() == placed@.map_values(g).len());
        assert forall|k: int| 0 <= k < ls.len() implies #[trigger] placed@[k]@ == located(
            text@,
            ls[k],
        ) by {
            assert(ls.map_values(f)[k] == placed@.map_values(g)[k]);
        }
    }
    let mut out: Vec<Token> = Vec::new();
    let mut i: usize = 0;
    while i < placed.len()
        invariant
            0 <= i <= placed@.len(),
            placed@.len() == ls.len(),
            forall|k: int| 0 <= k < ls.len() ==> #[trigger] placed@[k]@ == located(text@, ls[k]),
            out@.len() == i,
            forall|k: int| 0 <= k < i ==> #[trigger] out@[k]@ == ls[k].token,
        decreases placed@.len() - i,
    {
        assert(placed@[i as int]@ == located(text@, ls[i as int]));
        out.push(copy_token(&placed[i].token));
        i += 1;
    }
    proof {
        assert(out@.map_values(|t: Token| t@) =~= ls.map_values(|l: Lexeme| l.token));
    }
    Ok(out)
}

} // verus!
