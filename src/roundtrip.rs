use vstd::prelude::*;

use crate::chars::{is_blank, is_digit, is_name_char};
use crate::position::is_line_end;
use crate::lexer::{
    close, lexemes, pending, scan_prefix, scan_start, scan_step, Lexeme, Scan, State,
};
use crate::token::{Keyword, Symbol, TokenV};

verus! {

/// `w` with every `q` in it written twice.
pub open spec fn doubled(w: Seq<char>, q: char) -> Seq<char>
    decreases w.len(),
{
    if w.len() == 0 {
        seq![]
    } else if w.last() == q {
        doubled(w.drop_last(), q) + seq![q, q]
    } else {
        doubled(w.drop_last(), q).push(w.last())
    }
}

/// `w` between quotes `q`, with every `q` inside doubled.
pub open spec fn quoted(w: Seq<char>, q: char) -> Seq<char> {
    seq![q] + doubled(w, q) + seq![q]
}

/// The source text `raw` spells the token `t`.
pub open spec fn spelled(t: TokenV, raw: Seq<char>) -> bool {
    match t {
        TokenV::Boolean(b) => if b {
            raw == seq!['t', 'r', 'u', 'e'] || raw == seq!['t']
        } else {
            raw == seq!['f', 'a', 'l', 's', 'e'] || raw == seq!['f']
        },
        TokenV::Identifier(w) => raw == w,
        TokenV::QuotedIdentifier(w) => raw == quoted(w, '"'),
        TokenV::Number(w) => raw == w,
        TokenV::Text(w) => raw == quoted(w, '\''),
        TokenV::Keyword(Keyword::As) => raw == seq!['a', 's'],
        TokenV::Symbol(Symbol::AtSign) => raw == seq!['@'],
        TokenV::Symbol(Symbol::Period) => raw == seq!['.'],
        TokenV::Symbol(Symbol::Underscore) => raw == seq!['_'],
        TokenV::Indent(w) => raw == w,
        TokenV::Newline => raw == seq!['\n'] || raw == seq!['\r'] || raw == seq!['\r', '\n'],
    }
}

/// The characters of `s` from `k` to `j` are a comment: they begin with `--` and hold no line
/// feed or carriage return.
pub open spec fn comment_span(s: Seq<char>, k: int, j: int) -> bool {
    &&& 0 <= k <= j < s.len()
    &&& k + 1 < s.len()
    &&& s[k] == '-'
    &&& s[k + 1] == '-'
    &&& forall|m: int| k <= m <= j ==> !is_line_end(s[m])
}

/// The character at `j` separates tokens: a blank, a NUL, or a character of a comment.
pub open spec fn separator(s: Seq<char>, j: int) -> bool {
    is_blank(s[j]) || s[j] == '\0' || exists|k: int| #[trigger] comment_span(s, k, j)
}

pub open spec fn separators(s: Seq<char>, from: int, to: int) -> bool {
    forall|j: int| from <= j < to ==> #[trigger] separator(s, j)
}

/// The index just past the last of the tokens `ls`.
pub open spec fn mark(ls: Seq<Lexeme>) -> int {
    if ls.len() == 0 {
        0
    } else {
        ls.last().last + 1
    }
}

/// The tokens `ls`, which lie in the first `n` characters of `s`, spell their characters there, in
/// order, with only separators around them.
pub open spec fn spells_prefix(s: Seq<char>, ls: Seq<Lexeme>, n: int) -> bool {
    &&& forall|k: int|
        0 <= k < ls.len() ==> 0 <= (#[trigger] ls[k]).first <= ls[k].last && ls[k].last < n
    &&& forall|k: int|
        0 <= k < ls.len() ==> spelled(
            (#[trigger] ls[k]).token,
            s.subrange(ls[k].first, ls[k].last + 1),
        )
    &&& forall|k: int| 0 <= k < ls.len() - 1 ==> (#[trigger] ls[k]).last < ls[k + 1].first
    &&& forall|k: int|
        0 <= k < ls.len() - 1 ==> separators(s, (#[trigger] ls[k]).last + 1, ls[k + 1].first)
    &&& ls.len() > 0 ==> separators(s, 0, ls[0].first)
}

/// What the characters of a token being built say of its state and buffer.
pub open spec fn pending_spelled(st: State, buf: Seq<char>, raw: Seq<char>) -> bool {
    match st {
        State::Indent => raw == buf && buf.len() > 0,
        State::Integer => raw == buf,
        State::Float => raw == buf,
        State::Identifier => raw == buf,
        State::Period => raw == seq!['.'] && buf.len() == 0,
        State::Underscore => raw == buf && buf == seq!['_'],
        State::QuotedIdentifier => raw == seq!['"'] + doubled(buf, '"'),
        State::QuotedIdentifierEnd => raw == quoted(buf, '"'),
        State::Text => raw == seq!['\''] + doubled(buf, '\''),
        State::TextEnd => raw == quoted(buf, '\''),
        State::CarriageReturn => raw == seq!['\r'],
        _ => true,
    }
}

/// The scanner `sc`, after the first `n` characters of `s`, has spelled its tokens and its
/// pending token from them.
pub open spec fn scan_spells(s: Seq<char>, sc: Scan, n: int) -> bool {
    &&& 0 <= n <= s.len()
    &&& spells_prefix(s, sc.tokens, n)
    &&& match sc.state {
        State::Start => separators(s, mark(sc.tokens), n),
        State::Dash => {
            &&& sc.start == n - 1
            &&& mark(sc.tokens) <= sc.start
            &&& s[sc.start] == '-'
            &&& separators(s, mark(sc.tokens), sc.start)
        },
        State::Comment => {
            &&& mark(sc.tokens) <= sc.start
            &&& sc.start + 1 < n
            &&& s[sc.start] == '-'
            &&& s[sc.start + 1] == '-'
            &&& forall|m: int| sc.start <= m < n ==> !is_line_end(s[m])
            &&& separators(s, mark(sc.tokens), sc.start)
        },
        _ => {
            &&& mark(sc.tokens) <= sc.start < n
            &&& separators(s, mark(sc.tokens), sc.start)
            &&& pending_spelled(sc.state, sc.buf, s.subrange(sc.start, n))
        },
    }
}


proof fn lemma_widen(s: Seq<char>, ls: Seq<Lexeme>, n: int, m: int)
    requires
        spells_prefix(s, ls, n),
        n <= m,
    ensures
        spells_prefix(s, ls, m),
{
}

proof fn lemma_push(s: Seq<char>, ls: Seq<Lexeme>, n: int, l: Lexeme)
    requires
        spells_prefix(s, ls, n),
        mark(ls) <= l.first <= l.last,
        l.last < n,
        separators(s, mark(ls), l.first),
        spelled(l.token, s.subrange(l.first, l.last + 1)),
    ensures
        spells_prefix(s, ls.push(l), n),
        mark(ls.push(l)) == l.last + 1,
{
    let ls2 = ls.push(l);
    assert forall|k: int| 0 <= k < ls2.len() implies 0 <= (#[trigger] ls2[k]).first <= ls2[k].last
        && ls2[k].last < n by {
        if k < ls.len() {
            assert(ls2[k] == ls[k]);
        }
    }
    assert forall|k: int| 0 <= k < ls2.len() implies spelled(
        (#[trigger] ls2[k]).token,
        s.subrange(ls2[k].first, ls2[k].last + 1),
    ) by {
        if k < ls.len() {
            assert(ls2[k] == ls[k]);
        }
    }
    assert forall|k: int| 0 <= k < ls2.len() - 1 implies (#[trigger] ls2[k]).last < ls2[k
        + 1].first && separators(s, ls2[k].last + 1, ls2[k + 1].first) by {
        assert(ls2[k] == ls[k]);
        if k + 1 < ls.len() {
            assert(ls2[k + 1] == ls[k + 1]);
        }
    }
    if ls.len() > 0 {
        assert(ls2[0] == ls[0]);
    }
}

proof fn lemma_doubled_push(w: Seq<char>, q: char, c: char)
    ensures
        doubled(w.push(c), q) == if c == q {
            doubled(w, q) + seq![q, q]
        } else {
            doubled(w, q).push(c)
        },
{
    assert(w.push(c).drop_last() =~= w);
}

proof fn lemma_pending_spells(st: State, buf: Seq<char>, raw: Seq<char>)
    requires
        pending_spelled(st, buf, raw),
        pending(st, buf) is Some,
    ensures
        spelled(pending(st, buf)->0, raw),
{
}

/// Emitting the pending token keeps the source map, with nothing left after it.
proof fn lemma_close(s: Seq<char>, sc: Scan, i: int)
    requires
        scan_spells(s, sc, i),
        pending(sc.state, sc.buf) is Some,
    ensures
        spells_prefix(s, close(sc, i - 1).tokens, i),
        mark(close(sc, i - 1).tokens) == i,
{
    lemma_pending_spells(sc.state, sc.buf, s.subrange(sc.start, i));
    lemma_push(
        s,
        sc.tokens,
        i,
        Lexeme { token: pending(sc.state, sc.buf)->0, first: sc.start, last: i - 1 },
    );
}

proof fn lemma_start(s: Seq<char>, sc: Scan, i: int)
    requires
        0 <= i < s.len(),
        spells_prefix(s, sc.tokens, i),
        separators(s, mark(sc.tokens), i),
        scan_start(sc, s, i) is Ok,
    ensures
        scan_spells(s, scan_start(sc, s, i)->Ok_0, i + 1),
{
    let c = s[i];
    lemma_widen(s, sc.tokens, i, i + 1);
    assert(s.subrange(i, i + 1) =~= seq![c]);
    if c == '\n' {
        lemma_push(s, sc.tokens, i + 1, Lexeme { token: TokenV::Newline, first: i, last: i });
    } else if c == '@' {
        lemma_push(
            s,
            sc.tokens,
            i + 1,
            Lexeme { token: TokenV::Symbol(Symbol::AtSign), first: i, last: i },
        );
    } else if is_blank(c) || c == '\0' {
        assert(separator(s, i));
    } else if c == '\'' {
        assert(seq!['\''] + doubled(seq![], '\'') =~= seq!['\'']);
    } else if c == '"' {
        assert(seq!['"'] + doubled(seq![], '"') =~= seq!['"']);
    }
}

proof fn lemma_step_comment(s: Seq<char>, sc: Scan, i: int)
    requires
        0 <= i < s.len(),
        scan_spells(s, sc, i),
        sc.state == State::Comment,
    ensures
        scan_spells(s, scan_step(sc, s, i)->Ok_0, i + 1),
{
    let c = s[i];
    lemma_widen(s, sc.tokens, i, i + 1);
    if is_line_end(c) {
        assert forall|j: int| mark(sc.tokens) <= j < i implies #[trigger] separator(s, j) by {
            if j >= sc.start {
                assert(comment_span(s, sc.start, j));
            }
        }
        assert(s.subrange(i, i + 1) =~= seq![c]);
        if c == '\n' {
            lemma_push(s, sc.tokens, i + 1, Lexeme { token: TokenV::Newline, first: i, last: i });
        }
    }
}

proof fn lemma_step_close(s: Seq<char>, sc: Scan, i: int)
    requires
        0 <= i < s.len(),
        scan_spells(s, sc, i),
        pending(sc.state, sc.buf) is Some,
        scan_start(close(sc, i - 1), s, i) is Ok,
    ensures
        scan_spells(s, scan_start(close(sc, i - 1), s, i)->Ok_0, i + 1),
{
    lemma_close(s, sc, i);
    lemma_start(s, close(sc, i - 1), i);
}

proof fn lemma_step_grow(s: Seq<char>, sc: Scan, i: int, st: State)
    requires
        0 <= i < s.len(),
        scan_spells(s, sc, i),
        sc.state != State::Start && sc.state != State::Dash && sc.state != State::Comment,
        match st {
            State::Indent => sc.state == State::Indent && is_blank(s[i]),
            State::Integer => sc.state == State::Integer,
            State::Float => sc.state == State::Integer || sc.state == State::Float,
            State::Identifier => sc.state == State::Identifier || sc.state == State::Underscore,
            State::QuotedIdentifier => (sc.state == State::QuotedIdentifier && s[i] != '"') || (
            sc.state == State::QuotedIdentifierEnd && s[i] == '"'),
            State::Text => (sc.state == State::Text && s[i] != '\'') || (sc.state
                == State::TextEnd && s[i] == '\''),
            _ => false,
        },
        sc.state != State::Period && sc.state != State::CarriageReturn,
        sc.state == State::Underscore ==> is_name_char(s[i]),
    ensures
        scan_spells(s, Scan { state: st, buf: sc.buf.push(s[i]), ..sc }, i + 1),
{
    let c = s[i];
    lemma_widen(s, sc.tokens, i, i + 1);
    let raw = s.subrange(sc.start, i);
    assert(s.subrange(sc.start, i + 1) =~= raw.push(c));
    if st == State::QuotedIdentifier {
        lemma_doubled_push(sc.buf, '"', c);
        assert((seq!['"'] + doubled(sc.buf, '"')).push(c) =~= seq!['"'] + doubled(sc.buf, '"').push(c));
        assert(quoted(sc.buf, '"').push('"') =~= seq!['"'] + (doubled(sc.buf, '"') + seq!['"', '"']));
    } else if st == State::Text {
        lemma_doubled_push(sc.buf, '\'', c);
        assert((seq!['\''] + doubled(sc.buf, '\'')).push(c) =~= seq!['\''] + doubled(sc.buf, '\'').push(c));
        assert(quoted(sc.buf, '\'').push('\'') =~= seq!['\''] + (doubled(sc.buf, '\'') + seq!['\'', '\'']));
    }
}

/// Reading one more character keeps the source map.
#[verifier::rlimit(60)]
proof fn lemma_step(s: Seq<char>, sc: Scan, i: int)
    requires
        0 <= i < s.len(),
        scan_spells(s, sc, i),
        scan_step(sc, s, i) is Ok,
    ensures
        scan_spells(s, scan_step(sc, s, i)->Ok_0, i + 1),
{
    let c = s[i];
    let grown = sc.buf.push(c);
    match sc.state {
        State::Start => lemma_start(s, sc, i),
        State::Comment => lemma_step_comment(s, sc, i),
        State::Dash => {
            lemma_widen(s, sc.tokens, i, i + 1);
        },
        State::QuotedIdentifier => if c == '"' {
            assert(s.subrange(sc.start, i + 1) =~= s.subrange(sc.start, i).push(c));
            assert((seq!['"'] + doubled(sc.buf, '"')).push('"') =~= quoted(sc.buf, '"'));
            lemma_widen(s, sc.tokens, i, i + 1);
        } else {
            lemma_step_grow(s, sc, i, State::QuotedIdentifier);
        },
        State::Text => if c == '\'' {
            assert(s.subrange(sc.start, i + 1) =~= s.subrange(sc.start, i).push(c));
            assert((seq!['\''] + doubled(sc.buf, '\'')).push('\'') =~= quoted(sc.buf, '\''));
            lemma_widen(s, sc.tokens, i, i + 1);
        } else {
            lemma_step_grow(s, sc, i, State::Text);
        },
        State::QuotedIdentifierEnd => if c == '"' {
            lemma_step_grow(s, sc, i, State::QuotedIdentifier);
        } else {
            lemma_step_close(s, sc, i);
        },
        State::TextEnd => if c == '\'' {
            lemma_step_grow(s, sc, i, State::Text);
        } else {
            lemma_step_close(s, sc, i);
        },
        State::Indent => if is_blank(c) {
            lemma_step_grow(s, sc, i, State::Indent);
        } else {
            lemma_step_close(s, sc, i);
        },
        State::Integer => if is_digit(c) {
            lemma_step_grow(s, sc, i, State::Integer);
        } else if c == '.' {
            lemma_step_grow(s, sc, i, State::Float);
        } else {
            lemma_step_close(s, sc, i);
        },
        State::Float => if is_digit(c) {
            lemma_step_grow(s, sc, i, State::Float);
        } else {
            lemma_step_close(s, sc, i);
        },
        State::Period => if is_digit(c) {
            lemma_widen(s, sc.tokens, i, i + 1);
            assert(s.subrange(sc.start, i) == seq!['.']);
            assert(s.subrange(sc.start, i + 1) =~= s.subrange(sc.start, i).push(c));
            assert(s.subrange(sc.start, i + 1) =~= seq!['.', c]);
        } else {
            lemma_step_close(s, sc, i);
        },
        State::Identifier => if is_name_char(c) {
            lemma_step_grow(s, sc, i, State::Identifier);
        } else {
            lemma_step_close(s, sc, i);
        },
        State::Underscore => if is_name_char(c) {
            lemma_step_grow(s, sc, i, State::Identifier);
        } else {
            lemma_step_close(s, sc, i);
        },
        State::CarriageReturn => if c == '\n' {
            lemma_widen(s, sc.tokens, i, i + 1);
            assert(s.subrange(sc.start, i) == seq!['\r']);
            assert(s.subrange(sc.start, i + 1) =~= s.subrange(sc.start, i).push(c));
            assert(s.subrange(sc.start, i + 1) =~= seq!['\r', '\n']);
            lemma_push(
                s,
                sc.tokens,
                i + 1,
                Lexeme { token: TokenV::Newline, first: sc.start, last: i },
            );
        } else {
            lemma_step_close(s, sc, i);
        },
    }
}

proof fn lemma_prefix_spells(s: Seq<char>, n: int)
    requires
        0 <= n <= s.len(),
        scan_prefix(s, n) is Ok,
    ensures
        scan_spells(s, scan_prefix(s, n)->Ok_0, n),
    decreases n,
{
    if n > 0 {
        lemma_prefix_spells(s, n - 1);
        lemma_step(s, scan_prefix(s, n - 1)->Ok_0, n - 1);
    } else {
        assert(spells_prefix(s, seq![], 0));
    }
}


/// The tokens `ls` spell the whole of `s`: each token (but a line feed added past the end of an
/// input whose last line has no line break) is spelled by its own characters, the tokens come in
/// source order, and every character outside them is a blank, a NUL or part of a comment.
pub open spec fn source_map(s: Seq<char>, ls: Seq<Lexeme>) -> bool {
    let n = s.len() as int;
    if ls.len() > 0 && ls.last().last >= n {
        &&& ls.last() == Lexeme { token: TokenV::Newline, first: n, last: n }
        &&& n > 0 && !is_line_end(s[n - 1])
        &&& spells_prefix(s, ls.drop_last(), n)
        &&& separators(s, mark(ls.drop_last()), n)
    } else {
        &&& spells_prefix(s, ls, n)
        &&& separators(s, mark(ls), n)
    }
}

/// Round trip: whenever the input lexes, its tokens, put back in their places with the
/// characters between them, give the input again. Each token is spelled by the characters at
/// its span (a text or quoted name with its quotes doubled, a boolean as `t`, `true`, `f` or
/// `false`, a line break as a line feed, a carriage return or both), and what lies between
/// tokens is blanks, NULs and comments.
pub proof fn lemma_tokens_spell_input(s: Seq<char>)
    requires
        lexemes(s) is Ok,
    ensures
        source_map(s, lexemes(s)->Ok_0),
{
    let n = s.len() as int;
    lemma_prefix_spells(s, n);
    let sc = scan_prefix(s, n)->Ok_0;
    let ls = lexemes(s)->Ok_0;
    let closed = match sc.state {
        State::Start => sc.tokens,
        State::Comment => sc.tokens,
        _ => close(sc, n - 1).tokens,
    };
    if sc.state == State::Comment {
        assert forall|j: int| mark(sc.tokens) <= j < n implies #[trigger] separator(s, j) by {
            if j >= sc.start {
                assert(comment_span(s, sc.start, j));
            }
        }
    } else if sc.state != State::Start {
        lemma_close(s, sc, n);
    }
    assert(spells_prefix(s, closed, n) && separators(s, mark(closed), n));
    if n > 0 && !is_line_end(s[n - 1]) {
        assert(ls == closed.push(Lexeme { token: TokenV::Newline, first: n, last: n }));
        assert(ls.drop_last() =~= closed);
    } else {
        assert(ls == closed);
        if ls.len() > 0 {
            assert(ls[ls.len() - 1].last < n);
        }
    }
}

} // verus!
