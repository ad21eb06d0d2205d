use vstd::prelude::*;

use crate::parser::{
    all_blank, level, name_of, parse_prefix, parse_spec, parse_step, Build, Mode, ParseErrorKindV,
    ParseErrorV,
};
use crate::token::{TokenPositionV, TokenV};
use crate::tree::SchemaV;

verus! {

/// An open record lies in an open table, and an open table in an open schema. While a table's
/// alias may still come, that table is open; while an attribute's value is being read, the
/// record that it goes into is open.
pub open spec fn nested(b: Build) -> bool {
    &&& b.record is Some ==> b.table is Some
    &&& b.table is Some ==> b.schema is Some
    &&& (b.mode is TableEnd || b.mode is TableAlias) ==> b.table is Some
    &&& (b.mode is AttributeValue || b.mode is Reference || b.mode is ReferenceDot
        || b.mode is ReferencePair || b.mode is ReferenceRecord || b.mode is ReferenceRecordName
        || b.mode is ReferenceColumn) ==> b.record is Some
}

/// How many nodes are open: the schema, the table and the record being filled in.
pub open spec fn open_levels(b: Build) -> nat {
    (if b.schema is Some { 1nat } else { 0nat }) + (if b.table is Some { 1nat } else { 0nat }) + (
    if b.record is Some {
        1nat
    } else {
        0nat
    })
}

proof fn lemma_step_keeps_nesting(b: Build, tp: TokenPositionV)
    requires
        nested(b),
        parse_step(b, tp) is Ok,
    ensures
        nested(parse_step(b, tp)->Ok_0),
{
}

/// No node goes missing: every state that a parse passes through without error is `nested`, so
/// an alias is always given to an open table and an attribute always added to an open record.
pub proof fn lemma_prefix_nested(ts: Seq<TokenPositionV>, n: int)
    requires
        0 <= n,
        parse_prefix(ts, n) is Ok,
    ensures
        nested(parse_prefix(ts, n)->Ok_0),
    decreases n,
{
    if n > 0 {
        lemma_prefix_nested(ts, n - 1);
        lemma_step_keeps_nesting(parse_prefix(ts, n - 1)->Ok_0, ts[n - 1]);
    }
}

/// The nesting of the tree follows the indentation. In every state that a parse passes through
/// without error, an open record lies in an open table and an open table in an open schema. A
/// line at depth 0 (no indentation) opens a schema and leaves it the only open node. A line
/// whose indentation is `d` indent units is read only where at least `d` nodes are open above it
/// and `d` is 1, 2 or 3; a table (`d` = 1) or a record (`d` = 2) line leaves exactly `d + 1`
/// nodes open, and an attribute line (`d` = 3) goes into the open record.
pub proof fn lemma_indentation_invariant(ts: Seq<TokenPositionV>, n: int)
    requires
        0 <= n < ts.len(),
        parse_prefix(ts, n + 1) is Ok,
    ensures
        ({
            let b = parse_prefix(ts, n)->Ok_0;
            let after = parse_prefix(ts, n + 1)->Ok_0;
            &&& nested(b)
            &&& nested(after)
            &&& (b.mode == Mode::LineStart && name_of(ts[n].token) is Some) ==> open_levels(after)
                == 1 && after.schema is Some
            &&& (b.mode is Indented && ts[n].token != TokenV::Newline) ==> ({
                let d = level(after.unit->0, b.mode->Indented_0)->0;
                &&& after.unit is Some
                &&& level(after.unit->0, b.mode->Indented_0) is Some
                &&& 1 <= d <= 3
                &&& open_levels(b) >= d
                &&& d < 3 ==> open_levels(after) == d + 1
                &&& d == 3 ==> open_levels(after) == 3
            })
        }),
{
    lemma_prefix_nested(ts, n);
    lemma_prefix_nested(ts, n + 1);
    let b = parse_prefix(ts, n)->Ok_0;
    assert(parse_prefix(ts, n + 1) == parse_step(b, ts[n]));
}

/// Parsing depends on the tokens alone: two parses of one token sequence give the same result,
/// and so, for a valid file, the same tree.
pub proof fn lemma_parse_deterministic(
    ts: Seq<TokenPositionV>,
    first: Result<Seq<SchemaV>, ParseErrorV>,
    second: Result<Seq<SchemaV>, ParseErrorV>,
)
    requires
        first == parse_spec(ts),
        second == parse_spec(ts),
    ensures
        first == second,
{
}

/// A line nested too deep is refused at its indentation: where the line after indentation `w`
/// has content, `w` is made of blanks and is `d` indent units, and `d` is not 1, 2 or 3 with the
/// schema, table or record above it open, the parse fails there with `UnexpectedIndentLevel(d)`.
pub proof fn lemma_skipped_level_is_an_error(ts: Seq<TokenPositionV>, n: int)
    requires
        0 <= n < ts.len(),
        parse_prefix(ts, n) is Ok,
        parse_prefix(ts, n)->Ok_0.mode is Indented,
        ts[n].token != TokenV::Newline,
        ({
            let b = parse_prefix(ts, n)->Ok_0;
            let w = b.mode->Indented_0;
            let unit = match b.unit {
                Some(u) => u,
                None => w,
            };
            &&& w.len() > 0
            &&& all_blank(w)
            &&& level(unit, w) is Some
            &&& !((level(unit, w)->0 == 1 && b.schema is Some) || (level(unit, w)->0 == 2
                && b.table is Some) || (level(unit, w)->0 == 3 && b.record is Some))
        }),
    ensures
        ({
            let b = parse_prefix(ts, n)->Ok_0;
            let w = b.mode->Indented_0;
            let unit = match b.unit {
                Some(u) => u,
                None => w,
            };
            parse_prefix(ts, n + 1) == Err::<Build, ParseErrorV>(
                ParseErrorV {
                    kind: ParseErrorKindV::UnexpectedIndentLevel(level(unit, w)->0 as usize),
                    position: b.mode->Indented_1,
                },
            )
        }),
{
}

} // verus!
