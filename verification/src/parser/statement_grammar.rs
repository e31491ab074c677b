use vstd::prelude::*;
use crate::parser::{is_mute_kind, params_end};
use crate::parser::grammar::{ReadAt, assign_parse, taken};
use crate::errors::{Error, ErrorId};
use crate::parser::nodes::{Node, NodeType, Statement};
use crate::tokenizer::{TokenView, spec_next_token};
use crate::tokenizer::cursor::{CursorView, start_view};
use crate::tokenizer::token_type::TokenType;

verus! {

// How the statements of a text are read, as relations between where the reader starts
// and stops, the statements read, and a trace of the places that reading passed
// through. A statement is, after a token that mutes it (or starts or ends muting): a
// block in braces, an echoed comment, a `#define` or `#undef` line, a function
// definition, or an expression statement. Statements follow each other up to the end
// of the text, or, in a block, up to its closing `}`; elsewhere a `}` after a statement
// is taken (and reported).

/// What reading a statement passed through, beyond its tree.
pub enum StatementTrace {
    /// An expression statement: the tree that the grammar read, and where it ended.
    Expression { node: Box<Node>, end: ReadAt },
    /// An echoed comment, or a function definition found malformed before its body.
    Plain,
    /// A `#define` or `#undef`: the places of the tokens taken on its line.
    Settings { steps: Seq<ReadAt> },
    /// A block, or a function definition with a body: the statements of the body, where
    /// each started and ended, how each was read, and where the body stopped.
    Body { statements: Seq<Statement>, places: Seq<(ReadAt, ReadAt)>, traces: Seq<StatementTrace>, stop: ReadAt },
}

/// Where a statement starts after the token that mutes it, if one is there.
pub open spec fn mute_skipped(t: Seq<char>, s: ReadAt) -> ReadAt {
    if is_mute_kind(s.0.kind) { taken(t, s) } else { s }
}

/// Where the next statement starts after one that ended at `e`: a `}` after it is
/// taken, unless the statements are those of a block.
pub open spec fn after_statement(t: Seq<char>, e: ReadAt, for_block: bool) -> ReadAt {
    if e.0.kind == TokenType::CurlClose && !for_block { taken(t, e) } else { e }
}

/// Where a reader stands after peeking again from the cursor `c`, with newlines read as
/// tokens or not as `nl` says.
pub open spec fn reread(t: Seq<char>, c: CursorView, nl: bool) -> ReadAt {
    match spec_next_token(t, CursorView { nl_is_token: nl, ..c }) {
        Some((c2, k)) => (k, c2),
        None => (TokenView { kind: TokenType::Eot, start: 0, end: 0 }, c),
    }
}

/// A token that does not end the line of a `#define`.
pub open spec fn on_line(k: TokenType) -> bool {
    k != TokenType::Eot && k != TokenType::Newline && k != TokenType::SemiColon
}

/// Taking the tokens peeked at `steps`, in order and none ending the line, leads from
/// `a` to `b`.
pub open spec fn line_walk(t: Seq<char>, a: ReadAt, b: ReadAt, steps: Seq<ReadAt>) -> bool
    decreases steps.len(),
{
    if steps.len() == 0 {
        b == a
    } else {
        let k = steps.last();
        on_line(k.0.kind) && line_walk(t, a, k, steps.drop_last()) && b == taken(t, k)
    }
}

/// The cursor before the token peeked after a walk over `steps`, `c` where the walk is
/// empty.
pub open spec fn walk_before(steps: Seq<ReadAt>, c: CursorView) -> CursorView {
    if steps.len() == 0 { c } else { steps.last().1 }
}

/// A `#define` or `#undef` line read from `s` (at the keyword) to `s1`: newlines are
/// read as tokens from the keyword on; the tokens on the line are taken up to a newline
/// or `;` (taken too) or the end of the text; then newlines are no longer tokens.
pub open spec fn define_read(t: Seq<char>, s: ReadAt, s1: ReadAt, steps: Seq<ReadAt>) -> bool {
    let a = taken(t, s);
    let b = if a.1.nl_is_token { a } else { reread(t, s.1, true) };
    let cur = if steps.len() == 0 { b } else { taken(t, steps.last()) };
    let before = walk_before(steps, s.1);
    let ends_line = cur.0.kind == TokenType::Newline || cur.0.kind == TokenType::SemiColon;
    let e = if ends_line { taken(t, cur) } else { cur };
    let be = if ends_line { cur.1 } else { before };
    &&& line_walk(t, b, cur, steps)
    &&& !on_line(cur.0.kind)
    &&& s1 == if e.1.nl_is_token { reread(t, be, false) } else { e }
}

/// The statements `stmts` read from `a` to `s1`, where `places` are where each started
/// and ended and `traces` how each was read: each starts where the one before it left
/// the reader, none at the end of the text, and none after one that ended at the `}`
/// of a block.
pub open spec fn statements_chain(
    t: Seq<char>,
    a: ReadAt,
    s1: ReadAt,
    stmts: Seq<Statement>,
    places: Seq<(ReadAt, ReadAt)>,
    traces: Seq<StatementTrace>,
    for_block: bool,
) -> bool
    decreases traces, 0int,
{
    if traces.len() == 0 {
        stmts.len() == 0 && places.len() == 0 && s1 == a
    } else {
        let n = traces.len() - 1;
        let (b, e) = places[n];
        &&& stmts.len() == traces.len() && places.len() == traces.len()
        &&& b.0.kind != TokenType::Eot
        &&& n > 0 ==> !(for_block && places[n - 1].1.0.kind == TokenType::CurlClose)
        &&& statements_chain(t, a, b, stmts.subrange(0, n), places.subrange(0, n), traces.subrange(0, n), for_block)
        &&& statement_read(t, b, e, stmts[n], traces[n])
        &&& s1 == after_statement(t, e, for_block)
    }
}

/// The statements of a block or a text are read to its end: the end of the text, or,
/// in a block, the `}` after a statement.
pub open spec fn statements_stop(s1: ReadAt, n: int, for_block: bool) -> bool {
    s1.0.kind == TokenType::Eot || (for_block && n > 0 && s1.0.kind == TokenType::CurlClose)
}

/// A body in braces whose `{` was taken at `start`: its statements read to its end,
/// and its `}`, which is taken where it is there.
pub open spec fn body_read(t: Seq<char>, start: ReadAt, s1: ReadAt, tr: StatementTrace) -> bool
    decreases tr, 0int,
{
    match tr {
        StatementTrace::Body { statements, places, traces, stop } => {
            &&& statements_chain(t, start, stop, statements, places, traces, true)
            &&& statements_stop(stop, statements.len() as int, true)
            &&& s1 == if stop.0.kind == TokenType::CurlClose { taken(t, stop) } else { stop }
        },
        _ => false,
    }
}

/// A function definition read from `s` (at the keyword) to `s1`: its name, parameters
/// and body; where it is malformed, the reader stops at the token found wrong (taken,
/// for a `}` missing at the end of the body) and the statement is nothing.
pub open spec fn function_read(t: Seq<char>, s: ReadAt, s1: ReadAt, st: Statement, tr: StatementTrace) -> bool
    decreases tr, 1int,
{
    let a = taken(t, s);
    let b = taken(t, a);
    let c = taken(t, b);
    let pend = params_end(t, c.0, c.1);
    let d = taken(t, pend);
    if a.0.kind != TokenType::Id {
        st.node.expr is NONE && s1 == a && tr is Plain
    } else if b.0.kind != TokenType::ParOpen {
        st.node.expr is NONE && s1 == b && tr is Plain
    } else if pend.0.kind != TokenType::ParClose {
        st.node.expr is NONE && s1 == pend && tr is Plain
    } else if d.0.kind != TokenType::CurlOpen {
        st.node.expr is NONE && s1 == d && tr is Plain
    } else {
        &&& tr matches StatementTrace::Body { stop, .. }
        &&& body_read(t, taken(t, d), s1, tr)
        &&& if stop.0.kind == TokenType::CurlClose { st.node.expr is FunctionDef } else { st.node.expr is NONE }
    }
}

/// A statement read from `s0` to `s1` as `tr` traces it.
pub open spec fn statement_read(t: Seq<char>, s0: ReadAt, s1: ReadAt, st: Statement, tr: StatementTrace) -> bool
    decreases tr, 2int,
{
    let s = mute_skipped(t, s0);
    let k = s.0.kind;
    if k == TokenType::CurlOpen {
        &&& st.node.expr matches NodeType::Block(cb)
        &&& tr matches StatementTrace::Body { statements, .. }
        &&& statements == cb.statements@
        &&& body_read(t, taken(t, s), s1, tr)
    } else if k == TokenType::EchoCommentLine {
        &&& st.node.expr matches NodeType::Comment(c) && c.token.view() == s.0
        &&& s1 == taken(t, s)
        &&& tr is Plain
    } else if k == TokenType::Define || k == TokenType::Undef {
        &&& st.node.expr matches NodeType::Define(d) && d.def_undef.view() == s.0
        &&& tr matches StatementTrace::Settings { steps }
        &&& define_read(t, s, s1, steps)
    } else if k == TokenType::Function {
        function_read(t, s, s1, st, tr)
    } else {
        &&& tr matches StatementTrace::Expression { node, end }
        &&& node.expr == st.node.expr
        &&& assign_parse(t, s, end, node)
        &&& s1 == if end.0.kind == TokenType::Eot || end.0.kind == TokenType::CurlClose { end } else { taken(t, end) }
    }
}

/// The statements `stmts` are those read from `s0` to `s1`, to the end of the text or,
/// in a block, of the block.
pub open spec fn statements_read(t: Seq<char>, s0: ReadAt, s1: ReadAt, stmts: Seq<Statement>, for_block: bool) -> bool {
    &&& statements_stop(s1, stmts.len() as int, for_block)
    &&& exists|places: Seq<(ReadAt, ReadAt)>, traces: Seq<StatementTrace>|
        #[trigger] statements_chain(t, s0, s1, stmts, places, traces, for_block)
}

/// Two walks along a line, one after the other, make one walk.
pub(crate) proof fn lemma_line_walk_concat(t: Seq<char>, a: ReadAt, b: ReadAt, c: ReadAt, s1: Seq<ReadAt>, s2: Seq<ReadAt>)
    requires
        line_walk(t, a, b, s1),
        line_walk(t, b, c, s2),
    ensures
        line_walk(t, a, c, s1 + s2),
    decreases s2.len(),
{
    if s2.len() == 0 {
        assert(s1 + s2 =~= s1);
    } else {
        let k = s2.last();
        lemma_line_walk_concat(t, a, b, k, s1, s2.drop_last());
        assert((s1 + s2).drop_last() =~= s1 + s2.drop_last());
        assert((s1 + s2).last() == k);
    }
}

/// A `}` peeked as `k` is reported among `errs` as not expected.
pub open spec fn stray_reported(errs: Seq<Error>, k: TokenView) -> bool {
    exists|j: int| 0 <= j < errs.len() && (#[trigger] errs[j]).id == ErrorId::UnknownExpr
        && errs[j].range.start as int == k.start && errs[j].range.end as int == k.end
}

/// A report stays among the errors as more are added.
pub(crate) proof fn lemma_stray_kept(errs: Seq<Error>, more: Seq<Error>, k: TokenView)
    requires
        stray_reported(errs, k),
        errs.is_prefix_of(more),
    ensures
        stray_reported(more, k),
{
    let j = choose|j: int| 0 <= j < errs.len() && (#[trigger] errs[j]).id == ErrorId::UnknownExpr
        && errs[j].range.start as int == k.start && errs[j].range.end as int == k.end;
    assert(more.subrange(0, errs.len() as int)[j] == more[j]);
    assert(more[j] == errs[j]);
}

/// Where a reader of text `t` stands once it has peeked its first token.
pub open spec fn first_read(t: Seq<char>) -> ReadAt {
    reread(t, start_view(), false)
}

/// The statements `stmts` are those of the text `t`, read from its first token to its
/// end, and `errs` reports each `}` found after a statement.
pub open spec fn text_read(t: Seq<char>, stmts: Seq<Statement>, errs: Seq<Error>) -> bool {
    exists|s1: ReadAt, places: Seq<(ReadAt, ReadAt)>, traces: Seq<StatementTrace>|
        #[trigger] statements_chain(t, first_read(t), s1, stmts, places, traces, false)
        && statements_stop(s1, stmts.len() as int, false)
        && forall|i: int| 0 <= i < places.len() && (#[trigger] places[i]).1.0.kind == TokenType::CurlClose
            ==> stray_reported(errs, places[i].1.0)
}

} // verus!
