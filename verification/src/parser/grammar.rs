use vstd::prelude::*;
use crate::parser::{assign_bin_op, is_assign_op};
use crate::parser::nodes::{Node, NodeType};
use crate::tokenizer::{TokenView, spec_next_token};
use crate::tokenizer::cursor::CursorView;
use crate::tokenizer::peeking_tokenizer::PeekingTokenizer;
use crate::tokenizer::token_type::TokenType;

verus! {

// The expression grammar, as relations between where a reader stands before and after
// an expression and the tree read. Each level is made of the one below it:
//
// - a sum is products joined by `+` and `-`, grouped from the left;
// - a product is powers joined by `*`, `/`, `%` and `%%`, grouped from the left;
// - a power is a juxtaposition, raised to a power by `^`, grouped from the right;
// - a juxtaposition is factors multiplied by writing them side by side: a negation or
//   postfix expression, followed by postfix expressions or parenthesised lists;
// - a list is sums separated by commas, ending after a sum of nothing.
//
// Every level stops at the first token that cannot continue it. The relations reach
// down to the postfix operators; what they apply to (a unit glued to a primary), and a
// parenthesised list multiplied by juxtaposition, are stated by the contracts of the
// functions that read them, in terms of these relations.

/// Where a reader stands: the token it peeks, and its cursor after that token.
pub type ReadAt = (TokenView, CursorView);

/// Where `tok` stands.
pub open spec fn read_at<'t>(tok: &PeekingTokenizer<'t>) -> ReadAt {
    (tok.peeked().view(), tok.after_peeked())
}

/// Where a reader of text `t` stands after taking the token it peeks at `s`.
pub open spec fn taken(t: Seq<char>, s: ReadAt) -> ReadAt {
    match spec_next_token(t, s.1) {
        Some((c, k)) => (k, c),
        None => s,
    }
}

/// `+` or `-`.
pub open spec fn is_add_op(k: TokenType) -> bool {
    k == TokenType::Plus || k == TokenType::Min
}

/// `*`, `/`, `%` or `%%`.
pub open spec fn is_mult_op(k: TokenType) -> bool {
    k == TokenType::Mult || k == TokenType::Div || k == TokenType::Percent || k == TokenType::Modulo
}

/// A token that starts a factor multiplied by juxtaposition.
pub open spec fn is_juxt_start(k: TokenType) -> bool {
    k == TokenType::Id || k == TokenType::Number || k == TokenType::ParOpen
}

/// `.`, `--`, `++` or `!`.
pub open spec fn is_postfix_op(k: TokenType) -> bool {
    k == TokenType::Dot || k == TokenType::Dec || k == TokenType::Inc || k == TokenType::Exclam
}

/// The operand of the postfix operator at the top of `n`.
pub open spec fn postfix_operand(n: Box<Node>) -> Box<Node> {
    match n.expr {
        NodeType::Postfix(p) => p.node,
        NodeType::Call(c) => c.arguments@[0],
        _ => n,
    }
}

/// One postfix operator, peeked at `k` and read up to `s1`, at the top of `n`: `.` with
/// the unit named after it (or, where no name follows, a mark that clears the unit), or
/// `++`, `--` or `!` as a call of `inc`, `dec` or `factorial` at the operator.
pub open spec fn one_postfix(t: Seq<char>, k: ReadAt, s1: ReadAt, n: Box<Node>) -> bool {
    let k1 = taken(t, k);
    if k.0.kind == TokenType::Dot {
        n.expr matches NodeType::Postfix(p) && if k1.0.kind == TokenType::Id {
            p.postfix_id.view() == k1.0 && s1 == taken(t, k1)
        } else {
            p.postfix_id.kind == TokenType::ClearUnit && p.postfix_id.view().start == k.0.start
                && p.postfix_id.view().end == k.0.end && s1 == k1
        }
    } else {
        let name = if k.0.kind == TokenType::Inc {
            "inc"@
        } else if k.0.kind == TokenType::Dec {
            "dec"@
        } else {
            "factorial"@
        };
        &&& is_postfix_op(k.0.kind)
        &&& s1 == k1
        &&& n.expr matches NodeType::Call(c)
        &&& c.function_name@ == name
        &&& c.function_name_range.start as int == k.0.start && c.function_name_range.end as int == k.0.end
        &&& c.arguments@.len() == 1
    }
}

/// A postfix expression read from `s0` to `s1`, where `ks` are the places of its
/// postfix operators: they apply in order, each to what the ones before it made, to a
/// unit expression (stated by the function that reads it).
pub open spec fn postfix_chain(t: Seq<char>, s0: ReadAt, s1: ReadAt, n: Box<Node>, ks: Seq<ReadAt>) -> bool
    decreases ks.len(),
{
    if ks.len() == 0 {
        true
    } else {
        let k = ks.last();
        one_postfix(t, k, s1, n) && postfix_chain(t, s0, k, postfix_operand(n), ks.drop_last())
    }
}

/// A postfix expression read from `s0` to `s1`, ended where no postfix operator follows.
pub open spec fn postfix_parse(t: Seq<char>, s0: ReadAt, s1: ReadAt, n: Box<Node>) -> bool {
    !is_postfix_op(s1.0.kind) && exists|ks: Seq<ReadAt>| #[trigger] postfix_chain(t, s0, s1, n, ks)
}

/// A negation `-` of a postfix expression, or a postfix expression.
pub open spec fn unary_parse(t: Seq<char>, s0: ReadAt, s1: ReadAt, n: Box<Node>) -> bool {
    if s0.0.kind == TokenType::Min {
        n.expr matches NodeType::Unary(u) && u.op.view() == s0.0 && postfix_parse(t, taken(t, s0), s1, u.expr)
    } else {
        postfix_parse(t, s0, s1, n)
    }
}

/// The node that a list of `nodes` reduces to: its only node, or the list itself.
pub open spec fn reduced_from(e: Box<Node>, nodes: Seq<Box<Node>>) -> bool {
    if nodes.len() == 1 {
        e == nodes[0]
    } else {
        e.expr matches NodeType::List(l) && l.nodes@ == nodes
    }
}

/// A factor after a juxtaposition: a parenthesised list (read by the function that
/// reads lists, whose contract states its structure), or a postfix expression.
pub open spec fn factor_parse(t: Seq<char>, s0: ReadAt, s1: ReadAt, n: Box<Node>) -> bool {
    s0.0.kind == TokenType::ParOpen || postfix_parse(t, s0, s1, n)
}

/// A juxtaposition read from `s0` to `s1`, not yet ended, where `ks` are the places of
/// its factors after the first: factors multiplied from the left, each product marked
/// as one by juxtaposition, at the token of its factor.
pub open spec fn juxt_chain(t: Seq<char>, s0: ReadAt, s1: ReadAt, n: Box<Node>, ks: Seq<ReadAt>) -> bool
    decreases ks.len(),
{
    if ks.len() == 0 {
        unary_parse(t, s0, s1, n)
    } else {
        let k = ks.last();
        &&& n.expr matches NodeType::Binary(b)
        &&& b.implicit_mult && b.op.kind == TokenType::Mult
        &&& b.op.view().start == k.0.start && b.op.view().end == k.0.end
        &&& is_juxt_start(k.0.kind)
        &&& juxt_chain(t, s0, k, b.expr1, ks.drop_last())
        &&& factor_parse(t, k, s1, b.expr2)
    }
}

/// A juxtaposition read from `s0` to `s1`, ended where no factor follows.
pub open spec fn juxt_parse(t: Seq<char>, s0: ReadAt, s1: ReadAt, n: Box<Node>) -> bool {
    !is_juxt_start(s1.0.kind) && exists|ks: Seq<ReadAt>| #[trigger] juxt_chain(t, s0, s1, n, ks)
}

/// A power read from `s0` to `s1`: a juxtaposition, or a juxtaposition `^` a power.
pub open spec fn power_parse(t: Seq<char>, s0: ReadAt, s1: ReadAt, n: Box<Node>) -> bool
    decreases n,
{
    s1.0.kind != TokenType::Power && (juxt_parse(t, s0, s1, n) || (n.expr matches NodeType::Binary(b)
        && !b.implicit_mult && b.op.kind == TokenType::Power && exists|k: ReadAt| #[trigger] juxt_parse(t, s0, k, b.expr1)
        && b.op.view() == k.0 && power_parse(t, taken(t, k), s1, b.expr2)))
}

/// A product read from `s0` to `s1`, not yet ended, where `ks` are the places of its
/// operators: powers joined by multiplicative operators from the left.
pub open spec fn product_chain(t: Seq<char>, s0: ReadAt, s1: ReadAt, n: Box<Node>, ks: Seq<ReadAt>) -> bool
    decreases ks.len(),
{
    if ks.len() == 0 {
        power_parse(t, s0, s1, n)
    } else {
        let k = ks.last();
        &&& n.expr matches NodeType::Binary(b)
        &&& !b.implicit_mult && is_mult_op(b.op.kind) && b.op.view() == k.0
        &&& product_chain(t, s0, k, b.expr1, ks.drop_last())
        &&& power_parse(t, taken(t, k), s1, b.expr2)
    }
}

/// A product read from `s0` to `s1`, ended where no multiplicative operator follows.
pub open spec fn product_parse(t: Seq<char>, s0: ReadAt, s1: ReadAt, n: Box<Node>) -> bool {
    !is_mult_op(s1.0.kind) && exists|ks: Seq<ReadAt>| #[trigger] product_chain(t, s0, s1, n, ks)
}

/// A sum read from `s0` to `s1`, not yet ended, where `ks` are the places of its
/// operators: products joined by `+` and `-` from the left.
pub open spec fn sum_chain(t: Seq<char>, s0: ReadAt, s1: ReadAt, n: Box<Node>, ks: Seq<ReadAt>) -> bool
    decreases ks.len(),
{
    if ks.len() == 0 {
        product_parse(t, s0, s1, n)
    } else {
        let k = ks.last();
        &&& n.expr matches NodeType::Binary(b)
        &&& !b.implicit_mult && is_add_op(b.op.kind) && b.op.view() == k.0
        &&& sum_chain(t, s0, k, b.expr1, ks.drop_last())
        &&& product_parse(t, taken(t, k), s1, b.expr2)
    }
}

/// A sum read from `s0` to `s1`, ended where no `+` or `-` follows.
pub open spec fn sum_parse(t: Seq<char>, s0: ReadAt, s1: ReadAt, n: Box<Node>) -> bool {
    !is_add_op(s1.0.kind) && exists|ks: Seq<ReadAt>| #[trigger] sum_chain(t, s0, s1, n, ks)
}

/// The sums `nodes` read from `s0` to `s1`, where `ks` are the places of the commas
/// between them; all but the last are something.
pub open spec fn list_chain(t: Seq<char>, s0: ReadAt, s1: ReadAt, nodes: Seq<Box<Node>>, ks: Seq<ReadAt>) -> bool
    decreases nodes.len(),
{
    if nodes.len() <= 1 {
        nodes.len() == 1 && ks.len() == 0 && sum_parse(t, s0, s1, nodes[0])
    } else {
        let k = ks.last();
        &&& ks.len() == nodes.len() - 1
        &&& !(nodes[nodes.len() - 2].expr is NONE)
        &&& k.0.kind == TokenType::Comma
        &&& list_chain(t, s0, k, nodes.drop_last(), ks.drop_last())
        &&& sum_parse(t, taken(t, k), s1, nodes.last())
    }
}

/// A list read from `s0` to `s1`: it ends after a sum of nothing, or where no comma
/// follows.
pub open spec fn list_parse(t: Seq<char>, s0: ReadAt, s1: ReadAt, nodes: Seq<Box<Node>>) -> bool {
    &&& !(nodes.last().expr is NONE) ==> s1.0.kind != TokenType::Comma
    &&& exists|ks: Seq<ReadAt>| #[trigger] list_chain(t, s0, s1, nodes, ks)
}

/// The node of a parenthesised list of `nodes`: the list reduced, and a product by
/// juxtaposition at its top no longer marked as one.
pub open spec fn paren_of(r: Box<Node>, nodes: Seq<Box<Node>>) -> bool {
    if nodes.len() == 1 {
        let e = nodes[0];
        r.unit == e.unit && r.has_errors == e.has_errors && match e.expr {
            NodeType::Binary(b) => r.expr matches NodeType::Binary(b2) && b2.expr1 == b.expr1 && b2.op == b.op
                && b2.expr2 == b.expr2 && !b2.implicit_mult,
            _ => r.expr == e.expr,
        }
    } else {
        r.expr matches NodeType::List(l) && l.nodes@ == nodes
    }
}

/// An expression read from `s0` to `s1` where a statement holds one: an assignment
/// `id = list`, `id op= sum` (read as `id = id op sum`) or `id .= unit`, where an
/// identifier and an assignment sign start it; else a sum.
pub open spec fn assign_parse(t: Seq<char>, s0: ReadAt, s1: ReadAt, n: Box<Node>) -> bool {
    let sign = taken(t, s0).0.kind;
    let k2 = taken(t, taken(t, s0));
    if s0.0.kind == TokenType::Id && is_assign_op(sign) {
        &&& n.expr matches NodeType::Assign(a)
        &&& a.assignable.id.view() == s0.0
        &&& a.assignable.fragment is None
        &&& if sign == TokenType::Eq {
            exists|nodes: Seq<Box<Node>>| #[trigger] list_parse(t, k2, s1, nodes) && reduced_from(a.expr, nodes)
        } else if sign == TokenType::EqUnit {
            a.expr.expr matches NodeType::Postfix(p) && (p.node.expr matches NodeType::Id(i) && i.id.view() == s0.0)
        } else {
            &&& a.expr.expr matches NodeType::Binary(b)
            &&& b.expr1.expr matches NodeType::Id(i) && i.id.view() == s0.0
            &&& b.op.kind == assign_bin_op(sign)
            &&& !b.implicit_mult
            &&& sum_parse(t, k2, s1, b.expr2)
        }
    } else {
        sum_parse(t, s0, s1, n)
    }
}

/// The tree of a statement of text `t`: a block, a comment, a define, a function
/// definition, nothing (a malformed statement), or an expression that the grammar reads
/// from one place of the text to another.
pub open spec fn statement_parse(t: Seq<char>, e: NodeType) -> bool {
    ||| e is Block
    ||| e is Comment
    ||| e is Define
    ||| e is FunctionDef
    ||| e is NONE
    ||| exists|s0: ReadAt, s1: ReadAt, n: Box<Node>| n.expr == e && #[trigger] assign_parse(t, s0, s1, n)
}

} // verus!
