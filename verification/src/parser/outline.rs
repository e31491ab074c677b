use vstd::prelude::*;
use crate::parser::nodes::{ConstType, Node, NodeType, Statement};
use crate::tokenizer::cursor::{NumberLiteral, NumberView, Range};
use crate::tokenizer::token_type::TokenType;

verus! {

/// The name of a token kind, as it is shown.
pub open spec fn spec_token_name(k: TokenType) -> Seq<char> {
    match k {
        TokenType::BracOpen => "BracOpen"@,
        TokenType::BracClose => "BracClose"@,
        TokenType::CurlOpen => "CurlOpen"@,
        TokenType::CurlClose => "CurlClose"@,
        TokenType::ParOpen => "ParOpen"@,
        TokenType::ParClose => "ParClose"@,
        TokenType::Plus => "Plus"@,
        TokenType::Min => "Min"@,
        TokenType::Div => "Div"@,
        TokenType::Mult => "Mult"@,
        TokenType::Inc => "Inc"@,
        TokenType::Dec => "Dec"@,
        TokenType::Eq => "Eq"@,
        TokenType::EqPlus => "EqPlus"@,
        TokenType::EqMin => "EqMin"@,
        TokenType::EqMult => "EqMult"@,
        TokenType::EqDiv => "EqDiv"@,
        TokenType::EqUnit => "EqUnit"@,
        TokenType::Number => "Number"@,
        TokenType::Power => "Power"@,
        TokenType::Id => "Id"@,
        TokenType::SemiColon => "SemiColon"@,
        TokenType::Comma => "Comma"@,
        TokenType::Dot => "Dot"@,
        TokenType::Ellipsis => "Ellipsis"@,
        TokenType::Pipe => "Pipe"@,
        TokenType::Exclam => "Exclam"@,
        TokenType::EchoCommentLine => "EchoCommentLine"@,
        TokenType::MuteLine => "MuteLine"@,
        TokenType::MuteStart => "MuteStart"@,
        TokenType::MuteEnd => "MuteEnd"@,
        TokenType::QuotedStr => "QuotedStr"@,
        TokenType::Newline => "Newline"@,
        TokenType::Function => "Function"@,
        TokenType::Percent => "Percent"@,
        TokenType::Modulo => "Modulo"@,
        TokenType::Define => "Define"@,
        TokenType::Undef => "Undef"@,
        TokenType::Pragma => "Pragma"@,
        TokenType::Unknown => "Unknown"@,
        TokenType::Eot => "Eot"@,
        TokenType::ClearUnit => "ClearUnit"@,
    }
}

/// The name of a token kind, as it is shown.
pub fn token_type_name(k: TokenType) -> (r: &'static str)
    ensures
        r@ == spec_token_name(k),
{
    match k {
        TokenType::BracOpen => "BracOpen",
        TokenType::BracClose => "BracClose",
        TokenType::CurlOpen => "CurlOpen",
        TokenType::CurlClose => "CurlClose",
        TokenType::ParOpen => "ParOpen",
        TokenType::ParClose => "ParClose",
        TokenType::Plus => "Plus",
        TokenType::Min => "Min",
        TokenType::Div => "Div",
        TokenType::Mult => "Mult",
        TokenType::Inc => "Inc",
        TokenType::Dec => "Dec",
        TokenType::Eq => "Eq",
        TokenType::EqPlus => "EqPlus",
        TokenType::EqMin => "EqMin",
        TokenType::EqMult => "EqMult",
        TokenType::EqDiv => "EqDiv",
        TokenType::EqUnit => "EqUnit",
        TokenType::Number => "Number",
        TokenType::Power => "Power",
        TokenType::Id => "Id",
        TokenType::SemiColon => "SemiColon",
        TokenType::Comma => "Comma",
        TokenType::Dot => "Dot",
        TokenType::Ellipsis => "Ellipsis",
        TokenType::Pipe => "Pipe",
        TokenType::Exclam => "Exclam",
        TokenType::EchoCommentLine => "EchoCommentLine",
        TokenType::MuteLine => "MuteLine",
        TokenType::MuteStart => "MuteStart",
        TokenType::MuteEnd => "MuteEnd",
        TokenType::QuotedStr => "QuotedStr",
        TokenType::Newline => "Newline",
        TokenType::Function => "Function",
        TokenType::Percent => "Percent",
        TokenType::Modulo => "Modulo",
        TokenType::Define => "Define",
        TokenType::Undef => "Undef",
        TokenType::Pragma => "Pragma",
        TokenType::Unknown => "Unknown",
        TokenType::Eot => "Eot",
        TokenType::ClearUnit => "ClearUnit",
    }
}

/// What a line of an outline shows after its label: nothing, or for a constant the number
/// as it was read or the range of its quoted text.
pub enum OutlineValue {
    NoValue,
    Number(NumberLiteral),
    Text(Range),
}

/// A line of the outline of a syntax tree: its indentation, the label of its node, and
/// for a constant its value and unit.
pub struct OutlineLine {
    pub indent: usize,
    pub label: String,
    pub value: OutlineValue,
    pub unit: String,
}

/// What a line shows after its label, as plain values.
pub enum ValueView {
    NoValue,
    Number(NumberView),
    Text(Range),
}

/// A line of an outline as plain values.
pub struct LineView {
    pub indent: int,
    pub label: Seq<char>,
    pub value: ValueView,
    pub unit: Seq<char>,
}

/// A line as plain values.
pub open spec fn line_view(l: OutlineLine) -> LineView {
    LineView {
        indent: l.indent as int,
        label: l.label@,
        value: match l.value {
            OutlineValue::NoValue => ValueView::NoValue,
            OutlineValue::Number(n) => ValueView::Number(n.view()),
            OutlineValue::Text(r) => ValueView::Text(r),
        },
        unit: l.unit@,
    }
}

/// Lines as plain values.
pub open spec fn lines_view(s: Seq<OutlineLine>) -> Seq<LineView> {
    s.map_values(|l: OutlineLine| line_view(l))
}

/// The label of a node: its kind, and for a binary operation its operator.
pub open spec fn spec_label(e: NodeType) -> Seq<char> {
    match e {
        NodeType::Const(_) => "ConstExpr: "@,
        NodeType::Binary(x) => "BinExpr: "@ + spec_token_name(x.op.kind),
        NodeType::NONE(_) => "NoneExpr"@,
        NodeType::List(_) => "ListExpr"@,
        NodeType::Assign(_) => "AssignExpr"@,
        NodeType::Postfix(_) => "PostfixExpr"@,
        NodeType::Comment(_) => "CommentExpr"@,
        NodeType::Call(_) => "CallExpr"@,
        NodeType::Id(_) => "IdExpr"@,
        NodeType::FunctionDef(_) => "FunctionDefExpr"@,
        NodeType::Unit(_) => "UnitExpr"@,
        NodeType::Define(_) => "DefineExpr"@,
        NodeType::Block(_) => "CodeBlock"@,
        _ => "It's a dunno..."@,
    }
}

/// The line of a node itself: indented by `indent`, and for a constant with its value and
/// the node's unit.
pub open spec fn node_line(n: Node, indent: int) -> LineView {
    LineView {
        indent,
        label: spec_label(n.expr),
        value: match n.expr {
            NodeType::Const(c) => match c.const_type {
                ConstType::Numeric { number } => ValueView::Number(number.view()),
                ConstType::FormattedString => ValueView::Text(c.range),
            },
            _ => ValueView::NoValue,
        },
        unit: if n.expr is Const { n.unit.id@ } else { Seq::empty() },
    }
}

/// The outline of the tree under `n`: its line, then, five further in, the outlines of
/// the operands of a binary operation, of the items of a list, of the value assigned, or
/// of the statements of a block.
pub open spec fn outline_of(n: Node, indent: int) -> Seq<LineView>
    decreases n, 0int,
{
    seq![node_line(n, indent)] + match n.expr {
        NodeType::Binary(x) => outline_of(*x.expr1, indent + 5) + outline_of(*x.expr2, indent + 5),
        NodeType::List(x) => outline_of_list(x.nodes@, indent + 5, x.nodes@.len() as int),
        NodeType::Assign(x) => outline_of(*x.expr, indent + 5),
        NodeType::Block(x) => outline_of_statements(x.statements@, indent + 5, x.statements@.len() as int),
        _ => Seq::empty(),
    }
}

/// The outlines of the first `k` nodes, one after the other.
pub open spec fn outline_of_list(s: Seq<Box<Node>>, indent: int, k: int) -> Seq<LineView>
    decreases s, k,
{
    if k <= 0 || k > s.len() {
        Seq::empty()
    } else {
        outline_of_list(s, indent, k - 1) + outline_of(*s[k - 1], indent)
    }
}

/// The outlines of the nodes of the first `k` statements, one after the other.
pub open spec fn outline_of_statements(s: Seq<Statement>, indent: int, k: int) -> Seq<LineView>
    decreases s, k,
{
    if k <= 0 || k > s.len() {
        Seq::empty()
    } else {
        outline_of_statements(s, indent, k - 1) + outline_of(*s[k - 1].node, indent)
    }
}

/// How many levels of children lie below `n` in its outline.
pub open spec fn outline_depth(n: Node) -> int
    decreases n, 0int,
{
    match n.expr {
        NodeType::Binary(x) => {
            let a = outline_depth(*x.expr1);
            let b = outline_depth(*x.expr2);
            1 + if a >= b { a } else { b }
        },
        NodeType::List(x) => 1 + list_depth(x.nodes@, x.nodes@.len() as int),
        NodeType::Assign(x) => 1 + outline_depth(*x.expr),
        NodeType::Block(x) => 1 + statements_depth(x.statements@, x.statements@.len() as int),
        _ => 0,
    }
}

/// The greatest depth of the first `k` nodes; -1 for none.
pub open spec fn list_depth(s: Seq<Box<Node>>, k: int) -> int
    decreases s, k,
{
    if k <= 0 || k > s.len() {
        -1
    } else {
        let a = list_depth(s, k - 1);
        let b = outline_depth(*s[k - 1]);
        if a >= b { a } else { b }
    }
}

/// The greatest depth of the nodes of the first `k` statements; -1 for none.
pub open spec fn statements_depth(s: Seq<Statement>, k: int) -> int
    decreases s, k,
{
    if k <= 0 || k > s.len() {
        -1
    } else {
        let a = statements_depth(s, k - 1);
        let b = outline_depth(*s[k - 1].node);
        if a >= b { a } else { b }
    }
}

proof fn lemma_depth_nonneg(n: Node)
    ensures
        outline_depth(n) >= 0,
    decreases n,
{
    match n.expr {
        NodeType::Binary(x) => {
            lemma_depth_nonneg(*x.expr1);
        },
        NodeType::List(x) => {
            lemma_list_depth_bounds(x.nodes@, x.nodes@.len() as int, 0);
        },
        NodeType::Assign(x) => {
            lemma_depth_nonneg(*x.expr);
        },
        NodeType::Block(x) => {
            lemma_statements_depth_bounds(x.statements@, x.statements@.len() as int, 0);
        },
        _ => {},
    }
}

proof fn lemma_list_depth_bounds(s: Seq<Box<Node>>, k: int, i: int)
    requires
        0 <= k <= s.len(),
    ensures
        list_depth(s, k) >= -1,
        0 <= i < k ==> list_depth(s, k) >= outline_depth(*s[i]),
    decreases k,
{
    if k > 0 {
        lemma_list_depth_bounds(s, k - 1, i);
    }
}

proof fn lemma_statements_depth_bounds(s: Seq<Statement>, k: int, i: int)
    requires
        0 <= k <= s.len(),
    ensures
        statements_depth(s, k) >= -1,
        0 <= i < k ==> statements_depth(s, k) >= outline_depth(*s[i].node),
    decreases k,
{
    if k > 0 {
        lemma_statements_depth_bounds(s, k - 1, i);
    }
}

fn node_label(e: &NodeType) -> (r: String)
    ensures
        r@ == spec_label(*e),
{
    match e {
        NodeType::Const(_) => String::from_str("ConstExpr: "),
        NodeType::Binary(x) => {
            let mut s = String::from_str("BinExpr: ");
            s.append(token_type_name(x.op.kind));
            s
        },
        NodeType::NONE(_) => String::from_str("NoneExpr"),
        NodeType::List(_) => String::from_str("ListExpr"),
        NodeType::Assign(_) => String::from_str("AssignExpr"),
        NodeType::Postfix(_) => String::from_str("PostfixExpr"),
        NodeType::Comment(_) => String::from_str("CommentExpr"),
        NodeType::Call(_) => String::from_str("CallExpr"),
        NodeType::Id(_) => String::from_str("IdExpr"),
        NodeType::FunctionDef(_) => String::from_str("FunctionDefExpr"),
        NodeType::Unit(_) => String::from_str("UnitExpr"),
        NodeType::Define(_) => String::from_str("DefineExpr"),
        NodeType::Block(_) => String::from_str("CodeBlock"),
        _ => String::from_str("It's a dunno..."),
    }
}

fn line_of(n: &Node, indent: usize) -> (l: OutlineLine)
    ensures
        line_view(l) == node_line(*n, indent as int),
{
    let label = node_label(&n.expr);
    match &n.expr {
        NodeType::Const(c) => {
            let value = match &c.const_type {
                ConstType::Numeric { number } => OutlineValue::Number(number.duplicate()),
                ConstType::FormattedString => OutlineValue::Text(c.range),
            };
            OutlineLine { indent, label, value, unit: n.unit.id.clone() }
        },
        _ => OutlineLine { indent, label, value: OutlineValue::NoValue, unit: String::new() },
    }
}

fn outline_node(n: &Node, indent: usize, out: &mut Vec<OutlineLine>) -> (ok: bool)
    ensures
        ok <==> indent + 5 * (outline_depth(*n) + 1) <= usize::MAX,
        ok ==> lines_view(final(out)@) == lines_view(old(out)@) + outline_of(*n, indent as int),
    decreases n,
{
    proof {
        lemma_depth_nonneg(*n);
    }
    let ghost start = out@;
    out.push(line_of(n, indent));
    proof {
        assert(lines_view(out@) =~= lines_view(start) + seq![node_line(*n, indent as int)]);
    }
    if indent > usize::MAX - 5 {
        return false;
    }
    let inner = indent + 5;
    match &n.expr {
        NodeType::Binary(x) => {
            proof {
                lemma_depth_nonneg(*x.expr1);
                lemma_depth_nonneg(*x.expr2);
            }
            let ghost mid0 = out@;
            if !outline_node(&*x.expr1, inner, out) {
                return false;
            }
            let ghost mid1 = out@;
            if !outline_node(&*x.expr2, inner, out) {
                return false;
            }
            proof {
                assert(lines_view(out@) =~= lines_view(start) + outline_of(*n, indent as int));
            }
            true
        },
        NodeType::Assign(x) => {
            if !outline_node(&*x.expr, inner, out) {
                return false;
            }
            proof {
                assert(lines_view(out@) =~= lines_view(start) + outline_of(*n, indent as int));
            }
            true
        },
        NodeType::List(x) => {
            let ghost s = x.nodes@;
            let ghost head = lines_view(start) + seq![node_line(*n, indent as int)];
            let mut i: usize = 0;
            while i < x.nodes.len()
                invariant
                    n.expr == NodeType::List(*x),
                    s == x.nodes@,
                    0 <= i <= s.len(),
                    inner == indent + 5,
                    inner + 5 * (list_depth(s, i as int) + 1) <= usize::MAX,
                    lines_view(out@) == head + outline_of_list(s, inner as int, i as int),
                decreases s.len() - i,
            {
                proof {
                    assert(decreases_to!(*n => n.expr));
                    assert(decreases_to!(n.expr => (n.expr)->List_0));
                    assert(decreases_to!(*x => x.nodes));
                    assert(decreases_to!(x.nodes => x.nodes@));
                    assert(decreases_to!(x.nodes@ => x.nodes@[i as int]));
                    lemma_list_depth_bounds(s, s.len() as int, i as int);
                    lemma_depth_nonneg(*s[i as int]);
                }
                let ghost before = lines_view(out@);
                if !outline_node(&*x.nodes[i], inner, out) {
                    return false;
                }
                proof {
                    assert(lines_view(out@) =~= head + outline_of_list(s, inner as int, i + 1));
                }
                i = i + 1;
            }
            proof {
                assert(lines_view(out@) =~= lines_view(start) + outline_of(*n, indent as int));
            }
            true
        },
        NodeType::Block(x) => {
            let ghost s = x.statements@;
            let ghost head = lines_view(start) + seq![node_line(*n, indent as int)];
            let mut i: usize = 0;
            while i < x.statements.len()
                invariant
                    n.expr == NodeType::Block(*x),
                    s == x.statements@,
                    0 <= i <= s.len(),
                    inner == indent + 5,
                    inner + 5 * (statements_depth(s, i as int) + 1) <= usize::MAX,
                    lines_view(out@) == head + outline_of_statements(s, inner as int, i as int),
                decreases s.len() - i,
            {
                proof {
                    assert(decreases_to!(*n => n.expr));
                    assert(decreases_to!(n.expr => (n.expr)->Block_0));
                    assert(decreases_to!(*x => x.statements));
                    assert(decreases_to!(x.statements => x.statements@));
                    assert(decreases_to!(x.statements@ => x.statements@[i as int]));
                    assert(decreases_to!(x.statements@[i as int] => x.statements@[i as int].node));
                    lemma_statements_depth_bounds(s, s.len() as int, i as int);
                    lemma_depth_nonneg(*s[i as int].node);
                }
                if !outline_node(&*x.statements[i].node, inner, out) {
                    return false;
                }
                proof {
                    assert(lines_view(out@) =~= head + outline_of_statements(s, inner as int, i + 1));
                }
                i = i + 1;
            }
            proof {
                assert(lines_view(out@) =~= lines_view(start) + outline_of(*n, indent as int));
            }
            true
        },
        _ => {
            proof {
                assert(lines_view(out@) =~= lines_view(start) + outline_of(*n, indent as int));
            }
            true
        },
    }
}

/// The outline of the syntax tree under `node`, its first line indented by `indent`
/// (see `outline_of`); nothing where an indentation would not fit in a `usize`.
pub fn node_outline(node: &Box<Node>, indent: usize) -> (r: Option<Vec<OutlineLine>>)
    ensures
        r is Some <==> indent + 5 * (outline_depth(**node) + 1) <= usize::MAX,
        r matches Some(lines) ==> lines_view(lines@) == outline_of(**node, indent as int),
{
    let mut out: Vec<OutlineLine> = Vec::new();
    if outline_node(&**node, indent, &mut out) {
        assert(lines_view(out@) =~= outline_of(**node, indent as int));
        Some(out)
    } else {
        None
    }
}

} // verus!
