use vstd::prelude::*;
use crate::errors::Error;
use crate::functions::FunctionDef;
use crate::globals::SourceIndex;
use crate::resolver::unit::Unit;
use crate::tokenizer::Token;
use crate::tokenizer::cursor::{NumberLiteral, Range};

verus! {

/// What covers a part of a source text can tell which part.
pub trait HasRange {
    /// All the parts of this item lie in one source, so that their ranges can be joined.
    spec fn range_ok(&self) -> bool;

    /// The range this item covers.
    spec fn spec_range(&self) -> Range;

    /// The range this item covers.
    fn get_range(&self) -> (r: Range)
        requires
            self.range_ok(),
        ensures
            r == self.spec_range();
}

/// The smallest range that covers both (in the source of the first).
pub open spec fn join(a: Range, b: Range) -> Range {
    Range {
        source_index: a.source_index,
        start: if a.start <= b.start { a.start } else { b.start },
        end: if a.end >= b.end { a.end } else { b.end },
    }
}

/// A node of the syntax tree: an expression, the unit glued to it, and whether parsing
/// it found an error.
pub struct Node {
    pub unit: Unit,
    pub has_errors: bool,
    pub expr: NodeType,
}

/// The kinds of node.
pub enum NodeType {
    NONE(NoneExpr),
    Unit(UnitExpr),
    Comment(CommentExpr),
    Assign(AssignExpr),
    Binary(BinExpr),
    Unary(UnaryExpr),
    Const(ConstExpr),
    Id(IdExpr),
    Postfix(PostfixExpr),
    List(ListExpr),
    FunctionDef(FunctionDefExpr),
    Call(CallExpr),
    Block(CodeBlock),
    Define(DefineExpr),
    Pragma(PragmaExpr),
    Assignable(AssignableExpr),
}

/// Nothing meaningful was found, at `token` (which may be the end of text).
pub struct NoneExpr {
    pub token: Token,
}

/// A unit glued to an expression that already had one, as in `(1m)mm`.
pub struct UnitExpr {
    pub node: Box<Node>,
    pub range: Range,
}

/// A comment to be echoed.
pub struct CommentExpr {
    pub token: Token,
}

/// What can be assigned to: a name, and a part of it.
pub struct AssignableExpr {
    pub id: Token,
    pub fragment: Option<Token>,
}

/// An assignment.
pub struct AssignExpr {
    pub assignable: AssignableExpr,
    pub expr: Box<Node>,
}

/// A binary operation; `implicit_mult` where the `*` was left out.
pub struct BinExpr {
    pub expr1: Box<Node>,
    pub op: Token,
    pub expr2: Box<Node>,
    pub implicit_mult: bool,
}

/// A unary operation.
pub struct UnaryExpr {
    pub op: Token,
    pub expr: Box<Node>,
}

/// The kinds of constant: a number as it was read, or a quoted text to be read as a
/// formatted number or date.
pub enum ConstType {
    Numeric { number: NumberLiteral },
    FormattedString,
}

/// A constant.
pub struct ConstExpr {
    pub const_type: ConstType,
    pub range: Range,
}

/// A name.
pub struct IdExpr {
    pub id: Token,
}

/// A unit (or `ClearUnit`) applied after a dot.
pub struct PostfixExpr {
    pub node: Box<Node>,
    pub postfix_id: Token,
}

/// A statement, and whether its result is muted.
pub struct Statement {
    pub node: Box<Node>,
    pub mute: bool,
}

/// A comma-separated list.
pub struct ListExpr {
    pub nodes: Vec<Box<Node>>,
}

/// The definition of a function: its name, the names of its parameters, and its range.
pub struct FunctionDefExpr {
    pub id: String,
    pub id_range: Range,
    pub arg_names: Vec<String>,
    pub range: Range,
}

/// A call of a function by name.
pub struct CallExpr {
    pub function_name: String,
    pub function_name_range: Range,
    pub arguments: Vec<Box<Node>>,
    pub par_close_range: Range,
}

/// A function defined in a script: its name, how many arguments it takes, its body and
/// its definition.
pub struct CustomFunctionDef {
    pub name: String,
    pub min_args: usize,
    pub max_args: usize,
    pub code_block: CodeBlock,
    pub function_def_expr: FunctionDefExpr,
}

/// What parsing a block learns of its names: the variables assigned in it, the functions
/// defined in it, and the functions of the blocks around it; and whether `#define strict`
/// holds in it.
pub struct BlockScope {
    pub var_defs: Vec<String>,
    pub local_function_defs: Vec<CustomFunctionDef>,
    pub outer_function_names: Vec<String>,
    pub strict: bool,
}

/// A block of statements, where it starts, and what parsing it learned.
pub struct CodeBlock {
    pub block_start: Range,
    pub statements: Vec<Statement>,
    pub scope: BlockScope,
    pub errors: Vec<Error>,
}

/// The settings a `#define` or `#undef` can name.
pub enum DefineType {
    Dmy,
    Ymd,
    Mdy,
    Precision { number: NumberLiteral },
    DateUnits,
    ShortDateUnits,
    Trig,
    Arithm,
    Date,
    Default,
    Electric,
    Strict,
    DecimalDot,
    DecimalComma,
    DecimalAuto,
}

/// One setting of a `#define` or `#undef`.
pub struct Define {
    pub define_type: DefineType,
    pub range: Range,
}

/// A `#define` or `#undef` and the settings it names.
pub struct DefineExpr {
    pub def_undef: Token,
    pub defines: Vec<Define>,
}

/// The pragmas there are.
pub enum PragmaType {
    DecimalCommaAllowed,
}

/// One pragma.
pub struct Pragma {
    pub pragma_type: PragmaType,
    pub range: Range,
}

/// A `#pragma` and what it names.
pub struct PragmaExpr {
    pub pragma_token: Token,
    pub pragmas: Vec<Pragma>,
}

/// The range of an expression.
pub open spec fn type_range(e: NodeType) -> Range
    decreases e, 0int,
{
    match e {
        NodeType::NONE(x) => x.token.range,
        NodeType::Unit(x) => type_range(x.node.expr),
        NodeType::Comment(x) => x.token.range,
        NodeType::Assign(x) => join(assignable_range(x.assignable), type_range(x.expr.expr)),
        NodeType::Binary(x) => join(type_range(x.expr1.expr), type_range(x.expr2.expr)),
        NodeType::Unary(x) => join(type_range(x.expr.expr), x.op.range),
        NodeType::Const(x) => x.range,
        NodeType::Id(x) => x.id.range,
        NodeType::Postfix(x) => if x.postfix_id.range.start == 0 && x.postfix_id.range.end == 0 {
            type_range(x.node.expr)
        } else {
            join(type_range(x.node.expr), x.postfix_id.range)
        },
        NodeType::List(x) => list_range(x.nodes@, x.nodes@.len() as int),
        NodeType::FunctionDef(x) => x.range,
        NodeType::Call(x) => join(x.function_name_range, x.par_close_range),
        NodeType::Block(x) => join(
            x.block_start,
            if x.statements@.len() == 0 { x.block_start } else { statements_range(x.statements@, x.statements@.len() as int) },
        ),
        NodeType::Define(x) => join(x.def_undef.range, defines_range(x.defines@, x.def_undef.range, x.defines@.len() as int)),
        NodeType::Pragma(x) => join(x.pragma_token.range, pragmas_range(x.pragmas@, x.pragma_token.range, x.pragmas@.len() as int)),
        NodeType::Assignable(x) => assignable_range(x),
    }
}

/// The range of the first `k` nodes of a list (which must not be empty), joined left to
/// right.
pub open spec fn list_range(s: Seq<Box<Node>>, k: int) -> Range
    decreases s, k,
{
    if k <= 1 || k > s.len() {
        if 0 < s.len() { type_range(s[0].expr) } else { arbitrary() }
    } else {
        join(list_range(s, k - 1), type_range(s[k - 1].expr))
    }
}

/// The range of the first `k` statements, joined left to right.
pub open spec fn statements_range(s: Seq<Statement>, k: int) -> Range
    decreases s, k,
{
    if k <= 1 || k > s.len() {
        if 0 < s.len() { type_range(s[0].node.expr) } else { arbitrary() }
    } else {
        join(statements_range(s, k - 1), type_range(s[k - 1].node.expr))
    }
}

/// `start` joined with the ranges of the first `k` settings.
pub open spec fn defines_range(s: Seq<Define>, start: Range, k: int) -> Range
    decreases k,
{
    if k <= 0 || k > s.len() {
        start
    } else {
        join(defines_range(s, start, k - 1), s[k - 1].range)
    }
}

/// `start` joined with the ranges of the first `k` pragmas.
pub open spec fn pragmas_range(s: Seq<Pragma>, start: Range, k: int) -> Range
    decreases k,
{
    if k <= 0 || k > s.len() {
        start
    } else {
        join(pragmas_range(s, start, k - 1), s[k - 1].range)
    }
}

/// The range of an assignable: its name, with the fragment where there is one.
pub open spec fn assignable_range(x: AssignableExpr) -> Range {
    match x.fragment {
        Some(f) => join(x.id.range, f.range),
        None => x.id.range,
    }
}

/// Every range of an expression that its range joins lies in source `si`, and no list
/// in it is empty.
pub open spec fn type_ok(e: NodeType, si: SourceIndex) -> bool
    decreases e, 0int,
{
    match e {
        NodeType::NONE(x) => x.token.range.source_index == si,
        NodeType::Unit(x) => type_ok(x.node.expr, si),
        NodeType::Comment(x) => x.token.range.source_index == si,
        NodeType::Assign(x) => assignable_ok(x.assignable, si) && type_ok(x.expr.expr, si),
        NodeType::Binary(x) => type_ok(x.expr1.expr, si) && type_ok(x.expr2.expr, si),
        NodeType::Unary(x) => type_ok(x.expr.expr, si) && x.op.range.source_index == si,
        NodeType::Const(x) => x.range.source_index == si,
        NodeType::Id(x) => x.id.range.source_index == si,
        NodeType::Postfix(x) => type_ok(x.node.expr, si) && x.postfix_id.range.source_index == si,
        NodeType::List(x) => x.nodes@.len() > 0 && list_ok(x.nodes@, si, x.nodes@.len() as int),
        NodeType::FunctionDef(x) => x.range.source_index == si,
        NodeType::Call(x) => x.function_name_range.source_index == si && x.par_close_range.source_index == si,
        NodeType::Block(x) => x.block_start.source_index == si && statements_ok(x.statements@, si, x.statements@.len() as int),
        NodeType::Define(x) => x.def_undef.range.source_index == si
            && forall|i: int| 0 <= i < x.defines@.len() ==> (#[trigger] x.defines@[i]).range.source_index == si,
        NodeType::Pragma(x) => x.pragma_token.range.source_index == si
            && forall|i: int| 0 <= i < x.pragmas@.len() ==> (#[trigger] x.pragmas@[i]).range.source_index == si,
        NodeType::Assignable(x) => assignable_ok(x, si),
    }
}

/// The first `k` nodes of a list are `type_ok`.
pub open spec fn list_ok(s: Seq<Box<Node>>, si: SourceIndex, k: int) -> bool
    decreases s, k,
{
    if k <= 0 || k > s.len() {
        true
    } else {
        list_ok(s, si, k - 1) && type_ok(s[k - 1].expr, si)
    }
}

/// The first `k` statements are `type_ok`.
pub open spec fn statements_ok(s: Seq<Statement>, si: SourceIndex, k: int) -> bool
    decreases s, k,
{
    if k <= 0 || k > s.len() {
        true
    } else {
        statements_ok(s, si, k - 1) && type_ok(s[k - 1].node.expr, si)
    }
}

/// The name and fragment of an assignable lie in source `si`.
pub open spec fn assignable_ok(x: AssignableExpr, si: SourceIndex) -> bool {
    &&& x.id.range.source_index == si
    &&& x.fragment matches Some(f) ==> f.range.source_index == si
}

/// Every joined range of an expression lies in the source of its range.
pub proof fn lemma_type_range_source(e: NodeType, si: SourceIndex)
    requires
        type_ok(e, si),
    ensures
        type_range(e).source_index == si,
    decreases e, 0int,
{
    match e {
        NodeType::Unit(x) => lemma_type_range_source(x.node.expr, si),
        NodeType::Assign(x) => lemma_type_range_source(x.expr.expr, si),
        NodeType::Binary(x) => lemma_type_range_source(x.expr1.expr, si),
        NodeType::Unary(x) => lemma_type_range_source(x.expr.expr, si),
        NodeType::Postfix(x) => lemma_type_range_source(x.node.expr, si),
        NodeType::List(x) => lemma_list_range_source(x.nodes@, si, x.nodes@.len() as int),
        NodeType::Block(x) => {
            if x.statements@.len() > 0 {
                lemma_statements_range_source(x.statements@, si, x.statements@.len() as int);
            }
        },
        NodeType::Define(x) => lemma_defines_range_source(x.defines@, x.def_undef.range, si, x.defines@.len() as int),
        NodeType::Pragma(x) => lemma_pragmas_range_source(x.pragmas@, x.pragma_token.range, si, x.pragmas@.len() as int),
        _ => {},
    }
}

proof fn lemma_list_range_source(s: Seq<Box<Node>>, si: SourceIndex, k: int)
    requires
        0 < k <= s.len(),
        list_ok(s, si, k),
    ensures
        list_range(s, k).source_index == si,
    decreases s, k,
{
    if k <= 1 {
        lemma_type_range_source(s[0].expr, si);
    } else {
        lemma_list_range_source(s, si, k - 1);
    }
}

proof fn lemma_statements_range_source(s: Seq<Statement>, si: SourceIndex, k: int)
    requires
        0 < k <= s.len(),
        statements_ok(s, si, k),
    ensures
        statements_range(s, k).source_index == si,
    decreases s, k,
{
    if k <= 1 {
        lemma_type_range_source(s[0].node.expr, si);
    } else {
        lemma_statements_range_source(s, si, k - 1);
    }
}

proof fn lemma_defines_range_source(s: Seq<Define>, start: Range, si: SourceIndex, k: int)
    requires
        start.source_index == si,
    ensures
        defines_range(s, start, k).source_index == si,
    decreases k,
{
    if 0 < k <= s.len() {
        lemma_defines_range_source(s, start, si, k - 1);
    }
}

proof fn lemma_pragmas_range_source(s: Seq<Pragma>, start: Range, si: SourceIndex, k: int)
    requires
        start.source_index == si,
    ensures
        pragmas_range(s, start, k).source_index == si,
    decreases k,
{
    if 0 < k <= s.len() {
        lemma_pragmas_range_source(s, start, si, k - 1);
    }
}

/// The first `k` nodes of a list being `type_ok` makes each of them so.
pub proof fn lemma_list_ok_elem(s: Seq<Box<Node>>, si: SourceIndex, k: int, i: int)
    requires
        list_ok(s, si, k),
        0 <= i < k <= s.len(),
    ensures
        type_ok(s[i].expr, si),
    decreases k,
{
    if i < k - 1 {
        lemma_list_ok_elem(s, si, k - 1, i);
    }
}

/// The first `k` statements being `type_ok` makes each of them so.
pub proof fn lemma_statements_ok_elem(s: Seq<Statement>, si: SourceIndex, k: int, i: int)
    requires
        statements_ok(s, si, k),
        0 <= i < k <= s.len(),
    ensures
        type_ok(s[i].node.expr, si),
    decreases k,
{
    if i < k - 1 {
        lemma_statements_ok_elem(s, si, k - 1, i);
    }
}

/// The range of an expression (see `type_range`).
fn type_get_range(e: &NodeType, Ghost(si): Ghost<SourceIndex>) -> (r: Range)
    requires
        type_ok(*e, si),
    ensures
        r == type_range(*e),
    decreases e,
{
    proof {
        lemma_type_range_source(*e, si);
    }
    match e {
        NodeType::NONE(x) => x.token.range,
        NodeType::Unit(x) => type_get_range(&x.node.expr, Ghost(si)),
        NodeType::Comment(x) => x.token.range,
        NodeType::Assign(x) => {
            let a = assignable_get_range(&x.assignable);
            let b = type_get_range(&x.expr.expr, Ghost(si));
            proof {
                lemma_type_range_source(x.expr.expr, si);
            }
            a.add(&b)
        },
        NodeType::Binary(x) => {
            let a = type_get_range(&x.expr1.expr, Ghost(si));
            let b = type_get_range(&x.expr2.expr, Ghost(si));
            proof {
                lemma_type_range_source(x.expr1.expr, si);
                lemma_type_range_source(x.expr2.expr, si);
            }
            a.add(&b)
        },
        NodeType::Unary(x) => {
            let a = type_get_range(&x.expr.expr, Ghost(si));
            proof {
                lemma_type_range_source(x.expr.expr, si);
            }
            a.add(&x.op.range)
        },
        NodeType::Const(x) => x.range,
        NodeType::Id(x) => x.id.range,
        NodeType::Postfix(x) => {
            let a = type_get_range(&x.node.expr, Ghost(si));
            proof {
                lemma_type_range_source(x.node.expr, si);
            }
            if x.postfix_id.range.is_none() {
                a
            } else {
                a.add(&x.postfix_id.range)
            }
        },
        NodeType::List(x) => {
            let ghost s = x.nodes@;
            proof {
                lemma_list_ok_elem(s, si, s.len() as int, 0);
                lemma_type_range_source(s[0].expr, si);
            }
            let mut r = type_get_range(&x.nodes[0].expr, Ghost(si));
            let mut i: usize = 1;
            while i < x.nodes.len()
                invariant
                    *e == NodeType::List(*x),
                    s == x.nodes@,
                    1 <= i <= s.len(),
                    list_ok(s, si, s.len() as int),
                    r == list_range(s, i as int),
                    r.source_index == si,
                decreases s.len() - i,
            {
                proof {
                    lemma_list_ok_elem(s, si, s.len() as int, i as int);
                    lemma_type_range_source(s[i as int].expr, si);
                    assert(decreases_to!(*e => (*e)->List_0));
                    assert(decreases_to!(*x => x.nodes));
                    assert(decreases_to!(x.nodes => x.nodes@));
                    assert(decreases_to!(x.nodes@ => x.nodes@[i as int]));
                    assert(decreases_to!(x.nodes@[i as int] => x.nodes@[i as int].expr));
                }
                let b = type_get_range(&x.nodes[i].expr, Ghost(si));
                r = r.add(&b);
                i = i + 1;
            }
            r
        },
        NodeType::FunctionDef(x) => x.range,
        NodeType::Call(x) => x.function_name_range.add(&x.par_close_range),
        NodeType::Block(x) => {
            let ghost s = x.statements@;
            if x.statements.len() == 0 {
                x.block_start.add(&x.block_start)
            } else {
                proof {
                    lemma_statements_ok_elem(s, si, s.len() as int, 0);
                    lemma_type_range_source(s[0].node.expr, si);
                }
                let mut r = type_get_range(&x.statements[0].node.expr, Ghost(si));
                let mut i: usize = 1;
                while i < x.statements.len()
                    invariant
                        *e == NodeType::Block(*x),
                        s == x.statements@,
                        1 <= i <= s.len(),
                        statements_ok(s, si, s.len() as int),
                        r == statements_range(s, i as int),
                        r.source_index == si,
                    decreases s.len() - i,
                {
                    proof {
                        lemma_statements_ok_elem(s, si, s.len() as int, i as int);
                        lemma_type_range_source(s[i as int].node.expr, si);
                        assert(decreases_to!(*e => (*e)->Block_0));
                        assert(decreases_to!(*x => x.statements));
                        assert(decreases_to!(x.statements => x.statements@));
                        assert(decreases_to!(x.statements@ => x.statements@[i as int]));
                        assert(decreases_to!(x.statements@[i as int] => x.statements@[i as int].node));
                        assert(decreases_to!(x.statements@[i as int].node => x.statements@[i as int].node.expr));
                    }
                    let b = type_get_range(&x.statements[i].node.expr, Ghost(si));
                    r = r.add(&b);
                    i = i + 1;
                }
                x.block_start.add(&r)
            }
        },
        NodeType::Define(x) => {
            let mut r = x.def_undef.range;
            let mut i: usize = 0;
            while i < x.defines.len()
                invariant
                    0 <= i <= x.defines@.len(),
                    r == defines_range(x.defines@, x.def_undef.range, i as int),
                    r.source_index == si,
                    x.def_undef.range.source_index == si,
                    forall|j: int| 0 <= j < x.defines@.len() ==> (#[trigger] x.defines@[j]).range.source_index == si,
                decreases x.defines@.len() - i,
            {
                r = r.add(&x.defines[i].range);
                i = i + 1;
            }
            x.def_undef.range.add(&r)
        },
        NodeType::Pragma(x) => {
            let mut r = x.pragma_token.range;
            let mut i: usize = 0;
            while i < x.pragmas.len()
                invariant
                    0 <= i <= x.pragmas@.len(),
                    r == pragmas_range(x.pragmas@, x.pragma_token.range, i as int),
                    r.source_index == si,
                    x.pragma_token.range.source_index == si,
                    forall|j: int| 0 <= j < x.pragmas@.len() ==> (#[trigger] x.pragmas@[j]).range.source_index == si,
                decreases x.pragmas@.len() - i,
            {
                r = r.add(&x.pragmas[i].range);
                i = i + 1;
            }
            x.pragma_token.range.add(&r)
        },
        NodeType::Assignable(x) => assignable_get_range(x),
    }
}

/// The range of an assignable (see `assignable_range`).
fn assignable_get_range(x: &AssignableExpr) -> (r: Range)
    requires
        assignable_ok(*x, x.id.range.source_index),
    ensures
        r == assignable_range(*x),
{
    match &x.fragment {
        Some(f) => x.id.range.add(&f.range),
        None => x.id.range,
    }
}

impl HasRange for NodeType {
    open spec fn range_ok(&self) -> bool {
        type_ok(*self, type_range(*self).source_index)
    }

    open spec fn spec_range(&self) -> Range {
        type_range(*self)
    }

    fn get_range(&self) -> (r: Range) {
        type_get_range(self, Ghost(type_range(*self).source_index))
    }
}

impl HasRange for Node {
    open spec fn range_ok(&self) -> bool {
        type_ok(self.expr, type_range(self.expr).source_index)
    }

    open spec fn spec_range(&self) -> Range {
        type_range(self.expr)
    }

    fn get_range(&self) -> (r: Range) {
        type_get_range(&self.expr, Ghost(type_range(self.expr).source_index))
    }
}

impl HasRange for Statement {
    open spec fn range_ok(&self) -> bool {
        type_ok(self.node.expr, type_range(self.node.expr).source_index)
    }

    open spec fn spec_range(&self) -> Range {
        type_range(self.node.expr)
    }

    fn get_range(&self) -> (r: Range) {
        type_get_range(&self.node.expr, Ghost(type_range(self.node.expr).source_index))
    }
}

/// The names in a list of strings, as plain values.
pub open spec fn names_view(v: Seq<String>) -> Seq<Seq<char>> {
    v.map_values(|s: String| s@)
}

/// The names of the functions in a list of definitions.
pub open spec fn function_names(v: Seq<CustomFunctionDef>) -> Seq<Seq<char>> {
    v.map_values(|f: CustomFunctionDef| f.name@)
}

impl BlockScope {
    /// The names of the variables assigned in the block.
    pub open spec fn var_names(&self) -> Seq<Seq<char>> {
        names_view(self.var_defs@)
    }

    /// The names of the functions the block can call, built-in ones aside.
    pub open spec fn visible_functions(&self) -> Seq<Seq<char>> {
        function_names(self.local_function_defs@) + names_view(self.outer_function_names@)
    }

    /// A scope for a top-level block: nothing assigned or defined yet.
    pub fn new() -> (s: BlockScope)
        ensures
            s.var_names().len() == 0,
            s.local_function_defs@.len() == 0,
            s.outer_function_names@.len() == 0,
            !s.strict,
    {
        BlockScope { var_defs: Vec::new(), local_function_defs: Vec::new(), outer_function_names: Vec::new(), strict: false }
    }

    /// The scope of a block inside this one: it sees the functions this one sees, keeps
    /// its strictness, and nothing is assigned or defined in it yet.
    pub fn copy_for_block(&self) -> (s: BlockScope)
        ensures
            s.var_names().len() == 0,
            s.local_function_defs@.len() == 0,
            names_view(s.outer_function_names@) == self.visible_functions(),
            s.strict == self.strict,
    {
        let mut outer: Vec<String> = Vec::new();
        let mut i: usize = 0;
        while i < self.local_function_defs.len()
            invariant
                0 <= i <= self.local_function_defs@.len(),
                names_view(outer@) == function_names(self.local_function_defs@).take(i as int),
            decreases self.local_function_defs@.len() - i,
        {
            let ghost before = outer@;
            outer.push(self.local_function_defs[i].name.clone());
            assert(names_view(outer@) =~= names_view(before).push(function_names(self.local_function_defs@)[i as int]));
            assert(function_names(self.local_function_defs@).take(i + 1) =~= function_names(self.local_function_defs@).take(i as int).push(function_names(self.local_function_defs@)[i as int]));
            i = i + 1;
        }
        let mut j: usize = 0;
        while j < self.outer_function_names.len()
            invariant
                i == self.local_function_defs@.len(),
                0 <= j <= self.outer_function_names@.len(),
                names_view(outer@) == function_names(self.local_function_defs@) + names_view(self.outer_function_names@).take(j as int),
            decreases self.outer_function_names@.len() - j,
        {
            let ghost before = outer@;
            outer.push(self.outer_function_names[j].clone());
            assert(names_view(outer@) =~= names_view(before).push(names_view(self.outer_function_names@)[j as int]));
            assert(names_view(self.outer_function_names@).take(j + 1) =~= names_view(self.outer_function_names@).take(j as int).push(names_view(self.outer_function_names@)[j as int]));
            j = j + 1;
        }
        assert(function_names(self.local_function_defs@).take(i as int) =~= function_names(self.local_function_defs@));
        assert(names_view(self.outer_function_names@).take(j as int) =~= names_view(self.outer_function_names@));
        BlockScope { var_defs: Vec::new(), local_function_defs: Vec::new(), outer_function_names: outer, strict: self.strict }
    }

    /// Whether a variable named `id` was assigned in this block.
    pub fn has_var(&self, id: &str) -> (r: bool)
        ensures
            r == self.var_names().contains(id@),
    {
        let mut i: usize = 0;
        while i < self.var_defs.len()
            invariant
                0 <= i <= self.var_defs@.len(),
                forall|j: int| 0 <= j < i ==> self.var_names()[j] != id@,
            decreases self.var_defs@.len() - i,
        {
            if crate::text::str_eq(self.var_defs[i].as_str(), id) {
                assert(self.var_names()[i as int] == id@);
                return true;
            }
            i = i + 1;
        }
        false
    }

    /// Records that a variable named `id` is assigned in this block.
    pub fn add_var(&mut self, id: String)
        ensures
            final(self).var_names() == if old(self).var_names().contains(id@) {
                old(self).var_names()
            } else {
                old(self).var_names().push(id@)
            },
            final(self).local_function_defs == old(self).local_function_defs,
            final(self).outer_function_names == old(self).outer_function_names,
            final(self).strict == old(self).strict,
    {
        if !self.has_var(id.as_str()) {
            let ghost before = self.var_defs@;
            self.var_defs.push(id);
            assert(names_view(self.var_defs@) =~= names_view(before).push(id@));
        }
    }

    /// Whether a function named `name` was defined in this block itself.
    pub fn has_local_function(&self, name: &str) -> (r: bool)
        ensures
            r == function_names(self.local_function_defs@).contains(name@),
    {
        let mut i: usize = 0;
        while i < self.local_function_defs.len()
            invariant
                0 <= i <= self.local_function_defs@.len(),
                forall|j: int| 0 <= j < i ==> function_names(self.local_function_defs@)[j] != name@,
            decreases self.local_function_defs@.len() - i,
        {
            if crate::text::str_eq(self.local_function_defs[i].name.as_str(), name) {
                assert(function_names(self.local_function_defs@)[i as int] == name@);
                return true;
            }
            i = i + 1;
        }
        false
    }

    /// Whether a function named `name` was defined in this block or one around it.
    pub fn has_function(&self, name: &str) -> (r: bool)
        ensures
            r == self.visible_functions().contains(name@),
    {
        let mut i: usize = 0;
        while i < self.local_function_defs.len()
            invariant
                0 <= i <= self.local_function_defs@.len(),
                forall|j: int| 0 <= j < i ==> function_names(self.local_function_defs@)[j] != name@,
            decreases self.local_function_defs@.len() - i,
        {
            if crate::text::str_eq(self.local_function_defs[i].name.as_str(), name) {
                assert(self.visible_functions()[i as int] == name@);
                return true;
            }
            i = i + 1;
        }
        let mut j: usize = 0;
        while j < self.outer_function_names.len()
            invariant
                i == self.local_function_defs@.len(),
                0 <= j <= self.outer_function_names@.len(),
                forall|k: int| 0 <= k < i ==> function_names(self.local_function_defs@)[k] != name@,
                forall|k: int| 0 <= k < j ==> names_view(self.outer_function_names@)[k] != name@,
            decreases self.outer_function_names@.len() - j,
        {
            if crate::text::str_eq(self.outer_function_names[j].as_str(), name) {
                assert(self.visible_functions()[i + j] == name@);
                return true;
            }
            j = j + 1;
        }
        assert forall|k: int| 0 <= k < self.visible_functions().len() implies self.visible_functions()[k] != name@ by {
            if k >= i {
                assert(self.visible_functions()[k] == names_view(self.outer_function_names@)[k - i]);
            }
        }
        false
    }

    /// Records the function defined by `function_def_expr` with body `code_block`,
    /// replacing one of the same name defined in this block.
    pub fn add_local_function(&mut self, code_block: CodeBlock, function_def_expr: FunctionDefExpr)
        ensures
            final(self).var_defs == old(self).var_defs,
            final(self).outer_function_names == old(self).outer_function_names,
            final(self).strict == old(self).strict,
            function_names(old(self).local_function_defs@).contains(function_def_expr.id@) ==>
                function_names(final(self).local_function_defs@) == function_names(old(self).local_function_defs@),
            !function_names(old(self).local_function_defs@).contains(function_def_expr.id@) ==>
                function_names(final(self).local_function_defs@) == function_names(old(self).local_function_defs@).push(function_def_expr.id@),
            ({
                let f = final(self).local_function_defs@;
                let o = old(self).local_function_defs@;
                exists|i: int| #![trigger f[i]] 0 <= i < f.len() && i <= o.len()
                    && f[i].name@ == function_def_expr.id@
                    && f[i].min_args == function_def_expr.arg_names@.len()
                    && f[i].max_args == function_def_expr.arg_names@.len()
                    && f[i].code_block == code_block
                    && f[i].function_def_expr == function_def_expr
                    && (forall|j: int| 0 <= j < i ==> (#[trigger] o[j]).name@ != function_def_expr.id@)
                    && (i < o.len() ==> f == o.update(i, f[i]))
                    && (i == o.len() ==> f == o.push(f[i]))
            }),
    {
        let ghost id = function_def_expr.id@;
        let ghost expr = function_def_expr;
        let ghost block = code_block;
        let n = function_def_expr.arg_names.len();
        let name = function_def_expr.id.clone();
        assert(name@ == id);
        let func = CustomFunctionDef {
            name,
            min_args: n,
            max_args: n,
            code_block,
            function_def_expr,
        };
        let mut i: usize = 0;
        while i < self.local_function_defs.len()
            invariant
                0 <= i <= self.local_function_defs@.len(),
                forall|j: int| 0 <= j < i ==> function_names(self.local_function_defs@)[j] != id,
                self.local_function_defs@ == old(self).local_function_defs@,
                func.name@ == id,
            ensures
                0 <= i <= self.local_function_defs@.len(),
                forall|j: int| 0 <= j < i ==> function_names(self.local_function_defs@)[j] != id,
                i < self.local_function_defs@.len() ==> function_names(self.local_function_defs@)[i as int] == id,
                self.local_function_defs@ == old(self).local_function_defs@,
            decreases self.local_function_defs@.len() - i,
        {
            if crate::text::str_eq(self.local_function_defs[i].name.as_str(), func.name.as_str()) {
                break;
            }
            i = i + 1;
        }
        let ghost before = self.local_function_defs@;
        if i < self.local_function_defs.len() {
            assert(function_names(before).contains(id));
            let _old = self.local_function_defs.remove(i);
            self.local_function_defs.insert(i, func);
            assert(self.local_function_defs@ =~= before.update(i as int, func));
            assert(function_names(self.local_function_defs@) =~= function_names(before));
        } else {
            assert(!function_names(before).contains(id));
            self.local_function_defs.push(func);
            assert(function_names(self.local_function_defs@) =~= function_names(before).push(id));
            assert(self.local_function_defs@[before.len() as int] == func);
        }
        assert(forall|j: int| 0 <= j < i ==> (#[trigger] before[j]).name@ == function_names(before)[j]);
        assert(self.local_function_defs@[i as int] == func);
    }
}

impl Node {
    /// A node for `expr`, with no unit and no error.
    pub fn new(expr: NodeType) -> (n: Node)
        ensures
            n.expr == expr,
            n.unit.id@.len() == 0,
            !n.has_errors,
    {
        Node { unit: Unit::none(), has_errors: false, expr }
    }

    /// A boxed node for `expr`, with no unit and no error.
    pub fn boxed(expr: NodeType) -> (n: Box<Node>)
        ensures
            n.expr == expr,
            n.unit.id@.len() == 0,
            !n.has_errors,
    {
        Box::new(Node::new(expr))
    }
}

impl NodeType {
    /// The expression is a multiplication whose `*` was left out.
    pub open spec fn spec_is_implicit_mult(&self) -> bool {
        match *self {
            NodeType::Binary(b) => b.implicit_mult,
            _ => false,
        }
    }

    /// The expression is a multiplication whose `*` was left out.
    pub fn is_implicit_mult(&self) -> (r: bool)
        ensures
            r == self.spec_is_implicit_mult(),
    {
        match self {
            NodeType::Binary(b) => b.implicit_mult,
            _ => false,
        }
    }
}

impl Statement {
    /// Records `error` and gives an unmuted statement of nothing, at `token`, marked as
    /// having an error.
    pub fn error(errors: &mut Vec<Error>, error: Error, token: Token) -> (s: Statement)
        ensures
            final(errors)@ == old(errors)@.push(error),
            s.node.expr == NodeType::NONE(NoneExpr { token }),
            s.node.has_errors,
            s.node.unit.id@.len() == 0,
            !s.mute,
    {
        errors.push(error);
        Statement {
            node: Box::new(Node { expr: NodeType::NONE(NoneExpr { token }), unit: Unit::none(), has_errors: true }),
            mute: false,
        }
    }

    /// The statement, muted or not as `mute` says.
    pub fn set_mute(self, mute: bool) -> (s: Statement)
        ensures
            s.node == self.node,
            s.mute == mute,
    {
        let mut s = self;
        s.mute = mute;
        s
    }
}

impl CodeBlock {
    /// An empty block starting at `block_start`, with the given scope.
    pub fn new(scope: BlockScope, block_start: Range) -> (b: CodeBlock)
        ensures
            b.block_start == block_start,
            b.statements@.len() == 0,
            b.scope == scope,
            b.errors@.len() == 0,
    {
        CodeBlock { block_start, statements: Vec::new(), scope, errors: Vec::new() }
    }

    /// The errors recorded for this block.
    pub fn get_parser_errors(&self) -> (r: &Vec<Error>)
        ensures
            r == &self.errors,
    {
        &self.errors
    }

    /// Records copies of `errors` for this block.
    pub fn append_errors(&mut self, errors: &Vec<Error>)
        ensures
            crate::date::timepoint::error_log(final(self).errors@)
                == crate::date::timepoint::error_log(old(self).errors@) + crate::date::timepoint::error_log(errors@),
            final(self).statements == old(self).statements,
            final(self).block_start == old(self).block_start,
            final(self).scope == old(self).scope,
    {
        let mut copies = crate::date::timepoint::duplicate_errors(errors);
        let ghost before = self.errors@;
        self.errors.append(&mut copies);
        assert(crate::date::timepoint::error_log(self.errors@) =~= crate::date::timepoint::error_log(before) + crate::date::timepoint::error_log(errors@));
    }
}

impl FunctionDefExpr {
    /// A copy of this definition.
    pub fn duplicate(&self) -> (d: FunctionDefExpr)
        ensures
            d.id@ == self.id@,
            d.id_range == self.id_range,
            names_view(d.arg_names@) == names_view(self.arg_names@),
            d.range == self.range,
    {
        let mut arg_names: Vec<String> = Vec::new();
        let mut i: usize = 0;
        while i < self.arg_names.len()
            invariant
                0 <= i <= self.arg_names@.len(),
                names_view(arg_names@) == names_view(self.arg_names@).take(i as int),
            decreases self.arg_names@.len() - i,
        {
            let ghost before = arg_names@;
            arg_names.push(self.arg_names[i].clone());
            assert(names_view(arg_names@) =~= names_view(before).push(names_view(self.arg_names@)[i as int]));
            assert(names_view(self.arg_names@).take(i + 1) =~= names_view(self.arg_names@).take(i as int).push(names_view(self.arg_names@)[i as int]));
            i = i + 1;
        }
        assert(names_view(self.arg_names@).take(i as int) =~= names_view(self.arg_names@));
        FunctionDefExpr { id: self.id.clone(), id_range: self.id_range, arg_names, range: self.range }
    }
}

} // verus!
