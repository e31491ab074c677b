use vstd::prelude::*;
use crate::errors;
use crate::errors::{Error, ErrorId};
use crate::functions::{has_key, table_keys};
use crate::globals::{Globals, char_range_ok, chars_in_bytes};
use crate::parser::grammar::{
    ReadAt, one_postfix, postfix_chain, postfix_operand, assign_parse, statement_parse, factor_parse, juxt_chain, juxt_parse, list_chain, list_parse, paren_of, postfix_parse, power_parse,
    product_chain, product_parse, read_at, reduced_from, sum_chain, sum_parse, taken, unary_parse,
};
use crate::parser::statement_grammar::{
    StatementTrace, define_read, function_read, line_walk, on_line, reread, statement_read, statements_chain,
    statements_read, statements_stop, walk_before, after_statement, mute_skipped, body_read,
    lemma_line_walk_concat, lemma_stray_kept, stray_reported,
};
use crate::parser::nodes::{
    AssignExpr, AssignableExpr, BinExpr, CustomFunctionDef, BlockScope, CallExpr, CodeBlock, CommentExpr, ConstExpr, ConstType,
    Define, DefineExpr, DefineType, FunctionDefExpr, HasRange, IdExpr, ListExpr, Node, NodeType, NoneExpr,
    PostfixExpr, Statement, UnaryExpr, UnitExpr, function_names, names_view, list_ok, statements_ok, type_ok, type_range,
    lemma_type_range_source,
};
use crate::resolver::unit::Unit;
use crate::text::str_eq;
use crate::tokenizer::{Token, hex_ok, spec_next_token};
use crate::tokenizer::cursor::Range;
use crate::tokenizer::peeking_tokenizer::{PeekingTokenizer, lemma_peeked_ok};
use crate::tokenizer::token_type::TokenType;

pub mod nodes;
pub mod grammar;
pub mod statement_grammar;
pub mod outline;

verus! {

/// A token kind that starts a primary expression.
pub open spec fn primary_start(k: TokenType) -> bool {
    k == TokenType::Number || k == TokenType::Id || k == TokenType::ParOpen || k == TokenType::Pipe
        || k == TokenType::QuotedStr
}

/// A token kind that starts an expression.
pub open spec fn expr_start(k: TokenType) -> bool {
    primary_start(k) || k == TokenType::Min
}

/// The kind of the token after the one peeked.
pub open spec fn second_kind<'t>(tok: &PeekingTokenizer<'t>) -> TokenType {
    spec_next_token(tok.text(), tok.after_peeked()).unwrap().1.kind
}

/// A token kind that makes an assignment of the identifier before it.
pub open spec fn is_assign_op(k: TokenType) -> bool {
    k == TokenType::Eq || k == TokenType::EqPlus || k == TokenType::EqMin || k == TokenType::EqMult
        || k == TokenType::EqDiv || k == TokenType::EqUnit
}

/// The operator that an assignment `id op= e` applies to `id` and `e`.
pub open spec fn assign_bin_op(k: TokenType) -> TokenType {
    if k == TokenType::EqPlus {
        TokenType::Plus
    } else if k == TokenType::EqMin {
        TokenType::Min
    } else if k == TokenType::EqMult {
        TokenType::Mult
    } else {
        TokenType::Div
    }
}

/// A token kind that mutes statements or ends muting.
pub open spec fn is_mute_kind(k: TokenType) -> bool {
    k == TokenType::MuteLine || k == TokenType::MuteStart || k == TokenType::MuteEnd
}

/// The kind of the token that decides what a statement is: the first, or the second
/// after a muting token.
pub open spec fn statement_kind<'t>(tok: &PeekingTokenizer<'t>) -> TokenType {
    if is_mute_kind(tok.peeked().kind) {
        second_kind(tok)
    } else {
        tok.peeked().kind
    }
}

/// The names of the parameters of a function definition, read from the token `tk` (the
/// first after the `(`), the reader standing at `cv` after it: identifiers separated by
/// commas.
pub open spec fn params_from(t: Seq<char>, tk: crate::tokenizer::TokenView, cv: crate::tokenizer::cursor::CursorView) -> Seq<Seq<char>>
    decreases t.len() - cv.pos,
{
    if tk.kind != TokenType::Id {
        Seq::empty()
    } else {
        let name = chars_in_bytes(t, tk.start, tk.end);
        match spec_next_token(t, cv) {
            Some((cv2, tk2)) => if tk2.kind == TokenType::Comma {
                match spec_next_token(t, cv2) {
                    Some((cv3, tk3)) => if cv.pos < cv3.pos <= t.len() {
                        seq![name] + params_from(t, tk3, cv3)
                    } else {
                        seq![name]
                    },
                    None => seq![name],
                }
            } else {
                seq![name]
            },
            None => seq![name],
        }
    }
}

/// Where a reader of the parameters of a function definition stands once it has read
/// them, starting at the token `tk` with the cursor `cv` after it: at the first token
/// that does not continue the list.
pub open spec fn params_end(t: Seq<char>, tk: crate::tokenizer::TokenView, cv: crate::tokenizer::cursor::CursorView) -> ReadAt
    decreases t.len() - cv.pos,
{
    if tk.kind != TokenType::Id {
        (tk, cv)
    } else {
        match spec_next_token(t, cv) {
            Some((cv2, tk2)) => if tk2.kind == TokenType::Comma {
                match spec_next_token(t, cv2) {
                    Some((cv3, tk3)) => if cv.pos < cv3.pos <= t.len() {
                        params_end(t, tk3, cv3)
                    } else {
                        (tk3, cv3)
                    },
                    None => (tk2, cv2),
                }
            } else {
                (tk2, cv2)
            },
            None => (tk, cv),
        }
    }
}

/// The function named `name` is recorded in `defs` with the body `stmts`.
pub open spec fn body_statements_recorded(defs: Seq<CustomFunctionDef>, name: Seq<char>, stmts: Seq<Statement>) -> bool {
    exists|i: int| #![trigger defs[i]] 0 <= i < defs.len() && defs[i].name@ == name && defs[i].code_block.statements@ == stmts
}

/// The function `f` is recorded in `defs`, with a body whose block starts at the token
/// `body_open`, a `{`, and holds well-formed statements of source `src`, whose text is
/// `t`, read by the grammar.
pub open spec fn body_recorded(defs: Seq<CustomFunctionDef>, f: FunctionDefExpr, body_open: crate::tokenizer::TokenView, src: crate::globals::SourceIndex, t: Seq<char>) -> bool {
    exists|i: int| #![trigger defs[i]] 0 <= i < defs.len() && {
        let d = defs[i];
        &&& d.name@ == f.id@
        &&& d.function_def_expr.id@ == f.id@
        &&& d.function_def_expr.id_range == f.id_range
        &&& d.function_def_expr.range == f.range
        &&& names_view(d.function_def_expr.arg_names@) == names_view(f.arg_names@)
        &&& d.code_block.block_start.source_index == src
        &&& d.code_block.block_start.start as int == body_open.start
        &&& d.code_block.block_start.end as int == body_open.end
        &&& body_open.kind == TokenType::CurlOpen
        &&& statements_ok(d.code_block.statements@, src, d.code_block.statements@.len() as int)
        &&& forall|j: int| 0 <= j < d.code_block.statements@.len()
            ==> statement_parse(t, (#[trigger] d.code_block.statements@[j]).node.expr)
    }
}

/// A parser of the statements of one source into a code block, recording errors.
pub struct Parser<'g, 'a, 't> {
    pub globals: &'g Globals,
    pub tok: &'a mut PeekingTokenizer<'t>,
    pub errors: &'a mut Vec<Error>,
    pub code_block: CodeBlock,
    pub mute_block: bool,
}

impl<'g, 'a, 't> Parser<'g, 'a, 't> {
    /// The reader is sound, reads a source of the globals, and its text can be read to
    /// its end.
    pub open spec fn inv(&self) -> bool {
        &&& self.tok.wf()
        &&& hex_ok(self.tok.text())
        &&& self.globals.wf()
        &&& (self.tok.source().0 as int) < self.globals.source_count()
        &&& self.globals.source_text(self.tok.source().0 as int) == self.tok.text()
    }

    /// What parsing a part of a statement keeps: the globals, the text and source read,
    /// the statements of the block and its start, and whether the block is muted; errors
    /// are only added, and the reader only moves forward.
    pub open spec fn frame_of(&self, old: &Self) -> bool {
        &&& self.globals == old.globals
        &&& self.tok.text() == old.tok.text()
        &&& self.tok.source() == old.tok.source()
        &&& self.tok.rest() <= old.tok.rest()
        &&& old.errors@.is_prefix_of(self.errors@)
        &&& self.code_block.statements == old.code_block.statements
        &&& self.code_block.block_start == old.code_block.block_start
        &&& self.mute_block == old.mute_block
    }

    /// A parser that adds the statements it reads from `tok` to `code_block`, recording
    /// errors in `errors`.
    pub fn new(globals: &'g Globals, tok: &'a mut PeekingTokenizer<'t>, errors: &'a mut Vec<Error>, code_block: CodeBlock) -> (p: Self)
        ensures
            p.globals == globals,
            *p.tok == *old(tok),
            *final(p.tok) == *final(tok),
            *p.errors == *old(errors),
            *final(p.errors) == *final(errors),
            p.code_block == code_block,
            !p.mute_block,
    {
        Parser { globals, tok, errors, code_block, mute_block: false }
    }

    /// The block parsed.
    pub fn into(self) -> (b: CodeBlock)
        ensures
            b == self.code_block,
    {
        self.code_block
    }

    /// The text of bytes `range` of the source read.
    fn text_of(&self, range: &Range) -> (r: &'g str)
        requires
            self.inv(),
            range.source_index == self.tok.source(),
            char_range_ok(self.tok.text(), range.start as int, range.end as int),
        ensures
            r@ == chars_in_bytes(self.globals.source_text(range.source_index.0 as int), range.start as int, range.end as int),
    {
        self.globals.get_text(range)
    }

    /// Takes the next token if it is of kind `token_type`.
    fn match_token(&mut self, token_type: TokenType) -> (r: bool)
        requires
            old(self).inv(),
        ensures
            final(self).inv(),
            final(self).frame_of(old(self)),
            *final(final(self).tok) == *final(old(self).tok),
            *final(final(self).errors) == *final(old(self).errors),
            final(self).code_block == old(self).code_block,
            r == (old(self).tok.peeked().kind == token_type),
            r ==> final(self).tok.rest() < old(self).tok.rest() || token_type == TokenType::Eot,
            !r ==> *final(self).tok == *old(self).tok,
            r ==> spec_next_token(old(self).tok.text(), old(self).tok.after_peeked())
                == Some((final(self).tok.after_peeked(), final(self).tok.peeked().view())),
            final(self).errors@ == old(self).errors@,
    {
        if self.tok.peek().kind != token_type {
            return false;
        }
        self.tok.next();
        true
    }

    /// A number constant, from the number token peeked.
    fn parse_number_expr(&mut self) -> (r: Box<Node>)
        requires
            old(self).inv(),
            old(self).tok.peeked().kind == TokenType::Number,
        ensures
            final(self).inv(),
            final(self).frame_of(old(self)),
            *final(final(self).tok) == *final(old(self).tok),
            *final(final(self).errors) == *final(old(self).errors),
            final(self).code_block == old(self).code_block,
            type_ok(r.expr, old(self).tok.source()),
            !(r.expr is Assign),
            final(self).tok.rest() < old(self).tok.rest(),
            final(self).errors@ == old(self).errors@,
            is_number_const(r.expr, old(self).tok.peeked().range, old(self).tok.after_peeked().number),
            read_at(&*final(self).tok) == taken(old(self).tok.text(), read_at(&*old(self).tok)),
    {
        proof {
            lemma_peeked_ok(&*self.tok);
        }
        let token = self.tok.next();
        Node::boxed(NodeType::Const(ConstExpr { const_type: ConstType::Numeric { number: self.tok.get_number() }, range: token.range }))
    }

    /// A call of the function `function_name`, whose name token was taken: its
    /// arguments in parentheses.
    fn parse_call_expr(&mut self, function_name: Token) -> (r: Box<Node>)
        requires
            old(self).inv(),
            function_name.range.source_index == old(self).tok.source(),
            char_range_ok(old(self).tok.text(), function_name.range.start as int, function_name.range.end as int),
        ensures
            final(self).inv(),
            final(self).frame_of(old(self)),
            *final(final(self).tok) == *final(old(self).tok),
            *final(final(self).errors) == *final(old(self).errors),
            final(self).code_block == old(self).code_block,
            type_ok(r.expr, old(self).tok.source()),
            !(r.expr is Assign),
            old(self).tok.peeked().kind != TokenType::ParOpen ==> r.expr == NodeType::NONE(NoneExpr { token: function_name })
                && r.has_errors && final(self).errors@.len() == old(self).errors@.len() + 1
                && final(self).errors@.last().id == crate::errors::ErrorId::FuncNoOpenPar
                && final(self).errors@.last().range == function_name.range,
            old(self).tok.peeked().kind == TokenType::ParOpen ==> (r.expr is NONE || (r.expr matches NodeType::Call(c)
                && c.function_name@ == chars_in_bytes(old(self).tok.text(), function_name.range.start as int, function_name.range.end as int)
                && c.function_name_range == function_name.range)),
            r.expr matches NodeType::Call(c) ==> ({
                let tx = old(self).tok.text();
                exists|nodes: Seq<Box<Node>>, k: ReadAt| #[trigger] list_parse(tx, taken(tx, read_at(&*old(self).tok)), k, nodes)
                    && read_at(&*final(self).tok) == taken(tx, k)
                    && (c.arguments@ == nodes || (nodes.len() == 1 && nodes[0].expr is NONE && c.arguments@.len() == 0))
            }),
        decreases old(self).tok.rest(), 6int,
    {
        let func_name_str = self.text_of(&function_name.range);
        if self.tok.peek().kind != TokenType::ParOpen {
            let error = errors::func_no_open_par(func_name_str, function_name.range);
            self.errors.push(error);
            let mut node = Node::new(NodeType::NONE(NoneExpr { token: function_name }));
            node.has_errors = true;
            return Box::new(node);
        }
        proof {
            lemma_peeked_ok(&*self.tok);
        }
        self.tok.next();
        let ghost s1 = read_at(&*self.tok);
        let mut list_expr = self.parse_list_expr();
        let ghost k = read_at(&*self.tok);
        let ghost nodes = list_expr.nodes@;
        if list_expr.nodes.len() == 1 {
            let first_is_eot = match &list_expr.nodes[0].expr {
                NodeType::NONE(none_expr) => Some(none_expr.token.kind == TokenType::Eot),
                _ => None,
            };
            match first_is_eot {
                Some(true) => {
                    let error = errors::eos(function_name.range);
                    self.errors.push(error);
                    let mut node = Node::new(NodeType::NONE(NoneExpr { token: function_name }));
                    node.has_errors = true;
                    return Box::new(node);
                },
                Some(false) => {
                    list_expr.nodes.clear();
                },
                None => {},
            }
        }
        proof {
            lemma_peeked_ok(&*self.tok);
        }
        if self.tok.peek().kind != TokenType::ParClose {
            self.errors.push(errors::expected(")", self.tok.peek().range));
        }
        proof {
            lemma_peeked_ok(&*self.tok);
        }
        let ghost args = list_expr.nodes@;
        let par_close = self.tok.next();
        let r = Node::boxed(NodeType::Call(CallExpr {
            function_name: String::from_str(func_name_str),
            function_name_range: function_name.range,
            arguments: list_expr.nodes,
            par_close_range: par_close.range,
        }));
        proof {
            let tx = old(self).tok.text();
            assert(s1 == taken(tx, read_at(&*old(self).tok)));
            assert(read_at(&*self.tok) == taken(tx, k));
            assert(args == nodes || (nodes.len() == 1 && nodes[0].expr is NONE && args.len() == 0));
            assert(list_parse(tx, s1, k, nodes));
        }
        r
    }

    /// The absolute value `|expr|`, whose opening `|` was taken.
    fn parse_abs_operator(&mut self, token: Token) -> (r: Box<Node>)
        requires
            old(self).inv(),
            token.range.source_index == old(self).tok.source(),
        ensures
            final(self).inv(),
            final(self).frame_of(old(self)),
            *final(final(self).tok) == *final(old(self).tok),
            *final(final(self).errors) == *final(old(self).errors),
            final(self).code_block == old(self).code_block,
            type_ok(r.expr, old(self).tok.source()),
            !(r.expr is Assign),
            r.expr matches NodeType::Call(c) && c.function_name@ == "abs"@ && c.function_name_range == token.range
                && c.arguments@.len() == 1,
            r.expr matches NodeType::Call(c) && exists|k: ReadAt| #[trigger] sum_parse(old(self).tok.text(), read_at(&*old(self).tok), k, c.arguments@[0])
                && read_at(&*final(self).tok) == taken(old(self).tok.text(), k),
        decreases old(self).tok.rest(), 16int,
    {
        let expr = self.parse_add_expr();
        let ghost k = read_at(&*self.tok);
        let ghost arg = expr;
        proof {
            lemma_peeked_ok(&*self.tok);
        }
        if self.tok.peek().kind != TokenType::Pipe {
            self.errors.push(errors::expected("|", self.tok.peek().range));
        }
        proof {
            lemma_peeked_ok(&*self.tok);
        }
        let par_close = self.tok.next();
        let mut arguments: Vec<Box<Node>> = Vec::new();
        arguments.push(expr);
        proof {
            assert(arguments@[0] == arg);
            assert(sum_parse(old(self).tok.text(), read_at(&*old(self).tok), k, arg));
            assert(read_at(&*self.tok) == taken(old(self).tok.text(), k));
        }
        let r = Node::boxed(NodeType::Call(CallExpr {
            function_name: String::from_str("abs"),
            function_name_range: token.range,
            arguments,
            par_close_range: par_close.range,
        }));
        proof {
            let tx = old(self).tok.text();
            let c = r.expr->Call_0;
            assert(c.arguments@[0] == arg);
            assert(sum_parse(tx, read_at(&*old(self).tok), k, c.arguments@[0]) && read_at(&*self.tok) == taken(tx, k));
        }
        r
    }

    /// A number, a name or call, an expression in parentheses, an absolute value or a
    /// quoted text; nothing (without an error yet) where none of these starts.
    fn parse_primary_expr(&mut self) -> (r: Box<Node>)
        requires
            old(self).inv(),
        ensures
            final(self).inv(),
            final(self).frame_of(old(self)),
            *final(final(self).tok) == *final(old(self).tok),
            *final(final(self).errors) == *final(old(self).errors),
            final(self).code_block == old(self).code_block,
            type_ok(r.expr, old(self).tok.source()),
            !(r.expr is Assign),
            old(self).tok.peeked().kind == TokenType::Number
                ==> is_number_const(r.expr, old(self).tok.peeked().range, old(self).tok.after_peeked().number),
            old(self).tok.peeked().kind == TokenType::QuotedStr
                ==> r.expr == NodeType::Const(ConstExpr { const_type: ConstType::FormattedString, range: old(self).tok.peeked().range }),
            old(self).tok.peeked().kind == TokenType::Pipe ==> (r.expr matches NodeType::Call(c) && c.function_name@ == "abs"@
                && c.function_name_range == old(self).tok.peeked().range && c.arguments@.len() == 1
                && exists|k: ReadAt| #[trigger] sum_parse(old(self).tok.text(), taken(old(self).tok.text(), read_at(&*old(self).tok)), k, c.arguments@[0])
                    && read_at(&*final(self).tok) == taken(old(self).tok.text(), k)),
            old(self).tok.peeked().kind == TokenType::Id ==> ({
                let t = old(self).tok.peeked();
                let name = chars_in_bytes(old(self).tok.text(), t.range.start as int, t.range.end as int);
                if old(self).code_block.scope.visible_functions().contains(name)
                    || table_keys(old(self).globals.global_function_defs@).contains(name) {
                    r.expr is NONE || (r.expr matches NodeType::Call(c) && c.function_name@ == name && c.function_name_range == t.range)
                } else {
                    r.expr == NodeType::Id(IdExpr { id: t })
                }
            }),
            !primary_start(old(self).tok.peeked().kind) ==> r.expr == NodeType::NONE(NoneExpr { token: old(self).tok.peeked() }),
            primary_step(old(self).tok.text(), old(self).code_block.scope.visible_functions()
                + table_keys(old(self).globals.global_function_defs@), read_at(&*old(self).tok), read_at(&*final(self).tok), r),
            final(self).tok.rest() < old(self).tok.rest()
                || (*final(self).tok == *old(self).tok && !primary_start(old(self).tok.peeked().kind)),
            old(self).tok.peeked().kind == TokenType::ParOpen ==> ({
                let tx = old(self).tok.text();
                exists|nodes: Seq<Box<Node>>, k: ReadAt| #[trigger] list_parse(tx, taken(tx, read_at(&*old(self).tok)), k, nodes)
                    && paren_of(r, nodes)
                    && read_at(&*final(self).tok) == (if k.0.kind == TokenType::ParClose { taken(tx, k) } else { k })
            }),
        decreases old(self).tok.rest(), 7int,
    {
        proof {
            lemma_peeked_ok(&*self.tok);
        }
        let kind = self.tok.peek().kind;
        if kind == TokenType::Number {
            self.parse_number_expr()
        } else if kind == TokenType::Id {
            let t = self.tok.next();
            let id = self.text_of(&t.range);
            proof {
                lemma_concat_contains(old(self).code_block.scope.visible_functions(),
                    table_keys(old(self).globals.global_function_defs@), id@);
            }
            if self.function_exists(id) {
                return self.parse_call_expr(t);
            }
            Node::boxed(NodeType::Id(IdExpr { id: t }))
        } else if kind == TokenType::ParOpen {
            self.tok.next();
            let list = self.parse_list_expr();
            let ghost k = read_at(&*self.tok);
            let ghost nodes = list.nodes@;
            let boxed = Node::boxed(NodeType::List(list));
            let mut expr = Parser::reduce_list(boxed);
            proof {
                crate::parser::nodes::lemma_list_ok_elem(nodes, old(self).tok.source(), nodes.len() as int, 0);
                assert(type_ok(boxed.expr, old(self).tok.source()));
                assert(type_ok(expr.expr, old(self).tok.source()));
            }
            if !self.match_token(TokenType::ParClose) {
                proof {
                    lemma_type_range_source(expr.expr, self.tok.source());
                }
                let error = errors::expected(")", expr.get_range());
                self.errors.push(error);
            }
            let ghost reduced = expr;
            if let NodeType::Binary(ref mut bin_expr) = &mut expr.expr {
                bin_expr.implicit_mult = false;
            }
            proof {
                let tx = old(self).tok.text();
                assert(reduced == nodes[0] || nodes.len() != 1);
                assert(paren_of(expr, nodes));
                assert(list_parse(tx, taken(tx, read_at(&*old(self).tok)), k, nodes));
            }
            expr
        } else if kind == TokenType::Pipe {
            let t = self.tok.next();
            let ghost s_after = read_at(&*self.tok);
            let r = self.parse_abs_operator(t);
            proof {
                let tx = old(self).tok.text();
                assert(s_after == taken(tx, read_at(&*old(self).tok)));
                let c = r.expr->Call_0;
                let k = choose|k: ReadAt| #[trigger] sum_parse(tx, s_after, k, c.arguments@[0])
                    && read_at(&*self.tok) == taken(tx, k);
                assert(sum_parse(tx, taken(tx, read_at(&*old(self).tok)), k, c.arguments@[0]));
            }
            r
        } else if kind == TokenType::QuotedStr {
            let t = self.tok.next();
            Node::boxed(NodeType::Const(ConstExpr { const_type: ConstType::FormattedString, range: t.range }))
        } else {
            Node::boxed(NodeType::NONE(NoneExpr { token: *self.tok.peek() }))
        }
    }

    /// Whether a function named `id` can be called here: one defined in this block or
    /// one around it, or a built-in one.
    fn function_exists(&self, id: &str) -> (r: bool)
        ensures
            r == (self.code_block.scope.visible_functions().contains(id@)
                || table_keys(self.globals.global_function_defs@).contains(id@)),
    {
        self.code_block.scope.has_function(id) || has_key(&self.globals.global_function_defs, id)
    }

    /// A primary expression, and a unit glued to it where an identifier follows that is
    /// not a variable of this block (a second unit wraps the expression in a unit node).
    fn parse_unit_expr(&mut self) -> (r: Box<Node>)
        requires
            old(self).inv(),
        ensures
            final(self).inv(),
            final(self).frame_of(old(self)),
            *final(final(self).tok) == *final(old(self).tok),
            *final(final(self).errors) == *final(old(self).errors),
            final(self).code_block == old(self).code_block,
            type_ok(r.expr, old(self).tok.source()),
            !(r.expr is Assign),
            final(self).tok.rest() < old(self).tok.rest()
                || (*final(self).tok == *old(self).tok && !primary_start(old(self).tok.peeked().kind)),
            unit_step(old(self).tok.text(), old(self).code_block.scope.visible_functions()
                + table_keys(old(self).globals.global_function_defs@), old(self).code_block.scope.var_names(),
                read_at(&*old(self).tok), read_at(&*final(self).tok), r),
        decreases old(self).tok.rest(), 9int,
    {
        let mut expr = self.parse_primary_expr();
        let ghost e = expr;
        let ghost sp = read_at(&*self.tok);
        let ghost fns = old(self).code_block.scope.visible_functions() + table_keys(old(self).globals.global_function_defs@);
        let ghost vars = old(self).code_block.scope.var_names();
        let ghost tx = old(self).tok.text();
        proof {
            lemma_peeked_ok(&*self.tok);
        }
        if self.tok.peek().kind == TokenType::Id {
            let id_range = self.tok.peek().range;
            let id_str = self.text_of(&id_range);
            if self.code_block.scope.has_var(id_str) {
                proof {
                    assert(primary_step(tx, fns, read_at(&*old(self).tok), sp, e));
                    assert(glued_unit(tx, vars, sp, read_at(&*self.tok), e, expr));
                }
                return expr;
            }
            let id = self.tok.next();
            if expr.unit.is_empty() {
                expr.unit = Unit::from_id(id_str);
            } else {
                let mut unit_node = Node::new(NodeType::Unit(UnitExpr { node: expr, range: id.range }));
                unit_node.unit = Unit::from_id(id_str);
                let r = Box::new(unit_node);
                proof {
                    assert(primary_step(tx, fns, read_at(&*old(self).tok), sp, e));
                    assert(glued_unit(tx, vars, sp, read_at(&*self.tok), e, r));
                }
                return r;
            }
            proof {
                assert(primary_step(tx, fns, read_at(&*old(self).tok), sp, e));
                assert(glued_unit(tx, vars, sp, read_at(&*self.tok), e, expr));
            }
        } else {
            proof {
                assert(primary_step(tx, fns, read_at(&*old(self).tok), sp, e));
                assert(glued_unit(tx, vars, sp, read_at(&*self.tok), e, expr));
            }
        }
        expr
    }

    /// A call of the function `function_name` on `arg`, standing for an operator at
    /// `range`.
    fn create_call_for_operator(function_name: &str, arg: Box<Node>, range: &Range) -> (r: Box<Node>)
        ensures
            is_operator_call(r.expr, function_name@, *range, arg),
            r.unit.id@.len() == 0,
            !r.has_errors,
    {
        let mut arguments: Vec<Box<Node>> = Vec::new();
        arguments.push(arg);
        Node::boxed(NodeType::Call(CallExpr {
            function_name: String::from_str(function_name),
            function_name_range: *range,
            arguments,
            par_close_range: *range,
        }))
    }

    /// One postfix operator applied to `node`: `.` with a unit (or none, which clears
    /// the unit), `++`, `--` or `!`.
    fn parse_one_postfix(&mut self, node: Box<Node>) -> (r: Box<Node>)
        requires
            old(self).inv(),
            spec_is_postfix_kind(old(self).tok.peeked().kind),
            type_ok(node.expr, old(self).tok.source()),
        ensures
            final(self).inv(),
            final(self).frame_of(old(self)),
            *final(final(self).tok) == *final(old(self).tok),
            *final(final(self).errors) == *final(old(self).errors),
            final(self).code_block == old(self).code_block,
            type_ok(r.expr, old(self).tok.source()),
            !(r.expr is Assign),
            final(self).tok.rest() < old(self).tok.rest(),
            final(self).errors@ == old(self).errors@,
            old(self).tok.peeked().kind == TokenType::Dot ==> (r.expr matches NodeType::Postfix(p) && p.node == node
                && (second_kind(&*old(self).tok) == TokenType::Id
                    ==> p.postfix_id.view() == spec_next_token(old(self).tok.text(), old(self).tok.after_peeked()).unwrap().1)
                && (second_kind(&*old(self).tok) != TokenType::Id
                    ==> p.postfix_id == Token { kind: TokenType::ClearUnit, range: old(self).tok.peeked().range })),
            old(self).tok.peeked().kind == TokenType::Inc ==> is_operator_call(r.expr, "inc"@, old(self).tok.peeked().range, node),
            old(self).tok.peeked().kind == TokenType::Dec ==> is_operator_call(r.expr, "dec"@, old(self).tok.peeked().range, node),
            old(self).tok.peeked().kind == TokenType::Exclam ==> is_operator_call(r.expr, "factorial"@, old(self).tok.peeked().range, node),
            one_postfix(old(self).tok.text(), read_at(&*old(self).tok), read_at(&*final(self).tok), r),
            postfix_operand(r) == node,
    {
        proof {
            lemma_peeked_ok(&*self.tok);
        }
        let kind = self.tok.peek().kind;
        if kind == TokenType::Dot {
            let dot = self.tok.next();
            proof {
                lemma_peeked_ok(&*self.tok);
            }
            let t = *self.tok.peek();
            let postfix_id = if t.kind == TokenType::Id {
                self.tok.next();
                t
            } else {
                Token { kind: TokenType::ClearUnit, range: Range { end: dot.range.end, ..dot.range } }
            };
            Node::boxed(NodeType::Postfix(PostfixExpr { postfix_id, node }))
        } else if kind == TokenType::Inc || kind == TokenType::Dec {
            let t = self.tok.next();
            let f_name = if t.kind == TokenType::Inc { "inc" } else { "dec" };
            Parser::create_call_for_operator(f_name, node, &t.range)
        } else {
            let t = self.tok.next();
            Parser::create_call_for_operator("factorial", node, &t.range)
        }
    }

    /// A unit expression followed by any number of postfix operators.
    fn parse_postfix_expr(&mut self) -> (r: Box<Node>)
        requires
            old(self).inv(),
        ensures
            final(self).inv(),
            final(self).frame_of(old(self)),
            *final(final(self).tok) == *final(old(self).tok),
            *final(final(self).errors) == *final(old(self).errors),
            final(self).code_block == old(self).code_block,
            type_ok(r.expr, old(self).tok.source()),
            !(r.expr is Assign),
            final(self).tok.rest() < old(self).tok.rest()
                || (*final(self).tok == *old(self).tok && !primary_start(old(self).tok.peeked().kind)),
            postfix_parse(old(self).tok.text(), read_at(&*old(self).tok), read_at(&*final(self).tok), r),
        decreases old(self).tok.rest(), 10int,
    {
        let ghost s0 = read_at(&*self.tok);
        let ghost mut ks: Seq<ReadAt> = Seq::empty();
        let mut expr = self.parse_unit_expr();
        while is_postfix_kind(self.tok.peek().kind)
            invariant
                s0 == read_at(&*old(self).tok),
                postfix_chain(old(self).tok.text(), s0, read_at(&*self.tok), expr, ks),
                self.inv(),
                self.frame_of(old(self)),
                self.code_block == old(self).code_block,
                *final(self.tok) == *final(old(self).tok),
                *final(self.errors) == *final(old(self).errors),
                type_ok(expr.expr, old(self).tok.source()),
                !(expr.expr is Assign),
                self.tok.rest() < old(self).tok.rest()
                    || (*self.tok == *old(self).tok && !primary_start(old(self).tok.peeked().kind)),
            decreases self.tok.rest(),
        {
            let ghost r0 = self.tok.rest();
            let ghost k = read_at(&*self.tok);
            let ghost e_old = expr;
            expr = self.parse_one_postfix(expr);
            assert(self.tok.rest() < r0);
            proof {
                let tx = old(self).tok.text();
                let ks2 = ks.push(k);
                assert(ks2.drop_last() =~= ks);
                assert(postfix_operand(expr) == e_old);
                assert(postfix_chain(tx, s0, read_at(&*self.tok), expr, ks2));
                ks = ks2;
            }
        }
        expr
    }

    /// A negation, or a postfix expression.
    fn parse_unary_expr(&mut self) -> (r: Box<Node>)
        requires
            old(self).inv(),
        ensures
            final(self).inv(),
            final(self).frame_of(old(self)),
            *final(final(self).tok) == *final(old(self).tok),
            *final(final(self).errors) == *final(old(self).errors),
            final(self).code_block == old(self).code_block,
            type_ok(r.expr, old(self).tok.source()),
            !(r.expr is Assign),
            old(self).tok.peeked().kind == TokenType::Min ==> (r.expr matches NodeType::Unary(u) && u.op == old(self).tok.peeked()),
            final(self).tok.rest() < old(self).tok.rest()
                || (*final(self).tok == *old(self).tok && !expr_start(old(self).tok.peeked().kind)),
            unary_parse(old(self).tok.text(), read_at(&*old(self).tok), read_at(&*final(self).tok), r),
        decreases old(self).tok.rest(), 11int,
    {
        proof {
            lemma_peeked_ok(&*self.tok);
        }
        if self.tok.peek().kind == TokenType::Min {
            let op = self.tok.next();
            let expr = self.parse_postfix_expr();
            return Node::boxed(NodeType::Unary(UnaryExpr { op, expr }));
        }
        self.parse_postfix_expr()
    }

    /// Unary expressions multiplied by juxtaposition: an identifier, a number or a
    /// parenthesised list right after an expression multiplies it.
    fn parse_implicit_mult(&mut self) -> (r: Box<Node>)
        requires
            old(self).inv(),
        ensures
            final(self).inv(),
            final(self).frame_of(old(self)),
            *final(final(self).tok) == *final(old(self).tok),
            *final(final(self).errors) == *final(old(self).errors),
            final(self).code_block == old(self).code_block,
            type_ok(r.expr, old(self).tok.source()),
            !(r.expr is Assign),
            final(self).tok.rest() < old(self).tok.rest()
                || (*final(self).tok == *old(self).tok && !expr_start(old(self).tok.peeked().kind)),
            juxt_parse(old(self).tok.text(), read_at(&*old(self).tok), read_at(&*final(self).tok), r),
        decreases old(self).tok.rest(), 12int,
    {
        let ghost s0 = read_at(&*self.tok);
        let ghost mut ks: Seq<ReadAt> = Seq::empty();
        let mut n1 = self.parse_unary_expr();
        while is_implicit_mult_start(self.tok.peek().kind)
            invariant
                juxt_chain(old(self).tok.text(), s0, read_at(&*self.tok), n1, ks),
                s0 == read_at(&*old(self).tok),
                self.inv(),
                self.frame_of(old(self)),
                self.code_block == old(self).code_block,
                *final(self.tok) == *final(old(self).tok),
                *final(self.errors) == *final(old(self).errors),
                type_ok(n1.expr, old(self).tok.source()),
                !(n1.expr is Assign),
                self.tok.rest() < old(self).tok.rest()
                    || (*self.tok == *old(self).tok && !expr_start(old(self).tok.peeked().kind)),
            decreases self.tok.rest(),
        {
            proof {
                lemma_peeked_ok(&*self.tok);
            }
            let ghost k = read_at(&*self.tok);
            let ghost n1_old = n1;
            let t = *self.tok.peek();
            let op = Token { kind: TokenType::Mult, range: t.range };
            let n2 = if t.kind == TokenType::ParOpen {
                let list = self.parse_list_expr();
                let ghost nodes = list.nodes@;
                let boxed = Node::boxed(NodeType::List(list));
                let reduced = Parser::reduce_list(boxed);
                proof {
                    crate::parser::nodes::lemma_list_ok_elem(nodes, old(self).tok.source(), nodes.len() as int, 0);
                    assert(type_ok(boxed.expr, old(self).tok.source()));
                    assert(type_ok(reduced.expr, old(self).tok.source()));
                }
                reduced
            } else {
                self.parse_postfix_expr()
            };
            let ghost e2 = n2;
            n1 = Node::boxed(NodeType::Binary(BinExpr { expr1: n1, op, expr2: n2, implicit_mult: true }));
            proof {
                let tx = old(self).tok.text();
                assert(factor_parse(tx, k, read_at(&*self.tok), e2));
                assert(op.view().start == k.0.start && op.view().end == k.0.end);
                assert(n1.expr matches NodeType::Binary(b) && b.expr1 == n1_old && b.expr2 == e2 && b.op == op);
                assert(juxt_chain(tx, s0, k, n1_old, ks));
                let ks2 = ks.push(k);
                assert(ks2.drop_last() =~= ks);
                assert(juxt_chain(tx, s0, read_at(&*self.tok), n1, ks2));
                ks = ks2;
            }
        }
        n1
    }

    /// Powers, right associative.
    fn parse_power_expr(&mut self) -> (r: Box<Node>)
        requires
            old(self).inv(),
        ensures
            final(self).inv(),
            final(self).frame_of(old(self)),
            *final(final(self).tok) == *final(old(self).tok),
            *final(final(self).errors) == *final(old(self).errors),
            final(self).code_block == old(self).code_block,
            type_ok(r.expr, old(self).tok.source()),
            !(r.expr is Assign),
            final(self).tok.rest() < old(self).tok.rest()
                || (*final(self).tok == *old(self).tok && !expr_start(old(self).tok.peeked().kind)),
            power_parse(old(self).tok.text(), read_at(&*old(self).tok), read_at(&*final(self).tok), r),
        decreases old(self).tok.rest(), 13int,
    {
        let ghost s0 = read_at(&*self.tok);
        let mut expr1 = self.parse_implicit_mult();
        while self.tok.peek().kind == TokenType::Power
            invariant
                juxt_parse(old(self).tok.text(), s0, read_at(&*self.tok), expr1)
                    || power_parse(old(self).tok.text(), s0, read_at(&*self.tok), expr1),
                s0 == read_at(&*old(self).tok),
                self.inv(),
                self.frame_of(old(self)),
                self.code_block == old(self).code_block,
                *final(self.tok) == *final(old(self).tok),
                *final(self.errors) == *final(old(self).errors),
                type_ok(expr1.expr, old(self).tok.source()),
                !(expr1.expr is Assign),
                self.tok.rest() < old(self).tok.rest()
                    || (*self.tok == *old(self).tok && !expr_start(old(self).tok.peeked().kind)),
            decreases self.tok.rest(),
        {
            proof {
                lemma_peeked_ok(&*self.tok);
            }
            let ghost k = read_at(&*self.tok);
            let ghost e_old = expr1;
            let op = self.tok.next();
            let expr2 = self.parse_power_expr();
            if expr1.expr.is_implicit_mult() || expr2.expr.is_implicit_mult() {
                proof {
                    lemma_type_range_source(expr1.expr, old(self).tok.source());
                    lemma_type_range_source(expr2.expr, old(self).tok.source());
                }
                let range = expr1.get_range().add(&expr2.get_range());
                self.errors.push(errors::w_pow_impl_mult(range));
            }
            expr1 = Node::boxed(NodeType::Binary(BinExpr { expr1, op, expr2, implicit_mult: false }));
            proof {
                let tx = old(self).tok.text();
                assert(juxt_parse(tx, s0, k, e_old));
                assert(power_parse(tx, s0, read_at(&*self.tok), expr1));
            }
        }
        expr1
    }

    /// Products, quotients and remainders, left associative; a divisor multiplied by
    /// juxtaposition is warned about.
    fn parse_mult_expr(&mut self) -> (r: Box<Node>)
        requires
            old(self).inv(),
        ensures
            final(self).inv(),
            final(self).frame_of(old(self)),
            *final(final(self).tok) == *final(old(self).tok),
            *final(final(self).errors) == *final(old(self).errors),
            final(self).code_block == old(self).code_block,
            type_ok(r.expr, old(self).tok.source()),
            !(r.expr is Assign),
            final(self).tok.rest() < old(self).tok.rest()
                || (*final(self).tok == *old(self).tok && !expr_start(old(self).tok.peeked().kind)),
            product_parse(old(self).tok.text(), read_at(&*old(self).tok), read_at(&*final(self).tok), r),
        decreases old(self).tok.rest(), 14int,
    {
        let ghost s0 = read_at(&*self.tok);
        let ghost mut ks: Seq<ReadAt> = Seq::empty();
        let mut expr1 = self.parse_power_expr();
        while is_mult_kind(self.tok.peek().kind)
            invariant
                product_chain(old(self).tok.text(), s0, read_at(&*self.tok), expr1, ks),
                s0 == read_at(&*old(self).tok),
                self.inv(),
                self.frame_of(old(self)),
                self.code_block == old(self).code_block,
                *final(self.tok) == *final(old(self).tok),
                *final(self.errors) == *final(old(self).errors),
                type_ok(expr1.expr, old(self).tok.source()),
                !(expr1.expr is Assign),
                self.tok.rest() < old(self).tok.rest()
                    || (*self.tok == *old(self).tok && !expr_start(old(self).tok.peeked().kind)),
            decreases self.tok.rest(),
        {
            proof {
                lemma_peeked_ok(&*self.tok);
            }
            let ghost k = read_at(&*self.tok);
            let ghost e_old = expr1;
            let op = self.tok.next();
            let ghost k1 = read_at(&*self.tok);
            let expr2 = self.parse_power_expr();
            let ghost e2 = expr2;
            if op.kind == TokenType::Div {
                if expr2.expr.is_implicit_mult() {
                    proof {
                        lemma_type_range_source(expr2.expr, old(self).tok.source());
                    }
                    self.errors.push(errors::w_div_impl_mult(expr2.get_range()));
                }
            }
            expr1 = Node::boxed(NodeType::Binary(BinExpr { expr1, op, expr2, implicit_mult: false }));
            proof {
                let tx = old(self).tok.text();
                assert(product_chain(tx, s0, k, e_old, ks));
                assert(k1 == taken(tx, k));
                assert(op.view() == k.0);
                assert(power_parse(tx, k1, read_at(&*self.tok), e2));
                assert(expr1.expr matches NodeType::Binary(b) && b.expr1 == e_old && b.expr2 == e2 && b.op == op);
                let ks2 = ks.push(k);
                assert(ks2.drop_last() =~= ks);
                assert(product_chain(tx, s0, read_at(&*self.tok), expr1, ks2));
                ks = ks2;
            }
        }
        expr1
    }

    /// Sums and differences, left associative.
    fn parse_add_expr(&mut self) -> (r: Box<Node>)
        requires
            old(self).inv(),
        ensures
            final(self).inv(),
            final(self).frame_of(old(self)),
            *final(final(self).tok) == *final(old(self).tok),
            *final(final(self).errors) == *final(old(self).errors),
            final(self).code_block == old(self).code_block,
            type_ok(r.expr, old(self).tok.source()),
            !(r.expr is Assign),
            final(self).tok.rest() < old(self).tok.rest()
                || (*final(self).tok == *old(self).tok && !expr_start(old(self).tok.peeked().kind)),
            sum_parse(old(self).tok.text(), read_at(&*old(self).tok), read_at(&*final(self).tok), r),
        decreases old(self).tok.rest(), 15int,
    {
        let ghost s0 = read_at(&*self.tok);
        let ghost mut ks: Seq<ReadAt> = Seq::empty();
        let mut expr1 = self.parse_mult_expr();
        while self.tok.peek().kind == TokenType::Plus || self.tok.peek().kind == TokenType::Min
            invariant
                sum_chain(old(self).tok.text(), s0, read_at(&*self.tok), expr1, ks),
                s0 == read_at(&*old(self).tok),
                self.inv(),
                self.frame_of(old(self)),
                self.code_block == old(self).code_block,
                *final(self.tok) == *final(old(self).tok),
                *final(self.errors) == *final(old(self).errors),
                type_ok(expr1.expr, old(self).tok.source()),
                !(expr1.expr is Assign),
                self.tok.rest() < old(self).tok.rest()
                    || (*self.tok == *old(self).tok && !expr_start(old(self).tok.peeked().kind)),
            decreases self.tok.rest(),
        {
            proof {
                lemma_peeked_ok(&*self.tok);
            }
            let ghost k = read_at(&*self.tok);
            let ghost e_old = expr1;
            let op = self.tok.next();
            let ghost k1 = read_at(&*self.tok);
            let expr2 = self.parse_mult_expr();
            let ghost e2 = expr2;
            expr1 = Node::boxed(NodeType::Binary(BinExpr { expr1, op, expr2, implicit_mult: false }));
            proof {
                let tx = old(self).tok.text();
                assert(sum_chain(tx, s0, k, e_old, ks));
                assert(k1 == taken(tx, k));
                assert(op.view() == k.0);
                assert(product_parse(tx, k1, read_at(&*self.tok), e2));
                assert(expr1.expr matches NodeType::Binary(b) && b.expr1 == e_old && b.expr2 == e2 && b.op == op);
                let ks2 = ks.push(k);
                assert(ks2.drop_last() =~= ks);
                assert(sum_chain(tx, s0, read_at(&*self.tok), expr1, ks2));
                ks = ks2;
            }
        }
        expr1
    }

    /// A comma-separated list of sums, ending after a sum of nothing.
    fn parse_list_expr(&mut self) -> (r: ListExpr)
        requires
            old(self).inv(),
        ensures
            final(self).inv(),
            final(self).frame_of(old(self)),
            *final(final(self).tok) == *final(old(self).tok),
            *final(final(self).errors) == *final(old(self).errors),
            final(self).code_block == old(self).code_block,
            r.nodes@.len() > 0,
            list_ok(r.nodes@, old(self).tok.source(), r.nodes@.len() as int),
            forall|i: int| 0 <= i < r.nodes@.len() ==> !((#[trigger] r.nodes@[i]).expr is Assign),
            final(self).tok.rest() < old(self).tok.rest()
                || (*final(self).tok == *old(self).tok && !expr_start(old(self).tok.peeked().kind)),
            list_parse(old(self).tok.text(), read_at(&*old(self).tok), read_at(&*final(self).tok), r.nodes@),
        decreases old(self).tok.rest(), 17int,
    {
        let ghost s0 = read_at(&*self.tok);
        let ghost mut ks: Seq<ReadAt> = Seq::empty();
        let mut list_expr = ListExpr { nodes: Vec::new() };
        let first = self.parse_add_expr();
        let mut last_none = matches!(first.expr, NodeType::NONE(_));
        list_expr.nodes.push(first);
        proof {
            assert(list_expr.nodes@[0] == first);
            assert(list_ok(list_expr.nodes@, old(self).tok.source(), 0));
        }
        while !last_none && self.tok.peek().kind == TokenType::Comma
            invariant
                self.inv(),
                self.frame_of(old(self)),
                self.code_block == old(self).code_block,
                *final(self.tok) == *final(old(self).tok),
                *final(self.errors) == *final(old(self).errors),
                list_expr.nodes@.len() > 0,
                list_ok(list_expr.nodes@, old(self).tok.source(), list_expr.nodes@.len() as int),
                forall|i: int| 0 <= i < list_expr.nodes@.len() ==> !((#[trigger] list_expr.nodes@[i]).expr is Assign),
                self.tok.rest() < old(self).tok.rest()
                    || (*self.tok == *old(self).tok && !expr_start(old(self).tok.peeked().kind)),
                s0 == read_at(&*old(self).tok),
                list_chain(old(self).tok.text(), s0, read_at(&*self.tok), list_expr.nodes@, ks),
                last_none == (list_expr.nodes@.last().expr is NONE),
            decreases self.tok.rest(),
        {
            proof {
                lemma_peeked_ok(&*self.tok);
            }
            let ghost k = read_at(&*self.tok);
            self.tok.next();
            let ghost k1 = read_at(&*self.tok);
            let expr = self.parse_add_expr();
            let is_none = matches!(expr.expr, NodeType::NONE(_));
            let ghost before = list_expr.nodes@;
            list_expr.nodes.push(expr);
            proof {
                assert(list_expr.nodes@.take(before.len() as int) =~= before);
                lemma_list_ok_push(before, expr, old(self).tok.source());
                let tx = old(self).tok.text();
                assert(k1 == taken(tx, k));
                let ks2 = ks.push(k);
                assert(ks2.drop_last() =~= ks);
                assert(list_expr.nodes@.drop_last() =~= before);
                assert(list_chain(tx, s0, read_at(&*self.tok), list_expr.nodes@, ks2));
                ks = ks2;
            }
            last_none = is_none;
        }
        list_expr
    }

    /// An assignment `id = list`, or `id op= sum` for `op` one of `+ - * /` (read as
    /// `id = id op sum`), or `id .= unit` (read as the unit applied to `id`); any other
    /// expression is a sum. An assignment records its variable in the block.
    fn parse_assign_expr(&mut self) -> (r: Box<Node>)
        requires
            old(self).inv(),
        ensures
            final(self).inv(),
            final(self).frame_of(old(self)),
            *final(final(self).tok) == *final(old(self).tok),
            *final(final(self).errors) == *final(old(self).errors),
            type_ok(r.expr, old(self).tok.source()),
            final(self).tok.rest() < old(self).tok.rest()
                || (*final(self).tok == *old(self).tok && !expr_start(old(self).tok.peeked().kind)),
            (r.expr is Assign) <==> (old(self).tok.peeked().kind == TokenType::Id && is_assign_op(second_kind(&*old(self).tok))),
            r.expr matches NodeType::Assign(a) ==> a.assignable.id == old(self).tok.peeked() && a.assignable.fragment is None,
            !(r.expr is Assign) ==> final(self).code_block == old(self).code_block,
            (r.expr is Assign) && second_kind(&*old(self).tok) == TokenType::Eq ==> final(self).code_block.scope.var_names()
                == ({
                    let t = old(self).tok.peeked();
                    let name = chars_in_bytes(old(self).tok.text(), t.range.start as int, t.range.end as int);
                    if old(self).code_block.scope.var_names().contains(name) {
                        old(self).code_block.scope.var_names()
                    } else {
                        old(self).code_block.scope.var_names().push(name)
                    }
                }),
            (r.expr is Assign) && second_kind(&*old(self).tok) != TokenType::Eq ==> final(self).code_block == old(self).code_block,
            r.expr matches NodeType::Assign(a) ==> (second_kind(&*old(self).tok) == TokenType::Eq
                ==> ((a.expr.expr matches NodeType::NONE(n) && n.token.kind == TokenType::Eot)
                    ==> final(self).errors@.len() > old(self).errors@.len()
                        && final(self).errors@.last().id == crate::errors::ErrorId::Eos)),
            r.expr matches NodeType::Assign(a) ==> (second_kind(&*old(self).tok) == TokenType::Eq ==> ({
                let tx = old(self).tok.text();
                exists|nodes: Seq<Box<Node>>| #[trigger] list_parse(tx, taken(tx, taken(tx, read_at(&*old(self).tok))), read_at(&*final(self).tok), nodes)
                    && reduced_from(a.expr, nodes)
            })),
            r.expr matches NodeType::Assign(a) ==> (is_assign_op(second_kind(&*old(self).tok)) && second_kind(&*old(self).tok) != TokenType::Eq
                && second_kind(&*old(self).tok) != TokenType::EqUnit ==> ({
                let tx = old(self).tok.text();
                a.expr.expr matches NodeType::Binary(b) && sum_parse(tx, taken(tx, taken(tx, read_at(&*old(self).tok))), read_at(&*final(self).tok), b.expr2)
            })),
            !(r.expr is Assign) ==> sum_parse(old(self).tok.text(), read_at(&*old(self).tok), read_at(&*final(self).tok), r),
            assign_parse(old(self).tok.text(), read_at(&*old(self).tok), read_at(&*final(self).tok), r),
            r.expr matches NodeType::Assign(a) ==> (second_kind(&*old(self).tok) == TokenType::EqUnit
                ==> (a.expr.expr matches NodeType::Postfix(p) && p.node.expr == NodeType::Id(IdExpr { id: old(self).tok.peeked() }))),
            r.expr matches NodeType::Assign(a) ==> (second_kind(&*old(self).tok) != TokenType::Eq && second_kind(&*old(self).tok) != TokenType::EqUnit
                ==> (a.expr.expr matches NodeType::Binary(b) && b.expr1.expr == NodeType::Id(IdExpr { id: old(self).tok.peeked() })
                    && b.op.kind == assign_bin_op(second_kind(&*old(self).tok)) && !b.implicit_mult)),
        decreases old(self).tok.rest(), 18int,
    {
        if self.tok.peek().kind != TokenType::Id {
            return self.parse_add_expr();
        }
        let op_type = self.tok.peek_second().kind;
        if !(op_type == TokenType::Eq || op_type == TokenType::EqPlus || op_type == TokenType::EqMin
            || op_type == TokenType::EqMult || op_type == TokenType::EqDiv || op_type == TokenType::EqUnit) {
            return self.parse_add_expr();
        }
        proof {
            lemma_peeked_ok(&*self.tok);
        }
        let id = self.tok.next();
        proof {
            lemma_peeked_ok(&*self.tok);
        }
        if op_type == TokenType::Eq {
            let eq = self.tok.next();
            let ghost k2 = read_at(&*self.tok);
            let list = self.parse_list_expr();
            let ghost k3 = read_at(&*self.tok);
            let ghost nodes = list.nodes@;
            let boxed = Node::boxed(NodeType::List(list));
            let expr = Parser::reduce_list(boxed);
            proof {
                crate::parser::nodes::lemma_list_ok_elem(nodes, old(self).tok.source(), nodes.len() as int, 0);
                assert(type_ok(boxed.expr, old(self).tok.source()));
            }
            let ends_text = match &expr.expr {
                NodeType::NONE(none_expr) => none_expr.token.kind == TokenType::Eot,
                _ => false,
            };
            if ends_text {
                self.errors.push(errors::eos(Range { start: eq.range.end, ..eq.range }));
            }
            let txt = self.text_of(&id.range);
            self.code_block.scope.add_var(String::from_str(txt));
            let ghost e = expr;
            let assign_expr = AssignExpr { assignable: AssignableExpr { id, fragment: None }, expr };
            proof {
                let tx = old(self).tok.text();
                assert(k2 == taken(tx, taken(tx, read_at(&*old(self).tok))));
                assert(k3 == read_at(&*self.tok));
                assert(list_parse(tx, k2, k3, nodes) && reduced_from(e, nodes));
            }
            return Node::boxed(NodeType::Assign(assign_expr));
        }
        let eq_op = self.tok.next();
        let id_expr = IdExpr { id };
        assert(type_ok(NodeType::Id(id_expr), old(self).tok.source()));
        let expr = if op_type == TokenType::EqUnit {
            proof {
                lemma_peeked_ok(&*self.tok);
            }
            let id_token = if self.tok.peek().kind == TokenType::Id {
                self.tok.next()
            } else {
                Token { kind: TokenType::ClearUnit, range: Range::none(self.tok.source_index()) }
            };
            Node::boxed(NodeType::Postfix(PostfixExpr { node: Node::boxed(NodeType::Id(id_expr)), postfix_id: id_token }))
        } else {
            let bin_op = if op_type == TokenType::EqPlus {
                TokenType::Plus
            } else if op_type == TokenType::EqMin {
                TokenType::Min
            } else if op_type == TokenType::EqMult {
                TokenType::Mult
            } else {
                TokenType::Div
            };
            let ghost k2 = read_at(&*self.tok);
            let expr2 = self.parse_add_expr();
            proof {
                let tx = old(self).tok.text();
                assert(k2 == taken(tx, taken(tx, read_at(&*old(self).tok))));
            }
            Node::boxed(NodeType::Binary(BinExpr {
                expr1: Node::boxed(NodeType::Id(id_expr)),
                op: Token { kind: bin_op, range: eq_op.range },
                expr2,
                implicit_mult: false,
            }))
        };
        proof {
            assert(type_ok(expr.expr, old(self).tok.source()));
            assert(id.range.source_index == old(self).tok.source());
        }
        Node::boxed(NodeType::Assign(AssignExpr { assignable: AssignableExpr { id, fragment: None }, expr }))
    }

    /// An expression statement: an assignment or expression, ended by `;`, the end of
    /// text or a `}`; anything else is taken and reported as a missing `;`.
    fn parse_expr_statement(&mut self) -> (r: Statement)
        requires
            old(self).inv(),
        ensures
            final(self).inv(),
            final(self).frame_of(old(self)),
            *final(final(self).tok) == *final(old(self).tok),
            *final(final(self).errors) == *final(old(self).errors),
            type_ok(r.node.expr, old(self).tok.source()),
            !r.mute,
            final(self).tok.rest() < old(self).tok.rest() || (*final(self).tok == *old(self).tok
                && (old(self).tok.peeked().kind == TokenType::Eot || old(self).tok.peeked().kind == TokenType::CurlClose)),
            exists|n: Box<Node>, s1: ReadAt| n.expr == r.node.expr
                && #[trigger] assign_parse(old(self).tok.text(), read_at(&*old(self).tok), s1, n)
                && read_at(&*final(self).tok) == if s1.0.kind == TokenType::Eot || s1.0.kind == TokenType::CurlClose {
                    s1
                } else {
                    taken(old(self).tok.text(), s1)
                },
        decreases old(self).tok.rest(), 19int,
    {
        let mut stmt = Statement { node: self.parse_assign_expr(), mute: false };
        let ghost n0 = stmt.node;
        let ghost s1 = read_at(&*self.tok);
        proof {
            lemma_peeked_ok(&*self.tok);
        }
        let kind = self.tok.peek().kind;
        if kind == TokenType::SemiColon {
            self.tok.next();
        } else if kind == TokenType::Eot || kind == TokenType::CurlClose {
        } else {
            let t = self.tok.next();
            self.errors.push(errors::expected(";", t.range));
            stmt.node.has_errors = true;
        }
        proof {
            assert(n0.expr == stmt.node.expr);
            assert(assign_parse(old(self).tok.text(), read_at(&*old(self).tok), s1, n0));
        }
        stmt
    }

    /// An echoed comment, if one is next.
    fn parse_echo_comment(&mut self) -> (r: Option<Statement>)
        requires
            old(self).inv(),
        ensures
            final(self).inv(),
            final(self).frame_of(old(self)),
            *final(final(self).tok) == *final(old(self).tok),
            *final(final(self).errors) == *final(old(self).errors),
            final(self).code_block == old(self).code_block,
            final(self).errors@ == old(self).errors@,
            old(self).tok.peeked().kind != TokenType::EchoCommentLine ==> r is None && *final(self).tok == *old(self).tok,
            old(self).tok.peeked().kind == TokenType::EchoCommentLine ==> r is Some && !r.unwrap().mute
                && r.unwrap().node.expr == NodeType::Comment(CommentExpr { token: old(self).tok.peeked() })
                && final(self).tok.rest() < old(self).tok.rest()
                && read_at(&*final(self).tok) == taken(old(self).tok.text(), read_at(&*old(self).tok)),
            r is Some ==> type_ok(r.unwrap().node.expr, old(self).tok.source()),
    {
        if self.tok.peek().kind != TokenType::EchoCommentLine {
            return None;
        }
        proof {
            lemma_peeked_ok(&*self.tok);
        }
        let token = self.tok.next();
        Some(Statement { node: Node::boxed(NodeType::Comment(CommentExpr { token })), mute: false })
    }

    /// One setting of a `#define` or `#undef`, named by the next token, which is taken;
    /// `precision` is followed by `=` and an integer. An unknown name, or a `precision`
    /// not so followed, is reported and gives nothing.
    #[verifier::rlimit(40)]
    #[verifier::spinoff_prover]
    fn parse_define(&mut self) -> (r: Option<Define>)
        requires
            old(self).inv(),
            on_line(old(self).tok.peeked().kind),
        ensures
            final(self).inv(),
            final(self).frame_of(old(self)),
            *final(final(self).tok) == *final(old(self).tok),
            *final(final(self).errors) == *final(old(self).errors),
            final(self).code_block == old(self).code_block,
            final(self).tok.rest() < old(self).tok.rest(),
            exists|steps: Seq<ReadAt>| #[trigger] line_walk(old(self).tok.text(), read_at(&*old(self).tok), read_at(&*final(self).tok), steps)
                && steps.len() > 0 && final(self).tok.before_peeked() == steps.last().1,
            r is Some ==> r.unwrap().range.source_index == old(self).tok.source(),
            ({
                let t = old(self).tok.peeked();
                let txt = chars_in_bytes(old(self).tok.text(), t.range.start as int, t.range.end as int);
                &&& txt != "precision"@ && spec_simple_define(txt) is Some
                    ==> r == Some(Define { define_type: spec_simple_define(txt).unwrap(), range: t.range })
                        && final(self).errors@ == old(self).errors@
                &&& txt != "precision"@ && spec_simple_define(txt) is None
                    ==> r is None && final(self).errors@.len() == old(self).errors@.len() + 1
                        && final(self).errors@.last().id == crate::errors::ErrorId::DefineNotDef
                        && final(self).errors@.last().range == t.range
                &&& txt == "precision"@ ==> (r is None && final(self).errors@.len() == old(self).errors@.len() + 1
                        && final(self).errors@.last().id == crate::errors::ErrorId::Expected)
                    || (r matches Some(d) && d.define_type is Precision && final(self).errors@ == old(self).errors@)
                &&& txt == "precision"@ ==> ({
                    let (s2, t2) = spec_next_token(old(self).tok.text(), old(self).tok.after_peeked()).unwrap();
                    let (s3, t3) = spec_next_token(old(self).tok.text(), s2).unwrap();
                    t2.kind == TokenType::Eq && t3.kind == TokenType::Number ==> (r matches Some(d)
                        && d.define_type matches DefineType::Precision { number } && number.view() == s3.number
                        && final(self).errors@ == old(self).errors@)
                })
            }),
    {
        proof {
            lemma_peeked_ok(&*self.tok);
        }
        let ghost tx = self.tok.text();
        let ghost k1 = read_at(&*self.tok);
        let token = self.tok.next();
        proof {
            let steps = seq![k1];
            assert(steps.drop_last() =~= Seq::<ReadAt>::empty());
            assert(line_walk(tx, k1, k1, Seq::<ReadAt>::empty()));
            assert(steps.last() == k1);
            assert(read_at(&*self.tok) == taken(tx, k1));
            assert(line_walk(tx, k1, read_at(&*self.tok), steps));
        }
        let txt = self.text_of(&token.range);
        if str_eq(txt, "precision") {
            proof {
                lemma_peeked_ok(&*self.tok);
            }
            let eq = *self.tok.peek();
            if eq.kind != TokenType::Eq {
                self.errors.push(errors::expected("=", eq.range));
                return None;
            }
            let ghost k2 = read_at(&*self.tok);
            self.tok.next();
            proof {
                lemma_peeked_ok(&*self.tok);
                let steps = seq![k1, k2];
                assert(steps.drop_last() =~= seq![k1]);
                assert(line_walk(tx, k1, read_at(&*self.tok), steps));
            }
            let int_token = *self.tok.peek();
            if int_token.kind != TokenType::Number {
                self.errors.push(errors::expected("an integer", int_token.range));
                return None;
            }
            let ghost k3 = read_at(&*self.tok);
            let number_token = self.tok.next();
            proof {
                let steps = seq![k1, k2, k3];
                assert(steps.drop_last() =~= seq![k1, k2]);
                assert(seq![k1, k2].drop_last() =~= seq![k1]);
                assert(line_walk(tx, k1, k3, seq![k1, k2]));
                assert(line_walk(tx, k1, read_at(&*self.tok), steps));
            }
            let number = self.tok.get_number();
            let range = token.range.add(&number_token.range);
            return Some(Define { define_type: DefineType::Precision { number }, range });
        }
        match simple_define(txt) {
            Some(define_type) => Some(Define { define_type, range: token.range }),
            None => {
                self.errors.push(errors::define_not_def(txt, token.range));
                None
            },
        }
    }

    /// A `#define` or `#undef` and the settings after it, up to the end of its line
    /// (newlines are tokens meanwhile) or a `;`; nothing if neither is next. Naming
    /// `strict` makes the block strict (`#define`) or not (`#undef`).
    fn parse_defines(&mut self) -> (r: Option<Statement>)
        requires
            old(self).inv(),
        ensures
            final(self).inv(),
            final(self).frame_of(old(self)),
            *final(final(self).tok) == *final(old(self).tok),
            *final(final(self).errors) == *final(old(self).errors),
            final(self).code_block.statements == old(self).code_block.statements,
            final(self).code_block.block_start == old(self).code_block.block_start,
            final(self).code_block.errors == old(self).code_block.errors,
            final(self).code_block.scope.var_defs == old(self).code_block.scope.var_defs,
            final(self).code_block.scope.local_function_defs == old(self).code_block.scope.local_function_defs,
            final(self).code_block.scope.outer_function_names == old(self).code_block.scope.outer_function_names,
            r is None ==> final(self).code_block.scope.strict == old(self).code_block.scope.strict,
            r matches Some(st) ==> (st.node.expr matches NodeType::Define(d) && final(self).code_block.scope.strict == if (exists|k: int|
                0 <= k < d.defines@.len() && (#[trigger] d.defines@[k]).define_type is Strict) {
                d.def_undef.kind == TokenType::Define
            } else {
                old(self).code_block.scope.strict
            }),
            !(old(self).tok.peeked().kind == TokenType::Define || old(self).tok.peeked().kind == TokenType::Undef)
                ==> r is None && *final(self).tok == *old(self).tok,
            (old(self).tok.peeked().kind == TokenType::Define || old(self).tok.peeked().kind == TokenType::Undef)
                ==> r is Some && final(self).tok.rest() < old(self).tok.rest(),
            r is Some ==> type_ok(r.unwrap().node.expr, old(self).tok.source()) && !r.unwrap().mute,
            r matches Some(st) ==> (st.node.expr matches NodeType::Define(d) && d.def_undef == old(self).tok.peeked()),
            r is Some ==> exists|steps: Seq<ReadAt>| #[trigger] define_read(old(self).tok.text(), read_at(&*old(self).tok),
                read_at(&*final(self).tok), steps),
    {
        let kind = self.tok.peek().kind;
        if !(kind == TokenType::Define || kind == TokenType::Undef) {
            return None;
        }
        proof {
            lemma_peeked_ok(&*self.tok);
        }
        let ghost tx = self.tok.text();
        let ghost s = read_at(&*self.tok);
        let t = self.tok.next();
        let ghost a = read_at(&*self.tok);
        self.tok.set_nl_is_token(true);
        let ghost b = read_at(&*self.tok);
        proof {
            assert(b == if a.1.nl_is_token { a } else { reread(tx, s.1, true) });
            assert(line_walk(tx, b, b, Seq::<ReadAt>::empty()));
        }
        let ghost mut steps: Seq<ReadAt> = Seq::empty();
        let ghost mut c_end: ReadAt = b;
        let mut defines: Vec<Define> = Vec::new();
        while self.tok.peek().kind != TokenType::Eot
            invariant_except_break
                line_walk(tx, b, read_at(&*self.tok), steps),
                self.tok.before_peeked() == walk_before(steps, s.1),
                c_end == read_at(&*self.tok),
            invariant
                tx == self.tok.text(),
                self.inv(),
                self.frame_of(old(self)),
                *final(self.tok) == *final(old(self).tok),
                *final(self.errors) == *final(old(self).errors),
                self.code_block == old(self).code_block,
                self.tok.rest() < old(self).tok.rest(),
                forall|i: int| 0 <= i < defines@.len() ==> (#[trigger] defines@[i]).range.source_index == old(self).tok.source(),
            ensures
                line_walk(tx, b, c_end, steps),
                !on_line(c_end.0.kind),
                if c_end.0.kind == TokenType::Newline || c_end.0.kind == TokenType::SemiColon {
                    read_at(&*self.tok) == taken(tx, c_end) && self.tok.before_peeked() == c_end.1
                } else {
                    read_at(&*self.tok) == c_end && self.tok.before_peeked() == walk_before(steps, s.1)
                },
            decreases self.tok.rest(),
        {
            let k = self.tok.peek().kind;
            if k == TokenType::Newline || k == TokenType::SemiColon {
                proof {
                    lemma_peeked_ok(&*self.tok);
                }
                self.tok.next();
                break;
            }
            let ghost before = read_at(&*self.tok);
            let d = self.parse_define();
            proof {
                let more = choose|more: Seq<ReadAt>| #[trigger] line_walk(tx, before, read_at(&*self.tok), more)
                    && more.len() > 0 && self.tok.before_peeked() == more.last().1;
                lemma_line_walk_concat(tx, b, before, read_at(&*self.tok), steps, more);
                assert((steps + more).last() == more.last());
                steps = steps + more;
                c_end = read_at(&*self.tok);
            }
            if let Some(define) = d {
                defines.push(define);
            }
        }
        let ghost e = read_at(&*self.tok);
        self.tok.set_nl_is_token(false);
        proof {
            if steps.len() == 0 {
                assert(c_end == b);
            } else {
                assert(c_end == taken(tx, steps.last()));
            }
            assert(define_read(tx, s, read_at(&*self.tok), steps));
        }
        let mut k: usize = 0;
        let mut has_strict = false;
        while k < defines.len()
            invariant
                0 <= k <= defines@.len(),
                has_strict == exists|m: int| 0 <= m < k && (#[trigger] defines@[m]).define_type is Strict,
            decreases defines@.len() - k,
        {
            if matches!(defines[k].define_type, DefineType::Strict) {
                has_strict = true;
            }
            k = k + 1;
        }
        if has_strict {
            self.code_block.scope.strict = t.kind == TokenType::Define;
        }
        proof {
            assert(define_read(tx, s, read_at(&*self.tok), steps));
        }
        Some(Statement { mute: false, node: Node::boxed(NodeType::Define(DefineExpr { def_undef: t, defines })) })
    }

    /// A function definition `function id(params) { body }`, recorded in the block; one
    /// defined again in the same block replaces the earlier one and is reported (a warning,
    /// or an error under `#define strict`). A malformed one is reported and gives a
    /// statement of nothing. Nothing if the keyword is not next.
    #[verifier::rlimit(50)]
    fn parse_function_def(&mut self) -> (r: Option<Statement>)
        requires
            old(self).inv(),
        ensures
            final(self).inv(),
            final(self).frame_of(old(self)),
            *final(final(self).tok) == *final(old(self).tok),
            *final(final(self).errors) == *final(old(self).errors),
            old(self).tok.peeked().kind != TokenType::Function ==> r is None && *final(self).tok == *old(self).tok
                && final(self).code_block == old(self).code_block,
            old(self).tok.peeked().kind == TokenType::Function ==> r is Some && final(self).tok.rest() < old(self).tok.rest(),
            r is Some ==> type_ok(r.unwrap().node.expr, old(self).tok.source()) && !r.unwrap().mute,
            r matches Some(st) ==> (st.node.expr is FunctionDef
                || (st.node.expr is NONE && st.node.has_errors && old(self).errors@.len() < final(self).errors@.len())),
            r matches Some(st) ==> (!(st.node.expr is FunctionDef) ==> final(self).code_block == old(self).code_block),
            r matches Some(st) ==> (st.node.expr matches NodeType::FunctionDef(f) ==> ({
                let old_names = function_names(old(self).code_block.scope.local_function_defs@);
                &&& second_kind(&*old(self).tok) == TokenType::Id
                &&& f.id_range.start as int == spec_next_token(old(self).tok.text(), old(self).tok.after_peeked()).unwrap().1.start
                &&& f.id_range.end as int == spec_next_token(old(self).tok.text(), old(self).tok.after_peeked()).unwrap().1.end
                &&& f.id@ == chars_in_bytes(old(self).tok.text(), f.id_range.start as int, f.id_range.end as int)
                &&& ({
                    let (s2, t2) = spec_next_token(old(self).tok.text(), old(self).tok.after_peeked()).unwrap();
                    let (s3, t3) = spec_next_token(old(self).tok.text(), s2).unwrap();
                    let (s4, t4) = spec_next_token(old(self).tok.text(), s3).unwrap();
                    names_view(f.arg_names@) == params_from(old(self).tok.text(), t4, s4)
                })
                &&& ({
                    let tx = old(self).tok.text();
                    let (s2, t2) = spec_next_token(tx, old(self).tok.after_peeked()).unwrap();
                    let (s3, t3) = spec_next_token(tx, s2).unwrap();
                    let (s4, t4) = spec_next_token(tx, s3).unwrap();
                    body_recorded(final(self).code_block.scope.local_function_defs@, f,
                        taken(tx, params_end(tx, t4, s4)).0, old(self).tok.source(), tx)
                })
                &&& final(self).code_block.scope.var_defs == old(self).code_block.scope.var_defs
                &&& function_names(final(self).code_block.scope.local_function_defs@)
                    == if old_names.contains(f.id@) { old_names } else { old_names.push(f.id@) }
                &&& final(self).code_block.scope.strict == old(self).code_block.scope.strict
                &&& old_names.contains(f.id@) ==> {
                    &&& old(self).errors@.len() < final(self).errors@.len()
                    &&& final(self).errors@.last().id == if old(self).code_block.scope.strict {
                        crate::errors::ErrorId::FunctionOverride
                    } else {
                        crate::errors::ErrorId::WFunctionOverride
                    }
                    &&& final(self).errors@.last().range == f.id_range
                }
            })),
            r matches Some(st) ==> exists|tr: StatementTrace| #[trigger] function_read(old(self).tok.text(),
                read_at(&*old(self).tok), read_at(&*final(self).tok), st, tr)
                && (st.node.expr matches NodeType::FunctionDef(f) ==> (tr matches StatementTrace::Body { statements, .. }
                    && body_statements_recorded(final(self).code_block.scope.local_function_defs@, f.id@, statements))),
        decreases old(self).tok.rest(), 20int,
    {
        if self.tok.peek().kind != TokenType::Function {
            return None;
        }
        proof {
            lemma_peeked_ok(&*self.tok);
        }
        let ghost tx = self.tok.text();
        let ghost s0 = read_at(&*self.tok);
        let start_range = self.tok.next().range;
        proof {
            lemma_peeked_ok(&*self.tok);
        }
        if self.tok.peek().kind != TokenType::Id {
            let err = errors::expected_id(self.tok.peek().range);
            let token = *self.tok.peek();
            let st = Statement::error(self.errors, err, token);
            proof {
                assert(function_read(tx, s0, read_at(&*self.tok), st, StatementTrace::Plain));
            }
            return Some(st);
        }
        let id = self.tok.next();
        if !self.match_token(TokenType::ParOpen) {
            proof {
                lemma_peeked_ok(&*self.tok);
            }
            let err = errors::expected("(", self.tok.peek().range);
            let token = *self.tok.peek();
            let st = Statement::error(self.errors, err, token);
            proof {
                assert(function_read(tx, s0, read_at(&*self.tok), st, StatementTrace::Plain));
            }
            return Some(st);
        }
        let mut param_defs: Vec<String> = Vec::new();
        let mut bad_list = false;
        let ghost params = params_from(self.tok.text(), self.tok.peeked().view(), self.tok.after_peeked());
        let ghost pend = params_end(self.tok.text(), self.tok.peeked().view(), self.tok.after_peeked());
        while self.tok.peek().kind == TokenType::Id
            invariant_except_break
                !bad_list,
                names_view(param_defs@) + params_from(self.tok.text(), self.tok.peeked().view(), self.tok.after_peeked()) == params,
                params_end(self.tok.text(), self.tok.peeked().view(), self.tok.after_peeked()) == pend,
            invariant
                self.inv(),
                self.frame_of(old(self)),
                *final(self.tok) == *final(old(self).tok),
                *final(self.errors) == *final(old(self).errors),
                self.code_block == old(self).code_block,
                self.tok.rest() < old(self).tok.rest(),
            ensures
                !bad_list ==> names_view(param_defs@) == params,
                read_at(&*self.tok) == pend,
                bad_list ==> self.tok.peeked().kind != TokenType::ParClose,
            decreases self.tok.rest(),
        {
            proof {
                lemma_peeked_ok(&*self.tok);
            }
            let ghost t = self.tok.text();
            let ghost tk = self.tok.peeked().view();
            let ghost cv = self.tok.after_peeked();
            let ghost before_names = names_view(param_defs@);
            let param = self.tok.next();
            let txt = self.text_of(&param.range);
            param_defs.push(String::from_str(txt));
            proof {
                assert(names_view(param_defs@) =~= before_names.push(txt@));
                lemma_peeked_ok(&*self.tok);
            }
            let ghost cv2 = self.tok.after_peeked();
            if self.match_token(TokenType::Comma) {
                proof {
                    lemma_peeked_ok(&*self.tok);
                    assert(params_from(t, tk, cv) == seq![txt@] + params_from(t, self.tok.peeked().view(), self.tok.after_peeked()));
                    assert(names_view(param_defs@) + params_from(t, self.tok.peeked().view(), self.tok.after_peeked())
                        =~= before_names + params_from(t, tk, cv));
                    assert(params_end(t, tk, cv) == params_end(t, self.tok.peeked().view(), self.tok.after_peeked()));
                }
                continue;
            }
            proof {
                assert(params_from(t, tk, cv) =~= seq![txt@]);
                assert(params_end(t, tk, cv) == read_at(&*self.tok));
            }
            if self.tok.peek().kind == TokenType::ParClose {
                break;
            }
            bad_list = true;
            break;
        }
        proof {
            lemma_peeked_ok(&*self.tok);
        }
        if bad_list {
            let err = errors::expected(",` or `)", self.tok.peek().range);
            let token = *self.tok.peek();
            let st = Statement::error(self.errors, err, token);
            proof {
                assert(function_read(tx, s0, read_at(&*self.tok), st, StatementTrace::Plain));
            }
            return Some(st);
        }
        let ghost at_close = read_at(&*self.tok);
        if !self.match_token(TokenType::ParClose) {
            proof {
                lemma_peeked_ok(&*self.tok);
            }
            let err = errors::expected(")", self.tok.peek().range);
            let token = *self.tok.peek();
            let st = Statement::error(self.errors, err, token);
            proof {
                assert(function_read(tx, s0, read_at(&*self.tok), st, StatementTrace::Plain));
            }
            return Some(st);
        }
        proof {
            lemma_peeked_ok(&*self.tok);
        }
        if self.tok.peek().kind != TokenType::CurlOpen {
            let err = errors::expected("{", self.tok.peek().range);
            let token = *self.tok.peek();
            let st = Statement::error(self.errors, err, token);
            proof {
                assert(function_read(tx, s0, read_at(&*self.tok), st, StatementTrace::Plain));
            }
            return Some(st);
        }
        let ghost body_open = self.tok.peeked().view();
        proof {
            assert(read_at(&*self.tok) == taken(self.tok.text(), pend));
        }
        let curl_open = self.tok.next();
        let ghost body_start = read_at(&*self.tok);
        let new_code_block = self.parse_block(curl_open.range);
        let ghost stop = read_at(&*self.tok);
        let ghost tr = {
            let (places, traces) = choose|places: Seq<(ReadAt, ReadAt)>, traces: Seq<StatementTrace>|
                #[trigger] statements_chain(tx, body_start, stop, new_code_block.statements@, places, traces, true);
            StatementTrace::Body { statements: new_code_block.statements@, places, traces, stop }
        };
        proof {
            lemma_peeked_ok(&*self.tok);
            assert(body_start == taken(tx, taken(tx, pend)));
        }
        if self.tok.peek().kind != TokenType::CurlClose {
            let err = errors::expected("}", self.tok.peek().range);
            let token = *self.tok.peek();
            let st = Statement::error(self.errors, err, token);
            proof {
                assert(body_read(tx, body_start, read_at(&*self.tok), tr));
                assert(function_read(tx, s0, read_at(&*self.tok), st, tr));
            }
            return Some(st);
        }
        let token_end = self.tok.next();
        let fun_def_expr = FunctionDefExpr {
            id: String::from_str(self.text_of(&id.range)),
            id_range: id.range,
            arg_names: param_defs,
            range: start_range.add(&token_end.range),
        };
        let fname = self.text_of(&id.range);
        if self.code_block.scope.has_local_function(fname) {
            let err = if self.code_block.scope.strict {
                errors::function_override(fname, id.range)
            } else {
                errors::w_function_override(fname, id.range)
            };
            self.errors.push(err);
        }
        let dup = fun_def_expr.duplicate();
        let ghost block = new_code_block;
        self.code_block.scope.add_local_function(new_code_block, dup);
        proof {
            let defs = self.code_block.scope.local_function_defs@;
            let i = choose|i: int| #![trigger defs[i]] 0 <= i < defs.len() && defs[i].name@ == dup.id@
                && defs[i].code_block == block && defs[i].function_def_expr == dup;
            assert(defs[i].function_def_expr == dup);
            assert(body_recorded(defs, fun_def_expr, body_open, old(self).tok.source(), old(self).tok.text()));
            assert(defs[i].code_block.statements@ == new_code_block.statements@);
            assert(body_statements_recorded(defs, fun_def_expr.id@, new_code_block.statements@));
        }
        let node = Node::new(NodeType::FunctionDef(fun_def_expr));
        let st = Statement { node: Box::new(node), mute: false };
        proof {
            assert(body_read(tx, body_start, read_at(&*self.tok), tr));
            assert(function_read(tx, s0, read_at(&*self.tok), st, tr));
        }
        Some(st)
    }

    /// The statements of a block after its `{`, parsed with a scope of its own, up to
    /// its `}` or the end of text.
    fn parse_block(&mut self, block_start: Range) -> (r: CodeBlock)
        requires
            old(self).inv(),
            block_start.source_index == old(self).tok.source(),
        ensures
            final(self).inv(),
            final(self).frame_of(old(self)),
            *final(final(self).tok) == *final(old(self).tok),
            *final(final(self).errors) == *final(old(self).errors),
            final(self).code_block == old(self).code_block,
            r.block_start == block_start,
            statements_ok(r.statements@, old(self).tok.source(), r.statements@.len() as int),
            forall|i: int| 0 <= i < r.statements@.len() ==> statement_parse(old(self).tok.text(), (#[trigger] r.statements@[i]).node.expr),
            statements_read(old(self).tok.text(), read_at(&*old(self).tok), read_at(&*final(self).tok), r.statements@, true),
        decreases old(self).tok.rest(), 23int,
    {
        let ghost src = self.tok.source();
        let new_scope = self.code_block.scope.copy_for_block();
        let new_code_block = CodeBlock::new(new_scope, block_start);
        let mut parser = Parser::new(self.globals, &mut *self.tok, &mut *self.errors, new_code_block);
        parser.parse(true, self.mute_block);
        proof {
            assert(parser.code_block.statements@.subrange(0, parser.code_block.statements@.len() as int)
                =~= parser.code_block.statements@);
            lemma_statements_ok_all(parser.code_block.statements@, src, parser.code_block.statements@.len() as int);
        }
        parser.code_block
    }

    /// A statement: a block in braces, an echoed comment, a `#define` or `#undef`, a
    /// function definition, or an expression statement; a leading `#` mutes it, `/#`
    /// starts and `#/` ends muting of the statements after it.
    fn parse_statement(&mut self) -> (r: Statement)
        requires
            old(self).inv(),
        ensures
            final(self).inv(),
            final(self).globals == old(self).globals,
            final(self).tok.text() == old(self).tok.text(),
            final(self).tok.source() == old(self).tok.source(),
            final(self).tok.rest() <= old(self).tok.rest(),
            old(self).errors@.is_prefix_of(final(self).errors@),
            final(self).code_block.statements == old(self).code_block.statements,
            final(self).code_block.block_start == old(self).code_block.block_start,
            *final(final(self).tok) == *final(old(self).tok),
            *final(final(self).errors) == *final(old(self).errors),
            type_ok(r.node.expr, old(self).tok.source()),
            final(self).tok.rest() < old(self).tok.rest() || (*final(self).tok == *old(self).tok
                && (old(self).tok.peeked().kind == TokenType::Eot || old(self).tok.peeked().kind == TokenType::CurlClose)),
            old(self).tok.peeked().kind == TokenType::MuteLine ==> r.mute && final(self).mute_block == old(self).mute_block,
            old(self).tok.peeked().kind == TokenType::MuteStart ==> r.mute && final(self).mute_block,
            old(self).tok.peeked().kind == TokenType::MuteEnd ==> !r.mute && !final(self).mute_block,
            !(old(self).tok.peeked().kind == TokenType::MuteLine || old(self).tok.peeked().kind == TokenType::MuteStart
                || old(self).tok.peeked().kind == TokenType::MuteEnd)
                ==> r.mute == old(self).mute_block && final(self).mute_block == old(self).mute_block,
            statement_kind(&*old(self).tok) == TokenType::CurlOpen ==> r.node.expr is Block,
            statement_kind(&*old(self).tok) == TokenType::EchoCommentLine ==> r.node.expr is Comment,
            statement_kind(&*old(self).tok) == TokenType::Define || statement_kind(&*old(self).tok) == TokenType::Undef
                ==> r.node.expr is Define,
            statement_kind(&*old(self).tok) == TokenType::Function ==> (r.node.expr is FunctionDef || r.node.expr is NONE),
            statement_parse(old(self).tok.text(), r.node.expr),
            exists|tr: StatementTrace| #[trigger] statement_read(old(self).tok.text(), read_at(&*old(self).tok),
                read_at(&*final(self).tok), r, tr),
        decreases old(self).tok.rest(), 21int,
    {
        let ghost tx = self.tok.text();
        let ghost s_start = read_at(&*self.tok);
        let mut mute_line = false;
        if self.match_token(TokenType::MuteLine) {
            mute_line = true;
        } else if self.match_token(TokenType::MuteStart) {
            self.mute_block = true;
        } else if self.match_token(TokenType::MuteEnd) {
            self.mute_block = false;
        }
        proof {
            lemma_peeked_ok(&*self.tok);
        }
        let ghost s0 = read_at(&*self.tok);
        proof {
            assert(s0 == mute_skipped(tx, s_start));
        }
        if self.tok.peek().kind == TokenType::CurlOpen {
            let curl_open = self.tok.next();
            let ghost body_start = read_at(&*self.tok);
            let block = self.parse_block(curl_open.range);
            let ghost stop = read_at(&*self.tok);
            if !self.match_token(TokenType::CurlClose) {
                proof {
                    lemma_peeked_ok(&*self.tok);
                }
                self.errors.push(errors::expected("}", self.tok.peek().range));
            }
            let r = Statement { node: Node::boxed(NodeType::Block(block)), mute: mute_line || self.mute_block };
            proof {
                let (places, traces) = choose|places: Seq<(ReadAt, ReadAt)>, traces: Seq<StatementTrace>|
                    #[trigger] statements_chain(tx, body_start, stop, block.statements@, places, traces, true);
                let tr = StatementTrace::Body { statements: block.statements@, places, traces, stop };
                assert(body_read(tx, body_start, read_at(&*self.tok), tr));
                assert(statement_read(tx, s_start, read_at(&*self.tok), r, tr));
            }
            return r;
        }
        if let Some(stmt) = self.parse_echo_comment() {
            let r = stmt.set_mute(mute_line || self.mute_block);
            proof {
                assert(statement_read(tx, s_start, read_at(&*self.tok), r, StatementTrace::Plain));
            }
            return r;
        }
        if let Some(stmt) = self.parse_defines() {
            let r = stmt.set_mute(mute_line || self.mute_block);
            proof {
                let steps = choose|steps: Seq<ReadAt>| #[trigger] define_read(tx, s0, read_at(&*self.tok), steps);
                assert(statement_read(tx, s_start, read_at(&*self.tok), r, StatementTrace::Settings { steps }));
            }
            return r;
        }
        if let Some(stmt) = self.parse_function_def() {
            let r = stmt.set_mute(mute_line || self.mute_block);
            proof {
                let tr = choose|tr: StatementTrace| #[trigger] function_read(tx, s0, read_at(&*self.tok), stmt, tr);
                assert(statement_read(tx, s_start, read_at(&*self.tok), r, tr));
            }
            return r;
        }
        let stmt = self.parse_expr_statement();
        let r = stmt.set_mute(mute_line || self.mute_block);
        proof {
            let (n, s1) = choose|n: Box<Node>, s1: ReadAt| n.expr == stmt.node.expr
                && #[trigger] assign_parse(tx, s0, s1, n)
                && read_at(&*self.tok) == if s1.0.kind == TokenType::Eot || s1.0.kind == TokenType::CurlClose {
                    s1
                } else {
                    taken(tx, s1)
                };
            assert(assign_parse(tx, s0, s1, n));
            assert(statement_read(tx, s_start, read_at(&*self.tok), r, StatementTrace::Expression { node: n, end: s1 }));
        }
        r
    }

    /// Parses statements into the block up to the end of text; for a block, up to its
    /// `}` (left to be taken), while a `}` elsewhere is reported and taken. Muting starts
    /// as `inherited_mute` says.
    pub fn parse(&mut self, for_block: bool, inherited_mute: bool)
        requires
            old(self).inv(),
        ensures
            final(self).inv(),
            final(self).globals == old(self).globals,
            final(self).tok.text() == old(self).tok.text(),
            final(self).tok.source() == old(self).tok.source(),
            final(self).tok.rest() <= old(self).tok.rest(),
            old(self).errors@.is_prefix_of(final(self).errors@),
            old(self).code_block.statements@.is_prefix_of(final(self).code_block.statements@),
            forall|i: int| old(self).code_block.statements@.len() <= i < final(self).code_block.statements@.len()
                ==> type_ok(#[trigger] final(self).code_block.statements@[i].node.expr, old(self).tok.source()),
            forall|i: int| old(self).code_block.statements@.len() <= i < final(self).code_block.statements@.len()
                ==> statement_parse(old(self).tok.text(), (#[trigger] final(self).code_block.statements@[i]).node.expr),
            final(self).code_block.block_start == old(self).code_block.block_start,
            *final(final(self).tok) == *final(old(self).tok),
            *final(final(self).errors) == *final(old(self).errors),
            final(self).tok.peeked().kind == TokenType::Eot
                || (for_block && final(self).tok.peeked().kind == TokenType::CurlClose),
            ({
                let added = final(self).code_block.statements@.subrange(old(self).code_block.statements@.len() as int,
                    final(self).code_block.statements@.len() as int);
                &&& statements_stop(read_at(&*final(self).tok), added.len() as int, for_block)
                &&& exists|places: Seq<(ReadAt, ReadAt)>, traces: Seq<StatementTrace>|
                    #[trigger] statements_chain(old(self).tok.text(), read_at(&*old(self).tok), read_at(&*final(self).tok),
                        added, places, traces, for_block)
                    && forall|i: int| 0 <= i < places.len() && !for_block && (#[trigger] places[i]).1.0.kind == TokenType::CurlClose
                        ==> stray_reported(final(self).errors@, places[i].1.0)
            }),
        decreases old(self).tok.rest(), 22int,
    {
        let ghost tx = self.tok.text();
        let ghost s0 = read_at(&*self.tok);
        let ghost n0 = self.code_block.statements@.len() as int;
        let ghost mut places: Seq<(ReadAt, ReadAt)> = Seq::empty();
        let ghost mut traces: Seq<StatementTrace> = Seq::empty();
        proof {
            assert(self.code_block.statements@.subrange(n0, n0) =~= Seq::<Statement>::empty());
        }
        self.mute_block = inherited_mute;
        while self.tok.peek().kind != TokenType::Eot
            invariant
                self.inv(),
                self.globals == old(self).globals,
                self.tok.text() == old(self).tok.text(),
                self.tok.source() == old(self).tok.source(),
                self.tok.rest() <= old(self).tok.rest(),
                old(self).errors@.is_prefix_of(self.errors@),
                old(self).code_block.statements@.is_prefix_of(self.code_block.statements@),
                forall|i: int| old(self).code_block.statements@.len() <= i < self.code_block.statements@.len()
                    ==> type_ok(#[trigger] self.code_block.statements@[i].node.expr, old(self).tok.source()),
                forall|i: int| old(self).code_block.statements@.len() <= i < self.code_block.statements@.len()
                    ==> statement_parse(old(self).tok.text(), (#[trigger] self.code_block.statements@[i]).node.expr),
                self.code_block.block_start == old(self).code_block.block_start,
                *final(self.tok) == *final(old(self).tok),
                *final(self.errors) == *final(old(self).errors),
                tx == self.tok.text(),
                s0 == read_at(&*old(self).tok),
                n0 == old(self).code_block.statements@.len(),
                statements_chain(tx, s0, read_at(&*self.tok), self.code_block.statements@.subrange(n0, self.code_block.statements@.len() as int),
                    places, traces, for_block),
                places.len() > 0 ==> !(for_block && places.last().1.0.kind == TokenType::CurlClose),
                forall|i: int| 0 <= i < places.len() && !for_block && (#[trigger] places[i]).1.0.kind == TokenType::CurlClose
                    ==> stray_reported(self.errors@, places[i].1.0),
            ensures
                tx == self.tok.text(),
                s0 == read_at(&*old(self).tok),
                n0 == old(self).code_block.statements@.len(),
                statements_chain(tx, s0, read_at(&*self.tok), self.code_block.statements@.subrange(n0, self.code_block.statements@.len() as int),
                    places, traces, for_block),
                forall|i: int| 0 <= i < places.len() && !for_block && (#[trigger] places[i]).1.0.kind == TokenType::CurlClose
                    ==> stray_reported(self.errors@, places[i].1.0),
                self.inv(),
                self.globals == old(self).globals,
                self.tok.text() == old(self).tok.text(),
                self.tok.source() == old(self).tok.source(),
                self.tok.rest() <= old(self).tok.rest(),
                old(self).errors@.is_prefix_of(self.errors@),
                old(self).code_block.statements@.is_prefix_of(self.code_block.statements@),
                forall|i: int| old(self).code_block.statements@.len() <= i < self.code_block.statements@.len()
                    ==> type_ok(#[trigger] self.code_block.statements@[i].node.expr, old(self).tok.source()),
                forall|i: int| old(self).code_block.statements@.len() <= i < self.code_block.statements@.len()
                    ==> statement_parse(old(self).tok.text(), (#[trigger] self.code_block.statements@[i]).node.expr),
                self.code_block.block_start == old(self).code_block.block_start,
                *final(self.tok) == *final(old(self).tok),
                *final(self.errors) == *final(old(self).errors),
                self.tok.peeked().kind == TokenType::Eot,
            decreases self.tok.rest(),
        {
            let ghost b = read_at(&*self.tok);
            let ghost errs0 = self.errors@;
            let stmt = self.parse_statement();
            let ghost e = read_at(&*self.tok);
            let ghost before = self.code_block.statements@;
            let ghost new_stmt = stmt;
            self.code_block.statements.push(stmt);
            proof {
                assert(self.code_block.statements@ =~= before.push(new_stmt));
                lemma_statements_push_ok(before, new_stmt, old(self).code_block.statements@.len() as int, old(self).tok.source());
            }
            proof {
                lemma_peeked_ok(&*self.tok);
            }
            let ghost tr = choose|tr: StatementTrace| #[trigger] statement_read(tx, b, e, new_stmt, tr);
            let ghost places2 = places.push((b, e));
            let ghost traces2 = traces.push(tr);
            let ghost old_added = before.subrange(n0, before.len() as int);
            let ghost added = self.code_block.statements@.subrange(n0, self.code_block.statements@.len() as int);
            proof {
                assert(added =~= old_added.push(new_stmt));
                assert(places2.subrange(0, places.len() as int) =~= places);
                assert(traces2.subrange(0, traces.len() as int) =~= traces);
                assert(added.subrange(0, old_added.len() as int) =~= old_added);
                assert forall|i: int| 0 <= i < places.len() && !for_block && (#[trigger] places[i]).1.0.kind == TokenType::CurlClose
                    implies stray_reported(self.errors@, places[i].1.0) by {
                    lemma_stray_kept(errs0, self.errors@, places[i].1.0);
                }
            }
            if self.tok.peek().kind == TokenType::CurlClose {
                if for_block {
                    proof {
                        assert(statements_chain(tx, s0, read_at(&*self.tok), added, places2, traces2, for_block));
                        places = places2;
                        traces = traces2;
                    }
                    return;
                } else {
                    let ghost errs1 = self.errors@;
                    self.errors.push(errors::unknown_expr("}", self.tok.peek().range));
                    self.tok.next();
                    proof {
                        assert(statements_chain(tx, s0, read_at(&*self.tok), added, places2, traces2, for_block));
                        assert(self.errors@.last().id == ErrorId::UnknownExpr);
                        assert(stray_reported(self.errors@, e.0)) by {
                            let j = self.errors@.len() - 1;
                            assert(self.errors@[j].id == ErrorId::UnknownExpr);
                        }
                        assert forall|i: int| 0 <= i < places2.len() && !for_block && (#[trigger] places2[i]).1.0.kind == TokenType::CurlClose
                            implies stray_reported(self.errors@, places2[i].1.0) by {
                            if i < places.len() {
                                assert(places2[i] == places[i]);
                                lemma_stray_kept(errs1, self.errors@, places[i].1.0);
                            }
                        }
                        places = places2;
                        traces = traces2;
                    }
                }
            } else {
                proof {
                    assert(statements_chain(tx, s0, read_at(&*self.tok), added, places2, traces2, for_block));
                    assert forall|i: int| 0 <= i < places2.len() && !for_block && (#[trigger] places2[i]).1.0.kind == TokenType::CurlClose
                        implies stray_reported(self.errors@, places2[i].1.0) by {
                        assert(places2[i] == places[i]);
                    }
                    places = places2;
                    traces = traces2;
                }
            }
        }
        proof {
            assert(statements_chain(tx, s0, read_at(&*self.tok), self.code_block.statements@.subrange(n0,
                self.code_block.statements@.len() as int), places, traces, for_block));
        }
    }

    /// The only node of a list of one, or the node itself.
    fn reduce_list(node: Box<Node>) -> (r: Box<Node>)
        ensures
            r == spec_reduce_list(node),
    {
        let n = *node;
        match n.expr {
            NodeType::List(mut list_expr) => {
                if list_expr.nodes.len() == 1 {
                    list_expr.nodes.remove(0)
                } else {
                    Box::new(Node { unit: n.unit, has_errors: n.has_errors, expr: NodeType::List(list_expr) })
                }
            },
            other => Box::new(Node { unit: n.unit, has_errors: n.has_errors, expr: other }),
        }
    }
}

/// A list of one reduced to its node; any other node as it is.
pub open spec fn spec_reduce_list(node: Box<Node>) -> Box<Node> {
    match node.expr {
        NodeType::List(l) => if l.nodes@.len() == 1 { l.nodes@[0] } else { node },
        _ => node,
    }
}


/// A postfix operator: `.`, `--`, `++` or `!`.
pub open spec fn spec_is_postfix_kind(k: TokenType) -> bool {
    k == TokenType::Dot || k == TokenType::Dec || k == TokenType::Inc || k == TokenType::Exclam
}

/// A postfix operator: `.`, `--`, `++` or `!`.
fn is_postfix_kind(k: TokenType) -> (r: bool)
    ensures
        r == spec_is_postfix_kind(k),
{
    k == TokenType::Dot || k == TokenType::Dec || k == TokenType::Inc || k == TokenType::Exclam
}

/// A token that starts a factor multiplied by juxtaposition: an identifier, a number or
/// `(`.
fn is_implicit_mult_start(k: TokenType) -> (r: bool)
    ensures
        r == (k == TokenType::Id || k == TokenType::Number || k == TokenType::ParOpen),
{
    k == TokenType::Id || k == TokenType::Number || k == TokenType::ParOpen
}

/// A multiplicative operator: `*`, `/`, `%` or `%%`.
fn is_mult_kind(k: TokenType) -> (r: bool)
    ensures
        r == (k == TokenType::Mult || k == TokenType::Div || k == TokenType::Percent || k == TokenType::Modulo),
{
    k == TokenType::Mult || k == TokenType::Div || k == TokenType::Percent || k == TokenType::Modulo
}

/// A list stays `list_ok` when a `type_ok` node is added.
proof fn lemma_list_ok_push(s: Seq<Box<Node>>, x: Box<Node>, si: crate::globals::SourceIndex)
    requires
        list_ok(s, si, s.len() as int),
        type_ok(x.expr, si),
    ensures
        list_ok(s.push(x), si, s.len() as int + 1),
{
    lemma_list_ok_prefix(s, s.push(x), si, s.len() as int);
}

/// `list_ok` of the first `k` nodes depends on those nodes alone.
proof fn lemma_list_ok_prefix(s: Seq<Box<Node>>, t: Seq<Box<Node>>, si: crate::globals::SourceIndex, k: int)
    requires
        0 <= k <= s.len(),
        k <= t.len(),
        forall|i: int| 0 <= i < k ==> s[i] == t[i],
        list_ok(s, si, k),
    ensures
        list_ok(t, si, k),
    decreases k,
{
    if k > 0 {
        lemma_list_ok_prefix(s, t, si, k - 1);
    }
}


/// A constant of the number `n` read at `range`.
pub open spec fn is_number_const(e: NodeType, range: Range, n: crate::tokenizer::cursor::NumberView) -> bool {
    match e {
        NodeType::Const(c) => c.range == range && match c.const_type {
            ConstType::Numeric { number } => number.view() == n,
            _ => false,
        },
        _ => false,
    }
}

/// A name is in two lists one after the other exactly where it is in either.
proof fn lemma_concat_contains(a: Seq<Seq<char>>, b: Seq<Seq<char>>, x: Seq<char>)
    ensures
        (a + b).contains(x) <==> (a.contains(x) || b.contains(x)),
{
    if a.contains(x) {
        let i = choose|i: int| 0 <= i < a.len() && a[i] == x;
        assert((a + b)[i] == x);
    }
    if b.contains(x) {
        let i = choose|i: int| 0 <= i < b.len() && b[i] == x;
        assert((a + b)[a.len() + i] == x);
    }
    if (a + b).contains(x) {
        let i = choose|i: int| 0 <= i < (a + b).len() && (a + b)[i] == x;
        if i < a.len() {
            assert(a[i] == x);
        } else {
            assert(b[i - a.len()] == x);
        }
    }
}

/// The name of the token `k` of text `t`.
pub open spec fn token_text(t: Seq<char>, k: crate::tokenizer::TokenView) -> Seq<char> {
    chars_in_bytes(t, k.start, k.end)
}

/// A primary expression read from `s0` to `s1`, where `fns` are the names that can be
/// called: a number, or a quoted text, as a constant; a name as a variable, or as a call
/// where it can be called (or nothing, where its call is malformed); a list in
/// parentheses, reduced; an absolute value `|sum|`; and nothing, with the reader
/// unmoved, where none of these starts.
pub open spec fn primary_step(t: Seq<char>, fns: Seq<Seq<char>>, s0: ReadAt, s1: ReadAt, n: Box<Node>) -> bool {
    let k = s0.0;
    if k.kind == TokenType::Number {
        &&& n.expr matches NodeType::Const(c) && c.range.start as int == k.start && c.range.end as int == k.end
            && (c.const_type matches ConstType::Numeric { number } && number.view() == s0.1.number)
        &&& s1 == taken(t, s0)
    } else if k.kind == TokenType::QuotedStr {
        &&& n.expr matches NodeType::Const(c) && c.range.start as int == k.start && c.range.end as int == k.end
            && c.const_type is FormattedString
        &&& s1 == taken(t, s0)
    } else if k.kind == TokenType::Id {
        if fns.contains(token_text(t, k)) {
            n.expr is NONE || (n.expr matches NodeType::Call(c) && c.function_name@ == token_text(t, k))
        } else {
            (n.expr matches NodeType::Id(i) && i.id.view() == k) && s1 == taken(t, s0)
        }
    } else if k.kind == TokenType::ParOpen {
        exists|nodes: Seq<Box<Node>>, k2: ReadAt| #[trigger] list_parse(t, taken(t, s0), k2, nodes)
            && paren_of(n, nodes) && s1 == (if k2.0.kind == TokenType::ParClose { taken(t, k2) } else { k2 })
    } else if k.kind == TokenType::Pipe {
        n.expr matches NodeType::Call(c) && c.function_name@ == "abs"@ && c.arguments@.len() == 1
            && exists|k2: ReadAt| #[trigger] sum_parse(t, taken(t, s0), k2, c.arguments@[0]) && s1 == taken(t, k2)
    } else {
        (n.expr matches NodeType::NONE(e) && e.token.view() == k) && s1 == s0
    }
}

/// A unit glued to the primary `e` read up to `sp`, read up to `s1` into `n`, where
/// `vars` are the variables of the block: an identifier after the primary that names no
/// variable is its unit (a second unit wraps the primary in a unit node at the
/// identifier); else the primary stands as it is.
pub open spec fn glued_unit(t: Seq<char>, vars: Seq<Seq<char>>, sp: ReadAt, s1: ReadAt, e: Box<Node>, n: Box<Node>) -> bool {
    if sp.0.kind == TokenType::Id && !vars.contains(token_text(t, sp.0)) {
        &&& s1 == taken(t, sp)
        &&& n.unit.id@ == token_text(t, sp.0)
        &&& if e.unit.id@.len() == 0 {
            n.expr == e.expr
        } else {
            n.expr matches NodeType::Unit(u) && u.node == e && u.range.start as int == sp.0.start
                && u.range.end as int == sp.0.end
        }
    } else {
        n == e && s1 == sp
    }
}

/// A unit expression read from `s0` to `s1`: a primary expression, and the unit glued to
/// it.
pub open spec fn unit_step(t: Seq<char>, fns: Seq<Seq<char>>, vars: Seq<Seq<char>>, s0: ReadAt, s1: ReadAt, n: Box<Node>) -> bool {
    exists|e: Box<Node>, sp: ReadAt| #[trigger] primary_step(t, fns, s0, sp, e) && glued_unit(t, vars, sp, s1, e, n)
}

/// A call of the function `name` on `arg` alone, standing for an operator at `range`.
pub open spec fn is_operator_call(e: NodeType, name: Seq<char>, range: Range, arg: Box<Node>) -> bool {
    match e {
        NodeType::Call(c) => c.function_name@ == name && c.function_name_range == range
            && c.par_close_range == range && c.arguments@ == seq![arg],
        _ => false,
    }
}


/// The settings a `#define` names by a word alone (`precision` takes a value and is read
/// apart): `ymd`, `dmy`, `mdy`, `date_units`, `short_date_units`, `trig`, `arithm`,
/// `date`, `all`, `electric`, `strict`, and the decimal characters by several names.
pub open spec fn spec_simple_define(txt: Seq<char>) -> Option<DefineType> {
    if txt == "ymd"@ {
        Some(DefineType::Ymd)
    } else if txt == "dmy"@ {
        Some(DefineType::Dmy)
    } else if txt == "mdy"@ {
        Some(DefineType::Mdy)
    } else if txt == "date_units"@ {
        Some(DefineType::DateUnits)
    } else if txt == "short_date_units"@ {
        Some(DefineType::ShortDateUnits)
    } else if txt == "trig"@ {
        Some(DefineType::Trig)
    } else if txt == "arithm"@ {
        Some(DefineType::Arithm)
    } else if txt == "date"@ {
        Some(DefineType::Date)
    } else if txt == "all"@ {
        Some(DefineType::Default)
    } else if txt == "electric"@ {
        Some(DefineType::Electric)
    } else if txt == "strict"@ {
        Some(DefineType::Strict)
    } else if txt == "decimal_dot"@ || txt == "dec_dot"@ || txt == "dot"@ {
        Some(DefineType::DecimalDot)
    } else if txt == "decimal_comma"@ || txt == "dec_comma"@ || txt == "comma"@ {
        Some(DefineType::DecimalComma)
    } else if txt == "decimal_auto"@ || txt == "dec_auto"@ {
        Some(DefineType::DecimalAuto)
    } else {
        None
    }
}

/// The setting a `#define` names by the word `txt` alone (see `spec_simple_define`).
fn simple_define(txt: &str) -> (r: Option<DefineType>)
    ensures
        r == spec_simple_define(txt@),
{
    if str_eq(txt, "ymd") {
        Some(DefineType::Ymd)
    } else if str_eq(txt, "dmy") {
        Some(DefineType::Dmy)
    } else if str_eq(txt, "mdy") {
        Some(DefineType::Mdy)
    } else if str_eq(txt, "date_units") {
        Some(DefineType::DateUnits)
    } else if str_eq(txt, "short_date_units") {
        Some(DefineType::ShortDateUnits)
    } else if str_eq(txt, "trig") {
        Some(DefineType::Trig)
    } else if str_eq(txt, "arithm") {
        Some(DefineType::Arithm)
    } else if str_eq(txt, "date") {
        Some(DefineType::Date)
    } else if str_eq(txt, "all") {
        Some(DefineType::Default)
    } else if str_eq(txt, "electric") {
        Some(DefineType::Electric)
    } else if str_eq(txt, "strict") {
        Some(DefineType::Strict)
    } else if str_eq(txt, "decimal_dot") || str_eq(txt, "dec_dot") || str_eq(txt, "dot") {
        Some(DefineType::DecimalDot)
    } else if str_eq(txt, "decimal_comma") || str_eq(txt, "dec_comma") || str_eq(txt, "comma") {
        Some(DefineType::DecimalComma)
    } else if str_eq(txt, "decimal_auto") || str_eq(txt, "dec_auto") {
        Some(DefineType::DecimalAuto)
    } else {
        None
    }
}

/// Statements each `type_ok` make their first `k` `statements_ok`.
proof fn lemma_statements_ok_all(s: Seq<Statement>, si: crate::globals::SourceIndex, k: int)
    requires
        0 <= k <= s.len(),
        forall|i: int| 0 <= i < s.len() ==> type_ok(#[trigger] s[i].node.expr, si),
    ensures
        statements_ok(s, si, k),
    decreases k,
{
    if k > 0 {
        lemma_statements_ok_all(s, si, k - 1);
    }
}

/// Pushing a `type_ok` statement keeps the statements from `lo` on `type_ok`.
proof fn lemma_statements_push_ok(s: Seq<Statement>, x: Statement, lo: int, si: crate::globals::SourceIndex)
    requires
        0 <= lo,
        forall|i: int| lo <= i < s.len() ==> type_ok(#[trigger] s[i].node.expr, si),
        type_ok(x.node.expr, si),
    ensures
        forall|i: int| lo <= i < s.len() + 1 ==> type_ok(#[trigger] s.push(x)[i].node.expr, si),
{
    assert forall|i: int| lo <= i < s.len() + 1 implies type_ok(#[trigger] s.push(x)[i].node.expr, si) by {
        if i < s.len() {
            assert(s.push(x)[i] == s[i]);
        }
    }
}

/// A compound assignment applies the operator its sign names: `+=` adds, `-=` subtracts,
/// `*=` multiplies and `/=` divides.
pub proof fn lemma_compound_assignment_operators()
    ensures
        assign_bin_op(TokenType::EqPlus) == TokenType::Plus,
        assign_bin_op(TokenType::EqMin) == TokenType::Min,
        assign_bin_op(TokenType::EqMult) == TokenType::Mult,
        assign_bin_op(TokenType::EqDiv) == TokenType::Div,
{
}

} // verus!
