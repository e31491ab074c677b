use vstd::prelude::*;
use crate::errors::Error;
use crate::globals::{Globals, SourceIndex};
use crate::parser::Parser;
use crate::parser::grammar::{read_at, statement_parse};
use crate::parser::statement_grammar::{StatementTrace, first_read, statements_chain, statements_stop, text_read};
use crate::parser::nodes::{BlockScope, CodeBlock, type_ok};
use crate::tokenizer::hex_ok;
use crate::tokenizer::cursor::{Range, utf8_len};
use crate::tokenizer::peeking_tokenizer::PeekingTokenizer;
use crate::tokenizer::token_type::TokenType;

verus! {

/// Parses `text` as the only source, `src1`, into a top-level block: its statements, and
/// the errors found. The text must not hold a hexadecimal number followed by `_`, on
/// which reading never ends.
pub fn parse_text(text: &str) -> (r: (CodeBlock, Vec<Error>))
    requires
        utf8_len(text@) <= usize::MAX,
        hex_ok(text@),
    ensures
        r.0.block_start == Range::none_spec(SourceIndex(0)),
        forall|i: int| 0 <= i < r.0.statements@.len() ==> type_ok(#[trigger] r.0.statements@[i].node.expr, SourceIndex(0)),
        forall|i: int| 0 <= i < r.0.statements@.len() ==> statement_parse(text@, (#[trigger] r.0.statements@[i]).node.expr),
        text_read(text@, r.0.statements@, r.1@),
{
    let mut globals = Globals::new();
    let source_index = globals.set_source(String::from_str("src1"), String::from_str(text));
    proof {
        reveal_strlit("src1");
        assert(globals.sources_view().len() == 1);
        assert(globals.sources_view()[0].wf());
        assert(globals.sources_view()[0].index.0 == 0);
    }
    let source = match globals.get_source_by_name("src1") {
        Some(s) => s,
        None => {
            proof {
                assert(globals.sources_view()[0].name@ == "src1"@);
                assert(false);
            }
            return (CodeBlock::new(BlockScope::new(), Range::none(source_index)), Vec::new());
        },
    };
    proof {
        crate::tokenizer::lemma_next_token_ok(text@, crate::tokenizer::cursor::start_view());
    }
    let mut tok = PeekingTokenizer::new(source);
    let code_block = CodeBlock::new(BlockScope::new(), Range::none(source_index));
    let mut errors: Vec<Error> = Vec::new();
    let mut parser = Parser::new(&globals, &mut tok, &mut errors, code_block);
    let ghost s0 = read_at(&*parser.tok);
    let ghost tx = parser.tok.text();
    let ghost n_old = parser.code_block.statements@.len() as int;
    parser.parse(false, false);
    let ghost s1 = read_at(&*parser.tok);
    let ghost all = parser.code_block.statements@;
    let ghost errs = parser.errors@;
    proof {
        let added = all.subrange(n_old, all.len() as int);
        let (places, traces) = choose|places: Seq<(crate::parser::grammar::ReadAt, crate::parser::grammar::ReadAt)>, traces: Seq<StatementTrace>|
            #[trigger] statements_chain(tx, s0, s1, added, places, traces, false)
            && forall|i: int| 0 <= i < places.len() && (#[trigger] places[i]).1.0.kind == TokenType::CurlClose
                ==> crate::parser::statement_grammar::stray_reported(errs, places[i].1.0);
        assert(n_old == 0);
        assert(added =~= all);
        assert(tx == text@);
        assert(s0 == first_read(text@));
        assert(statements_chain(text@, first_read(text@), s1, all, places, traces, false));
        assert(statements_stop(s1, all.len() as int, false));
        assert(text_read(text@, all, errs));
    }
    let code_block = parser.code_block;
    proof {
        assert(code_block.statements@ == all);
        assert(errors@ == errs);
    }
    (code_block, errors)
}

/// Parses `text` (see `parse_text`), checking only that parsing ends.
pub fn test_compiles(text: &str)
    requires
        utf8_len(text@) <= usize::MAX,
        hex_ok(text@),
{
    let _ = parse_text(text);
}

} // verus!
