use math_parser::errors::ErrorId;
use math_parser::parser::nodes::{DefineType, NodeType};
use math_parser::parser::outline::{node_outline, OutlineValue};
use math_parser::test_api::parse_text;
use math_parser::tokenizer::token_type::TokenType;

#[test]
fn parses_statements() {
    let (block, errors) = parse_text("a=1;b=2; a+b");
    assert!(errors.is_empty());
    assert_eq!(block.statements.len(), 3);
    assert!(matches!(block.statements[0].node.expr, NodeType::Assign(_)));
    assert!(matches!(block.statements[2].node.expr, NodeType::Binary(_)));
    let names: Vec<&str> = block.scope.var_defs.iter().map(|s| s.as_str()).collect();
    assert_eq!(names, vec!["a", "b"]);
}

#[test]
fn implicit_multiplication_and_units() {
    let (block, errors) = parse_text("a=2;2a; 3mm");
    assert!(errors.is_empty());
    match &block.statements[1].node.expr {
        NodeType::Binary(b) => assert!(b.implicit_mult),
        _ => panic!("expected an implicit multiplication"),
    }
    assert_eq!(block.statements[2].node.unit.id, "mm");
}

#[test]
fn division_by_implicit_multiplication_is_warned() {
    let (_block, errors) = parse_text("a=2;20/2a");
    assert!(errors.iter().any(|e| e.id == ErrorId::WDivImplMult));
}

#[test]
fn function_definitions_are_recorded() {
    let (block, errors) = parse_text("function ff(a, b) { a+b; } ff(1,2)");
    assert!(errors.is_empty());
    assert_eq!(block.scope.local_function_defs.len(), 1);
    assert_eq!(block.scope.local_function_defs[0].name, "ff");
    assert_eq!(block.scope.local_function_defs[0].max_args, 2);
    match &block.statements[1].node.expr {
        NodeType::Call(c) => {
            assert_eq!(c.function_name, "ff");
            assert_eq!(c.arguments.len(), 2);
        },
        _ => panic!("expected a call"),
    }
}

#[test]
fn defines_are_read_to_end_of_line() {
    let (block, errors) = parse_text("#define dmy strict\n x");
    assert!(errors.is_empty());
    match &block.statements[0].node.expr {
        NodeType::Define(d) => {
            assert_eq!(d.def_undef.kind, TokenType::Define);
            assert_eq!(d.defines.len(), 2);
            assert!(matches!(d.defines[0].define_type, DefineType::Dmy));
            assert!(matches!(d.defines[1].define_type, DefineType::Strict));
        },
        _ => panic!("expected a define"),
    }
    assert!(matches!(block.statements[1].node.expr, NodeType::Id(_)));
}

#[test]
fn unknown_define_is_reported() {
    let (_block, errors) = parse_text("#define nonsense\n");
    assert!(errors.iter().any(|e| e.id == ErrorId::DefineNotDef));
}

#[test]
fn missing_parts_are_reported() {
    let (_block, errors) = parse_text("(1+2");
    assert!(errors.iter().any(|e| e.id == ErrorId::Expected));
    let (_block, errors) = parse_text("a=");
    assert!(errors.iter().any(|e| e.id == ErrorId::Eos));
    let (_block, errors) = parse_text("1 }");
    assert!(errors.iter().any(|e| e.id == ErrorId::UnknownExpr));
}

#[test]
fn muting_and_postfix_calls() {
    let (block, _errors) = parse_text("#a=1; a++; 3!");
    assert!(block.statements[0].mute);
    assert!(!block.statements[1].mute);
    match &block.statements[1].node.expr {
        NodeType::Call(c) => assert_eq!(c.function_name, "inc"),
        _ => panic!("expected a call"),
    }
    match &block.statements[2].node.expr {
        NodeType::Call(c) => assert_eq!(c.function_name, "factorial"),
        _ => panic!("expected a call"),
    }
}

#[test]
fn mute_blocks_start_and_end() {
    let (block, _errors) = parse_text("a=1;/#a=2;a=3;a=4;#/a=5");
    let mutes: Vec<bool> = block.statements.iter().map(|s| s.mute).collect();
    assert_eq!(mutes, vec![false, true, true, true, false]);
    let (block, _errors) = parse_text("a=1;#a=2");
    let mutes: Vec<bool> = block.statements.iter().map(|s| s.mute).collect();
    assert_eq!(mutes, vec![false, true]);
}

#[test]
fn compound_assignments() {
    let (block, errors) = parse_text("a=1;a+=2;a.=mm");
    assert!(errors.is_empty());
    match &block.statements[1].node.expr {
        NodeType::Assign(a) => match &a.expr.expr {
            NodeType::Binary(b) => {
                assert_eq!(b.op.kind, TokenType::Plus);
                assert!(matches!(b.expr1.expr, NodeType::Id(_)));
                assert!(!b.implicit_mult);
            },
            _ => panic!("expected a sum"),
        },
        _ => panic!("expected an assignment"),
    }
    match &block.statements[2].node.expr {
        NodeType::Assign(a) => match &a.expr.expr {
            NodeType::Postfix(p) => assert_eq!(p.postfix_id.kind, TokenType::Id),
            _ => panic!("expected a unit conversion"),
        },
        _ => panic!("expected an assignment"),
    }
    let names: Vec<&str> = block.scope.var_defs.iter().map(|s| s.as_str()).collect();
    assert_eq!(names, vec!["a"]);
}

#[test]
fn call_of_unknown_name_is_a_variable() {
    let (block, _errors) = parse_text("foo; abs(1); -3; |2|");
    assert!(matches!(block.statements[0].node.expr, NodeType::Id(_)));
    match &block.statements[1].node.expr {
        NodeType::Call(c) => assert_eq!(c.function_name, "abs"),
        _ => panic!("expected a call"),
    }
    assert!(matches!(block.statements[2].node.expr, NodeType::Unary(_)));
    match &block.statements[3].node.expr {
        NodeType::Call(c) => {
            assert_eq!(c.function_name, "abs");
            assert_eq!(c.arguments.len(), 1);
        },
        _ => panic!("expected a call"),
    }
}

#[test]
fn outline_of_a_tree() {
    let (block, _errors) = parse_text("a=1+2mm");
    let lines = node_outline(&block.statements[0].node, 0).unwrap();
    let shown: Vec<(usize, &str, &str)> = lines.iter().map(|l| (l.indent, l.label.as_str(), l.unit.as_str())).collect();
    assert_eq!(shown, vec![
        (0, "AssignExpr", ""),
        (5, "BinExpr: Plus", ""),
        (10, "ConstExpr: ", ""),
        (10, "ConstExpr: ", "mm"),
    ]);
    assert!(matches!(lines[0].value, OutlineValue::NoValue));
    assert!(matches!(lines[2].value, OutlineValue::Number(_)));
    assert!(node_outline(&block.statements[0].node, usize::MAX - 12).is_none());
    assert!(node_outline(&block.statements[0].node, usize::MAX - 15).is_some());
}

#[test]
fn a_block_has_a_scope_of_its_own() {
    let (block, errors) = parse_text("a=1; { b=a; } c=2;");
    assert!(errors.is_empty());
    let names: Vec<&str> = block.scope.var_defs.iter().map(|s| s.as_str()).collect();
    assert_eq!(names, vec!["a", "c"]);
    match &block.statements[1].node.expr {
        NodeType::Block(inner) => {
            let inner_names: Vec<&str> = inner.scope.var_defs.iter().map(|s| s.as_str()).collect();
            assert_eq!(inner_names, vec!["b"]);
        },
        _ => panic!("expected a block"),
    }
}

#[test]
fn a_second_definition_replaces_the_first() {
    let (block, errors) = parse_text("function ff(a) { a; } function gg() { 1; } function ff(a, b) { a+b; }");
    assert_eq!(errors.len(), 1);
    assert_eq!(errors[0].id, ErrorId::WFunctionOverride);
    assert_eq!(block.scope.local_function_defs.len(), 2);
    assert_eq!(block.scope.local_function_defs[0].name, "ff");
    assert_eq!(block.scope.local_function_defs[0].min_args, 2);
    assert_eq!(block.scope.local_function_defs[0].max_args, 2);
    assert_eq!(block.scope.local_function_defs[1].name, "gg");
    assert_eq!(block.scope.local_function_defs[1].max_args, 0);
}

#[test]
fn parameters_are_recorded_in_order() {
    let (block, errors) = parse_text("function area(w, h, depth) { w*h; }");
    assert!(errors.is_empty());
    let names: Vec<&str> = block.scope.local_function_defs[0].function_def_expr.arg_names.iter().map(|s| s.as_str()).collect();
    assert_eq!(names, vec!["w", "h", "depth"]);
    match &block.statements[0].node.expr {
        NodeType::FunctionDef(f) => assert_eq!(f.arg_names, vec!["w", "h", "depth"]),
        _ => panic!("expected a function definition"),
    }
}

#[test]
fn strict_is_switched_by_defines() {
    let (block, _errors) = parse_text("#define strict\n a=1;");
    assert!(block.scope.strict);
    let (block, _errors) = parse_text("#define strict\n#undef strict\n a=1;");
    assert!(!block.scope.strict);
}

fn bin_op(expr: &NodeType) -> TokenType {
    match expr {
        NodeType::Binary(b) => b.op.kind,
        _ => panic!("expected a binary operation"),
    }
}

#[test]
fn products_bind_tighter_than_sums() {
    let (block, errors) = parse_text("a=1;b=2;c=3; a+b*c; a*b+c");
    assert!(errors.is_empty());
    match &block.statements[3].node.expr {
        NodeType::Binary(b) => {
            assert_eq!(b.op.kind, TokenType::Plus);
            assert!(matches!(b.expr1.expr, NodeType::Id(_)));
            assert_eq!(bin_op(&b.expr2.expr), TokenType::Mult);
        },
        _ => panic!("expected a sum"),
    }
    match &block.statements[4].node.expr {
        NodeType::Binary(b) => {
            assert_eq!(b.op.kind, TokenType::Plus);
            assert_eq!(bin_op(&b.expr1.expr), TokenType::Mult);
            assert!(matches!(b.expr2.expr, NodeType::Id(_)));
        },
        _ => panic!("expected a sum"),
    }
}

#[test]
fn sums_group_from_the_left_and_powers_from_the_right() {
    let (block, errors) = parse_text("a=1;b=2;c=3; a-b-c; a^b^c; (a+b)*c");
    assert!(errors.is_empty());
    match &block.statements[3].node.expr {
        NodeType::Binary(b) => {
            assert_eq!(b.op.kind, TokenType::Min);
            assert_eq!(bin_op(&b.expr1.expr), TokenType::Min);
            assert!(matches!(b.expr2.expr, NodeType::Id(_)));
        },
        _ => panic!("expected a difference"),
    }
    match &block.statements[4].node.expr {
        NodeType::Binary(b) => {
            assert_eq!(b.op.kind, TokenType::Power);
            assert!(matches!(b.expr1.expr, NodeType::Id(_)));
            assert_eq!(bin_op(&b.expr2.expr), TokenType::Power);
        },
        _ => panic!("expected a power"),
    }
    match &block.statements[5].node.expr {
        NodeType::Binary(b) => {
            assert_eq!(b.op.kind, TokenType::Mult);
            assert_eq!(bin_op(&b.expr1.expr), TokenType::Plus);
        },
        _ => panic!("expected a product"),
    }
}

#[test]
fn an_assignment_holds_the_list_after_the_sign() {
    let (block, errors) = parse_text("x = 1, 2; y = 3 + 4");
    assert!(errors.is_empty());
    match &block.statements[0].node.expr {
        NodeType::Assign(a) => match &a.expr.expr {
            NodeType::List(l) => assert_eq!(l.nodes.len(), 2),
            _ => panic!("expected a list"),
        },
        _ => panic!("expected an assignment"),
    }
    match &block.statements[1].node.expr {
        NodeType::Assign(a) => assert_eq!(bin_op(&a.expr.expr), TokenType::Plus),
        _ => panic!("expected an assignment"),
    }
}

#[test]
fn a_function_body_starts_at_its_brace() {
    let text = "function ff(a) { a+1; a }";
    let (block, errors) = parse_text(text);
    assert!(errors.is_empty());
    let def = &block.scope.local_function_defs[0];
    assert_eq!(def.code_block.block_start.start, text.find('{').unwrap());
    assert_eq!(def.code_block.statements.len(), 2);
    assert_eq!(def.function_def_expr.arg_names, vec!["a".to_string()]);
}

#[test]
fn statements_follow_each_other_and_a_stray_brace_is_reported() {
    let (block, errors) = parse_text("a=1; } b=2");
    assert_eq!(block.statements.len(), 2);
    assert!(matches!(block.statements[0].node.expr, NodeType::Assign(_)));
    assert!(matches!(block.statements[1].node.expr, NodeType::Assign(_)));
    assert!(errors.iter().any(|e| e.id == ErrorId::UnknownExpr));
}

#[test]
fn a_block_holds_the_statements_up_to_its_brace() {
    let (block, errors) = parse_text("{ a=1; a+2 } 3; #define dmy\n 4");
    assert!(errors.is_empty());
    assert_eq!(block.statements.len(), 4);
    match &block.statements[0].node.expr {
        NodeType::Block(b) => assert_eq!(b.statements.len(), 2),
        _ => panic!("expected a block"),
    }
    assert!(matches!(block.statements[1].node.expr, NodeType::Const(_)));
    assert!(matches!(block.statements[2].node.expr, NodeType::Define(_)));
    assert!(matches!(block.statements[3].node.expr, NodeType::Const(_)));
}
