use math_parser::globals::Globals;
use math_parser::tokenizer::can_read_to_end;
use math_parser::tokenizer::cursor::NumberLiteral;
use math_parser::tokenizer::peeking_tokenizer::PeekingTokenizer;
use math_parser::tokenizer::token_type::TokenType;

fn significand(n: &NumberLiteral) -> f64 {
    n.mantissa.iter().collect::<String>().parse::<f64>().unwrap()
}

#[test]
fn test_peeking() {
    let mut globals = Globals::new();
    let src_name = "src1";
    let text = "111 + 222 = abbc;\n!//comment";
    globals.set_source(src_name.to_string(), text.to_string());
    let mut tok = PeekingTokenizer::new(globals.get_source_by_name(src_name).unwrap());
    //start with peeking '+'
    let peek2 = tok.peek_second();
    // peek 111
    let t1 = tok.peek().clone();
    assert_eq!(t1.kind, tok.next().kind);
    let n1 = tok.get_number();
    assert_eq!(significand(&n1), 111.0);
    //peek '+'
    let t2 = tok.peek().clone();
    assert_eq!(t2.kind, tok.next().kind);
    //peek 333
    let _t3 = tok.peek();
    let n3 = tok.get_number();
    assert_eq!(significand(&n3), 111.0);
    let t3 = tok.next();
    let n3 = tok.get_number();
    assert_eq!(significand(&n3), 222.0);
    assert_ne!(t1.kind, t2.kind);
    assert_ne!(t2.kind, t3.kind);

    assert_eq!(peek2.kind, t2.kind);
}

#[test]
fn peeking_reads_to_end_of_text() {
    let mut globals = Globals::new();
    globals.set_source("s".to_string(), "a = 1; // note".to_string());
    let mut tok = PeekingTokenizer::new(globals.get_source_by_name("s").unwrap());
    let kinds: Vec<TokenType> = (0..5).map(|_| tok.next().kind).collect();
    assert_eq!(kinds, vec![TokenType::Id, TokenType::Eq, TokenType::Number, TokenType::SemiColon, TokenType::Eot]);
    assert_eq!(tok.next().kind, TokenType::Eot);
}

#[test]
fn peeking_newlines_as_tokens_after_reset() {
    let mut globals = Globals::new();
    globals.set_source("s".to_string(), "#define dmy\nx".to_string());
    let mut tok = PeekingTokenizer::new(globals.get_source_by_name("s").unwrap());
    assert_eq!(tok.next().kind, TokenType::Define);
    tok.set_nl_is_token(true);
    assert_eq!(tok.next().kind, TokenType::Id);
    assert_eq!(tok.next().kind, TokenType::Newline);
    tok.set_nl_is_token(false);
    assert_eq!(tok.next().kind, TokenType::Id);
}

#[test]
fn texts_that_can_be_read_to_end() {
    assert!(can_read_to_end("a = 0x1F + 2_000;"));
    assert!(can_read_to_end("0x"));
    assert!(can_read_to_end("0xg_"));
    assert!(!can_read_to_end("0x1F_"));
    assert!(!can_read_to_end("b = 0X_"));
    assert!(!can_read_to_end("// 0xab_ in a comment"));
}
