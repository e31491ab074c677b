use math_parser::date::formatted_date_parser::parse_date_string;
use math_parser::date::{DateFormat, Day, Month, Timepoint};
use math_parser::errors::ErrorId;
use math_parser::globals::Globals;
use math_parser::parser::nodes::{ConstType, DefineType, NodeType};
use math_parser::resolver::assignment_diagnostics;
use math_parser::test_api::{parse_text, test_compiles};

#[test]
fn test_nonsense() {
    //just test if it doesn't crash.
    test_compiles("");
    test_compiles(";");
    test_compiles("-");
    test_compiles("date(2022, 'sdf', 31)");
    test_compiles("a=1; { a=2; ");
    test_compiles("a=");
}

/// The date format set by the `#define` that starts `text`.
fn format_of(text: &str) -> DateFormat {
    let (block, _errors) = parse_text(text);
    match &block.statements[0].node.expr {
        NodeType::Define(d) => match d.defines[0].define_type {
            DefineType::Dmy => DateFormat::DMY,
            DefineType::Mdy => DateFormat::MDY,
            _ => DateFormat::YMD,
        },
        _ => panic!("expected a define"),
    }
}

/// The date of the second statement of `text`: a call of `date` or a quoted text, read in
/// the format the first statement sets.
fn date_of(text: &str) -> Timepoint {
    let format = format_of(text);
    let (block, _errors) = parse_text(text);
    match &block.statements[1].node.expr {
        NodeType::Call(c) => {
            let args: Vec<f64> = c.arguments.iter().map(|a| match &a.expr {
                NodeType::Const(k) => match &k.const_type {
                    ConstType::Numeric { number } => number.mantissa.iter().collect::<String>().parse::<f64>().unwrap(),
                    _ => panic!("expected a number"),
                },
                _ => panic!("expected a constant"),
            }).collect();
            let idx = format.indices();
            Timepoint::from_parts(Day::Value(args[idx.day] as i8), Some(args[idx.month] as i32), Some(args[idx.year] as i32), c.function_name_range)
        },
        NodeType::Const(k) => {
            let quoted = &text[k.range.start..k.range.end];
            let inner = quoted.trim_matches('\'');
            parse_date_string(inner, &k.range, format)
        },
        _ => panic!("expected a date"),
    }
}

fn test_date(text: &str, day: i8, month: Month, year: i32) {
    let date = date_of(text);
    assert_eq!(date.get_normalized_day(), day);
    assert_eq!(date.month, month);
    assert_eq!(date.year, Some(year));
}

fn test_date_error(text: &str, error_id: ErrorId) {
    let date = date_of(text);
    assert!(date.errors.iter().any(|e| e.id == error_id), "statement \"{}\" did not report error {:?}", text, error_id);
}

#[test]
fn test_dates() {
    test_date("#define dmy \n date(1,2,2022)", 1, Month::FEB, 2022);
    test_date_error("#define ymd \n date(1,2,2022)", ErrorId::InvDate);
    test_date("#define dmy \n '1-2-2022'", 1, Month::FEB, 2022);
    test_date_error("#define ymd \n '1-2-2022'", ErrorId::InvDateStrForFormat);
}

/// The diagnostics of parsing `text` and of its top-level assignments.
fn diagnostics_of(text: &str) -> Vec<ErrorId> {
    let (block, errors) = parse_text(text);
    let globals = Globals::new();
    let mut ids: Vec<ErrorId> = errors.iter().map(|e| e.id).collect();
    for stmt in &block.statements {
        if let NodeType::Assign(a) = &stmt.node.expr {
            let range = a.assignable.id.range;
            let name = &text[range.start..range.end];
            let is_unit = globals.units_view.units.iter().any(|u| u == name);
            let is_function = globals.global_function_defs.iter().any(|(k, _)| k == name);
            let (d, _) = assignment_diagnostics(name, range, false, is_function, is_unit, false, block.scope.strict);
            ids.extend(d.iter().map(|e| e.id));
        }
    }
    ids
}

fn test_error(text: &str, error_id: ErrorId) {
    let ids = diagnostics_of(text);
    assert_ne!(ids.iter().filter(|&&e| e == error_id).count(), 0, "statement \"{}\" did not report error {:?}", text, error_id);
}

#[test]
fn test_strict() {
    test_error("#define strict\n  function ff(a) { a+1; } function ff(b) { b+1; } ", ErrorId::FunctionOverride);
    test_error("function ff(a) { a+1; } function ff(b) { b+1; } ", ErrorId::WFunctionOverride);
    test_error("mm=23", ErrorId::WVarIsUnit);
    test_error("#define strict\n  mm=23", ErrorId::VarIsUnit);
}
