use math_parser::functions::{FunctionType, FunctionView};
use math_parser::globals::Globals;

fn callable(view: &FunctionView, id: &str) -> bool {
    view.ids.iter().any(|name| name == id)
}

#[test]
fn groups_of_functions_are_switched_off_and_on() {
    let globals = Globals::new();
    let mut view = FunctionView::from_globals(&globals);
    assert_eq!(view.ids.len(), 27);
    view.remove_type(FunctionType::Trig, &globals);
    assert_eq!(view.ids.len(), 21);
    assert!(!callable(&view, "sin"));
    assert!(callable(&view, "sum"));
    view.add_type(FunctionType::Trig, &globals);
    assert_eq!(view.ids.len(), 27);
    assert!(callable(&view, "atan"));
}

#[test]
fn adding_all_functions_adds_each_once() {
    let globals = Globals::new();
    let mut view = FunctionView { ids: Vec::new() };
    view.add_type(FunctionType::Date, &globals);
    assert_eq!(view.ids.len(), 2);
    view.add_all(&globals.global_function_defs);
    assert_eq!(view.ids.len(), 27);
    view.remove_type(FunctionType::Arithm, &globals);
    assert_eq!(view.ids.len(), 18);
    assert!(!callable(&view, "factorial"));
    assert!(callable(&view, "now"));
}
