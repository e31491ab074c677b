use math_parser::globals::Globals;
use math_parser::resolver::unit::{create_unit_defs, Unit, UnitProperty, UnitTag, UnitsView};

#[test]
fn unit_test_units() {
    let globals = Globals::new();
    let mut view = UnitsView::new();
    view.units.clear();
    view.add_class(&UnitProperty::ANGLE, &globals.unit_defs);
    assert_eq!(view.units.len(), 2);
}

#[test]
fn test_clone_units() {
    let globals = Globals::new();
    let mut view = UnitsView::new();
    view.units.clear();
    view.add_class(&UnitProperty::ANGLE, &globals.unit_defs);
    view.add_class(&UnitProperty::TEMP, &globals.unit_defs);
    assert_eq!(view.units.len(), 5);

    view.remove_class(&UnitProperty::ANGLE, &globals);
    assert_eq!(view.units.len(), 3);
}

fn has(view: &UnitsView, id: &str) -> bool {
    view.units.iter().any(|u| u == id)
}

#[test]
fn unit_table_has_every_unit_once() {
    let defs = create_unit_defs();
    assert_eq!(defs.len(), 55);
    for (i, a) in defs.iter().enumerate() {
        for b in defs.iter().skip(i + 1) {
            assert_ne!(a.id, b.id);
        }
    }
    let deg = defs.iter().find(|d| d.id == "deg").unwrap();
    assert_eq!(deg.si_id, "rad");
    assert!(deg.property == UnitProperty::ANGLE);
}

#[test]
fn default_view_leaves_out_short_date_units() {
    let globals = Globals::new();
    assert_eq!(globals.units_view.units.len(), 47);
    assert!(has(&globals.units_view, "seconds"));
    assert!(has(&globals.units_view, "mV"));
    assert!(has(&globals.units_view, ""));
    assert!(!has(&globals.units_view, "s"));
    assert!(!has(&globals.units_view, "ms"));
}

#[test]
fn adding_a_class_twice_adds_nothing() {
    let globals = Globals::new();
    let mut view = UnitsView::new();
    view.add_class(&UnitProperty::LENGTH, &globals.unit_defs);
    view.add_class(&UnitProperty::LENGTH, &globals.unit_defs);
    assert_eq!(view.units.len(), 12);
}

#[test]
fn tagged_units_come_and_go() {
    let globals = Globals::new();
    let mut view = UnitsView::new();
    view.add_tagged(&UnitTag::ShortDateTime, &globals);
    assert_eq!(view.units.len(), 8);
    assert!(has(&view, "mon"));
    view.add_tagged(&UnitTag::DateTime, &globals);
    assert_eq!(view.units.len(), 16);
    view.remove_tagged(UnitTag::LongDateTime, &globals.unit_defs);
    assert_eq!(view.units.len(), 8);
    assert!(!has(&view, "months"));
    assert!(has(&view, "mon"));
}

#[test]
fn default_classes() {
    let globals = Globals::new();
    let mut view = UnitsView::new();
    view.add_default_classes(&globals.unit_defs);
    assert_eq!(view.units.len(), 47);
    assert!(!has(&view, "V"));
    assert!(!has(&view, "A"));
    assert!(has(&view, "gal"));
}

#[test]
fn get_def_only_for_accepted_units() {
    let globals = Globals::new();
    let km = globals.units_view.get_def("km", &globals).unwrap();
    assert_eq!(km.si_id, "m");
    assert!(km.property == UnitProperty::LENGTH);
    assert!(globals.units_view.get_def("s", &globals).is_none());
    assert!(globals.units_view.get_def("parsec", &globals).is_none());
}

#[test]
fn what_a_unit_measures() {
    let globals = Globals::new();
    assert!(globals.is_unit(&Unit::from_id("days"), UnitProperty::DURATION));
    assert!(globals.is_unit(&Unit::from_id("d"), UnitProperty::DURATION));
    assert!(!globals.is_unit(&Unit::from_id("mm"), UnitProperty::DURATION));
    assert!(!globals.is_unit(&Unit::from_id("parsec"), UnitProperty::LENGTH));
}
