use vstd::prelude::*;
use crate::date::timepoint::DateFormat;
use crate::functions::{FunctionType, FunctionView, spec_type_names, table_keys};
use crate::globals::Globals;
use crate::parser::nodes::DefineType;
use crate::resolver::unit::{UnitProperty, UnitSelection, UnitTag, UnitsView, picked};

verus! {

/// Which character a scope reads as the decimal separator of a formatted number.
#[derive(Clone, Copy, Debug, PartialEq, Eq, Structural)]
pub enum DecimalChar { Dot, Comma, Auto }

/// The date format that `#define` of `d` sets, or `f` where it sets none.
pub open spec fn define_date_format(d: DefineType, f: DateFormat) -> DateFormat {
    match d {
        DefineType::Ymd => DateFormat::YMD,
        DefineType::Dmy => DateFormat::DMY,
        DefineType::Mdy => DateFormat::MDY,
        _ => f,
    }
}

/// The decimal separator that `#define` of `d` sets, or `c` where it sets none.
pub open spec fn define_decimal_char(d: DefineType, c: DecimalChar) -> DecimalChar {
    match d {
        DefineType::DecimalDot => DecimalChar::Dot,
        DefineType::DecimalComma => DecimalChar::Comma,
        DefineType::DecimalAuto => DecimalChar::Auto,
        _ => c,
    }
}

/// The unit `id` is one that `d` adds (by `#define`) or removes (by `#undef`): the long
/// or short date and time units, or the electric ones.
pub open spec fn define_units(d: DefineType, globals: &Globals, id: Seq<char>) -> bool {
    let defs = globals.unit_defs@;
    match d {
        DefineType::DateUnits => picked(defs, UnitSelection::Tagged(UnitTag::LongDateTime), id),
        DefineType::ShortDateUnits => picked(defs, UnitSelection::Tagged(UnitTag::ShortDateTime), id),
        DefineType::Electric => picked(defs, UnitSelection::Class(UnitProperty::VOLTAGE), id)
            || picked(defs, UnitSelection::Class(UnitProperty::CURRENT), id)
            || picked(defs, UnitSelection::Class(UnitProperty::RESISTANCE), id),
        _ => false,
    }
}

/// The group of functions that `d` names, if it names one.
pub open spec fn define_function_group(d: DefineType) -> Option<FunctionType> {
    match d {
        DefineType::Trig => Some(FunctionType::Trig),
        DefineType::Arithm => Some(FunctionType::Arithm),
        DefineType::Date => Some(FunctionType::Date),
        _ => None,
    }
}

/// The built-in function `x` is one that `#define` of `d` makes callable: one of its
/// group, or any for `default`.
pub open spec fn define_functions(d: DefineType, globals: &Globals, x: Seq<char>) -> bool {
    let keys = table_keys(globals.global_function_defs@);
    match define_function_group(d) {
        Some(g) => spec_type_names(g).contains(x) && keys.contains(x),
        None => d is Default && keys.contains(x),
    }
}

/// Applies the setting `d` of a `#define` to the settings of a scope: a date format,
/// strictness, a decimal separator, units or functions accepted besides those that were.
/// A precision is left to the caller, which gets `true` for it.
pub fn apply_define(
    d: &DefineType,
    date_format: &mut DateFormat,
    strict: &mut bool,
    decimal_char: &mut DecimalChar,
    units_view: &mut UnitsView,
    function_view: &mut FunctionView,
    globals: &Globals,
) -> (precision: bool)
    requires
        old(units_view).wf(),
        old(function_view).wf(),
    ensures
        precision == (*d is Precision),
        final(function_view).wf(),
        *final(date_format) == define_date_format(*d, *old(date_format)),
        *final(strict) == (*old(strict) || *d is Strict),
        *final(decimal_char) == define_decimal_char(*d, *old(decimal_char)),
        final(units_view).wf(),
        old(units_view).within(globals.unit_defs@) ==> final(units_view).within(globals.unit_defs@),
        forall|id: Seq<char>| #![trigger final(units_view).lists(id)]
            final(units_view).lists(id) <==> (old(units_view).lists(id) || define_units(*d, globals, id)),
        forall|x: Seq<char>| #![trigger final(function_view).lists(x)]
            final(function_view).lists(x) <==> (old(function_view).lists(x) || define_functions(*d, globals, x)),
{
    match d {
        DefineType::Ymd => *date_format = DateFormat::YMD,
        DefineType::Dmy => *date_format = DateFormat::DMY,
        DefineType::Mdy => *date_format = DateFormat::MDY,
        DefineType::Precision { .. } => return true,
        DefineType::DateUnits => units_view.add_tagged(&UnitTag::LongDateTime, globals),
        DefineType::ShortDateUnits => units_view.add_tagged(&UnitTag::ShortDateTime, globals),
        DefineType::Electric => {
            units_view.add_class(&UnitProperty::VOLTAGE, &globals.unit_defs);
            units_view.add_class(&UnitProperty::CURRENT, &globals.unit_defs);
            units_view.add_class(&UnitProperty::RESISTANCE, &globals.unit_defs);
        },
        DefineType::Strict => *strict = true,
        DefineType::DecimalDot => *decimal_char = DecimalChar::Dot,
        DefineType::DecimalComma => *decimal_char = DecimalChar::Comma,
        DefineType::DecimalAuto => *decimal_char = DecimalChar::Auto,
        DefineType::Trig => function_view.add_type(FunctionType::Trig, globals),
        DefineType::Arithm => function_view.add_type(FunctionType::Arithm, globals),
        DefineType::Date => function_view.add_type(FunctionType::Date, globals),
        DefineType::Default => function_view.add_all(&globals.global_function_defs),
    }
    false
}

/// Undoes the setting `d` of an `#undef` in the settings of a scope: strictness ends, and
/// units or functions are no longer accepted. Only those settings can be undone: for
/// any other, nothing changes and the result is `false`.
pub fn apply_undefine(
    d: &DefineType,
    strict: &mut bool,
    units_view: &mut UnitsView,
    function_view: &mut FunctionView,
    globals: &Globals,
) -> (ok: bool)
    requires
        old(units_view).wf(),
        old(units_view).within(globals.unit_defs@),
        old(function_view).wf(),
    ensures
        final(function_view).wf(),
        ok == (*d is DateUnits || *d is ShortDateUnits || *d is Electric || *d is Strict || define_function_group(*d) is Some),
        *final(strict) == (*old(strict) && !(*d is Strict)),
        final(units_view).wf(),
        final(units_view).within(globals.unit_defs@),
        forall|id: Seq<char>| #![trigger final(units_view).lists(id)]
            final(units_view).lists(id) <==> (old(units_view).lists(id) && !define_units(*d, globals, id)),
        forall|x: Seq<char>| #![trigger final(function_view).lists(x)]
            final(function_view).lists(x) <==> (old(function_view).lists(x) && !(define_function_group(*d) matches Some(g)
                && spec_type_names(g).contains(x))),
{
    match d {
        DefineType::DateUnits => units_view.remove_tagged(UnitTag::LongDateTime, &globals.unit_defs),
        DefineType::ShortDateUnits => units_view.remove_tagged(UnitTag::ShortDateTime, &globals.unit_defs),
        DefineType::Electric => {
            units_view.remove_class(&UnitProperty::VOLTAGE, globals);
            units_view.remove_class(&UnitProperty::CURRENT, globals);
            units_view.remove_class(&UnitProperty::RESISTANCE, globals);
        },
        DefineType::Strict => *strict = false,
        DefineType::Trig => function_view.remove_type(FunctionType::Trig, globals),
        DefineType::Arithm => function_view.remove_type(FunctionType::Arithm, globals),
        DefineType::Date => function_view.remove_type(FunctionType::Date, globals),
        _ => return false,
    }
    true
}


/// `#define ymd`, `#define dmy` and `#define mdy` set the date format to the one they
/// name, whatever it was, so that a date is then read year first, day first or month
/// first; any other setting leaves the format as it was.
pub proof fn lemma_define_sets_date_format(d: DefineType, f: DateFormat)
    ensures
        define_date_format(DefineType::Ymd, f) == DateFormat::YMD,
        define_date_format(DefineType::Dmy, f) == DateFormat::DMY,
        define_date_format(DefineType::Mdy, f) == DateFormat::MDY,
        !(d is Ymd || d is Dmy || d is Mdy) ==> define_date_format(d, f) == f,
{
}

} // verus!
