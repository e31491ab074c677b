use vstd::prelude::*;
use crate::errors;
use crate::errors::{Error, ErrorId};
use crate::tokenizer::cursor::Range;

pub mod operator;
pub mod scope;
pub mod unit;
pub mod value;

verus! {

/// What assigning to a name is told, and whether the value is stored: a name not yet a
/// variable that names a function is warned about, and one that names a unit is warned
/// about (an error under `#define strict`); a constant is warned about being redefined,
/// and under `#define strict` that is an error and nothing is stored.
pub open spec fn spec_assignment_diagnostics(var_known: bool, is_function: bool, is_unit: bool, is_constant: bool, strict: bool) -> (Seq<ErrorId>, bool) {
    let for_function: Seq<ErrorId> = if !var_known && is_function { seq![ErrorId::WVarIsFunction] } else { Seq::empty() };
    let for_unit: Seq<ErrorId> = if !var_known && is_unit {
        seq![if strict { ErrorId::VarIsUnit } else { ErrorId::WVarIsUnit }]
    } else {
        Seq::empty()
    };
    let for_constant: Seq<ErrorId> = if is_constant {
        seq![if strict { ErrorId::ConstRedef } else { ErrorId::WConstRedef }]
    } else {
        Seq::empty()
    };
    (for_function + for_unit + for_constant, !(is_constant && strict))
}

/// The kinds of a list of diagnostics.
pub open spec fn error_ids(errors: Seq<Error>) -> Seq<ErrorId> {
    errors.map_values(|e: Error| e.id)
}

/// The diagnostics of an assignment to `id` at `range` (see
/// `spec_assignment_diagnostics`), and whether the value is stored.
pub fn assignment_diagnostics(id: &str, range: Range, var_known: bool, is_function: bool, is_unit: bool, is_constant: bool, strict: bool) -> (r: (Vec<Error>, bool))
    ensures
        (error_ids(r.0@), r.1) == spec_assignment_diagnostics(var_known, is_function, is_unit, is_constant, strict),
        forall|i: int| 0 <= i < r.0@.len() ==> (#[trigger] r.0@[i]).range == range,
{
    let mut v: Vec<Error> = Vec::new();
    if !var_known && is_function {
        v.push(errors::w_var_is_function(id, range));
    }
    if !var_known && is_unit {
        if strict {
            v.push(errors::var_is_unit(id, range));
        } else {
            v.push(errors::w_var_is_unit(id, range));
        }
    }
    if is_constant {
        if strict {
            v.push(errors::const_redef(id, range));
        } else {
            v.push(errors::w_const_redef(id, range));
        }
    }
    assert(error_ids(v@) =~= spec_assignment_diagnostics(var_known, is_function, is_unit, is_constant, strict).0);
    (v, !(is_constant && strict))
}

} // verus!
