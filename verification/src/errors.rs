use vstd::prelude::*;
use crate::text::views_of;
use crate::tokenizer::cursor::Range;

verus! {

/// Severity of a diagnostic: a real error or a warning.
#[derive(Clone, Copy, Debug, PartialEq, Eq, Structural)]
pub enum ErrorType {
    E,
    W,
}

/// Identifies every kind of diagnostic the parser and resolver can report.
#[derive(Clone, Copy, Debug, PartialEq, Eq, Structural)]
pub enum ErrorId {
    UnknownExpr,
    NoOp,
    Eos,
    VarNotDef,
    VarNoValue,
    FuncNotDef,
    FuncNotAccessible,
    UnitNotDef,
    DefineNotDef,
    UndefNotOk,
    ExpHasUnit,
    FuncArgWrong,
    FuncArgWrongType,
    FuncNoBody,
    FuncNoOpenPar,
    FuncFailed,
    WDivImplMult,
    WPowImplMult,
    WAssumingUnit,
    WVarIsUnit,
    VarIsUnit,
    WVarIsFunction,
    WFunctionOverride,
    FunctionOverride,
    WUnitIsVar,
    WExplicitUnitsExpected,
    EExplicitUnitsExpected,
    UnitPropDiff,
    UnitPropWrong,
    ConstRedef,
    WConstRedef,
    DateFragNoDate,
    DateFragNoDuration,
    VarExpected,
    Expected,
    ExpectedId,
    ExpectedNumericValue,
    ValueError,
    DateInvFrag,
    DurInvFrag,
    InvDateStr,
    InvDateStrForFormat,
    InvDateValue,
    InvDate,
    InvList,
    InvNumberStr,
    InvFormat,
}

/// The severity that belongs to each diagnostic kind.
pub open spec fn spec_error_type(id: ErrorId) -> ErrorType {
    match id {
        ErrorId::UnknownExpr => ErrorType::E,
        ErrorId::NoOp => ErrorType::E,
        ErrorId::Eos => ErrorType::E,
        ErrorId::VarNotDef => ErrorType::E,
        ErrorId::VarNoValue => ErrorType::E,
        ErrorId::FuncNotDef => ErrorType::E,
        ErrorId::FuncNotAccessible => ErrorType::E,
        ErrorId::UnitNotDef => ErrorType::E,
        ErrorId::DefineNotDef => ErrorType::E,
        ErrorId::UndefNotOk => ErrorType::E,
        ErrorId::ExpHasUnit => ErrorType::E,
        ErrorId::FuncArgWrong => ErrorType::E,
        ErrorId::FuncArgWrongType => ErrorType::E,
        ErrorId::FuncNoBody => ErrorType::E,
        ErrorId::FuncNoOpenPar => ErrorType::E,
        ErrorId::FuncFailed => ErrorType::E,
        ErrorId::WDivImplMult => ErrorType::W,
        ErrorId::WPowImplMult => ErrorType::W,
        ErrorId::WAssumingUnit => ErrorType::W,
        ErrorId::WVarIsUnit => ErrorType::W,
        ErrorId::VarIsUnit => ErrorType::E,
        ErrorId::WVarIsFunction => ErrorType::W,
        ErrorId::WFunctionOverride => ErrorType::W,
        ErrorId::FunctionOverride => ErrorType::E,
        ErrorId::WUnitIsVar => ErrorType::W,
        ErrorId::WExplicitUnitsExpected => ErrorType::W,
        ErrorId::EExplicitUnitsExpected => ErrorType::E,
        ErrorId::UnitPropDiff => ErrorType::E,
        ErrorId::UnitPropWrong => ErrorType::E,
        ErrorId::ConstRedef => ErrorType::E,
        ErrorId::WConstRedef => ErrorType::W,
        ErrorId::DateFragNoDate => ErrorType::E,
        ErrorId::DateFragNoDuration => ErrorType::E,
        ErrorId::VarExpected => ErrorType::E,
        ErrorId::Expected => ErrorType::E,
        ErrorId::ExpectedId => ErrorType::E,
        ErrorId::ExpectedNumericValue => ErrorType::E,
        ErrorId::ValueError => ErrorType::E,
        ErrorId::DateInvFrag => ErrorType::E,
        ErrorId::DurInvFrag => ErrorType::E,
        ErrorId::InvDateStr => ErrorType::E,
        ErrorId::InvDateStrForFormat => ErrorType::E,
        ErrorId::InvDateValue => ErrorType::E,
        ErrorId::InvDate => ErrorType::E,
        ErrorId::InvList => ErrorType::E,
        ErrorId::InvNumberStr => ErrorType::E,
        ErrorId::InvFormat => ErrorType::E,
    }
}

/// Returns the severity of a diagnostic kind.
pub fn error_type_of(id: ErrorId) -> (t: ErrorType)
    ensures
        t == spec_error_type(id),
{
    match id {
        ErrorId::UnknownExpr => ErrorType::E,
        ErrorId::NoOp => ErrorType::E,
        ErrorId::Eos => ErrorType::E,
        ErrorId::VarNotDef => ErrorType::E,
        ErrorId::VarNoValue => ErrorType::E,
        ErrorId::FuncNotDef => ErrorType::E,
        ErrorId::FuncNotAccessible => ErrorType::E,
        ErrorId::UnitNotDef => ErrorType::E,
        ErrorId::DefineNotDef => ErrorType::E,
        ErrorId::UndefNotOk => ErrorType::E,
        ErrorId::ExpHasUnit => ErrorType::E,
        ErrorId::FuncArgWrong => ErrorType::E,
        ErrorId::FuncArgWrongType => ErrorType::E,
        ErrorId::FuncNoBody => ErrorType::E,
        ErrorId::FuncNoOpenPar => ErrorType::E,
        ErrorId::FuncFailed => ErrorType::E,
        ErrorId::WDivImplMult => ErrorType::W,
        ErrorId::WPowImplMult => ErrorType::W,
        ErrorId::WAssumingUnit => ErrorType::W,
        ErrorId::WVarIsUnit => ErrorType::W,
        ErrorId::VarIsUnit => ErrorType::E,
        ErrorId::WVarIsFunction => ErrorType::W,
        ErrorId::WFunctionOverride => ErrorType::W,
        ErrorId::FunctionOverride => ErrorType::E,
        ErrorId::WUnitIsVar => ErrorType::W,
        ErrorId::WExplicitUnitsExpected => ErrorType::W,
        ErrorId::EExplicitUnitsExpected => ErrorType::E,
        ErrorId::UnitPropDiff => ErrorType::E,
        ErrorId::UnitPropWrong => ErrorType::E,
        ErrorId::ConstRedef => ErrorType::E,
        ErrorId::WConstRedef => ErrorType::W,
        ErrorId::DateFragNoDate => ErrorType::E,
        ErrorId::DateFragNoDuration => ErrorType::E,
        ErrorId::VarExpected => ErrorType::E,
        ErrorId::Expected => ErrorType::E,
        ErrorId::ExpectedId => ErrorType::E,
        ErrorId::ExpectedNumericValue => ErrorType::E,
        ErrorId::ValueError => ErrorType::E,
        ErrorId::DateInvFrag => ErrorType::E,
        ErrorId::DurInvFrag => ErrorType::E,
        ErrorId::InvDateStr => ErrorType::E,
        ErrorId::InvDateStrForFormat => ErrorType::E,
        ErrorId::InvDateValue => ErrorType::E,
        ErrorId::InvDate => ErrorType::E,
        ErrorId::InvList => ErrorType::E,
        ErrorId::InvNumberStr => ErrorType::E,
        ErrorId::InvFormat => ErrorType::E,
    }
}

/// The fixed text of a diagnostic message, cut at each parameter: a message with
/// `n` parameters has `n + 1` pieces.
pub open spec fn message_pieces(id: ErrorId) -> Seq<Seq<char>> {
    match id {
        ErrorId::UnknownExpr => seq!["Unknown expression `"@, "`."@],
        ErrorId::NoOp => seq!["No operator `"@, "` defined for `"@, "` and `"@, "`."@],
        ErrorId::Eos => seq!["Unexpected end of file."@],
        ErrorId::VarNotDef => seq!["variable `"@, "` is not defined."@],
        ErrorId::VarNoValue => seq!["variable `"@, "` has no value assigned."@],
        ErrorId::FuncNotDef => seq!["function `"@, "` is not defined."@],
        ErrorId::FuncNotAccessible => seq!["function `"@, "` is not accessible."@],
        ErrorId::UnitNotDef => seq!["unit `"@, "` is not defined."@],
        ErrorId::DefineNotDef => seq!["#define: option `"@, "` not recognized."@],
        ErrorId::UndefNotOk => seq!["#undef: option `"@, "` not recognized."@],
        ErrorId::ExpHasUnit => seq!["Exponent has a unit ("@, ")."@],
        ErrorId::FuncArgWrong => seq!["Number of argument(s) for function `"@, "` are wrong."@],
        ErrorId::FuncArgWrongType => seq!["Argument(s) for function `"@, "` are of the wrong type. "@, ""@],
        ErrorId::FuncNoBody => seq!["Function body is empty for function `"@, "`."@],
        ErrorId::FuncNoOpenPar => seq!["Missing `(` for function `"@, "`."@],
        ErrorId::FuncFailed => seq!["Error in function `"@, "`."@],
        ErrorId::WDivImplMult => seq!["Warning: ambiguous expression: division followed by implicit multiplication."@],
        ErrorId::WPowImplMult => seq!["Warning: ambiguous expression: exponential combined with implicit multiplication."@],
        ErrorId::WAssumingUnit => seq!["Warning: not all values have a unit. Assuming same unit as the other values."@],
        ErrorId::WVarIsUnit => seq!["Warning; variable `"@, "` overrides unit with same name."@],
        ErrorId::VarIsUnit => seq!["Variable `"@, "` overrides unit with same name."@],
        ErrorId::WVarIsFunction => seq!["Warning; variable `"@, "` overrides function with same name."@],
        ErrorId::WFunctionOverride => seq!["Warning; function `"@, "` overrides an existing function."@],
        ErrorId::FunctionOverride => seq!["Function `"@, "` overrides an existing function."@],
        ErrorId::WUnitIsVar => seq!["Warning: ambiguous implicit multiplication: `"@, "` is both a variable and a unit."@],
        ErrorId::WExplicitUnitsExpected => seq!["Warning: explicit unit expected: `"@, "`"@],
        ErrorId::EExplicitUnitsExpected => seq!["Explicit unit expected: `"@, "`"@],
        ErrorId::UnitPropDiff => seq!["The units are not for the same property (lenght, temperature,...)."@],
        ErrorId::UnitPropWrong => seq!["The units are not for the property "@, "."@],
        ErrorId::ConstRedef => seq!["Redefinition of constant `"@, "` not allowed."@],
        ErrorId::WConstRedef => seq!["Warning: redefinition of constant `"@, "`."@],
        ErrorId::DateFragNoDate => seq!["Cannot get `"@, "` fragment. Value is not a date."@],
        ErrorId::DateFragNoDuration => seq!["Cannot get `"@, "` fragment. Value is not a duration."@],
        ErrorId::VarExpected => seq!["The increment (++) or decrement (--) operator can only be used on a variable."@],
        ErrorId::Expected => seq!["Expected `"@, "`."@],
        ErrorId::ExpectedId => seq!["Expected identifier."@],
        ErrorId::ExpectedNumericValue => seq!["Expected numeric value."@],
        ErrorId::ValueError => seq![""@, ""@],
        ErrorId::DateInvFrag => seq!["Invalid fragment `"@, "`for date."@],
        ErrorId::DurInvFrag => seq!["Invalid fragment `"@, "` for duration."@],
        ErrorId::InvDateStr => seq!["Invalid date string: `"@, "`"@],
        ErrorId::InvDateStrForFormat => seq!["Invalid date string for format `"@, "`"@],
        ErrorId::InvDateValue => seq!["Invalid date value `"@, "` for "@, "."@],
        ErrorId::InvDate => seq!["Invalid date."@],
        ErrorId::InvList => seq!["Cannot convert value list. "@, ""@],
        ErrorId::InvNumberStr => seq!["Invalid number string: `"@, "`"@],
        ErrorId::InvFormat => seq!["Invalid format for this type of value: `"@, "`"@],
    }
}

fn pieces_of(id: ErrorId) -> (v: Vec<&'static str>)
    ensures
        v@.len() == message_pieces(id).len(),
        forall|i: int| 0 <= i < v@.len() ==> #[trigger] v@[i]@ == message_pieces(id)[i],
{
    match id {
        ErrorId::UnknownExpr => vec!["Unknown expression `", "`."],
        ErrorId::NoOp => vec!["No operator `", "` defined for `", "` and `", "`."],
        ErrorId::Eos => vec!["Unexpected end of file."],
        ErrorId::VarNotDef => vec!["variable `", "` is not defined."],
        ErrorId::VarNoValue => vec!["variable `", "` has no value assigned."],
        ErrorId::FuncNotDef => vec!["function `", "` is not defined."],
        ErrorId::FuncNotAccessible => vec!["function `", "` is not accessible."],
        ErrorId::UnitNotDef => vec!["unit `", "` is not defined."],
        ErrorId::DefineNotDef => vec!["#define: option `", "` not recognized."],
        ErrorId::UndefNotOk => vec!["#undef: option `", "` not recognized."],
        ErrorId::ExpHasUnit => vec!["Exponent has a unit (", ")."],
        ErrorId::FuncArgWrong => vec!["Number of argument(s) for function `", "` are wrong."],
        ErrorId::FuncArgWrongType => vec!["Argument(s) for function `", "` are of the wrong type. ", ""],
        ErrorId::FuncNoBody => vec!["Function body is empty for function `", "`."],
        ErrorId::FuncNoOpenPar => vec!["Missing `(` for function `", "`."],
        ErrorId::FuncFailed => vec!["Error in function `", "`."],
        ErrorId::WDivImplMult => vec!["Warning: ambiguous expression: division followed by implicit multiplication."],
        ErrorId::WPowImplMult => vec!["Warning: ambiguous expression: exponential combined with implicit multiplication."],
        ErrorId::WAssumingUnit => vec!["Warning: not all values have a unit. Assuming same unit as the other values."],
        ErrorId::WVarIsUnit => vec!["Warning; variable `", "` overrides unit with same name."],
        ErrorId::VarIsUnit => vec!["Variable `", "` overrides unit with same name."],
        ErrorId::WVarIsFunction => vec!["Warning; variable `", "` overrides function with same name."],
        ErrorId::WFunctionOverride => vec!["Warning; function `", "` overrides an existing function."],
        ErrorId::FunctionOverride => vec!["Function `", "` overrides an existing function."],
        ErrorId::WUnitIsVar => vec!["Warning: ambiguous implicit multiplication: `", "` is both a variable and a unit."],
        ErrorId::WExplicitUnitsExpected => vec!["Warning: explicit unit expected: `", "`"],
        ErrorId::EExplicitUnitsExpected => vec!["Explicit unit expected: `", "`"],
        ErrorId::UnitPropDiff => vec!["The units are not for the same property (lenght, temperature,...)."],
        ErrorId::UnitPropWrong => vec!["The units are not for the property ", "."],
        ErrorId::ConstRedef => vec!["Redefinition of constant `", "` not allowed."],
        ErrorId::WConstRedef => vec!["Warning: redefinition of constant `", "`."],
        ErrorId::DateFragNoDate => vec!["Cannot get `", "` fragment. Value is not a date."],
        ErrorId::DateFragNoDuration => vec!["Cannot get `", "` fragment. Value is not a duration."],
        ErrorId::VarExpected => vec!["The increment (++) or decrement (--) operator can only be used on a variable."],
        ErrorId::Expected => vec!["Expected `", "`."],
        ErrorId::ExpectedId => vec!["Expected identifier."],
        ErrorId::ExpectedNumericValue => vec!["Expected numeric value."],
        ErrorId::ValueError => vec!["", ""],
        ErrorId::DateInvFrag => vec!["Invalid fragment `", "`for date."],
        ErrorId::DurInvFrag => vec!["Invalid fragment `", "` for duration."],
        ErrorId::InvDateStr => vec!["Invalid date string: `", "`"],
        ErrorId::InvDateStrForFormat => vec!["Invalid date string for format `", "`"],
        ErrorId::InvDateValue => vec!["Invalid date value `", "` for ", "."],
        ErrorId::InvDate => vec!["Invalid date."],
        ErrorId::InvList => vec!["Cannot convert value list. ", ""],
        ErrorId::InvNumberStr => vec!["Invalid number string: `", "`"],
        ErrorId::InvFormat => vec!["Invalid format for this type of value: `", "`"],
    }
}

/// The argument at index `j`, or the empty text where fewer arguments were given.
pub open spec fn arg_or_empty(args: Seq<Seq<char>>, j: int) -> Seq<char> {
    if 0 <= j < args.len() {
        args[j]
    } else {
        Seq::empty()
    }
}

/// The first `k` pieces of a message, each piece after the first preceded by its argument.
pub open spec fn fill_pieces(pieces: Seq<Seq<char>>, args: Seq<Seq<char>>, k: int) -> Seq<char>
    decreases k,
{
    if k <= 0 {
        Seq::empty()
    } else if k == 1 {
        pieces[0]
    } else {
        fill_pieces(pieces, args, k - 1) + arg_or_empty(args, k - 2) + pieces[k - 1]
    }
}

/// The full text of a diagnostic with the given arguments substituted in order.
pub open spec fn spec_message(id: ErrorId, args: Seq<Seq<char>>) -> Seq<char> {
    fill_pieces(message_pieces(id), args, message_pieces(id).len() as int)
}

/// A diagnostic: its kind, expanded message, severity and source range.
pub struct Error {
    pub id: ErrorId,
    pub message: String,
    pub error_type: ErrorType,
    pub range: Range,
    pub stack_trace: Option<Vec<Error>>,
}

/// What a diagnostic says: its kind, severity, message and range.
pub type ErrorView = (ErrorId, ErrorType, Seq<char>, Range);

impl Error {
    /// The kind, severity, message and range of this diagnostic.
    pub open spec fn view(&self) -> ErrorView {
        (self.id, self.error_type, self.message@, self.range)
    }

    /// Builds a diagnostic of kind `id`, substituting `args` for the parameters of its message
    /// in order; a parameter without an argument is left empty.
    pub fn build(id: ErrorId, range: Range, args: &[&str]) -> (e: Error)
        ensures
            e.id == id,
            e.error_type == spec_error_type(id),
            e.range == range,
            e.message@ == spec_message(id, views_of(args@)),
            e.stack_trace is None,
    {
        let pieces = pieces_of(id);
        let mut message = String::new();
        let mut i: usize = 0;
        while i < pieces.len()
            invariant
                0 <= i <= pieces@.len(),
                pieces@.len() == message_pieces(id).len(),
                forall|j: int| 0 <= j < pieces@.len() ==> #[trigger] pieces@[j]@ == message_pieces(id)[j],
                message@ == fill_pieces(message_pieces(id), views_of(args@), i as int),
            decreases pieces@.len() - i,
        {
            if i > 0 {
                if i - 1 < args.len() {
                    message.append(args[i - 1]);
                }
            }
            message.append(pieces[i]);
            i = i + 1;
            assert(message@ == fill_pieces(message_pieces(id), views_of(args@), i as int));
        }
        Error { id, message, error_type: error_type_of(id), range, stack_trace: None }
    }

    /// A copy of this diagnostic with the same kind, message, severity and range,
    /// and a copy of its stack trace.
    pub fn duplicate(&self) -> (e: Error)
        ensures
            e.id == self.id,
            e.message@ == self.message@,
            e.error_type == self.error_type,
            e.range == self.range,
            e.stack_trace is Some <==> self.stack_trace is Some,
        decreases self,
    {
        let stack_trace = match &self.stack_trace {
            None => None,
            Some(trace) => {
                let mut copy: Vec<Error> = Vec::new();
                let mut i: usize = 0;
                while i < trace.len()
                    invariant
                        0 <= i <= trace@.len(),
                        self.stack_trace == Some(*trace),
                    decreases trace@.len() - i,
                {
                    proof {
                        assert(decreases_to!(self => self.stack_trace));
                        assert(decreases_to!(self.stack_trace => self.stack_trace->0));
                        assert(decreases_to!(trace => trace@));
                        assert(decreases_to!(trace@ => trace@[i as int]));
                    }
                    copy.push(trace[i].duplicate());
                    i = i + 1;
                }
                Some(copy)
            },
        };
        Error {
            id: self.id,
            message: self.message.clone(),
            error_type: self.error_type,
            range: self.range,
            stack_trace,
        }
    }
}

/// Whether any diagnostic in the list is a real error rather than a warning.
pub open spec fn spec_has_real_errors(errors: Seq<Error>) -> bool {
    exists|i: int| 0 <= i < errors.len() && #[trigger] errors[i].error_type == ErrorType::E
}

/// True when at least one of the diagnostics is an error (not a warning).
pub fn has_real_errors(errors: &[Error]) -> (r: bool)
    ensures
        r == spec_has_real_errors(errors@),
{
    let mut i: usize = 0;
    while i < errors.len()
        invariant
            0 <= i <= errors@.len(),
            forall|j: int| 0 <= j < i ==> #[trigger] errors@[j].error_type != ErrorType::E,
        decreases errors@.len() - i,
    {
        if errors[i].error_type == ErrorType::E {
            return true;
        }
        i = i + 1;
    }
    false
}

/// Builders named after each diagnostic kind; each takes the message parameters in order.

/// Builds a `UnknownExpr` diagnostic.
pub fn unknown_expr(expression: &str, range: Range) -> (e: Error)
    ensures
        e.id == ErrorId::UnknownExpr,
        e.error_type == ErrorType::E,
        e.range == range,
        e.message@ == spec_message(ErrorId::UnknownExpr, seq![expression@]),
{
    let args: [&str; 1] = [expression];
    proof {
        assert(views_of(args@) =~= seq![expression@]);
    }
    Error::build(ErrorId::UnknownExpr, range, args.as_slice())
}

/// Builds a `NoOp` diagnostic.
pub fn no_op(operator: &str, operand1: &str, operand2: &str, range: Range) -> (e: Error)
    ensures
        e.id == ErrorId::NoOp,
        e.error_type == ErrorType::E,
        e.range == range,
        e.message@ == spec_message(ErrorId::NoOp, seq![operator@, operand1@, operand2@]),
{
    let args: [&str; 3] = [operator, operand1, operand2];
    proof {
        assert(views_of(args@) =~= seq![operator@, operand1@, operand2@]);
    }
    Error::build(ErrorId::NoOp, range, args.as_slice())
}

/// Builds a `Eos` diagnostic.
pub fn eos(range: Range) -> (e: Error)
    ensures
        e.id == ErrorId::Eos,
        e.error_type == ErrorType::E,
        e.range == range,
        e.message@ == message_pieces(ErrorId::Eos)[0],
{
    let args: [&str; 0] = [];
    proof {
        assert(views_of(args@) =~= seq![]);
    }
    Error::build(ErrorId::Eos, range, args.as_slice())
}

/// Builds a `VarNotDef` diagnostic.
pub fn var_not_def(variable: &str, range: Range) -> (e: Error)
    ensures
        e.id == ErrorId::VarNotDef,
        e.error_type == ErrorType::E,
        e.range == range,
        e.message@ == spec_message(ErrorId::VarNotDef, seq![variable@]),
{
    let args: [&str; 1] = [variable];
    proof {
        assert(views_of(args@) =~= seq![variable@]);
    }
    Error::build(ErrorId::VarNotDef, range, args.as_slice())
}

/// Builds a `VarNoValue` diagnostic.
pub fn var_no_value(variable: &str, range: Range) -> (e: Error)
    ensures
        e.id == ErrorId::VarNoValue,
        e.error_type == ErrorType::E,
        e.range == range,
        e.message@ == spec_message(ErrorId::VarNoValue, seq![variable@]),
{
    let args: [&str; 1] = [variable];
    proof {
        assert(views_of(args@) =~= seq![variable@]);
    }
    Error::build(ErrorId::VarNoValue, range, args.as_slice())
}

/// Builds a `FuncNotDef` diagnostic.
pub fn func_not_def(function: &str, range: Range) -> (e: Error)
    ensures
        e.id == ErrorId::FuncNotDef,
        e.error_type == ErrorType::E,
        e.range == range,
        e.message@ == spec_message(ErrorId::FuncNotDef, seq![function@]),
{
    let args: [&str; 1] = [function];
    proof {
        assert(views_of(args@) =~= seq![function@]);
    }
    Error::build(ErrorId::FuncNotDef, range, args.as_slice())
}

/// Builds a `FuncNotAccessible` diagnostic.
pub fn func_not_accessible(function: &str, range: Range) -> (e: Error)
    ensures
        e.id == ErrorId::FuncNotAccessible,
        e.error_type == ErrorType::E,
        e.range == range,
        e.message@ == spec_message(ErrorId::FuncNotAccessible, seq![function@]),
{
    let args: [&str; 1] = [function];
    proof {
        assert(views_of(args@) =~= seq![function@]);
    }
    Error::build(ErrorId::FuncNotAccessible, range, args.as_slice())
}

/// Builds a `UnitNotDef` diagnostic.
pub fn unit_not_def(unit: &str, range: Range) -> (e: Error)
    ensures
        e.id == ErrorId::UnitNotDef,
        e.error_type == ErrorType::E,
        e.range == range,
        e.message@ == spec_message(ErrorId::UnitNotDef, seq![unit@]),
{
    let args: [&str; 1] = [unit];
    proof {
        assert(views_of(args@) =~= seq![unit@]);
    }
    Error::build(ErrorId::UnitNotDef, range, args.as_slice())
}

/// Builds a `DefineNotDef` diagnostic.
pub fn define_not_def(define_option: &str, range: Range) -> (e: Error)
    ensures
        e.id == ErrorId::DefineNotDef,
        e.error_type == ErrorType::E,
        e.range == range,
        e.message@ == spec_message(ErrorId::DefineNotDef, seq![define_option@]),
{
    let args: [&str; 1] = [define_option];
    proof {
        assert(views_of(args@) =~= seq![define_option@]);
    }
    Error::build(ErrorId::DefineNotDef, range, args.as_slice())
}

/// Builds a `UndefNotOk` diagnostic.
pub fn undef_not_ok(define_option: &str, range: Range) -> (e: Error)
    ensures
        e.id == ErrorId::UndefNotOk,
        e.error_type == ErrorType::E,
        e.range == range,
        e.message@ == spec_message(ErrorId::UndefNotOk, seq![define_option@]),
{
    let args: [&str; 1] = [define_option];
    proof {
        assert(views_of(args@) =~= seq![define_option@]);
    }
    Error::build(ErrorId::UndefNotOk, range, args.as_slice())
}

/// Builds a `ExpHasUnit` diagnostic.
pub fn exp_has_unit(unit: &str, range: Range) -> (e: Error)
    ensures
        e.id == ErrorId::ExpHasUnit,
        e.error_type == ErrorType::E,
        e.range == range,
        e.message@ == spec_message(ErrorId::ExpHasUnit, seq![unit@]),
{
    let args: [&str; 1] = [unit];
    proof {
        assert(views_of(args@) =~= seq![unit@]);
    }
    Error::build(ErrorId::ExpHasUnit, range, args.as_slice())
}

/// Builds a `FuncArgWrong` diagnostic.
pub fn func_arg_wrong(function: &str, range: Range) -> (e: Error)
    ensures
        e.id == ErrorId::FuncArgWrong,
        e.error_type == ErrorType::E,
        e.range == range,
        e.message@ == spec_message(ErrorId::FuncArgWrong, seq![function@]),
{
    let args: [&str; 1] = [function];
    proof {
        assert(views_of(args@) =~= seq![function@]);
    }
    Error::build(ErrorId::FuncArgWrong, range, args.as_slice())
}

/// Builds a `FuncArgWrongType` diagnostic.
pub fn func_arg_wrong_type(function: &str, type_info: &str, range: Range) -> (e: Error)
    ensures
        e.id == ErrorId::FuncArgWrongType,
        e.error_type == ErrorType::E,
        e.range == range,
        e.message@ == spec_message(ErrorId::FuncArgWrongType, seq![function@, type_info@]),
{
    let args: [&str; 2] = [function, type_info];
    proof {
        assert(views_of(args@) =~= seq![function@, type_info@]);
    }
    Error::build(ErrorId::FuncArgWrongType, range, args.as_slice())
}

/// Builds a `FuncNoBody` diagnostic.
pub fn func_no_body(function: &str, range: Range) -> (e: Error)
    ensures
        e.id == ErrorId::FuncNoBody,
        e.error_type == ErrorType::E,
        e.range == range,
        e.message@ == spec_message(ErrorId::FuncNoBody, seq![function@]),
{
    let args: [&str; 1] = [function];
    proof {
        assert(views_of(args@) =~= seq![function@]);
    }
    Error::build(ErrorId::FuncNoBody, range, args.as_slice())
}

/// Builds a `FuncNoOpenPar` diagnostic.
pub fn func_no_open_par(function: &str, range: Range) -> (e: Error)
    ensures
        e.id == ErrorId::FuncNoOpenPar,
        e.error_type == ErrorType::E,
        e.range == range,
        e.message@ == spec_message(ErrorId::FuncNoOpenPar, seq![function@]),
{
    let args: [&str; 1] = [function];
    proof {
        assert(views_of(args@) =~= seq![function@]);
    }
    Error::build(ErrorId::FuncNoOpenPar, range, args.as_slice())
}

/// Builds a `FuncFailed` diagnostic.
pub fn func_failed(function: &str, range: Range) -> (e: Error)
    ensures
        e.id == ErrorId::FuncFailed,
        e.error_type == ErrorType::E,
        e.range == range,
        e.message@ == spec_message(ErrorId::FuncFailed, seq![function@]),
{
    let args: [&str; 1] = [function];
    proof {
        assert(views_of(args@) =~= seq![function@]);
    }
    Error::build(ErrorId::FuncFailed, range, args.as_slice())
}

/// Builds a `WDivImplMult` diagnostic.
pub fn w_div_impl_mult(range: Range) -> (e: Error)
    ensures
        e.id == ErrorId::WDivImplMult,
        e.error_type == ErrorType::W,
        e.range == range,
        e.message@ == message_pieces(ErrorId::WDivImplMult)[0],
{
    let args: [&str; 0] = [];
    proof {
        assert(views_of(args@) =~= seq![]);
    }
    Error::build(ErrorId::WDivImplMult, range, args.as_slice())
}

/// Builds a `WPowImplMult` diagnostic.
pub fn w_pow_impl_mult(range: Range) -> (e: Error)
    ensures
        e.id == ErrorId::WPowImplMult,
        e.error_type == ErrorType::W,
        e.range == range,
        e.message@ == message_pieces(ErrorId::WPowImplMult)[0],
{
    let args: [&str; 0] = [];
    proof {
        assert(views_of(args@) =~= seq![]);
    }
    Error::build(ErrorId::WPowImplMult, range, args.as_slice())
}

/// Builds a `WAssumingUnit` diagnostic.
pub fn w_assuming_unit(range: Range) -> (e: Error)
    ensures
        e.id == ErrorId::WAssumingUnit,
        e.error_type == ErrorType::W,
        e.range == range,
        e.message@ == message_pieces(ErrorId::WAssumingUnit)[0],
{
    let args: [&str; 0] = [];
    proof {
        assert(views_of(args@) =~= seq![]);
    }
    Error::build(ErrorId::WAssumingUnit, range, args.as_slice())
}

/// Builds a `WVarIsUnit` diagnostic.
pub fn w_var_is_unit(variable: &str, range: Range) -> (e: Error)
    ensures
        e.id == ErrorId::WVarIsUnit,
        e.error_type == ErrorType::W,
        e.range == range,
        e.message@ == spec_message(ErrorId::WVarIsUnit, seq![variable@]),
{
    let args: [&str; 1] = [variable];
    proof {
        assert(views_of(args@) =~= seq![variable@]);
    }
    Error::build(ErrorId::WVarIsUnit, range, args.as_slice())
}

/// Builds a `VarIsUnit` diagnostic.
pub fn var_is_unit(variable: &str, range: Range) -> (e: Error)
    ensures
        e.id == ErrorId::VarIsUnit,
        e.error_type == ErrorType::E,
        e.range == range,
        e.message@ == spec_message(ErrorId::VarIsUnit, seq![variable@]),
{
    let args: [&str; 1] = [variable];
    proof {
        assert(views_of(args@) =~= seq![variable@]);
    }
    Error::build(ErrorId::VarIsUnit, range, args.as_slice())
}

/// Builds a `WVarIsFunction` diagnostic.
pub fn w_var_is_function(variable: &str, range: Range) -> (e: Error)
    ensures
        e.id == ErrorId::WVarIsFunction,
        e.error_type == ErrorType::W,
        e.range == range,
        e.message@ == spec_message(ErrorId::WVarIsFunction, seq![variable@]),
{
    let args: [&str; 1] = [variable];
    proof {
        assert(views_of(args@) =~= seq![variable@]);
    }
    Error::build(ErrorId::WVarIsFunction, range, args.as_slice())
}

/// Builds a `WFunctionOverride` diagnostic.
pub fn w_function_override(function: &str, range: Range) -> (e: Error)
    ensures
        e.id == ErrorId::WFunctionOverride,
        e.error_type == ErrorType::W,
        e.range == range,
        e.message@ == spec_message(ErrorId::WFunctionOverride, seq![function@]),
{
    let args: [&str; 1] = [function];
    proof {
        assert(views_of(args@) =~= seq![function@]);
    }
    Error::build(ErrorId::WFunctionOverride, range, args.as_slice())
}

/// Builds a `FunctionOverride` diagnostic.
pub fn function_override(function: &str, range: Range) -> (e: Error)
    ensures
        e.id == ErrorId::FunctionOverride,
        e.error_type == ErrorType::E,
        e.range == range,
        e.message@ == spec_message(ErrorId::FunctionOverride, seq![function@]),
{
    let args: [&str; 1] = [function];
    proof {
        assert(views_of(args@) =~= seq![function@]);
    }
    Error::build(ErrorId::FunctionOverride, range, args.as_slice())
}

/// Builds a `WUnitIsVar` diagnostic.
pub fn w_unit_is_var(variable_or_unit: &str, range: Range) -> (e: Error)
    ensures
        e.id == ErrorId::WUnitIsVar,
        e.error_type == ErrorType::W,
        e.range == range,
        e.message@ == spec_message(ErrorId::WUnitIsVar, seq![variable_or_unit@]),
{
    let args: [&str; 1] = [variable_or_unit];
    proof {
        assert(views_of(args@) =~= seq![variable_or_unit@]);
    }
    Error::build(ErrorId::WUnitIsVar, range, args.as_slice())
}

/// Builds a `WExplicitUnitsExpected` diagnostic.
pub fn w_explicit_units_expected(units: &str, range: Range) -> (e: Error)
    ensures
        e.id == ErrorId::WExplicitUnitsExpected,
        e.error_type == ErrorType::W,
        e.range == range,
        e.message@ == spec_message(ErrorId::WExplicitUnitsExpected, seq![units@]),
{
    let args: [&str; 1] = [units];
    proof {
        assert(views_of(args@) =~= seq![units@]);
    }
    Error::build(ErrorId::WExplicitUnitsExpected, range, args.as_slice())
}

/// Builds a `EExplicitUnitsExpected` diagnostic.
pub fn e_explicit_units_expected(function: &str, range: Range) -> (e: Error)
    ensures
        e.id == ErrorId::EExplicitUnitsExpected,
        e.error_type == ErrorType::E,
        e.range == range,
        e.message@ == spec_message(ErrorId::EExplicitUnitsExpected, seq![function@]),
{
    let args: [&str; 1] = [function];
    proof {
        assert(views_of(args@) =~= seq![function@]);
    }
    Error::build(ErrorId::EExplicitUnitsExpected, range, args.as_slice())
}

/// Builds a `UnitPropDiff` diagnostic.
pub fn unit_prop_diff(range: Range) -> (e: Error)
    ensures
        e.id == ErrorId::UnitPropDiff,
        e.error_type == ErrorType::E,
        e.range == range,
        e.message@ == message_pieces(ErrorId::UnitPropDiff)[0],
{
    let args: [&str; 0] = [];
    proof {
        assert(views_of(args@) =~= seq![]);
    }
    Error::build(ErrorId::UnitPropDiff, range, args.as_slice())
}

/// Builds a `UnitPropWrong` diagnostic.
pub fn unit_prop_wrong(unit_property: &str, range: Range) -> (e: Error)
    ensures
        e.id == ErrorId::UnitPropWrong,
        e.error_type == ErrorType::E,
        e.range == range,
        e.message@ == spec_message(ErrorId::UnitPropWrong, seq![unit_property@]),
{
    let args: [&str; 1] = [unit_property];
    proof {
        assert(views_of(args@) =~= seq![unit_property@]);
    }
    Error::build(ErrorId::UnitPropWrong, range, args.as_slice())
}

/// Builds a `ConstRedef` diagnostic.
pub fn const_redef(constant: &str, range: Range) -> (e: Error)
    ensures
        e.id == ErrorId::ConstRedef,
        e.error_type == ErrorType::E,
        e.range == range,
        e.message@ == spec_message(ErrorId::ConstRedef, seq![constant@]),
{
    let args: [&str; 1] = [constant];
    proof {
        assert(views_of(args@) =~= seq![constant@]);
    }
    Error::build(ErrorId::ConstRedef, range, args.as_slice())
}

/// Builds a `WConstRedef` diagnostic.
pub fn w_const_redef(constant: &str, range: Range) -> (e: Error)
    ensures
        e.id == ErrorId::WConstRedef,
        e.error_type == ErrorType::W,
        e.range == range,
        e.message@ == spec_message(ErrorId::WConstRedef, seq![constant@]),
{
    let args: [&str; 1] = [constant];
    proof {
        assert(views_of(args@) =~= seq![constant@]);
    }
    Error::build(ErrorId::WConstRedef, range, args.as_slice())
}

/// Builds a `DateFragNoDate` diagnostic.
pub fn date_frag_no_date(fragment: &str, range: Range) -> (e: Error)
    ensures
        e.id == ErrorId::DateFragNoDate,
        e.error_type == ErrorType::E,
        e.range == range,
        e.message@ == spec_message(ErrorId::DateFragNoDate, seq![fragment@]),
{
    let args: [&str; 1] = [fragment];
    proof {
        assert(views_of(args@) =~= seq![fragment@]);
    }
    Error::build(ErrorId::DateFragNoDate, range, args.as_slice())
}

/// Builds a `DateFragNoDuration` diagnostic.
pub fn date_frag_no_duration(fragment: &str, range: Range) -> (e: Error)
    ensures
        e.id == ErrorId::DateFragNoDuration,
        e.error_type == ErrorType::E,
        e.range == range,
        e.message@ == spec_message(ErrorId::DateFragNoDuration, seq![fragment@]),
{
    let args: [&str; 1] = [fragment];
    proof {
        assert(views_of(args@) =~= seq![fragment@]);
    }
    Error::build(ErrorId::DateFragNoDuration, range, args.as_slice())
}

/// Builds a `VarExpected` diagnostic.
pub fn var_expected(range: Range) -> (e: Error)
    ensures
        e.id == ErrorId::VarExpected,
        e.error_type == ErrorType::E,
        e.range == range,
        e.message@ == message_pieces(ErrorId::VarExpected)[0],
{
    let args: [&str; 0] = [];
    proof {
        assert(views_of(args@) =~= seq![]);
    }
    Error::build(ErrorId::VarExpected, range, args.as_slice())
}

/// Builds a `Expected` diagnostic.
pub fn expected(token: &str, range: Range) -> (e: Error)
    ensures
        e.id == ErrorId::Expected,
        e.error_type == ErrorType::E,
        e.range == range,
        e.message@ == spec_message(ErrorId::Expected, seq![token@]),
{
    let args: [&str; 1] = [token];
    proof {
        assert(views_of(args@) =~= seq![token@]);
    }
    Error::build(ErrorId::Expected, range, args.as_slice())
}

/// Builds a `ExpectedId` diagnostic.
pub fn expected_id(range: Range) -> (e: Error)
    ensures
        e.id == ErrorId::ExpectedId,
        e.error_type == ErrorType::E,
        e.range == range,
        e.message@ == message_pieces(ErrorId::ExpectedId)[0],
{
    let args: [&str; 0] = [];
    proof {
        assert(views_of(args@) =~= seq![]);
    }
    Error::build(ErrorId::ExpectedId, range, args.as_slice())
}

/// Builds a `ExpectedNumericValue` diagnostic.
pub fn expected_numeric_value(range: Range) -> (e: Error)
    ensures
        e.id == ErrorId::ExpectedNumericValue,
        e.error_type == ErrorType::E,
        e.range == range,
        e.message@ == message_pieces(ErrorId::ExpectedNumericValue)[0],
{
    let args: [&str; 0] = [];
    proof {
        assert(views_of(args@) =~= seq![]);
    }
    Error::build(ErrorId::ExpectedNumericValue, range, args.as_slice())
}

/// Builds a `ValueError` diagnostic.
pub fn value_error(error: &str, range: Range) -> (e: Error)
    ensures
        e.id == ErrorId::ValueError,
        e.error_type == ErrorType::E,
        e.range == range,
        e.message@ == spec_message(ErrorId::ValueError, seq![error@]),
{
    let args: [&str; 1] = [error];
    proof {
        assert(views_of(args@) =~= seq![error@]);
    }
    Error::build(ErrorId::ValueError, range, args.as_slice())
}

/// Builds a `DateInvFrag` diagnostic.
pub fn date_inv_frag(fragment: &str, range: Range) -> (e: Error)
    ensures
        e.id == ErrorId::DateInvFrag,
        e.error_type == ErrorType::E,
        e.range == range,
        e.message@ == spec_message(ErrorId::DateInvFrag, seq![fragment@]),
{
    let args: [&str; 1] = [fragment];
    proof {
        assert(views_of(args@) =~= seq![fragment@]);
    }
    Error::build(ErrorId::DateInvFrag, range, args.as_slice())
}

/// Builds a `DurInvFrag` diagnostic.
pub fn dur_inv_frag(fragment: &str, range: Range) -> (e: Error)
    ensures
        e.id == ErrorId::DurInvFrag,
        e.error_type == ErrorType::E,
        e.range == range,
        e.message@ == spec_message(ErrorId::DurInvFrag, seq![fragment@]),
{
    let args: [&str; 1] = [fragment];
    proof {
        assert(views_of(args@) =~= seq![fragment@]);
    }
    Error::build(ErrorId::DurInvFrag, range, args.as_slice())
}

/// Builds a `InvDateStr` diagnostic.
pub fn inv_date_str(date_string_info: &str, range: Range) -> (e: Error)
    ensures
        e.id == ErrorId::InvDateStr,
        e.error_type == ErrorType::E,
        e.range == range,
        e.message@ == spec_message(ErrorId::InvDateStr, seq![date_string_info@]),
{
    let args: [&str; 1] = [date_string_info];
    proof {
        assert(views_of(args@) =~= seq![date_string_info@]);
    }
    Error::build(ErrorId::InvDateStr, range, args.as_slice())
}

/// Builds a `InvDateStrForFormat` diagnostic.
pub fn inv_date_str_for_format(format: &str, range: Range) -> (e: Error)
    ensures
        e.id == ErrorId::InvDateStrForFormat,
        e.error_type == ErrorType::E,
        e.range == range,
        e.message@ == spec_message(ErrorId::InvDateStrForFormat, seq![format@]),
{
    let args: [&str; 1] = [format];
    proof {
        assert(views_of(args@) =~= seq![format@]);
    }
    Error::build(ErrorId::InvDateStrForFormat, range, args.as_slice())
}

/// Builds a `InvDateValue` diagnostic.
pub fn inv_date_value(date_value: &str, date: &str, range: Range) -> (e: Error)
    ensures
        e.id == ErrorId::InvDateValue,
        e.error_type == ErrorType::E,
        e.range == range,
        e.message@ == spec_message(ErrorId::InvDateValue, seq![date_value@, date@]),
{
    let args: [&str; 2] = [date_value, date];
    proof {
        assert(views_of(args@) =~= seq![date_value@, date@]);
    }
    Error::build(ErrorId::InvDateValue, range, args.as_slice())
}

/// Builds a `InvDate` diagnostic.
pub fn inv_date(range: Range) -> (e: Error)
    ensures
        e.id == ErrorId::InvDate,
        e.error_type == ErrorType::E,
        e.range == range,
        e.message@ == message_pieces(ErrorId::InvDate)[0],
{
    let args: [&str; 0] = [];
    proof {
        assert(views_of(args@) =~= seq![]);
    }
    Error::build(ErrorId::InvDate, range, args.as_slice())
}

/// Builds a `InvList` diagnostic.
pub fn inv_list(extra_info: &str, range: Range) -> (e: Error)
    ensures
        e.id == ErrorId::InvList,
        e.error_type == ErrorType::E,
        e.range == range,
        e.message@ == spec_message(ErrorId::InvList, seq![extra_info@]),
{
    let args: [&str; 1] = [extra_info];
    proof {
        assert(views_of(args@) =~= seq![extra_info@]);
    }
    Error::build(ErrorId::InvList, range, args.as_slice())
}

/// Builds a `InvNumberStr` diagnostic.
pub fn inv_number_str(number_string: &str, range: Range) -> (e: Error)
    ensures
        e.id == ErrorId::InvNumberStr,
        e.error_type == ErrorType::E,
        e.range == range,
        e.message@ == spec_message(ErrorId::InvNumberStr, seq![number_string@]),
{
    let args: [&str; 1] = [number_string];
    proof {
        assert(views_of(args@) =~= seq![number_string@]);
    }
    Error::build(ErrorId::InvNumberStr, range, args.as_slice())
}

/// Builds a `InvFormat` diagnostic.
pub fn inv_format(value: &str, range: Range) -> (e: Error)
    ensures
        e.id == ErrorId::InvFormat,
        e.error_type == ErrorType::E,
        e.range == range,
        e.message@ == spec_message(ErrorId::InvFormat, seq![value@]),
{
    let args: [&str; 1] = [value];
    proof {
        assert(views_of(args@) =~= seq![value@]);
    }
    Error::build(ErrorId::InvFormat, range, args.as_slice())
}

} // verus!