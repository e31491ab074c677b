use vstd::prelude::*;
use crate::globals::Globals;
use crate::text::{distinct_ids, lemma_distinct_push, lemma_lists_push, lists_id, str_eq};

verus! {

/// What every function, built in or defined in a script, tells about itself.
pub trait FunctionDef {
    /// Whether `cnt` arguments are accepted.
    fn is_correct_arg_count(&self, cnt: usize) -> bool;

    /// The function's name.
    fn get_name(&self) -> &str;
}

/// A built-in function: its name and how many arguments it takes. (What it computes is
/// carried out by the evaluator that calls it.)
pub struct GlobalFunctionDef {
    pub name: String,
    pub min_args: usize,
    pub max_args: usize,
}

impl FunctionDef for GlobalFunctionDef {
    fn is_correct_arg_count(&self, cnt: usize) -> (r: bool)
        ensures
            r == (self.min_args <= cnt && cnt <= self.max_args),
    {
        self.min_args <= cnt && cnt <= self.max_args
    }

    fn get_name(&self) -> (r: &str)
        ensures
            r@ == self.name@,
    {
        self.name.as_str()
    }
}

/// A table entry as plain values: the key it is looked up by, its name, and its least and
/// greatest number of arguments.
pub open spec fn entry_view(e: (String, GlobalFunctionDef)) -> (Seq<char>, Seq<char>, nat, nat) {
    (e.0@, e.1.name@, e.1.min_args as nat, e.1.max_args as nat)
}

/// The table of built-in functions as plain values.
pub open spec fn table_view(defs: Seq<(String, GlobalFunctionDef)>) -> Seq<(Seq<char>, Seq<char>, nat, nat)> {
    defs.map_values(|e: (String, GlobalFunctionDef)| entry_view(e))
}

/// The built-in functions, by key: name and argument counts. (The key `factorial` names
/// its function `factors`.)
pub open spec fn spec_global_function_table() -> Seq<(Seq<char>, Seq<char>, nat, nat)> {
    seq![
        ("abs"@, "abs"@, 1nat, 1nat),
        ("inc"@, "inc"@, 1nat, 1nat),
        ("dec"@, "dec"@, 1nat, 1nat),
        ("sqrt"@, "sqrt"@, 1nat, 1nat),
        ("round"@, "round"@, 1nat, 1nat),
        ("trunc"@, "trunc"@, 1nat, 1nat),
        ("floor"@, "floor"@, 1nat, 1nat),
        ("ceil"@, "ceil"@, 1nat, 1nat),
        ("factorial"@, "factors"@, 1nat, 1nat),
        ("sin"@, "sin"@, 1nat, 1nat),
        ("cos"@, "cos"@, 1nat, 1nat),
        ("tan"@, "tan"@, 1nat, 1nat),
        ("asin"@, "asin"@, 1nat, 1nat),
        ("acos"@, "acos"@, 1nat, 1nat),
        ("atan"@, "atan"@, 1nat, 1nat),
        ("sum"@, "sum"@, 1nat, 999nat),
        ("avg"@, "avg"@, 1nat, 999nat),
        ("max"@, "max"@, 1nat, 999nat),
        ("min"@, "min"@, 1nat, 999nat),
        ("reverse"@, "reverse"@, 1nat, 999nat),
        ("sort"@, "sort"@, 1nat, 999nat),
        ("first"@, "first"@, 1nat, 999nat),
        ("last"@, "last"@, 1nat, 999nat),
        ("factors"@, "factors"@, 1nat, 999nat),
        ("primes"@, "primes"@, 1nat, 999nat),
        ("now"@, "now"@, 0nat, 0nat),
        ("date"@, "date"@, 1nat, 3nat)
    ]
}

/// The keys of a table of functions.
pub open spec fn table_keys(defs: Seq<(String, GlobalFunctionDef)>) -> Seq<Seq<char>> {
    defs.map_values(|e: (String, GlobalFunctionDef)| e.0@)
}

fn function_entry(key: &str, name: &str, min_args: usize, max_args: usize) -> (e: (String, GlobalFunctionDef))
    ensures
        entry_view(e) == (key@, name@, min_args as nat, max_args as nat),
{
    (String::from_str(key), GlobalFunctionDef { name: String::from_str(name), min_args, max_args })
}

/// The built-in functions, keyed by the name a script calls them by.
pub fn create_global_function_defs() -> (defs: Vec<(String, GlobalFunctionDef)>)
    ensures
        table_view(defs@) == spec_global_function_table(),
{
    let mut defs: Vec<(String, GlobalFunctionDef)> = Vec::new();
    defs.push(function_entry("abs", "abs", 1, 1));
    defs.push(function_entry("inc", "inc", 1, 1));
    defs.push(function_entry("dec", "dec", 1, 1));
    defs.push(function_entry("sqrt", "sqrt", 1, 1));
    defs.push(function_entry("round", "round", 1, 1));
    defs.push(function_entry("trunc", "trunc", 1, 1));
    defs.push(function_entry("floor", "floor", 1, 1));
    defs.push(function_entry("ceil", "ceil", 1, 1));
    defs.push(function_entry("factorial", "factors", 1, 1));
    defs.push(function_entry("sin", "sin", 1, 1));
    defs.push(function_entry("cos", "cos", 1, 1));
    defs.push(function_entry("tan", "tan", 1, 1));
    defs.push(function_entry("asin", "asin", 1, 1));
    defs.push(function_entry("acos", "acos", 1, 1));
    defs.push(function_entry("atan", "atan", 1, 1));
    defs.push(function_entry("sum", "sum", 1, 999));
    defs.push(function_entry("avg", "avg", 1, 999));
    defs.push(function_entry("max", "max", 1, 999));
    defs.push(function_entry("min", "min", 1, 999));
    defs.push(function_entry("reverse", "reverse", 1, 999));
    defs.push(function_entry("sort", "sort", 1, 999));
    defs.push(function_entry("first", "first", 1, 999));
    defs.push(function_entry("last", "last", 1, 999));
    defs.push(function_entry("factors", "factors", 1, 999));
    defs.push(function_entry("primes", "primes", 1, 999));
    defs.push(function_entry("now", "now", 0, 0));
    defs.push(function_entry("date", "date", 1, 3));
    assert(table_view(defs@) =~= spec_global_function_table());
    defs
}

/// Whether `key` is one of the keys of `defs`.
pub fn has_key(defs: &Vec<(String, GlobalFunctionDef)>, key: &str) -> (r: bool)
    ensures
        r == table_keys(defs@).contains(key@),
{
    let mut i: usize = 0;
    while i < defs.len()
        invariant
            0 <= i <= defs@.len(),
            forall|j: int| 0 <= j < i ==> table_keys(defs@)[j] != key@,
        decreases defs@.len() - i,
    {
        if str_eq(defs[i].0.as_str(), key) {
            assert(table_keys(defs@)[i as int] == key@);
            return true;
        }
        i = i + 1;
    }
    false
}

/// The names of the functions a scope can call.
#[derive(Clone)]
pub struct FunctionView {
    pub ids: Vec<String>,
}

impl FunctionView {
    /// No name is held twice.
    pub open spec fn wf(&self) -> bool {
        distinct_ids(self.ids@)
    }

    /// The names of all built-in functions, each once.
    pub fn from_globals(globals: &Globals) -> (view: FunctionView)
        ensures
            view.wf(),
            forall|x: Seq<char>| #![trigger view.lists(x)]
                view.lists(x) <==> table_keys(globals.global_function_defs@).contains(x),
    {
        let mut view = FunctionView { ids: Vec::new() };
        view.add_all(&globals.global_function_defs);
        view
    }
}


/// The groups of built-in functions that settings switch on and off.
#[derive(Clone, Copy, Debug, PartialEq, Eq, Structural)]
pub enum FunctionType {
    Trig,
    Arithm,
    Date,
}

/// The names of the functions of a group: the trigonometric ones, the arithmetic ones, and
/// those on dates.
pub open spec fn spec_type_names(t: FunctionType) -> Seq<Seq<char>> {
    match t {
        FunctionType::Trig => seq!["sin"@, "cos"@, "tan"@, "asin"@, "acos"@, "atan"@],
        FunctionType::Arithm => seq!["abs"@, "round"@, "trunc"@, "floor"@, "ceil"@, "sqrt"@, "factorial"@,
            "factors"@, "primes"@],
        FunctionType::Date => seq!["now"@, "date"@],
    }
}

/// The texts of a list of names.
pub open spec fn strs_view(v: Seq<&str>) -> Seq<Seq<char>> {
    v.map_values(|s: &str| s@)
}

fn type_names(t: FunctionType) -> (v: Vec<&'static str>)
    ensures
        strs_view(v@) == spec_type_names(t),
{
    let v = match t {
        FunctionType::Trig => vec!["sin", "cos", "tan", "asin", "acos", "atan"],
        FunctionType::Arithm => vec!["abs", "round", "trunc", "floor", "ceil", "sqrt", "factorial", "factors", "primes"],
        FunctionType::Date => vec!["now", "date"],
    };
    assert(strs_view(v@) =~= spec_type_names(t));
    v
}

impl FunctionView {
    /// A function named `id` can be called.
    pub open spec fn lists(&self, id: Seq<char>) -> bool {
        lists_id(self.ids@, id)
    }

    fn contains_id(&self, id: &str) -> (r: bool)
        ensures
            r == self.lists(id@),
    {
        let mut k: usize = 0;
        while k < self.ids.len()
            invariant
                0 <= k <= self.ids@.len(),
                forall|j: int| 0 <= j < k ==> (#[trigger] self.ids@[j])@ != id@,
            decreases self.ids@.len() - k,
        {
            if str_eq(self.ids[k].as_str(), id) {
                return true;
            }
            k = k + 1;
        }
        false
    }

    fn add_name(&mut self, id: &str)
        requires
            old(self).wf(),
        ensures
            final(self).wf(),
            forall|x: Seq<char>| #![trigger final(self).lists(x)] final(self).lists(x) <==> (old(self).lists(x) || x == id@),
    {
        if !self.contains_id(id) {
            let ghost before = self.ids@;
            self.ids.push(String::from_str(id));
            proof {
                assert(self.ids@ =~= before.push(self.ids@.last()));
                lemma_distinct_push(before, self.ids@.last());
                assert forall|x: Seq<char>| #![trigger self.lists(x)] self.lists(x) <==> (lists_id(before, x) || x == id@) by {
                    lemma_lists_push(before, self.ids@.last(), x);
                    assert(self.ids@ =~= before.push(self.ids@.last()));
                }
            }
        }
    }

    /// Makes every built-in function of `defs` callable, besides those that were.
    pub fn add_all(&mut self, defs: &Vec<(String, GlobalFunctionDef)>)
        requires
            old(self).wf(),
        ensures
            final(self).wf(),
            forall|x: Seq<char>| #![trigger final(self).lists(x)]
                final(self).lists(x) <==> (old(self).lists(x) || table_keys(defs@).contains(x)),
    {
        let mut i: usize = 0;
        while i < defs.len()
            invariant
                0 <= i <= defs@.len(),
                self.wf(),
                forall|x: Seq<char>| #![trigger self.lists(x)]
                    self.lists(x) <==> (old(self).lists(x)
                        || exists|j: int| #![trigger table_keys(defs@)[j]] 0 <= j < i && table_keys(defs@)[j] == x),
            decreases defs@.len() - i,
        {
            self.add_name(defs[i].0.as_str());
            proof {
                assert(table_keys(defs@)[i as int] == defs@[i as int].0@);
            }
            i = i + 1;
        }
    }

    /// Makes the built-in functions of group `function_type` callable, besides those that
    /// were.
    pub fn add_type(&mut self, function_type: FunctionType, globals: &Globals)
        requires
            old(self).wf(),
        ensures
            final(self).wf(),
            forall|x: Seq<char>| #![trigger final(self).lists(x)]
                final(self).lists(x) <==> (old(self).lists(x) || (spec_type_names(function_type).contains(x)
                    && table_keys(globals.global_function_defs@).contains(x))),
    {
        let names = type_names(function_type);
        let ghost group = spec_type_names(function_type);
        let ghost keys = table_keys(globals.global_function_defs@);
        let mut i: usize = 0;
        while i < names.len()
            invariant
                0 <= i <= names@.len(),
                self.wf(),
                strs_view(names@) == group,
                keys == table_keys(globals.global_function_defs@),
                forall|x: Seq<char>| #![trigger self.lists(x)]
                    self.lists(x) <==> (old(self).lists(x)
                        || ((exists|j: int| #![trigger group[j]] 0 <= j < i && group[j] == x) && keys.contains(x))),
            decreases names@.len() - i,
        {
            proof {
                assert(group[i as int] == names@[i as int]@);
            }
            if has_key(&globals.global_function_defs, names[i]) {
                self.add_name(names[i]);
            }
            i = i + 1;
        }
    }

    /// No longer lets the functions of group `function_type` be called.
    pub fn remove_type(&mut self, function_type: FunctionType, globals: &Globals)
        requires
            old(self).wf(),
        ensures
            final(self).wf(),
            forall|x: Seq<char>| #![trigger final(self).lists(x)]
                final(self).lists(x) <==> (old(self).lists(x) && !spec_type_names(function_type).contains(x)),
    {
        let names = type_names(function_type);
        let ghost group = spec_type_names(function_type);
        let mut kept: Vec<String> = Vec::new();
        let mut k: usize = 0;
        while k < self.ids.len()
            invariant
                0 <= k <= self.ids@.len(),
                self.wf(),
                distinct_ids(kept@),
                strs_view(names@) == group,
                forall|x: Seq<char>| #![trigger lists_id(kept@, x)]
                    lists_id(kept@, x) <==> (lists_id(self.ids@.take(k as int), x) && !group.contains(x)),
            decreases self.ids@.len() - k,
        {
            let ghost before = kept@;
            let ghost u = self.ids@[k as int];
            assert(self.ids@.take(k + 1) =~= self.ids@.take(k as int).push(u));
            let mut found = false;
            let mut j: usize = 0;
            while j < names.len()
                invariant
                    0 <= j <= names@.len(),
                    k < self.ids@.len(),
                    strs_view(names@) == group,
                    u == self.ids@[k as int],
                    found <==> exists|m: int| #![trigger group[m]] 0 <= m < j && group[m] == u@,
                decreases names@.len() - j,
            {
                proof {
                    assert(group[j as int] == names@[j as int]@);
                }
                if str_eq(self.ids[k].as_str(), names[j]) {
                    found = true;
                }
                j = j + 1;
            }
            if !found {
                let c = self.ids[k].clone();
                proof {
                    if lists_id(before, u@) {
                        assert(lists_id(self.ids@.take(k as int), u@));
                        let q = choose|q: int| #![trigger self.ids@.take(k as int)[q]]
                            0 <= q < k && self.ids@.take(k as int)[q]@ == u@;
                        assert(self.ids@[q] == self.ids@.take(k as int)[q]);
                    }
                    lemma_distinct_push(before, c);
                }
                kept.push(c);
            }
            proof {
                assert forall|x: Seq<char>| #![trigger lists_id(kept@, x)]
                    lists_id(kept@, x) <==> (lists_id(self.ids@.take(k + 1), x) && !group.contains(x)) by {
                    lemma_lists_push(before, u, x);
                    lemma_lists_push(self.ids@.take(k as int), u, x);
                }
            }
            k = k + 1;
        }
        assert(self.ids@.take(k as int) =~= self.ids@);
        self.ids = kept;
    }
}

} // verus!
