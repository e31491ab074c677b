use vstd::prelude::*;

pub mod sources;

use crate::functions::{create_global_function_defs, FunctionView, GlobalFunctionDef, spec_global_function_table, table_keys, table_view};
use crate::globals::sources::Source;
use crate::resolver::unit::{create_unit_defs, defs_view, picked, picked_id, spec_unit_table, Unit, UnitDef, UnitProperty, UnitSelection, UnitsView, UnitTag};
use crate::text::str_eq;
use crate::tokenizer::cursor::{Range, byte_pos, utf8_len};
use crate::tokenizer::indexing::{lemma_byte_pos_grows, lemma_charpos_of_char_start, line_and_column_defined, spec_line_and_column};
use crate::tokenizer::at_char_start;

verus! {

/// Opaque index of a source text, so that no arbitrary integer is mistaken for one.
#[derive(Clone, Copy, Debug, PartialEq, Eq, Structural)]
pub struct SourceIndex(pub u8);

impl SourceIndex {
    /// The index as a plain integer.
    pub fn as_int(&self) -> (r: i32)
        ensures
            r == self.0 as int,
    {
        self.0 as i32
    }
}

/// The index of the character of `t` at byte `b` (where `b` starts one).
pub open spec fn char_index_at(t: Seq<char>, b: int) -> int {
    choose|a: int| 0 <= a <= t.len() && b == #[trigger] byte_pos(t, a)
}

/// The characters of `t` in bytes `[start, end)`.
pub open spec fn chars_in_bytes(t: Seq<char>, start: int, end: int) -> Seq<char> {
    t.subrange(char_index_at(t, start), char_index_at(t, end))
}

/// Bytes `[start, end)` of `t` hold whole characters.
pub open spec fn char_range_ok(t: Seq<char>, start: int, end: int) -> bool {
    &&& at_char_start(t, start)
    &&& at_char_start(t, end)
    &&& start <= end
}

/// The sources read so far, the known units and which of them scripts accept by default,
/// and the built-in functions and which of them scripts can call.
pub struct Globals {
    pub sources: Vec<Source>,
    pub unit_defs: Vec<UnitDef>,
    pub units_view: UnitsView,
    pub global_function_defs: Vec<(String, GlobalFunctionDef)>,
    pub function_view: FunctionView,
}

impl Globals {
    /// The sources, in the order they were first set.
    pub closed spec fn sources_view(&self) -> Seq<Source> {
        self.sources@
    }

    /// The number of sources.
    pub open spec fn source_count(&self) -> int {
        self.sources_view().len() as int
    }

    /// The text of the source with index `i`.
    pub open spec fn source_text(&self, i: int) -> Seq<char> {
        self.sources_view()[i].text@
    }

    /// Every source describes its text and is known by its place in the list (as a byte).
    pub open spec fn wf(&self) -> bool {
        forall|i: int| 0 <= i < self.source_count() ==> {
            &&& (#[trigger] self.sources_view()[i]).wf()
            &&& self.sources_view()[i].index.0 == i as u8
        }
    }

    /// Globals with no sources, all known units accepted but the short names of date and
    /// time units, and all built-in functions callable.
    pub fn new() -> (g: Globals)
        ensures
            g.wf(),
            g.source_count() == 0,
            defs_view(g.unit_defs@) == spec_unit_table(),
            g.units_view.wf(),
            g.units_view.within(g.unit_defs@),
            forall|id: Seq<char>| #![trigger g.units_view.lists(id)]
                g.units_view.lists(id) <==> (picked(g.unit_defs@, UnitSelection::All, id)
                    && !picked(g.unit_defs@, UnitSelection::Tagged(UnitTag::ShortDateTime), id)),
            table_view(g.global_function_defs@) == spec_global_function_table(),
            g.function_view.wf(),
            forall|x: Seq<char>| #![trigger g.function_view.lists(x)]
                g.function_view.lists(x) <==> table_keys(g.global_function_defs@).contains(x),
    {
        let unit_defs = create_unit_defs();
        let mut units_view = UnitsView::new();
        units_view.add_all_classes(&unit_defs);
        units_view.remove_tagged(UnitTag::ShortDateTime, &unit_defs);
        let mut g = Globals {
            sources: Vec::new(),
            unit_defs,
            units_view,
            global_function_defs: create_global_function_defs(),
            function_view: FunctionView { ids: Vec::new() },
        };
        g.function_view = FunctionView::from_globals(&g);
        g
    }

    /// Sets the text of the source named `name`, adding the source if there is none by
    /// that name, and gives its index.
    pub fn set_source(&mut self, name: String, text: String) -> (r: SourceIndex)
        requires
            old(self).wf(),
            utf8_len(text@) <= usize::MAX,
        ensures
            final(self).wf(),
            final(self).unit_defs == old(self).unit_defs,
            final(self).units_view == old(self).units_view,
            final(self).global_function_defs == old(self).global_function_defs,
            final(self).function_view == old(self).function_view,
            match first_source_named(old(self).sources_view(), name@) {
                Some(i) => {
                    &&& r == old(self).sources_view()[i].index
                    &&& final(self).source_count() == old(self).source_count()
                    &&& final(self).source_text(i) == text@
                    &&& forall|j: int| 0 <= j < old(self).source_count() && j != i
                        ==> #[trigger] final(self).sources_view()[j] == old(self).sources_view()[j]
                    &&& final(self).sources_view()[i].name@ == name@
                },
                None => {
                    &&& r.0 == old(self).source_count() as u8
                    &&& final(self).sources_view() == old(self).sources_view().push(final(self).sources_view().last())
                    &&& final(self).source_text(old(self).source_count()) == text@
                    &&& final(self).sources_view().last().name@ == name@
                },
            },
    {
        let mut i: usize = 0;
        while i < self.sources.len()
            invariant
                0 <= i <= self.sources@.len(),
                forall|j: int| 0 <= j < i ==> (#[trigger] self.sources@[j]).name@ != name@,
                self.sources@ == old(self).sources@,
                self.unit_defs == old(self).unit_defs,
                self.units_view == old(self).units_view,
                self.global_function_defs == old(self).global_function_defs,
                self.function_view == old(self).function_view,
                self.wf(),
                utf8_len(text@) <= usize::MAX,
            decreases self.sources@.len() - i,
        {
            if str_eq(self.sources[i].name.as_str(), name.as_str()) {
                proof {
                    lemma_first_source_named(self.sources@, name@, i as int);
                }
                let ghost before = self.sources@;
                assert(self.sources_view()[i as int].wf());
                assert(self.sources_view()[i as int].index.0 == i as u8);
                let mut source = self.sources.remove(i);
                source.set_text(text);
                let index = source.index;
                self.sources.insert(i, source);
                assert(self.sources@ =~= before.update(i as int, source));
                assert forall|j: int| 0 <= j < self.source_count() implies {
                    &&& (#[trigger] self.sources_view()[j]).wf()
                    &&& self.sources_view()[j].index.0 == j as u8
                } by {
                    if j != i {
                        assert(self.sources_view()[j] == before[j]);
                    }
                }
                return index;
            }
            i = i + 1;
        }
        proof {
            lemma_no_source_named(self.sources@, name@);
        }
        let index = SourceIndex(self.sources.len() as u8);
        let source = Source::new(name, text, index);
        let ghost before = self.sources@;
        self.sources.push(source);
        assert forall|j: int| 0 <= j < self.source_count() implies {
            &&& (#[trigger] self.sources_view()[j]).wf()
            &&& self.sources_view()[j].index.0 == j as u8
        } by {
            if j < before.len() {
                assert(self.sources_view()[j] == before[j]);
            }
        }
        index
    }

    /// Whether `unit` is a known unit that measures `property`.
    pub fn is_unit(&self, unit: &Unit, property: UnitProperty) -> (r: bool)
        ensures
            r == picked(self.unit_defs@, UnitSelection::Class(property), unit.id@),
    {
        picked_id(&self.unit_defs, UnitSelection::Class(property), unit.id.as_str())
    }

    /// The first source named `name`, if there is one.
    pub fn get_source_by_name(&self, name: &str) -> (r: Option<&Source>)
        ensures
            match first_source_named(self.sources_view(), name@) {
                Some(i) => r == Some(&self.sources_view()[i]),
                None => r is None,
            },
    {
        let mut i: usize = 0;
        while i < self.sources.len()
            invariant
                0 <= i <= self.sources@.len(),
                forall|j: int| 0 <= j < i ==> (#[trigger] self.sources@[j]).name@ != name@,
            decreases self.sources@.len() - i,
        {
            if str_eq(self.sources[i].name.as_str(), name) {
                proof {
                    lemma_first_source_named(self.sources@, name@, i as int);
                }
                return Some(&self.sources[i]);
            }
            i = i + 1;
        }
        proof {
            lemma_no_source_named(self.sources@, name@);
        }
        None
    }

    /// The text of bytes `[range.start, range.end)` of the range's source.
    pub fn get_text(&self, range: &Range) -> (r: &str)
        requires
            self.wf(),
            (range.source_index.0 as int) < self.source_count(),
            char_range_ok(self.source_text(range.source_index.0 as int), range.start as int, range.end as int),
        ensures
            r@ == chars_in_bytes(self.source_text(range.source_index.0 as int), range.start as int, range.end as int),
    {
        let source = &self.sources[range.source_index.0 as usize];
        assert(self.sources_view()[range.source_index.0 as int].wf());
        let ghost t = source.text@;
        proof {
            lemma_char_index_at(&source.file_index, range.start as int);
            lemma_char_index_at(&source.file_index, range.end as int);
        }
        proof {
            let ca = char_index_at(t, range.start as int);
            let cb = char_index_at(t, range.end as int);
            if cb < ca {
                lemma_byte_pos_grows(t, cb + 1, ca);
                crate::tokenizer::cursor::lemma_byte_pos_step(t, cb);
            }
        }
        let a = source.file_index.bytepos_to_charpos(range.start);
        let b = source.file_index.bytepos_to_charpos(range.end);
        source.text.as_str().substring_char(a, b)
    }

    /// The line and column of the start of `range` in its source.
    pub fn get_line_and_column(&self, range: &Range) -> (r: (usize, usize))
        requires
            self.wf(),
            (range.source_index.0 as int) < self.source_count(),
            line_and_column_defined(&self.sources_view()[range.source_index.0 as int].file_index, range.start as int),
        ensures
            r == spec_line_and_column(&self.sources_view()[range.source_index.0 as int].file_index, range.start as int),
    {
        assert(self.sources_view()[range.source_index.0 as int].wf());
        self.sources[range.source_index.0 as usize].get_line_and_column(range.start)
    }

    /// The lines and columns of the start and of the end of `range` in its source.
    pub fn get_lines_and_columns(&self, range: &Range) -> (r: (usize, usize, usize, usize))
        requires
            self.wf(),
            (range.source_index.0 as int) < self.source_count(),
            line_and_column_defined(&self.sources_view()[range.source_index.0 as int].file_index, range.start as int),
            line_and_column_defined(&self.sources_view()[range.source_index.0 as int].file_index, range.end as int),
        ensures
            (r.0, r.1) == spec_line_and_column(&self.sources_view()[range.source_index.0 as int].file_index, range.start as int),
            (r.2, r.3) == spec_line_and_column(&self.sources_view()[range.source_index.0 as int].file_index, range.end as int),
    {
        assert(self.sources_view()[range.source_index.0 as int].wf());
        let (l1, c1) = self.sources[range.source_index.0 as usize].get_line_and_column(range.start);
        let (l2, c2) = self.sources[range.source_index.0 as usize].get_line_and_column(range.end);
        (l1, c1, l2, c2)
    }
}

/// The index of the first source named `name`, if any.
pub open spec fn first_source_named(sources: Seq<Source>, name: Seq<char>) -> Option<int> {
    if exists|i: int| 0 <= i < sources.len() && (#[trigger] sources[i]).name@ == name {
        Some(choose|i: int| 0 <= i < sources.len() && (#[trigger] sources[i]).name@ == name
            && forall|j: int| 0 <= j < i ==> (#[trigger] sources[j]).name@ != name)
    } else {
        None
    }
}

proof fn lemma_first_source_named(sources: Seq<Source>, name: Seq<char>, i: int)
    requires
        0 <= i < sources.len(),
        sources[i].name@ == name,
        forall|j: int| 0 <= j < i ==> (#[trigger] sources[j]).name@ != name,
    ensures
        first_source_named(sources, name) == Some(i),
{
    let k = choose|k: int| 0 <= k < sources.len() && (#[trigger] sources[k]).name@ == name
        && forall|j: int| 0 <= j < k ==> (#[trigger] sources[j]).name@ != name;
    assert(0 <= k < sources.len() && sources[k].name@ == name && forall|j: int| 0 <= j < k ==> (#[trigger] sources[j]).name@ != name);
    if k < i {
    } else if k > i {
        assert(sources[i].name@ != name);
    }
}

proof fn lemma_no_source_named(sources: Seq<Source>, name: Seq<char>)
    requires
        forall|j: int| 0 <= j < sources.len() ==> (#[trigger] sources[j]).name@ != name,
    ensures
        first_source_named(sources, name) is None,
{
}

/// The character index at byte `b` of an indexed text is the one `bytepos_to_charpos`
/// gives, where `b` starts a character.
proof fn lemma_char_index_at(f: &crate::tokenizer::indexing::FileIndex, b: int)
    requires
        f.wf(),
        at_char_start(f.text@, b),
    ensures
        0 <= char_index_at(f.text@, b) <= f.text@.len(),
        byte_pos(f.text@, char_index_at(f.text@, b)) == b,
        crate::tokenizer::indexing::extra_from(crate::tokenizer::indexing::mbcs_view(f.multi_byte_chars@), b, 0) <= b,
        crate::tokenizer::indexing::spec_charpos(f, b) == char_index_at(f.text@, b),
{
    let t = f.text@;
    let a = choose|a: int| 0 <= a <= t.len() && b == #[trigger] byte_pos(t, a);
    lemma_charpos_of_char_start(f, a);
}

} // verus!
