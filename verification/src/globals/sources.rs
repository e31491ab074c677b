use vstd::prelude::*;
use crate::globals::SourceIndex;
use crate::text::chars_of;
use crate::tokenizer::cursor::utf8_len;
use crate::tokenizer::indexing::{FileIndex, line_and_column_defined, spec_line_and_column};

verus! {

/// A named source text, with its characters and an index of its lines.
pub struct Source {
    pub name: String,
    pub text: String,
    pub index: SourceIndex,
    pub chars: Vec<char>,
    pub file_index: FileIndex,
}

impl Source {
    /// The characters and the index describe the text.
    pub open spec fn wf(&self) -> bool {
        &&& self.chars@ == self.text@
        &&& self.file_index.wf()
        &&& self.file_index.text@ == self.text@
    }

    /// A source named `name` holding `text`, known by `index`.
    pub fn new(name: String, text: String, index: SourceIndex) -> (s: Source)
        requires
            utf8_len(text@) <= usize::MAX,
        ensures
            s.wf(),
            s.name@ == name@,
            s.text@ == text@,
            s.index == index,
    {
        let chars = chars_of(text.as_str());
        let file_index = FileIndex::new(text.as_str());
        Source { name, text, index, chars, file_index }
    }

    /// Replaces the text; the name and index stay.
    pub fn set_text(&mut self, text: String)
        requires
            utf8_len(text@) <= usize::MAX,
        ensures
            final(self).wf(),
            final(self).text@ == text@,
            final(self).name@ == old(self).name@,
            final(self).index == old(self).index,
    {
        self.chars = chars_of(text.as_str());
        self.file_index = FileIndex::new(text.as_str());
        self.text = text;
    }

    /// The text.
    pub fn get_text(&self) -> (r: &str)
        ensures
            r@ == self.text@,
    {
        self.text.as_str()
    }

    /// The line and column of byte `pos` (see `FileIndex::get_line_and_column`).
    pub fn get_line_and_column(&self, pos: usize) -> (r: (usize, usize))
        requires
            self.wf(),
            line_and_column_defined(&self.file_index, pos as int),
        ensures
            r == spec_line_and_column(&self.file_index, pos as int),
    {
        self.file_index.get_line_and_column(pos)
    }
}

} // verus!
