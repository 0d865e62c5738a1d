//! A reader of tab-indented schema text, one line at a time.
//!
//! Tokenising is not implemented yet: the reader reports the end of the
//! input at once and never moves.

use vstd::prelude::*;

verus! {

/// A token of tab-indented text.
#[derive(Debug, Clone, PartialEq, Eq)]
pub enum TabbedReaderToken {
    /// The end of the input.
    EOF,
    /// The end of a line.
    EOL,
    /// The tabs a line starts with, counted.
    LeadingTabs(usize),
    /// The text after a line's leading tabs.
    FollowingText(String),
}

/// Lines of text and a position in them.
pub struct TabbedReader {
    data: Vec<String>,
    line: usize,
    column: usize,
}

impl TabbedReader {
    /// The lines being read.
    pub closed spec fn lines(&self) -> Seq<Seq<char>> {
        self.data@.map_values(|s: String| s@)
    }

    /// The line the reader is at.
    pub closed spec fn line_at(&self) -> nat {
        self.line as nat
    }

    /// The column the reader is at.
    pub closed spec fn column_at(&self) -> nat {
        self.column as nat
    }

    /// A reader at the start of `lines`.
    pub fn new(lines: Vec<String>) -> (r: Self)
        ensures
            r.lines() == lines@.map_values(|s: String| s@),
            r.line_at() == 0,
            r.column_at() == 0,
    {
        TabbedReader { data: lines, line: 0, column: 0 }
    }

    /// The index of the line the reader is at.
    pub fn line(&self) -> (l: usize)
        ensures
            l == self.line_at(),
    {
        self.line
    }

    /// The next token: always the end of the input, and the reader stays
    /// where it is.
    pub fn get_next_token(&mut self) -> (t: TabbedReaderToken)
        ensures
            t is EOF,
            final(self).lines() == old(self).lines(),
            final(self).line_at() == old(self).line_at(),
            final(self).column_at() == old(self).column_at(),
    {
        TabbedReaderToken::EOF
    }
}

} // verus!
