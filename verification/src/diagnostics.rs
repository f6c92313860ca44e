//! Collections of diagnostic messages.

use vstd::prelude::*;

verus! {

/// Severity of a single diagnostic message.
#[derive(Clone, Copy, PartialEq, Eq, Structural, Debug)]
pub enum DiagnosticLevel {
    Error,
    Warning,
}

/// A single diagnostic: a severity, the path of the source file it was
/// produced for, the message text, and the line and column the message
/// points at.
#[derive(Clone, Debug)]
pub struct Diagnostic {
    pub level: DiagnosticLevel,
    pub path: String,
    pub message: String,
    pub line: usize,
    pub col: usize,
}

impl Diagnostic {
    pub fn error(path: String, message: String, line: usize, col: usize) -> (r: Diagnostic)
        ensures
            r == (Diagnostic { level: DiagnosticLevel::Error, path, message, line, col }),
    {
        Diagnostic { level: DiagnosticLevel::Error, path, message, line, col }
    }

    pub fn warning(path: String, message: String, line: usize, col: usize) -> (r: Diagnostic)
        ensures
            r == (Diagnostic { level: DiagnosticLevel::Warning, path, message, line, col }),
    {
        Diagnostic { level: DiagnosticLevel::Warning, path, message, line, col }
    }
}

/// An ordered collection of diagnostics. Its view is the sequence of
/// entries in the order they were recorded.
pub struct Diagnostics {
    entries: Vec<Diagnostic>,
}

impl View for Diagnostics {
    type V = Seq<Diagnostic>;

    closed spec fn view(&self) -> Seq<Diagnostic> {
        self.entries@
    }
}

impl Diagnostics {
    /// A collection with no entries.
    pub fn new() -> (r: Diagnostics)
        ensures
            r@ == Seq::<Diagnostic>::empty(),
    {
        Diagnostics { entries: Vec::new() }
    }

    /// Records an error-level diagnostic at the end of the collection.
    pub fn error(&mut self, path: &str, message: String, line: usize, col: usize)
        ensures
            final(self)@.len() == old(self)@.len() + 1,
            final(self)@ == old(self)@.push(final(self)@.last()),
            final(self)@.last().level is Error,
            final(self)@.last().path@ == path@,
            final(self)@.last().message == message,
            final(self)@.last().line == line,
            final(self)@.last().col == col,
    {
        self.entries.push(Diagnostic::error(path.to_owned(), message, line, col));
    }

    /// Records a warning-level diagnostic at the end of the collection.
    pub fn warn(&mut self, path: &str, message: String, line: usize, col: usize)
        ensures
            final(self)@.len() == old(self)@.len() + 1,
            final(self)@ == old(self)@.push(final(self)@.last()),
            final(self)@.last().level is Warning,
            final(self)@.last().path@ == path@,
            final(self)@.last().message == message,
            final(self)@.last().line == line,
            final(self)@.last().col == col,
    {
        self.entries.push(Diagnostic::warning(path.to_owned(), message, line, col));
    }

    /// Moves every entry of `other` to the end of this collection,
    /// keeping the order of both.
    pub fn append(&mut self, other: Diagnostics)
        ensures
            final(self)@ == old(self)@ + other@,
    {
        let mut other = other;
        self.entries.append(&mut other.entries);
    }

    /// The number of entries recorded so far.
    pub fn len(&self) -> (r: usize)
        ensures
            r == self@.len(),
    {
        self.entries.len()
    }

    /// True exactly when at least one entry is an error.
    pub fn has_errors(&self) -> (r: bool)
        ensures
            r == exists|i: int| 0 <= i < self@.len() && self@[i].level is Error,
    {
        let mut i: usize = 0;
        while i < self.entries.len()
            invariant
                0 <= i <= self@.len(),
                forall|j: int| 0 <= j < i ==> !(self@[j].level is Error),
            decreases self@.len() - i,
        {
            match self.entries[i].level {
                DiagnosticLevel::Error => {
                    return true;
                },
                DiagnosticLevel::Warning => {},
            }
            i = i + 1;
        }
        false
    }

    /// The recorded entries, oldest first.
    pub fn iter(&self) -> (r: &Vec<Diagnostic>)
        ensures
            r@ == self@,
    {
        &self.entries
    }
}

} // verus!
