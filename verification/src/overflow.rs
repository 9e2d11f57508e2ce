//! Data outside the schema, kept per row as `path → raw text / XML` entries
//! for the `_overflow` map column.

use vstd::prelude::*;

use crate::text::owned;

verus! {

/// One entry as values: the path and the text.
pub open spec fn entry_view(e: (String, String)) -> (Seq<char>, Seq<char>) {
    (e.0@, e.1@)
}

/// A row's entries as values.
pub open spec fn row_view(row: Seq<(String, String)>) -> Seq<(Seq<char>, Seq<char>)> {
    row.map_values(|e: (String, String)| entry_view(e))
}

/// Overflow entries per row. A row without entries is null in the column.
#[derive(Debug, Default)]
pub struct OverflowCollector {
    current_row: Vec<(String, String)>,
    rows: Vec<Vec<(String, String)>>,
}

impl OverflowCollector {
    /// The entries of the row being read.
    pub closed spec fn current(&self) -> Seq<(Seq<char>, Seq<char>)> {
        row_view(self.current_row@)
    }

    /// The rows ended so far, in order.
    pub closed spec fn ended(&self) -> Seq<Seq<(Seq<char>, Seq<char>)>> {
        self.rows@.map_values(|r: Vec<(String, String)>| row_view(r@))
    }

    /// No rows and no entries.
    pub fn new() -> (r: OverflowCollector)
        ensures
            r.current() == Seq::<(Seq<char>, Seq<char>)>::empty(),
            r.ended() == Seq::<Seq<(Seq<char>, Seq<char>)>>::empty(),
    {
        let r = OverflowCollector { current_row: Vec::new(), rows: Vec::new() };
        assert(r.current() =~= Seq::<(Seq<char>, Seq<char>)>::empty());
        assert(r.ended() =~= Seq::<Seq<(Seq<char>, Seq<char>)>>::empty());
        r
    }

    /// Add an entry to the current row.
    pub fn push(&mut self, path: &str, value: &str)
        ensures
            final(self).current() == old(self).current().push((path@, value@)),
            final(self).ended() == old(self).ended(),
    {
        self.current_row.push((owned(path), owned(value)));
        assert(final(self).current() =~= old(self).current().push((path@, value@)));
    }

    /// The current row is complete: it joins the rows, and the next one starts empty.
    pub fn end_row(&mut self)
        ensures
            final(self).ended() == old(self).ended().push(old(self).current()),
            final(self).current() == Seq::<(Seq<char>, Seq<char>)>::empty(),
    {
        let row = self.take_row();
        self.rows.push(row);
        assert(final(self).ended() =~= old(self).ended().push(old(self).current()));
    }

    /// The current row's entries, for a row built elsewhere; the row starts over.
    pub fn take_row(&mut self) -> (r: Vec<(String, String)>)
        ensures
            row_view(r@) == old(self).current(),
            final(self).current() == Seq::<(Seq<char>, Seq<char>)>::empty(),
            final(self).ended() == old(self).ended(),
    {
        let mut row: Vec<(String, String)> = Vec::new();
        std::mem::swap(&mut row, &mut self.current_row);
        assert(final(self).current() =~= Seq::<(Seq<char>, Seq<char>)>::empty());
        row
    }

    /// Forget the current row's entries (a skipped feature).
    pub fn discard_row(&mut self)
        ensures
            final(self).current() == Seq::<(Seq<char>, Seq<char>)>::empty(),
            final(self).ended() == old(self).ended(),
    {
        self.current_row.clear();
        assert(final(self).current() =~= Seq::<(Seq<char>, Seq<char>)>::empty());
    }

    /// The rows ended so far, for the column; none are left.
    pub fn take_rows(&mut self) -> (r: Vec<Vec<(String, String)>>)
        ensures
            r@.map_values(|row: Vec<(String, String)>| row_view(row@)) == old(self).ended(),
            final(self).ended() == Seq::<Seq<(Seq<char>, Seq<char>)>>::empty(),
            final(self).current() == old(self).current(),
    {
        let mut rows: Vec<Vec<(String, String)>> = Vec::new();
        std::mem::swap(&mut rows, &mut self.rows);
        assert(final(self).ended() =~= Seq::<Seq<(Seq<char>, Seq<char>)>>::empty());
        rows
    }
}

} // verus!
