//! Where the renderer stands inside a table: header or body, and which
//! column.

use vstd::prelude::*;
use crate::backend::Alignment;

verus! {

/// State for tracking table rendering.
pub struct TableState {
    /// Whether we're inside the table header row.
    in_head: bool,
    /// Column alignments of the current table.
    alignments: Vec<Alignment>,
    /// Current column index in the row.
    cell_index: usize,
}

impl TableState {
    pub closed spec fn in_head_view(&self) -> bool {
        self.in_head
    }

    pub closed spec fn alignments_view(&self) -> Seq<Alignment> {
        self.alignments@
    }

    pub closed spec fn cell_view(&self) -> nat {
        self.cell_index as nat
    }

    /// Start a new table with column alignments.
    pub fn start(&mut self, alignments: Vec<Alignment>)
        ensures
            !final(self).in_head_view(),
            final(self).alignments_view() == alignments@,
            final(self).cell_view() == 0,
    {
        self.alignments = alignments;
        self.in_head = false;
        self.cell_index = 0;
    }

    /// Start the table header row.
    pub fn start_head(&mut self)
        ensures
            final(self).in_head_view(),
            final(self).alignments_view() == old(self).alignments_view(),
            final(self).cell_view() == 0,
    {
        self.in_head = true;
        self.cell_index = 0;
    }

    /// End the table header row.
    pub fn end_head(&mut self)
        ensures
            !final(self).in_head_view(),
            final(self).alignments_view() == old(self).alignments_view(),
            final(self).cell_view() == old(self).cell_view(),
    {
        self.in_head = false;
    }

    /// Start a new table row.
    pub fn start_row(&mut self)
        ensures
            final(self).in_head_view() == old(self).in_head_view(),
            final(self).alignments_view() == old(self).alignments_view(),
            final(self).cell_view() == 0,
    {
        self.cell_index = 0;
    }

    /// Move to the next cell.
    pub fn next_cell(&mut self)
        requires
            old(self).cell_view() < usize::MAX,
        ensures
            final(self).in_head_view() == old(self).in_head_view(),
            final(self).alignments_view() == old(self).alignments_view(),
            final(self).cell_view() == old(self).cell_view() + 1,
    {
        self.cell_index = self.cell_index + 1;
    }

    /// The current column index.
    pub fn cell_index(&self) -> (r: usize)
        ensures
            r == self.cell_view(),
    {
        self.cell_index
    }

    /// Whether we're in the table header.
    pub fn is_in_head(&self) -> (r: bool)
        ensures
            r == self.in_head_view(),
    {
        self.in_head
    }

    /// The alignment of the current cell; `None` past the last column.
    pub fn current_alignment(&self) -> (r: Option<Alignment>)
        ensures
            r == (if self.cell_view() < self.alignments_view().len() {
                Some(self.alignments_view()[self.cell_view() as int])
            } else {
                None
            }),
    {
        if self.cell_index < self.alignments.len() {
            Some(self.alignments[self.cell_index])
        } else {
            None
        }
    }
}

impl Default for TableState {
    fn default() -> (r: Self)
        ensures
            !r.in_head_view(),
            r.alignments_view() == Seq::<Alignment>::empty(),
            r.cell_view() == 0,
    {
        TableState { in_head: false, alignments: Vec::new(), cell_index: 0 }
    }
}

} // verus!
