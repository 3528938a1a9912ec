//! The row stager: it takes `(fingerprint, path)` pairs while files are being
//! hashed and hands them back, in staging order, when the store is filled.
//!
//! Each pair is kept as its row literal. How a literal is written stays
//! inside the stager: callers put pairs in and get pairs out.

use crate::hex::{hex16, lemma_hex16_is_fingerprint_text};
use crate::literal::{build_insert_string, lemma_parse_of_literal, parse_row_literal, parsed_row};
use vstd::prelude::*;

verus! {

/// A row of the table: the text of a fingerprint and the path of the file
/// that has it.
pub type RowView = (Seq<char>, Seq<char>);

/// The rows staged so far. Its view is the sequence of staged rows.
pub struct RowStager {
    literals: Vec<String>,
}

impl View for RowStager {
    type V = Seq<RowView>;

    closed spec fn view(&self) -> Seq<RowView> {
        Seq::new(self.literals@.len(), |i: int| parsed_row(self.literals@[i]@).unwrap())
    }
}

impl RowStager {
    /// Every kept text is the literal of a row.
    pub closed spec fn well_formed(&self) -> bool {
        forall|i: int|
            0 <= i < self.literals@.len() ==> parsed_row(#[trigger] self.literals@[i]@) is Some
    }

    /// An empty stager with room for `capacity` rows.
    pub fn with_capacity(capacity: usize) -> (stager: Self)
        ensures
            stager.well_formed(),
            stager@ == Seq::<RowView>::empty(),
    {
        let stager = RowStager { literals: Vec::with_capacity(capacity) };
        assert(stager@ =~= Seq::<RowView>::empty());
        stager
    }

    /// Stages the row of a file: the text of its fingerprint, and its path.
    pub fn stage(&mut self, fingerprint: u64, path: &str)
        requires
            old(self).well_formed(),
        ensures
            final(self).well_formed(),
            final(self)@ == old(self)@.push((hex16(fingerprint), path@)),
    {
        let literal = build_insert_string(&fingerprint, path);
        proof {
            lemma_hex16_is_fingerprint_text(fingerprint);
            lemma_parse_of_literal(hex16(fingerprint), path@);
        }
        self.literals.push(literal);
        assert(self@ =~= old(self)@.push((hex16(fingerprint), path@)));
    }

    /// How many rows are staged.
    pub fn len(&self) -> (count: usize)
        ensures
            count == self@.len(),
    {
        self.literals.len()
    }

    /// The row staged at `index`.
    pub fn row(&self, index: usize) -> (row: (String, String))
        requires
            self.well_formed(),
            index < self@.len(),
        ensures
            (row.0@, row.1@) == self@[index as int],
    {
        match parse_row_literal(self.literals[index].as_str()) {
            Some(row) => row,
            None => vstd::pervasive::unreached(),
        }
    }

    /// All staged rows, in the order in which they were staged.
    pub fn rows(&self) -> (rows: Vec<(String, String)>)
        requires
            self.well_formed(),
        ensures
            rows@.len() == self@.len(),
            forall|i: int|
                0 <= i < rows@.len() ==> (#[trigger] rows@[i]).0@ == self@[i].0 && rows@[i].1@
                    == self@[i].1,
    {
        let count = self.literals.len();
        let mut rows: Vec<(String, String)> = Vec::with_capacity(count);
        let mut index: usize = 0;
        while index < count
            invariant
                self.well_formed(),
                count == self@.len(),
                index <= count,
                rows@.len() == index,
                forall|i: int|
                    0 <= i < index ==> (#[trigger] rows@[i]).0@ == self@[i].0 && rows@[i].1@
                        == self@[i].1,
            decreases count - index,
        {
            rows.push(self.row(index));
            index += 1;
        }
        rows
    }
}

} // verus!
