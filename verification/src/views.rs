//! Views of the executable row and document values as the mathematical
//! sequences the contracts are stated over.

use vstd::prelude::*;

verus! {

/// The model of one cell: `None` for the null cell, else the cell's text.
pub open spec fn cell_view(c: Option<String>) -> Option<Seq<char>> {
    match c {
        None => None,
        Some(s) => Some(s@),
    }
}

/// The model of a row of cells.
pub open spec fn row_view(r: Seq<Option<String>>) -> Seq<Option<Seq<char>>> {
    r.map_values(|c: Option<String>| cell_view(c))
}

/// The model of a document: a sequence of rows.
pub open spec fn doc_view(d: Seq<Vec<Option<String>>>) -> Seq<Seq<Option<Seq<char>>>> {
    d.map_values(|r: Vec<Option<String>>| row_view(r@))
}

pub proof fn lemma_row_view_push(r: Seq<Option<String>>, c: Option<String>)
    ensures
        row_view(r.push(c)) == row_view(r).push(cell_view(c)),
{
    assert(row_view(r.push(c)) =~= row_view(r).push(cell_view(c)));
}

pub proof fn lemma_doc_view_push(d: Seq<Vec<Option<String>>>, r: Vec<Option<String>>)
    ensures
        doc_view(d.push(r)) == doc_view(d).push(row_view(r@)),
{
    assert(doc_view(d.push(r)) =~= doc_view(d).push(row_view(r@)));
}

pub proof fn lemma_row_view_empty()
    ensures
        row_view(Seq::<Option<String>>::empty()) == Seq::<Option<Seq<char>>>::empty(),
{
    assert(row_view(Seq::<Option<String>>::empty()) =~= Seq::<Option<Seq<char>>>::empty());
}

pub proof fn lemma_doc_view_empty()
    ensures
        doc_view(Seq::<Vec<Option<String>>>::empty()) == Seq::<Seq<Option<Seq<char>>>>::empty(),
{
    assert(doc_view(Seq::<Vec<Option<String>>>::empty()) =~= Seq::<
        Seq<Option<Seq<char>>>,
    >::empty());
}

} // verus!
