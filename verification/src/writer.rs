//! The writer: renders rows of optional cell strings into WSV text, either
//! packed (single-space separators, also available as a lazy per-character
//! stream) or with every column padded to its widest rendered cell.

use vstd::prelude::*;
use crate::chars::{is_wsv_whitespace, wsv_whitespace};
use crate::strutil::chars_to_string;
use crate::views::{cell_view, doc_view, row_view};
use crate::write_spec::{
    cell_out, col_width, doc_out, escape_text, has_special, lemma_col_width_step,
    lemma_spaces_len, lemma_stream_write, rendered, row_out, spaces, spec_write, stream_rest,
};
use vstd::string::StrSliceExecFns;

verus! {

/// How the writer lays out columns: `Packed` uses a single separating space
/// and no padding (and can be emitted lazily); `Left` and `Right` pad every
/// cell to its column's widest rendered cell, which requires buffering the
/// whole document to measure the columns first.
pub enum ColumnAlignment {
    Left,
    Right,
    Packed,
}

/// Whether a value must be written quoted: it contains a character that the
/// grammar gives meaning to, or it is exactly `-`, which unquoted would
/// read back as the null cell.
fn cell_needs_quotes(t: &String) -> (r: bool)
    ensures
        r == (has_special(t@) || t@ == seq!['-']),
{
    let n = t.as_str().unicode_len();
    if n == 1 && t.as_str().get_char(0) == '-' {
        proof {
            assert(t@ =~= seq!['-']);
        }
        return true;
    }
    let mut i: usize = 0;
    while i < n
        invariant
            i <= n,
            n == t@.len(),
            forall|j: int|
                0 <= j < i ==> !(t@[j] == '\n' || t@[j] == '"' || t@[j] == '#'
                    || is_wsv_whitespace(t@[j])),
        decreases n - i,
    {
        let c = t.as_str().get_char(i);
        if c == '\n' || c == '"' || c == '#' || wsv_whitespace(c) {
            proof {
                let j = i as int;
                assert(0 <= j < t@.len() && (t@[j] == '\n' || t@[j] == '"' || t@[j] == '#'
                    || is_wsv_whitespace(t@[j])));
            }
            return true;
        }
        i = i + 1;
    }
    proof {
        if t@ == seq!['-'] {
            assert(t@.len() == 1);
            assert(t@[0] == '-');
            assert(false);
        }
    }
    false
}

/// Appends the serialized form of one cell: `-` for the null cell, the text
/// itself for a bare value, or the quoted and escaped text.
fn push_rendered(out: &mut Vec<char>, c: &Option<String>)
    ensures
        final(out)@ == old(out)@ + rendered(cell_view(*c)),
{
    let ghost base = out@;
    match c {
        None => {
            out.push('-');
            proof {
                assert(out@ =~= base + rendered(cell_view(*c)));
            }
        },
        Some(t) => {
            let n = t.as_str().unicode_len();
            if cell_needs_quotes(t) {
                out.push('"');
                let mut i: usize = 0;
                while i < n
                    invariant
                        i <= n,
                        n == t@.len(),
                        out@ == base + seq!['"'] + escape_text(t@.take(i as int)),
                    decreases n - i,
                {
                    let ch = t.as_str().get_char(i);
                    proof {
                        assert(t@.take(i as int).push(ch) =~= t@.take(i + 1 as int));
                        crate::write_spec::lemma_escape_push(t@.take(i as int), ch);
                    }
                    if ch == '\n' {
                        out.push('"');
                        out.push('/');
                        out.push('"');
                    } else if ch == '"' {
                        out.push('"');
                        out.push('"');
                    } else {
                        out.push(ch);
                    }
                    proof {
                        assert(out@ =~= base + seq!['"'] + escape_text(t@.take(i + 1 as int)));
                    }
                    i = i + 1;
                }
                out.push('"');
                proof {
                    assert(t@.take(n as int) =~= t@);
                    assert(out@ =~= base + (seq!['"'] + escape_text(t@) + seq!['"']));
                }
            } else {
                let mut i: usize = 0;
                while i < n
                    invariant
                        i <= n,
                        n == t@.len(),
                        out@ == base + t@.take(i as int),
                    decreases n - i,
                {
                    out.push(t.as_str().get_char(i));
                    proof {
                        assert(out@ =~= base + t@.take(i + 1 as int));
                    }
                    i = i + 1;
                }
                proof {
                    assert(t@.take(n as int) =~= t@);
                    assert(out@ =~= base + rendered(cell_view(*c)));
                }
            }
        },
    }
}

/// The rendered width of one cell: the length of its final printed
/// representation, quotes and escapes included.
fn render_width(c: &Option<String>) -> (w: usize)
    ensures
        w == rendered(cell_view(*c)).len(),
{
    let mut tmp: Vec<char> = Vec::new();
    push_rendered(&mut tmp, c);
    proof {
        assert(tmp@ =~= rendered(cell_view(*c)));
    }
    tmp.len()
}

/// A writer for WSV documents. `to_string` serializes the whole document at
/// once; `next` pulls the packed serialization one character at a time, for
/// output too large to materialize.
pub struct WSVWriter {
    align_columns: ColumnAlignment,
    values: Vec<Vec<Option<String>>>,
    row: usize,
    col: usize,
    pending: Vec<char>,
    ppos: usize,
}

impl WSVWriter {
    /// The document this writer serializes.
    pub closed spec fn doc(&self) -> Seq<Seq<Option<Seq<char>>>> {
        doc_view(self.values@)
    }

    /// The alignment this writer's `to_string` uses.
    pub closed spec fn alignment(&self) -> ColumnAlignment {
        self.align_columns
    }

    pub closed spec fn wf(&self) -> bool {
        &&& self.ppos <= self.pending.len()
        &&& self.row <= self.values.len()
        &&& (self.row < self.values.len() ==> self.col <= self.values[self.row as int]@.len())
        &&& (self.row == self.values.len() ==> self.col == 0)
    }

    /// What the packed per-character stream will still emit.
    pub closed spec fn remaining(&self) -> Seq<char> {
        self.pending@.skip(self.ppos as int) + stream_rest(
            self.doc(),
            self.row as int,
            self.col as int,
        )
    }

    /// A writer over `values`, packed by default; the packed stream starts
    /// at the beginning of the serialization.
    pub fn new(values: Vec<Vec<Option<String>>>) -> (r: Self)
        ensures
            r.wf(),
            r.doc() == doc_view(values@),
            r.alignment() == ColumnAlignment::Packed,
            r.remaining() == spec_write(doc_view(values@), ColumnAlignment::Packed),
    {
        let r = WSVWriter {
            align_columns: ColumnAlignment::Packed,
            values,
            row: 0,
            col: 0,
            pending: Vec::new(),
            ppos: 0,
        };
        proof {
            lemma_stream_write(r.doc(), 0);
            assert(r.remaining() =~= stream_rest(r.doc(), 0, 0));
        }
        r
    }

    /// Sets the column alignment of this writer. Left and right alignment
    /// must measure every column first, so only the packed layout can be
    /// emitted lazily through `next`.
    pub fn align_columns(self, alignment: ColumnAlignment) -> (r: Self)
        ensures
            r.doc() == self.doc(),
            r.alignment() == alignment,
            r.wf() == self.wf(),
            r.remaining() == self.remaining(),
    {
        WSVWriter {
            align_columns: alignment,
            values: self.values,
            row: self.row,
            col: self.col,
            pending: self.pending,
            ppos: self.ppos,
        }
    }

    /// The next character of the packed serialization, or `None` once the
    /// document is fully emitted. (The per-character stream is always
    /// packed, whatever alignment `to_string` would use.)
    pub fn next(&mut self) -> (r: Option<char>)
        requires
            old(self).wf(),
        ensures
            final(self).wf(),
            final(self).doc() == old(self).doc(),
            final(self).alignment() == old(self).alignment(),
            old(self).remaining().len() == 0 ==> r is None && final(self).remaining()
                == old(self).remaining(),
            old(self).remaining().len() > 0 ==> r == Some(old(self).remaining()[0])
                && final(self).remaining() == old(self).remaining().drop_first(),
    {
        loop
            invariant
                self.wf(),
                self.doc() == old(self).doc(),
                self.align_columns == old(self).align_columns,
                self.remaining() == old(self).remaining(),
            decreases
                    self.values.len() - self.row,
                    (if self.row < self.values.len() {
                        self.values[self.row as int]@.len() - self.col + 1
                    } else {
                        0int
                    }),
        {
            if self.ppos < self.pending.len() {
                let ch = self.pending[self.ppos];
                self.ppos = self.ppos + 1;
                proof {
                    assert(old(self).remaining()[0] == ch);
                    assert(self.remaining() =~= old(self).remaining().drop_first());
                }
                return Some(ch);
            }
            if self.row >= self.values.len() {
                proof {
                    assert(self.remaining() =~= Seq::<char>::empty());
                }
                return None;
            }
            let ghost pre = self.remaining();
            self.pending.clear();
            self.ppos = 0;
            if self.col < self.values[self.row].len() {
                if self.col > 0 {
                    self.pending.push(' ');
                }
                push_rendered(&mut self.pending, &self.values[self.row][self.col]);
                proof {
                    assert(self.doc()[self.row as int] == row_view(
                        self.values[self.row as int]@,
                    ));
                    assert(self.doc()[self.row as int][self.col as int] == cell_view(
                        self.values[self.row as int]@[self.col as int],
                    ));
                }
                self.col = self.col + 1;
                proof {
                    assert(self.remaining() =~= pre);
                }
            } else {
                self.col = 0;
                self.row = self.row + 1;
                if self.row < self.values.len() {
                    self.pending.push('\n');
                }
                proof {
                    assert(self.remaining() =~= pre);
                }
            }
        }
    }

    /// Serializes the whole document with this writer's alignment: cells
    /// joined by single spaces (padded to the column width unless packed),
    /// rows joined by single line feeds, no trailing line feed.
    #[verifier::rlimit(80)]
    pub fn to_string(self) -> (r: String)
        ensures
            r@ == spec_write(self.doc(), self.alignment()),
    {
        let ghost doc = self.doc();
        let values = self.values;
        let align = self.align_columns;
        let packed = match align {
            ColumnAlignment::Packed => true,
            _ => false,
        };

        // First pass (skipped when packed): the widest rendered cell of
        // every column.
        let mut widths: Vec<usize> = Vec::new();
        if !packed {
            let mut r: usize = 0;
            while r < values.len()
                invariant
                    doc == doc_view(values@),
                    r <= values.len(),
                    doc.len() == values@.len(),
                    forall|k: int|
                        0 <= k < widths@.len() ==> widths@[k] == col_width(
                            doc.take(r as int),
                            k,
                        ),
                    forall|k: int| k >= widths@.len() ==> #[trigger] col_width(doc.take(r as int), k) == 0,
                decreases values.len() - r,
            {
                let rowref = &values[r];
                let mut i: usize = 0;
                while i < rowref.len()
                    invariant
                        doc == doc_view(values@),
                        r < values.len(),
                        doc.len() == values@.len(),
                        rowref == values[r as int],
                        i <= rowref@.len(),
                        widths@.len() >= i,
                        forall|k: int|
                            0 <= k < i ==> widths@[k] == col_width(doc.take(r + 1 as int), k),
                        forall|k: int|
                            i <= k < widths@.len() ==> widths@[k] == col_width(
                                doc.take(r as int),
                                k,
                            ),
                        forall|k: int| k >= widths@.len() ==> #[trigger] col_width(doc.take(r as int), k) == 0,
                    decreases rowref@.len() - i,
                {
                    let w = render_width(&rowref[i]);
                    proof {
                        assert(doc[r as int] == row_view(values[r as int]@));
                        assert(doc[r as int][i as int] == cell_view(rowref@[i as int]));
                        lemma_col_width_step(doc, r as int, i as int);
                    }
                    if i < widths.len() {
                        let prev = widths[i];
                        if w > prev {
                            widths.set(i, w);
                        }
                    } else {
                        widths.push(w);
                    }
                    i = i + 1;
                }
                proof {
                    assert forall|k: int| i <= k < widths@.len() implies widths@[k] == col_width(
                        doc.take(r + 1 as int),
                        k,
                    ) by {
                        lemma_col_width_step(doc, r as int, k);
                    }
                    assert forall|k: int| k >= widths@.len() implies #[trigger] col_width(
                        doc.take(r + 1 as int),
                        k,
                    ) == 0 by {
                        lemma_col_width_step(doc, r as int, k);
                    }
                }
                r = r + 1;
            }
            proof {
                assert(doc.take(values@.len() as int) =~= doc);
            }
        }

        // Second pass: emit.
        let mut out: Vec<char> = Vec::new();
        let mut r: usize = 0;
        while r < values.len()
            invariant
                doc == doc_view(values@),
                r <= values.len(),
                doc.len() == values@.len(),
                packed <==> align is Packed,
                packed || (forall|k: int|
                    0 <= k < widths@.len() ==> widths@[k] == col_width(doc, k)),
                packed || (forall|k: int| k >= widths@.len() ==> #[trigger] col_width(doc, k) == 0),
                r < values.len() ==> out@ + (if r > 0 {
                    seq!['\n']
                } else {
                    Seq::<char>::empty()
                }) + doc_out(doc, align, r as int) == spec_write(doc, align),
                r == values.len() ==> out@ == spec_write(doc, align),
            decreases values.len() - r,
        {
            if r > 0 {
                out.push('\n');
            }
            let ghost target = out@ + row_out(doc, align, doc[r as int], 0);
            let rowref = &values[r];
            let mut i: usize = 0;
            while i < rowref.len()
                invariant
                    doc == doc_view(values@),
                    r < values.len(),
                    doc.len() == values@.len(),
                    rowref == values[r as int],
                    i <= rowref@.len(),
                    doc[r as int] == row_view(rowref@),
                    packed <==> align is Packed,
                    packed || (forall|k: int|
                        0 <= k < widths@.len() ==> widths@[k] == col_width(doc, k)),
                    packed || (forall|k: int| k >= widths@.len() ==> #[trigger] col_width(doc, k) == 0),
                    i < rowref@.len() ==> out@ + (if i > 0 {
                        seq![' ']
                    } else {
                        Seq::<char>::empty()
                    }) + row_out(doc, align, doc[r as int], i as int) == target,
                    i == rowref@.len() ==> out@ == target,
                decreases rowref@.len() - i,
            {
                if i > 0 {
                    out.push(' ');
                }
                let ghost cw_spec = col_width(doc, i as int);
                let w: usize = if !packed && i < widths.len() {
                    widths[i]
                } else {
                    0
                };
                proof {
                    if !packed {
                        assert(w == cw_spec || (i >= widths@.len() && cw_spec == 0 && w == 0));
                    }
                    assert(doc[r as int][i as int] == cell_view(rowref@[i as int]));
                }
                let cw = render_width(&rowref[i]);
                let ghost cell_target = out@ + cell_out(
                    doc[r as int][i as int],
                    align,
                    if packed {
                        0int
                    } else {
                        cw_spec
                    },
                );
                match align {
                    ColumnAlignment::Packed => {
                        push_rendered(&mut out, &rowref[i]);
                    },
                    ColumnAlignment::Left => {
                        push_rendered(&mut out, &rowref[i]);
                        let ghost padbase = out@;
                        let mut k = cw;
                        while k < w
                            invariant
                                cw <= k,
                                k <= w || k == cw,
                                out@ == padbase + spaces(k - cw),
                            decreases w - k,
                        {
                            out.push(' ');
                            k = k + 1;
                        }
                        proof {
                            lemma_spaces_len(w - cw);
                            lemma_spaces_len(k - cw);
                            assert(spaces(k - cw) =~= spaces(
                                col_width(doc, i as int) - rendered(
                                    doc[r as int][i as int],
                                ).len(),
                            ));
                        }
                    },
                    ColumnAlignment::Right => {
                        let ghost padbase = out@;
                        let mut k = cw;
                        while k < w
                            invariant
                                cw <= k,
                                k <= w || k == cw,
                                out@ == padbase + spaces(k - cw),
                            decreases w - k,
                        {
                            out.push(' ');
                            k = k + 1;
                        }
                        proof {
                            lemma_spaces_len(w - cw);
                            lemma_spaces_len(k - cw);
                            assert(spaces(k - cw) =~= spaces(
                                col_width(doc, i as int) - rendered(
                                    doc[r as int][i as int],
                                ).len(),
                            ));
                        }
                        push_rendered(&mut out, &rowref[i]);
                    },
                }
                proof {
                    assert(out@ =~= cell_target);
                    if i + 1 < rowref@.len() {
                        assert(out@ + seq![' '] + row_out(doc, align, doc[r as int], i + 1)
                            =~= target);
                    } else {
                        assert(out@ =~= target);
                    }
                }
                i = i + 1;
            }
            proof {
                if r + 1 < values.len() {
                    assert(out@ + seq!['\n'] + doc_out(doc, align, r + 1) =~= spec_write(
                        doc,
                        align,
                    ));
                } else {
                    assert(out@ =~= spec_write(doc, align));
                }
            }
            r = r + 1;
        }
        chars_to_string(&out)
    }
}

} // verus!
