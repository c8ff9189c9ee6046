//! The mathematical model of the writer: how one cell is rendered (quoting
//! and escaping), how columns are padded, and what the whole serialized
//! document looks like.

use vstd::prelude::*;
use crate::chars::is_wsv_whitespace;
use crate::writer::ColumnAlignment;

verus! {

/// The serialized form of one character inside a quoted value: a line feed
/// becomes the three-character `"/"` escape, a quote is doubled, anything
/// else stands for itself.
pub open spec fn escape_char(c: char) -> Seq<char> {
    if c == '\n' {
        seq!['"', '/', '"']
    } else if c == '"' {
        seq!['"', '"']
    } else {
        seq![c]
    }
}

/// The serialized form of the inside of a quoted value.
pub open spec fn escape_text(t: Seq<char>) -> Seq<char>
    decreases t.len(),
{
    if t.len() == 0 {
        Seq::empty()
    } else {
        escape_char(t[0]) + escape_text(t.drop_first())
    }
}

/// Whether a value must be written quoted: it contains a line feed, a
/// quote, a comment mark, or any whitespace character.
pub open spec fn has_special(t: Seq<char>) -> bool {
    exists|i: int|
        0 <= i < t.len() && (t[i] == '\n' || t[i] == '"' || t[i] == '#' || is_wsv_whitespace(t[i]))
}

/// The serialized form of one cell. The null cell is the bare `-`. A value
/// is quoted when it contains a special character, and also when it is
/// exactly the text `-`, which would otherwise read back as the null cell;
/// everything else is written bare, exactly as it is.
pub open spec fn rendered(c: Option<Seq<char>>) -> Seq<char> {
    match c {
        None => seq!['-'],
        Some(t) => if has_special(t) || t == seq!['-'] {
            seq!['"'] + escape_text(t) + seq!['"']
        } else {
            t
        },
    }
}

/// `n` spaces (none if `n` is not positive).
pub open spec fn spaces(n: int) -> Seq<char>
    decreases n,
{
    if n <= 0 {
        Seq::empty()
    } else {
        spaces(n - 1).push(' ')
    }
}

/// The width of column `i`: the largest rendered width of that column's
/// cells over all rows (0 if no row reaches the column). Recursion is over
/// the final row so that a writer can fold rows in order.
pub open spec fn col_width(doc: Seq<Seq<Option<Seq<char>>>>, i: int) -> int
    decreases doc.len(),
{
    if doc.len() == 0 {
        0
    } else {
        let rest = col_width(doc.drop_last(), i);
        let cur = if 0 <= i < doc.last().len() {
            rendered(doc.last()[i]).len() as int
        } else {
            0
        };
        if cur > rest {
            cur
        } else {
            rest
        }
    }
}

/// One cell as emitted: the rendered text, padded to the column width `w`
/// on the right (`Left`), on the left (`Right`), or not at all (`Packed`).
pub open spec fn cell_out(c: Option<Seq<char>>, a: ColumnAlignment, w: int) -> Seq<char> {
    match a {
        ColumnAlignment::Packed => rendered(c),
        ColumnAlignment::Left => rendered(c) + spaces(w - rendered(c).len()),
        ColumnAlignment::Right => spaces(w - rendered(c).len()) + rendered(c),
    }
}

/// The cells of `row` from index `i` on, padded to the widths of `doc`'s
/// columns and joined by single spaces.
pub open spec fn row_out(
    doc: Seq<Seq<Option<Seq<char>>>>,
    a: ColumnAlignment,
    row: Seq<Option<Seq<char>>>,
    i: int,
) -> Seq<char>
    decreases row.len() - i,
{
    if i < 0 || i >= row.len() {
        Seq::empty()
    } else {
        let cell = cell_out(row[i], a, col_width(doc, i));
        if i + 1 < row.len() {
            cell + seq![' '] + row_out(doc, a, row, i + 1)
        } else {
            cell
        }
    }
}

/// The rows of `doc` from index `r` on, each serialized by `row_out` and
/// joined by single line feeds. There is no trailing line feed.
pub open spec fn doc_out(doc: Seq<Seq<Option<Seq<char>>>>, a: ColumnAlignment, r: int) -> Seq<char>
    decreases doc.len() - r,
{
    if r < 0 || r >= doc.len() {
        Seq::empty()
    } else {
        let line = row_out(doc, a, doc[r], 0);
        if r + 1 < doc.len() {
            line + seq!['\n'] + doc_out(doc, a, r + 1)
        } else {
            line
        }
    }
}

/// The whole serialized document.
pub open spec fn spec_write(doc: Seq<Seq<Option<Seq<char>>>>, a: ColumnAlignment) -> Seq<char> {
    doc_out(doc, a, 0)
}

/// What a streaming packed writer that stands just before cell `c` of row
/// `r` still has to emit: a separating space before every cell but a row's
/// first, the rendered cells, and a line feed before every further row.
pub open spec fn stream_rest(doc: Seq<Seq<Option<Seq<char>>>>, r: int, c: int) -> Seq<char>
    decreases doc.len() - r, (if 0 <= r < doc.len() && 0 <= c <= doc[r].len() {
        doc[r].len() - c
    } else {
        0int
    }),
{
    if r < 0 || r >= doc.len() {
        Seq::empty()
    } else if 0 <= c < doc[r].len() {
        let sep: Seq<char> = if c > 0 {
            seq![' ']
        } else {
            Seq::empty()
        };
        sep + rendered(doc[r][c]) + stream_rest(doc, r, c + 1)
    } else if r + 1 < doc.len() {
        seq!['\n'] + stream_rest(doc, r + 1, 0)
    } else {
        Seq::empty()
    }
}

/// One more row extends each column width by taking the maximum with that
/// row's rendered cell (or leaves it unchanged past the row's end).
pub proof fn lemma_col_width_step(doc: Seq<Seq<Option<Seq<char>>>>, r: int, i: int)
    requires
        0 <= r < doc.len(),
    ensures
        col_width(doc.take(r + 1), i) == ({
            let rest = col_width(doc.take(r), i);
            let cur = if 0 <= i < doc[r].len() {
                rendered(doc[r][i]).len() as int
            } else {
                0int
            };
            if cur > rest {
                cur
            } else {
                rest
            }
        }),
{
    assert(doc.take(r + 1).drop_last() =~= doc.take(r));
    assert(doc.take(r + 1).last() == doc[r]);
}

pub proof fn lemma_spaces_len(n: int)
    ensures
        n >= 0 ==> spaces(n).len() == n,
        n <= 0 ==> spaces(n).len() == 0,
        forall|j: int| 0 <= j < spaces(n).len() ==> spaces(n)[j] == ' ',
    decreases n,
{
    if n > 0 {
        lemma_spaces_len(n - 1);
    }
}

/// The escaped text of `t + [c]` is the escaped text of `t` followed by the
/// escape of `c`: escaping distributes over appending one character.
pub proof fn lemma_escape_push(t: Seq<char>, c: char)
    ensures
        escape_text(t.push(c)) == escape_text(t) + escape_char(c),
    decreases t.len(),
{
    if t.len() == 0 {
        assert(t.push(c).drop_first() =~= Seq::<char>::empty());
        assert(t.push(c)[0] == c);
        assert(escape_text(t.push(c)) == escape_char(c) + escape_text(Seq::<char>::empty()));
        assert(escape_char(c) + escape_text(Seq::<char>::empty()) =~= escape_char(c));
        assert(escape_text(t) + escape_char(c) =~= escape_char(c));
    } else {
        assert(t.push(c).drop_first() =~= t.drop_first().push(c));
        lemma_escape_push(t.drop_first(), c);
        assert(escape_text(t.push(c)) == escape_char(t[0]) + (escape_text(t.drop_first())
            + escape_char(c)));
        assert(escape_char(t[0]) + (escape_text(t.drop_first()) + escape_char(c)) =~= (escape_char(
            t[0],
        ) + escape_text(t.drop_first())) + escape_char(c));
    }
}

/// Streaming from the start of row `r` emits that row's packed cells, then
/// the remaining rows.
pub proof fn lemma_stream_row(doc: Seq<Seq<Option<Seq<char>>>>, r: int, c: int)
    requires
        0 <= r < doc.len(),
        0 <= c < doc[r].len(),
    ensures
        stream_rest(doc, r, c) == (if c > 0 {
            seq![' ']
        } else {
            Seq::<char>::empty()
        }) + row_out(doc, ColumnAlignment::Packed, doc[r], c) + (if r + 1 < doc.len() {
            seq!['\n'] + stream_rest(doc, r + 1, 0)
        } else {
            Seq::<char>::empty()
        }),
    decreases doc[r].len() - c,
{
    let sep: Seq<char> = if c > 0 {
        seq![' ']
    } else {
        Seq::empty()
    };
    let tail: Seq<char> = if r + 1 < doc.len() {
        seq!['\n'] + stream_rest(doc, r + 1, 0)
    } else {
        Seq::empty()
    };
    if c + 1 < doc[r].len() {
        lemma_stream_row(doc, r, c + 1);
        assert(stream_rest(doc, r, c) =~= sep + row_out(doc, ColumnAlignment::Packed, doc[r], c)
            + tail);
    } else {
        assert(stream_rest(doc, r, c + 1) == tail);
        assert(stream_rest(doc, r, c) =~= sep + row_out(doc, ColumnAlignment::Packed, doc[r], c)
            + tail);
    }
}

/// The streaming packed writer emits exactly the packed serialization.
pub proof fn lemma_stream_write(doc: Seq<Seq<Option<Seq<char>>>>, r: int)
    requires
        0 <= r <= doc.len(),
    ensures
        stream_rest(doc, r, 0) == doc_out(doc, ColumnAlignment::Packed, r),
    decreases doc.len() - r,
{
    if r < doc.len() {
        lemma_stream_write(doc, r + 1);
        if doc[r].len() == 0 {
            if r + 1 < doc.len() {
                assert(stream_rest(doc, r, 0) =~= doc_out(doc, ColumnAlignment::Packed, r));
            } else {
                assert(stream_rest(doc, r, 0) =~= doc_out(doc, ColumnAlignment::Packed, r));
            }
        } else {
            lemma_stream_row(doc, r, 0);
            if r + 1 < doc.len() {
                assert(stream_rest(doc, r, 0) =~= doc_out(doc, ColumnAlignment::Packed, r));
            } else {
                assert(stream_rest(doc, r, 0) =~= doc_out(doc, ColumnAlignment::Packed, r));
            }
        }
    }
}

} // verus!
