//! The laws of the codec, proved over the mathematical models: writing then
//! parsing restores the document, writing is idempotent, the null token and
//! the quoting predicate behave as specified, and the streaming row reader
//! agrees with the eager parser.

use vstd::prelude::*;
use crate::chars::{is_bare_char, is_wsv_whitespace};
use crate::error::WSVError;
use crate::scan::{
    bare_end, lemma_bare_end_exact, lemma_ws_end_exact, parse_tokens, rows_of, scan, scan_quoted,
    spec_parse, spec_rows, token_stream, ws_end, QuotedEnd, ScanStep,
};
use crate::token::TokenModel;
use crate::write_spec::{
    doc_out, escape_char, escape_text, has_special, lemma_spaces_len, rendered, row_out, spaces,
    spec_write,
};
use crate::writer::ColumnAlignment;

verus! {

/// A cell that writes to text that reads back as the same cell: any null
/// cell, and any value that is not the empty string. (An empty value is
/// written as nothing at all, so it cannot survive a round trip.)
pub open spec fn clean_cell(c: Option<Seq<char>>) -> bool {
    c is Some ==> c->0.len() > 0
}

/// A document whose serialization reads back as the same document: every
/// cell is clean, and the final row is non-empty (a trailing empty row
/// serializes to a trailing line feed, which parsing does not turn back
/// into a row).
pub open spec fn clean_doc(d: Seq<Seq<Option<Seq<char>>>>) -> bool {
    &&& forall|r: int, i: int|
        0 <= r < d.len() && 0 <= i < d[r].len() ==> clean_cell(#[trigger] d[r][i])
    &&& d.len() > 0 ==> d.last().len() > 0
}

/// The token that one cell parses back to.
pub open spec fn token_of_cell(c: Option<Seq<char>>) -> TokenModel {
    match c {
        None => TokenModel::Null,
        Some(t) => TokenModel::Value(t),
    }
}

/// Scanning the inside of a quoted value over the escaped form of `t`,
/// followed by the closing quote and a boundary that cannot extend an
/// escape, resolves exactly `t`.
pub proof fn lemma_scan_quoted_escape(s: Seq<char>, i: int, t: Seq<char>, acc: Seq<char>)
    requires
        0 <= i,
        i + escape_text(t).len() + 1 <= s.len(),
        s.subrange(i, i + escape_text(t).len()) == escape_text(t),
        s[i + escape_text(t).len()] == '"',
        i + escape_text(t).len() + 1 == s.len() || (s[i + escape_text(t).len() + 1] != '"' && s[i
            + escape_text(t).len() + 1] != '/'),
    ensures
        scan_quoted(s, i, acc) == (QuotedEnd::Closed {
            text: acc + t,
            end: i + escape_text(t).len() + 1,
        }),
    decreases t.len(),
{
    let el = escape_text(t).len() as int;
    if t.len() == 0 {
        assert(s[i] == '"');
        assert(scan_quoted(s, i, acc) == (QuotedEnd::Closed { text: acc, end: i + 1 }));
        assert(acc + t =~= acc);
    } else {
        let c = t[0];
        let ec = escape_char(c);
        let t2 = t.drop_first();
        assert(escape_text(t) == ec + escape_text(t2));
        let el2 = escape_text(t2).len() as int;
        assert(el == ec.len() + el2);
        assert forall|j: int| 0 <= j < ec.len() implies s[i + j] == ec[j] by {
            assert(s.subrange(i, i + el)[j] == s[i + j]);
            assert((ec + escape_text(t2))[j] == ec[j]);
        }
        assert(s.subrange(i + ec.len(), i + el) =~= escape_text(t2)) by {
            assert forall|j: int| 0 <= j < el2 implies s.subrange(i + ec.len(), i + el)[j]
                == escape_text(t2)[j] by {
                assert(s.subrange(i, i + el)[ec.len() + j] == s[i + ec.len() + j]);
                assert((ec + escape_text(t2))[ec.len() + j] == escape_text(t2)[j]);
            }
        }
        if c == '\n' {
            assert(ec =~= seq!['"', '/', '"']);
            assert(s[i] == '"' && s[i + 1] == '/' && s[i + 2] == '"');
            lemma_scan_quoted_escape(s, i + 3, t2, acc.push('\n'));
            assert(acc.push('\n') + t2 =~= acc + t);
        } else if c == '"' {
            assert(ec =~= seq!['"', '"']);
            assert(s[i] == '"' && s[i + 1] == '"');
            lemma_scan_quoted_escape(s, i + 2, t2, acc.push('"'));
            assert(acc.push('"') + t2 =~= acc + t);
        } else {
            assert(ec =~= seq![c]);
            assert(s.subrange(i, i + el)[0] == s[i + 0]);
            assert(ec[0] == c);
            assert(s[i] == c);
            lemma_scan_quoted_escape(s, i + 1, t2, acc.push(c));
            assert(acc.push(c) + t2 =~= acc + t);
        }
    }
}

/// The tokens that the cells of `row` from index `i` on parse back to.
pub open spec fn row_tokens(row: Seq<Option<Seq<char>>>, i: int) -> Seq<TokenModel>
    decreases row.len() - i,
{
    if i < 0 || i >= row.len() {
        Seq::empty()
    } else {
        seq![token_of_cell(row[i])] + row_tokens(row, i + 1)
    }
}

/// The tokens that the serialization of `d`, from cell `i` of row `r` on,
/// parses back to: the row's cell tokens, a line feed before each following
/// row, and that row's tokens in turn.
pub open spec fn doc_tokens(d: Seq<Seq<Option<Seq<char>>>>, r: int, i: int) -> Seq<TokenModel>
    decreases d.len() - r,
{
    if r < 0 || r >= d.len() {
        Seq::empty()
    } else {
        row_tokens(d[r], i) + (if r + 1 < d.len() {
            seq![TokenModel::Lf] + doc_tokens(d, r + 1, 0)
        } else {
            Seq::empty()
        })
    }
}

/// Each token wrapped as a successful scan result.
pub open spec fn ok_items(toks: Seq<TokenModel>) -> Seq<Result<TokenModel, WSVError>> {
    toks.map_values(|t: TokenModel| Ok::<TokenModel, WSVError>(t))
}

/// The serialized text of `d` from cell `i` of row `r` on.
pub open spec fn tail_text(
    d: Seq<Seq<Option<Seq<char>>>>,
    a: ColumnAlignment,
    r: int,
    i: int,
) -> Seq<char> {
    row_out(d, a, d[r], i) + (if r + 1 < d.len() {
        seq!['\n'] + doc_out(d, a, r + 1)
    } else {
        Seq::empty()
    })
}

/// Every cell of the document survives a round trip.
pub open spec fn cells_clean(d: Seq<Seq<Option<Seq<char>>>>) -> bool {
    forall|r: int, i: int| 0 <= r < d.len() && 0 <= i < d[r].len() ==> clean_cell(#[trigger] d[r][i])
}

/// Scanning the serialized document from cell `i` of row `r` on (with any
/// run of whitespace before it) produces exactly the remaining tokens, with
/// no error, immediate or deferred.
#[verifier::rlimit(80)]
pub proof fn lemma_stream_of_doc(
    s: Seq<char>,
    pos: int,
    e1: int,
    d: Seq<Seq<Option<Seq<char>>>>,
    a: ColumnAlignment,
    r: int,
    i: int,
)
    requires
        cells_clean(d),
        0 <= r < d.len(),
        0 <= i <= d[r].len(),
        0 <= pos <= e1 <= s.len(),
        forall|j: int| pos <= j < e1 ==> is_wsv_whitespace(#[trigger] s[j]),
        s.subrange(e1, s.len() as int) == tail_text(d, a, r, i),
    ensures
        token_stream(s, pos, None, false) == ok_items(doc_tokens(d, r, i)),
    decreases d.len() - r, d[r].len() - i,
{
    let tt = tail_text(d, a, r, i);
    assert(s.len() == e1 + tt.len());
    assert forall|j: int| 0 <= j < tt.len() implies s[e1 + j] == tt[j] by {
        assert(s.subrange(e1, s.len() as int)[j] == s[e1 + j]);
    }
    let row = d[r];
    if i < row.len() {
        let cell = row[i];
        assert(clean_cell(cell));
        let w = crate::write_spec::col_width(d, i);
        let rc = rendered(cell);
        let co = crate::write_spec::cell_out(cell, a, w);
        let padb: Seq<char> = match a {
            ColumnAlignment::Right => spaces(w - rc.len()),
            _ => Seq::empty(),
        };
        let pada: Seq<char> = match a {
            ColumnAlignment::Left => spaces(w - rc.len()),
            _ => Seq::empty(),
        };
        lemma_spaces_len(w - rc.len());
        assert(co =~= padb + rc + pada);
        let sep: Seq<char> = if i + 1 < row.len() {
            seq![' ']
        } else {
            Seq::empty()
        };
        let rest: Seq<char> = (if i + 1 < row.len() {
            row_out(d, a, row, i + 1)
        } else {
            Seq::empty()
        }) + (if r + 1 < d.len() {
            seq!['\n'] + doc_out(d, a, r + 1)
        } else {
            Seq::empty()
        });
        assert(tt =~= padb + rc + pada + sep + rest);
        let e1b = e1 + padb.len() as int;
        let e2 = e1b + rc.len() as int;
        let e1n = e2 + pada.len() + sep.len() as int;
        assert forall|j: int| pos <= j < e1b implies is_wsv_whitespace(#[trigger] s[j]) by {
            if j >= e1 {
                assert(s[j] == tt[j - e1]);
                assert(tt[j - e1] == padb[j - e1]);
                assert(padb[j - e1] == ' ');
            }
        }
        assert(s.subrange(e1b, e2) =~= rc) by {
            assert forall|j: int| 0 <= j < rc.len() implies s.subrange(e1b, e2)[j] == rc[j] by {
                assert(s.subrange(e1b, e2)[j] == s[e1b + j]);
                assert(s[e1b + j] == tt[e1b + j - e1]);
                assert(tt[(padb.len() + j) as int] == rc[j]);
            }
        }
        assert(token_boundary(s, e2)) by {
            if pada.len() > 0 {
                assert(s[e2] == tt[e2 - e1]);
                assert(tt[e2 - e1] == pada[0]);
                assert(pada[0] == ' ');
            } else if i + 1 < row.len() {
                assert(s[e2] == tt[e2 - e1]);
                assert(tt[e2 - e1] == ' ');
            } else if r + 1 < d.len() {
                assert(s[e2] == tt[e2 - e1]);
                assert(tt[e2 - e1] == '\n');
            } else {
                assert(rest =~= Seq::<char>::empty());
                assert(e2 == s.len());
            }
        }
        lemma_scan_rendered(s, pos, e1b, cell);
        assert(rc.len() > 0);
        assert(scan(s, pos) == (ScanStep::Tok {
            token: token_of_cell(cell),
            pos: e2,
            pending: None,
        }));
        assert(token_stream(s, pos, None, false) == seq![
            Ok::<TokenModel, WSVError>(token_of_cell(cell)),
        ] + token_stream(s, e2, None, false));
        // set up the recursive call
        assert forall|j: int| e2 <= j < e1n implies is_wsv_whitespace(#[trigger] s[j]) by {
            assert(s[j] == tt[j - e1]);
            if j - e2 < pada.len() {
                assert(tt[j - e1] == pada[j - e2]);
                assert(pada[j - e2] == ' ');
            } else {
                assert(tt[j - e1] == ' ');
            }
        }
        assert(s.subrange(e1n, s.len() as int) =~= tail_text(d, a, r, i + 1)) by {
            assert(tail_text(d, a, r, i + 1) =~= rest);
            assert forall|j: int| 0 <= j < rest.len() implies s.subrange(e1n, s.len() as int)[j]
                == rest[j] by {
                assert(s.subrange(e1n, s.len() as int)[j] == s[e1n + j]);
                assert(s[e1n + j] == tt[e1n + j - e1]);
                assert(tt[(padb.len() + rc.len() + pada.len() + sep.len() + j) as int] == rest[j]);
            }
        }
        lemma_stream_of_doc(s, e2, e1n, d, a, r, i + 1);
        assert(doc_tokens(d, r, i) =~= seq![token_of_cell(cell)] + doc_tokens(d, r, i + 1)) by {
            assert(row_tokens(row, i) == seq![token_of_cell(cell)] + row_tokens(row, i + 1));
        }
        assert(ok_items(doc_tokens(d, r, i)) =~= seq![
            Ok::<TokenModel, WSVError>(token_of_cell(cell)),
        ] + ok_items(doc_tokens(d, r, i + 1)));
    } else {
        assert(row_out(d, a, row, i) =~= Seq::<char>::empty());
        assert(row_tokens(row, i) =~= Seq::<TokenModel>::empty());
        if r + 1 < d.len() {
            assert(tt =~= seq!['\n'] + doc_out(d, a, r + 1));
            assert(s[e1] == tt[0]);
            assert(tt[0] == '\n');
            assert(!is_wsv_whitespace('\n'));
            lemma_ws_end_exact(s, pos, e1);
            assert(scan(s, pos) == (ScanStep::Tok {
                token: TokenModel::Lf,
                pos: e1 + 1,
                pending: None,
            }));
            assert(token_stream(s, pos, None, false) == seq![
                Ok::<TokenModel, WSVError>(TokenModel::Lf),
            ] + token_stream(s, e1 + 1, None, false));
            assert(s.subrange(e1 + 1, s.len() as int) =~= tail_text(d, a, r + 1, 0)) by {
                assert(tail_text(d, a, r + 1, 0) =~= doc_out(d, a, r + 1));
                assert forall|j: int| 0 <= j < doc_out(d, a, r + 1).len() implies #[trigger] s.subrange(
                    e1 + 1,
                    s.len() as int,
                )[j] == doc_out(d, a, r + 1)[j] by {
                    assert(s.subrange(e1 + 1, s.len() as int)[j] == s[e1 + 1 + j]);
                    assert(s[e1 + 1 + j] == tt[1 + j]);
                    assert(tt[1 + j] == doc_out(d, a, r + 1)[j]);
                }
            }
            lemma_stream_of_doc(s, e1 + 1, e1 + 1, d, a, r + 1, 0);
            assert(doc_tokens(d, r, i) =~= seq![TokenModel::Lf] + doc_tokens(d, r + 1, 0));
            assert(ok_items(doc_tokens(d, r, i)) =~= seq![
                Ok::<TokenModel, WSVError>(TokenModel::Lf),
            ] + ok_items(doc_tokens(d, r + 1, 0)));
        } else {
            assert(tt =~= Seq::<char>::empty());
            assert(e1 == s.len());
            lemma_ws_end_exact(s, pos, e1);
            assert(scan(s, pos) == (ScanStep::End { pos: s.len() as int }));
            assert(doc_tokens(d, r, i) =~= Seq::<TokenModel>::empty());
            assert(ok_items(doc_tokens(d, r, i)) =~= Seq::<Result<TokenModel, WSVError>>::empty());
        }
    }
}

/// A boundary that ends any token: the end of the input, whitespace, or a
/// line feed.
pub open spec fn token_boundary(s: Seq<char>, e: int) -> bool {
    e == s.len() || is_wsv_whitespace(s[e]) || s[e] == '\n'
}

/// Scanning at whitespace followed by the rendering of a clean cell,
/// followed by a token boundary, yields exactly that cell's token, consumes
/// exactly through the rendering, and defers no error.
pub proof fn lemma_scan_rendered(s: Seq<char>, pos: int, e1: int, c: Option<Seq<char>>)
    requires
        clean_cell(c),
        0 <= pos <= e1,
        e1 + rendered(c).len() <= s.len(),
        forall|j: int| pos <= j < e1 ==> is_wsv_whitespace(s[j]),
        s.subrange(e1, e1 + rendered(c).len()) == rendered(c),
        token_boundary(s, e1 + rendered(c).len()),
    ensures
        scan(s, pos) == (ScanStep::Tok {
            token: token_of_cell(c),
            pos: e1 + rendered(c).len(),
            pending: None,
        }),
{
    let rc = rendered(c);
    let e2 = e1 + rc.len() as int;
    assert(rc.len() > 0) by {
        match c {
            None => {},
            Some(t) => {
                if has_special(t) || t == seq!['-'] {
                } else {
                }
            },
        }
    }
    assert forall|j: int| 0 <= j < rc.len() implies s[e1 + j] == rc[j] by {
        assert(s.subrange(e1, e2)[j] == s[e1 + j]);
    }
    assert(s[e1] == rc[0]);
    match c {
        None => {
            assert(rc =~= seq!['-']);
            assert(s[e1] == '-');
            assert(!is_wsv_whitespace('-'));
            lemma_ws_end_exact(s, pos, e1);
            assert(is_bare_char(s[e1]));
            lemma_bare_end_exact(s, e1, e1 + 1);
            assert(scan(s, pos) == (ScanStep::Tok {
                token: TokenModel::Null,
                pos: e2,
                pending: None,
            }));
        },
        Some(t) => {
            if has_special(t) || t == seq!['-'] {
                // quoted form
                assert(rc == seq!['"'] + escape_text(t) + seq!['"']);
                assert(rc[0] == '"');
                assert(s[e1] == '"');
                assert(!is_wsv_whitespace('"'));
                lemma_ws_end_exact(s, pos, e1);
                let el = escape_text(t).len() as int;
                assert(rc.len() == el + 2);
                assert(s.subrange(e1 + 1, e1 + 1 + el) =~= escape_text(t)) by {
                    assert forall|j: int| 0 <= j < el implies s.subrange(e1 + 1, e1 + 1 + el)[j]
                        == escape_text(t)[j] by {
                        assert(s[e1 + 1 + j] == rc[1 + j]);
                        assert(rc[1 + j] == (seq!['"'] + escape_text(t) + seq!['"'])[1 + j]);
                    }
                }
                assert(s[e1 + 1 + el] == rc[1 + el]);
                assert(rc[1 + el] == '"');
                assert(e1 + 1 + el + 1 == e2);
                assert(e2 == s.len() || (s[e2] != '"' && s[e2] != '/')) by {
                    if e2 < s.len() {
                        assert(is_wsv_whitespace(s[e2]) || s[e2] == '\n');
                    }
                }
                lemma_scan_quoted_escape(s, e1 + 1, t, Seq::empty());
                assert(Seq::<char>::empty() + t =~= t);
                assert(scan_quoted(s, e1 + 1, Seq::empty()) == (QuotedEnd::Closed {
                    text: t,
                    end: e2,
                }));
                assert(crate::scan::after_value_ok(s, e2));
                assert(scan(s, pos) == (ScanStep::Tok {
                    token: TokenModel::Value(t),
                    pos: e2,
                    pending: None,
                }));
            } else {
                // bare form
                assert(rc == t);
                assert forall|j: int| e1 <= j < e2 implies is_bare_char(#[trigger] s[j]) by {
                    let k = j - e1;
                    assert(s[j] == rc[k]);
                    assert(s[j] == t[k]);
                    if t[k] == '\n' || t[k] == '"' || t[k] == '#' || is_wsv_whitespace(t[k]) {
                        assert(0 <= k < t.len() && (t[k] == '\n' || t[k] == '"' || t[k] == '#'
                            || is_wsv_whitespace(t[k])));
                        assert(has_special(t));
                        assert(false);
                    }
                }
                assert(is_bare_char(s[e1]));
                lemma_ws_end_exact(s, pos, e1);
                lemma_bare_end_exact(s, e1, e2);
                assert(s.subrange(e1, e2) == t);
                if e2 == e1 + 1 && s[e1] == '-' {
                    assert(t.len() == 1 && t[0] == '-');
                    assert(t =~= seq!['-']);
                    assert(false);
                }
                assert(e2 < s.len() ==> s[e2] != '"');
                assert(scan(s, pos) == (ScanStep::Tok {
                    token: TokenModel::Value(t),
                    pos: e2,
                    pending: None,
                }));
            }
        },
    }
}


/// Assembling the remaining tokens of the serialized document extends the
/// rows collected so far by exactly the remaining rows.
pub proof fn lemma_assemble(
    d: Seq<Seq<Option<Seq<char>>>>,
    r: int,
    i: int,
    doc_acc: Seq<Seq<Option<Seq<char>>>>,
)
    requires
        0 <= r < d.len(),
        0 <= i <= d[r].len(),
        d.last().len() > 0,
    ensures
        parse_tokens(doc_tokens(d, r, i), doc_acc, d[r].subrange(0, i), false) == doc_acc
            + d.subrange(r, d.len() as int),
    decreases d.len() - r, d[r].len() - i,
{
    let row = d[r];
    if i < row.len() {
        let tok = token_of_cell(row[i]);
        let toks = doc_tokens(d, r, i);
        assert(toks =~= seq![tok] + doc_tokens(d, r, i + 1)) by {
            assert(row_tokens(row, i) == seq![tok] + row_tokens(row, i + 1));
        }
        assert(toks[0] == tok);
        assert(toks.drop_first() =~= doc_tokens(d, r, i + 1));
        match row[i] {
            None => {
                assert(row.subrange(0, i).push(None) =~= row.subrange(0, i + 1));
            },
            Some(t) => {
                assert(row.subrange(0, i).push(Some(t)) =~= row.subrange(0, i + 1));
            },
        }
        lemma_assemble(d, r, i + 1, doc_acc);
    } else {
        assert(row.subrange(0, i) =~= row);
        assert(row_tokens(row, i) =~= Seq::<TokenModel>::empty());
        if r + 1 < d.len() {
            let toks = doc_tokens(d, r, i);
            assert(toks =~= seq![TokenModel::Lf] + doc_tokens(d, r + 1, 0));
            assert(toks[0] == TokenModel::Lf);
            assert(toks.drop_first() =~= doc_tokens(d, r + 1, 0));
            assert(d[r + 1].subrange(0, 0) =~= Seq::<Option<Seq<char>>>::empty());
            lemma_assemble(d, r + 1, 0, doc_acc.push(row));
            assert(doc_acc.push(row) + d.subrange(r + 1, d.len() as int) =~= doc_acc + d.subrange(
                r,
                d.len() as int,
            ));
        } else {
            assert(doc_tokens(d, r, i) =~= Seq::<TokenModel>::empty());
            assert(row == d.last());
            assert(row.len() > 0);
            assert(doc_acc.push(row) =~= doc_acc + d.subrange(r, d.len() as int));
        }
    }
}

/// LAW (round trip): parsing the serialization of a clean document restores
/// exactly that document, whatever the alignment. Clean means: no cell
/// holds the empty string (which serializes to nothing), and the final row
/// is non-empty (a trailing empty row serializes to a trailing line feed,
/// which parsing drops).
pub proof fn lemma_write_parse_round_trip(d: Seq<Seq<Option<Seq<char>>>>, a: ColumnAlignment)
    requires
        clean_doc(d),
    ensures
        spec_parse(spec_write(d, a)) == Ok::<Seq<Seq<Option<Seq<char>>>>, WSVError>(d),
{
    let s = spec_write(d, a);
    if d.len() == 0 {
        assert(s =~= Seq::<char>::empty());
        assert(ws_end(s, 0) == 0);
        assert(scan(s, 0) == (ScanStep::End { pos: 0 }));
        assert(token_stream(s, 0, None, false) =~= Seq::<Result<TokenModel, WSVError>>::empty());
        assert(Seq::<Result<TokenModel, WSVError>>::empty().map_values(
            |r: Result<TokenModel, WSVError>| r->Ok_0,
        ).len() == 0);
        assert(d =~= Seq::<Seq<Option<Seq<char>>>>::empty());
        assert(spec_parse(s) == Ok::<Seq<Seq<Option<Seq<char>>>>, WSVError>(d));
    } else {
        assert(s.subrange(0, s.len() as int) =~= s);
        assert(s =~= tail_text(d, a, 0, 0));
        lemma_stream_of_doc(s, 0, 0, d, a, 0, 0);
        let toks = doc_tokens(d, 0, 0);
        let stream = token_stream(s, 0, None, false);
        assert(stream == ok_items(toks));
        if stream.len() > 0 {
            assert(ok_items(toks)[stream.len() - 1] == Ok::<TokenModel, WSVError>(
                toks[stream.len() - 1],
            ));
            assert(stream.last() is Ok);
        }
        assert(stream.map_values(|r: Result<TokenModel, WSVError>| r->Ok_0) =~= toks);
        assert(d[0].subrange(0, 0) =~= Seq::<Option<Seq<char>>>::empty());
        lemma_assemble(d, 0, 0, Seq::empty());
        assert(Seq::<Seq<Option<Seq<char>>>>::empty() + d.subrange(0, d.len() as int) =~= d);
        assert(spec_parse(s) == Ok::<Seq<Seq<Option<Seq<char>>>>, WSVError>(d));
    }
}

/// LAW (idempotence): serializing, parsing, and serializing again yields
/// the same text as the first serialization, for any alignment.
pub proof fn lemma_write_idempotent(d: Seq<Seq<Option<Seq<char>>>>, a: ColumnAlignment)
    requires
        clean_doc(d),
    ensures
        spec_parse(spec_write(d, a)) is Ok,
        spec_write(spec_parse(spec_write(d, a))->Ok_0, a) == spec_write(d, a),
{
    lemma_write_parse_round_trip(d, a);
}

/// LAW: a bare token that is exactly the single character `-` always scans
/// as the null token, never as a value.
pub proof fn lemma_bare_dash_is_null(s: Seq<char>, pos: int)
    requires
        0 <= pos <= s.len(),
        ws_end(s, pos) < s.len(),
        s[ws_end(s, pos)] == '-',
        bare_end(s, ws_end(s, pos)) == ws_end(s, pos) + 1,
    ensures
        scan(s, pos) == (ScanStep::Tok {
            token: TokenModel::Null,
            pos: ws_end(s, pos) + 1,
            pending: None,
        }),
{
}

/// LAW: a quoted `"-"` always scans as the literal value `-`, never as the
/// null token.
pub proof fn lemma_quoted_dash_is_value(s: Seq<char>, pos: int, e1: int)
    requires
        0 <= pos <= e1,
        e1 + 3 <= s.len(),
        forall|j: int| pos <= j < e1 ==> is_wsv_whitespace(#[trigger] s[j]),
        s[e1] == '"',
        s[e1 + 1] == '-',
        s[e1 + 2] == '"',
        token_boundary(s, e1 + 3),
    ensures
        scan(s, pos) == (ScanStep::Tok {
            token: TokenModel::Value(seq!['-']),
            pos: e1 + 3,
            pending: None,
        }),
{
    let dash = seq!['-'];
    assert(escape_text(dash) =~= dash) by {
        assert(dash.drop_first() =~= Seq::<char>::empty());
        assert(escape_char('-') =~= seq!['-']);
        assert(escape_char(dash[0]) + escape_text(dash.drop_first()) =~= dash);
    }
    assert(rendered(Some(dash)) =~= seq!['"', '-', '"']);
    assert(s.subrange(e1, e1 + 3) =~= rendered(Some(dash)));
    lemma_scan_rendered(s, pos, e1, Some(dash));
}

/// LAW (quoting predicate): a value containing a line feed, a quote, a
/// comment mark or whitespace is always emitted quoted (with its escapes);
/// a value containing none of these is emitted bare, exactly as it is --
/// except the literal `-`, which is quoted so that it does not read back as
/// the null cell.
pub proof fn lemma_quoting_predicate(t: Seq<char>)
    ensures
        has_special(t) ==> rendered(Some(t)) == seq!['"'] + escape_text(t) + seq!['"'],
        !has_special(t) && t != seq!['-'] ==> rendered(Some(t)) == t,
        t == seq!['-'] ==> rendered(Some(t)) == seq!['"'] + escape_text(t) + seq!['"'],
        rendered(None) == seq!['-'],
{
}

/// Collecting rows into an accumulated document distributes over the
/// accumulator.
pub proof fn lemma_parse_tokens_acc(
    toks: Seq<TokenModel>,
    doc: Seq<Seq<Option<Seq<char>>>>,
    row: Seq<Option<Seq<char>>>,
    saw_comment: bool,
)
    ensures
        parse_tokens(toks, doc, row, saw_comment) == doc + parse_tokens(
            toks,
            Seq::empty(),
            row,
            saw_comment,
        ),
    decreases toks.len(),
{
    if toks.len() == 0 {
        if row.len() > 0 {
            assert(doc.push(row) =~= doc + Seq::<Seq<Option<Seq<char>>>>::empty().push(row));
        } else {
            assert(doc =~= doc + Seq::<Seq<Option<Seq<char>>>>::empty());
        }
    } else {
        let rest = toks.drop_first();
        match toks[0] {
            TokenModel::Lf => {
                if row.len() == 0 && saw_comment {
                    lemma_parse_tokens_acc(rest, doc, Seq::empty(), false);
                } else {
                    lemma_parse_tokens_acc(rest, doc.push(row), Seq::empty(), false);
                    lemma_parse_tokens_acc(
                        rest,
                        Seq::<Seq<Option<Seq<char>>>>::empty().push(row),
                        Seq::empty(),
                        false,
                    );
                    assert(doc.push(row) + parse_tokens(rest, Seq::empty(), Seq::empty(), false)
                        =~= doc + (Seq::<Seq<Option<Seq<char>>>>::empty().push(row) + parse_tokens(
                        rest,
                        Seq::empty(),
                        Seq::empty(),
                        false,
                    )));
                }
            },
            TokenModel::Null => {
                lemma_parse_tokens_acc(rest, doc, row.push(None), saw_comment);
            },
            TokenModel::Value(t) => {
                lemma_parse_tokens_acc(rest, doc, row.push(Some(t)), saw_comment);
            },
            TokenModel::Comment(_) => {
                lemma_parse_tokens_acc(rest, doc, row, true);
            },
        }
    }
}

/// Over a comment-free, error-free token sequence, the streaming row reader
/// yields exactly the rows the eager assembler collects.
pub proof fn lemma_rows_match_parse(toks: Seq<TokenModel>, row: Seq<Option<Seq<char>>>)
    requires
        forall|k: int| 0 <= k < toks.len() ==> !(#[trigger] toks[k] is Comment),
    ensures
        rows_of(ok_items(toks), row) == parse_tokens(toks, Seq::empty(), row, false).map_values(
            |x: Seq<Option<Seq<char>>>| Ok::<Seq<Option<Seq<char>>>, WSVError>(x),
        ),
    decreases toks.len(),
{
    let okrow = |x: Seq<Option<Seq<char>>>| Ok::<Seq<Option<Seq<char>>>, WSVError>(x);
    if toks.len() == 0 {
        assert(ok_items(toks).len() == 0);
        if row.len() == 0 {
            assert(rows_of(ok_items(toks), row) =~= parse_tokens(
                toks,
                Seq::empty(),
                row,
                false,
            ).map_values(okrow));
        } else {
            assert(parse_tokens(toks, Seq::empty(), row, false) =~= Seq::<
                Seq<Option<Seq<char>>>,
            >::empty().push(row));
            assert(rows_of(ok_items(toks), row) =~= parse_tokens(
                toks,
                Seq::empty(),
                row,
                false,
            ).map_values(okrow));
        }
    } else {
        let rest = toks.drop_first();
        assert(forall|k: int| 0 <= k < rest.len() ==> !(#[trigger] rest[k] is Comment)) by {
            assert(forall|k: int| 0 <= k < rest.len() ==> rest[k] == toks[k + 1]);
        }
        assert(ok_items(toks) =~= seq![Ok::<TokenModel, WSVError>(toks[0])] + ok_items(rest));
        crate::scan::lemma_rows_of_step(Ok(toks[0]), ok_items(rest), row);
        match toks[0] {
            TokenModel::Lf => {
                lemma_rows_match_parse(rest, Seq::empty());
                lemma_parse_tokens_acc(
                    rest,
                    Seq::<Seq<Option<Seq<char>>>>::empty().push(row),
                    Seq::empty(),
                    false,
                );
                assert(seq![okrow(row)] + parse_tokens(rest, Seq::empty(), Seq::empty(), false)
                    .map_values(okrow) =~= (Seq::<Seq<Option<Seq<char>>>>::empty().push(row)
                    + parse_tokens(rest, Seq::empty(), Seq::empty(), false)).map_values(okrow));
            },
            TokenModel::Null => {
                lemma_rows_match_parse(rest, row.push(None));
            },
            TokenModel::Value(t) => {
                lemma_rows_match_parse(rest, row.push(Some(t)));
            },
            TokenModel::Comment(_) => {
                assert(toks[0] is Comment);
                assert(false);
            },
        }
    }
}

/// The token stream of `s` holds no comment token.
pub open spec fn no_comments(s: Seq<char>) -> bool {
    forall|k: int|
        0 <= k < token_stream(s, 0, None, false).len() ==> !(#[trigger] token_stream(
            s,
            0,
            None,
            false,
        )[k] matches Ok(TokenModel::Comment(_)))
}

/// LAW (streaming/eager equivalence): on any comment-free input that the
/// eager parser accepts, the streaming row reader yields exactly the same
/// rows, in order, each wrapped in `Ok`.
pub proof fn lemma_streaming_matches_eager(s: Seq<char>)
    requires
        spec_parse(s) is Ok,
        no_comments(s),
    ensures
        spec_rows(s) == spec_parse(s)->Ok_0.map_values(
            |x: Seq<Option<Seq<char>>>| Ok::<Seq<Option<Seq<char>>>, WSVError>(x),
        ),
{
    let stream = token_stream(s, 0, None, false);
    crate::scan::lemma_stream_err_last(s, 0, None, false);
    assert forall|k: int| 0 <= k < stream.len() implies #[trigger] stream[k] is Ok by {
        if k == stream.len() - 1 {
            assert(!(stream.len() > 0 && stream.last() is Err));
        }
    }
    let toks = stream.map_values(|r: Result<TokenModel, WSVError>| r->Ok_0);
    assert(ok_items(toks) =~= stream);
    assert forall|k: int| 0 <= k < toks.len() implies !(#[trigger] toks[k] is Comment) by {
        assert(!(stream[k] matches Ok(TokenModel::Comment(_))));
        assert(stream[k] is Ok);
        assert(toks[k] == stream[k]->Ok_0);
    }
    lemma_rows_match_parse(toks, Seq::empty());
    assert(spec_rows(s) == rows_of(stream, Seq::empty()));
}

} // verus!
