//! The mathematical model of the token scanner: one `scan` step per pull,
//! folded into a whole token stream, a parsed document, and a row stream.
//! Every executable scanner in this crate is proved equal to this model.

use vstd::prelude::*;
use crate::chars::{is_bare_char, is_wsv_whitespace};
use crate::error::{WSVError, WSVErrorType};
use crate::location::location_at;
use crate::token::TokenModel;

verus! {

/// End of the whitespace run starting at `pos`: the first index at or after
/// `pos` whose character is not WSV whitespace, or the length of `s`.
pub open spec fn ws_end(s: Seq<char>, pos: int) -> int
    decreases s.len() - pos,
{
    if pos < 0 || pos >= s.len() {
        s.len() as int
    } else if is_wsv_whitespace(s[pos]) {
        ws_end(s, pos + 1)
    } else {
        pos
    }
}

/// End of the bare-value run starting at `pos`.
pub open spec fn bare_end(s: Seq<char>, pos: int) -> int
    decreases s.len() - pos,
{
    if pos < 0 || pos >= s.len() {
        s.len() as int
    } else if is_bare_char(s[pos]) {
        bare_end(s, pos + 1)
    } else {
        pos
    }
}

/// End of the comment text starting at `pos`: the next line feed or the end
/// of the input.
pub open spec fn comment_end(s: Seq<char>, pos: int) -> int
    decreases s.len() - pos,
{
    if pos < 0 || pos >= s.len() {
        s.len() as int
    } else if s[pos] != '\n' {
        comment_end(s, pos + 1)
    } else {
        pos
    }
}

/// Bounds and contents of the three runs: each run stays in bounds, all of
/// its characters belong to its class, and the character at its end (if any)
/// does not.
pub proof fn lemma_ws_end(s: Seq<char>, pos: int)
    requires
        0 <= pos <= s.len(),
    ensures
        pos <= ws_end(s, pos) <= s.len(),
        forall|j: int| pos <= j < ws_end(s, pos) ==> is_wsv_whitespace(s[j]),
        ws_end(s, pos) < s.len() ==> !is_wsv_whitespace(s[ws_end(s, pos)]),
    decreases s.len() - pos,
{
    if pos < s.len() && is_wsv_whitespace(s[pos]) {
        lemma_ws_end(s, pos + 1);
    }
}

pub proof fn lemma_bare_end(s: Seq<char>, pos: int)
    requires
        0 <= pos <= s.len(),
    ensures
        pos <= bare_end(s, pos) <= s.len(),
        forall|j: int| pos <= j < bare_end(s, pos) ==> is_bare_char(s[j]),
        bare_end(s, pos) < s.len() ==> !is_bare_char(s[bare_end(s, pos)]),
    decreases s.len() - pos,
{
    if pos < s.len() && is_bare_char(s[pos]) {
        lemma_bare_end(s, pos + 1);
    }
}

pub proof fn lemma_comment_end(s: Seq<char>, pos: int)
    requires
        0 <= pos <= s.len(),
    ensures
        pos <= comment_end(s, pos) <= s.len(),
        forall|j: int| pos <= j < comment_end(s, pos) ==> s[j] != '\n',
        comment_end(s, pos) < s.len() ==> s[comment_end(s, pos)] == '\n',
    decreases s.len() - pos,
{
    if pos < s.len() && s[pos] != '\n' {
        lemma_comment_end(s, pos + 1);
    }
}

/// A run is exactly characterized by its contents and its boundary.
pub proof fn lemma_ws_end_exact(s: Seq<char>, pos: int, e: int)
    requires
        0 <= pos <= e <= s.len(),
        forall|j: int| pos <= j < e ==> is_wsv_whitespace(s[j]),
        e < s.len() ==> !is_wsv_whitespace(s[e]),
    ensures
        ws_end(s, pos) == e,
    decreases s.len() - pos,
{
    if pos < s.len() && is_wsv_whitespace(s[pos]) {
        lemma_ws_end_exact(s, pos + 1, e);
    }
}

pub proof fn lemma_bare_end_exact(s: Seq<char>, pos: int, e: int)
    requires
        0 <= pos <= e <= s.len(),
        forall|j: int| pos <= j < e ==> is_bare_char(s[j]),
        e < s.len() ==> !is_bare_char(s[e]),
    ensures
        bare_end(s, pos) == e,
    decreases s.len() - pos,
{
    if pos < s.len() && is_bare_char(s[pos]) {
        lemma_bare_end_exact(s, pos + 1, e);
    }
}

pub proof fn lemma_comment_end_exact(s: Seq<char>, pos: int, e: int)
    requires
        0 <= pos <= e <= s.len(),
        forall|j: int| pos <= j < e ==> s[j] != '\n',
        e < s.len() ==> s[e] == '\n',
    ensures
        comment_end(s, pos) == e,
    decreases s.len() - pos,
{
    if pos < s.len() && s[pos] != '\n' {
        lemma_comment_end_exact(s, pos + 1, e);
    }
}

/// The outcome of scanning the inside of a quoted value: the resolved text
/// and the index just past the closing quote, or an error kind together with
/// the number of characters the scanner had consumed when it failed.
pub ghost enum QuotedEnd {
    Closed { text: Seq<char>, end: int },
    Failed { kind: WSVErrorType, at: int },
}

/// Scans the inside of a quoted value. `i` is the index of the next unread
/// character (the opening quote sits at `i - 1`); `acc` is the text resolved
/// so far. Escapes: `""` is one literal quote, `"/"` is one line feed; a
/// lone `"` closes the value; a raw line feed or the end of the input fails
/// with `StringNotClosed`; a `"/` not followed by `"` fails with
/// `InvalidStringLineBreak`.
pub open spec fn scan_quoted(s: Seq<char>, i: int, acc: Seq<char>) -> QuotedEnd
    decreases s.len() - i,
{
    if i < 0 || i >= s.len() {
        QuotedEnd::Failed { kind: WSVErrorType::StringNotClosed, at: s.len() as int }
    } else if s[i] == '"' {
        if i + 1 < s.len() && s[i + 1] == '"' {
            scan_quoted(s, i + 2, acc.push('"'))
        } else if i + 1 < s.len() && s[i + 1] == '/' {
            if i + 2 < s.len() && s[i + 2] == '"' {
                scan_quoted(s, i + 3, acc.push('\n'))
            } else {
                QuotedEnd::Failed { kind: WSVErrorType::InvalidStringLineBreak, at: i + 2 }
            }
        } else {
            QuotedEnd::Closed { text: acc, end: i + 1 }
        }
    } else if s[i] == '\n' {
        QuotedEnd::Failed { kind: WSVErrorType::StringNotClosed, at: i }
    } else {
        scan_quoted(s, i + 1, acc.push(s[i]))
    }
}

/// After a closed quoted value ending at index `e`, the next character must
/// be the end of the input, whitespace, a line feed, or a comment mark;
/// anything else is a deferred `InvalidCharacterAfterString`.
pub open spec fn after_value_ok(s: Seq<char>, e: int) -> bool {
    e >= s.len() || s[e] == '\n' || s[e] == '#' || is_wsv_whitespace(s[e])
}

/// The outcome of one pull: end of input (after consuming trailing
/// whitespace), a token (with the cursor after it, possibly with a deferred
/// error to deliver on the next pull), or an immediate error. `pos` is the
/// number of characters consumed in every case.
pub ghost enum ScanStep {
    End { pos: int },
    Tok { token: TokenModel, pos: int, pending: Option<WSVError> },
    Fail { err: WSVError, pos: int },
}

/// One pull of the scanner over `s`, with `pos` characters already consumed:
/// skip whitespace, then scan a quoted value, a comment, a line feed, or a
/// bare value, in that order. A bare value that is exactly `-` is the null
/// token. Deferred errors are attached as `pending`, located at the
/// scanner's position when the offending character was peeked.
pub open spec fn scan(s: Seq<char>, pos: int) -> ScanStep {
    let p = ws_end(s, pos);
    if p >= s.len() {
        ScanStep::End { pos: s.len() as int }
    } else if s[p] == '"' {
        match scan_quoted(s, p + 1, Seq::empty()) {
            QuotedEnd::Closed { text, end } => ScanStep::Tok {
                token: TokenModel::Value(text),
                pos: end,
                pending: if after_value_ok(s, end) {
                    None
                } else {
                    Some(
                        WSVError {
                            err_type: WSVErrorType::InvalidCharacterAfterString,
                            location: location_at(s, end),
                        },
                    )
                },
            },
            QuotedEnd::Failed { kind, at } => ScanStep::Fail {
                err: WSVError { err_type: kind, location: location_at(s, at) },
                pos: at,
            },
        }
    } else if s[p] == '#' {
        let e = comment_end(s, p + 1);
        ScanStep::Tok { token: TokenModel::Comment(s.subrange(p + 1, e)), pos: e, pending: None }
    } else if s[p] == '\n' {
        ScanStep::Tok { token: TokenModel::Lf, pos: p + 1, pending: None }
    } else {
        let b = bare_end(s, p);
        if b == p + 1 && s[p] == '-' {
            ScanStep::Tok { token: TokenModel::Null, pos: b, pending: None }
        } else {
            ScanStep::Tok {
                token: TokenModel::Value(s.subrange(p, b)),
                pos: b,
                pending: if b < s.len() && s[b] == '"' {
                    Some(
                        WSVError {
                            err_type: WSVErrorType::InvalidDoubleQuoteAfterValue,
                            location: location_at(s, b),
                        },
                    )
                } else {
                    None
                },
            }
        }
    }
}

pub proof fn lemma_scan_quoted_range(s: Seq<char>, i: int, acc: Seq<char>)
    requires
        0 <= i <= s.len(),
    ensures
        match scan_quoted(s, i, acc) {
            QuotedEnd::Closed { text, end } => i < end <= s.len(),
            QuotedEnd::Failed { kind, at } => 0 <= at <= s.len(),
        },
    decreases s.len() - i,
{
    if i < s.len() {
        if s[i] == '"' {
            if i + 1 < s.len() && s[i + 1] == '"' {
                lemma_scan_quoted_range(s, i + 2, acc.push('"'));
            } else if i + 1 < s.len() && s[i + 1] == '/' {
                if i + 2 < s.len() && s[i + 2] == '"' {
                    lemma_scan_quoted_range(s, i + 3, acc.push('\n'));
                }
            }
        } else if s[i] != '\n' {
            lemma_scan_quoted_range(s, i + 1, acc.push(s[i]));
        }
    }
}

/// A successful scan step strictly advances the cursor and stays in bounds.
pub proof fn lemma_scan_range(s: Seq<char>, pos: int)
    requires
        0 <= pos <= s.len(),
    ensures
        match scan(s, pos) {
            ScanStep::End { pos: np } => np == s.len(),
            ScanStep::Tok { token, pos: np, pending } => pos < np <= s.len(),
            ScanStep::Fail { err, pos: np } => 0 <= np <= s.len(),
        },
{
    let p = ws_end(s, pos);
    lemma_ws_end(s, pos);
    if p < s.len() {
        if s[p] == '"' {
            lemma_scan_quoted_range(s, p + 1, Seq::empty());
        } else if s[p] == '#' {
            lemma_comment_end(s, p + 1);
        } else if s[p] == '\n' {
        } else {
            assert(is_bare_char(s[p]));
            lemma_bare_end(s, p + 1);
            assert(bare_end(s, p) == bare_end(s, p + 1));
        }
    }
}

/// The whole remaining token stream of a scanner over `s` that has consumed
/// `pos` characters, holds `pending` as a deferred error, and is terminal if
/// `errored`. An error, immediate or deferred, is always the last item.
pub open spec fn token_stream(
    s: Seq<char>,
    pos: int,
    pending: Option<WSVError>,
    errored: bool,
) -> Seq<Result<TokenModel, WSVError>>
    decreases s.len() - pos, (if errored {
        0int
    } else if pending is Some {
        1int
    } else {
        2int
    }),
{
    if errored {
        Seq::empty()
    } else if pending is Some {
        seq![Err(pending->0)]
    } else {
        match scan(s, pos) {
            ScanStep::End { .. } => Seq::empty(),
            ScanStep::Fail { err, .. } => seq![Err(err)],
            ScanStep::Tok { token, pos: np, pending: pd } => {
                if pos < np <= s.len() {
                    seq![Ok::<TokenModel, WSVError>(token)] + token_stream(s, np, pd, false)
                } else {
                    seq![Ok::<TokenModel, WSVError>(token)]
                }
            },
        }
    }
}

/// Assembles a token sequence into a document, mirroring the eager parser:
/// cells accumulate into `row`; a line feed appends `row` to `doc` unless
/// the line held nothing but a comment; the final row is kept only if it is
/// non-empty (a trailing line feed produces no phantom row).
pub open spec fn parse_tokens(
    toks: Seq<TokenModel>,
    doc: Seq<Seq<Option<Seq<char>>>>,
    row: Seq<Option<Seq<char>>>,
    saw_comment: bool,
) -> Seq<Seq<Option<Seq<char>>>>
    decreases toks.len(),
{
    if toks.len() == 0 {
        if row.len() > 0 {
            doc.push(row)
        } else {
            doc
        }
    } else {
        match toks[0] {
            TokenModel::Lf => parse_tokens(
                toks.drop_first(),
                if row.len() == 0 && saw_comment {
                    doc
                } else {
                    doc.push(row)
                },
                Seq::empty(),
                false,
            ),
            TokenModel::Null => parse_tokens(toks.drop_first(), doc, row.push(None), saw_comment),
            TokenModel::Value(t) => parse_tokens(
                toks.drop_first(),
                doc,
                row.push(Some(t)),
                saw_comment,
            ),
            TokenModel::Comment(_) => parse_tokens(toks.drop_first(), doc, row, true),
        }
    }
}

/// What the eager parser returns when the scanner's remaining stream is
/// `stream` and the rows and cells assembled so far are `doc` and `row`: the
/// error, if the stream ends in one, else the fully assembled document.
pub open spec fn parse_resume(
    stream: Seq<Result<TokenModel, WSVError>>,
    doc: Seq<Seq<Option<Seq<char>>>>,
    row: Seq<Option<Seq<char>>>,
    saw_comment: bool,
) -> Result<Seq<Seq<Option<Seq<char>>>>, WSVError> {
    if stream.len() > 0 && stream.last() is Err {
        Err(stream.last()->Err_0)
    } else {
        Ok(
            parse_tokens(
                stream.map_values(|r: Result<TokenModel, WSVError>| r->Ok_0),
                doc,
                row,
                saw_comment,
            ),
        )
    }
}

/// What parsing the whole of `s` eagerly returns: the first scan error, or
/// the document.
pub open spec fn spec_parse(s: Seq<char>) -> Result<Seq<Seq<Option<Seq<char>>>>, WSVError> {
    parse_resume(token_stream(s, 0, None, false), Seq::empty(), Seq::empty(), false)
}

/// The remaining yields of the streaming row reader given the remaining
/// token stream and the cells of the row under construction: comments are
/// skipped, a line feed completes a row (even an empty one), the end of the
/// stream yields the final row only if it is non-empty, and an error is
/// delivered after the non-empty row it interrupted.
pub open spec fn rows_of(
    stream: Seq<Result<TokenModel, WSVError>>,
    row: Seq<Option<Seq<char>>>,
) -> Seq<Result<Seq<Option<Seq<char>>>, WSVError>>
    decreases stream.len(),
{
    if stream.len() == 0 {
        if row.len() == 0 {
            Seq::empty()
        } else {
            seq![Ok(row)]
        }
    } else {
        match stream[0] {
            Err(e) => if row.len() == 0 {
                seq![Err(e)]
            } else {
                seq![Ok(row), Err(e)]
            },
            Ok(TokenModel::Lf) => seq![Ok::<Seq<Option<Seq<char>>>, WSVError>(row)] + rows_of(
                stream.drop_first(),
                Seq::empty(),
            ),
            Ok(TokenModel::Null) => rows_of(stream.drop_first(), row.push(None)),
            Ok(TokenModel::Value(t)) => rows_of(stream.drop_first(), row.push(Some(t))),
            Ok(TokenModel::Comment(_)) => rows_of(stream.drop_first(), row),
        }
    }
}

/// The full yield sequence of the streaming row reader over `s`.
pub open spec fn spec_rows(s: Seq<char>) -> Seq<Result<Seq<Option<Seq<char>>>, WSVError>> {
    rows_of(token_stream(s, 0, None, false), Seq::empty())
}

/// Consuming one good token from the front of the stream updates the parse
/// state exactly as the assembler does.
pub proof fn lemma_parse_resume_step(
    t: TokenModel,
    rest: Seq<Result<TokenModel, WSVError>>,
    doc: Seq<Seq<Option<Seq<char>>>>,
    row: Seq<Option<Seq<char>>>,
    saw_comment: bool,
)
    ensures
        parse_resume(seq![Ok(t)] + rest, doc, row, saw_comment) == match t {
            TokenModel::Lf => parse_resume(
                rest,
                if row.len() == 0 && saw_comment {
                    doc
                } else {
                    doc.push(row)
                },
                Seq::empty(),
                false,
            ),
            TokenModel::Null => parse_resume(rest, doc, row.push(None), saw_comment),
            TokenModel::Value(x) => parse_resume(rest, doc, row.push(Some(x)), saw_comment),
            TokenModel::Comment(_) => parse_resume(rest, doc, row, true),
        },
{
    let st = seq![Ok::<TokenModel, WSVError>(t)] + rest;
    let f = |r: Result<TokenModel, WSVError>| r->Ok_0;
    assert(st.len() == 1 + rest.len());
    assert(st[0] == Ok::<TokenModel, WSVError>(t));
    if rest.len() > 0 {
        assert(st.last() == rest.last());
    }
    assert(st.map_values(f) =~= seq![t] + rest.map_values(f));
    if !(st.len() > 0 && st.last() is Err) {
        let toks = st.map_values(f);
        assert(toks[0] == t);
        assert(toks.drop_first() =~= rest.map_values(f));
    }
}

/// Consuming one item from the front of the stream updates the row reader
/// exactly as `rows_of` says.
pub proof fn lemma_rows_of_step(
    x: Result<TokenModel, WSVError>,
    rest: Seq<Result<TokenModel, WSVError>>,
    row: Seq<Option<Seq<char>>>,
)
    ensures
        rows_of(seq![x] + rest, row) == match x {
            Err(e) => if row.len() == 0 {
                seq![Err(e)]
            } else {
                seq![Ok(row), Err(e)]
            },
            Ok(TokenModel::Lf) => seq![Ok::<Seq<Option<Seq<char>>>, WSVError>(row)] + rows_of(
                rest,
                Seq::empty(),
            ),
            Ok(TokenModel::Null) => rows_of(rest, row.push(None)),
            Ok(TokenModel::Value(t)) => rows_of(rest, row.push(Some(t))),
            Ok(TokenModel::Comment(_)) => rows_of(rest, row),
        },
{
    let st = seq![x] + rest;
    assert(st[0] == x);
    assert(st.drop_first() =~= rest);
}

/// In a token stream, an error can only be the last item.
pub proof fn lemma_stream_err_last(s: Seq<char>, pos: int, pending: Option<WSVError>, errored: bool)
    requires
        0 <= pos <= s.len(),
    ensures
        forall|i: int|
            0 <= i < token_stream(s, pos, pending, errored).len() - 1 ==> token_stream(
                s,
                pos,
                pending,
                errored,
            )[i] is Ok,
    decreases s.len() - pos, (if errored {
        0int
    } else if pending is Some {
        1int
    } else {
        2int
    }),
{
    if !errored && pending is None {
        lemma_scan_range(s, pos);
        match scan(s, pos) {
            ScanStep::Tok { token, pos: np, pending: pd } => {
                if pos < np <= s.len() {
                    lemma_stream_err_last(s, np, pd, false);
                }
            },
            _ => {},
        }
    }
}

} // verus!
