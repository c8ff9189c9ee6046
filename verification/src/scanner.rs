//! The executable token scanner: one state machine shared by the borrowed
//! and the streaming tokenizer. Each `next_token` call is proved equal to
//! one `model_step` of the mathematical scanner in `scan`.

use vstd::prelude::*;
use crate::chars::{bare_char, is_bare_char, wsv_whitespace};
use crate::error::{WSVError, WSVErrorType};
use crate::location::{checked_inc, location_at, Location};
use crate::scan::{
    lemma_bare_end_exact, lemma_comment_end_exact, scan, scan_quoted, ws_end, QuotedEnd, ScanStep,
};
use crate::strutil::push_char;
use crate::token::{OwnedWSVToken, TokenModel};
use vstd::string::StrSliceExecFns;

verus! {

/// The abstract state of a scanner: the input, how much of it is consumed,
/// the deferred error to deliver on the next pull, and whether the scanner
/// has become terminal.
pub ghost struct ScannerModel {
    pub src: Seq<char>,
    pub pos: int,
    pub pending: Option<WSVError>,
    pub errored: bool,
}

/// One pull, on the abstract state: the new state and what the pull yields.
/// A terminal scanner yields nothing; a deferred error is delivered and
/// makes the scanner terminal; otherwise the scanner takes one `scan` step.
pub open spec fn model_step(m: ScannerModel) -> (ScannerModel, Option<
    Result<TokenModel, WSVError>,
>) {
    if m.errored {
        (m, None)
    } else if m.pending is Some {
        (
            ScannerModel { src: m.src, pos: m.pos, pending: None, errored: true },
            Some(Err(m.pending->0)),
        )
    } else {
        match scan(m.src, m.pos) {
            ScanStep::End { pos } => (
                ScannerModel { src: m.src, pos, pending: None, errored: false },
                None,
            ),
            ScanStep::Tok { token, pos, pending } => (
                ScannerModel { src: m.src, pos, pending, errored: false },
                Some(Ok(token)),
            ),
            ScanStep::Fail { err, pos } => (
                ScannerModel { src: m.src, pos, pending: None, errored: true },
                Some(Err(err)),
            ),
        }
    }
}

/// The abstract state of a scanner that has just been handed `s`.
pub open spec fn initial_model(s: Seq<char>) -> ScannerModel {
    ScannerModel { src: s, pos: 0, pending: None, errored: false }
}

/// The remaining token stream of a scanner in state `m`.
pub open spec fn stream_of(m: ScannerModel) -> Seq<Result<TokenModel, WSVError>> {
    crate::scan::token_stream(m.src, m.pos, m.pending, m.errored)
}

/// One `model_step` pops exactly the head of the remaining token stream.
pub proof fn lemma_step_stream(m: ScannerModel)
    requires
        0 <= m.pos <= m.src.len(),
    ensures
        ({
            let (m2, r) = model_step(m);
            &&& m2.src == m.src
            &&& 0 <= m2.pos <= m2.src.len()
            &&& match r {
                None => stream_of(m) == Seq::<Result<TokenModel, WSVError>>::empty() && stream_of(
                    m2,
                ) == Seq::<Result<TokenModel, WSVError>>::empty(),
                Some(x) => stream_of(m) == seq![x] + stream_of(m2),
            }
        }),
{
    crate::scan::lemma_scan_range(m.src, m.pos);
    let (m2, r) = model_step(m);
    if m.errored {
    } else if m.pending is Some {
        assert(stream_of(m) =~= seq![Err::<TokenModel, WSVError>(m.pending->0)] + stream_of(m2));
    } else {
        match scan(m.src, m.pos) {
            ScanStep::End { pos } => {
                assert(stream_of(m2) =~= Seq::<Result<TokenModel, WSVError>>::empty());
            },
            ScanStep::Tok { token, pos, pending } => {
                assert(stream_of(m) == seq![Ok::<TokenModel, WSVError>(token)] + stream_of(m2));
            },
            ScanStep::Fail { err, pos } => {
                assert(stream_of(m) =~= seq![Err::<TokenModel, WSVError>(err)] + stream_of(m2));
            },
        }
    }
}

/// The model of what one pull returned.
pub open spec fn pull_view(r: Option<Result<OwnedWSVToken, WSVError>>) -> Option<
    Result<TokenModel, WSVError>,
> {
    match r {
        None => None,
        Some(Ok(t)) => Some(Ok(t@)),
        Some(Err(e)) => Some(Err(e)),
    }
}

/// The scanner state machine over a materialized character sequence.
pub struct Scanner {
    source: Vec<char>,
    pos: usize,
    current_location: Location,
    lookahead_error: Option<WSVError>,
    errored: bool,
}

impl Scanner {
    /// The abstract state of this scanner.
    pub closed spec fn model(&self) -> ScannerModel {
        ScannerModel {
            src: self.source@,
            pos: self.pos as int,
            pending: self.lookahead_error,
            errored: self.errored,
        }
    }

    /// The scanner's cursor is in bounds and its location is the location of
    /// the consumed prefix.
    pub closed spec fn wf(&self) -> bool {
        &&& self.pos <= self.source.len()
        &&& self.current_location == location_at(self.source@, self.pos as int)
    }

    /// A well-formed scanner's cursor is inside its input.
    pub proof fn lemma_wf_bounds(&self)
        requires
            self.wf(),
        ensures
            0 <= self.model().pos <= self.model().src.len(),
    {
    }

    pub(crate) fn new(source: Vec<char>) -> (r: Scanner)
        ensures
            r.wf(),
            r.model() == (ScannerModel {
                src: source@,
                pos: 0,
                pending: None::<WSVError>,
                errored: false,
            }),
    {
        Scanner {
            source,
            pos: 0,
            current_location: Location { line: 1, col: 1 },
            lookahead_error: None,
            errored: false,
        }
    }

    fn advance(&mut self)
        requires
            old(self).wf(),
            old(self).pos < old(self).source.len(),
        ensures
            final(self).wf(),
            final(self).source == old(self).source,
            final(self).pos == old(self).pos + 1,
            final(self).lookahead_error == old(self).lookahead_error,
            final(self).errored == old(self).errored,
    {
        let c = self.source[self.pos];
        if c == '\n' {
            self.current_location = Location {
                line: checked_inc(self.current_location.line),
                col: 1,
            };
        } else {
            self.current_location = Location {
                line: self.current_location.line,
                col: checked_inc(self.current_location.col),
            };
        }
        self.pos = self.pos + 1;
    }

    fn skip_whitespace(&mut self)
        requires
            old(self).wf(),
        ensures
            final(self).wf(),
            final(self).source == old(self).source,
            final(self).pos == ws_end(old(self).source@, old(self).pos as int),
            final(self).lookahead_error == old(self).lookahead_error,
            final(self).errored == old(self).errored,
    {
        while self.pos < self.source.len() && wsv_whitespace(self.source[self.pos])
            invariant
                self.wf(),
                self.source == old(self).source,
                self.lookahead_error == old(self).lookahead_error,
                self.errored == old(self).errored,
                old(self).pos <= self.pos <= self.source.len(),
                ws_end(self.source@, old(self).pos as int) == ws_end(
                    self.source@,
                    self.pos as int,
                ),
            decreases self.source.len() - self.pos,
        {
            self.advance();
        }
    }

    /// Scans a quoted value whose opening quote sits at the cursor,
    /// resolving the `""` and `"/"` escapes, exactly as `scan_quoted` says.
    fn scan_quoted_value(&mut self) -> (r: Result<String, WSVError>)
        requires
            old(self).wf(),
            old(self).pos < old(self).source.len(),
            old(self).source@[old(self).pos as int] == '"',
        ensures
            final(self).wf(),
            final(self).source == old(self).source,
            final(self).lookahead_error == old(self).lookahead_error,
            ({
                let s = old(self).source@;
                let q = old(self).pos as int;
                match scan_quoted(s, q + 1, Seq::empty()) {
                    QuotedEnd::Closed { text, end } => {
                        &&& r is Ok
                        &&& r->Ok_0@ == text
                        &&& final(self).pos == end
                        &&& final(self).errored == old(self).errored
                    },
                    QuotedEnd::Failed { kind, at } => {
                        &&& r == Err::<String, WSVError>(
                            WSVError { err_type: kind, location: location_at(s, at) },
                        )
                        &&& final(self).pos == at
                        &&& final(self).errored
                    },
                }
            }),
    {
        let ghost s = self.source@;
        let ghost q = self.pos as int;
        self.advance();
        let mut acc = String::new();
        loop
            invariant
                self.wf(),
                self.source == old(self).source,
                s == self.source@,
                q == old(self).pos as int,
                self.lookahead_error == old(self).lookahead_error,
                self.errored == old(self).errored,
                0 <= q + 1 <= self.pos as int <= s.len(),
                scan_quoted(s, q + 1, Seq::empty()) == scan_quoted(s, self.pos as int, acc@),
            decreases s.len() - self.pos,
        {
            if self.pos >= self.source.len() {
                let e = WSVError {
                    err_type: WSVErrorType::StringNotClosed,
                    location: self.current_location,
                };
                self.errored = true;
                return Err(e);
            }
            let c = self.source[self.pos];
            if c == '"' {
                self.advance();
                if self.pos < self.source.len() && self.source[self.pos] == '"' {
                    self.advance();
                    push_char(&mut acc, '"');
                } else if self.pos < self.source.len() && self.source[self.pos] == '/' {
                    self.advance();
                    if self.pos < self.source.len() && self.source[self.pos] == '"' {
                        self.advance();
                        push_char(&mut acc, '\n');
                    } else {
                        let e = WSVError {
                            err_type: WSVErrorType::InvalidStringLineBreak,
                            location: self.current_location,
                        };
                        self.errored = true;
                        return Err(e);
                    }
                } else {
                    return Ok(acc);
                }
            } else if c == '\n' {
                let e = WSVError {
                    err_type: WSVErrorType::StringNotClosed,
                    location: self.current_location,
                };
                self.errored = true;
                return Err(e);
            } else {
                self.advance();
                push_char(&mut acc, c);
            }
        }
    }

    /// One pull of the scanner: exactly one `model_step`.
    pub(crate) fn next_token(&mut self) -> (r: Option<Result<OwnedWSVToken, WSVError>>)
        requires
            old(self).wf(),
        ensures
            final(self).wf(),
            final(self).model() == model_step(old(self).model()).0,
            pull_view(r) == model_step(old(self).model()).1,
    {
        let ghost s = self.source@;
        if self.errored {
            return None;
        }
        if let Some(e) = self.lookahead_error {
            self.lookahead_error = None;
            self.errored = true;
            return Some(Err(e));
        }
        let ghost pos0 = self.pos as int;
        self.skip_whitespace();
        let ghost p = self.pos as int;
        proof {
            crate::scan::lemma_ws_end(s, pos0);
        }
        if self.pos >= self.source.len() {
            return None;
        }
        let c = self.source[self.pos];
        if c == '"' {
            match self.scan_quoted_value() {
                Ok(text) => {
                    if self.pos < self.source.len() {
                        let la = self.source[self.pos];
                        if la != '\n' && la != '#' && !wsv_whitespace(la) {
                            self.lookahead_error = Some(
                                WSVError {
                                    err_type: WSVErrorType::InvalidCharacterAfterString,
                                    location: self.current_location,
                                },
                            );
                        }
                    }
                    Some(Ok(OwnedWSVToken::Value(text)))
                },
                Err(e) => Some(Err(e)),
            }
        } else if c == '#' {
            self.advance();
            let ghost start = self.pos as int;
            let mut text = String::new();
            while self.pos < self.source.len() && self.source[self.pos] != '\n'
                invariant
                    self.wf(),
                    self.source == old(self).source,
                    s == self.source@,
                    self.lookahead_error == old(self).lookahead_error,
                    self.errored == old(self).errored,
                    0 <= start <= self.pos as int <= s.len(),
                    text@ == s.subrange(start, self.pos as int),
                    forall|j: int| start <= j < self.pos as int ==> s[j] != '\n',
                decreases s.len() - self.pos,
            {
                push_char(&mut text, self.source[self.pos]);
                self.advance();
                proof {
                    assert(text@ =~= s.subrange(start, self.pos as int));
                }
            }
            proof {
                lemma_comment_end_exact(s, start, self.pos as int);
            }
            Some(Ok(OwnedWSVToken::Comment(text)))
        } else if c == '\n' {
            self.advance();
            Some(Ok(OwnedWSVToken::LF))
        } else {
            let ghost start = self.pos as int;
            let mut text = String::new();
            while self.pos < self.source.len() && bare_char(self.source[self.pos])
                invariant
                    self.wf(),
                    self.source == old(self).source,
                    s == self.source@,
                    self.lookahead_error == old(self).lookahead_error,
                    self.errored == old(self).errored,
                    0 <= start <= self.pos as int <= s.len(),
                    text@ == s.subrange(start, self.pos as int),
                    forall|j: int| start <= j < self.pos as int ==> is_bare_char(s[j]),
                decreases s.len() - self.pos,
            {
                push_char(&mut text, self.source[self.pos]);
                self.advance();
                proof {
                    assert(text@ =~= s.subrange(start, self.pos as int));
                }
            }
            proof {
                lemma_bare_end_exact(s, start, self.pos as int);
                assert(is_bare_char(s[start]));
                assert(text@.len() == self.pos as int - start);
            }
            if text.unicode_len() == 1 && text.as_str().get_char(0) == '-' {
                proof {
                    assert(s[start] == text@[0]);
                }
                Some(Ok(OwnedWSVToken::Null))
            } else {
                if self.pos < self.source.len() && self.source[self.pos] == '"' {
                    self.lookahead_error = Some(
                        WSVError {
                            err_type: WSVErrorType::InvalidDoubleQuoteAfterValue,
                            location: self.current_location,
                        },
                    );
                }
                proof {
                    if self.pos as int == start + 1 && s[start] == '-' {
                        assert(text@ =~= seq!['-']);
                        assert(false);
                    }
                }
                Some(Ok(OwnedWSVToken::Value(text)))
            }
        }
    }
}

} // verus!
