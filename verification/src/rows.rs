//! The streaming row reader: a lazy sequence of rows over an unbounded
//! character source, delivering a partial row before the error that
//! interrupted it.

use vstd::prelude::*;
use crate::error::WSVError;
use crate::scan::{lemma_rows_of_step, rows_of, spec_rows};
use crate::scanner::{lemma_step_stream, model_step, stream_of};
use crate::token::{OwnedWSVToken, TokenModel};
use crate::tokenizer::WSVLazyTokenizer;
use crate::views::{lemma_row_view_empty, lemma_row_view_push, row_view};

verus! {

/// The model of one yield of the row reader.
pub open spec fn row_result_view(r: Result<Vec<Option<String>>, WSVError>) -> Result<
    Seq<Option<Seq<char>>>,
    WSVError,
> {
    match r {
        Ok(v) => Ok(row_view(v@)),
        Err(e) => Err(e),
    }
}

/// An iterator over the rows of a WSV document, for lazy parsing of
/// documents that do not fit into memory. Pull rows one at a time with
/// `next`; after the first error, nothing more is yielded.
pub struct WSVLineIterator {
    tokenizer: WSVLazyTokenizer,
    lookahead_error: Option<WSVError>,
    errored: bool,
    finished: bool,
}

impl WSVLineIterator {
    pub closed spec fn wf(&self) -> bool {
        self.tokenizer.wf()
    }

    /// Everything this reader will still yield: rows in order, then at most
    /// one error, exactly as `spec_rows` describes for the source.
    pub closed spec fn remaining(&self) -> Seq<Result<Seq<Option<Seq<char>>>, WSVError>> {
        if self.finished {
            Seq::empty()
        } else if self.lookahead_error is Some {
            seq![Err(self.lookahead_error->0)]
        } else if self.errored {
            Seq::empty()
        } else {
            rows_of(stream_of(self.tokenizer.model()), Seq::empty())
        }
    }

    fn new(source_text: Vec<char>) -> (r: Self)
        ensures
            r.wf(),
            r.remaining() == spec_rows(source_text@),
    {
        WSVLineIterator {
            tokenizer: WSVLazyTokenizer::new(source_text),
            lookahead_error: None,
            errored: false,
            finished: false,
        }
    }

    /// One pull: the next complete row, the error that ended the scan, or
    /// `None` once nothing remains. Pops exactly the head of `remaining`.
    pub fn next(&mut self) -> (r: Option<Result<Vec<Option<String>>, WSVError>>)
        requires
            old(self).wf(),
        ensures
            final(self).wf(),
            match r {
                None => old(self).remaining() == Seq::<
                    Result<Seq<Option<Seq<char>>>, WSVError>,
                >::empty() && final(self).remaining() == Seq::<
                    Result<Seq<Option<Seq<char>>>, WSVError>,
                >::empty(),
                Some(x) => old(self).remaining().len() > 0 && row_result_view(x)
                    == old(self).remaining()[0] && final(self).remaining()
                    == old(self).remaining().drop_first(),
            },
    {
        if self.finished {
            return None;
        }
        if let Some(err) = self.lookahead_error {
            self.lookahead_error = None;
            self.errored = true;
            proof {
                assert(old(self).remaining().drop_first() =~= Seq::<
                    Result<Seq<Option<Seq<char>>>, WSVError>,
                >::empty());
            }
            return Some(Err(err));
        }
        if self.errored {
            return None;
        }
        let ghost src = self.tokenizer.model().src;
        let mut line: Vec<Option<String>> = Vec::new();
        proof {
            self.tokenizer.lemma_wf_bounds();
            lemma_row_view_empty();
        }
        loop
            invariant
                self.tokenizer.wf(),
                self.tokenizer.model().src == src,
                0 <= self.tokenizer.model().pos <= src.len(),
                !self.errored,
                !self.finished,
                self.lookahead_error is None,
                old(self).remaining() == rows_of(
                    stream_of(self.tokenizer.model()),
                    row_view(line@),
                ),
            decreases src.len() - self.tokenizer.model().pos,
        {
            let ghost m = self.tokenizer.model();
            proof {
                self.tokenizer.lemma_wf_bounds();
                lemma_step_stream(m);
            }
            let token = self.tokenizer.next();
            proof {
                if model_step(m).1 is Some {
                    lemma_rows_of_step(
                        model_step(m).1->0,
                        stream_of(model_step(m).0),
                        row_view(line@),
                    );
                }
            }
            match token {
                None => {
                    if line.len() == 0 {
                        proof {
                            assert(row_view(line@).len() == 0);
                        }
                        return None;
                    } else {
                        proof {
                            assert(row_view(line@).len() > 0);
                            assert(self.remaining() =~= old(self).remaining().drop_first());
                        }
                        return Some(Ok(line));
                    }
                },
                Some(token) => match token {
                    Err(err) => {
                        self.errored = true;
                        proof {
                            assert(stream_of(self.tokenizer.model()) =~= Seq::<
                                Result<TokenModel, WSVError>,
                            >::empty());
                        }
                        if line.len() == 0 {
                            proof {
                                assert(self.remaining() =~= old(self).remaining().drop_first());
                            }
                            return Some(Err(err));
                        } else {
                            self.lookahead_error = Some(err);
                            proof {
                                assert(self.remaining() =~= old(self).remaining().drop_first());
                            }
                            return Some(Ok(line));
                        }
                    },
                    Ok(token) => match token {
                        OwnedWSVToken::Comment(_) => {},
                        OwnedWSVToken::LF => {
                            proof {
                                assert(self.remaining() =~= old(self).remaining().drop_first());
                            }
                            return Some(Ok(line));
                        },
                        OwnedWSVToken::Null => {
                            proof {
                                lemma_row_view_push(line@, None);
                            }
                            line.push(None);
                        },
                        OwnedWSVToken::Value(val) => {
                            proof {
                                lemma_row_view_push(line@, Some(val));
                            }
                            line.push(Some(val));
                        },
                    },
                },
            }
            proof {
                crate::scan::lemma_scan_range(m.src, m.pos);
            }
        }
    }
}

/// Same as `parse` (see the documentation there for behavior details), but
/// parses lazily, one row per pull, so that a very large document can be
/// processed without materializing its rows. Unlike the eager parser, a
/// line holding only a comment yields an (empty) row, and a completed row
/// is still delivered before the error that follows it.
pub fn parse_lazy(source_text: Vec<char>) -> (r: WSVLineIterator)
    ensures
        r.wf(),
        r.remaining() == spec_rows(source_text@),
{
    WSVLineIterator::new(source_text)
}

} // verus!
