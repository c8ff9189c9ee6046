//! The eager whole-document parser: builds the full nested row structure,
//! stopping at the first error and discarding partial results.

use vstd::prelude::*;
use crate::error::WSVError;
use crate::scan::{
    lemma_parse_resume_step, parse_resume, parse_tokens, spec_parse,
};
use crate::scanner::{lemma_step_stream, model_step, stream_of};
use crate::token::{TokenModel, WSVToken};
use crate::tokenizer::WSVTokenizer;
use crate::views::{
    doc_view, lemma_doc_view_empty, lemma_doc_view_push, lemma_row_view_empty, lemma_row_view_push,
    row_view,
};

verus! {

/// The model of what the parser returned.
pub open spec fn parse_result_view(r: Result<Vec<Vec<Option<String>>>, WSVError>) -> Result<
    Seq<Seq<Option<Seq<char>>>>,
    WSVError,
> {
    match r {
        Ok(d) => Ok(doc_view(d@)),
        Err(e) => Err(e),
    }
}

/// Parses the contents of a .wsv (whitespace separated value) document. The
/// result is either a vector of rows, each a vector of optional cells where
/// the bare token `-` becomes `None`, or the first scan error. All escapes
/// are resolved: `"/"` inside a quoted value becomes a line feed, `""`
/// becomes one quote, and the wrapping quotes are removed. A line holding
/// nothing but a comment contributes no row; a trailing line feed produces
/// no trailing empty row.
pub fn parse(source_text: &str) -> (r: Result<Vec<Vec<Option<String>>>, WSVError>)
    ensures
        parse_result_view(r) == spec_parse(source_text@),
{
    parse_with_col_count(source_text, 0)
}

/// Same as `parse` (see the documentation there for behavior details), but
/// accepts an expected column count so rows can be allocated at their final
/// size up front.
pub fn parse_with_col_count(source_text: &str, col_count: usize) -> (r: Result<
    Vec<Vec<Option<String>>>,
    WSVError,
>)
    ensures
        parse_result_view(r) == spec_parse(source_text@),
{
    let ghost src = source_text@;
    let mut tokenizer = WSVTokenizer::new(source_text);
    let mut doc: Vec<Vec<Option<String>>> = Vec::new();
    let mut row: Vec<Option<String>> = Vec::with_capacity(col_count);
    let mut saw_comment = false;
    proof {
        lemma_doc_view_empty();
        lemma_row_view_empty();
    }
    loop
        invariant
            src == source_text@,
            tokenizer.wf(),
            tokenizer.model().src == src,
            0 <= tokenizer.model().pos <= src.len(),
            parse_resume(
                stream_of(tokenizer.model()),
                doc_view(doc@),
                row_view(row@),
                saw_comment,
            ) == spec_parse(src),
        decreases src.len() - tokenizer.model().pos,
    {
        let ghost m = tokenizer.model();
        proof {
            tokenizer.lemma_wf_bounds();
            lemma_step_stream(m);
        }
        match tokenizer.next() {
            None => {
                proof {
                    let empty_stream = Seq::<Result<TokenModel, WSVError>>::empty();
                    assert(stream_of(m) == empty_stream);
                    assert(empty_stream.map_values(
                        |x: Result<TokenModel, WSVError>| x->Ok_0,
                    ).len() == 0);
                    assert(spec_parse(src) == Ok::<Seq<Seq<Option<Seq<char>>>>, WSVError>(
                        parse_tokens(
                            empty_stream.map_values(|x: Result<TokenModel, WSVError>| x->Ok_0),
                            doc_view(doc@),
                            row_view(row@),
                            saw_comment,
                        ),
                    ));
                    assert(row_view(row@).len() == row@.len());
                }
                if row.len() > 0 {
                    proof {
                        lemma_doc_view_push(doc@, row);
                    }
                    doc.push(row);
                }
                return Ok(doc);
            },
            Some(Err(e)) => {
                proof {
                    let m2 = model_step(m).0;
                    assert(stream_of(m2) == Seq::<Result<TokenModel, WSVError>>::empty());
                    assert(stream_of(m) =~= seq![Err::<TokenModel, WSVError>(e)]);
                    assert(stream_of(m).last() == Err::<TokenModel, WSVError>(e));
                }
                return Err(e);
            },
            Some(Ok(token)) => {
                proof {
                    crate::scan::lemma_scan_range(m.src, m.pos);
                    let x = model_step(m).1->0;
                    lemma_parse_resume_step(
                        x->Ok_0,
                        stream_of(model_step(m).0),
                        doc_view(doc@),
                        row_view(row@),
                        saw_comment,
                    );
                }
                match token {
                    WSVToken::LF => {
                        if row.len() == 0 && saw_comment {
                            // a comment-only line contributes no row
                        } else {
                            proof {
                                lemma_doc_view_push(doc@, row);
                            }
                            doc.push(row);
                        }
                        row = Vec::with_capacity(col_count);
                        saw_comment = false;
                        proof {
                            lemma_row_view_empty();
                        }
                    },
                    WSVToken::Null => {
                        proof {
                            lemma_row_view_push(row@, None);
                        }
                        row.push(None);
                    },
                    WSVToken::Value(val) => {
                        proof {
                            lemma_row_view_push(row@, Some(val));
                        }
                        row.push(Some(val));
                    },
                    WSVToken::Comment(_) => {
                        saw_comment = true;
                    },
                }
            },
        }
    }
}

} // verus!
