//! The two public tokenizers: one built from a borrowed string slice, one
//! from a materialized character sequence. Both run the same verified
//! scanner state machine; each pull is one `model_step`.

use vstd::prelude::*;
use crate::error::WSVError;
use crate::scanner::{initial_model, model_step, pull_view, Scanner, ScannerModel};
use crate::strutil::str_chars;
use crate::token::{OwnedWSVToken, TokenModel, WSVToken};

verus! {

/// The model of what one pull of `WSVTokenizer` returned.
pub open spec fn token_pull_view(r: Option<Result<WSVToken, WSVError>>) -> Option<
    Result<TokenModel, WSVError>,
> {
    match r {
        None => None,
        Some(Ok(t)) => Some(Ok(t@)),
        Some(Err(e)) => Some(Err(e)),
    }
}

/// A tokenizer for the .wsv (whitespace separated value) file format, built
/// from source text. Pull tokens one at a time with `next`.
pub struct WSVTokenizer {
    scanner: Scanner,
}

impl WSVTokenizer {
    /// The abstract scanner state.
    pub closed spec fn model(&self) -> ScannerModel {
        self.scanner.model()
    }

    pub closed spec fn wf(&self) -> bool {
        self.scanner.wf()
    }

    /// A well-formed tokenizer's cursor is inside its input.
    pub proof fn lemma_wf_bounds(&self)
        requires
            self.wf(),
        ensures
            0 <= self.model().pos <= self.model().src.len(),
    {
        self.scanner.lemma_wf_bounds();
    }

    /// Creates a .wsv tokenizer from .wsv source text.
    pub fn new(source_text: &str) -> (r: Self)
        ensures
            r.wf(),
            r.model() == initial_model(source_text@),
    {
        WSVTokenizer { scanner: Scanner::new(str_chars(source_text)) }
    }

    /// One pull: the next token, the next (possibly deferred) error, or
    /// `None` at the end of the input. Exactly one `model_step`.
    pub fn next(&mut self) -> (r: Option<Result<WSVToken, WSVError>>)
        requires
            old(self).wf(),
        ensures
            final(self).wf(),
            final(self).model() == model_step(old(self).model()).0,
            token_pull_view(r) == model_step(old(self).model()).1,
    {
        match self.scanner.next_token() {
            None => None,
            Some(Ok(t)) => Some(
                Ok(
                    match t {
                        OwnedWSVToken::LF => WSVToken::LF,
                        OwnedWSVToken::Null => WSVToken::Null,
                        OwnedWSVToken::Value(s) => WSVToken::Value(s),
                        OwnedWSVToken::Comment(s) => WSVToken::Comment(s),
                    },
                ),
            ),
            Some(Err(e)) => Some(Err(e)),
        }
    }

    /// Executable test for membership in the WSV whitespace set.
    pub fn is_whitespace(ch: char) -> (r: bool)
        ensures
            r == crate::chars::is_wsv_whitespace(ch),
    {
        crate::chars::wsv_whitespace(ch)
    }
}

/// A lazy tokenizer for the .wsv (whitespace separated value) file format,
/// built from an owned character sequence; its tokens own their text. Pull
/// tokens one at a time with `next`.
pub struct WSVLazyTokenizer {
    scanner: Scanner,
}

impl WSVLazyTokenizer {
    /// The abstract scanner state.
    pub closed spec fn model(&self) -> ScannerModel {
        self.scanner.model()
    }

    pub closed spec fn wf(&self) -> bool {
        self.scanner.wf()
    }

    /// A well-formed tokenizer's cursor is inside its input.
    pub proof fn lemma_wf_bounds(&self)
        requires
            self.wf(),
        ensures
            0 <= self.model().pos <= self.model().src.len(),
    {
        self.scanner.lemma_wf_bounds();
    }

    /// Creates a .wsv tokenizer from a sequence of source characters.
    pub fn new(source_text: Vec<char>) -> (r: Self)
        ensures
            r.wf(),
            r.model() == initial_model(source_text@),
    {
        WSVLazyTokenizer { scanner: Scanner::new(source_text) }
    }

    /// One pull: the next token, the next (possibly deferred) error, or
    /// `None` at the end of the input. Exactly one `model_step`.
    pub fn next(&mut self) -> (r: Option<Result<OwnedWSVToken, WSVError>>)
        requires
            old(self).wf(),
        ensures
            final(self).wf(),
            final(self).model() == model_step(old(self).model()).0,
            pull_view(r) == model_step(old(self).model()).1,
    {
        self.scanner.next_token()
    }

    /// Executable test for membership in the WSV whitespace set.
    pub fn is_whitespace(ch: char) -> (r: bool)
        ensures
            r == crate::chars::is_wsv_whitespace(ch),
    {
        crate::chars::wsv_whitespace(ch)
    }
}

} // verus!
