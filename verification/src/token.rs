//! Token types produced by the scanners, and the mathematical model that the
//! contracts speak of.

use vstd::prelude::*;
use crate::error::WSVError;

verus! {

/// The mathematical model of a token: what the contracts and the grammar
/// specification are stated over.
pub ghost enum TokenModel {
    /// A line feed, separating two rows.
    Lf,
    /// The null cell, written as the bare token `-`.
    Null,
    /// A (non-null) cell value, with all escapes resolved.
    Value(Seq<char>),
    /// A comment: the text after `#`, up to but excluding the line feed.
    Comment(Seq<char>),
}

/// A collection of all token types in a WSV file.
#[derive(Debug, Clone)]
pub enum WSVToken {
    /// Represents a line feed character (ex. '\n')
    LF,
    /// Represents a null value in the input (ex. '-')
    Null,
    /// Represents a non-null value in the input (ex. 'value')
    Value(String),
    /// Represents a comment (ex. '# comment')
    Comment(String),
}

/// A collection of all token types in a WSV file, with owned text.
pub enum OwnedWSVToken {
    /// Represents a line feed character (ex. '\n')
    LF,
    /// Represents a null value in the input (ex. '-')
    Null,
    /// Represents a non-null value in the input (ex. 'value')
    Value(String),
    /// Represents a comment (ex. '# comment')
    Comment(String),
}

impl View for WSVToken {
    type V = TokenModel;

    open spec fn view(&self) -> TokenModel {
        match self {
            WSVToken::LF => TokenModel::Lf,
            WSVToken::Null => TokenModel::Null,
            WSVToken::Value(s) => TokenModel::Value(s@),
            WSVToken::Comment(s) => TokenModel::Comment(s@),
        }
    }
}

impl View for OwnedWSVToken {
    type V = TokenModel;

    open spec fn view(&self) -> TokenModel {
        match self {
            OwnedWSVToken::LF => TokenModel::Lf,
            OwnedWSVToken::Null => TokenModel::Null,
            OwnedWSVToken::Value(s) => TokenModel::Value(s@),
            OwnedWSVToken::Comment(s) => TokenModel::Comment(s@),
        }
    }
}

/// Two scan results are equivalent when they carry the same token (same
/// variant, same text), or errors of the same kind; locations are not
/// compared.
pub open spec fn results_equivalent(
    a: Result<TokenModel, WSVError>,
    b: Result<TokenModel, WSVError>,
) -> bool {
    match (a, b) {
        (Ok(x), Ok(y)) => x == y,
        (Err(e1), Err(e2)) => e1.err_type == e2.err_type,
        _ => false,
    }
}

/// Whether two scan results describe the same outcome: equal tokens, or
/// errors of the same kind (their locations are not compared).
pub fn are_equal(first: Result<WSVToken, WSVError>, second: Result<WSVToken, WSVError>) -> (r:
    bool)
    ensures
        r == results_equivalent(result_view(first), result_view(second)),
{
    match first {
        Ok(WSVToken::LF) => {
            if let Ok(WSVToken::LF) = second {
                true
            } else {
                false
            }
        },
        Ok(WSVToken::Null) => {
            if let Ok(WSVToken::Null) = second {
                true
            } else {
                false
            }
        },
        Ok(WSVToken::Comment(str1)) => {
            if let Ok(WSVToken::Comment(str2)) = second {
                str1 == str2
            } else {
                false
            }
        },
        Ok(WSVToken::Value(value1)) => {
            if let Ok(WSVToken::Value(value2)) = second {
                value1 == value2
            } else {
                false
            }
        },
        Err(err1) => {
            if let Err(err2) = second {
                err1.err_type() == err2.err_type()
            } else {
                false
            }
        },
    }
}

/// `are_equal`, over owned tokens.
pub fn owned_are_equal(
    first: Result<OwnedWSVToken, WSVError>,
    second: Result<OwnedWSVToken, WSVError>,
) -> (r: bool)
    ensures
        r == results_equivalent(owned_result_view(first), owned_result_view(second)),
{
    match first {
        Ok(OwnedWSVToken::LF) => {
            if let Ok(OwnedWSVToken::LF) = second {
                true
            } else {
                false
            }
        },
        Ok(OwnedWSVToken::Null) => {
            if let Ok(OwnedWSVToken::Null) = second {
                true
            } else {
                false
            }
        },
        Ok(OwnedWSVToken::Comment(str1)) => {
            if let Ok(OwnedWSVToken::Comment(str2)) = second {
                str1 == str2
            } else {
                false
            }
        },
        Ok(OwnedWSVToken::Value(value1)) => {
            if let Ok(OwnedWSVToken::Value(value2)) = second {
                value1 == value2
            } else {
                false
            }
        },
        Err(err1) => {
            if let Err(err2) = second {
                err1.err_type() == err2.err_type()
            } else {
                false
            }
        },
    }
}

/// The model of a borrowed-token scan result.
pub open spec fn result_view(r: Result<WSVToken, WSVError>) -> Result<TokenModel, WSVError> {
    match r {
        Ok(t) => Ok(t@),
        Err(e) => Err(e),
    }
}

/// The model of an owned-token scan result.
pub open spec fn owned_result_view(r: Result<OwnedWSVToken, WSVError>) -> Result<
    TokenModel,
    WSVError,
> {
    match r {
        Ok(t) => Ok(t@),
        Err(e) => Err(e),
    }
}

} // verus!
