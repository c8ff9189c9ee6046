//! Character classes of the WSV grammar: the fixed whitespace set, and the
//! characters that may appear in a bare (unquoted) value.

use vstd::prelude::*;

verus! {

/// The WSV whitespace set: a fixed set of Unicode code points. The line feed
/// (U+000A) is deliberately absent: it separates rows and is its own token.
pub open spec fn is_wsv_whitespace(c: char) -> bool {
    ||| c == '\u{0009}'
    ||| c == '\u{000B}'
    ||| c == '\u{000C}'
    ||| c == '\u{000D}'
    ||| c == '\u{0020}'
    ||| c == '\u{0085}'
    ||| c == '\u{00A0}'
    ||| c == '\u{1680}'
    ||| c == '\u{2000}'
    ||| c == '\u{2001}'
    ||| c == '\u{2002}'
    ||| c == '\u{2003}'
    ||| c == '\u{2004}'
    ||| c == '\u{2005}'
    ||| c == '\u{2006}'
    ||| c == '\u{2007}'
    ||| c == '\u{2008}'
    ||| c == '\u{2009}'
    ||| c == '\u{200A}'
    ||| c == '\u{2028}'
    ||| c == '\u{2029}'
    ||| c == '\u{202F}'
    ||| c == '\u{205F}'
    ||| c == '\u{3000}'
}

/// A character that may stand inside a bare (unquoted) value: anything but
/// the line feed, the quote, the comment mark and whitespace.
pub open spec fn is_bare_char(c: char) -> bool {
    c != '\n' && c != '"' && c != '#' && !is_wsv_whitespace(c)
}

/// Executable test for membership in the WSV whitespace set.
pub fn wsv_whitespace(c: char) -> (r: bool)
    ensures
        r == is_wsv_whitespace(c),
{
    match c {
        '\u{0009}' | '\u{000B}' | '\u{000C}' | '\u{000D}' | '\u{0020}' | '\u{0085}'
        | '\u{00A0}' | '\u{1680}' | '\u{2000}' | '\u{2001}' | '\u{2002}' | '\u{2003}'
        | '\u{2004}' | '\u{2005}' | '\u{2006}' | '\u{2007}' | '\u{2008}' | '\u{2009}'
        | '\u{200A}' | '\u{2028}' | '\u{2029}' | '\u{202F}' | '\u{205F}' | '\u{3000}' => true,
        _ => false,
    }
}

/// Executable test for a bare-value character.
pub fn bare_char(c: char) -> (r: bool)
    ensures
        r == is_bare_char(c),
{
    c != '\n' && c != '"' && c != '#' && !wsv_whitespace(c)
}

} // verus!
