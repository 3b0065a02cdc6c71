//! The token classifier and its sub-scanners.
//!
//! The grammar is stated twice: once as spec functions over `Seq<u8>` (the
//! mathematical model of each scanning rule) and once as executable functions
//! proved equal to the model.  The classifier applies the longest-match
//! policy, with literal keywords taking priority over the identifier pattern
//! at equal length.

use vstd::prelude::*;

use crate::token::{Span, Token, TokenKind};
use crate::lexer::LexerError;

verus! {

// ===========================================================================
// Byte constants (ASCII codes) and byte classes
// ===========================================================================

pub const QUOTE: u8 = 34;  // '"'
pub const HASH: u8 = 35;  // '#'
pub const DOLLAR: u8 = 36;  // '$'
pub const AT_SIGN: u8 = 64;  // '@'
pub const BACKSLASH: u8 = 92;  // '\'
pub const SLASH: u8 = 47;  // '/'
pub const STAR: u8 = 42;  // '*'
pub const UNDERSCORE: u8 = 95;  // '_'
pub const DOT: u8 = 46;  // '.'
pub const PLUS: u8 = 43;  // '+'
pub const MINUS: u8 = 45;  // '-'
pub const GREATER: u8 = 62;  // '>'
pub const CR: u8 = 13;
pub const LF: u8 = 10;

/// Whitespace skipped before each match attempt: space, tab, CR, LF, form feed.
pub open spec fn is_ws(b: u8) -> bool {
    b == 0x20 || b == 0x09 || b == CR || b == LF || b == 0x0c
}

/// A decimal digit: '0' to '9'.
pub open spec fn is_digit(b: u8) -> bool {
    48 <= b && b <= 57
}

/// A digit of the given radix (2, 8, 10 or 16); '0'-'1', '0'-'7', or
/// '0'-'9' plus 'a'-'f' and 'A'-'F'.
pub open spec fn is_radix_digit(b: u8, radix: u8) -> bool {
    if radix == 2 {
        b == 48 || b == 49
    } else if radix == 8 {
        48 <= b && b <= 55
    } else if radix == 16 {
        is_digit(b) || (97 <= b && b <= 102) || (65 <= b && b <= 70)
    } else {
        is_digit(b)
    }
}

/// An identifier start byte in the ASCII identifier grammar: a letter or '_'.
pub open spec fn is_ident_start(b: u8) -> bool {
    (97 <= b && b <= 122) || (65 <= b && b <= 90) || b == UNDERSCORE
}

/// An identifier continuation byte: a letter, a digit or '_'.
pub open spec fn is_ident_cont(b: u8) -> bool {
    is_ident_start(b) || is_digit(b)
}

// ===========================================================================
// Maximal runs
// ===========================================================================

/// End of the maximal run of whitespace starting at `i`.
pub open spec fn ws_end(s: Seq<u8>, i: int) -> int
    decreases s.len() - i,
{
    if 0 <= i < s.len() && is_ws(s[i]) {
        ws_end(s, i + 1)
    } else {
        i
    }
}

/// End of the maximal run of identifier continuation bytes starting at `i`.
pub open spec fn ident_end(s: Seq<u8>, i: int) -> int
    decreases s.len() - i,
{
    if 0 <= i < s.len() && is_ident_cont(s[i]) {
        ident_end(s, i + 1)
    } else {
        i
    }
}

/// End of the maximal run of digits of the given radix starting at `i`.
pub open spec fn digits_end(s: Seq<u8>, i: int, radix: u8) -> int
    decreases s.len() - i,
{
    if 0 <= i < s.len() && is_radix_digit(s[i], radix) {
        digits_end(s, i + 1, radix)
    } else {
        i
    }
}

/// End of the maximal run of underscores starting at `i`.
pub open spec fn unders_end(s: Seq<u8>, i: int) -> int
    decreases s.len() - i,
{
    if 0 <= i < s.len() && s[i] == UNDERSCORE {
        unders_end(s, i + 1)
    } else {
        i
    }
}

/// End of a digit run: one-or-more digits of the radix, with one-or-more
/// underscores allowed between digit groups.  A trailing underscore run that
/// is not followed by a digit is left unconsumed.
pub open spec fn run_end(s: Seq<u8>, i: int, radix: u8) -> int
    decreases s.len() - i,
{
    let j = digits_end(s, i, radix);
    let k = unders_end(s, j);
    if i <= j < k < s.len() && is_radix_digit(s[k], radix) {
        run_end(s, k, radix)
    } else {
        j
    }
}

// ===========================================================================
// Bounds lemmas
// ===========================================================================

pub proof fn lemma_ws_end_bounds(s: Seq<u8>, i: int)
    requires
        0 <= i <= s.len(),
    ensures
        i <= ws_end(s, i) <= s.len(),
    decreases s.len() - i,
{
    if i < s.len() && is_ws(s[i]) {
        lemma_ws_end_bounds(s, i + 1);
    }
}

pub proof fn lemma_ident_end_bounds(s: Seq<u8>, i: int)
    requires
        0 <= i <= s.len(),
    ensures
        i <= ident_end(s, i) <= s.len(),
    decreases s.len() - i,
{
    if i < s.len() && is_ident_cont(s[i]) {
        lemma_ident_end_bounds(s, i + 1);
    }
}

pub proof fn lemma_digits_end_bounds(s: Seq<u8>, i: int, radix: u8)
    requires
        0 <= i <= s.len(),
    ensures
        i <= digits_end(s, i, radix) <= s.len(),
    decreases s.len() - i,
{
    if i < s.len() && is_radix_digit(s[i], radix) {
        lemma_digits_end_bounds(s, i + 1, radix);
    }
}

pub proof fn lemma_unders_end_bounds(s: Seq<u8>, i: int)
    requires
        0 <= i <= s.len(),
    ensures
        i <= unders_end(s, i) <= s.len(),
    decreases s.len() - i,
{
    if i < s.len() && s[i] == UNDERSCORE {
        lemma_unders_end_bounds(s, i + 1);
    }
}

pub proof fn lemma_run_end_bounds(s: Seq<u8>, i: int, radix: u8)
    requires
        0 <= i <= s.len(),
    ensures
        i <= run_end(s, i, radix) <= s.len(),
    decreases s.len() - i,
{
    lemma_digits_end_bounds(s, i, radix);
    let j = digits_end(s, i, radix);
    lemma_unders_end_bounds(s, j);
    let k = unders_end(s, j);
    if j < k < s.len() && is_radix_digit(s[k], radix) {
        lemma_run_end_bounds(s, k, radix);
    }
}

// ===========================================================================
// Executable twins of the runs
// ===========================================================================

/// Executable whitespace test.
pub fn ws_byte(b: u8) -> (r: bool)
    ensures
        r == is_ws(b),
{
    b == 0x20 || b == 0x09 || b == 0x0d || b == 0x0a || b == 0x0c
}

/// Executable radix digit test.
pub fn radix_digit_byte(b: u8, radix: u8) -> (r: bool)
    ensures
        r == is_radix_digit(b, radix),
{
    if radix == 2 {
        b == 48 || b == 49
    } else if radix == 8 {
        48 <= b && b <= 55
    } else if radix == 16 {
        (48 <= b && b <= 57) || (97 <= b && b <= 102) || (65 <= b && b <= 70)
    } else {
        48 <= b && b <= 57
    }
}

/// Executable identifier start test.
pub fn ident_start_byte(b: u8) -> (r: bool)
    ensures
        r == is_ident_start(b),
{
    (97 <= b && b <= 122) || (65 <= b && b <= 90) || b == UNDERSCORE
}

/// Executable identifier continuation test.
pub fn ident_cont_byte(b: u8) -> (r: bool)
    ensures
        r == is_ident_cont(b),
{
    ident_start_byte(b) || (48 <= b && b <= 57)
}

/// Skips the maximal whitespace run starting at `pos`.
pub fn skip_ws(src: &Vec<u8>, pos: usize) -> (r: usize)
    requires
        pos <= src.len(),
    ensures
        r as int == ws_end(src@, pos as int),
        pos <= r <= src.len(),
{
    let mut i: usize = pos;
    while i < src.len() && ws_byte(src[i])
        invariant
            pos <= i <= src.len(),
            ws_end(src@, pos as int) == ws_end(src@, i as int),
        decreases src.len() - i,
    {
        i = i + 1;
    }
    proof {
        lemma_ws_end_bounds(src@, i as int);
    }
    i
}

/// Finds the end of the maximal identifier continuation run starting at `pos`.
pub fn scan_ident_end(src: &Vec<u8>, pos: usize) -> (r: usize)
    requires
        pos <= src.len(),
    ensures
        r as int == ident_end(src@, pos as int),
        pos <= r <= src.len(),
{
    let mut i: usize = pos;
    while i < src.len() && ident_cont_byte(src[i])
        invariant
            pos <= i <= src.len(),
            ident_end(src@, pos as int) == ident_end(src@, i as int),
        decreases src.len() - i,
    {
        i = i + 1;
    }
    i
}

/// Finds the end of the maximal radix digit run starting at `pos`.
pub fn scan_digits_end(src: &Vec<u8>, pos: usize, radix: u8) -> (r: usize)
    requires
        pos <= src.len(),
    ensures
        r as int == digits_end(src@, pos as int, radix),
        pos <= r <= src.len(),
{
    let mut i: usize = pos;
    while i < src.len() && radix_digit_byte(src[i], radix)
        invariant
            pos <= i <= src.len(),
            digits_end(src@, pos as int, radix) == digits_end(src@, i as int, radix),
        decreases src.len() - i,
    {
        i = i + 1;
    }
    i
}

/// Finds the end of the maximal underscore run starting at `pos`.
pub fn scan_unders_end(src: &Vec<u8>, pos: usize) -> (r: usize)
    requires
        pos <= src.len(),
    ensures
        r as int == unders_end(src@, pos as int),
        pos <= r <= src.len(),
{
    let mut i: usize = pos;
    while i < src.len() && src[i] == UNDERSCORE
        invariant
            pos <= i <= src.len(),
            unders_end(src@, pos as int) == unders_end(src@, i as int),
        decreases src.len() - i,
    {
        i = i + 1;
    }
    i
}

/// Finds the end of a digit run of the given radix starting at `pos`.
pub fn scan_run_end(src: &Vec<u8>, pos: usize, radix: u8) -> (r: usize)
    requires
        pos <= src.len(),
    ensures
        r as int == run_end(src@, pos as int, radix),
        pos <= r <= src.len(),
{
    let mut i: usize = pos;
    loop
        invariant
            pos <= i <= src.len(),
            run_end(src@, pos as int, radix) == run_end(src@, i as int, radix),
        decreases src.len() - i,
    {
        let j = scan_digits_end(src, i, radix);
        let k = scan_unders_end(src, j);
        if j < k && k < src.len() && radix_digit_byte(src[k], radix) {
            i = k;
        } else {
            proof {
                lemma_run_end_bounds(src@, i as int, radix);
            }
            return j;
        }
    }
}

// ===========================================================================
// Keywords
// ===========================================================================

/// The reserved word spelled by `s`, if any.  Each comparison is against the
/// ASCII codes of one keyword, noted alongside.
pub open spec fn kw_kind(s: Seq<u8>) -> Option<TokenKind> {
    if s.len() == 2 {
        if s[0] == 105 && s[1] == 102 {
            Some(TokenKind::If)  // "if"
        } else if s[0] == 100 && s[1] == 111 {
            Some(TokenKind::Do)  // "do"
        } else if s[0] == 97 && s[1] == 115 {
            Some(TokenKind::As)  // "as"
        } else if s[0] == 102 && s[1] == 110 {
            Some(TokenKind::Fn)  // "fn"
        } else {
            None
        }
    } else if s.len() == 3 {
        if s[0] == 112 && s[1] == 117 && s[2] == 98 {
            Some(TokenKind::Pub)  // "pub"
        } else if s[0] == 102 && s[1] == 111 && s[2] == 114 {
            Some(TokenKind::For)  // "for"
        } else if s[0] == 109 && s[1] == 111 && s[2] == 100 {
            Some(TokenKind::Mod)  // "mod"
        } else if s[0] == 117 && s[1] == 115 && s[2] == 101 {
            Some(TokenKind::Use)  // "use"
        } else if s[0] == 108 && s[1] == 101 && s[2] == 116 {
            Some(TokenKind::Let)  // "let"
        } else {
            None
        }
    } else if s.len() == 4 {
        if s[0] == 109 && s[1] == 111 && s[2] == 118 && s[3] == 101 {
            Some(TokenKind::Move)  // "move"
        } else if s[0] == 101 && s[1] == 108 && s[2] == 115 && s[3] == 101 {
            Some(TokenKind::Else)  // "else"
        } else if s[0] == 99 && s[1] == 97 && s[2] == 115 && s[3] == 101 {
            Some(TokenKind::Case)  // "case"
        } else if s[0] == 101 && s[1] == 110 && s[2] == 117 && s[3] == 109 {
            Some(TokenKind::Enum)  // "enum"
        } else if s[0] == 116 && s[1] == 121 && s[2] == 112 && s[3] == 101 {
            Some(TokenKind::Type)  // "type"
        } else if s[0] == 105 && s[1] == 109 && s[2] == 112 && s[3] == 108 {
            Some(TokenKind::Impl)  // "impl"
        } else if s[0] == 118 && s[1] == 111 && s[2] == 105 && s[3] == 100 {
            Some(TokenKind::Void)  // "void"
        } else {
            None
        }
    } else if s.len() == 5 {
        if s[0] == 99 && s[1] == 111 && s[2] == 110 && s[3] == 115 && s[4] == 116 {
            Some(TokenKind::Const)  // "const"
        } else if s[0] == 119 && s[1] == 104 && s[2] == 105 && s[3] == 108 && s[4] == 101 {
            Some(TokenKind::While)  // "while"
        } else if s[0] == 98 && s[1] == 114 && s[2] == 101 && s[3] == 97 && s[4] == 107 {
            Some(TokenKind::Break)  // "break"
        } else if s[0] == 109 && s[1] == 97 && s[2] == 116 && s[3] == 99 && s[4] == 104 {
            Some(TokenKind::Match)  // "match"
        } else if s[0] == 119 && s[1] == 104 && s[2] == 101 && s[3] == 114 && s[4] == 101 {
            Some(TokenKind::Where)  // "where"
        } else if s[0] == 117 && s[1] == 110 && s[2] == 105 && s[3] == 111 && s[4] == 110 {
            Some(TokenKind::Union)  // "union"
        } else if s[0] == 116 && s[1] == 114 && s[2] == 97 && s[3] == 105 && s[4] == 116 {
            Some(TokenKind::Trait)  // "trait"
        } else if s[0] == 110 && s[1] == 101 && s[2] == 118 && s[3] == 101 && s[4] == 114 {
            Some(TokenKind::Never)  // "never"
        } else if s[0] == 117 && s[1] == 115 && s[2] == 105 && s[3] == 122 && s[4] == 101 {
            Some(TokenKind::UsizeType)  // "usize"
        } else if s[0] == 105 && s[1] == 115 && s[2] == 105 && s[3] == 122 && s[4] == 101 {
            Some(TokenKind::IsizeType)  // "isize"
        } else {
            None
        }
    } else if s.len() == 6 {
        if s[0] == 115 && s[1] == 116 && s[2] == 97 && s[3] == 116 && s[4] == 105 && s[5] == 99 {
            Some(TokenKind::Static)  // "static"
        } else if s[0] == 114 && s[1] == 101 && s[2] == 116 && s[3] == 117 && s[4] == 114 && s[5]
            == 110 {
            Some(TokenKind::Return)  // "return"
        } else if s[0] == 115 && s[1] == 116 && s[2] == 114 && s[3] == 117 && s[4] == 99 && s[5]
            == 116 {
            Some(TokenKind::Struct)  // "struct"
        } else if s[0] == 101 && s[1] == 120 && s[2] == 116 && s[3] == 101 && s[4] == 114 && s[5]
            == 110 {
            Some(TokenKind::Extern)  // the externality keyword
        } else {
            None
        }
    } else if s.len() == 7 {
        if s[0] == 118 && s[1] == 97 && s[2] == 114 && s[3] == 105 && s[4] == 97 && s[5] == 110
            && s[6] == 116 {
            Some(TokenKind::Variant)  // "variant"
        } else {
            None
        }
    } else if s.len() == 8 {
        if s[0] == 99 && s[1] == 111 && s[2] == 110 && s[3] == 116 && s[4] == 105 && s[5] == 110
            && s[6] == 117 && s[7] == 101 {
            Some(TokenKind::Continue)  // "continue"
        } else {
            None
        }
    } else {
        None
    }
}

/// Executable keyword lookup over `src[start..end)`.
pub fn keyword_kind(src: &Vec<u8>, start: usize, end: usize) -> (r: Option<TokenKind>)
    requires
        start <= end,
        end <= src.len(),
    ensures
        r == kw_kind(src@.subrange(start as int, end as int)),
{
    let n = end - start;
    if n == 2 {
        if src[start] == 105 && src[start + 1] == 102 {
            Some(TokenKind::If)
        } else if src[start] == 100 && src[start + 1] == 111 {
            Some(TokenKind::Do)
        } else if src[start] == 97 && src[start + 1] == 115 {
            Some(TokenKind::As)
        } else if src[start] == 102 && src[start + 1] == 110 {
            Some(TokenKind::Fn)
        } else {
            None
        }
    } else if n == 3 {
        if src[start] == 112 && src[start + 1] == 117 && src[start + 2] == 98 {
            Some(TokenKind::Pub)
        } else if src[start] == 102 && src[start + 1] == 111 && src[start + 2] == 114 {
            Some(TokenKind::For)
        } else if src[start] == 109 && src[start + 1] == 111 && src[start + 2] == 100 {
            Some(TokenKind::Mod)
        } else if src[start] == 117 && src[start + 1] == 115 && src[start + 2] == 101 {
            Some(TokenKind::Use)
        } else if src[start] == 108 && src[start + 1] == 101 && src[start + 2] == 116 {
            Some(TokenKind::Let)
        } else {
            None
        }
    } else if n == 4 {
        if src[start] == 109 && src[start + 1] == 111 && src[start + 2] == 118 && src[start + 3]
            == 101 {
            Some(TokenKind::Move)
        } else if src[start] == 101 && src[start + 1] == 108 && src[start + 2] == 115 && src[start
            + 3] == 101 {
            Some(TokenKind::Else)
        } else if src[start] == 99 && src[start + 1] == 97 && src[start + 2] == 115 && src[start
            + 3] == 101 {
            Some(TokenKind::Case)
        } else if src[start] == 101 && src[start + 1] == 110 && src[start + 2] == 117 && src[start
            + 3] == 109 {
            Some(TokenKind::Enum)
        } else if src[start] == 116 && src[start + 1] == 121 && src[start + 2] == 112 && src[start
            + 3] == 101 {
            Some(TokenKind::Type)
        } else if src[start] == 105 && src[start + 1] == 109 && src[start + 2] == 112 && src[start
            + 3] == 108 {
            Some(TokenKind::Impl)
        } else if src[start] == 118 && src[start + 1] == 111 && src[start + 2] == 105 && src[start
            + 3] == 100 {
            Some(TokenKind::Void)
        } else {
            None
        }
    } else if n == 5 {
        if src[start] == 99 && src[start + 1] == 111 && src[start + 2] == 110 && src[start + 3]
            == 115 && src[start + 4] == 116 {
            Some(TokenKind::Const)
        } else if src[start] == 119 && src[start + 1] == 104 && src[start + 2] == 105 && src[start
            + 3] == 108 && src[start + 4] == 101 {
            Some(TokenKind::While)
        } else if src[start] == 98 && src[start + 1] == 114 && src[start + 2] == 101 && src[start
            + 3] == 97 && src[start + 4] == 107 {
            Some(TokenKind::Break)
        } else if src[start] == 109 && src[start + 1] == 97 && src[start + 2] == 116 && src[start
            + 3] == 99 && src[start + 4] == 104 {
            Some(TokenKind::Match)
        } else if src[start] == 119 && src[start + 1] == 104 && src[start + 2] == 101 && src[start
            + 3] == 114 && src[start + 4] == 101 {
            Some(TokenKind::Where)
        } else if src[start] == 117 && src[start + 1] == 110 && src[start + 2] == 105 && src[start
            + 3] == 111 && src[start + 4] == 110 {
            Some(TokenKind::Union)
        } else if src[start] == 116 && src[start + 1] == 114 && src[start + 2] == 97 && src[start
            + 3] == 105 && src[start + 4] == 116 {
            Some(TokenKind::Trait)
        } else if src[start] == 110 && src[start + 1] == 101 && src[start + 2] == 118 && src[start
            + 3] == 101 && src[start + 4] == 114 {
            Some(TokenKind::Never)
        } else if src[start] == 117 && src[start + 1] == 115 && src[start + 2] == 105 && src[start
            + 3] == 122 && src[start + 4] == 101 {
            Some(TokenKind::UsizeType)
        } else if src[start] == 105 && src[start + 1] == 115 && src[start + 2] == 105 && src[start
            + 3] == 122 && src[start + 4] == 101 {
            Some(TokenKind::IsizeType)
        } else {
            None
        }
    } else if n == 6 {
        if src[start] == 115 && src[start + 1] == 116 && src[start + 2] == 97 && src[start + 3]
            == 116 && src[start + 4] == 105 && src[start + 5] == 99 {
            Some(TokenKind::Static)
        } else if src[start] == 114 && src[start + 1] == 101 && src[start + 2] == 116 && src[start
            + 3] == 117 && src[start + 4] == 114 && src[start + 5] == 110 {
            Some(TokenKind::Return)
        } else if src[start] == 115 && src[start + 1] == 116 && src[start + 2] == 114 && src[start
            + 3] == 117 && src[start + 4] == 99 && src[start + 5] == 116 {
            Some(TokenKind::Struct)
        } else if src[start] == 101 && src[start + 1] == 120 && src[start + 2] == 116 && src[start
            + 3] == 101 && src[start + 4] == 114 && src[start + 5] == 110 {
            Some(TokenKind::Extern)
        } else {
            None
        }
    } else if n == 7 {
        if src[start] == 118 && src[start + 1] == 97 && src[start + 2] == 114 && src[start + 3]
            == 105 && src[start + 4] == 97 && src[start + 5] == 110 && src[start + 6] == 116 {
            Some(TokenKind::Variant)
        } else {
            None
        }
    } else if n == 8 {
        if src[start] == 99 && src[start + 1] == 111 && src[start + 2] == 110 && src[start + 3]
            == 116 && src[start + 4] == 105 && src[start + 5] == 110 && src[start + 6] == 117
            && src[start + 7] == 101 {
            Some(TokenKind::Continue)
        } else {
            None
        }
    } else {
        None
    }
}

// ===========================================================================
// Numeric type suffixes
// ===========================================================================

/// `src[start..end)` spells a positive integer with no nonzero digit missing:
/// all decimal digits, at least one of them nonzero.  This is the sub-pattern
/// a sized-type suffix must match ("u8", "i31", "f64", also "u007"); a bare
/// zero run does not qualify.
pub open spec fn pos_int_like(s: Seq<u8>, start: int, end: int) -> bool {
    &&& 0 <= start < end <= s.len()
    &&& forall|k: int| start <= k < end ==> is_digit(s[k])
    &&& exists|k: int| start <= k < end && s[k] != 48
}

/// The decimal value spelled by `src[start..end)`.
pub open spec fn digits_val(s: Seq<u8>, start: int, end: int) -> int
    decreases end - start,
{
    if start >= end {
        0
    } else {
        digits_val(s, start, end - 1) * 10 + (s[end - 1] - 48)
    }
}

/// Appending digits never lowers the spelled value.
pub proof fn lemma_digits_val_mono(s: Seq<u8>, start: int, i: int, j: int)
    requires
        start <= i <= j,
        forall|k: int| start <= k < j ==> is_digit(s[k]),
    ensures
        0 <= digits_val(s, start, i) <= digits_val(s, start, j),
    decreases j - i,
{
    if i == j {
        lemma_digits_val_nonneg(s, start, i);
    } else {
        lemma_digits_val_mono(s, start, i, j - 1);
    }
}

pub proof fn lemma_digits_val_nonneg(s: Seq<u8>, start: int, end: int)
    requires
        forall|k: int| start <= k < end ==> is_digit(s[k]),
    ensures
        digits_val(s, start, end) >= 0,
    decreases end - start,
{
    if start < end {
        lemma_digits_val_nonneg(s, start, end - 1);
    }
}

/// Parses the decimal digit run `src[start..end)` into a machine word,
/// reporting overflow of the natural unsigned width as `None`.
pub fn parse_width(src: &Vec<u8>, start: usize, end: usize) -> (r: Option<usize>)
    requires
        start < end,
        end <= src.len(),
        forall|k: int| start <= k < end ==> is_digit(src@[k]),
    ensures
        match r {
            Some(v) => v as int == digits_val(src@, start as int, end as int),
            None => digits_val(src@, start as int, end as int) > usize::MAX,
        },
{
    let mut acc: usize = 0;
    let mut i: usize = start;
    while i < end
        invariant
            start <= i <= end,
            end <= src.len(),
            forall|k: int| start <= k < end ==> is_digit(src@[k]),
            acc as int == digits_val(src@, start as int, i as int),
        decreases end - i,
    {
        let d = src[i] - 48;
        if acc > (usize::MAX - d as usize) / 10 {
            proof {
                assert(acc * 10 + d > usize::MAX) by (nonlinear_arith)
                    requires
                        acc > (usize::MAX - d as usize) / 10,
                        d <= 9,
                ;
                lemma_digits_val_mono(src@, start as int, i as int + 1, end as int);
            }
            return None;
        }
        proof {
            assert(acc * 10 + d <= usize::MAX) by (nonlinear_arith)
                requires
                    acc <= (usize::MAX - d as usize) / 10,
                    d <= 9,
            ;
        }
        acc = acc * 10 + d as usize;
        i = i + 1;
    }
    Some(acc)
}

// ===========================================================================
// Further runs: hashes, line comments, exponents
// ===========================================================================

/// End of the maximal run of '#' bytes starting at `i`.
pub open spec fn hash_run_end(s: Seq<u8>, i: int) -> int
    decreases s.len() - i,
{
    if 0 <= i < s.len() && s[i] == HASH {
        hash_run_end(s, i + 1)
    } else {
        i
    }
}

pub proof fn lemma_hash_run_end_bounds(s: Seq<u8>, i: int)
    requires
        0 <= i <= s.len(),
    ensures
        i <= hash_run_end(s, i) <= s.len(),
    decreases s.len() - i,
{
    if i < s.len() && s[i] == HASH {
        lemma_hash_run_end_bounds(s, i + 1);
    }
}

/// Executable twin of `hash_run_end`.
pub fn scan_hash_run_end(src: &Vec<u8>, pos: usize) -> (r: usize)
    requires
        pos <= src.len(),
    ensures
        r as int == hash_run_end(src@, pos as int),
        pos <= r <= src.len(),
{
    let mut i: usize = pos;
    while i < src.len() && src[i] == HASH
        invariant
            pos <= i <= src.len(),
            hash_run_end(src@, pos as int) == hash_run_end(src@, i as int),
        decreases src.len() - i,
    {
        i = i + 1;
    }
    i
}

/// End of a line comment whose `//` prefix ends at `i`: the first CR or LF
/// at or after `i`, or the end of input.  The newline itself is not part of
/// the comment.
pub open spec fn line_end(s: Seq<u8>, i: int) -> int
    decreases s.len() - i,
{
    if 0 <= i < s.len() && s[i] != CR && s[i] != LF {
        line_end(s, i + 1)
    } else {
        i
    }
}

pub proof fn lemma_line_end_bounds(s: Seq<u8>, i: int)
    requires
        0 <= i <= s.len(),
    ensures
        i <= line_end(s, i) <= s.len(),
    decreases s.len() - i,
{
    if i < s.len() && s[i] != CR && s[i] != LF {
        lemma_line_end_bounds(s, i + 1);
    }
}

/// Executable twin of `line_end`.
pub fn scan_line_end(src: &Vec<u8>, pos: usize) -> (r: usize)
    requires
        pos <= src.len(),
    ensures
        r as int == line_end(src@, pos as int),
        pos <= r <= src.len(),
{
    let mut i: usize = pos;
    while i < src.len() && src[i] != CR && src[i] != LF
        invariant
            pos <= i <= src.len(),
            line_end(src@, pos as int) == line_end(src@, i as int),
        decreases src.len() - i,
    {
        i = i + 1;
    }
    i
}

/// End of an exponent suffix starting at `j`: 'e' or 'E', an optional sign,
/// then a digit run.  `None` if no well-formed exponent begins at `j`.
pub open spec fn exp_end(s: Seq<u8>, j: int) -> Option<int> {
    if 0 <= j < s.len() && (s[j] == 101 || s[j] == 69) {  // 'e' or 'E'
        let k = if j + 1 < s.len() && (s[j + 1] == PLUS || s[j + 1] == MINUS) {
            j + 2
        } else {
            j + 1
        };
        if k < s.len() && is_digit(s[k]) {
            Some(run_end(s, k, 10))
        } else {
            None
        }
    } else {
        None
    }
}

pub proof fn lemma_exp_end_bounds(s: Seq<u8>, j: int)
    requires
        0 <= j <= s.len(),
    ensures
        match exp_end(s, j) {
            Some(x) => j + 1 < x <= s.len(),
            None => true,
        },
{
    if 0 <= j < s.len() && (s[j] == 101 || s[j] == 69) {
        let k = if j + 1 < s.len() && (s[j + 1] == PLUS || s[j + 1] == MINUS) {
            j + 2
        } else {
            j + 1
        };
        if k < s.len() && is_digit(s[k]) {
            lemma_run_end_bounds(s, k, 10);
            assert(digits_end(s, k, 10) == digits_end(s, k + 1, 10));
            lemma_digits_end_bounds(s, k + 1, 10);
            lemma_run_end_lower(s, k, 10);
        }
    }
}

/// A digit run reaches at least past its leading digit block.
pub proof fn lemma_run_end_lower(s: Seq<u8>, i: int, radix: u8)
    requires
        0 <= i <= s.len(),
    ensures
        digits_end(s, i, radix) <= run_end(s, i, radix),
    decreases s.len() - i,
{
    let j = digits_end(s, i, radix);
    lemma_digits_end_bounds(s, i, radix);
    let k = unders_end(s, j);
    lemma_unders_end_bounds(s, j);
    if i <= j < k < s.len() && is_radix_digit(s[k], radix) {
        lemma_run_end_lower(s, k, radix);
        lemma_digits_end_bounds(s, k, radix);
        assert(digits_end(s, k, radix) == digits_end(s, k + 1, radix));
        lemma_digits_end_bounds(s, k + 1, radix);
    }
}

/// Executable twin of `exp_end`.
pub fn scan_exp_end(src: &Vec<u8>, pos: usize) -> (r: Option<usize>)
    requires
        pos <= src.len(),
    ensures
        match r {
            Some(x) => exp_end(src@, pos as int) == Some(x as int) && pos < x <= src.len(),
            None => exp_end(src@, pos as int) is None,
        },
{
    if pos < src.len() && (src[pos] == 101 || src[pos] == 69) {
        let k = if pos + 1 < src.len() && (src[pos + 1] == PLUS || src[pos + 1] == MINUS) {
            pos + 2
        } else {
            pos + 1
        };
        if k < src.len() && radix_digit_byte(src[k], 10) {
            let x = scan_run_end(src, k, 10);
            proof {
                lemma_exp_end_bounds(src@, pos as int);
            }
            Some(x)
        } else {
            None
        }
    } else {
        None
    }
}

// ===========================================================================
// Block comments
// ===========================================================================

/// Scans a block comment body from `i` (just past the opening pair) with the
/// current nesting `depth` and the previous byte `prev`, one byte per step as
/// a sliding window: "*/" closes one level, "/*" opens one.  `Some(e)` is the
/// exclusive end of the comment; `None` means the input ran out first.
pub open spec fn block_end(s: Seq<u8>, i: int, depth: nat, prev: u8) -> Option<int>
    decreases s.len() - i,
{
    if i < 0 || i >= s.len() {
        None
    } else {
        let c = s[i];
        if prev == STAR && c == SLASH {
            if depth <= 1 {
                Some(i + 1)
            } else {
                block_end(s, i + 1, (depth - 1) as nat, c)
            }
        } else if prev == SLASH && c == STAR {
            block_end(s, i + 1, depth + 1, c)
        } else {
            block_end(s, i + 1, depth, c)
        }
    }
}

pub proof fn lemma_block_end_bounds(s: Seq<u8>, i: int, depth: nat, prev: u8)
    requires
        0 <= i <= s.len(),
    ensures
        match block_end(s, i, depth, prev) {
            Some(e) => i < e <= s.len(),
            None => true,
        },
    decreases s.len() - i,
{
    if 0 <= i < s.len() {
        let c = s[i];
        if prev == STAR && c == SLASH {
            if depth > 1 {
                lemma_block_end_bounds(s, i + 1, (depth - 1) as nat, c);
            }
        } else if prev == SLASH && c == STAR {
            lemma_block_end_bounds(s, i + 1, depth + 1, c);
        } else {
            lemma_block_end_bounds(s, i + 1, depth, c);
        }
    }
}

/// Executable block comment scanner, started just past the opening pair.
pub fn scan_block_end(src: &Vec<u8>, pos: usize) -> (r: Option<usize>)
    requires
        pos <= src.len(),
    ensures
        match r {
            Some(e) => block_end(src@, pos as int, 1, 0) == Some(e as int) && pos < e
                <= src.len(),
            None => block_end(src@, pos as int, 1, 0) is None,
        },
{
    let mut i: usize = pos;
    let mut depth: u128 = 1;
    let mut prev: u8 = 0;
    loop
        invariant
            pos <= i <= src.len(),
            1 <= depth <= i - pos + 1,
            block_end(src@, pos as int, 1, 0) == block_end(src@, i as int, depth as nat, prev),
        decreases src.len() - i,
    {
        if i >= src.len() {
            return None;
        }
        let c = src[i];
        if prev == STAR && c == SLASH {
            if depth == 1 {
                proof {
                    lemma_block_end_bounds(src@, pos as int, 1, 0);
                }
                return Some(i + 1);
            }
            depth = depth - 1;
        } else if prev == SLASH && c == STAR {
            depth = depth + 1;
        }
        prev = c;
        i = i + 1;
    }
}

// ===========================================================================
// Raw strings
// ===========================================================================

/// Scans a raw string body from `i` (just past the opening quote).  `hashes`
/// is the delimiter's hash count; `count` is the closing countdown, `exiting`
/// whether an unescaped quote has put the scanner in the closing sub-state,
/// and `escape` the backslash-pair toggle.  `Some(e)` is the exclusive end of
/// the literal; `None` means the input ran out before the close completed.
pub open spec fn raw_end(s: Seq<u8>, i: int, hashes: nat, count: nat, exiting: bool, escape: bool) -> Option<
    int,
>
    decreases s.len() - i,
{
    if exiting && count == 0 {
        Some(i)
    } else if i < 0 || i >= s.len() {
        None
    } else {
        let c = s[i];
        if exiting && c == HASH {
            raw_end(s, i + 1, hashes, (count - 1) as nat, true, escape)
        } else if c == BACKSLASH {
            raw_end(s, i + 1, hashes, hashes, false, !escape)
        } else if c == QUOTE && !escape {
            raw_end(s, i + 1, hashes, hashes, true, false)
        } else {
            raw_end(s, i + 1, hashes, hashes, false, false)
        }
    }
}

pub proof fn lemma_raw_end_bounds(s: Seq<u8>, i: int, hashes: nat, count: nat, exiting: bool, escape: bool)
    requires
        0 <= i <= s.len(),
    ensures
        match raw_end(s, i, hashes, count, exiting, escape) {
            Some(e) => i <= e <= s.len(),
            None => true,
        },
    decreases s.len() - i,
{
    if exiting && count == 0 {
    } else if 0 <= i < s.len() {
        let c = s[i];
        if exiting && c == HASH {
            lemma_raw_end_bounds(s, i + 1, hashes, (count - 1) as nat, true, escape);
        } else if c == BACKSLASH {
            lemma_raw_end_bounds(s, i + 1, hashes, hashes, false, !escape);
        } else if c == QUOTE && !escape {
            lemma_raw_end_bounds(s, i + 1, hashes, hashes, true, false);
        } else {
            lemma_raw_end_bounds(s, i + 1, hashes, hashes, false, false);
        }
    }
}

/// Executable raw string scanner, started just past the opening quote.
pub fn scan_raw_end(src: &Vec<u8>, pos: usize, hashes: usize) -> (r: Option<usize>)
    requires
        pos <= src.len(),
    ensures
        match r {
            Some(e) => raw_end(src@, pos as int, hashes as nat, hashes as nat, false, false)
                == Some(e as int) && pos <= e <= src.len(),
            None => raw_end(src@, pos as int, hashes as nat, hashes as nat, false, false)
                is None,
        },
{
    let mut i: usize = pos;
    let mut count: usize = hashes;
    let mut exiting: bool = false;
    let mut escape: bool = false;
    loop
        invariant
            pos <= i <= src.len(),
            raw_end(src@, pos as int, hashes as nat, hashes as nat, false, false) == raw_end(
                src@,
                i as int,
                hashes as nat,
                count as nat,
                exiting,
                escape,
            ),
        decreases src.len() - i,
    {
        if exiting && count == 0 {
            proof {
                lemma_raw_end_bounds(src@, pos as int, hashes as nat, hashes as nat, false, false);
            }
            return Some(i);
        }
        if i >= src.len() {
            return None;
        }
        let c = src[i];
        if exiting && c == HASH {
            count = count - 1;
        } else if c == BACKSLASH {
            count = hashes;
            exiting = false;
            escape = !escape;
        } else if c == QUOTE && !escape {
            count = hashes;
            exiting = true;
            escape = false;
        } else {
            count = hashes;
            exiting = false;
            escape = false;
        }
        i = i + 1;
    }
}

// ===========================================================================
// Escaped strings
// ===========================================================================

/// The exclusive position of the quote closing an escaped string whose
/// opening quote stands at `i - 1`: the longest match of the pattern whose
/// content bytes are any non-quote, or a backslash-quote pair.  That is the
/// first quote at or after `i` not preceded by a backslash, or, when every
/// later quote is so preceded, the last of them.  `None` when no quote
/// follows at all: the string pattern does not match.
pub open spec fn str_close(s: Seq<u8>, i: int) -> Option<int>
    decreases s.len() - i,
{
    if i < 1 || i >= s.len() {
        None
    } else if s[i] == QUOTE && s[i - 1] != BACKSLASH {
        Some(i)
    } else if s[i] == QUOTE {
        match str_close(s, i + 1) {
            Some(j) => Some(j),
            None => Some(i),
        }
    } else {
        str_close(s, i + 1)
    }
}

pub proof fn lemma_str_close_bounds(s: Seq<u8>, i: int)
    requires
        1 <= i <= s.len(),
    ensures
        match str_close(s, i) {
            Some(q) => i <= q < s.len(),
            None => true,
        },
    decreases s.len() - i,
{
    if 1 <= i < s.len() {
        lemma_str_close_bounds(s, i + 1);
    }
}

/// Executable string close scanner, started just past the opening quote.
pub fn scan_str_close(src: &Vec<u8>, pos: usize) -> (r: Option<usize>)
    requires
        1 <= pos,
        pos <= src.len(),
    ensures
        match r {
            Some(q) => str_close(src@, pos as int) == Some(q as int) && pos <= q < src.len(),
            None => str_close(src@, pos as int) is None,
        },
{
    let mut i: usize = pos;
    let mut cand: Option<usize> = None;
    loop
        invariant
            1 <= pos <= i <= src.len(),
            match cand {
                Some(q) => pos <= q < i && q < src.len(),
                None => true,
            },
            ({
                let full = str_close(src@, pos as int);
                match str_close(src@, i as int) {
                    Some(j) => full == Some(j),
                    None => full == match cand {
                        Some(q) => Some(q as int),
                        None => None::<int>,
                    },
                }
            }),
        decreases src.len() - i,
    {
        if i >= src.len() {
            return cand;
        }
        if src[i] == QUOTE {
            if src[i - 1] != BACKSLASH {
                return Some(i);
            }
            cand = Some(i);
        }
        i = i + 1;
    }
}

// ===========================================================================
// The classifier
// ===========================================================================

/// A token of the given kind spanning `[start, end)`.
pub open spec fn spec_token(kind: TokenKind, start: int, end: int) -> Token {
    Token { kind, span: Span { start: start as usize, end: end as usize } }
}

/// The radix selected by the letter after a leading zero: 'b'/'B', 'o'/'O',
/// 'x'/'X'; 0 for any other byte.
pub open spec fn radix_of(b: u8) -> u8 {
    if b == 98 || b == 66 {
        2
    } else if b == 111 || b == 79 {
        8
    } else if b == 120 || b == 88 {
        16
    } else {
        0
    }
}

/// Classifies the identifier-or-keyword run starting at `w`.  The full run is
/// matched first; a literal keyword takes priority at equal length, then a
/// sized-type suffix ('u'/'i'/'f' followed by a positive integer), and the
/// rest is a plain identifier.  A sized-type width too large for the natural
/// unsigned word is a lexical error spanning the whole run.
pub open spec fn ident_step(s: Seq<u8>, w: int) -> (Result<Token, LexerError>, int) {
    let e = ident_end(s, w + 1);
    match kw_kind(s.subrange(w, e)) {
        Some(kind) => (Ok(spec_token(kind, w, e)), e),
        None => {
            if (s[w] == 117 || s[w] == 105 || s[w] == 102) && pos_int_like(s, w + 1, e) {
                let v = digits_val(s, w + 1, e);
                if v > usize::MAX {
                    (Err(LexerError::InvalidInteger), e)
                } else {
                    let kind = if s[w] == 117 {
                        TokenKind::UintType(v as usize)
                    } else if s[w] == 105 {
                        TokenKind::IntType(v as usize)
                    } else {
                        TokenKind::FloatType(v as usize)
                    };
                    (Ok(spec_token(kind, w, e)), e)
                }
            } else {
                (Ok(spec_token(TokenKind::Identifier, w, e)), e)
            }
        },
    }
}

/// Classifies the numeric literal starting at the digit at `w`, longest match
/// first: a radix literal when a '0' is followed by a radix letter and at
/// least one valid digit, otherwise the float and exponent forms layered on
/// the leading decimal digit run, falling back to a plain decimal integer.
pub open spec fn num_step(s: Seq<u8>, w: int) -> (Result<Token, LexerError>, int) {
    let rad = if w + 1 < s.len() {
        radix_of(s[w + 1])
    } else {
        0
    };
    if s[w] == 48 && rad != 0 && w + 2 < s.len() && is_radix_digit(s[w + 2], rad) {
        let e = run_end(s, w + 2, rad);
        let kind = if rad == 2 {
            TokenKind::BinInt
        } else if rad == 8 {
            TokenKind::OctInt
        } else {
            TokenKind::HexInt
        };
        (Ok(spec_token(kind, w, e)), e)
    } else {
        let d1 = run_end(s, w, 10);
        if d1 < s.len() && s[d1] == DOT {
            if d1 + 1 < s.len() && is_digit(s[d1 + 1]) {
                let f1 = run_end(s, d1 + 1, 10);
                match exp_end(s, f1) {
                    Some(x) => (Ok(spec_token(TokenKind::FloatExp, w, x)), x),
                    None => (Ok(spec_token(TokenKind::Float, w, f1)), f1),
                }
            } else {
                (Ok(spec_token(TokenKind::IntFloat, w, d1 + 1)), d1 + 1)
            }
        } else {
            match exp_end(s, d1) {
                Some(x) => (Ok(spec_token(TokenKind::IntExp, w, x)), x),
                None => (Ok(spec_token(TokenKind::DecInt, w, d1)), d1),
            }
        }
    }
}

/// One classification step at the non-whitespace position `w`: the produced
/// result and the position just past the text it consumed.  A position where
/// no rule matches costs one byte and yields `UnknownToken`; an unterminated
/// block comment or raw string consumes the rest of the input.
pub open spec fn token_step(s: Seq<u8>, w: int) -> (Result<Token, LexerError>, int) {
    let c = s[w];
    if c == SLASH {
        if w + 1 < s.len() && s[w + 1] == STAR {
            match block_end(s, w + 2, 1, 0) {
                Some(e) => (Ok(spec_token(TokenKind::Comment, w, e)), e),
                None => (Err(LexerError::UnterminatedBlockComment), s.len() as int),
            }
        } else if w + 1 < s.len() && s[w + 1] == SLASH {
            let e = line_end(s, w + 2);
            (Ok(spec_token(TokenKind::Comment, w, e)), e)
        } else {
            (Err(LexerError::UnknownToken), w + 1)
        }
    } else if c == 114 && ({
        let hb = hash_run_end(s, w + 1);
        hb < s.len() && s[hb] == QUOTE
    }) {
        // 'r', zero or more '#', then an opening quote: a raw string.
        let hb = hash_run_end(s, w + 1);
        match raw_end(s, hb + 1, (hb - (w + 1)) as nat, (hb - (w + 1)) as nat, false, false) {
            Some(e) => (Ok(spec_token(TokenKind::RawString, w, e)), e),
            None => (Err(LexerError::UnknownToken), s.len() as int),
        }
    } else if is_ident_start(c) {
        ident_step(s, w)
    } else if c == AT_SIGN || c == HASH || c == DOLLAR {
        if w + 1 < s.len() && is_ident_start(s[w + 1]) {
            let e = ident_end(s, w + 2);
            let kind = if c == AT_SIGN {
                TokenKind::MacroIdentifier
            } else if c == HASH {
                TokenKind::ComptimeIdentifier
            } else {
                TokenKind::DirectiveIdentifier
            };
            (Ok(spec_token(kind, w, e)), e)
        } else {
            (Err(LexerError::UnknownToken), w + 1)
        }
    } else if is_digit(c) {
        num_step(s, w)
    } else if c == QUOTE {
        match str_close(s, w + 1) {
            Some(q) => (Ok(spec_token(TokenKind::String, w, q + 1)), q + 1),
            None => (Err(LexerError::UnknownToken), w + 1),
        }
    } else if c == 40 {
        (Ok(spec_token(TokenKind::LParen, w, w + 1)), w + 1)
    } else if c == 41 {
        (Ok(spec_token(TokenKind::RParen, w, w + 1)), w + 1)
    } else if c == 123 {
        (Ok(spec_token(TokenKind::LBrace, w, w + 1)), w + 1)
    } else if c == 125 {
        (Ok(spec_token(TokenKind::RBrace, w, w + 1)), w + 1)
    } else if c == 91 {
        (Ok(spec_token(TokenKind::LBracket, w, w + 1)), w + 1)
    } else if c == 93 {
        (Ok(spec_token(TokenKind::RBracket, w, w + 1)), w + 1)
    } else if c == 44 {
        (Ok(spec_token(TokenKind::Comma, w, w + 1)), w + 1)
    } else if c == 58 {
        (Ok(spec_token(TokenKind::Colon, w, w + 1)), w + 1)
    } else if c == 59 {
        (Ok(spec_token(TokenKind::Semicolon, w, w + 1)), w + 1)
    } else if c == MINUS {
        if w + 1 < s.len() && s[w + 1] == GREATER {
            (Ok(spec_token(TokenKind::Arrow, w, w + 2)), w + 2)
        } else {
            (Err(LexerError::UnknownToken), w + 1)
        }
    } else {
        (Err(LexerError::UnknownToken), w + 1)
    }
}

/// One pull of the classifier from cursor `pos`: skip whitespace, then either
/// report exhaustion or classify one token.
pub open spec fn pull(s: Seq<u8>, pos: int) -> Option<(Result<Token, LexerError>, int)> {
    let w = ws_end(s, pos);
    if w >= s.len() {
        None
    } else {
        Some(token_step(s, w))
    }
}

// ===========================================================================
// Shape of a classification step
// ===========================================================================

/// An identifier-or-keyword step consumes at least its first byte, stays
/// inside the input, and stamps the consumed range as the token's span.
pub proof fn lemma_ident_step_shape(s: Seq<u8>, w: int)
    requires
        0 <= w < s.len(),
        s.len() <= usize::MAX,
    ensures
        ({
            let m = ident_step(s, w);
            &&& w < m.1 <= s.len()
            &&& (match m.0 {
                Ok(t) => t.span.start as int == w && t.span.end as int == m.1,
                Err(_) => true,
            })
        }),
{
    lemma_ident_end_bounds(s, w + 1);
}

/// A numeric step consumes at least its first byte, stays inside the input,
/// and stamps the consumed range as the token's span.
pub proof fn lemma_num_step_shape(s: Seq<u8>, w: int)
    requires
        0 <= w < s.len(),
        s.len() <= usize::MAX,
        is_digit(s[w]),
    ensures
        ({
            let m = num_step(s, w);
            &&& w < m.1 <= s.len()
            &&& (match m.0 {
                Ok(t) => t.span.start as int == w && t.span.end as int == m.1,
                Err(_) => true,
            })
        }),
{
    let rad = if w + 1 < s.len() {
        radix_of(s[w + 1])
    } else {
        0
    };
    if s[w] == 48 && rad != 0 && w + 2 < s.len() && is_radix_digit(s[w + 2], rad) {
        lemma_run_end_lower(s, w + 2, rad);
        assert(digits_end(s, w + 2, rad) == digits_end(s, w + 3, rad));
        lemma_digits_end_bounds(s, w + 3, rad);
        lemma_run_end_bounds(s, w + 2, rad);
    } else {
        lemma_run_end_lower(s, w, 10);
        assert(digits_end(s, w, 10) == digits_end(s, w + 1, 10));
        lemma_digits_end_bounds(s, w + 1, 10);
        lemma_run_end_bounds(s, w, 10);
        let d1 = run_end(s, w, 10);
        if d1 < s.len() && s[d1] == DOT {
            if d1 + 1 < s.len() && is_digit(s[d1 + 1]) {
                lemma_run_end_lower(s, d1 + 1, 10);
                assert(digits_end(s, d1 + 1, 10) == digits_end(s, d1 + 2, 10));
                lemma_digits_end_bounds(s, d1 + 2, 10);
                lemma_run_end_bounds(s, d1 + 1, 10);
                let f1 = run_end(s, d1 + 1, 10);
                lemma_exp_end_bounds(s, f1);
            }
        } else {
            lemma_exp_end_bounds(s, d1);
        }
    }
}

/// Every classification step consumes at least one byte, never runs past the
/// end of the input, and stamps exactly the consumed range as the span of a
/// successful token.
pub proof fn lemma_token_step_shape(s: Seq<u8>, w: int)
    requires
        0 <= w < s.len(),
        s.len() <= usize::MAX,
    ensures
        ({
            let m = token_step(s, w);
            &&& w < m.1 <= s.len()
            &&& (match m.0 {
                Ok(t) => t.span.start as int == w && t.span.end as int == m.1,
                Err(_) => true,
            })
        }),
{
    let c = s[w];
    if c == SLASH {
        if w + 1 < s.len() && s[w + 1] == STAR {
            lemma_block_end_bounds(s, w + 2, 1, 0);
        } else if w + 1 < s.len() && s[w + 1] == SLASH {
            lemma_line_end_bounds(s, w + 2);
        }
    } else if c == 114 && ({
        let hb = hash_run_end(s, w + 1);
        hb < s.len() && s[hb] == QUOTE
    }) {
        let hb = hash_run_end(s, w + 1);
        lemma_hash_run_end_bounds(s, w + 1);
        lemma_raw_end_bounds(s, hb + 1, (hb - (w + 1)) as nat, (hb - (w + 1)) as nat, false, false);
    } else if is_ident_start(c) {
        lemma_ident_step_shape(s, w);
    } else if c == AT_SIGN || c == HASH || c == DOLLAR {
        if w + 1 < s.len() && is_ident_start(s[w + 1]) {
            lemma_ident_end_bounds(s, w + 2);
        }
    } else if is_digit(c) {
        lemma_num_step_shape(s, w);
    } else if c == QUOTE {
        lemma_str_close_bounds(s, w + 1);
    }
}

// ===========================================================================
// The token stream
// ===========================================================================

/// The whole sequence of results the classifier produces from cursor `pos`
/// to the end of the input.
pub open spec fn remaining(s: Seq<u8>, pos: int) -> Seq<Result<Token, LexerError>>
    decreases s.len() - pos,
{
    match pull(s, pos) {
        None => Seq::empty(),
        Some(step) => {
            if pos < step.1 <= s.len() {
                seq![step.0] + remaining(s, step.1)
            } else {
                seq![step.0]
            }
        },
    }
}

/// Round-trip span law: every successful token carries as its span exactly
/// the text its producing rule consumed.  A pull at cursor `pos` skips
/// whitespace up to `ws_end(s, pos)`; a token produced there starts at that
/// position and ends precisely where the next pull resumes, inside the
/// input.  Recovering the span's subrange therefore yields the consumed
/// substring, nothing more and nothing less.
pub proof fn lemma_span_round_trip(s: Seq<u8>, pos: int)
    requires
        0 <= pos <= s.len(),
        s.len() <= usize::MAX,
    ensures
        match pull(s, pos) {
            Some(step) => match step.0 {
                Ok(t) => t.span.start as int == ws_end(s, pos) && t.span.end as int == step.1
                    && pos <= t.span.start < t.span.end <= s.len(),
                Err(_) => true,
            },
            None => true,
        },
{
    lemma_ws_end_bounds(s, pos);
    let w = ws_end(s, pos);
    if w < s.len() {
        lemma_token_step_shape(s, w);
    }
}

/// Unfolds one pull of the stream: the guard in `remaining` is always taken.
pub proof fn lemma_remaining_unfold(s: Seq<u8>, pos: int)
    requires
        0 <= pos <= s.len(),
        s.len() <= usize::MAX,
    ensures
        match pull(s, pos) {
            None => remaining(s, pos) == Seq::<Result<Token, LexerError>>::empty(),
            Some(step) => pos < step.1 <= s.len() && remaining(s, pos) == seq![step.0]
                + remaining(s, step.1),
        },
{
    lemma_ws_end_bounds(s, pos);
    let w = ws_end(s, pos);
    if w < s.len() {
        lemma_token_step_shape(s, w);
    }
}

// ===========================================================================
// Executable classifier
// ===========================================================================

/// Executable twin of `pos_int_like` over `src[start..end)`.
pub fn pos_int_check(src: &Vec<u8>, start: usize, end: usize) -> (r: bool)
    requires
        start <= end,
        end <= src.len(),
    ensures
        r == pos_int_like(src@, start as int, end as int),
{
    if start >= end {
        return false;
    }
    let mut nonzero: bool = false;
    let mut i: usize = start;
    while i < end
        invariant
            start <= i <= end,
            end <= src.len(),
            forall|k: int| start <= k < i ==> is_digit(src@[k]),
            nonzero == exists|k: int| start <= k < i && src@[k] != 48,
        decreases end - i,
    {
        let b = src[i];
        if !(48 <= b && b <= 57) {
            assert(!is_digit(src@[i as int]));
            return false;
        }
        if b != 48 {
            assert(src@[i as int] != 48);
            nonzero = true;
        }
        i = i + 1;
    }
    nonzero
}

/// Executable twin of `ident_step`, entered at an identifier start byte.
pub fn scan_ident_step(src: &Vec<u8>, w: usize) -> (r: (Result<Token, LexerError>, usize))
    requires
        w < src.len(),
        is_ident_start(src@[w as int]),
    ensures
        ({
            let m = ident_step(src@, w as int);
            r.0 == m.0 && r.1 as int == m.1
        }),
{
    let e = scan_ident_end(src, w + 1);
    match keyword_kind(src, w, e) {
        Some(kind) => (Ok(Token::new(kind, Span { start: w, end: e })), e),
        None => {
            let c = src[w];
            if (c == 117 || c == 105 || c == 102) && pos_int_check(src, w + 1, e) {
                match parse_width(src, w + 1, e) {
                    Some(v) => {
                        let kind = if c == 117 {
                            TokenKind::UintType(v)
                        } else if c == 105 {
                            TokenKind::IntType(v)
                        } else {
                            TokenKind::FloatType(v)
                        };
                        (Ok(Token::new(kind, Span { start: w, end: e })), e)
                    },
                    None => (Err(LexerError::InvalidInteger), e),
                }
            } else {
                (Ok(Token::new(TokenKind::Identifier, Span { start: w, end: e })), e)
            }
        },
    }
}

/// Executable twin of `radix_of`.
pub fn radix_of_byte(b: u8) -> (r: u8)
    ensures
        r == radix_of(b),
{
    if b == 98 || b == 66 {
        2
    } else if b == 111 || b == 79 {
        8
    } else if b == 120 || b == 88 {
        16
    } else {
        0
    }
}

/// Executable twin of `num_step`, entered at a decimal digit.
pub fn scan_num_step(src: &Vec<u8>, w: usize) -> (r: (Result<Token, LexerError>, usize))
    requires
        w < src.len(),
        is_digit(src@[w as int]),
    ensures
        ({
            let m = num_step(src@, w as int);
            r.0 == m.0 && r.1 as int == m.1
        }),
{
    let rad: u8 = if w + 1 < src.len() {
        radix_of_byte(src[w + 1])
    } else {
        0
    };
    if src[w] == 48 && rad != 0 && w + 2 < src.len() && radix_digit_byte(src[w + 2], rad) {
        let e = scan_run_end(src, w + 2, rad);
        let kind = if rad == 2 {
            TokenKind::BinInt
        } else if rad == 8 {
            TokenKind::OctInt
        } else {
            TokenKind::HexInt
        };
        (Ok(Token::new(kind, Span { start: w, end: e })), e)
    } else {
        let d1 = scan_run_end(src, w, 10);
        if d1 < src.len() && src[d1] == DOT {
            if d1 + 1 < src.len() && radix_digit_byte(src[d1 + 1], 10) {
                let f1 = scan_run_end(src, d1 + 1, 10);
                match scan_exp_end(src, f1) {
                    Some(x) => (Ok(Token::new(TokenKind::FloatExp, Span { start: w, end: x })), x),
                    None => (Ok(Token::new(TokenKind::Float, Span { start: w, end: f1 })), f1),
                }
            } else {
                (Ok(Token::new(TokenKind::IntFloat, Span { start: w, end: d1 + 1 })), d1 + 1)
            }
        } else {
            match scan_exp_end(src, d1) {
                Some(x) => (Ok(Token::new(TokenKind::IntExp, Span { start: w, end: x })), x),
                None => (Ok(Token::new(TokenKind::DecInt, Span { start: w, end: d1 })), d1),
            }
        }
    }
}

/// Executable twin of `token_step`, entered at the non-whitespace byte `w`.
pub fn scan_token_step(src: &Vec<u8>, w: usize) -> (r: (Result<Token, LexerError>, usize))
    requires
        w < src.len(),
    ensures
        ({
            let m = token_step(src@, w as int);
            r.0 == m.0 && r.1 as int == m.1
        }),
{
    let c = src[w];
    if c == SLASH {
        if w + 1 < src.len() && src[w + 1] == STAR {
            match scan_block_end(src, w + 2) {
                Some(e) => (Ok(Token::new(TokenKind::Comment, Span { start: w, end: e })), e),
                None => (Err(LexerError::UnterminatedBlockComment), src.len()),
            }
        } else if w + 1 < src.len() && src[w + 1] == SLASH {
            let e = scan_line_end(src, w + 2);
            (Ok(Token::new(TokenKind::Comment, Span { start: w, end: e })), e)
        } else {
            (Err(LexerError::UnknownToken), w + 1)
        }
    } else if c == 114 && ({
        let hb = scan_hash_run_end(src, w + 1);
        hb < src.len() && src[hb] == QUOTE
    }) {
        let hb = scan_hash_run_end(src, w + 1);
        match scan_raw_end(src, hb + 1, hb - (w + 1)) {
            Some(e) => (Ok(Token::new(TokenKind::RawString, Span { start: w, end: e })), e),
            None => (Err(LexerError::UnknownToken), src.len()),
        }
    } else if ident_start_byte(c) {
        scan_ident_step(src, w)
    } else if c == AT_SIGN || c == HASH || c == DOLLAR {
        if w + 1 < src.len() && ident_start_byte(src[w + 1]) {
            let e = scan_ident_end(src, w + 2);
            let kind = if c == AT_SIGN {
                TokenKind::MacroIdentifier
            } else if c == HASH {
                TokenKind::ComptimeIdentifier
            } else {
                TokenKind::DirectiveIdentifier
            };
            (Ok(Token::new(kind, Span { start: w, end: e })), e)
        } else {
            (Err(LexerError::UnknownToken), w + 1)
        }
    } else if 48 <= c && c <= 57 {
        scan_num_step(src, w)
    } else if c == QUOTE {
        match scan_str_close(src, w + 1) {
            Some(q) => (Ok(Token::new(TokenKind::String, Span { start: w, end: q + 1 })), q + 1),
            None => (Err(LexerError::UnknownToken), w + 1),
        }
    } else if c == 40 {
        (Ok(Token::new(TokenKind::LParen, Span { start: w, end: w + 1 })), w + 1)
    } else if c == 41 {
        (Ok(Token::new(TokenKind::RParen, Span { start: w, end: w + 1 })), w + 1)
    } else if c == 123 {
        (Ok(Token::new(TokenKind::LBrace, Span { start: w, end: w + 1 })), w + 1)
    } else if c == 125 {
        (Ok(Token::new(TokenKind::RBrace, Span { start: w, end: w + 1 })), w + 1)
    } else if c == 91 {
        (Ok(Token::new(TokenKind::LBracket, Span { start: w, end: w + 1 })), w + 1)
    } else if c == 93 {
        (Ok(Token::new(TokenKind::RBracket, Span { start: w, end: w + 1 })), w + 1)
    } else if c == 44 {
        (Ok(Token::new(TokenKind::Comma, Span { start: w, end: w + 1 })), w + 1)
    } else if c == 58 {
        (Ok(Token::new(TokenKind::Colon, Span { start: w, end: w + 1 })), w + 1)
    } else if c == 59 {
        (Ok(Token::new(TokenKind::Semicolon, Span { start: w, end: w + 1 })), w + 1)
    } else if c == MINUS {
        if w + 1 < src.len() && src[w + 1] == GREATER {
            (Ok(Token::new(TokenKind::Arrow, Span { start: w, end: w + 2 })), w + 2)
        } else {
            (Err(LexerError::UnknownToken), w + 1)
        }
    } else {
        (Err(LexerError::UnknownToken), w + 1)
    }
}

} // verus!
