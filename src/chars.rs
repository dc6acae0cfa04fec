//! Character classes of the reference grammar and conversions between
//! strings and character sequences.
use vstd::prelude::*;

verus! {

/// Whether a non-ASCII character is a Unicode word character (`\w`).
pub uninterp spec fn unicode_word(c: char) -> bool;

/// The non-ASCII characters with the Unicode `White_Space` property.
pub open spec fn unicode_space(c: char) -> bool {
    c == '\u{85}' || c == '\u{a0}' || c == '\u{1680}' || ('\u{2000}' <= c && c <= '\u{200a}')
        || c == '\u{2028}' || c == '\u{2029}' || c == '\u{202f}' || c == '\u{205f}' || c
        == '\u{3000}'
}

pub open spec fn is_ascii_char(c: char) -> bool {
    (c as u32) < 128
}

pub open spec fn is_ascii_alnum(c: char) -> bool {
    ('0' <= c && c <= '9') || ('a' <= c && c <= 'z') || ('A' <= c && c <= 'Z')
}

/// `[A-Za-z0-9_-]`: a character of an owner (or Pages user) segment.
pub open spec fn is_owner_char(c: char) -> bool {
    is_ascii_alnum(c) || c == '_' || c == '-'
}

/// `[A-Za-z0-9_.-]`: a character of a repository (or Pages project) segment.
pub open spec fn is_repo_char(c: char) -> bool {
    is_owner_char(c) || c == '.'
}

/// Word characters, as a word boundary sees them: `[0-9A-Za-z_]` among
/// ASCII characters, the Unicode word class beyond.
pub open spec fn is_word_char(c: char) -> bool {
    if is_ascii_char(c) {
        is_ascii_alnum(c) || c == '_'
    } else {
        unicode_word(c)
    }
}

/// Whitespace as `str::trim` removes it: the Unicode `White_Space` property.
pub open spec fn is_space_char(c: char) -> bool {
    if is_ascii_char(c) {
        c == ' ' || ('\t' <= c && c <= '\r')
    } else {
        unicode_space(c)
    }
}

/// Relies on regex_syntax::is_word_character, the table of Unicode word
/// characters that a regular expression's `\b` consults.
#[verifier::external_body]
fn unicode_word_exec(c: char) -> (r: bool)
    requires
        !is_ascii_char(c),
    ensures
        r == unicode_word(c),
{
    regex_syntax::is_word_character(c)
}

pub fn is_owner(c: char) -> (r: bool)
    ensures
        r == is_owner_char(c),
{
    ('0' <= c && c <= '9') || ('a' <= c && c <= 'z') || ('A' <= c && c <= 'Z') || c == '_'
        || c == '-'
}

pub fn is_repo(c: char) -> (r: bool)
    ensures
        r == is_repo_char(c),
{
    is_owner(c) || c == '.'
}

pub fn is_word(c: char) -> (r: bool)
    ensures
        r == is_word_char(c),
{
    if (c as u32) < 128 {
        ('0' <= c && c <= '9') || ('a' <= c && c <= 'z') || ('A' <= c && c <= 'Z') || c == '_'
    } else {
        unicode_word_exec(c)
    }
}

pub fn is_space(c: char) -> (r: bool)
    ensures
        r == is_space_char(c),
{
    if (c as u32) < 128 {
        c == ' ' || ('\t' <= c && c <= '\r')
    } else {
        c == '\u{85}' || c == '\u{a0}' || c == '\u{1680}' || ('\u{2000}' <= c && c <= '\u{200a}')
            || c == '\u{2028}' || c == '\u{2029}' || c == '\u{202f}' || c == '\u{205f}' || c
            == '\u{3000}'
    }
}

/// The characters of a string, in order.
pub fn chars_of(s: &str) -> (v: Vec<char>)
    ensures
        v@ == s@,
{
    let mut v: Vec<char> = Vec::new();
    for c in it: s.chars()
        invariant
            it.seq() == s@,
            v@ == it.seq().take(it.index() as int),
    {
        v.push(c);
    }
    v
}

} // verus!
