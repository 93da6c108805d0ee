//! Character classes and case folding, as the standard library decides them.

use vstd::prelude::*;

verus! {

/// Whether a character beyond ASCII has the Unicode property `Alphabetic`.
pub uninterp spec fn alphabetic_beyond_ascii(c: char) -> bool;

/// Whether a character beyond ASCII is alphabetic or numeric in Unicode's
/// sense.
pub uninterp spec fn alphanumeric_beyond_ascii(c: char) -> bool;

/// The lowercase form, by Unicode's default case mapping, of a text that
/// holds a character beyond ASCII.
pub uninterp spec fn lowercase_beyond_ascii(s: Seq<char>) -> Seq<char>;

/// `char::is_whitespace` decides membership in the Unicode class
/// `White_Space`, whose members `white_space` lists.
pub assume_specification[ char::is_whitespace ](c: char) -> (b: bool)
    ensures
        b == white_space(c),
;

/// `char::is_alphabetic` decides membership in the Unicode class
/// `Alphabetic`. Within ASCII its members are the letters `a` to `z` and
/// `A` to `Z`; beyond ASCII the class is a fixed table, named and not
/// spelled out.
pub assume_specification[ char::is_alphabetic ](c: char) -> (b: bool)
    ensures
        ascii(c) ==> b == ascii_letter(c),
        !ascii(c) ==> b == alphabetic_beyond_ascii(c),
;

/// `char::is_alphanumeric` decides membership in the union of Unicode's
/// alphabetic and numeric classes. Within ASCII its members are the letters
/// and the digits `0` to `9`; beyond ASCII it is a fixed table, named and
/// not spelled out.
pub assume_specification[ char::is_alphanumeric ](c: char) -> (b: bool)
    ensures
        ascii(c) ==> b == (ascii_letter(c) || is_digit(c)),
        !ascii(c) ==> b == alphanumeric_beyond_ascii(c),
;

/// `char::is_ascii_digit` is true exactly of the ten characters `0` to `9`.
pub assume_specification[ char::is_ascii_digit ](c: &char) -> (b: bool)
    ensures
        b == is_digit(*c),
;

/// `str::to_lowercase` returns the lowercase form of the whole text as a new
/// `String`; it depends on the text alone. In a text of ASCII characters
/// each of `A` to `Z` becomes its small letter and nothing else changes;
/// the lowercase form of any other text is named and not spelled out.
pub assume_specification[ str::to_lowercase ](s: &str) -> (r: String)
    ensures
        ascii_text(s@) ==> r@ == ascii_lowercase(s@),
        !ascii_text(s@) ==> r@ == lowercase_beyond_ascii(s@),
;

/// `String::push` appends one character at the end.
pub assume_specification[ String::push ](s: &mut String, c: char)
    ensures
        final(s)@ == old(s)@.push(c),
;

/// `PartialEq::eq` of `str`: two string slices are equal exactly when they
/// hold the same characters in the same order.
pub assume_specification[ <str as PartialEq>::eq ](a: &str, b: &str) -> (r: bool)
    ensures
        r == (a@ == b@),
;

/// The characters with the Unicode property `White_Space`: tab to carriage
/// return, the space, next line, the no-break space, the ogham space mark,
/// en quad to hair space, the line and paragraph separators, the narrow
/// no-break space, the medium mathematical space and the ideographic space.
pub open spec fn white_space(c: char) -> bool {
    let u = c as u32;
    ||| 0x09 <= u <= 0x0D
    ||| u == 0x20
    ||| u == 0x85
    ||| u == 0xA0
    ||| u == 0x1680
    ||| 0x2000 <= u <= 0x200A
    ||| u == 0x2028
    ||| u == 0x2029
    ||| u == 0x202F
    ||| u == 0x205F
    ||| u == 0x3000
}

/// The characters of ASCII.
pub open spec fn ascii(c: char) -> bool {
    (c as u32) < 128
}

/// The letters of ASCII: `a` to `z` and `A` to `Z`.
pub open spec fn ascii_letter(c: char) -> bool {
    ||| 'a' as u32 <= c as u32 <= 'z' as u32
    ||| 'A' as u32 <= c as u32 <= 'Z' as u32
}

/// Whether `c` has the Unicode property `Alphabetic`.
pub open spec fn alphabetic(c: char) -> bool {
    if ascii(c) {
        ascii_letter(c)
    } else {
        alphabetic_beyond_ascii(c)
    }
}

/// Whether `c` is alphabetic or numeric in Unicode's sense.
pub open spec fn alphanumeric(c: char) -> bool {
    if ascii(c) {
        ascii_letter(c) || is_digit(c)
    } else {
        alphanumeric_beyond_ascii(c)
    }
}

/// The small letter of a capital letter of ASCII; any other character as
/// it is.
pub open spec fn ascii_lower(c: char) -> char {
    if 'A' as u32 <= c as u32 <= 'Z' as u32 {
        ((c as u32) + 32) as char
    } else {
        c
    }
}

/// Whether every character of `s` is of ASCII.
pub open spec fn ascii_text(s: Seq<char>) -> bool {
    forall|i: int| 0 <= i < s.len() ==> ascii(#[trigger] s[i])
}

/// The text `s` with each capital letter of ASCII made small.
pub open spec fn ascii_lowercase(s: Seq<char>) -> Seq<char> {
    s.map_values(|c: char| ascii_lower(c))
}

/// The lowercase form of a text, by Unicode's default case mapping.
pub open spec fn lowercase(s: Seq<char>) -> Seq<char> {
    if ascii_text(s) {
        ascii_lowercase(s)
    } else {
        lowercase_beyond_ascii(s)
    }
}

/// The decimal digits `0` to `9`.
pub open spec fn is_digit(c: char) -> bool {
    '0' as u32 <= c as u32 <= '9' as u32
}

/// The characters of which operators are made: `+ - * / = < >`.
pub open spec fn is_operator(c: char) -> bool {
    c == '+' || c == '-' || c == '*' || c == '/' || c == '=' || c == '<' || c == '>'
}

/// Whether `c` may continue an identifier: alphanumeric or an underscore.
pub open spec fn is_identifier_part(c: char) -> bool {
    c == '_' || alphanumeric(c)
}

/// Decides `is_operator`.
pub fn operator_char(c: char) -> (b: bool)
    ensures
        b == is_operator(c),
{
    c == '+' || c == '-' || c == '*' || c == '/' || c == '=' || c == '<' || c == '>'
}

/// Decides `is_identifier_part`.
pub fn identifier_part_char(c: char) -> (b: bool)
    ensures
        b == is_identifier_part(c),
{
    c == '_' || c.is_alphanumeric()
}

} // verus!
