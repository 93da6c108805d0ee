//! Reserved words, and the rewriting of identifiers into keywords.

use crate::text::lowercase;
use crate::token::{TokenKind, TokenType};
use vstd::prelude::*;

verus! {

/// The reserved words of the language, in lowercase.
pub open spec fn is_reserved_word(w: Seq<char>) -> bool {
    ||| w == "and"@
    ||| w == "array"@
    ||| w == "asm"@
    ||| w == "begin"@
    ||| w == "case"@
    ||| w == "const"@
    ||| w == "constructor"@
    ||| w == "destructor"@
    ||| w == "div"@
    ||| w == "do"@
    ||| w == "downto"@
    ||| w == "else"@
    ||| w == "end"@
    ||| w == "file"@
    ||| w == "for"@
    ||| w == "function"@
    ||| w == "goto"@
    ||| w == "if"@
    ||| w == "implementation"@
    ||| w == "in"@
    ||| w == "inherited"@
    ||| w == "inline"@
    ||| w == "interface"@
    ||| w == "label"@
    ||| w == "mod"@
    ||| w == "nil"@
    ||| w == "not"@
    ||| w == "object"@
    ||| w == "of"@
    ||| w == "operator"@
    ||| w == "or"@
    ||| w == "packed"@
    ||| w == "procedure"@
    ||| w == "program"@
    ||| w == "record"@
    ||| w == "repeat"@
    ||| w == "set"@
    ||| w == "shl"@
    ||| w == "shr"@
    ||| w == "then"@
    ||| w == "to"@
    ||| w == "type"@
    ||| w == "unit"@
    ||| w == "until"@
    ||| w == "uses"@
    ||| w == "var"@
    ||| w == "while"@
    ||| w == "with"@
    ||| w == "xor"@
}

/// Decides `is_reserved_word`.
pub fn is_reserved(word: &str) -> (b: bool)
    ensures
        b == is_reserved_word(word@),
{
    word.eq("and") || word.eq("array") || word.eq("asm") || word.eq("begin") || word.eq("case")
        || word.eq("const") || word.eq("constructor") || word.eq("destructor") || word.eq("div")
        || word.eq("do") || word.eq("downto") || word.eq("else") || word.eq("end") || word.eq(
        "file",
    ) || word.eq("for") || word.eq("function") || word.eq("goto") || word.eq("if") || word.eq(
        "implementation",
    ) || word.eq("in") || word.eq("inherited") || word.eq("inline") || word.eq("interface")
        || word.eq("label") || word.eq("mod") || word.eq("nil") || word.eq("not") || word.eq(
        "object",
    ) || word.eq("of") || word.eq("operator") || word.eq("or") || word.eq("packed") || word.eq(
        "procedure",
    ) || word.eq("program") || word.eq("record") || word.eq("repeat") || word.eq("set")
        || word.eq("shl") || word.eq("shr") || word.eq("then") || word.eq("to") || word.eq("type")
        || word.eq("unit") || word.eq("until") || word.eq("uses") || word.eq("var") || word.eq(
        "while",
    ) || word.eq("with") || word.eq("xor")
}

/// The final category of a scanned token: an identifier is lowercased, and
/// becomes a keyword where its lowercase form is reserved; every other
/// category stays as it is.
pub open spec fn normalized(kind: TokenKind) -> TokenKind {
    match kind {
        TokenKind::Identifier(text) => if is_reserved_word(lowercase(text)) {
            TokenKind::Keyword(lowercase(text))
        } else {
            TokenKind::Identifier(lowercase(text))
        },
        _ => kind,
    }
}

/// The token that a word in lowercase makes: a keyword where it is
/// reserved, an identifier otherwise.
pub fn keyword_or_identifier(lower: String) -> (r: TokenType)
    ensures
        r@ == if is_reserved_word(lower@) {
            TokenKind::Keyword(lower@)
        } else {
            TokenKind::Identifier(lower@)
        },
{
    if is_reserved(lower.as_str()) {
        TokenType::Keyword(lower)
    } else {
        TokenType::Identifier(lower)
    }
}

/// Rewrites an identifier to its lowercase form, as a keyword where that
/// form is reserved.
pub fn normalize(token_type: TokenType) -> (r: TokenType)
    ensures
        r@ == normalized(token_type@),
{
    match token_type {
        TokenType::Identifier(val) => keyword_or_identifier(val.as_str().to_lowercase()),
        other => other,
    }
}

/// Two spellings of a word that differ only in case give the same token.
pub proof fn lemma_case_insensitive(a: Seq<char>, b: Seq<char>)
    requires
        lowercase(a) == lowercase(b),
    ensures
        normalized(TokenKind::Identifier(a)) == normalized(TokenKind::Identifier(b)),
{
}

} // verus!
