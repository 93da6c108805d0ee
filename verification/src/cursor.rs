//! The look-ahead iterators that the scanner and the declaration parser read
//! from, and what is assumed of them.

use crate::token::Token;
use multipeek::MultiPeek;
use std::slice::Iter;
use std::str::Chars;
use vstd::prelude::*;

verus! {

/// `multipeek::MultiPeek`, the iterator adapter with look-ahead. Nothing
/// inside it is visible here; what it has yet to yield is named by
/// `pending_chars` and `pending_tokens`.
#[verifier::external_type_specification]
#[verifier::external_body]
#[verifier::reject_recursive_types(I)]
pub struct ExMultiPeek<I: Iterator>(MultiPeek<I>);

/// The characters that a look-ahead iterator over a text has yet to yield,
/// next first.
pub uninterp spec fn pending_chars(it: &MultiPeek<Chars<'_>>) -> Seq<char>;

/// `multipeek::multipeek` over `str::chars`: a fresh iterator that will
/// yield every character of the text in order. A string slice holds at most
/// `isize::MAX` bytes and every character takes at least one of them.
#[verifier::external_body]
pub(crate) fn open_chars<'a>(source: &'a str) -> (it: MultiPeek<Chars<'a>>)
    ensures
        pending_chars(&it) == source@,
        pending_chars(&it).len() <= isize::MAX,
{
    multipeek::multipeek(source.chars())
}

/// `MultiPeek::peek`: the next character, if any is left; nothing is
/// consumed.
#[verifier::external_body]
pub(crate) fn peek_char(it: &mut MultiPeek<Chars<'_>>) -> (r: Option<char>)
    ensures
        pending_chars(final(it)) == pending_chars(old(it)),
        r == if pending_chars(old(it)).len() > 0 {
            Some(pending_chars(old(it))[0])
        } else {
            None
        },
{
    it.peek().copied()
}

/// `MultiPeek::peek_nth`: the character `n` places after the next one, if the
/// text reaches that far; nothing is consumed.
#[verifier::external_body]
pub(crate) fn peek_char_nth(it: &mut MultiPeek<Chars<'_>>, n: usize) -> (r: Option<char>)
    ensures
        pending_chars(final(it)) == pending_chars(old(it)),
        r == if n < pending_chars(old(it)).len() {
            Some(pending_chars(old(it))[n as int])
        } else {
            None
        },
{
    it.peek_nth(n).copied()
}

/// `MultiPeek::next`: yields the next character and drops it from what is
/// pending; `None` at the end, where nothing changes.
#[verifier::external_body]
pub(crate) fn next_char(it: &mut MultiPeek<Chars<'_>>) -> (r: Option<char>)
    ensures
        pending_chars(old(it)).len() == 0 ==> r is None && pending_chars(final(it))
            == pending_chars(old(it)),
        pending_chars(old(it)).len() > 0 ==> r == Some(pending_chars(old(it))[0])
            && pending_chars(final(it)) == pending_chars(old(it)).skip(1),
{
    it.next()
}

/// The tokens that a look-ahead iterator over a token sequence has yet to
/// yield, next first.
pub uninterp spec fn pending_tokens(it: &MultiPeek<Iter<'_, Token>>) -> Seq<Token>;

/// `multipeek::multipeek` over a vector of tokens: a fresh iterator that
/// will yield a reference to every token in order.
#[verifier::external_body]
pub(crate) fn open_tokens<'a>(tokens: &'a Vec<Token>) -> (it: MultiPeek<Iter<'a, Token>>)
    ensures
        pending_tokens(&it) == tokens@,
{
    multipeek::multipeek(tokens)
}

/// `MultiPeek::peek`: the next token, if any is left; nothing is consumed.
#[verifier::external_body]
pub(crate) fn peek_token<'a>(it: &mut MultiPeek<Iter<'a, Token>>) -> (r: Option<&'a Token>)
    ensures
        pending_tokens(final(it)) == pending_tokens(old(it)),
        pending_tokens(old(it)).len() == 0 ==> r is None,
        pending_tokens(old(it)).len() > 0 ==> r is Some && *r.unwrap() == pending_tokens(
            old(it),
        )[0],
{
    it.peek().copied()
}

/// `MultiPeek::next`: yields the next token and drops it from what is
/// pending; `None` at the end, where nothing changes.
#[verifier::external_body]
pub(crate) fn take_token<'a>(it: &mut MultiPeek<Iter<'a, Token>>) -> (r: Option<&'a Token>)
    ensures
        pending_tokens(old(it)).len() == 0 ==> r is None && pending_tokens(final(it))
            == pending_tokens(old(it)),
        pending_tokens(old(it)).len() > 0 ==> r is Some && *r.unwrap() == pending_tokens(
            old(it),
        )[0] && pending_tokens(final(it)) == pending_tokens(old(it)).skip(1),
{
    it.next()
}

} // verus!
