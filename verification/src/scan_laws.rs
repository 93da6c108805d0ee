//! What holds of every scanned text.

use crate::keyword::{is_reserved_word, normalized};
use crate::scan::{
    char_at, in_class, is_kept, lemma_assignment_is_one_token, lemma_next_token_bounds,
    lemma_operator_pair_is_one_token, lemma_run_end_bounds, lemma_scan_token_bounds, next_token,
    paren_close, position_after, run_end, scan_token, tokenize, CharClass, LexErrorKind,
    LexFailure, Scanned,
};
use crate::text::{
    ascii_letter, ascii_lower, ascii_lowercase, ascii_text, is_digit, is_operator, lowercase,
    white_space,
};
use crate::token::{Lexeme, TokenKind};
use vstd::prelude::*;

verus! {

/// The final token sequence of any text holds no comment and no end marker.
pub proof fn lemma_no_comment_is_kept(s: Seq<char>, start: (int, int))
    ensures
        tokenize(s, start) is Ok ==> forall|i: int|
            0 <= i < tokenize(s, start)->Ok_0.len() ==> is_kept(
                #[trigger] tokenize(s, start)->Ok_0[i].kind,
            ),
    decreases s.len(),
{
    if s.len() > 0 {
        let reading = next_token(s, start);
        lemma_next_token_bounds(s, start);
        if reading.outcome is Ok {
            lemma_no_comment_is_kept(
                s.skip(reading.used),
                position_after(s, reading.used, start),
            );
        }
    }
}

/// Whether a category may stand in a final token sequence: no comment and
/// no end marker; a keyword is the lowercase form of some word and
/// reserved; an identifier is the lowercase form of some word and not
/// reserved.
pub open spec fn is_final_kind(kind: TokenKind) -> bool {
    match kind {
        TokenKind::Comment(_) => false,
        TokenKind::Eof => false,
        TokenKind::Keyword(text) => is_reserved_word(text) && exists|word: Seq<char>|
            text == lowercase(word),
        TokenKind::Identifier(text) => !is_reserved_word(text) && exists|word: Seq<char>|
            text == lowercase(word),
        _ => true,
    }
}

/// Every token of the final sequence of any text has a final category: in
/// particular, keywords and identifiers are in lowercase, and a word is a
/// keyword exactly where it is reserved.
pub proof fn lemma_final_kinds(s: Seq<char>, start: (int, int))
    ensures
        tokenize(s, start) is Ok ==> forall|i: int|
            0 <= i < tokenize(s, start)->Ok_0.len() ==> is_final_kind(
                #[trigger] tokenize(s, start)->Ok_0[i].kind,
            ),
    decreases s.len(),
{
    if s.len() > 0 {
        let reading = next_token(s, start);
        lemma_next_token_bounds(s, start);
        lemma_run_end_bounds(s, 0, CharClass::Whitespace);
        if reading.outcome is Ok {
            lemma_final_kinds(s.skip(reading.used), position_after(s, reading.used, start));
        }
    }
}

/// A run over characters that are all in the class reaches the end of the
/// text.
pub proof fn lemma_run_to_the_end(s: Seq<char>, i: int, k: CharClass)
    requires
        0 <= i <= s.len(),
        forall|j: int| i <= j < s.len() ==> in_class(k, #[trigger] s[j]),
    ensures
        run_end(s, i, k) == s.len(),
{
    lemma_run_end_bounds(s, i, k);
}

/// A curly comment that the text never closes is an error of the kind
/// `UnterminatedComment` at the position of its opening brace, for the
/// reading and for the whole text.
pub proof fn lemma_open_comment_is_an_error(s: Seq<char>, start: (int, int))
    requires
        run_end(s, 0, CharClass::Whitespace) < s.len(),
        s[run_end(s, 0, CharClass::Whitespace)] == '{',
        forall|j: int| run_end(s, 0, CharClass::Whitespace) < j < s.len() ==> s[j] != '}',
    ensures
        next_token(s, start).outcome == Err::<Lexeme, LexFailure>(
            LexFailure {
                kind: LexErrorKind::UnterminatedComment,
                line: position_after(s, run_end(s, 0, CharClass::Whitespace), start).0,
                col: position_after(s, run_end(s, 0, CharClass::Whitespace), start).1,
            },
        ),
        tokenize(s, start) == Err::<Seq<Lexeme>, LexFailure>(
            LexFailure {
                kind: LexErrorKind::UnterminatedComment,
                line: position_after(s, run_end(s, 0, CharClass::Whitespace), start).0,
                col: position_after(s, run_end(s, 0, CharClass::Whitespace), start).1,
            },
        ),
{
    lemma_run_end_bounds(s, 0, CharClass::Whitespace);
    let b = run_end(s, 0, CharClass::Whitespace);
    let body = s.skip(b).skip(1);
    assert forall|j: int| 0 <= j < body.len() implies in_class(
        CharClass::CurlyBody,
        #[trigger] body[j],
    ) by {
        assert(body[j] == s[b + 1 + j]);
    }
    lemma_run_to_the_end(body, 0, CharClass::CurlyBody);
}

/// Where no `)` from index `i` on stands right after a `*`, the search for
/// the end of a parenthesis comment reaches the end of the text.
pub proof fn lemma_paren_never_closes(s: Seq<char>, i: int, after_star: bool)
    requires
        0 <= i <= s.len(),
        i < s.len() ==> !(s[i] == ')' && after_star),
        forall|j: int| i < j < s.len() ==> !(#[trigger] s[j] == ')' && s[j - 1] == '*'),
    ensures
        paren_close(s, i, after_star) == s.len(),
    decreases s.len() - i,
{
    if i < s.len() {
        lemma_paren_never_closes(s, i + 1, s[i] == '*');
    }
}

/// A parenthesis comment that the text never closes is an error of the
/// kind `UnterminatedComment` at the position of its opening parenthesis.
pub proof fn lemma_open_paren_comment_is_an_error(s: Seq<char>, start: (int, int))
    requires
        run_end(s, 0, CharClass::Whitespace) + 1 < s.len(),
        s[run_end(s, 0, CharClass::Whitespace)] == '(',
        s[run_end(s, 0, CharClass::Whitespace) + 1] == '*',
        forall|j: int|
            run_end(s, 0, CharClass::Whitespace) + 1 < j < s.len() ==> !(#[trigger] s[j] == ')'
                && s[j - 1] == '*'),
    ensures
        tokenize(s, start) == Err::<Seq<Lexeme>, LexFailure>(
            LexFailure {
                kind: LexErrorKind::UnterminatedComment,
                line: position_after(s, run_end(s, 0, CharClass::Whitespace), start).0,
                col: position_after(s, run_end(s, 0, CharClass::Whitespace), start).1,
            },
        ),
{
    lemma_run_end_bounds(s, 0, CharClass::Whitespace);
    let b = run_end(s, 0, CharClass::Whitespace);
    let body = s.skip(b).skip(1);
    assert(body[0] == s[b + 1]);
    assert forall|j: int| 0 < j < body.len() implies !(#[trigger] body[j] == ')' && body[j - 1]
        == '*') by {
        assert(body[j] == s[b + 1 + j]);
        assert(body[j - 1] == s[b + 1 + j - 1]);
    }
    lemma_paren_never_closes(body, 0, false);
}

/// Whether position `a` is at or before position `b`.
pub open spec fn position_le(a: (int, int), b: (int, int)) -> bool {
    a.0 < b.0 || (a.0 == b.0 && a.1 <= b.1)
}

/// Reading more characters never leads to an earlier position.
pub proof fn lemma_position_monotone(s: Seq<char>, a: int, b: int, start: (int, int))
    requires
        0 <= a <= b <= s.len(),
    ensures
        position_le(position_after(s, a, start), position_after(s, b, start)),
    decreases b - a,
{
    if a < b {
        lemma_position_monotone(s, a, b - 1, start);
    }
}

/// The tokens of the final sequence stand in source order: none is placed
/// before the start of the text, and none before a token that precedes it
/// in the sequence.
pub proof fn lemma_positions_ordered(s: Seq<char>, start: (int, int))
    ensures
        tokenize(s, start) is Ok ==> {
            let found = tokenize(s, start)->Ok_0;
            &&& forall|i: int|
                0 <= i < found.len() ==> position_le(
                    start,
                    (#[trigger] found[i].line, found[i].col),
                )
            &&& forall|i: int, j: int|
                0 <= i <= j < found.len() ==> position_le(
                    (#[trigger] found[i].line, found[i].col),
                    (#[trigger] found[j].line, found[j].col),
                )
        },
    decreases s.len(),
{
    if s.len() > 0 && tokenize(s, start) is Ok {
        let reading = next_token(s, start);
        lemma_next_token_bounds(s, start);
        lemma_run_end_bounds(s, 0, CharClass::Whitespace);
        let b = run_end(s, 0, CharClass::Whitespace);
        let after = position_after(s, reading.used, start);
        let rest = tokenize(s.skip(reading.used), after)->Ok_0;
        lemma_positions_ordered(s.skip(reading.used), after);
        if b < s.len() {
            lemma_scan_token_bounds(s.skip(b));
        }
        lemma_position_monotone(s, 0, b, start);
        lemma_position_monotone(s, b, reading.used, start);
        let first = reading.outcome->Ok_0;
        let found = tokenize(s, start)->Ok_0;
        if is_kept(first.kind) {
            assert forall|i: int| 0 <= i < found.len() implies position_le(
                (first.line, first.col),
                (#[trigger] found[i].line, found[i].col),
            ) by {
                if i > 0 {
                    assert(found[i] == rest[i - 1]);
                }
            }
            assert forall|i: int, j: int| 0 <= i <= j < found.len() implies position_le(
                (#[trigger] found[i].line, found[i].col),
                (#[trigger] found[j].line, found[j].col),
            ) by {
                if i > 0 {
                    assert(found[i] == rest[i - 1]);
                    assert(found[j] == rest[j - 1]);
                }
            }
        }
    }
}

/// Lines and columns are counted from one: from a start at or after line 1,
/// column 1, every position reached is so too.
pub proof fn lemma_position_positive(s: Seq<char>, n: int, start: (int, int))
    requires
        start.0 >= 1,
        start.1 >= 1,
    ensures
        position_after(s, n, start).0 >= 1,
        position_after(s, n, start).1 >= 1,
    decreases n,
{
    if 0 < n <= s.len() {
        lemma_position_positive(s, n - 1, start);
    }
}

/// Every token of the final sequence has a line and a column of at least
/// one.
pub proof fn lemma_token_positions_positive(s: Seq<char>, start: (int, int))
    requires
        start.0 >= 1,
        start.1 >= 1,
    ensures
        tokenize(s, start) is Ok ==> forall|i: int|
            0 <= i < tokenize(s, start)->Ok_0.len() ==> (#[trigger] tokenize(
                s,
                start,
            )->Ok_0[i]).line >= 1 && tokenize(s, start)->Ok_0[i].col >= 1,
    decreases s.len(),
{
    if s.len() > 0 && tokenize(s, start) is Ok {
        let reading = next_token(s, start);
        lemma_next_token_bounds(s, start);
        lemma_position_positive(s, run_end(s, 0, CharClass::Whitespace), start);
        lemma_position_positive(s, reading.used, start);
        lemma_token_positions_positive(
            s.skip(reading.used),
            position_after(s, reading.used, start),
        );
    }
}

/// Whether position `a` is before position `b`.
pub open spec fn position_lt(a: (int, int), b: (int, int)) -> bool {
    a.0 < b.0 || (a.0 == b.0 && a.1 < b.1)
}

/// Reading at least one more character leads to a later position.
pub proof fn lemma_position_strict(s: Seq<char>, a: int, b: int, start: (int, int))
    requires
        0 <= a < b <= s.len(),
    ensures
        position_lt(position_after(s, a, start), position_after(s, b, start)),
    decreases b - a,
{
    if a < b - 1 {
        lemma_position_strict(s, a, b - 1, start);
    }
}

/// An operator token begins with the character that the scan began with.
pub proof fn lemma_operator_first_char(s: Seq<char>)
    requires
        s.len() > 0,
        scan_token(s) is Done,
        scan_token(s)->Done_kind is Operator,
    ensures
        scan_token(s)->Done_kind->Operator_0.len() >= 1,
        scan_token(s)->Done_kind->Operator_0[0] == s[0],
{
}

/// Where the first token of the final sequence stands at the very start of
/// the text, no whitespace and no comment stands before it: it is what the
/// scan of the text gives.
pub proof fn lemma_first_token_at_start(s: Seq<char>, start: (int, int))
    requires
        tokenize(s, start) is Ok,
        tokenize(s, start)->Ok_0.len() > 0,
        tokenize(s, start)->Ok_0[0].line == start.0,
        tokenize(s, start)->Ok_0[0].col == start.1,
    ensures
        s.len() > 0,
        run_end(s, 0, CharClass::Whitespace) == 0,
        scan_token(s) is Done,
        is_kept(scan_token(s)->Done_kind),
        tokenize(s, start)->Ok_0[0].kind == normalized(scan_token(s)->Done_kind),
{
    let reading = next_token(s, start);
    lemma_next_token_bounds(s, start);
    lemma_run_end_bounds(s, 0, CharClass::Whitespace);
    let b = run_end(s, 0, CharClass::Whitespace);
    let after = position_after(s, reading.used, start);
    let rest = tokenize(s.skip(reading.used), after)->Ok_0;
    lemma_positions_ordered(s.skip(reading.used), after);
    if b < s.len() {
        lemma_scan_token_bounds(s.skip(b));
    }
    lemma_position_monotone(s, b, reading.used, start);
    if b > 0 {
        lemma_position_strict(s, 0, b, start);
        if rest.len() > 0 {
            assert(position_le(after, (rest[0].line, rest[0].col)));
        }
        assert(false);
    } else {
        assert(s.skip(0) =~= s);
        if !is_kept(reading.outcome->Ok_0.kind) {
            lemma_position_strict(s, 0, reading.used, start);
            assert(position_le(after, (rest[0].line, rest[0].col)));
            assert(false);
        }
    }
}

/// Whether the tokens at `i` and `i + 1` are a colon and an operator `=` in
/// the very next column of the same line.
pub open spec fn is_split_assignment(found: Seq<Lexeme>, i: int) -> bool {
    &&& 0 <= i
    &&& i + 1 < found.len()
    &&& found[i].kind == TokenKind::Colon
    &&& found[i + 1].kind == TokenKind::Operator(seq!['='])
    &&& found[i + 1].line == found[i].line
    &&& found[i + 1].col == found[i].col + 1
}

/// In the final sequence of any text, no colon is followed by an operator
/// `=` in the very next column of the same line: a colon directly followed
/// by `=` is one assignment operator.
pub proof fn lemma_assignment_never_split(s: Seq<char>, start: (int, int))
    ensures
        tokenize(s, start) is Ok ==> forall|i: int|
            !#[trigger] is_split_assignment(tokenize(s, start)->Ok_0, i),
    decreases s.len(),
{
    if s.len() > 0 && tokenize(s, start) is Ok {
        let found = tokenize(s, start)->Ok_0;
        let reading = next_token(s, start);
        lemma_next_token_bounds(s, start);
        lemma_run_end_bounds(s, 0, CharClass::Whitespace);
        let b = run_end(s, 0, CharClass::Whitespace);
        let after = position_after(s, reading.used, start);
        let tail = s.skip(reading.used);
        let rest = tokenize(tail, after)->Ok_0;
        lemma_assignment_never_split(tail, after);
        let first = reading.outcome->Ok_0;
        if is_kept(first.kind) {
            assert forall|i: int| !#[trigger] is_split_assignment(found, i) by {
                if !(0 <= i && i + 1 < found.len()) {
                } else
                if i > 0 {
                    assert(found[i] == rest[i - 1]);
                    assert(found[i + 1] == rest[i]);
                    assert(!is_split_assignment(rest, i - 1));
                } else {
                    assert(found[1] == rest[0]);
                    if found[0].kind == TokenKind::Colon && rest[0].kind == TokenKind::Operator(
                        seq!['='],
                    ) && rest[0].line == found[0].line && rest[0].col == found[0].col + 1 {
                        let q = s.skip(b);
                        assert(q[0] == s[b]);
                        assert(scan_token(q)->Done_kind == TokenKind::Colon);
                        assert(q[0] == ':' && reading.used == b + 1);
                        lemma_first_token_at_start(tail, after);
                        lemma_operator_first_char(tail);
                        assert(tail[0] == s[b + 1]);
                        assert(q[1] == s[b + 1]);
                        assert(false);
                    }
                }
            }
        }
    }
}

/// A text of exactly two operator characters, neither of them `=`, is one
/// operator token that holds both and stands at the start of the text.
pub proof fn lemma_operator_pair_text(s: Seq<char>, start: (int, int))
    requires
        s.len() == 2,
        is_operator(s[0]),
        is_operator(s[1]),
        s[0] != '=',
        s[1] != '=',
    ensures
        tokenize(s, start) == Ok::<Seq<Lexeme>, LexFailure>(
            seq![Lexeme { kind: TokenKind::Operator(s), line: start.0, col: start.1 }],
        ),
{
    lemma_operator_pair_is_one_token(s);
    assert(s.subrange(0, 2) =~= s);
    assert(s.skip(0) =~= s);
    assert(!white_space(s[0]));
    assert(run_end(s, 0, CharClass::Whitespace) == 0);
    let first = Lexeme { kind: TokenKind::Operator(s), line: start.0, col: start.1 };
    let reading = next_token(s, start);
    assert(reading.used == 2);
    assert(reading.outcome == Ok::<Lexeme, LexFailure>(first));
    assert(s.skip(2).len() == 0);
    assert(tokenize(s.skip(2), position_after(s, 2, start)) == Ok::<Seq<Lexeme>, LexFailure>(
        Seq::empty(),
    ));
    assert(seq![first] + Seq::<Lexeme>::empty() =~= seq![first]);
}

/// A text that is exactly `:=` is one assignment operator at the start of
/// the text.
pub proof fn lemma_assignment_text(s: Seq<char>, start: (int, int))
    requires
        s.len() == 2,
        s[0] == ':',
        s[1] == '=',
    ensures
        tokenize(s, start) == Ok::<Seq<Lexeme>, LexFailure>(
            seq![Lexeme { kind: TokenKind::AssignmentOperator, line: start.0, col: start.1 }],
        ),
{
    lemma_assignment_is_one_token(s);
    assert(s.skip(0) =~= s);
    assert(!white_space(s[0]));
    assert(run_end(s, 0, CharClass::Whitespace) == 0);
    let first = Lexeme { kind: TokenKind::AssignmentOperator, line: start.0, col: start.1 };
    let reading = next_token(s, start);
    assert(reading.used == 2);
    assert(reading.outcome == Ok::<Lexeme, LexFailure>(first));
    assert(s.skip(2).len() == 0);
    assert(tokenize(s.skip(2), position_after(s, 2, start)) == Ok::<Seq<Lexeme>, LexFailure>(
        Seq::empty(),
    ));
    assert(seq![first] + Seq::<Lexeme>::empty() =~= seq![first]);
}

/// Whether `w` is a word of ASCII: a letter or an underscore first, then
/// letters, digits and underscores.
pub open spec fn is_ascii_word(w: Seq<char>) -> bool {
    &&& w.len() > 0
    &&& ascii_letter(w[0]) || w[0] == '_'
    &&& forall|i: int|
        0 <= i < w.len() ==> ascii_letter(#[trigger] w[i]) || is_digit(w[i]) || w[i] == '_'
}

/// The token that a word of ASCII makes: a keyword where its form in small
/// letters is reserved, an identifier of that form otherwise.
pub open spec fn word_kind(w: Seq<char>) -> TokenKind {
    if is_reserved_word(ascii_lowercase(w)) {
        TokenKind::Keyword(ascii_lowercase(w))
    } else {
        TokenKind::Identifier(ascii_lowercase(w))
    }
}

/// A text that is one word of ASCII is one token at the start of the text:
/// the word in small letters, as a keyword where that is reserved and as an
/// identifier otherwise.
pub proof fn lemma_word_is_one_token(w: Seq<char>, start: (int, int))
    requires
        is_ascii_word(w),
    ensures
        tokenize(w, start) == Ok::<Seq<Lexeme>, LexFailure>(
            seq![Lexeme { kind: word_kind(w), line: start.0, col: start.1 }],
        ),
{
    let n = w.len() as int;
    assert(w.skip(0) =~= w);
    assert(ascii_letter(w[0]) || is_digit(w[0]) || w[0] == '_');
    assert(!white_space(w[0]));
    assert(run_end(w, 0, CharClass::Whitespace) == 0);
    let rest = w.skip(1);
    assert forall|j: int| 0 <= j < rest.len() implies in_class(
        CharClass::IdentifierPart,
        #[trigger] rest[j],
    ) by {
        assert(rest[j] == w[j + 1]);
    }
    lemma_run_to_the_end(rest, 0, CharClass::IdentifierPart);
    assert(seq![w[0]] + rest.subrange(0, n - 1) =~= w);
    if n == 1 {
        assert(seq![w[0]] =~= w);
    } else {
        assert(char_at(w, 1) == w[1]);
    }
    assert(scan_token(w) == Scanned::Done { kind: TokenKind::Identifier(w), used: n });
    assert(ascii_text(w));
    let first = Lexeme { kind: word_kind(w), line: start.0, col: start.1 };
    let reading = next_token(w, start);
    assert(reading.used == n);
    assert(w.skip(n).len() == 0);
    assert(tokenize(w.skip(n), position_after(w, n, start)) == Ok::<Seq<Lexeme>, LexFailure>(
        Seq::empty(),
    ));
    assert(seq![first] + Seq::<Lexeme>::empty() =~= seq![first]);
}

/// Scanning is blind to case: a word of ASCII and the same word in small
/// letters give the same final sequence.
pub proof fn lemma_scanning_ignores_case(w: Seq<char>, start: (int, int))
    requires
        is_ascii_word(w),
    ensures
        tokenize(w, start) == tokenize(ascii_lowercase(w), start),
{
    let low = ascii_lowercase(w);
    assert forall|i: int| 0 <= i < low.len() implies (ascii_letter(#[trigger] low[i]) || is_digit(
        low[i],
    ) || low[i] == '_') && ascii_lower(low[i]) == low[i] by {
        assert(low[i] == ascii_lower(w[i]));
        assert(ascii_letter(w[i]) || is_digit(w[i]) || w[i] == '_');
    }
    assert(ascii_letter(low[0]) || low[0] == '_') by {
        assert(low[0] == ascii_lower(w[0]));
    }
    assert(ascii_lowercase(low) =~= low);
    lemma_word_is_one_token(w, start);
    lemma_word_is_one_token(low, start);
}

} // verus!
