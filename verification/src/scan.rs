//! What scanning means: the lexical rules as functions on sequences of
//! characters, independent of any reader.

use crate::text::{
    alphabetic, alphanumeric, is_digit, is_identifier_part, is_operator, white_space,
};
use crate::keyword::normalized;
use crate::token::{CommentType, Lexeme, TokenKind};
use vstd::prelude::*;

verus! {

/// Why scanning stopped.
#[derive(Debug, Clone, Copy, PartialEq, Eq, Structural)]
pub enum LexErrorKind {
    /// A comment was opened and the text ended before it was closed.
    UnterminatedComment,
    /// A quoted literal was opened and the text ended before it was closed.
    UnterminatedStringLiteral,
    /// A character that starts no token.
    UnexpectedCharacter,
}

/// A lexical error and the position of the first character of the token it
/// arose in.
#[derive(Debug, Clone, Copy, PartialEq, Eq, Structural)]
pub struct LexError {
    pub kind: LexErrorKind,
    pub line: usize,
    pub col: usize,
}

/// What a `LexError` is in contracts.
pub ghost struct LexFailure {
    pub kind: LexErrorKind,
    pub line: int,
    pub col: int,
}

impl View for LexError {
    type V = LexFailure;

    open spec fn view(&self) -> LexFailure {
        LexFailure { kind: self.kind, line: self.line as int, col: self.col as int }
    }
}

/// A class of characters that a run is made of.
#[derive(Debug, Clone, Copy, PartialEq, Eq, Structural)]
pub enum CharClass {
    Whitespace,
    IdentifierPart,
    Digit,
    OperatorSign,
    /// Everything but the brace that closes a curly comment.
    CurlyBody,
}

pub open spec fn in_class(k: CharClass, c: char) -> bool {
    match k {
        CharClass::Whitespace => white_space(c),
        CharClass::IdentifierPart => is_identifier_part(c),
        CharClass::Digit => is_digit(c),
        CharClass::OperatorSign => is_operator(c),
        CharClass::CurlyBody => c != '}',
    }
}

/// The character at index `i`, or the null character outside the text.
pub open spec fn char_at(s: Seq<char>, i: int) -> char {
    if 0 <= i < s.len() {
        s[i]
    } else {
        '\0'
    }
}

/// The first index from `i` on whose character is not in class `k`, or the
/// length of the text if there is none.
pub open spec fn run_end(s: Seq<char>, i: int, k: CharClass) -> int
    decreases s.len() - i,
{
    if 0 <= i < s.len() && in_class(k, s[i]) {
        run_end(s, i + 1, k)
    } else {
        i
    }
}

/// The position, as line and column, after one character read at `pos`.
pub open spec fn step_position(pos: (int, int), c: char) -> (int, int) {
    if c == '\n' {
        (pos.0 + 1, 1)
    } else {
        (pos.0, pos.1 + 1)
    }
}

/// The position after the first `n` characters of `s`, read from `start`.
pub open spec fn position_after(s: Seq<char>, n: int, start: (int, int)) -> (int, int)
    decreases n,
{
    if n <= 0 || n > s.len() {
        start
    } else {
        step_position(position_after(s, n - 1, start), s[n - 1])
    }
}

/// What the first character of a token decides: the category, with the
/// payload so far; whether more characters may belong to the token; and
/// whether the character after the first belongs to it as well.
pub ghost struct Step {
    pub kind: TokenKind,
    pub continue_reading: bool,
    pub should_skip_next: bool,
}

/// The category of a character that is a token by itself.
pub open spec fn symbol_kind(c: char) -> Option<TokenKind> {
    if c == '[' {
        Some(TokenKind::OpenSquareBracket)
    } else if c == ']' {
        Some(TokenKind::CloseSquareBracket)
    } else if c == '^' {
        Some(TokenKind::PointerSymbol)
    } else if c == ';' {
        Some(TokenKind::Semicolon)
    } else if c == '$' {
        Some(TokenKind::DollarSign)
    } else if c == '&' {
        Some(TokenKind::Ampersand)
    } else if c == '@' {
        Some(TokenKind::AtSign)
    } else if c == ')' {
        Some(TokenKind::CloseParenthesis)
    } else if c == '#' {
        Some(TokenKind::Hash)
    } else if c == ':' {
        Some(TokenKind::Colon)
    } else if c == '.' {
        Some(TokenKind::Period)
    } else if c == ',' {
        Some(TokenKind::Comma)
    } else {
        None
    }
}

/// Classifies the first character `c` of a token, given the two characters
/// that follow it (the null character where the text has ended), whether
/// `c` is a letter, and whether the character after it is a letter or a
/// digit. `None` where `c` starts no token. No character starts two kinds of
/// token, so the order of the tests decides nothing; the tests on given
/// characters stand before the one that goes by the table of letters.
pub open spec fn classify_with(
    c: char,
    next: char,
    after: char,
    letter: bool,
    next_alphanumeric: bool,
) -> Option<Step> {
    if c == ':' && next == '=' {
        Some(
            Step {
                kind: TokenKind::AssignmentOperator,
                continue_reading: false,
                should_skip_next: true,
            },
        )
    } else if c == '{' {
        Some(
            Step {
                kind: TokenKind::Comment(CommentType::CurlyBrackets),
                continue_reading: true,
                should_skip_next: false,
            },
        )
    } else if symbol_kind(c) is Some {
        Some(
            Step {
                kind: symbol_kind(c).unwrap(),
                continue_reading: false,
                should_skip_next: false,
            },
        )
    } else if c == '(' {
        if next == '*' {
            Some(
                Step {
                    kind: TokenKind::Comment(CommentType::Parenthesis),
                    continue_reading: true,
                    should_skip_next: false,
                },
            )
        } else {
            Some(
                Step {
                    kind: TokenKind::OpenParenthesis,
                    continue_reading: false,
                    should_skip_next: false,
                },
            )
        }
    } else if c == '\'' {
        Some(
            Step {
                kind: TokenKind::StringLiteral(Seq::empty()),
                continue_reading: !(next == '\'' && after != '\''),
                should_skip_next: next == '\'' && after != '\'',
            },
        )
    } else if is_digit(c) {
        Some(
            Step {
                kind: TokenKind::IntLiteral(seq![c]),
                continue_reading: is_digit(next),
                should_skip_next: false,
            },
        )
    } else if is_operator(c) {
        Some(
            Step {
                kind: TokenKind::Operator(seq![c]),
                continue_reading: c != '=' && is_operator(next),
                should_skip_next: false,
            },
        )
    } else if letter || c == '_' {
        Some(
            Step {
                kind: TokenKind::Identifier(seq![c]),
                continue_reading: next == '_' || next_alphanumeric,
                should_skip_next: false,
            },
        )
    } else {
        None
    }
}

/// Classifies the first character `c` of a token, given the two characters
/// that follow it, with letters and digits as Unicode has them.
pub open spec fn classify(c: char, next: char, after: char) -> Option<Step> {
    classify_with(c, next, after, alphabetic(c), alphanumeric(next))
}

/// In the body of a quoted literal read from index `i`: the index just
/// past the closing quote, or one more than the length of the text where
/// the literal is never closed. A quote followed by a quote is no closing
/// quote.
pub open spec fn quote_end(s: Seq<char>, i: int) -> int
    decreases s.len() - i,
{
    if i < 0 || i >= s.len() {
        s.len() as int + 1
    } else if s[i] == '\'' {
        if char_at(s, i + 1) == '\'' {
            quote_end(s, i + 2)
        } else {
            i + 1
        }
    } else {
        quote_end(s, i + 1)
    }
}

/// The decoded content of a quoted literal whose body starts at index `i`:
/// every character up to the closing quote, a doubled quote counted once.
pub open spec fn quoted_text(s: Seq<char>, i: int) -> Seq<char>
    decreases s.len() - i,
{
    if i < 0 || i >= s.len() {
        Seq::empty()
    } else if s[i] == '\'' {
        if char_at(s, i + 1) == '\'' {
            seq!['\''] + quoted_text(s, i + 2)
        } else {
            Seq::empty()
        }
    } else {
        seq![s[i]] + quoted_text(s, i + 1)
    }
}

/// The first index from `i` on that holds `)` right after a `*`, or the
/// length of the text if there is none. `after_star` says whether the
/// character before index `i` was a `*`.
pub open spec fn paren_close(s: Seq<char>, i: int, after_star: bool) -> int
    decreases s.len() - i,
{
    if i < 0 || i >= s.len() {
        s.len() as int
    } else if s[i] == ')' && after_star {
        i
    } else {
        paren_close(s, i + 1, s[i] == '*')
    }
}

/// The outcome of scanning one token: the finished category or the reason
/// for failure, and the number of characters read.
pub ghost enum Scanned {
    Done { kind: TokenKind, used: int },
    Failed { reason: LexErrorKind, used: int },
}

impl Scanned {
    pub open spec fn used(self) -> int {
        match self {
            Scanned::Done { used, .. } => used,
            Scanned::Failed { used, .. } => used,
        }
    }

    /// The same outcome after `n` more characters were read before it.
    pub open spec fn shifted(self, n: int) -> Scanned {
        match self {
            Scanned::Done { kind, used } => Scanned::Done { kind, used: used + n },
            Scanned::Failed { reason, used } => Scanned::Failed { reason, used: used + n },
        }
    }
}

/// Extends a token of category `kind`, begun by its first character, over
/// the text `s` that follows that character. An operator takes every
/// operator character that follows directly, an `=` among them: `<=-` is
/// one operator of three characters. Only an operator that begins with `=`
/// ends at once, which the first character decides.
pub open spec fn finish(kind: TokenKind, s: Seq<char>) -> Scanned {
    match kind {
        TokenKind::StringLiteral(t) => {
            if quote_end(s, 0) <= s.len() {
                Scanned::Done {
                    kind: TokenKind::StringLiteral(t + quoted_text(s, 0)),
                    used: quote_end(s, 0),
                }
            } else {
                Scanned::Failed {
                    reason: LexErrorKind::UnterminatedStringLiteral,
                    used: s.len() as int,
                }
            }
        },
        TokenKind::Comment(CommentType::CurlyBrackets) => {
            let e = run_end(s, 0, CharClass::CurlyBody);
            if e < s.len() {
                Scanned::Done { kind, used: e + 1 }
            } else {
                Scanned::Failed { reason: LexErrorKind::UnterminatedComment, used: s.len() as int }
            }
        },
        TokenKind::Comment(CommentType::Parenthesis) => {
            let e = paren_close(s, 0, false);
            if e < s.len() {
                Scanned::Done { kind, used: e + 1 }
            } else {
                Scanned::Failed { reason: LexErrorKind::UnterminatedComment, used: s.len() as int }
            }
        },
        TokenKind::Identifier(t) => {
            let e = run_end(s, 0, CharClass::IdentifierPart);
            Scanned::Done { kind: TokenKind::Identifier(t + s.subrange(0, e)), used: e }
        },
        TokenKind::IntLiteral(t) => {
            let e = run_end(s, 0, CharClass::Digit);
            Scanned::Done { kind: TokenKind::IntLiteral(t + s.subrange(0, e)), used: e }
        },
        TokenKind::Operator(t) => {
            let e = run_end(s, 0, CharClass::OperatorSign);
            Scanned::Done { kind: TokenKind::Operator(t + s.subrange(0, e)), used: e }
        },
        _ => Scanned::Done { kind, used: 0 },
    }
}

/// Scans the token that starts at the first character of `s`.
pub open spec fn scan_token(s: Seq<char>) -> Scanned
    recommends
        s.len() > 0,
{
    match classify(s[0], char_at(s, 1), char_at(s, 2)) {
        None => Scanned::Failed { reason: LexErrorKind::UnexpectedCharacter, used: 1 },
        Some(step) => if step.continue_reading {
            finish(step.kind, s.skip(1)).shifted(1)
        } else {
            Scanned::Done {
                kind: step.kind,
                used: if step.should_skip_next {
                    2
                } else {
                    1
                },
            }
        },
    }
}

/// One reading: the token or the failure, and the number of characters
/// read, leading whitespace included.
pub ghost struct Reading {
    pub outcome: Result<Lexeme, LexFailure>,
    pub used: int,
}

/// Reads one token from `s`, whose first character stands at position
/// `start`: skips whitespace, then scans. Where only whitespace is left the
/// token is `Eof`.
pub open spec fn next_token(s: Seq<char>, start: (int, int)) -> Reading {
    let b = run_end(s, 0, CharClass::Whitespace);
    let at = position_after(s, b, start);
    if b >= s.len() {
        Reading { outcome: Ok(Lexeme { kind: TokenKind::Eof, line: at.0, col: at.1 }), used: b }
    } else {
        match scan_token(s.skip(b)) {
            Scanned::Done { kind, used } => Reading {
                outcome: Ok(Lexeme { kind, line: at.0, col: at.1 }),
                used: b + used,
            },
            Scanned::Failed { reason, used } => Reading {
                outcome: Err(LexFailure { kind: reason, line: at.0, col: at.1 }),
                used: b + used,
            },
        }
    }
}

/// A run ends at or after its start and within the text.
pub proof fn lemma_run_end_bounds(s: Seq<char>, i: int, k: CharClass)
    requires
        0 <= i <= s.len(),
    ensures
        i <= run_end(s, i, k) <= s.len(),
        run_end(s, i, k) < s.len() ==> !in_class(k, s[run_end(s, i, k)]),
    decreases s.len() - i,
{
    if i < s.len() && in_class(k, s[i]) {
        lemma_run_end_bounds(s, i + 1, k);
    }
}

/// Reading `a` characters and then `n` more leads to the same position as
/// reading `a + n` at once.
pub proof fn lemma_position_split(s: Seq<char>, a: int, n: int, start: (int, int))
    requires
        0 <= a,
        0 <= n,
        a + n <= s.len(),
    ensures
        position_after(s.skip(a), n, position_after(s, a, start)) == position_after(
            s,
            a + n,
            start,
        ),
    decreases n,
{
    if n > 0 {
        lemma_position_split(s, a, n - 1, start);
        assert(s.skip(a)[n - 1] == s[a + n - 1]);
    }
}

/// A quoted literal that is closed ends within the text, after at least
/// one character.
pub proof fn lemma_quote_end_bounds(s: Seq<char>, i: int)
    requires
        0 <= i <= s.len(),
    ensures
        i < quote_end(s, i) <= s.len() + 1,
    decreases s.len() - i,
{
    if i < s.len() {
        if s[i] == '\'' {
            if char_at(s, i + 1) == '\'' {
                lemma_quote_end_bounds(s, i + 2);
            }
        } else {
            lemma_quote_end_bounds(s, i + 1);
        }
    }
}

/// The closing parenthesis of a comment is found at or after the start of
/// the search and within the text.
pub proof fn lemma_paren_close_bounds(s: Seq<char>, i: int, after_star: bool)
    requires
        0 <= i <= s.len(),
    ensures
        i <= paren_close(s, i, after_star) <= s.len(),
    decreases s.len() - i,
{
    if i < s.len() && !(s[i] == ')' && after_star) {
        lemma_paren_close_bounds(s, i + 1, s[i] == '*');
    }
}

/// Extending a token reads no more than the text holds.
pub proof fn lemma_finish_bounds(kind: TokenKind, s: Seq<char>)
    ensures
        0 <= finish(kind, s).used() <= s.len(),
{
    lemma_run_end_bounds(s, 0, CharClass::CurlyBody);
    lemma_run_end_bounds(s, 0, CharClass::IdentifierPart);
    lemma_run_end_bounds(s, 0, CharClass::Digit);
    lemma_run_end_bounds(s, 0, CharClass::OperatorSign);
    lemma_quote_end_bounds(s, 0);
    lemma_paren_close_bounds(s, 0, false);
}

/// A token takes at least one character and no more than the text holds.
pub proof fn lemma_scan_token_bounds(s: Seq<char>)
    requires
        s.len() > 0,
    ensures
        1 <= scan_token(s).used() <= s.len(),
{
    match classify(s[0], char_at(s, 1), char_at(s, 2)) {
        None => {},
        Some(step) => {
            if step.continue_reading {
                lemma_finish_bounds(step.kind, s.skip(1));
            }
        },
    }
}

/// A reading of a text that is not empty takes at least one character and
/// no more than the text holds.
pub proof fn lemma_next_token_bounds(s: Seq<char>, start: (int, int))
    requires
        s.len() > 0,
    ensures
        1 <= next_token(s, start).used <= s.len(),
{
    lemma_run_end_bounds(s, 0, CharClass::Whitespace);
    let b = run_end(s, 0, CharClass::Whitespace);
    if b < s.len() {
        lemma_scan_token_bounds(s.skip(b));
    }
}

/// Whether a scanned token reaches the final sequence: comments and the
/// end marker do not.
pub open spec fn is_kept(kind: TokenKind) -> bool {
    !(kind is Comment) && !(kind is Eof)
}

/// The final token sequence of a text whose first character stands at
/// position `start`: the tokens in source order, comments dropped,
/// identifiers normalised; or the first lexical error.
pub open spec fn tokenize(s: Seq<char>, start: (int, int)) -> Result<Seq<Lexeme>, LexFailure>
    decreases s.len(),
    via tokenize_decreases
{
    if s.len() == 0 {
        Ok(Seq::empty())
    } else {
        let reading = next_token(s, start);
        match reading.outcome {
            Err(failure) => Err(failure),
            Ok(lexeme) => match tokenize(
                s.skip(reading.used),
                position_after(s, reading.used, start),
            ) {
                Err(failure) => Err(failure),
                Ok(rest) => Ok(
                    if is_kept(lexeme.kind) {
                        seq![Lexeme { kind: normalized(lexeme.kind), ..lexeme }] + rest
                    } else {
                        rest
                    },
                ),
            },
        }
    }
}

#[via_fn]
proof fn tokenize_decreases(s: Seq<char>, start: (int, int)) {
    if s.len() > 0 {
        lemma_next_token_bounds(s, start);
    }
}

/// The tokens `before`, followed by what `after` holds.
pub open spec fn prepend(before: Seq<Lexeme>, after: Result<Seq<Lexeme>, LexFailure>) -> Result<
    Seq<Lexeme>,
    LexFailure,
> {
    match after {
        Ok(rest) => Ok(before + rest),
        Err(failure) => Err(failure),
    }
}

/// A colon directly followed by `=` is read as one assignment operator of
/// two characters, whatever follows.
pub proof fn lemma_assignment_is_one_token(s: Seq<char>)
    requires
        s.len() >= 2,
        s[0] == ':',
        s[1] == '=',
    ensures
        scan_token(s) == (Scanned::Done { kind: TokenKind::AssignmentOperator, used: 2 }),
{
}

/// Wherever the first character after the whitespace is a colon and the
/// one after it is `=`, the reading is one assignment operator at the
/// colon's position, and it ends right after the `=`.
pub proof fn lemma_assignment_reading(s: Seq<char>, start: (int, int))
    requires
        run_end(s, 0, CharClass::Whitespace) + 1 < s.len(),
        s[run_end(s, 0, CharClass::Whitespace)] == ':',
        s[run_end(s, 0, CharClass::Whitespace) + 1] == '=',
    ensures
        next_token(s, start).used == run_end(s, 0, CharClass::Whitespace) + 2,
        next_token(s, start).outcome == Ok::<Lexeme, LexFailure>(
            Lexeme {
                kind: TokenKind::AssignmentOperator,
                line: position_after(s, run_end(s, 0, CharClass::Whitespace), start).0,
                col: position_after(s, run_end(s, 0, CharClass::Whitespace), start).1,
            },
        ),
{
    lemma_run_end_bounds(s, 0, CharClass::Whitespace);
    let b = run_end(s, 0, CharClass::Whitespace);
    lemma_assignment_is_one_token(s.skip(b));
}

/// Two operator characters in a row, neither of them `=`, are read as one
/// operator token that holds them both, and every operator character that
/// follows them directly.
pub proof fn lemma_operator_pair_is_one_token(s: Seq<char>)
    requires
        s.len() >= 2,
        is_operator(s[0]),
        is_operator(s[1]),
        s[0] != '=',
        s[1] != '=',
    ensures
        scan_token(s) == (Scanned::Done {
            kind: TokenKind::Operator(s.subrange(0, run_end(s, 1, CharClass::OperatorSign))),
            used: run_end(s, 1, CharClass::OperatorSign),
        }),
        2 <= run_end(s, 1, CharClass::OperatorSign) <= s.len(),
{
    let rest = s.skip(1);
    lemma_run_shift(s, 1, 0, CharClass::OperatorSign);
    lemma_run_end_bounds(s, 2, CharClass::OperatorSign);
    let e = run_end(rest, 0, CharClass::OperatorSign);
    assert(seq![s[0]] + rest.subrange(0, e) =~= s.subrange(0, e + 1));
}

/// A run in the text after its first `a` characters ends where the run in
/// the whole text ends, counted from `a`.
pub proof fn lemma_run_shift(s: Seq<char>, a: int, i: int, k: CharClass)
    requires
        0 <= a,
        0 <= i,
        a + i <= s.len(),
    ensures
        run_end(s.skip(a), i, k) + a == run_end(s, a + i, k),
    decreases s.len() - a - i,
{
    if a + i < s.len() && in_class(k, s[a + i]) {
        lemma_run_shift(s, a, i + 1, k);
    }
}

} // verus!
