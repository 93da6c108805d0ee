//! The scanner: a reader over the source text that yields one token per
//! call, and the driver that collects the final token sequence.

use crate::cursor::{next_char, open_chars, peek_char, peek_char_nth, pending_chars};
use crate::keyword::{normalize, normalized};
use crate::scan::{
    char_at, classify, classify_with, finish, in_class, is_kept, lemma_finish_bounds, lemma_next_token_bounds,
    lemma_paren_close_bounds, lemma_position_split, lemma_run_end_bounds, next_token,
    paren_close, position_after, prepend, quote_end, quoted_text, run_end, step_position,
    symbol_kind, tokenize, CharClass, LexError, LexErrorKind, LexFailure, Scanned, Step,
};
use crate::text::{identifier_part_char, operator_char};
use crate::token::{lexemes, CommentType, Lexeme, Token, TokenKind, TokenType};
use multipeek::MultiPeek;
use std::str::Chars;
use vstd::prelude::*;

verus! {

/// Decides membership of `c` in the class `k`.
pub fn class_contains(k: CharClass, c: char) -> (b: bool)
    ensures
        b == in_class(k, c),
{
    match k {
        CharClass::Whitespace => c.is_whitespace(),
        CharClass::IdentifierPart => identifier_part_char(c),
        CharClass::Digit => c.is_ascii_digit(),
        CharClass::OperatorSign => operator_char(c),
        CharClass::CurlyBody => c != '}',
    }
}

/// A token in the making, after its first character was read.
#[derive(Debug)]
pub struct ReadTokenResult {
    pub should_skip_next: bool,
    pub continue_reading: bool,
    pub token: Token,
}

impl ReadTokenResult {
    /// A result that holds no token yet: `Eof` at the given position, to be
    /// continued, with nothing to skip.
    pub fn new(col: usize, line: usize) -> (r: Self)
        ensures
            !r.should_skip_next,
            r.continue_reading,
            r.token@ == (Lexeme { kind: TokenKind::Eof, line: line as int, col: col as int }),
    {
        Self {
            should_skip_next: false,
            continue_reading: true,
            token: Token { token_type: TokenType::Eof, col, line },
        }
    }

    /// The decision that this result records.
    pub open spec fn step(&self) -> Step {
        Step {
            kind: self.token.token_type@,
            continue_reading: self.continue_reading,
            should_skip_next: self.should_skip_next,
        }
    }
}

/// What a `Reader` is in contracts.
pub ghost struct ReaderState {
    /// The characters not yet read, next first.
    pub pending: Seq<char>,
    /// Line and column of the next character, counted from one.
    pub line: int,
    pub col: int,
    /// The character read before the last one, and the last one.
    pub prev_char: Option<char>,
    pub current_char: Option<char>,
    pub is_first_char: bool,
}

impl ReaderState {
    pub open spec fn position(self) -> (int, int) {
        (self.line, self.col)
    }
}

/// A cursor over a source text with one and two characters of look-ahead,
/// which keeps count of lines and columns.
pub struct Reader<'a> {
    source_iter: MultiPeek<Chars<'a>>,
    prev_char: Option<char>,
    current_char: Option<char>,
    is_first_char: bool,
    current_col: usize,
    current_line: usize,
}

impl<'a> View for Reader<'a> {
    type V = ReaderState;

    closed spec fn view(&self) -> ReaderState {
        ReaderState {
            pending: pending_chars(&self.source_iter),
            line: self.current_line as int,
            col: self.current_col as int,
            prev_char: self.prev_char,
            current_char: self.current_char,
            is_first_char: self.is_first_char,
        }
    }
}

impl<'a> Reader<'a> {
    /// The counters start at one and cannot overflow on what is left to read.
    pub open spec fn wf(&self) -> bool {
        &&& self@.line >= 1
        &&& self@.col >= 1
        &&& self@.line + self@.pending.len() <= usize::MAX
        &&& self@.col + self@.pending.len() <= usize::MAX
    }

    /// A reader at the start of `source`: line 1, column 1.
    pub fn new(source: &'a str) -> (r: Self)
        ensures
            r.wf(),
            r@ == (ReaderState {
                pending: source@,
                line: 1,
                col: 1,
                prev_char: None,
                current_char: None,
                is_first_char: true,
            }),
    {
        Self {
            is_first_char: true,
            prev_char: None,
            current_char: None,
            source_iter: open_chars(source),
            current_col: 1,
            current_line: 1,
        }
    }

    /// Marks the start of a new token.
    pub fn reset_for_token_read(&mut self)
        ensures
            final(self)@ == (ReaderState { is_first_char: true, ..old(self)@ }),
    {
        self.is_first_char = true;
    }

    /// Whether every character was read.
    pub fn is_eof(&mut self) -> (b: bool)
        ensures
            final(self)@ == old(self)@,
            b == (old(self)@.pending.len() == 0),
    {
        peek_char(&mut self.source_iter).is_none()
    }

    /// The next character, or the null character at the end.
    fn peek(&mut self) -> (c: char)
        ensures
            final(self)@ == old(self)@,
            c == char_at(old(self)@.pending, 0),
    {
        match peek_char(&mut self.source_iter) {
            Some(c) => c,
            None => '\0',
        }
    }

    /// The character after the next one, or the null character past the end.
    fn peek_2(&mut self) -> (c: char)
        ensures
            final(self)@ == old(self)@,
            c == char_at(old(self)@.pending, 1),
    {
        match peek_char_nth(&mut self.source_iter, 1) {
            Some(c) => c,
            None => '\0',
        }
    }

    /// Reads one character and moves the position past it: a newline leads
    /// to column 1 of the next line, any other character to the next column.
    fn read_next_char(&mut self) -> (r: Option<char>)
        requires
            old(self).wf(),
        ensures
            final(self).wf(),
            old(self)@.pending.len() == 0 ==> r is None && final(self)@ == (ReaderState {
                prev_char: old(self)@.current_char,
                current_char: None,
                ..old(self)@
            }),
            old(self)@.pending.len() > 0 ==> r == Some(old(self)@.pending[0]) && final(self)@ == (
            ReaderState {
                pending: old(self)@.pending.skip(1),
                line: step_position(old(self)@.position(), old(self)@.pending[0]).0,
                col: step_position(old(self)@.position(), old(self)@.pending[0]).1,
                prev_char: old(self)@.current_char,
                current_char: r,
                is_first_char: old(self)@.is_first_char,
            }),
    {
        self.prev_char = self.current_char;
        self.current_char = next_char(&mut self.source_iter);
        match self.current_char {
            Some('\n') => {
                self.current_col = 1;
                self.current_line += 1;
            },
            Some(_) => {
                self.current_col += 1;
            },
            None => {},
        }
        self.current_char
    }

    /// Reads on while the next character is in class `k`.
    fn skip_run(&mut self, k: CharClass)
        requires
            old(self).wf(),
        ensures
            final(self).wf(),
            0 <= run_end(old(self)@.pending, 0, k) <= old(self)@.pending.len(),
            final(self)@.pending == old(self)@.pending.skip(run_end(old(self)@.pending, 0, k)),
            final(self)@.position() == position_after(
                old(self)@.pending,
                run_end(old(self)@.pending, 0, k),
                old(self)@.position(),
            ),
    {
        let ghost s = self@.pending;
        let ghost start = self@.position();
        let ghost mut i: int = 0;
        assert(s.skip(0) =~= s);
        loop
            invariant
                self.wf(),
                0 <= i <= s.len(),
                self@.pending == s.skip(i),
                self@.position() == position_after(s, i, start),
                run_end(s, i, k) == run_end(s, 0, k),
            ensures
                run_end(s, 0, k) == i,
            decreases s.len() - i,
        {
            if self.is_eof() {
                break ;
            }
            let c = self.peek();
            if !class_contains(k, c) {
                break ;
            }
            self.read_next_char();
            proof {
                assert(s.skip(i).skip(1) =~= s.skip(i + 1));
                i = i + 1;
            }
        }
    }

    /// Reads on while the next character is in class `k`, and appends what
    /// was read to `text`.
    fn read_run(&mut self, k: CharClass, text: String) -> (r: String)
        requires
            old(self).wf(),
        ensures
            final(self).wf(),
            0 <= run_end(old(self)@.pending, 0, k) <= old(self)@.pending.len(),
            final(self)@.pending == old(self)@.pending.skip(run_end(old(self)@.pending, 0, k)),
            final(self)@.position() == position_after(
                old(self)@.pending,
                run_end(old(self)@.pending, 0, k),
                old(self)@.position(),
            ),
            r@ == text@ + old(self)@.pending.subrange(0, run_end(old(self)@.pending, 0, k)),
    {
        let ghost s = self@.pending;
        let ghost start = self@.position();
        let ghost mut i: int = 0;
        let mut acc = text;
        assert(s.skip(0) =~= s);
        assert(acc@ =~= text@ + s.subrange(0, 0));
        loop
            invariant
                self.wf(),
                0 <= i <= s.len(),
                self@.pending == s.skip(i),
                self@.position() == position_after(s, i, start),
                run_end(s, i, k) == run_end(s, 0, k),
                acc@ == text@ + s.subrange(0, i),
            ensures
                run_end(s, 0, k) == i,
            decreases s.len() - i,
        {
            if self.is_eof() {
                break ;
            }
            let c = self.peek();
            if !class_contains(k, c) {
                break ;
            }
            self.read_next_char();
            acc.push(c);
            proof {
                assert(s.skip(i).skip(1) =~= s.skip(i + 1));
                assert(acc@ =~= text@ + s.subrange(0, i + 1));
                i = i + 1;
            }
        }
        acc
    }

    /// Skips the whitespace before a token.
    fn skip_whitespace(&mut self)
        requires
            old(self).wf(),
        ensures
            final(self).wf(),
            0 <= run_end(old(self)@.pending, 0, CharClass::Whitespace) <= old(self)@.pending.len(),
            final(self)@.pending == old(self)@.pending.skip(
                run_end(old(self)@.pending, 0, CharClass::Whitespace),
            ),
            final(self)@.position() == position_after(
                old(self)@.pending,
                run_end(old(self)@.pending, 0, CharClass::Whitespace),
                old(self)@.position(),
            ),
    {
        self.skip_run(CharClass::Whitespace);
    }

    /// Reads the body of a quoted literal up to and including its closing
    /// quote and appends its decoded content to `text`; `None` where the
    /// text ends first.
    fn read_quoted(&mut self, text: String) -> (r: Option<String>)
        requires
            old(self).wf(),
        ensures
            final(self).wf(),
            ({
                let s = old(self)@.pending;
                let e = quote_end(s, 0);
                let used = if e <= s.len() {
                    e
                } else {
                    s.len() as int
                };
                &&& 0 <= used <= s.len()
                &&& final(self)@.pending == s.skip(used)
                &&& final(self)@.position() == position_after(s, used, old(self)@.position())
                &&& e <= s.len() ==> r is Some && r.unwrap()@ == text@ + quoted_text(s, 0)
                &&& e > s.len() ==> r is None
            }),
    {
        let ghost s = self@.pending;
        let ghost start = self@.position();
        let ghost mut i: int = 0;
        let mut acc = text;
        assert(s.skip(0) =~= s);
        loop
            invariant
                self.wf(),
                0 <= i <= s.len(),
                self@.pending == s.skip(i),
                self@.position() == position_after(s, i, start),
                s == old(self)@.pending,
                start == old(self)@.position(),
                quote_end(s, i) == quote_end(s, 0),
                acc@ + quoted_text(s, i) == text@ + quoted_text(s, 0),
            decreases s.len() - i,
        {
            match self.read_next_char() {
                None => {
                    return None;
                },
                Some(c) => {
                    assert(s.skip(i).skip(1) =~= s.skip(i + 1));
                    assert(self@.position() == position_after(s, i + 1, start));
                    if c == '\'' {
                        if self.peek() == '\'' {
                            proof {
                                assert((acc@.push('\'')) + quoted_text(s, i + 2) =~= acc@ + (
                                seq!['\''] + quoted_text(s, i + 2)));
                            }
                            acc.push('\'');
                            self.read_next_char();
                            proof {
                                assert(s.skip(i + 1).skip(1) =~= s.skip(i + 2));
                                i = i + 2;
                            }
                        } else {
                            proof {
                                assert(acc@ + quoted_text(s, i) =~= acc@);
                            }
                            return Some(acc);
                        }
                    } else {
                        proof {
                            assert((acc@.push(c)) + quoted_text(s, i + 1) =~= acc@ + (seq![c]
                                + quoted_text(s, i + 1)));
                        }
                        acc.push(c);
                        proof {
                            i = i + 1;
                        }
                    }
                },
            }
        }
    }

    /// Reads a parenthesis comment up to and including the `)` that follows
    /// a `*`; `false` where the text ends first.
    fn read_paren_comment(&mut self) -> (closed: bool)
        requires
            old(self).wf(),
            old(self)@.current_char != Some('*'),
        ensures
            final(self).wf(),
            ({
                let s = old(self)@.pending;
                let e = paren_close(s, 0, false);
                let used = if e < s.len() {
                    e + 1
                } else {
                    s.len() as int
                };
                &&& 0 <= e <= s.len()
                &&& final(self)@.pending == s.skip(used)
                &&& final(self)@.position() == position_after(s, used, old(self)@.position())
                &&& closed == (e < s.len())
            }),
    {
        let ghost s = self@.pending;
        let ghost start = self@.position();
        let ghost mut i: int = 0;
        assert(s.skip(0) =~= s);
        proof {
            lemma_paren_close_bounds(s, 0, false);
        }
        loop
            invariant
                self.wf(),
                0 <= i <= s.len(),
                self@.pending == s.skip(i),
                self@.position() == position_after(s, i, start),
                s == old(self)@.pending,
                start == old(self)@.position(),
                paren_close(s, i, self@.current_char == Some('*')) == paren_close(s, 0, false),
            decreases s.len() - i,
        {
            match self.read_next_char() {
                None => {
                    return false;
                },
                Some(c) => {
                    assert(s.skip(i).skip(1) =~= s.skip(i + 1));
                    let after_star = match self.prev_char {
                        Some(p) => p == '*',
                        None => false,
                    };
                    if c == ')' && after_star {
                        return true;
                    }
                    proof {
                        i = i + 1;
                    }
                },
            }
        }
    }

    /// Skips whitespace, reads the first character of the next token and
    /// classifies it. At the end of the text the result is `Eof`, not to be
    /// continued. A character that starts no token is an error.
    fn read_first_char(&mut self) -> (r: Result<ReadTokenResult, LexError>)
        requires
            old(self).wf(),
        ensures
            final(self).wf(),
            ({
                let s = old(self)@.pending;
                let b = run_end(s, 0, CharClass::Whitespace);
                let at = position_after(s, b, old(self)@.position());
                let q = s.skip(b);
                &&& 0 <= b <= s.len()
                &&& b == s.len() ==> {
                    &&& final(self)@.pending == q
                    &&& final(self)@.position() == at
                    &&& r is Ok
                    &&& r.unwrap().step() == (Step {
                        kind: TokenKind::Eof,
                        continue_reading: false,
                        should_skip_next: false,
                    })
                    &&& r.unwrap().token@.line == at.0
                    &&& r.unwrap().token@.col == at.1
                }
                &&& b < s.len() ==> {
                    &&& final(self)@.pending == q.skip(1)
                    &&& final(self)@.position() == position_after(
                        s,
                        b + 1,
                        old(self)@.position(),
                    )
                    &&& final(self)@.current_char == Some(q[0])
                    &&& match classify(q[0], char_at(q, 1), char_at(q, 2)) {
                        None => r is Err && r.unwrap_err()@ == (LexFailure {
                            kind: LexErrorKind::UnexpectedCharacter,
                            line: at.0,
                            col: at.1,
                        }),
                        Some(step) => r is Ok && r.unwrap().step() == step && r.unwrap().token@.line
                            == at.0 && r.unwrap().token@.col == at.1,
                    }
                }
            }),
    {
        let ghost s = self@.pending;
        self.skip_whitespace();
        let ghost b = run_end(s, 0, CharClass::Whitespace);
        let ghost q = s.skip(b);
        let col = self.current_col;
        let line = self.current_line;
        match self.read_next_char() {
            None => {
                let mut result = ReadTokenResult::new(col, line);
                result.continue_reading = false;
                Ok(result)
            },
            Some(chr) => {
                assert(q[0] == s[b]);
                assert(q.skip(1) =~= s.skip(b + 1));
                let next = self.peek();
                let after = self.peek_2();
                assert(next == char_at(q, 1));
                assert(after == char_at(q, 2));
                match first_step(
                    chr,
                    next,
                    after,
                    chr.is_alphabetic(),
                    next.is_alphanumeric(),
                    col,
                    line,
                ) {
                    Some(result) => Ok(result),
                    None => Err(LexError { kind: LexErrorKind::UnexpectedCharacter, line, col }),
                }
            },
        }
    }

    /// Extends the token that `result` begins until its category's rule ends
    /// it. A comment or a quoted literal that the text leaves open is an
    /// error at the token's position.
    fn read_the_rest(&mut self, result: ReadTokenResult) -> (r: Result<Token, LexError>)
        requires
            old(self).wf(),
            result.token.token_type@ == TokenKind::Comment(CommentType::Parenthesis)
                ==> old(self)@.current_char != Some('*'),
        ensures
            final(self).wf(),
            ({
                let s = old(self)@.pending;
                let scanned = finish(result.token.token_type@, s);
                &&& 0 <= scanned.used() <= s.len()
                &&& final(self)@.pending == s.skip(scanned.used())
                &&& final(self)@.position() == position_after(
                    s,
                    scanned.used(),
                    old(self)@.position(),
                )
                &&& match scanned {
                    Scanned::Done { kind, .. } => r is Ok && r.unwrap()@ == (Lexeme {
                        kind,
                        line: result.token@.line,
                        col: result.token@.col,
                    }),
                    Scanned::Failed { reason, .. } => r is Err && r.unwrap_err()@ == (LexFailure {
                        kind: reason,
                        line: result.token@.line,
                        col: result.token@.col,
                    }),
                }
            }),
    {
        let ghost s = self@.pending;
        let col = result.token.col;
        let line = result.token.line;
        proof {
            lemma_finish_bounds(result.token.token_type@, s);
            assert(s.skip(0) =~= s);
        }
        match result.token.token_type {
            TokenType::StringLiteral(val) => {
                match self.read_quoted(val) {
                    Some(text) => Ok(Token { token_type: TokenType::StringLiteral(text), col, line }),
                    None => Err(
                        LexError { kind: LexErrorKind::UnterminatedStringLiteral, line, col },
                    ),
                }
            },
            TokenType::Comment(comment_type) => {
                let closed = match comment_type {
                    CommentType::Parenthesis => self.read_paren_comment(),
                    CommentType::CurlyBrackets => {
                        self.skip_run(CharClass::CurlyBody);
                        proof {
                            let e = run_end(s, 0, CharClass::CurlyBody);
                            lemma_run_end_bounds(s, 0, CharClass::CurlyBody);
                            if e < s.len() {
                                lemma_position_split(s, e, 1, old(self)@.position());
                                assert(s.skip(e).skip(1) =~= s.skip(e + 1));
                            }
                        }
                        self.read_next_char().is_some()
                    },
                };
                if closed {
                    Ok(Token { token_type: TokenType::Comment(comment_type), col, line })
                } else {
                    Err(LexError { kind: LexErrorKind::UnterminatedComment, line, col })
                }
            },
            TokenType::Operator(val) => {
                let text = self.read_run(CharClass::OperatorSign, val);
                Ok(Token { token_type: TokenType::Operator(text), col, line })
            },
            TokenType::Identifier(val) => {
                let text = self.read_run(CharClass::IdentifierPart, val);
                Ok(Token { token_type: TokenType::Identifier(text), col, line })
            },
            TokenType::IntLiteral(val) => {
                let text = self.read_run(CharClass::Digit, val);
                Ok(Token { token_type: TokenType::IntLiteral(text), col, line })
            },
            other => Ok(Token { token_type: other, col, line }),
        }
    }

    /// Reads the next token: skips whitespace, classifies the first
    /// character and extends the token as far as its category allows. Where
    /// only whitespace is left, the token is `Eof`.
    pub fn read_token(&mut self) -> (r: Result<Token, LexError>)
        requires
            old(self).wf(),
        ensures
            final(self).wf(),
            ({
                let reading = next_token(old(self)@.pending, old(self)@.position());
                &&& 0 <= reading.used <= old(self)@.pending.len()
                &&& final(self)@.pending == old(self)@.pending.skip(reading.used)
                &&& final(self)@.position() == position_after(
                    old(self)@.pending,
                    reading.used,
                    old(self)@.position(),
                )
                &&& match reading.outcome {
                    Ok(lexeme) => r is Ok && r.unwrap()@ == lexeme,
                    Err(failure) => r is Err && r.unwrap_err()@ == failure,
                }
            }),
    {
        let ghost s = self@.pending;
        let ghost start = self@.position();
        let ghost b = run_end(s, 0, CharClass::Whitespace);
        let ghost q = s.skip(b);
        self.reset_for_token_read();
        let result = self.read_first_char()?;
        if result.should_skip_next {
            self.read_next_char();
            proof {
                assert(q.skip(1).skip(1) =~= s.skip(b + 2));
                assert(q.skip(1)[0] == s[b + 1]);
            }
        }
        if !result.continue_reading {
            proof {
                if b < s.len() {
                    assert(q.skip(1) =~= s.skip(b + 1));
                }
            }
            return Ok(result.token);
        }
        self.is_first_char = false;
        proof {
            lemma_finish_bounds(result.token.token_type@, q.skip(1));
            let used = finish(result.token.token_type@, q.skip(1)).used();
            assert(q.skip(1) =~= s.skip(b + 1));
            assert(s.skip(b + 1).skip(used) =~= s.skip(b + 1 + used));
            lemma_position_split(s, b + 1, used, start);
        }
        self.read_the_rest(result)
    }
}

/// Decides what the first character `chr` of a token begins, given the two
/// characters that follow it (the null character where the text has ended),
/// whether `chr` is a letter and whether the character after it is a
/// letter or a digit. The result stands at column `col` of line `line`.
/// `None` where `chr` starts no token.
pub fn first_step(
    chr: char,
    next: char,
    after: char,
    letter: bool,
    next_alphanumeric: bool,
    col: usize,
    line: usize,
) -> (r: Option<ReadTokenResult>)
    ensures
        match classify_with(chr, next, after, letter, next_alphanumeric) {
            None => r is None,
            Some(step) => r is Some && r.unwrap().step() == step && r.unwrap().token@.line
                == line && r.unwrap().token@.col == col,
        },
{
    let mut result = ReadTokenResult::new(col, line);
    if chr == ':' && next == '=' {
        result.continue_reading = false;
        result.should_skip_next = true;
        result.token.token_type = TokenType::AssignmentOperator;
        return Some(result);
    }
    if chr == '{' {
        result.token.token_type = TokenType::Comment(CommentType::CurlyBrackets);
        return Some(result);
    }
    match symbol_type(chr) {
        Some(token_type) => {
            result.token.token_type = token_type;
            result.continue_reading = false;
            return Some(result);
        },
        None => {},
    }
    if chr == '(' {
        if next == '*' {
            result.token.token_type = TokenType::Comment(CommentType::Parenthesis);
        } else {
            result.continue_reading = false;
            result.token.token_type = TokenType::OpenParenthesis;
        }
    } else if chr == '\'' {
        result.token.token_type = TokenType::StringLiteral(String::new());
        if next == '\'' && after != '\'' {
            result.should_skip_next = true;
            result.continue_reading = false;
        }
    } else if chr.is_ascii_digit() {
        result.token.token_type = TokenType::IntLiteral(single(chr));
        result.continue_reading = next.is_ascii_digit();
    } else if operator_char(chr) {
        result.token.token_type = TokenType::Operator(single(chr));
        if chr == '=' || !operator_char(next) {
            result.continue_reading = false;
        }
    } else if letter || chr == '_' {
        result.token.token_type = TokenType::Identifier(single(chr));
        result.continue_reading = next == '_' || next_alphanumeric;
    } else {
        return None;
    }
    Some(result)
}

/// A text of the one character `c`.
fn single(c: char) -> (r: String)
    ensures
        r@ == seq![c],
{
    let mut text = String::new();
    text.push(c);
    assert(text@ =~= seq![c]);
    text
}

/// The category of a character that is a token by itself.
fn symbol_type(c: char) -> (r: Option<TokenType>)
    ensures
        match symbol_kind(c) {
            None => r is None,
            Some(kind) => r is Some && r.unwrap()@ == kind,
        },
{
    match c {
        '[' => Some(TokenType::OpenSquareBracket),
        ']' => Some(TokenType::CloseSquareBracket),
        '^' => Some(TokenType::PointerSymbol),
        ';' => Some(TokenType::Semicolon),
        '$' => Some(TokenType::DollarSign),
        '&' => Some(TokenType::Ampersand),
        '@' => Some(TokenType::AtSign),
        ')' => Some(TokenType::CloseParenthesis),
        '#' => Some(TokenType::Hash),
        ':' => Some(TokenType::Colon),
        '.' => Some(TokenType::Period),
        ',' => Some(TokenType::Comma),
        _ => None,
    }
}

/// Scans a whole source text into its final token sequence: every token in
/// source order with its position, identifiers lowercased and reserved
/// words turned into keywords, comments left out. Scanning stops at the
/// first lexical error.
pub fn get_tokens(source: &str) -> (r: Result<Vec<Token>, LexError>)
    ensures
        match tokenize(source@, (1, 1)) {
            Ok(sequence) => r is Ok && lexemes(r.unwrap()@) == sequence,
            Err(failure) => r is Err && r.unwrap_err()@ == failure,
        },
        r is Ok ==> forall|i: int|
            0 <= i < r.unwrap()@.len() ==> is_kept(#[trigger] r.unwrap()@[i]@.kind),
{
    let mut reader = Reader::new(source);
    let mut tokens: Vec<Token> = Vec::new();
    assert(lexemes(tokens@) =~= Seq::empty());
    loop
        invariant
            reader.wf(),
            prepend(lexemes(tokens@), tokenize(reader@.pending, reader@.position())) == tokenize(
                source@,
                (1, 1),
            ),
            forall|i: int| 0 <= i < tokens@.len() ==> is_kept(#[trigger] tokens@[i]@.kind),
        ensures
            tokenize(source@, (1, 1)) == Ok::<Seq<Lexeme>, LexFailure>(lexemes(tokens@)),
        decreases reader@.pending.len(),
    {
        if reader.is_eof() {
            assert(lexemes(tokens@) + Seq::<Lexeme>::empty() =~= lexemes(tokens@));
            break ;
        }
        proof {
            lemma_next_token_bounds(reader@.pending, reader@.position());
        }
        let ghost before = lexemes(tokens@);
        let token = match reader.read_token() {
            Ok(token) => token,
            Err(error) => {
                return Err(error);
            },
        };
        let ghost raw = token@;
        let col = token.col;
        let line = token.line;
        match normalize(token.token_type) {
            TokenType::Comment(_) => {},
            TokenType::Eof => {},
            token_type => {
                tokens.push(Token { token_type, col, line });
                proof {
                    let kept = Lexeme { kind: normalized(raw.kind), ..raw };
                    assert(lexemes(tokens@) =~= before.push(kept));
                    assert forall|rest: Seq<Lexeme>| before.push(kept) + rest == before + (
                    seq![kept] + rest) by {
                        assert(before.push(kept) + rest =~= before + (seq![kept] + rest));
                    }
                }
            },
        }
    }
    Ok(tokens)
}

} // verus!
