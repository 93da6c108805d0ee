//! The declaration parser: recognises `program` and `unit` headers and
//! `var` blocks in a finished token sequence, and passes over the rest.

use crate::cursor::{open_tokens, peek_token, pending_tokens, take_token};
use crate::declaration::{Declaration, DeclarationView, Module, ModuleView, VarTable};
use crate::token::{Lexeme, Token, TokenKind, TokenType};
use multipeek::MultiPeek;
use std::slice::Iter;
use vstd::prelude::*;

verus! {

/// What the parser was looking for when it failed.
#[derive(Debug, Clone, Copy, PartialEq, Eq, Structural)]
pub enum Expected {
    /// The identifier that names a module.
    ModuleName,
    Semicolon,
    /// The identifier that names a variable, after a comma.
    VariableName,
    /// The identifier that names a variable's type.
    VariableType,
    /// What follows a variable's name.
    CommaOrColon,
}

/// A parse failure: what was expected, and the token that stood there
/// instead, or `None` where the tokens had ended.
#[derive(Debug)]
pub struct ParseError {
    pub expected: Expected,
    pub found: Option<Token>,
}

/// What a `ParseError` is in contracts.
pub ghost struct ParseFailure {
    pub expected: Expected,
    pub found: Option<Lexeme>,
}

impl View for ParseError {
    type V = ParseFailure;

    open spec fn view(&self) -> ParseFailure {
        ParseFailure {
            expected: self.expected,
            found: match self.found {
                Some(token) => Some(token@),
                None => None,
            },
        }
    }
}

/// The outcome of parsing one construct, and the number of tokens taken.
pub ghost struct Parsed<T> {
    pub outcome: Result<T, ParseFailure>,
    pub next: int,
}

impl<T> Parsed<T> {
    /// The same outcome after `n` more tokens were taken before it.
    pub open spec fn shifted(self, n: int) -> Parsed<T> {
        Parsed { outcome: self.outcome, next: self.next + n }
    }
}

/// The first index from `i` on that holds no comment, or the number of
/// tokens if there is none.
pub open spec fn comments_end(t: Seq<Token>, i: int) -> int
    decreases t.len() - i,
{
    if 0 <= i < t.len() && t[i]@.kind is Comment {
        comments_end(t, i + 1)
    } else {
        i
    }
}

/// After any comments, takes one token, which must be an identifier, and
/// gives its text.
pub open spec fn expect_identifier(t: Seq<Token>, expected: Expected) -> Parsed<Seq<char>> {
    let i = comments_end(t, 0);
    if i >= t.len() {
        Parsed { outcome: Err(ParseFailure { expected, found: None }), next: i }
    } else {
        match t[i]@.kind {
            TokenKind::Identifier(text) => Parsed { outcome: Ok(text), next: i + 1 },
            _ => Parsed {
                outcome: Err(ParseFailure { expected, found: Some(t[i]@) }),
                next: i + 1,
            },
        }
    }
}

/// After any comments, takes one token, which must be a semicolon.
pub open spec fn expect_semicolon(t: Seq<Token>) -> Parsed<()> {
    let i = comments_end(t, 0);
    if i >= t.len() {
        Parsed { outcome: Err(ParseFailure { expected: Expected::Semicolon, found: None }), next: i }
    } else if t[i]@.kind is Semicolon {
        Parsed { outcome: Ok(()), next: i + 1 }
    } else {
        Parsed {
            outcome: Err(ParseFailure { expected: Expected::Semicolon, found: Some(t[i]@) }),
            next: i + 1,
        }
    }
}

/// An identifier, then a semicolon: gives the identifier's text. Comments
/// before either are taken too.
pub open spec fn identifier_and_semicolon(t: Seq<Token>, expected: Expected) -> Parsed<
    Seq<char>,
> {
    let name = expect_identifier(t, expected);
    match name.outcome {
        Err(failure) => Parsed { outcome: Err(failure), next: name.next },
        Ok(text) => {
            let end = expect_semicolon(t.skip(name.next));
            Parsed {
                outcome: match end.outcome {
                    Ok(_) => Ok(text),
                    Err(failure) => Err(failure),
                },
                next: name.next + end.next,
            }
        },
    }
}

/// The rest of a module header: an identifier, which is the module's name,
/// then a semicolon.
pub open spec fn module_name(t: Seq<Token>) -> Parsed<Seq<char>> {
    identifier_and_semicolon(t, Expected::ModuleName)
}

/// The table `vars` after each of `names` was declared with type `ty`.
pub open spec fn declare(
    vars: Map<Seq<char>, Seq<char>>,
    names: Seq<Seq<char>>,
    ty: Seq<char>,
) -> Map<Seq<char>, Seq<char>>
    decreases names.len(),
{
    if names.len() == 0 {
        vars
    } else {
        declare(vars.insert(names[0], ty), names.skip(1), ty)
    }
}

/// The body of a `var` block, read with the names `names` waiting for
/// their type and the table `vars` declared so far. Each run is
/// identifiers separated by commas, a colon, the identifier of the type and
/// a semicolon. Where a run would start, a token that is no identifier, or
/// the end of the tokens, ends the block with nothing taken. Where names
/// are waiting, the same is a failure: a name was expected, and the token
/// that stood there is taken.
pub open spec fn var_block(
    t: Seq<Token>,
    names: Seq<Seq<char>>,
    vars: Map<Seq<char>, Seq<char>>,
) -> Parsed<Map<Seq<char>, Seq<char>>>
    decreases t.len(),
    via var_block_decreases
{
    let i = comments_end(t, 0);
    if i >= t.len() {
        if names.len() == 0 {
            Parsed { outcome: Ok(vars), next: i }
        } else {
            Parsed {
                outcome: Err(ParseFailure { expected: Expected::VariableName, found: None }),
                next: i,
            }
        }
    } else {
        match t[i]@.kind {
            TokenKind::Identifier(name) => {
                if i + 1 >= t.len() {
                    Parsed {
                        outcome: Err(
                            ParseFailure { expected: Expected::CommaOrColon, found: None },
                        ),
                        next: i + 1,
                    }
                } else {
                    match t[i + 1]@.kind {
                        TokenKind::Comma => var_block(
                            t.skip(i + 2),
                            names.push(name),
                            vars,
                        ).shifted(i + 2),
                        TokenKind::Colon => {
                            let ty = identifier_and_semicolon(
                                t.skip(i + 2),
                                Expected::VariableType,
                            );
                            match ty.outcome {
                                Err(failure) => Parsed {
                                    outcome: Err(failure),
                                    next: i + 2 + ty.next,
                                },
                                Ok(type_text) => var_block(
                                    t.skip(i + 2 + ty.next),
                                    Seq::empty(),
                                    declare(vars, names.push(name), type_text),
                                ).shifted(i + 2 + ty.next),
                            }
                        },
                        _ => Parsed {
                            outcome: Err(
                                ParseFailure {
                                    expected: Expected::CommaOrColon,
                                    found: Some(t[i + 1]@),
                                },
                            ),
                            next: i + 2,
                        },
                    }
                }
            },
            _ => if names.len() == 0 {
                Parsed { outcome: Ok(vars), next: i }
            } else {
                Parsed {
                    outcome: Err(
                        ParseFailure { expected: Expected::VariableName, found: Some(t[i]@) },
                    ),
                    next: i + 1,
                }
            },
        }
    }
}

#[via_fn]
proof fn var_block_decreases(
    t: Seq<Token>,
    names: Seq<Seq<char>>,
    vars: Map<Seq<char>, Seq<char>>,
) {
    lemma_comments_end_bounds(t, 0);
    let i = comments_end(t, 0);
    if i + 1 < t.len() {
        lemma_identifier_and_semicolon_bounds(t.skip(i + 2), Expected::VariableType);
    }
}

/// Comments end at or after the start of the search and within the tokens.
pub proof fn lemma_comments_end_bounds(t: Seq<Token>, i: int)
    requires
        0 <= i <= t.len(),
    ensures
        i <= comments_end(t, i) <= t.len(),
        comments_end(t, i) < t.len() ==> !(t[comments_end(t, i)]@.kind is Comment),
    decreases t.len() - i,
{
    if i < t.len() && t[i]@.kind is Comment {
        lemma_comments_end_bounds(t, i + 1);
    }
}

/// Looking for an identifier takes no more tokens than there are.
pub proof fn lemma_expect_identifier_bounds(t: Seq<Token>, expected: Expected)
    ensures
        0 <= expect_identifier(t, expected).next <= t.len(),
{
    lemma_comments_end_bounds(t, 0);
}

/// Looking for a semicolon takes no more tokens than there are.
pub proof fn lemma_expect_semicolon_bounds(t: Seq<Token>)
    ensures
        0 <= expect_semicolon(t).next <= t.len(),
{
    lemma_comments_end_bounds(t, 0);
}

/// Looking for an identifier and a semicolon takes no more tokens than
/// there are.
pub proof fn lemma_identifier_and_semicolon_bounds(t: Seq<Token>, expected: Expected)
    ensures
        0 <= identifier_and_semicolon(t, expected).next <= t.len(),
{
    lemma_expect_identifier_bounds(t, expected);
    lemma_expect_semicolon_bounds(t.skip(expect_identifier(t, expected).next));
}

/// A `var` block takes no more tokens than there are.
pub proof fn lemma_var_block_bounds(
    t: Seq<Token>,
    names: Seq<Seq<char>>,
    vars: Map<Seq<char>, Seq<char>>,
)
    ensures
        0 <= var_block(t, names, vars).next <= t.len(),
    decreases t.len(),
{
    lemma_comments_end_bounds(t, 0);
    let i = comments_end(t, 0);
    if i + 1 < t.len() {
        match t[i]@.kind {
            TokenKind::Identifier(name) => {
                match t[i + 1]@.kind {
                    TokenKind::Comma => {
                        lemma_var_block_bounds(t.skip(i + 2), names.push(name), vars);
                    },
                    TokenKind::Colon => {
                        lemma_identifier_and_semicolon_bounds(
                            t.skip(i + 2),
                            Expected::VariableType,
                        );
                        let ty = identifier_and_semicolon(t.skip(i + 2), Expected::VariableType);
                        if ty.outcome is Ok {
                            lemma_var_block_bounds(
                                t.skip(i + 2 + ty.next),
                                Seq::empty(),
                                declare(vars, names.push(name), ty.outcome->Ok_0),
                            );
                        }
                    },
                    _ => {},
                }
            },
            _ => {},
        }
    }
}

/// Dropping `a` items and then `b` more is dropping `a + b` at once.
pub proof fn lemma_skip_twice<T>(s: Seq<T>, a: int, b: int)
    requires
        0 <= a,
        0 <= b,
        a + b <= s.len(),
    ensures
        s.skip(a).skip(b) == s.skip(a + b),
        b < s.len() - a ==> s.skip(a)[b] == s[a + b],
{
    assert(s.skip(a).skip(b) =~= s.skip(a + b));
}

/// Takes the comments that stand next.
fn skip_comments(tokens: &mut MultiPeek<Iter<'_, Token>>)
    ensures
        0 <= comments_end(pending_tokens(old(tokens)), 0) <= pending_tokens(old(tokens)).len(),
        pending_tokens(final(tokens)) == pending_tokens(old(tokens)).skip(
            comments_end(pending_tokens(old(tokens)), 0),
        ),
{
    let ghost t = pending_tokens(tokens);
    let ghost mut i: int = 0;
    assert(t.skip(0) =~= t);
    loop
        invariant
            0 <= i <= t.len(),
            pending_tokens(tokens) == t.skip(i),
            comments_end(t, i) == comments_end(t, 0),
        ensures
            comments_end(t, 0) == i,
        decreases t.len() - i,
    {
        match peek_token(tokens) {
            Some(token) => match &token.token_type {
                TokenType::Comment(_) => {},
                _ => {
                    break ;
                },
            },
            None => {
                break ;
            },
        }
        take_token(tokens);
        proof {
            assert(t.skip(i).skip(1) =~= t.skip(i + 1));
            i = i + 1;
        }
    }
}

/// After any comments, takes one token and gives its text if it is an
/// identifier; otherwise fails with `expected`.
fn extract_identifier(tokens: &mut MultiPeek<Iter<'_, Token>>, expected: Expected) -> (r: Result<
    String,
    ParseError,
>)
    ensures
        ({
            let t = pending_tokens(old(tokens));
            let parsed = expect_identifier(t, expected);
            &&& 0 <= parsed.next <= t.len()
            &&& pending_tokens(final(tokens)) == t.skip(parsed.next)
            &&& match parsed.outcome {
                Ok(text) => r is Ok && r.unwrap()@ == text,
                Err(failure) => r is Err && r.unwrap_err()@ == failure,
            }
        }),
{
    let ghost t = pending_tokens(tokens);
    skip_comments(tokens);
    let ghost i = comments_end(t, 0);
    match take_token(tokens) {
        Some(token) => {
            assert(t.skip(i).skip(1) =~= t.skip(i + 1));
            assert(t.skip(i)[0] == t[i]);
            match &token.token_type {
                TokenType::Identifier(val) => Ok(val.clone()),
                _ => Err(ParseError { expected, found: Some(token.duplicate()) }),
            }
        },
        None => Err(ParseError { expected, found: None }),
    }
}

/// After any comments, takes one token, which must be a semicolon.
fn skip_semicolon(tokens: &mut MultiPeek<Iter<'_, Token>>) -> (r: Result<(), ParseError>)
    ensures
        ({
            let t = pending_tokens(old(tokens));
            let parsed = expect_semicolon(t);
            &&& 0 <= parsed.next <= t.len()
            &&& pending_tokens(final(tokens)) == t.skip(parsed.next)
            &&& match parsed.outcome {
                Ok(_) => r is Ok,
                Err(failure) => r is Err && r.unwrap_err()@ == failure,
            }
        }),
{
    let ghost t = pending_tokens(tokens);
    skip_comments(tokens);
    let ghost i = comments_end(t, 0);
    match take_token(tokens) {
        Some(token) => {
            assert(t.skip(i).skip(1) =~= t.skip(i + 1));
            assert(t.skip(i)[0] == t[i]);
            match &token.token_type {
                TokenType::Semicolon => Ok(()),
                _ => Err(
                    ParseError { expected: Expected::Semicolon, found: Some(token.duplicate()) },
                ),
            }
        },
        None => Err(ParseError { expected: Expected::Semicolon, found: None }),
    }
}

/// Takes an identifier and a semicolon, with any comments before either,
/// and gives the identifier's text.
fn extract_with_semicolon(tokens: &mut MultiPeek<Iter<'_, Token>>, expected: Expected) -> (r:
    Result<String, ParseError>)
    ensures
        ({
            let t = pending_tokens(old(tokens));
            let parsed = identifier_and_semicolon(t, expected);
            &&& 0 <= parsed.next <= t.len()
            &&& pending_tokens(final(tokens)) == t.skip(parsed.next)
            &&& match parsed.outcome {
                Ok(text) => r is Ok && r.unwrap()@ == text,
                Err(failure) => r is Err && r.unwrap_err()@ == failure,
            }
        }),
{
    let ghost t = pending_tokens(tokens);
    let name = extract_identifier(tokens, expected)?;
    let ghost n = expect_identifier(t, expected).next;
    let end = skip_semicolon(tokens);
    proof {
        lemma_skip_twice(t, n, expect_semicolon(t.skip(n)).next);
    }
    match end {
        Ok(_) => Ok(name),
        Err(error) => Err(error),
    }
}

/// Parses what follows `program` or `unit`: the module's name and a
/// semicolon. Gives the name.
pub fn parse_module_name(tokens: &mut MultiPeek<Iter<'_, Token>>) -> (r: Result<
    String,
    ParseError,
>)
    ensures
        ({
            let t = pending_tokens(old(tokens));
            let parsed = module_name(t);
            &&& 0 <= parsed.next <= t.len()
            &&& pending_tokens(final(tokens)) == t.skip(parsed.next)
            &&& match parsed.outcome {
                Ok(text) => r is Ok && r.unwrap()@ == text,
                Err(failure) => r is Err && r.unwrap_err()@ == failure,
            }
        }),
{
    extract_with_semicolon(tokens, Expected::ModuleName)
}

/// The texts of a list of names.
pub open spec fn texts(names: Seq<String>) -> Seq<Seq<char>> {
    names.map_values(|name: String| name@)
}

/// Declares each of `names` with type `ty` in `vars`.
fn declare_all(vars: &mut VarTable, names: &Vec<String>, ty: &String)
    ensures
        final(vars)@ == declare(old(vars)@, texts(names@), ty@),
{
    let ghost all = texts(names@);
    let mut k: usize = 0;
    assert(all.skip(0) =~= all);
    while k < names.len()
        invariant
            k <= names@.len(),
            all == texts(names@),
            declare(vars@, all.skip(k as int), ty@) == declare(old(vars)@, all, ty@),
        decreases names@.len() - k,
    {
        proof {
            assert(all.skip(k as int).skip(1) =~= all.skip(k + 1));
            assert(all.skip(k as int)[0] == names@[k as int]@);
        }
        vars.insert(names[k].clone(), ty.clone());
        k = k + 1;
    }
}

/// Parses what follows `var`: runs of names separated by commas, each run
/// closed by a colon, the name of the type and a semicolon. Gives the table
/// of the variables declared. The token that ends the block is not taken.
/// After a comma a name is owed: anything else there is a failure.
pub fn parse_var(tokens: &mut MultiPeek<Iter<'_, Token>>) -> (r: Result<VarTable, ParseError>)
    ensures
        ({
            let t = pending_tokens(old(tokens));
            let parsed = var_block(t, Seq::empty(), Map::empty());
            &&& 0 <= parsed.next <= t.len()
            &&& pending_tokens(final(tokens)) == t.skip(parsed.next)
            &&& match parsed.outcome {
                Ok(table) => r is Ok && r.unwrap()@ == table,
                Err(failure) => r is Err && r.unwrap_err()@ == failure,
            }
        }),
{
    let ghost t = pending_tokens(tokens);
    let ghost mut taken: int = 0;
    let mut vars = VarTable::new();
    let mut current_var_names: Vec<String> = Vec::new();
    proof {
        assert(t.skip(0) =~= t);
        assert(texts(current_var_names@) =~= Seq::empty());
        lemma_var_block_bounds(t, Seq::empty(), Map::empty());
    }
    loop
        invariant
            0 <= taken <= t.len(),
            t == pending_tokens(old(tokens)),
            pending_tokens(tokens) == t.skip(taken),
            var_block(t, Seq::empty(), Map::empty()) == var_block(
                t.skip(taken),
                texts(current_var_names@),
                vars@,
            ).shifted(taken),
            0 <= var_block(t, Seq::empty(), Map::empty()).next <= t.len(),
        decreases t.len() - taken,
    {
        let ghost rest = t.skip(taken);
        let ghost names = texts(current_var_names@);
        skip_comments(tokens);
        let ghost i = comments_end(rest, 0);
        proof {
            lemma_skip_twice(t, taken, i);
            if i < rest.len() {
                lemma_skip_twice(rest, i, 0);
                lemma_skip_twice(rest, i, 1);
            }
        }
        let var_name = match peek_token(tokens) {
            Some(token) => match &token.token_type {
                TokenType::Identifier(val) => val.clone(),
                _ => {
                    if current_var_names.len() == 0 {
                        return Ok(vars);
                    }
                    take_token(tokens);
                    return Err(
                        ParseError {
                            expected: Expected::VariableName,
                            found: Some(token.duplicate()),
                        },
                    );
                },
            },
            None => {
                if current_var_names.len() == 0 {
                    return Ok(vars);
                }
                return Err(ParseError { expected: Expected::VariableName, found: None });
            },
        };
        take_token(tokens);
        current_var_names.push(var_name);
        let ghost name = rest[i]@.kind->Identifier_0;
        assert(texts(current_var_names@) =~= names.push(name));
        let separator = match take_token(tokens) {
            Some(token) => token,
            None => {
                return Err(ParseError { expected: Expected::CommaOrColon, found: None });
            },
        };
        proof {
            lemma_skip_twice(rest, i + 1, 0);
            lemma_skip_twice(rest, i + 1, 1);
            lemma_skip_twice(t, taken, i + 2);
        }
        match &separator.token_type {
            TokenType::Comma => {
                proof {
                    taken = taken + i + 2;
                }
            },
            TokenType::Colon => {
                let var_type = extract_with_semicolon(tokens, Expected::VariableType)?;
                declare_all(&mut vars, &current_var_names, &var_type);
                current_var_names.clear();
                proof {
                    let n = identifier_and_semicolon(rest.skip(i + 2), Expected::VariableType).next;
                    lemma_skip_twice(rest, i + 2, n);
                    lemma_skip_twice(t, taken, i + 2 + n);
                    assert(texts(current_var_names@) =~= Seq::empty());
                    taken = taken + i + 2 + n;
                }
            },
            _ => {
                return Err(
                    ParseError {
                        expected: Expected::CommaOrColon,
                        found: Some(separator.duplicate()),
                    },
                );
            },
        }
    }
}

/// Program statements are outside the grammar: there is nothing to parse.
pub fn parse_program_stmt() {
}

/// The declarations `rest`, with `first` before them.
pub open spec fn put_first(
    first: DeclarationView,
    rest: Result<Seq<DeclarationView>, ParseFailure>,
) -> Result<Seq<DeclarationView>, ParseFailure> {
    match rest {
        Ok(list) => Ok(seq![first] + list),
        Err(failure) => Err(failure),
    }
}

/// The declarations of a token sequence, in order: a module header after
/// each keyword `program` or `unit`, a variable table after each keyword
/// `var`; every other token is passed over. The first failure ends the
/// parse.
pub open spec fn declarations(t: Seq<Token>) -> Result<Seq<DeclarationView>, ParseFailure>
    decreases t.len(),
    via declarations_decreases
{
    if t.len() == 0 {
        Ok(Seq::empty())
    } else {
        match t[0]@.kind {
            TokenKind::Keyword(word) => {
                if word == "program"@ || word == "unit"@ {
                    let header = module_name(t.skip(1));
                    match header.outcome {
                        Err(failure) => Err(failure),
                        Ok(name) => put_first(
                            DeclarationView::Module(
                                ModuleView {
                                    is_unit: word != "program"@,
                                    name,
                                    used_units: Seq::empty(),
                                },
                            ),
                            declarations(t.skip(1 + header.next)),
                        ),
                    }
                } else if word == "var"@ {
                    let block = var_block(t.skip(1), Seq::empty(), Map::empty());
                    match block.outcome {
                        Err(failure) => Err(failure),
                        Ok(table) => put_first(
                            DeclarationView::Vars(table),
                            declarations(t.skip(1 + block.next)),
                        ),
                    }
                } else {
                    declarations(t.skip(1))
                }
            },
            _ => declarations(t.skip(1)),
        }
    }
}

#[via_fn]
proof fn declarations_decreases(t: Seq<Token>) {
    if t.len() > 0 {
        lemma_identifier_and_semicolon_bounds(t.skip(1), Expected::ModuleName);
        lemma_var_block_bounds(t.skip(1), Seq::empty(), Map::empty());
    }
}

/// The views of a list of declarations, in order.
pub open spec fn declaration_views(list: Seq<Declaration>) -> Seq<DeclarationView> {
    list.map_values(|d: Declaration| d@)
}

/// The declarations `before`, followed by what `after` holds.
pub open spec fn put_before(
    before: Seq<DeclarationView>,
    after: Result<Seq<DeclarationView>, ParseFailure>,
) -> Result<Seq<DeclarationView>, ParseFailure> {
    match after {
        Ok(rest) => Ok(before + rest),
        Err(failure) => Err(failure),
    }
}

/// Parses a finished token sequence into its declarations.
pub fn parse_tokens(tokens_vec: &Vec<Token>) -> (r: Result<Vec<Declaration>, ParseError>)
    ensures
        match declarations(tokens_vec@) {
            Ok(list) => r is Ok && declaration_views(r.unwrap()@) == list,
            Err(failure) => r is Err && r.unwrap_err()@ == failure,
        },
{
    let mut tokens = open_tokens(tokens_vec);
    let mut found: Vec<Declaration> = Vec::new();
    assert(declaration_views(found@) =~= Seq::empty());
    loop
        invariant
            put_before(declaration_views(found@), declarations(pending_tokens(&tokens)))
                == declarations(tokens_vec@),
        ensures
            declarations(tokens_vec@) == Ok::<Seq<DeclarationView>, ParseFailure>(
                declaration_views(found@),
            ),
        decreases pending_tokens(&tokens).len(),
    {
        let ghost t = pending_tokens(&tokens);
        let ghost before = declaration_views(found@);
        let token = match take_token(&mut tokens) {
            Some(token) => token,
            None => {
                assert(before + Seq::<DeclarationView>::empty() =~= before);
                break ;
            },
        };
        proof {
            lemma_identifier_and_semicolon_bounds(t.skip(1), Expected::ModuleName);
            lemma_var_block_bounds(t.skip(1), Seq::empty(), Map::empty());
        }
        match &token.token_type {
            TokenType::Keyword(val) => {
                let is_program = val.as_str().eq("program");
                if is_program || val.as_str().eq("unit") {
                    let name = match parse_module_name(&mut tokens) {
                        Ok(name) => name,
                        Err(error) => {
                            return Err(error);
                        },
                    };
                    let module = Module { is_unit: !is_program, name, used_units: Vec::new() };
                    assert(module@.used_units =~= Seq::empty());
                    found.push(Declaration::Module(module));
                    proof {
                        let n = module_name(t.skip(1)).next;
                        assert(t.skip(1).skip(n) =~= t.skip(1 + n));
                        let first = declaration_views(found@).last();
                        assert(declaration_views(found@) =~= before.push(first));
                        assert forall|rest: Seq<DeclarationView>|
                            before.push(first) + rest == before + (seq![first] + rest) by {
                            assert(before.push(first) + rest =~= before + (seq![first] + rest));
                        }
                    }
                } else if val.as_str().eq("var") {
                    let table = match parse_var(&mut tokens) {
                        Ok(table) => table,
                        Err(error) => {
                            return Err(error);
                        },
                    };
                    found.push(Declaration::Vars(table));
                    proof {
                        let n = var_block(t.skip(1), Seq::empty(), Map::empty()).next;
                        assert(t.skip(1).skip(n) =~= t.skip(1 + n));
                        let first = declaration_views(found@).last();
                        assert(declaration_views(found@) =~= before.push(first));
                        assert forall|rest: Seq<DeclarationView>|
                            before.push(first) + rest == before + (seq![first] + rest) by {
                            assert(before.push(first) + rest =~= before + (seq![first] + rest));
                        }
                    }
                }
            },
            _ => {},
        }
    }
    Ok(found)
}

} // verus!
