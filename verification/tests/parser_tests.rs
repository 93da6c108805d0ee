use multipeek::multipeek;
use pascal_front::declaration::{Declaration, VarTable};
use pascal_front::lexer::get_tokens;
use pascal_front::parser::{
    parse_module_name, parse_program_stmt, parse_tokens, parse_var, Expected, ParseError,
};
use pascal_front::token::{CommentType, Token, TokenType};

fn scan(source: &str) -> Vec<Token> {
    get_tokens(source).expect("the text scans")
}

fn tok(token_type: TokenType) -> Token {
    Token { token_type, col: 1, line: 1 }
}

fn lookup(table: &VarTable, name: &str) -> Option<String> {
    table.get(name).cloned()
}

fn failure(source: &str) -> ParseError {
    parse_tokens(&scan(source)).expect_err("the parse fails")
}

#[test]
fn program_header_records_module_name() {
    let tokens = scan("program Foo;");
    let found = parse_tokens(&tokens).expect("the header parses");
    assert_eq!(found.len(), 1);
    match &found[0] {
        Declaration::Module(m) => {
            assert_eq!(m.name, "foo");
            assert!(!m.is_unit);
            assert!(m.used_units.is_empty());
        }
        other => panic!("not a module: {:?}", other),
    }
}

#[test]
fn unit_header_is_a_unit() {
    let found = parse_tokens(&scan("UNIT Bar;")).expect("the header parses");
    assert_eq!(found.len(), 1);
    assert!(matches!(&found[0], Declaration::Module(m) if m.is_unit && m.name == "bar"));
}

#[test]
fn var_block_maps_names_to_types() {
    let found = parse_tokens(&scan("var a,b: Integer; c: Char;")).expect("the block parses");
    assert_eq!(found.len(), 1);
    match &found[0] {
        Declaration::Vars(table) => {
            assert_eq!(lookup(table, "a").as_deref(), Some("integer"));
            assert_eq!(lookup(table, "b").as_deref(), Some("integer"));
            assert_eq!(lookup(table, "c").as_deref(), Some("char"));
            assert_eq!(lookup(table, "d"), None);
            assert_eq!(table.entries.len(), 3);
        }
        other => panic!("not a var block: {:?}", other),
    }
}

#[test]
fn redeclaring_replaces_the_type() {
    let found = parse_tokens(&scan("var a: integer; a: char;")).expect("the block parses");
    match &found[0] {
        Declaration::Vars(table) => assert_eq!(lookup(table, "a").as_deref(), Some("char")),
        other => panic!("not a var block: {:?}", other),
    }
}

#[test]
fn header_and_block_in_order() {
    let found = parse_tokens(&scan("program p; var x: integer; begin x := 1; end."))
        .expect("the text parses");
    assert_eq!(found.len(), 2);
    assert!(matches!(&found[0], Declaration::Module(m) if m.name == "p"));
    assert!(matches!(&found[1], Declaration::Vars(t) if t.get("x").is_some()));
}

#[test]
fn other_tokens_are_passed_over() {
    let found = parse_tokens(&scan("begin x := 1; end.")).expect("nothing to fail on");
    assert!(found.is_empty());
    assert!(parse_tokens(&Vec::new()).expect("nothing to fail on").is_empty());
}

#[test]
fn module_name_must_be_an_identifier() {
    let e = failure("program ;");
    assert_eq!(e.expected, Expected::ModuleName);
    let found = e.found.expect("a token stood there");
    assert!(matches!(found.token_type, TokenType::Semicolon));
    assert_eq!((found.line, found.col), (1, 9));
}

#[test]
fn module_name_missing_at_end() {
    let e = failure("program");
    assert_eq!(e.expected, Expected::ModuleName);
    assert!(e.found.is_none());
}

#[test]
fn module_header_needs_semicolon() {
    let e = failure("program foo");
    assert_eq!(e.expected, Expected::Semicolon);
    assert!(e.found.is_none());
    let e = failure("program foo.");
    assert_eq!(e.expected, Expected::Semicolon);
    assert!(matches!(e.found.expect("a token").token_type, TokenType::Period));
}

#[test]
fn name_must_be_followed_by_comma_or_colon() {
    let e = failure("var a b");
    assert_eq!(e.expected, Expected::CommaOrColon);
    assert!(matches!(e.found.expect("a token").token_type, TokenType::Identifier(s) if s == "b"));
    let e = failure("var a");
    assert_eq!(e.expected, Expected::CommaOrColon);
    assert!(e.found.is_none());
}

#[test]
fn variable_type_must_be_an_identifier() {
    let e = failure("var a: ;");
    assert_eq!(e.expected, Expected::VariableType);
    assert!(matches!(e.found.expect("a token").token_type, TokenType::Semicolon));
    let e = failure("var a:");
    assert_eq!(e.expected, Expected::VariableType);
    assert!(e.found.is_none());
}

#[test]
fn declaration_needs_semicolon() {
    let e = failure("var a: integer");
    assert_eq!(e.expected, Expected::Semicolon);
    assert!(e.found.is_none());
    let e = failure("var a: integer b");
    assert_eq!(e.expected, Expected::Semicolon);
    assert!(matches!(e.found.expect("a token").token_type, TokenType::Identifier(s) if s == "b"));
}

#[test]
fn block_ends_before_the_token_that_is_no_name() {
    let tokens = scan("a: integer; begin end");
    let mut it = multipeek(&tokens);
    let table = parse_var(&mut it).expect("the block parses");
    assert_eq!(lookup(&table, "a").as_deref(), Some("integer"));
    let next = it.next().expect("the block's end stays");
    assert!(matches!(&next.token_type, TokenType::Keyword(s) if s == "begin"));
}

#[test]
fn name_is_owed_after_a_comma() {
    let tokens = scan("a, ; b");
    let mut it = multipeek(&tokens);
    let e = parse_var(&mut it).expect_err("a name is owed");
    assert_eq!(e.expected, Expected::VariableName);
    let found = e.found.expect("a token stood there");
    assert!(matches!(found.token_type, TokenType::Semicolon));
    assert_eq!((found.line, found.col), (1, 4));
    assert!(matches!(&it.next().expect("a token").token_type, TokenType::Identifier(s) if s == "b"));
}

#[test]
fn name_is_owed_at_the_end_after_a_comma() {
    let tokens = scan("a ,");
    let mut it = multipeek(&tokens);
    let e = parse_var(&mut it).expect_err("a name is owed");
    assert_eq!(e.expected, Expected::VariableName);
    assert!(e.found.is_none());
    assert!(it.next().is_none());
}

#[test]
fn name_is_owed_after_several_commas() {
    let e = failure("var a, b, begin");
    assert_eq!(e.expected, Expected::VariableName);
    assert!(matches!(&e.found.expect("a token").token_type, TokenType::Keyword(s) if s == "begin"));
    let e = failure("var x: integer; a, : integer;");
    assert_eq!(e.expected, Expected::VariableName);
    assert!(matches!(e.found.expect("a token").token_type, TokenType::Colon));
}

#[test]
fn block_with_nothing_waiting_ends_quietly() {
    let tokens = scan("; b");
    let mut it = multipeek(&tokens);
    let table = parse_var(&mut it).expect("the block ends");
    assert!(table.entries.is_empty());
    assert!(matches!(it.next().expect("a token").token_type, TokenType::Semicolon));
}

#[test]
fn empty_block() {
    let tokens: Vec<Token> = Vec::new();
    let mut it = multipeek(&tokens);
    assert!(parse_var(&mut it).expect("nothing to fail on").entries.is_empty());
}

#[test]
fn comments_are_skipped_where_a_token_is_expected() {
    let tokens = vec![
        tok(TokenType::Comment(CommentType::Parenthesis)),
        tok(TokenType::Identifier("m".to_string())),
        tok(TokenType::Comment(CommentType::CurlyBrackets)),
        tok(TokenType::Comment(CommentType::CurlyBrackets)),
        tok(TokenType::Semicolon),
        tok(TokenType::Period),
    ];
    let mut it = multipeek(&tokens);
    assert_eq!(parse_module_name(&mut it).expect("the header parses"), "m");
    assert!(matches!(it.next().expect("a token").token_type, TokenType::Period));
    assert!(it.next().is_none());
}

#[test]
fn comments_before_names_are_skipped() {
    let tokens = vec![
        tok(TokenType::Comment(CommentType::Parenthesis)),
        tok(TokenType::Identifier("v".to_string())),
        tok(TokenType::Colon),
        tok(TokenType::Comment(CommentType::CurlyBrackets)),
        tok(TokenType::Identifier("t".to_string())),
        tok(TokenType::Semicolon),
        tok(TokenType::Comment(CommentType::CurlyBrackets)),
    ];
    let mut it = multipeek(&tokens);
    let table = parse_var(&mut it).expect("the block parses");
    assert_eq!(lookup(&table, "v").as_deref(), Some("t"));
    assert!(it.next().is_none());
}

#[test]
fn failing_token_is_taken() {
    let tokens = scan("1 2");
    let mut it = multipeek(&tokens);
    let e = parse_module_name(&mut it).expect_err("no identifier");
    assert_eq!(e.expected, Expected::ModuleName);
    assert!(matches!(&it.next().expect("a token").token_type, TokenType::IntLiteral(s) if s == "2"));
}

#[test]
fn table_insert_and_get() {
    let mut table = VarTable::new();
    assert!(table.get("x").is_none());
    table.insert("x".to_string(), "integer".to_string());
    table.insert("y".to_string(), "char".to_string());
    table.insert("x".to_string(), "real".to_string());
    assert_eq!(lookup(&table, "x").as_deref(), Some("real"));
    assert_eq!(lookup(&table, "y").as_deref(), Some("char"));
    assert_eq!(lookup(&table, "z"), None);
}

#[test]
fn duplicate_keeps_payload_and_position() {
    let t = Token { token_type: TokenType::StringLiteral("a'b".to_string()), col: 4, line: 9 };
    let d = t.duplicate();
    assert!(matches!(&d.token_type, TokenType::StringLiteral(s) if s == "a'b"));
    assert_eq!((d.line, d.col), (9, 4));
    assert!(matches!(TokenType::Hash.duplicate(), TokenType::Hash));
    assert!(matches!(TokenType::CharLiteral('q').duplicate(), TokenType::CharLiteral('q')));
}

#[test]
fn program_statements_are_not_parsed() {
    parse_program_stmt();
}

#[test]
fn two_var_blocks_in_a_row() {
    let found = parse_tokens(&scan("var a: integer; var b: char;")).expect("both blocks parse");
    assert_eq!(found.len(), 2);
    assert!(matches!(&found[0], Declaration::Vars(t) if t.get("a").is_some() && t.get("b").is_none()));
    assert!(matches!(&found[1], Declaration::Vars(t) if t.get("b").map(|s| s.as_str()) == Some("char")));
}

#[test]
fn first_failure_ends_the_parse() {
    let e = failure("program a; var x y; program ;");
    assert_eq!(e.expected, Expected::CommaOrColon);
    let found = e.found.expect("a token stood there");
    assert!(matches!(&found.token_type, TokenType::Identifier(s) if s == "y"));
    assert_eq!((found.line, found.col), (1, 18));
}
