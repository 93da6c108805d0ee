use pascal_front::keyword::{is_reserved, keyword_or_identifier, normalize};
use pascal_front::lexer::{class_contains, first_step, get_tokens, ReadTokenResult, Reader};
use pascal_front::scan::{CharClass, LexError, LexErrorKind};
use pascal_front::text::{identifier_part_char, operator_char};
use pascal_front::token::{CommentType, Token, TokenType};

fn kinds(source: &str) -> Vec<String> {
    get_tokens(source)
        .expect("the text scans")
        .iter()
        .map(|t| format!("{:?}", t.token_type))
        .collect()
}

fn positions(source: &str) -> Vec<(usize, usize)> {
    get_tokens(source).expect("the text scans").iter().map(|t| (t.line, t.col)).collect()
}

#[test]
fn program_header_scans_to_three_tokens() {
    assert_eq!(
        kinds("program Foo;"),
        vec!["Keyword(\"program\")", "Identifier(\"foo\")", "Semicolon"]
    );
}

#[test]
fn keywords_ignore_case() {
    assert_eq!(kinds("BEGIN"), vec!["Keyword(\"begin\")"]);
    assert_eq!(kinds("begin"), vec!["Keyword(\"begin\")"]);
    assert_eq!(kinds("BeGiN"), vec!["Keyword(\"begin\")"]);
}

#[test]
fn identifiers_are_lowercased() {
    assert_eq!(kinds("MyVar _Tmp9"), vec!["Identifier(\"myvar\")", "Identifier(\"_tmp9\")"]);
}

#[test]
fn doubled_quote_decodes_to_one() {
    assert_eq!(kinds("'it''s'"), vec!["StringLiteral(\"it's\")"]);
}

#[test]
fn empty_string_literal() {
    assert_eq!(kinds("'' x"), vec!["StringLiteral(\"\")", "Identifier(\"x\")"]);
    assert_eq!(kinds("''"), vec!["StringLiteral(\"\")"]);
}

#[test]
fn string_of_one_quote() {
    assert_eq!(kinds("''''"), vec!["StringLiteral(\"'\")"]);
    assert_eq!(kinds("'''a'"), vec!["StringLiteral(\"'a\")"]);
}

#[test]
fn string_keeps_whitespace_and_case() {
    assert_eq!(kinds("'Hello  World'"), vec!["StringLiteral(\"Hello  World\")"]);
}

#[test]
fn paren_comment_is_dropped() {
    assert_eq!(
        kinds("(* note *) x := 1;"),
        vec!["Identifier(\"x\")", "AssignmentOperator", "IntLiteral(\"1\")", "Semicolon"]
    );
}

#[test]
fn curly_comment_is_dropped() {
    assert_eq!(kinds("{ note } x"), vec!["Identifier(\"x\")"]);
    assert_eq!(kinds("a{b}c"), vec!["Identifier(\"a\")", "Identifier(\"c\")"]);
}

#[test]
fn shortest_paren_comment() {
    assert_eq!(kinds("(*) x"), vec!["Identifier(\"x\")"]);
    assert_eq!(kinds("(* a ) b *) x"), vec!["Identifier(\"x\")"]);
    assert_eq!(kinds("(***) x"), vec!["Identifier(\"x\")"]);
}

#[test]
fn no_comment_in_final_sequence() {
    let tokens = get_tokens("a (* b *) c { d } e (*f*)").expect("the text scans");
    assert_eq!(tokens.len(), 3);
    for t in &tokens {
        assert!(!matches!(t.token_type, TokenType::Comment(_)));
        assert!(!matches!(t.token_type, TokenType::Eof));
    }
}

#[test]
fn assignment_is_one_token() {
    assert_eq!(kinds(":="), vec!["AssignmentOperator"]);
    assert_eq!(kinds("a:=b"), vec!["Identifier(\"a\")", "AssignmentOperator", "Identifier(\"b\")"]);
    assert_eq!(kinds(": ="), vec!["Colon", "Operator(\"=\")"]);
}

#[test]
fn operators_are_greedy() {
    assert_eq!(kinds("<>"), vec!["Operator(\"<>\")"]);
    assert_eq!(kinds("a<>b"), vec!["Identifier(\"a\")", "Operator(\"<>\")", "Identifier(\"b\")"]);
    assert_eq!(kinds("+-"), vec!["Operator(\"+-\")"]);
    assert_eq!(kinds("<="), vec!["Operator(\"<=\")"]);
    assert_eq!(kinds("+ -"), vec!["Operator(\"+\")", "Operator(\"-\")"]);
}

#[test]
fn equals_ends_at_once() {
    assert_eq!(kinds("=="), vec!["Operator(\"=\")", "Operator(\"=\")"]);
    assert_eq!(kinds("=<"), vec!["Operator(\"=\")", "Operator(\"<\")"]);
}

#[test]
fn single_character_symbols() {
    assert_eq!(
        kinds("[ ] ^ ; $ & @ ) # : . , ("),
        vec![
            "OpenSquareBracket",
            "CloseSquareBracket",
            "PointerSymbol",
            "Semicolon",
            "DollarSign",
            "Ampersand",
            "AtSign",
            "CloseParenthesis",
            "Hash",
            "Colon",
            "Period",
            "Comma",
            "OpenParenthesis"
        ]
    );
}

#[test]
fn integer_literals() {
    assert_eq!(kinds("123 4"), vec!["IntLiteral(\"123\")", "IntLiteral(\"4\")"]);
    assert_eq!(kinds("12ab"), vec!["IntLiteral(\"12\")", "Identifier(\"ab\")"]);
    assert_eq!(kinds("1.5"), vec!["IntLiteral(\"1\")", "Period", "IntLiteral(\"5\")"]);
}

#[test]
fn empty_and_blank_texts_have_no_tokens() {
    assert!(get_tokens("").expect("the text scans").is_empty());
    assert!(get_tokens("  \n\t ").expect("the text scans").is_empty());
    assert_eq!(kinds("x  \n"), vec!["Identifier(\"x\")"]);
}

#[test]
fn positions_count_lines_and_columns() {
    assert_eq!(positions("a bc\n  d"), vec![(1, 1), (1, 3), (2, 3)]);
    assert_eq!(positions("x := 'a\nb' y"), vec![(1, 1), (1, 3), (1, 6), (2, 4)]);
    assert_eq!(positions("\n\nz"), vec![(3, 1)]);
}

#[test]
fn unterminated_curly_comment_is_an_error() {
    let e = get_tokens("{ never closes").expect_err("the comment is open");
    assert_eq!(e, LexError { kind: LexErrorKind::UnterminatedComment, line: 1, col: 1 });
    let e = get_tokens("a;\n  { never closes").expect_err("the comment is open");
    assert_eq!(e, LexError { kind: LexErrorKind::UnterminatedComment, line: 2, col: 3 });
}

#[test]
fn unterminated_paren_comment_is_an_error() {
    let e = get_tokens("x (* open *").expect_err("the comment is open");
    assert_eq!(e, LexError { kind: LexErrorKind::UnterminatedComment, line: 1, col: 3 });
}

#[test]
fn unterminated_string_is_an_error() {
    let e = get_tokens("'abc").expect_err("the literal is open");
    assert_eq!(e, LexError { kind: LexErrorKind::UnterminatedStringLiteral, line: 1, col: 1 });
    let e = get_tokens("y 'a''").expect_err("the literal is open");
    assert_eq!(e, LexError { kind: LexErrorKind::UnterminatedStringLiteral, line: 1, col: 3 });
    let e = get_tokens("'").expect_err("the literal is open");
    assert_eq!(e, LexError { kind: LexErrorKind::UnterminatedStringLiteral, line: 1, col: 1 });
}

#[test]
fn unexpected_character_is_an_error() {
    let e = get_tokens("a ! b").expect_err("no token starts with !");
    assert_eq!(e, LexError { kind: LexErrorKind::UnexpectedCharacter, line: 1, col: 3 });
    let e = get_tokens("}").expect_err("no token starts with }");
    assert_eq!(e, LexError { kind: LexErrorKind::UnexpectedCharacter, line: 1, col: 1 });
}

#[test]
fn new_result_holds_no_token() {
    let r = ReadTokenResult::new(7, 3);
    assert!(!r.should_skip_next);
    assert!(r.continue_reading);
    assert!(matches!(r.token.token_type, TokenType::Eof));
    assert_eq!(r.token.col, 7);
    assert_eq!(r.token.line, 3);
}

#[test]
fn reader_yields_raw_tokens() {
    let mut reader = Reader::new("Foo {c} ");
    assert!(!reader.is_eof());
    let t: Token = reader.read_token().expect("a token");
    assert!(matches!(&t.token_type, TokenType::Identifier(s) if s == "Foo"));
    let t = reader.read_token().expect("a token");
    assert!(matches!(t.token_type, TokenType::Comment(CommentType::CurlyBrackets)));
    assert_eq!((t.line, t.col), (1, 5));
    assert!(!reader.is_eof());
    let t = reader.read_token().expect("a token");
    assert!(matches!(t.token_type, TokenType::Eof));
    assert!(reader.is_eof());
    reader.reset_for_token_read();
    assert!(reader.is_eof());
}

#[test]
fn unicode_letters_make_identifiers() {
    assert_eq!(kinds("ÉTÉ"), vec!["Identifier(\"été\")"]);
}

#[test]
fn class_membership() {
    assert!(class_contains(CharClass::Whitespace, '\t'));
    assert!(!class_contains(CharClass::Whitespace, 'a'));
    assert!(class_contains(CharClass::IdentifierPart, '_'));
    assert!(class_contains(CharClass::IdentifierPart, '7'));
    assert!(!class_contains(CharClass::IdentifierPart, '-'));
    assert!(class_contains(CharClass::Digit, '0'));
    assert!(class_contains(CharClass::Digit, '9'));
    assert!(!class_contains(CharClass::Digit, 'a'));
    assert!(!class_contains(CharClass::Digit, '/'));
    assert!(!class_contains(CharClass::Digit, ':'));
    assert!(class_contains(CharClass::OperatorSign, '<'));
    assert!(!class_contains(CharClass::OperatorSign, ':'));
    assert!(class_contains(CharClass::CurlyBody, '{'));
    assert!(!class_contains(CharClass::CurlyBody, '}'));
}

#[test]
fn reserved_words() {
    assert!(is_reserved("begin"));
    assert!(is_reserved("var"));
    assert!(is_reserved("xor"));
    assert!(!is_reserved("integer"));
    assert!(!is_reserved("BEGIN"));
    assert!(!is_reserved(""));
    assert!(matches!(normalize(TokenType::Identifier("End".to_string())), TokenType::Keyword(s) if s == "end"));
    assert!(matches!(normalize(TokenType::Identifier("Endy".to_string())), TokenType::Identifier(s) if s == "endy"));
    assert!(matches!(normalize(TokenType::StringLiteral("End".to_string())), TokenType::StringLiteral(s) if s == "End"));
    assert!(matches!(normalize(TokenType::Operator("+".to_string())), TokenType::Operator(s) if s == "+"));
}

#[test]
fn character_tests() {
    for c in ['+', '-', '*', '/', '=', '<', '>'] {
        assert!(operator_char(c));
    }
    assert!(!operator_char(':'));
    assert!(!operator_char('a'));
    assert!(identifier_part_char('_'));
    assert!(identifier_part_char('z'));
    assert!(!identifier_part_char(' '));
}

#[test]
fn long_operator_run_is_one_token() {
    assert_eq!(kinds("a<=>b"), vec!["Identifier(\"a\")", "Operator(\"<=>\")", "Identifier(\"b\")"]);
    assert_eq!(kinds("+++"), vec!["Operator(\"+++\")"]);
}

#[test]
fn first_step_decides_by_the_first_characters() {
    let r = first_step(':', '=', 'x', false, false, 3, 2).expect("a token");
    assert!(matches!(r.token.token_type, TokenType::AssignmentOperator));
    assert!(r.should_skip_next && !r.continue_reading);
    assert_eq!((r.token.line, r.token.col), (2, 3));

    let r = first_step(':', ' ', '=', false, false, 1, 1).expect("a token");
    assert!(matches!(r.token.token_type, TokenType::Colon));
    assert!(!r.should_skip_next && !r.continue_reading);

    let r = first_step('(', '*', ')', false, false, 1, 1).expect("a token");
    assert!(matches!(r.token.token_type, TokenType::Comment(CommentType::Parenthesis)));
    assert!(r.continue_reading && !r.should_skip_next);

    let r = first_step('(', 'a', '*', false, true, 1, 1).expect("a token");
    assert!(matches!(r.token.token_type, TokenType::OpenParenthesis));
    assert!(!r.continue_reading);

    let r = first_step('{', '}', ' ', false, false, 1, 1).expect("a token");
    assert!(matches!(r.token.token_type, TokenType::Comment(CommentType::CurlyBrackets)));
    assert!(r.continue_reading);

    let r = first_step('\'', '\'', ' ', false, false, 1, 1).expect("a token");
    assert!(matches!(&r.token.token_type, TokenType::StringLiteral(s) if s.is_empty()));
    assert!(r.should_skip_next && !r.continue_reading);

    let r = first_step('\'', '\'', '\'', false, false, 1, 1).expect("a token");
    assert!(matches!(&r.token.token_type, TokenType::StringLiteral(s) if s.is_empty()));
    assert!(!r.should_skip_next && r.continue_reading);

    let r = first_step('7', '8', ' ', false, true, 1, 1).expect("a token");
    assert!(matches!(&r.token.token_type, TokenType::IntLiteral(s) if s == "7"));
    assert!(r.continue_reading);
    let r = first_step('7', 'a', ' ', false, true, 1, 1).expect("a token");
    assert!(!r.continue_reading);

    let r = first_step('<', '>', ' ', false, false, 1, 1).expect("a token");
    assert!(matches!(&r.token.token_type, TokenType::Operator(s) if s == "<"));
    assert!(r.continue_reading);
    let r = first_step('=', '=', ' ', false, false, 1, 1).expect("a token");
    assert!(matches!(&r.token.token_type, TokenType::Operator(s) if s == "="));
    assert!(!r.continue_reading);

    let r = first_step('a', 'b', ' ', true, true, 1, 1).expect("a token");
    assert!(matches!(&r.token.token_type, TokenType::Identifier(s) if s == "a"));
    assert!(r.continue_reading);
    let r = first_step('_', '+', ' ', false, false, 1, 1).expect("a token");
    assert!(matches!(&r.token.token_type, TokenType::Identifier(s) if s == "_"));
    assert!(!r.continue_reading);
    let r = first_step('a', '_', ' ', true, false, 1, 1).expect("a token");
    assert!(r.continue_reading);

    assert!(first_step('!', ' ', ' ', false, false, 1, 1).is_none());
    assert!(first_step('}', ' ', ' ', false, false, 1, 1).is_none());
}

#[test]
fn lowercase_word_becomes_keyword_or_identifier() {
    assert!(matches!(keyword_or_identifier("begin".to_string()), TokenType::Keyword(s) if s == "begin"));
    assert!(matches!(keyword_or_identifier("beginx".to_string()), TokenType::Identifier(s) if s == "beginx"));
    assert!(matches!(keyword_or_identifier("Begin".to_string()), TokenType::Identifier(s) if s == "Begin"));
}

#[test]
fn whitespace_is_the_listed_set() {
    let listed = |u: u32| {
        (0x09..=0x0D).contains(&u)
            || u == 0x20
            || u == 0x85
            || u == 0xA0
            || u == 0x1680
            || (0x2000..=0x200A).contains(&u)
            || u == 0x2028
            || u == 0x2029
            || u == 0x202F
            || u == 0x205F
            || u == 0x3000
    };
    for u in 0..=0x10FFFFu32 {
        if let Some(c) = char::from_u32(u) {
            assert_eq!(class_contains(CharClass::Whitespace, c), listed(u), "U+{:04X}", u);
        }
    }
}

#[test]
fn operator_run_goes_past_an_equals_sign() {
    assert_eq!(kinds("<=-1"), vec!["Operator(\"<=-\")", "IntLiteral(\"1\")"]);
}

#[test]
fn colon_and_equals_apart_stay_apart() {
    assert_eq!(kinds(":\n="), vec!["Colon", "Operator(\"=\")"]);
    assert_eq!(positions(":\n="), vec![(1, 1), (2, 1)]);
    assert_eq!(kinds(":{c}="), vec!["Colon", "Operator(\"=\")"]);
    assert_eq!(positions(":{c}="), vec![(1, 1), (1, 5)]);
    assert_eq!(kinds("::="), vec!["Colon", "AssignmentOperator"]);
}

#[test]
fn ascii_classes_are_letters_and_digits() {
    for u in 0..128u32 {
        let c = char::from_u32(u).expect("a character");
        let letter = c.is_ascii_lowercase() || c.is_ascii_uppercase();
        let part = letter || ('0'..='9').contains(&c) || c == '_';
        assert_eq!(identifier_part_char(c), part, "U+{:04X}", u);
        let starts_word = matches!(
            get_tokens(&c.to_string()).as_deref(),
            Ok([Token { token_type: TokenType::Identifier(_), .. }])
        );
        assert_eq!(starts_word, letter || c == '_', "U+{:04X}", u);
    }
}

#[test]
fn ascii_text_is_lowered_letter_by_letter() {
    for u in 0..128u32 {
        let c = char::from_u32(u).expect("a character");
        let word = format!("x{}", c);
        let expected = format!("x{}", c.to_ascii_lowercase());
        assert!(
            matches!(normalize(TokenType::Identifier(word)), TokenType::Identifier(s) if s == expected),
            "U+{:04X}",
            u
        );
    }
    assert!(matches!(normalize(TokenType::Identifier("MiXeD_09Z".to_string())), TokenType::Identifier(s) if s == "mixed_09z"));
}

#[test]
fn a_word_and_its_small_form_scan_alike() {
    for word in ["FooBar_9", "_X", "Program", "VAR", "zZ"] {
        assert_eq!(kinds(word), kinds(&word.to_ascii_lowercase()));
        assert_eq!(kinds(word).len(), 1);
    }
    assert_eq!(kinds("Program"), vec!["Keyword(\"program\")"]);
    assert_eq!(kinds("FooBar_9"), vec!["Identifier(\"foobar_9\")"]);
}

#[test]
fn two_operator_characters_are_one_token_at_the_start() {
    for a in ['+', '-', '*', '/', '<', '>'] {
        for b in ['+', '-', '*', '/', '<', '>'] {
            let text = format!("{}{}", a, b);
            assert_eq!(kinds(&text), vec![format!("Operator({:?})", text)]);
            assert_eq!(positions(&text), vec![(1, 1)]);
        }
    }
}
