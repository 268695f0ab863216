use langfront::operators::OperatorTable;
use langfront::token::{Location, Token, TokenKind};
use langfront::tokenizer::{
    tokenize_text, tokenize_with_table, LiteralData, TokenizingError, TokenizingErrorKind,
};

fn kinds(tokens: &[Token]) -> Vec<TokenKind> {
    tokens.iter().map(|token| *token.kind()).collect()
}

fn locations(tokens: &[Token]) -> Vec<(usize, usize)> {
    tokens
        .iter()
        .map(|token| (token.location().line, token.location().column))
        .collect()
}

fn tokenize(input: &str) -> (Vec<Token>, LiteralData) {
    match tokenize_text(input) {
        Ok(output) => output,
        Err(error) => panic!("{:?} is refused: {:?}", input, error),
    }
}

fn refusal(input: &str) -> TokenizingError {
    match tokenize_text(input) {
        Ok((tokens, _)) => panic!("{:?} is accepted: {:?}", input, tokens),
        Err(error) => error,
    }
}

#[test]
fn test() {
    let input = "hello, world!";
    let output = vec![
        TokenKind::Identifier,
        TokenKind::Comma,
        TokenKind::Identifier,
        TokenKind::Not,
    ];

    assert!(tokenize_text(input)
        .unwrap()
        .0
        .iter()
        .map(Token::kind)
        .eq(output.iter()));
}

#[test]
fn test2() {
    let input = "=:=";

    assert!(tokenize_text(input).is_ok());
}

#[test]
fn test_new_line_between() {
    let input1 = "=\n=";
    let expected_output1 = &[&TokenKind::Assign, &TokenKind::Assign];
    let output1 = tokenize_text(input1).unwrap();
    assert_eq!(
        output1.0.iter().map(Token::kind).collect::<Vec<_>>(),
        expected_output1
    );

    let input2 = "first\nsecond";
    let expected_output2 = &[&TokenKind::Identifier, &TokenKind::Identifier];
    let output2 = tokenize_text(input2).unwrap();
    assert_eq!(
        output2.0.iter().map(Token::kind).collect::<Vec<_>>(),
        expected_output2
    );
}

#[test]
fn identifiers_are_filed_under_their_locations() {
    let (tokens, data) = tokenize("hello, world!");
    assert_eq!(
        kinds(&tokens),
        vec![
            TokenKind::Identifier,
            TokenKind::Comma,
            TokenKind::Identifier,
            TokenKind::Not
        ]
    );
    assert_eq!(locations(&tokens), vec![(1, 1), (1, 6), (1, 8), (1, 13)]);
    assert_eq!(
        data.try_get_identifier(&tokens[0]).map(String::as_str),
        Some("hello")
    );
    assert_eq!(
        data.try_get_identifier(&tokens[2]).map(String::as_str),
        Some("world")
    );
    assert_eq!(data.try_get_identifier(&tokens[1]), None);
    assert_eq!(data.try_get_identifier(&tokens[3]), None);
}

#[test]
fn maximal_munch_never_splits_define_var() {
    let (tokens, _) = tokenize("=:=:=");
    assert_eq!(
        kinds(&tokens),
        vec![TokenKind::Assign, TokenKind::DefineVar, TokenKind::DefineVar]
    );
    assert_eq!(locations(&tokens), vec![(1, 1), (1, 2), (1, 4)]);
}

#[test]
fn two_code_point_operators_win_over_their_first_code_point() {
    let (tokens, _) = tokenize(">= <= == -> := > < = - :");
    assert_eq!(
        kinds(&tokens),
        vec![
            TokenKind::GreaterOrEqual,
            TokenKind::LessOrEqual,
            TokenKind::Equal,
            TokenKind::RightArrow,
            TokenKind::DefineVar,
            TokenKind::Greater,
            TokenKind::Less,
            TokenKind::Assign,
            TokenKind::Minus,
            TokenKind::FieldTypeSeparator,
        ]
    );
    assert_eq!(
        locations(&tokens),
        vec![
            (1, 1),
            (1, 4),
            (1, 7),
            (1, 10),
            (1, 13),
            (1, 16),
            (1, 18),
            (1, 20),
            (1, 22),
            (1, 24)
        ]
    );
}

#[test]
fn operators_split_at_the_longest_match() {
    let (tokens, _) = tokenize("===");
    assert_eq!(kinds(&tokens), vec![TokenKind::Equal, TokenKind::Assign]);
    let (tokens, _) = tokenize("->>");
    assert_eq!(
        kinds(&tokens),
        vec![TokenKind::RightArrow, TokenKind::Greater]
    );
    let (tokens, _) = tokenize("-");
    assert_eq!(kinds(&tokens), vec![TokenKind::Minus]);
    let (tokens, _) = tokenize(":");
    assert_eq!(kinds(&tokens), vec![TokenKind::FieldTypeSeparator]);
}

#[test]
fn every_single_code_point_operator_is_known() {
    let (tokens, _) = tokenize("{}()+-*/%=:><!|&^,;");
    assert_eq!(
        kinds(&tokens),
        vec![
            TokenKind::OpenBraces,
            TokenKind::CloseBraces,
            TokenKind::OpenParentheses,
            TokenKind::CloseParentheses,
            TokenKind::Plus,
            TokenKind::Minus,
            TokenKind::Mul,
            TokenKind::Div,
            TokenKind::Rem,
            TokenKind::Assign,
            TokenKind::FieldTypeSeparator,
            TokenKind::Greater,
            TokenKind::Less,
            TokenKind::Not,
            TokenKind::Or,
            TokenKind::And,
            TokenKind::Xor,
            TokenKind::Comma,
            TokenKind::EndOfStatement,
        ]
    );
}

#[test]
fn a_newline_starts_the_next_line_at_column_one() {
    let (tokens, _) = tokenize("=\n=");
    assert_eq!(kinds(&tokens), vec![TokenKind::Assign, TokenKind::Assign]);
    assert_eq!(*tokens[0].location(), Location { line: 1, column: 1 });
    assert_eq!(*tokens[1].location(), Location { line: 2, column: 1 });
}

#[test]
fn columns_count_code_points_not_bytes() {
    let (tokens, data) = tokenize("\"\u{e9}\u{4e2d}\" x\n\n  y");
    assert_eq!(
        kinds(&tokens),
        vec![
            TokenKind::StringLiteral,
            TokenKind::Identifier,
            TokenKind::Identifier
        ]
    );
    assert_eq!(locations(&tokens), vec![(1, 1), (1, 6), (3, 3)]);
    assert_eq!(
        data.try_get_string_literal(&tokens[0]).map(String::as_str),
        Some("\u{e9}\u{4e2d}")
    );
}

#[test]
fn the_empty_text_has_no_tokens() {
    let (tokens, _) = tokenize("");
    assert!(tokens.is_empty());
}

#[test]
fn whitespace_and_comments_leave_no_tokens() {
    for input in [
        " ",
        "\n",
        " \t\r\n ",
        "# a comment",
        "# a comment\n",
        "  # one = 1\n\t# \"two\n\n#",
        "\u{a0}\u{2003}\u{3000}\u{85}",
        "#\n#\n",
    ] {
        let (tokens, data) = tokenize(input);
        assert!(tokens.is_empty(), "{:?}", input);
        let anywhere = Token::new(TokenKind::Identifier, Location { line: 1, column: 1 });
        assert_eq!(data.try_get_identifier(&anywhere), None);
    }
}

#[test]
fn a_comment_ends_with_its_line() {
    let (tokens, data) = tokenize("a # b c\nd#e");
    assert_eq!(
        kinds(&tokens),
        vec![TokenKind::Identifier, TokenKind::Identifier]
    );
    assert_eq!(locations(&tokens), vec![(1, 1), (2, 1)]);
    assert_eq!(
        data.try_get_identifier(&tokens[1]).map(String::as_str),
        Some("d")
    );
}

#[test]
fn keywords_have_kinds_of_their_own() {
    let (tokens, data) = tokenize("fn mut struct fnx _fn Struct f");
    assert_eq!(
        kinds(&tokens),
        vec![
            TokenKind::FunctionDefinition,
            TokenKind::Mutable,
            TokenKind::Struct,
            TokenKind::Identifier,
            TokenKind::Identifier,
            TokenKind::Identifier,
            TokenKind::Identifier,
        ]
    );
    for keyword in &tokens[..3] {
        assert_eq!(data.try_get_identifier(keyword), None);
    }
    let names: Vec<&str> = tokens[3..]
        .iter()
        .map(|token| data.try_get_identifier(token).unwrap().as_str())
        .collect();
    assert_eq!(names, vec!["fnx", "_fn", "Struct", "f"]);
}

#[test]
fn identifiers_hold_letters_digits_and_underscores() {
    let (tokens, data) = tokenize("_a1_B2 x9");
    assert_eq!(
        kinds(&tokens),
        vec![TokenKind::Identifier, TokenKind::Identifier]
    );
    assert_eq!(
        data.try_get_identifier(&tokens[0]).map(String::as_str),
        Some("_a1_B2")
    );
    assert_eq!(
        data.try_get_identifier(&tokens[1]).map(String::as_str),
        Some("x9")
    );
}

#[test]
fn integer_literals_lose_their_separators() {
    let (tokens, data) = tokenize("1_000_000 42 7__ 0");
    assert_eq!(
        kinds(&tokens),
        vec![
            TokenKind::IntegerLiteral,
            TokenKind::IntegerLiteral,
            TokenKind::IntegerLiteral,
            TokenKind::IntegerLiteral
        ]
    );
    let digits: Vec<&str> = tokens
        .iter()
        .map(|token| data.try_get_integer_literal(token).unwrap().as_str())
        .collect();
    assert_eq!(digits, vec!["1000000", "42", "7", "0"]);
    assert_eq!(locations(&tokens), vec![(1, 1), (1, 11), (1, 14), (1, 18)]);
}

#[test]
fn a_letter_behind_digits_is_an_invalid_suffix() {
    let error = refusal("123abc");
    assert_eq!(error.kind, TokenizingErrorKind::InvalidSuffix);
    assert_eq!(error.location, Location { line: 1, column: 4 });

    let error = refusal("x = 1\ny = 2_0Z;");
    assert_eq!(error.kind, TokenizingErrorKind::InvalidSuffix);
    assert_eq!(error.location, Location { line: 2, column: 8 });

    let error = refusal("1_a");
    assert_eq!(error.kind, TokenizingErrorKind::InvalidSuffix);
    assert_eq!(error.location, Location { line: 1, column: 3 });
}

#[test]
fn other_code_points_behind_digits_end_the_literal() {
    let (tokens, data) = tokenize("12+3");
    assert_eq!(
        kinds(&tokens),
        vec![
            TokenKind::IntegerLiteral,
            TokenKind::Plus,
            TokenKind::IntegerLiteral
        ]
    );
    assert_eq!(
        data.try_get_integer_literal(&tokens[0]).map(String::as_str),
        Some("12")
    );
    assert_eq!(
        data.try_get_integer_literal(&tokens[2]).map(String::as_str),
        Some("3")
    );

    let error = refusal("12\u{e9}");
    assert_eq!(error.kind, TokenizingErrorKind::UnknownToken);
    assert_eq!(error.location, Location { line: 1, column: 3 });
}

#[test]
fn string_literals_are_decoded() {
    let (tokens, data) = tokenize(r##""a\"b\\c\nd\re\tf" "" "# no comment""##);
    assert_eq!(
        kinds(&tokens),
        vec![
            TokenKind::StringLiteral,
            TokenKind::StringLiteral,
            TokenKind::StringLiteral
        ]
    );
    assert_eq!(
        data.try_get_string_literal(&tokens[0]).map(String::as_str),
        Some("a\"b\\c\nd\re\tf")
    );
    assert_eq!(
        data.try_get_string_literal(&tokens[1]).map(String::as_str),
        Some("")
    );
    assert_eq!(
        data.try_get_string_literal(&tokens[2]).map(String::as_str),
        Some("# no comment")
    );
    assert_eq!(locations(&tokens), vec![(1, 1), (1, 20), (1, 23)]);
}

#[test]
fn a_string_literal_may_span_lines() {
    let (tokens, data) = tokenize("\"a\nb\" c");
    assert_eq!(
        kinds(&tokens),
        vec![TokenKind::StringLiteral, TokenKind::Identifier]
    );
    assert_eq!(locations(&tokens), vec![(1, 1), (2, 4)]);
    assert_eq!(
        data.try_get_string_literal(&tokens[0]).map(String::as_str),
        Some("a\nb")
    );
}

#[test]
fn an_unterminated_string_literal_is_accepted() {
    let (tokens, data) = tokenize("x \"abc");
    assert_eq!(
        kinds(&tokens),
        vec![TokenKind::Identifier, TokenKind::StringLiteral]
    );
    assert_eq!(
        data.try_get_string_literal(&tokens[1]).map(String::as_str),
        Some("abc")
    );

    let (tokens, data) = tokenize("\"");
    assert_eq!(kinds(&tokens), vec![TokenKind::StringLiteral]);
    assert_eq!(
        data.try_get_string_literal(&tokens[0]).map(String::as_str),
        Some("")
    );
}

#[test]
fn an_unknown_escape_is_refused_where_it_stands() {
    let error = refusal(r#""\q""#);
    assert_eq!(error.kind, TokenizingErrorKind::InvalidEscape);
    assert_eq!(error.location, Location { line: 1, column: 3 });

    let error = refusal("a\n  \"b\\n\\x\"");
    assert_eq!(error.kind, TokenizingErrorKind::InvalidEscape);
    assert_eq!(error.location, Location { line: 2, column: 8 });

    let error = refusal("\"ab\\");
    assert_eq!(error.kind, TokenizingErrorKind::InvalidEscape);
    assert_eq!(error.location, Location { line: 1, column: 5 });

    let error = refusal("\"a\\\nb\"");
    assert_eq!(error.kind, TokenizingErrorKind::InvalidEscape);
    assert_eq!(error.location, Location { line: 1, column: 4 });
}

#[test]
fn a_code_point_that_starts_no_token_is_refused() {
    for (input, line, column) in [
        ("@", 1, 1),
        ("a $ b", 1, 3),
        ("a\n\n ?", 3, 2),
        ("x = \u{3b1}", 1, 5),
        ("'c'", 1, 1),
        ("a.b", 1, 2),
        ("~", 1, 1),
    ] {
        let error = refusal(input);
        assert_eq!(error.kind, TokenizingErrorKind::UnknownToken, "{:?}", input);
        assert_eq!(error.location, Location { line, column }, "{:?}", input);
    }
}

#[test]
fn the_first_offence_is_reported() {
    let error = refusal("1a \"\\q\" @");
    assert_eq!(error.kind, TokenizingErrorKind::InvalidSuffix);
    assert_eq!(error.location, Location { line: 1, column: 2 });

    let error = refusal("a @ 1a");
    assert_eq!(error.kind, TokenizingErrorKind::UnknownToken);
    assert_eq!(error.location, Location { line: 1, column: 3 });
}

#[test]
fn a_lookup_with_the_wrong_kind_finds_nothing() {
    let (tokens, data) = tokenize("name 12 \"text\"");
    let (name, number, text) = (&tokens[0], &tokens[1], &tokens[2]);

    assert!(data.try_get_identifier(name).is_some());
    assert_eq!(data.try_get_integer_literal(name), None);
    assert_eq!(data.try_get_string_literal(name), None);

    assert_eq!(data.try_get_identifier(number), None);
    assert!(data.try_get_integer_literal(number).is_some());
    assert_eq!(data.try_get_string_literal(number), None);

    assert_eq!(data.try_get_identifier(text), None);
    assert_eq!(data.try_get_integer_literal(text), None);
    assert!(data.try_get_string_literal(text).is_some());

    let forged = Token::new(TokenKind::IntegerLiteral, *name.location());
    assert_eq!(data.try_get_integer_literal(&forged), None);
    let elsewhere = Token::new(TokenKind::Identifier, Location { line: 7, column: 1 });
    assert_eq!(data.try_get_identifier(&elsewhere), None);
    let swapped = Token::new(TokenKind::Identifier, Location { line: 6, column: 1 });
    assert_eq!(data.try_get_identifier(&swapped), None);
}

#[test]
fn every_payload_is_found_again() {
    let input =
        "struct Point { x: i32, y: i32 }\nfn main() -> i32 {\n  a := 1_0 + \"s\\t\"; # c\n}";
    let (tokens, data) = tokenize(input);
    let lines: Vec<Vec<char>> = input.split('\n').map(|l| l.chars().collect()).collect();
    let mut payloads = 0;
    for token in &tokens {
        let location = token.location();
        let rest: String = lines[location.line - 1][location.column - 1..]
            .iter()
            .collect();
        match token.kind() {
            TokenKind::Identifier => {
                let name = data.try_get_identifier(token).unwrap();
                assert!(rest.starts_with(name.as_str()));
                payloads += 1;
            }
            TokenKind::IntegerLiteral => {
                let digits = data.try_get_integer_literal(token).unwrap();
                assert_eq!(digits, "10");
                assert!(rest.starts_with("1_0"));
                payloads += 1;
            }
            TokenKind::StringLiteral => {
                let content = data.try_get_string_literal(token).unwrap();
                assert_eq!(content, "s\t");
                assert!(rest.starts_with("\"s\\t\""));
                payloads += 1;
            }
            kind => {
                assert!(rest.starts_with(kind.text().unwrap()));
                assert_eq!(data.try_get_identifier(token), None);
                assert_eq!(data.try_get_integer_literal(token), None);
                assert_eq!(data.try_get_string_literal(token), None);
            }
        }
    }
    assert_eq!(payloads, 10);
    assert_eq!(tokens.len(), 25);
}

#[test]
fn no_two_tokens_share_a_location() {
    let (tokens, _) = tokenize("a\nb c\n\nd(e)\n=:=");
    let places = locations(&tokens);
    for (i, place) in places.iter().enumerate() {
        for other in &places[i + 1..] {
            assert!(place < other);
        }
    }
    assert_eq!(
        places,
        vec![
            (1, 1),
            (2, 1),
            (2, 3),
            (4, 1),
            (4, 2),
            (4, 3),
            (4, 4),
            (5, 1),
            (5, 2)
        ]
    );
}

#[test]
fn tokenizing_twice_gives_the_same() {
    for input in [
        "hello, world!",
        "fn f(a: b) -> c { 1_2 \"x\\n\" }",
        "12ab",
        "\"\\q\"",
        "a ? b",
        "",
    ] {
        let first = tokenize_text(input);
        let second = tokenize_text(input);
        match (first, second) {
            (Ok((tokens1, data1)), Ok((tokens2, data2))) => {
                assert_eq!(kinds(&tokens1), kinds(&tokens2));
                assert_eq!(locations(&tokens1), locations(&tokens2));
                for (one, other) in tokens1.iter().zip(tokens2.iter()) {
                    assert_eq!(
                        data1.try_get_identifier(one),
                        data2.try_get_identifier(other)
                    );
                    assert_eq!(
                        data1.try_get_integer_literal(one),
                        data2.try_get_integer_literal(other)
                    );
                    assert_eq!(
                        data1.try_get_string_literal(one),
                        data2.try_get_string_literal(other)
                    );
                }
            }
            (Err(error1), Err(error2)) => assert_eq!(error1, error2),
            _ => panic!("two runs on {:?} disagree", input),
        }
    }
}

#[test]
fn one_table_serves_many_texts() {
    let table = OperatorTable::new();
    let (tokens, _) = tokenize_with_table("a := b", &table).unwrap();
    assert_eq!(
        kinds(&tokens),
        vec![
            TokenKind::Identifier,
            TokenKind::DefineVar,
            TokenKind::Identifier
        ]
    );
    let (tokens, _) = tokenize_with_table("->", &table).unwrap();
    assert_eq!(kinds(&tokens), vec![TokenKind::RightArrow]);
    let error = tokenize_with_table("a ` b", &table).err().unwrap();
    assert_eq!(
        error,
        TokenizingError {
            location: Location { line: 1, column: 3 },
            kind: TokenizingErrorKind::UnknownToken
        }
    );
}
