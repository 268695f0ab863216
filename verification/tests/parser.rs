use langfront::ast::{
    err_expected, expect_identifier, expect_token, parse_code_block, parse_function,
    parse_struct, parse_value_type_list, ParseError, Program, TokenIter,
};
use langfront::token::{Location, Token, TokenKind};
use langfront::tokenizer::{tokenize_text, LiteralData};

fn tokenize(input: &str) -> (Vec<Token>, LiteralData) {
    tokenize_text(input).unwrap()
}

fn parse(input: &str) -> Result<Program, ParseError> {
    let (tokens, data) = tokenize(input);
    Program::from_tokens(tokens, data)
}

fn program(input: &str) -> Program {
    match parse(input) {
        Ok(program) => program,
        Err(error) => panic!("{:?} is refused: {:?}", input, error),
    }
}

/// The kind and place of the refused token, and the kinds expected instead.
fn refusal(input: &str) -> (Option<(TokenKind, usize, usize)>, Vec<TokenKind>) {
    match parse(input) {
        Ok(program) => panic!("{:?} is accepted: {:?}", input, program),
        Err(error) => (place(&error), error.expected().clone()),
    }
}

fn place(error: &ParseError) -> Option<(TokenKind, usize, usize)> {
    error
        .token()
        .as_ref()
        .map(|token| (*token.kind(), token.location().line, token.location().column))
}

fn pairs(list: &[(String, String)]) -> Vec<(&str, &str)> {
    list.iter()
        .map(|(name, kind)| (name.as_str(), kind.as_str()))
        .collect()
}

#[test]
fn a_structure_has_its_fields_in_order() {
    let program = program("struct P { x: i32, y: i32 }");
    assert!(program.functions().is_empty());
    assert_eq!(program.structs().len(), 1);
    let structure = &program.structs()[0];
    assert_eq!(structure.name(), "P");
    assert_eq!(pairs(structure.fields()), vec![("x", "i32"), ("y", "i32")]);
}

#[test]
fn a_structure_may_be_empty() {
    let program = program("struct E {}");
    assert_eq!(program.structs().len(), 1);
    assert_eq!(program.structs()[0].name(), "E");
    assert!(program.structs()[0].fields().is_empty());
}

#[test]
fn a_function_has_its_arguments_and_return_type() {
    let program = program("fn add(a: i32, b: i32) -> i32 {");
    assert!(program.structs().is_empty());
    assert_eq!(program.functions().len(), 1);
    let function = &program.functions()[0];
    assert_eq!(function.name(), "add");
    assert_eq!(pairs(function.arguments()), vec![("a", "i32"), ("b", "i32")]);
    assert_eq!(function.return_type().as_deref(), Some("i32"));
    assert!(function.body().statements().is_empty());
}

#[test]
fn a_function_without_an_arrow_returns_nothing() {
    let program = program("fn run() {");
    assert_eq!(program.functions().len(), 1);
    let function = &program.functions()[0];
    assert_eq!(function.name(), "run");
    assert!(function.arguments().is_empty());
    assert_eq!(*function.return_type(), None);
    assert!(function.body().statements().is_empty());
}

#[test]
fn a_trailing_comma_asks_for_one_more_entry() {
    assert_eq!(
        refusal("struct S {x: i32,}"),
        (
            Some((TokenKind::CloseBraces, 1, 18)),
            vec![TokenKind::Identifier]
        )
    );
    assert_eq!(
        refusal("fn f(a: b, c: d,) {"),
        (
            Some((TokenKind::CloseParentheses, 1, 17)),
            vec![TokenKind::Identifier]
        )
    );
    assert_eq!(
        refusal("struct S {\n  x: i32,\n  y: u8,\n}"),
        (
            Some((TokenKind::CloseBraces, 4, 1)),
            vec![TokenKind::Identifier]
        )
    );
}

#[test]
fn the_empty_stream_is_the_empty_program() {
    let program = program("");
    assert!(program.functions().is_empty());
    assert!(program.structs().is_empty());
    let program = program_of_comment();
    assert!(program.functions().is_empty());
    assert!(program.structs().is_empty());
}

fn program_of_comment() -> Program {
    program("# nothing here\n")
}

#[test]
fn declarations_are_kept_in_the_order_they_are_met() {
    let program = program(
        "struct A {}\nfn f() {\nstruct B { b: c }\nfn g(x: y) -> z {\nfn h() {\nstruct C {}",
    );
    let functions: Vec<&str> = program
        .functions()
        .iter()
        .map(|function| function.name().as_str())
        .collect();
    let structs: Vec<&str> = program
        .structs()
        .iter()
        .map(|structure| structure.name().as_str())
        .collect();
    assert_eq!(functions, vec!["f", "g", "h"]);
    assert_eq!(structs, vec!["A", "B", "C"]);
    assert_eq!(pairs(program.structs()[1].fields()), vec![("b", "c")]);
    assert_eq!(pairs(program.functions()[1].arguments()), vec![("x", "y")]);
    assert_eq!(program.functions()[1].return_type().as_deref(), Some("z"));
    assert_eq!(*program.functions()[2].return_type(), None);
}

#[test]
fn field_names_may_repeat() {
    let program = program("struct D { x: a, x: b }");
    assert_eq!(
        pairs(program.structs()[0].fields()),
        vec![("x", "a"), ("x", "b")]
    );
}

#[test]
fn a_declaration_starts_with_fn_or_struct() {
    let expected = vec![TokenKind::FunctionDefinition, TokenKind::Struct];
    assert_eq!(
        refusal("x"),
        (Some((TokenKind::Identifier, 1, 1)), expected.clone())
    );
    assert_eq!(
        refusal("struct A {} ;"),
        (Some((TokenKind::EndOfStatement, 1, 13)), expected.clone())
    );
    assert_eq!(
        refusal("fn f() { }"),
        (Some((TokenKind::CloseBraces, 1, 10)), expected.clone())
    );
    assert_eq!(
        refusal("mut"),
        (Some((TokenKind::Mutable, 1, 1)), expected)
    );
}

#[test]
fn a_structure_needs_a_name_and_braces() {
    assert_eq!(refusal("struct"), (None, vec![TokenKind::Identifier]));
    assert_eq!(
        refusal("struct {"),
        (Some((TokenKind::OpenBraces, 1, 8)), vec![TokenKind::Identifier])
    );
    assert_eq!(
        refusal("struct fn"),
        (
            Some((TokenKind::FunctionDefinition, 1, 8)),
            vec![TokenKind::Identifier]
        )
    );
    assert_eq!(refusal("struct A"), (None, vec![TokenKind::OpenBraces]));
    assert_eq!(
        refusal("struct A ("),
        (
            Some((TokenKind::OpenParentheses, 1, 10)),
            vec![TokenKind::OpenBraces]
        )
    );
}

#[test]
fn a_list_starts_with_an_entry_or_its_end() {
    assert_eq!(
        refusal("struct A {"),
        (None, vec![TokenKind::Identifier, TokenKind::CloseBraces])
    );
    assert_eq!(
        refusal("struct A { , }"),
        (
            Some((TokenKind::Comma, 1, 12)),
            vec![TokenKind::Identifier, TokenKind::CloseBraces]
        )
    );
    assert_eq!(
        refusal("fn f(1) {"),
        (
            Some((TokenKind::IntegerLiteral, 1, 6)),
            vec![TokenKind::Identifier, TokenKind::CloseParentheses]
        )
    );
    assert_eq!(
        refusal("fn f(}"),
        (
            Some((TokenKind::CloseBraces, 1, 6)),
            vec![TokenKind::Identifier, TokenKind::CloseParentheses]
        )
    );
}

#[test]
fn an_entry_is_a_name_a_separator_and_a_type() {
    assert_eq!(
        refusal("struct A { x }"),
        (
            Some((TokenKind::CloseBraces, 1, 14)),
            vec![TokenKind::FieldTypeSeparator]
        )
    );
    assert_eq!(
        refusal("struct A { x := y }"),
        (
            Some((TokenKind::DefineVar, 1, 14)),
            vec![TokenKind::FieldTypeSeparator]
        )
    );
    assert_eq!(
        refusal("struct A { x: }"),
        (
            Some((TokenKind::CloseBraces, 1, 15)),
            vec![TokenKind::Identifier]
        )
    );
    assert_eq!(
        refusal("struct A { x: 1 }"),
        (
            Some((TokenKind::IntegerLiteral, 1, 15)),
            vec![TokenKind::Identifier]
        )
    );
    assert_eq!(refusal("struct A { x:"), (None, vec![TokenKind::Identifier]));
    assert_eq!(
        refusal("struct A { x"),
        (None, vec![TokenKind::FieldTypeSeparator])
    );
}

#[test]
fn behind_an_entry_stands_a_comma_or_the_end() {
    assert_eq!(
        refusal("struct A { x: y z: w }"),
        (
            Some((TokenKind::Identifier, 1, 17)),
            vec![TokenKind::Comma, TokenKind::CloseBraces]
        )
    );
    assert_eq!(
        refusal("struct A { x: y )"),
        (
            Some((TokenKind::CloseParentheses, 1, 17)),
            vec![TokenKind::Comma, TokenKind::CloseBraces]
        )
    );
    assert_eq!(
        refusal("fn f(x: y }"),
        (
            Some((TokenKind::CloseBraces, 1, 11)),
            vec![TokenKind::Comma, TokenKind::CloseParentheses]
        )
    );
    assert_eq!(
        refusal("fn f(x: y"),
        (
            None,
            vec![TokenKind::Comma, TokenKind::CloseParentheses]
        )
    );
    assert_eq!(
        refusal("struct A { x: y, , }"),
        (Some((TokenKind::Comma, 1, 18)), vec![TokenKind::Identifier])
    );
}

#[test]
fn a_function_needs_a_name_parentheses_and_a_brace() {
    assert_eq!(refusal("fn"), (None, vec![TokenKind::Identifier]));
    assert_eq!(
        refusal("fn ("),
        (
            Some((TokenKind::OpenParentheses, 1, 4)),
            vec![TokenKind::Identifier]
        )
    );
    assert_eq!(refusal("fn f"), (None, vec![TokenKind::OpenParentheses]));
    assert_eq!(
        refusal("fn f {"),
        (
            Some((TokenKind::OpenBraces, 1, 6)),
            vec![TokenKind::OpenParentheses]
        )
    );
    assert_eq!(
        refusal("fn f()"),
        (None, vec![TokenKind::RightArrow, TokenKind::OpenBraces])
    );
    assert_eq!(
        refusal("fn f() ;"),
        (
            Some((TokenKind::EndOfStatement, 1, 8)),
            vec![TokenKind::RightArrow, TokenKind::OpenBraces]
        )
    );
    assert_eq!(
        refusal("fn f() - > i32 {"),
        (
            Some((TokenKind::Minus, 1, 8)),
            vec![TokenKind::RightArrow, TokenKind::OpenBraces]
        )
    );
}

#[test]
fn an_arrow_needs_a_type_and_a_brace() {
    assert_eq!(refusal("fn f() ->"), (None, vec![TokenKind::Identifier]));
    assert_eq!(
        refusal("fn f() -> {"),
        (Some((TokenKind::OpenBraces, 1, 11)), vec![TokenKind::Identifier])
    );
    assert_eq!(refusal("fn f() -> t"), (None, vec![TokenKind::OpenBraces]));
    assert_eq!(
        refusal("fn f() -> t u"),
        (Some((TokenKind::Identifier, 1, 13)), vec![TokenKind::OpenBraces])
    );
}

#[test]
fn the_first_error_ends_the_parse() {
    assert_eq!(
        refusal("struct A { x } struct"),
        (
            Some((TokenKind::CloseBraces, 1, 14)),
            vec![TokenKind::FieldTypeSeparator]
        )
    );
    assert_eq!(
        refusal("struct A {}\nstruct B { x: y,}\nstruct C {"),
        (
            Some((TokenKind::CloseBraces, 2, 17)),
            vec![TokenKind::Identifier]
        )
    );
}

#[test]
fn an_identifier_without_a_name_is_refused() {
    let (_, data) = tokenize("a");
    let nameless = Token::new(TokenKind::Identifier, Location { line: 5, column: 5 });
    let named = Token::new(TokenKind::Identifier, Location { line: 1, column: 1 });
    let tokens = vec![Token::new(TokenKind::Struct, Location { line: 1, column: 1 }), nameless];
    let error = Program::from_tokens(tokens, data).unwrap_err();
    assert_eq!(place(&error), Some((TokenKind::Identifier, 5, 5)));
    assert_eq!(*error.expected(), vec![TokenKind::Identifier]);

    let (_, data) = tokenize("a");
    let mut stream = TokenIter::new(vec![named, nameless]);
    assert_eq!(expect_identifier(&mut stream, &data).unwrap(), "a");
    let error = expect_identifier(&mut stream, &data).unwrap_err();
    assert_eq!(place(&error), Some((TokenKind::Identifier, 5, 5)));
    assert_eq!(*error.expected(), vec![TokenKind::Identifier]);
    let error = expect_identifier(&mut stream, &data).unwrap_err();
    assert_eq!(place(&error), None);
}

#[test]
fn the_stream_is_read_from_the_front() {
    let (tokens, _) = tokenize("a + b");
    let mut stream = TokenIter::new(tokens);
    assert_eq!(stream.peek().map(|token| *token.kind()), Some(TokenKind::Identifier));
    assert_eq!(stream.peek().map(|token| *token.kind()), Some(TokenKind::Identifier));
    assert_eq!(stream.next().map(|token| *token.kind()), Some(TokenKind::Identifier));
    assert_eq!(stream.peek().map(|token| *token.kind()), Some(TokenKind::Plus));
    assert_eq!(stream.next().map(|token| *token.kind()), Some(TokenKind::Plus));
    let last = stream.next().unwrap();
    assert_eq!(*last.kind(), TokenKind::Identifier);
    assert_eq!(*last.location(), Location { line: 1, column: 5 });
    assert!(stream.peek().is_none());
    assert!(stream.next().is_none());
    assert!(stream.next().is_none());
}

#[test]
fn an_expected_token_is_taken_and_any_other_too() {
    let (tokens, _) = tokenize("( ) }");
    let mut stream = TokenIter::new(tokens);
    let token = expect_token(&mut stream, TokenKind::OpenParentheses).unwrap();
    assert_eq!(*token.kind(), TokenKind::OpenParentheses);
    assert_eq!(*token.location(), Location { line: 1, column: 1 });
    let error = expect_token(&mut stream, TokenKind::OpenBraces).unwrap_err();
    assert_eq!(place(&error), Some((TokenKind::CloseParentheses, 1, 3)));
    assert_eq!(*error.expected(), vec![TokenKind::OpenBraces]);
    let token = expect_token(&mut stream, TokenKind::CloseBraces).unwrap();
    assert_eq!(*token.location(), Location { line: 1, column: 5 });
    let error = expect_token(&mut stream, TokenKind::CloseBraces).unwrap_err();
    assert_eq!(place(&error), None);
    assert_eq!(*error.expected(), vec![TokenKind::CloseBraces]);
}

#[test]
fn an_error_holds_the_token_and_what_was_expected() {
    let token = Token::new(TokenKind::Xor, Location { line: 2, column: 9 });
    let error = err_expected(Some(token), &[TokenKind::Comma, TokenKind::Plus]);
    assert_eq!(place(&error), Some((TokenKind::Xor, 2, 9)));
    assert_eq!(*error.expected(), vec![TokenKind::Comma, TokenKind::Plus]);
    let error = err_expected(None, &[]);
    assert_eq!(place(&error), None);
    assert!(error.expected().is_empty());
}

#[test]
fn a_list_ends_with_the_token_it_is_given() {
    let (tokens, data) = tokenize("a: b, c: d ; e");
    let mut stream = TokenIter::new(tokens);
    let list = parse_value_type_list(&mut stream, &data, TokenKind::EndOfStatement).unwrap();
    assert_eq!(pairs(&list), vec![("a", "b"), ("c", "d")]);
    assert_eq!(
        stream.next().map(|token| *token.location()),
        Some(Location { line: 1, column: 14 })
    );

    let (tokens, data) = tokenize("; a");
    let mut stream = TokenIter::new(tokens);
    let list = parse_value_type_list(&mut stream, &data, TokenKind::EndOfStatement).unwrap();
    assert!(list.is_empty());
    assert_eq!(stream.next().map(|token| *token.kind()), Some(TokenKind::Identifier));
}

#[test]
fn a_failed_list_has_read_the_refused_token() {
    let (tokens, data) = tokenize("a: b, ) c");
    let mut stream = TokenIter::new(tokens);
    let error =
        parse_value_type_list(&mut stream, &data, TokenKind::CloseParentheses).unwrap_err();
    assert_eq!(place(&error), Some((TokenKind::CloseParentheses, 1, 7)));
    assert_eq!(*error.expected(), vec![TokenKind::Identifier]);
    assert_eq!(
        stream.next().map(|token| *token.location()),
        Some(Location { line: 1, column: 9 })
    );
}

#[test]
fn a_signature_ends_with_the_opening_brace() {
    let (tokens, data) = tokenize("f(a: b) -> c { d");
    let mut stream = TokenIter::new(tokens);
    let function = parse_function(&mut stream, &data).unwrap();
    assert_eq!(function.name(), "f");
    assert_eq!(pairs(function.arguments()), vec![("a", "b")]);
    assert_eq!(function.return_type().as_deref(), Some("c"));
    assert_eq!(
        stream.next().map(|token| *token.location()),
        Some(Location { line: 1, column: 16 })
    );

    let (tokens, data) = tokenize("S { a: b } x");
    let mut stream = TokenIter::new(tokens);
    let structure = parse_struct(&mut stream, &data).unwrap();
    assert_eq!(structure.name(), "S");
    assert_eq!(pairs(structure.fields()), vec![("a", "b")]);
    assert_eq!(
        stream.next().map(|token| *token.location()),
        Some(Location { line: 1, column: 12 })
    );
}

#[test]
fn a_body_is_empty_and_reads_nothing() {
    let (tokens, data) = tokenize("a b");
    let mut stream = TokenIter::new(tokens);
    let block = parse_code_block(&mut stream, &data).unwrap();
    assert!(block.statements().is_empty());
    assert_eq!(
        stream.next().map(|token| *token.location()),
        Some(Location { line: 1, column: 1 })
    );
}
