//! The grammar of declarations: what a token stream parses to, as a function
//! of the tokens and the identifier table alone.
//!
//! Every function here takes the tokens that are still to be read and gives
//! back, beside its result, the tokens that are left behind it.

use crate::ast::Statement;
use crate::token::{Location, TokenKind, TokenView};
use crate::tokenizer::payload_of;
use vstd::prelude::*;

verus! {

/// A token stream is refused: the token that did not fit, `None` for the end
/// of the stream, and the kinds that would have.
pub struct ParseErrorView {
    pub token: Option<TokenView>,
    pub expected: Seq<TokenKind>,
}

/// What a parser comes to: its result, and the tokens behind what it read.
pub struct Parsed<T> {
    pub result: Result<T, ParseErrorView>,
    pub rest: Seq<TokenView>,
}

/// A structure declaration.
pub struct StructureView {
    pub name: Seq<char>,
    pub fields: Seq<(Seq<char>, Seq<char>)>,
}

/// The signature of a function declaration, and its body.
pub struct FunctionView {
    pub name: Seq<char>,
    pub arguments: Seq<(Seq<char>, Seq<char>)>,
    pub return_type: Option<Seq<char>>,
    pub body: Seq<Statement>,
}

/// The declarations of a program, functions and structures each in the order
/// they were met.
pub struct ProgramView {
    pub functions: Seq<FunctionView>,
    pub structs: Seq<StructureView>,
}

/// The next token of a stream, `None` at its end.
pub open spec fn next_token(tokens: Seq<TokenView>) -> Option<TokenView> {
    if tokens.len() > 0 {
        Some(tokens[0])
    } else {
        None
    }
}

/// The stream behind its next token.  At its end a stream stays as it is.
pub open spec fn after_next(tokens: Seq<TokenView>) -> Seq<TokenView> {
    if tokens.len() > 0 {
        tokens.drop_first()
    } else {
        tokens
    }
}

/// Whether the next token of the stream is of `kind`.
pub open spec fn next_is(tokens: Seq<TokenView>, kind: TokenKind) -> bool {
    tokens.len() > 0 && tokens[0].kind == kind
}

/// The next token is read and refused, in favour of `expected`.
pub open spec fn refuse_next<T>(tokens: Seq<TokenView>, expected: Seq<TokenKind>) -> Parsed<T> {
    Parsed {
        result: Err(ParseErrorView { token: next_token(tokens), expected }),
        rest: after_next(tokens),
    }
}

/// A failure, handed on to a parser of another result.
pub open spec fn failed<S, T>(parsed: Parsed<S>) -> Parsed<T> {
    Parsed { result: Err(parsed.result->Err_0), rest: parsed.rest }
}

/// Reads one token, which has to be of `kind`.
pub open spec fn expected_token(tokens: Seq<TokenView>, kind: TokenKind) -> Parsed<TokenView> {
    if next_is(tokens, kind) {
        Parsed { result: Ok(tokens[0]), rest: tokens.drop_first() }
    } else {
        refuse_next(tokens, seq![kind])
    }
}

/// Reads one token, which has to be an identifier that `names` knows, and
/// gives its name.
pub open spec fn expected_identifier(
    tokens: Seq<TokenView>,
    names: Map<Location, Seq<char>>,
) -> Parsed<Seq<char>> {
    if tokens.len() > 0 && payload_of(names, TokenKind::Identifier, tokens[0]) is Some {
        Parsed {
            result: Ok(payload_of(names, TokenKind::Identifier, tokens[0])->Some_0),
            rest: tokens.drop_first(),
        }
    } else {
        refuse_next(tokens, seq![TokenKind::Identifier])
    }
}

/// `parsed` with `done` in front of its list.
pub open spec fn after_entries(
    done: Seq<(Seq<char>, Seq<char>)>,
    parsed: Parsed<Seq<(Seq<char>, Seq<char>)>>,
) -> Parsed<Seq<(Seq<char>, Seq<char>)>> {
    match parsed.result {
        Ok(more) => Parsed { result: Ok(done + more), rest: parsed.rest },
        Err(error) => parsed,
    }
}

/// Reads the entries of a list that is not empty: `name: type`, then a comma
/// and the next entry, or the token `end`, which closes the list.
pub open spec fn value_type_entries(
    tokens: Seq<TokenView>,
    names: Map<Location, Seq<char>>,
    end: TokenKind,
) -> Parsed<Seq<(Seq<char>, Seq<char>)>>
    decreases tokens.len(),
{
    let name = expected_identifier(tokens, names);
    if name.result is Err {
        failed(name)
    } else {
        let separator = expected_token(name.rest, TokenKind::FieldTypeSeparator);
        if separator.result is Err {
            failed(separator)
        } else {
            let type_id = expected_identifier(separator.rest, names);
            if type_id.result is Err {
                failed(type_id)
            } else {
                let entry = (name.result->Ok_0, type_id.result->Ok_0);
                let rest = type_id.rest;
                if next_is(rest, TokenKind::Comma) {
                    after_entries(seq![entry], value_type_entries(rest.drop_first(), names, end))
                } else if next_is(rest, end) {
                    Parsed { result: Ok(seq![entry]), rest: rest.drop_first() }
                } else {
                    refuse_next(rest, seq![TokenKind::Comma, end])
                }
            }
        }
    }
}

/// Reads a list of `name: type` pairs up to and including the token `end`.
/// The list may be empty.  Between two entries stands a comma, and none
/// behind the last.
pub open spec fn value_type_list(
    tokens: Seq<TokenView>,
    names: Map<Location, Seq<char>>,
    end: TokenKind,
) -> Parsed<Seq<(Seq<char>, Seq<char>)>> {
    if next_is(tokens, end) {
        Parsed { result: Ok(Seq::empty()), rest: tokens.drop_first() }
    } else if next_is(tokens, TokenKind::Identifier) {
        value_type_entries(tokens, names, end)
    } else {
        refuse_next(tokens, seq![TokenKind::Identifier, end])
    }
}

/// Reads a structure declaration from behind the keyword `struct`: its name,
/// and its fields between braces.
pub open spec fn structure(tokens: Seq<TokenView>, names: Map<Location, Seq<char>>) -> Parsed<
    StructureView,
> {
    let name = expected_identifier(tokens, names);
    if name.result is Err {
        failed(name)
    } else {
        let open = expected_token(name.rest, TokenKind::OpenBraces);
        if open.result is Err {
            failed(open)
        } else {
            let fields = value_type_list(open.rest, names, TokenKind::CloseBraces);
            if fields.result is Err {
                failed(fields)
            } else {
                Parsed {
                    result: Ok(
                        StructureView { name: name.result->Ok_0, fields: fields.result->Ok_0 },
                    ),
                    rest: fields.rest,
                }
            }
        }
    }
}

/// Reads what stands between the arguments and the body of a function: the
/// opening brace of the body, with a return type in front of it or without.
pub open spec fn return_type(tokens: Seq<TokenView>, names: Map<Location, Seq<char>>) -> Parsed<
    Option<Seq<char>>,
> {
    if next_is(tokens, TokenKind::OpenBraces) {
        Parsed { result: Ok(None), rest: tokens.drop_first() }
    } else if next_is(tokens, TokenKind::RightArrow) {
        let type_id = expected_identifier(tokens.drop_first(), names);
        if type_id.result is Err {
            failed(type_id)
        } else {
            let open = expected_token(type_id.rest, TokenKind::OpenBraces);
            if open.result is Err {
                failed(open)
            } else {
                Parsed { result: Ok(Some(type_id.result->Ok_0)), rest: open.rest }
            }
        }
    } else {
        refuse_next(tokens, seq![TokenKind::RightArrow, TokenKind::OpenBraces])
    }
}

/// Reads the signature of a function from behind the keyword `fn`, up to and
/// including the opening brace of its body.  The body itself is not read: the
/// function gets an empty one.
pub open spec fn function(tokens: Seq<TokenView>, names: Map<Location, Seq<char>>) -> Parsed<
    FunctionView,
> {
    let name = expected_identifier(tokens, names);
    if name.result is Err {
        failed(name)
    } else {
        let open = expected_token(name.rest, TokenKind::OpenParentheses);
        if open.result is Err {
            failed(open)
        } else {
            let arguments = value_type_list(open.rest, names, TokenKind::CloseParentheses);
            if arguments.result is Err {
                failed(arguments)
            } else {
                let returned = return_type(arguments.rest, names);
                if returned.result is Err {
                    failed(returned)
                } else {
                    Parsed {
                        result: Ok(
                            FunctionView {
                                name: name.result->Ok_0,
                                arguments: arguments.result->Ok_0,
                                return_type: returned.result->Ok_0,
                                body: Seq::empty(),
                            },
                        ),
                        rest: returned.rest,
                    }
                }
            }
        }
    }
}

/// `rest` with the functions and structures of `done` in front of its own.
pub open spec fn after_declarations(
    done: ProgramView,
    rest: Result<ProgramView, ParseErrorView>,
) -> Result<ProgramView, ParseErrorView> {
    match rest {
        Ok(more) => Ok(
            ProgramView {
                functions: done.functions + more.functions,
                structs: done.structs + more.structs,
            },
        ),
        Err(error) => Err(error),
    }
}

/// Reads a whole token stream as a sequence of declarations.  Each starts
/// with `fn` or `struct`; the first token that does not fit refuses the
/// stream.
pub open spec fn program(tokens: Seq<TokenView>, names: Map<Location, Seq<char>>) -> Result<
    ProgramView,
    ParseErrorView,
>
    decreases tokens.len(),
    via program_decreases
{
    if tokens.len() == 0 {
        Ok(ProgramView { functions: Seq::empty(), structs: Seq::empty() })
    } else if tokens[0].kind == TokenKind::FunctionDefinition {
        let parsed = function(tokens.drop_first(), names);
        match parsed.result {
            Ok(declared) => after_declarations(
                ProgramView { functions: seq![declared], structs: Seq::empty() },
                program(parsed.rest, names),
            ),
            Err(error) => Err(error),
        }
    } else if tokens[0].kind == TokenKind::Struct {
        let parsed = structure(tokens.drop_first(), names);
        match parsed.result {
            Ok(declared) => after_declarations(
                ProgramView { functions: Seq::empty(), structs: seq![declared] },
                program(parsed.rest, names),
            ),
            Err(error) => Err(error),
        }
    } else {
        Err(
            ParseErrorView {
                token: Some(tokens[0]),
                expected: seq![TokenKind::FunctionDefinition, TokenKind::Struct],
            },
        )
    }
}

#[via_fn]
proof fn program_decreases(tokens: Seq<TokenView>, names: Map<Location, Seq<char>>) {
    if tokens.len() > 0 {
        lemma_function_rest(tokens.drop_first(), names);
        lemma_structure_rest(tokens.drop_first(), names);
    }
}

/// A list leaves no more tokens than it was given.
pub proof fn lemma_value_type_entries_rest(
    tokens: Seq<TokenView>,
    names: Map<Location, Seq<char>>,
    end: TokenKind,
)
    ensures
        value_type_entries(tokens, names, end).rest.len() <= tokens.len(),
    decreases tokens.len(),
{
    let name = expected_identifier(tokens, names);
    if name.result is Ok {
        let separator = expected_token(name.rest, TokenKind::FieldTypeSeparator);
        if separator.result is Ok {
            let type_id = expected_identifier(separator.rest, names);
            if type_id.result is Ok {
                let rest = type_id.rest;
                if next_is(rest, TokenKind::Comma) {
                    lemma_value_type_entries_rest(rest.drop_first(), names, end);
                }
            }
        }
    }
}

/// A structure declaration leaves no more tokens than it was given.
pub proof fn lemma_structure_rest(tokens: Seq<TokenView>, names: Map<Location, Seq<char>>)
    ensures
        structure(tokens, names).rest.len() <= tokens.len(),
{
    let name = expected_identifier(tokens, names);
    if name.result is Ok {
        let open = expected_token(name.rest, TokenKind::OpenBraces);
        if open.result is Ok {
            lemma_value_type_entries_rest(open.rest, names, TokenKind::CloseBraces);
        }
    }
}

/// A function signature leaves no more tokens than it was given.
pub proof fn lemma_function_rest(tokens: Seq<TokenView>, names: Map<Location, Seq<char>>)
    ensures
        function(tokens, names).rest.len() <= tokens.len(),
{
    let name = expected_identifier(tokens, names);
    if name.result is Ok {
        let open = expected_token(name.rest, TokenKind::OpenParentheses);
        if open.result is Ok {
            lemma_value_type_entries_rest(open.rest, names, TokenKind::CloseParentheses);
        }
    }
}

} // verus!
