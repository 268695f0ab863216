//! The declaration parser: from a token stream to the structures and
//! function signatures of a program.

use crate::grammar::{
    after_declarations, after_entries, after_next, expected_identifier, expected_token, function,
    lemma_function_rest, lemma_structure_rest, next_token, program, structure,
    value_type_entries, value_type_list, FunctionView, ParseErrorView, Parsed, ProgramView,
    StructureView,
};
use crate::token::{Token, TokenKind, TokenView};
use crate::tokenizer::LiteralData;
use vstd::prelude::*;
use vstd::slice::slice_to_vec;

verus! {

/// A statement of a function body.  Bodies are not read yet, so there is
/// nothing in one.
#[derive(Debug)]
pub struct Statement {}

/// The body of a function.
#[derive(Debug)]
pub struct CodeBlock {
    statements: Vec<Statement>,
}

impl View for CodeBlock {
    type V = Seq<Statement>;

    closed spec fn view(&self) -> Seq<Statement> {
        self.statements@
    }
}

impl CodeBlock {
    /// The statements of the block.
    pub fn statements(&self) -> (statements: &Vec<Statement>)
        ensures
            statements@ == self@,
    {
        &self.statements
    }
}

/// The statements of a text that is read as a whole.
pub struct AbstractSyntaxTree {
    statements: Vec<Statement>,
}

impl View for AbstractSyntaxTree {
    type V = Seq<Statement>;

    closed spec fn view(&self) -> Seq<Statement> {
        self.statements@
    }
}

/// A structure declaration: its name, and its fields as pairs of name and
/// type, in the order they were written.
#[derive(Debug)]
pub struct Structure {
    name: String,
    fields: Vec<(String, String)>,
}

impl View for Structure {
    type V = StructureView;

    closed spec fn view(&self) -> StructureView {
        StructureView { name: self.name@, fields: self.fields.deep_view() }
    }
}

impl DeepView for Structure {
    type V = StructureView;

    open spec fn deep_view(&self) -> StructureView {
        self@
    }
}

impl Structure {
    /// The name of the structure.
    pub fn name(&self) -> (name: &String)
        ensures
            name@ == self@.name,
    {
        &self.name
    }

    /// The fields, each a name and a type, in the order they were written.
    pub fn fields(&self) -> (fields: &Vec<(String, String)>)
        ensures
            fields.deep_view() == self@.fields,
    {
        &self.fields
    }
}

/// A function declaration: its name, its arguments as pairs of name and
/// type, its return type where it names one, and its body.
#[derive(Debug)]
pub struct Function {
    name: String,
    arguments: Vec<(String, String)>,
    return_type: Option<String>,
    body: CodeBlock,
}

impl View for Function {
    type V = FunctionView;

    closed spec fn view(&self) -> FunctionView {
        FunctionView {
            name: self.name@,
            arguments: self.arguments.deep_view(),
            return_type: self.return_type.deep_view(),
            body: self.body@,
        }
    }
}

impl DeepView for Function {
    type V = FunctionView;

    open spec fn deep_view(&self) -> FunctionView {
        self@
    }
}

impl Function {
    /// The name of the function.
    pub fn name(&self) -> (name: &String)
        ensures
            name@ == self@.name,
    {
        &self.name
    }

    /// The arguments, each a name and a type, in the order they were written.
    pub fn arguments(&self) -> (arguments: &Vec<(String, String)>)
        ensures
            arguments.deep_view() == self@.arguments,
    {
        &self.arguments
    }

    /// The type that the function returns, `None` where it names none.
    pub fn return_type(&self) -> (return_type: &Option<String>)
        ensures
            return_type.deep_view() == self@.return_type,
    {
        &self.return_type
    }

    /// The body of the function.
    pub fn body(&self) -> (body: &CodeBlock)
        ensures
            body@ == self@.body,
    {
        &self.body
    }
}

/// The declarations of a program.
#[derive(Debug)]
pub struct Program {
    functions: Vec<Function>,
    structs: Vec<Structure>,
}

impl View for Program {
    type V = ProgramView;

    closed spec fn view(&self) -> ProgramView {
        ProgramView { functions: self.functions.deep_view(), structs: self.structs.deep_view() }
    }
}

/// Why a token stream is no program: the token that did not fit, `None`
/// where the stream ended too early, and the kinds that would have fitted in
/// its place.
#[derive(Debug)]
pub struct ParseError {
    token: Option<Token>,
    expected: Vec<TokenKind>,
}

impl View for ParseError {
    type V = ParseErrorView;

    closed spec fn view(&self) -> ParseErrorView {
        ParseErrorView { token: self.token.deep_view(), expected: self.expected@ }
    }
}

impl ParseError {
    /// The token that did not fit, `None` where the stream ended too early.
    pub fn token(&self) -> (token: &Option<Token>)
        ensures
            token.deep_view() == self@.token,
    {
        &self.token
    }

    /// The kinds that would have fitted.
    pub fn expected(&self) -> (expected: &Vec<TokenKind>)
        ensures
            expected@ == self@.expected,
    {
        &self.expected
    }
}

/// A token stream that is read from the front, with a look at the next token
/// before it is taken.
pub struct TokenIter {
    tokens: Vec<Token>,
    position: usize,
}

impl View for TokenIter {
    type V = Seq<TokenView>;

    /// The tokens that are still to be read.
    closed spec fn view(&self) -> Seq<TokenView> {
        self.tokens.deep_view().skip(self.position as int)
    }
}

impl TokenIter {
    #[verifier::type_invariant]
    spec fn well_formed(self) -> bool {
        self.position <= self.tokens@.len()
    }

    /// A stream that reads `tokens` from the first on.
    pub fn new(tokens: Vec<Token>) -> (iter: Self)
        ensures
            iter@ == tokens.deep_view(),
    {
        TokenIter { tokens, position: 0 }
    }

    /// The next token, which stays in the stream.
    pub fn peek(&self) -> (token: Option<&Token>)
        ensures
            token.deep_view() == next_token(self@),
    {
        proof {
            use_type_invariant(self);
        }
        if self.position < self.tokens.len() {
            Some(&self.tokens[self.position])
        } else {
            None
        }
    }

    /// Takes the next token out of the stream.
    pub fn next(&mut self) -> (token: Option<Token>)
        ensures
            token.deep_view() == next_token(old(self)@),
            final(self)@ == after_next(old(self)@),
    {
        proof {
            use_type_invariant(&*self);
        }
        if self.position < self.tokens.len() {
            let token = self.tokens[self.position];
            self.position += 1;
            Some(token)
        } else {
            None
        }
    }
}

/// A result as a plain value: what was parsed by its view, or the error by
/// its view.
pub open spec fn viewed<T: View>(result: Result<T, ParseError>) -> Result<T::V, ParseErrorView> {
    match result {
        Ok(value) => Ok(value@),
        Err(error) => Err(error@),
    }
}

/// A result as a plain value, where what was parsed is a list: the list by
/// the views of its entries, or the error by its view.
pub open spec fn deeply_viewed<T: DeepView>(result: Result<T, ParseError>) -> Result<
    T::V,
    ParseErrorView,
> {
    match result {
        Ok(value) => Ok(value.deep_view()),
        Err(error) => Err(error@),
    }
}

/// The error for a token that was read where one of `expected` had to stand.
pub fn err_expected(token: Option<Token>, expected: &[TokenKind]) -> (error: ParseError)
    ensures
        error@ == (ParseErrorView { token: token.deep_view(), expected: expected@ }),
{
    ParseError { token, expected: slice_to_vec(expected) }
}

/// Takes the next token, which has to be of `kind`.
pub fn expect_token(tokens: &mut TokenIter, kind: TokenKind) -> (result: Result<Token, ParseError>)
    ensures
        expected_token(old(tokens)@, kind) == (Parsed {
            result: viewed(result),
            rest: final(tokens)@,
        }),
{
    let next_token = tokens.next();
    match next_token {
        Some(token) if *token.kind() == kind => Ok(token),
        _ => {
            let error = err_expected(next_token, &[kind]);
            assert(error@.expected =~= seq![kind]);
            Err(error)
        },
    }
}

/// Takes the next token, which has to be an identifier with a name in
/// `literal_data`, and gives that name.
pub fn expect_identifier<'a>(tokens: &mut TokenIter, literal_data: &'a LiteralData) -> (result:
    Result<&'a String, ParseError>)
    ensures
        expected_identifier(old(tokens)@, literal_data@.identifiers) == (Parsed {
            result: viewed(result),
            rest: final(tokens)@,
        }),
{
    let token = tokens.next();
    let found = match &token {
        Some(t) => literal_data.try_get_identifier(t),
        None => None,
    };
    match found {
        Some(name) => Ok(name),
        None => {
            let error = err_expected(token, &[TokenKind::Identifier]);
            assert(error@.expected =~= seq![TokenKind::Identifier]);
            Err(error)
        },
    }
}

/// Reads a list of `name: type` pairs up to and including the token
/// `end_token`.  An empty list is just that token.  A comma stands between
/// two entries, and asks for one more entry wherever it stands.
pub fn parse_value_type_list(
    tokens: &mut TokenIter,
    literal_data: &LiteralData,
    end_token: TokenKind,
) -> (result: Result<Vec<(String, String)>, ParseError>)
    ensures
        value_type_list(old(tokens)@, literal_data@.identifiers, end_token) == (Parsed {
            result: deeply_viewed(result),
            rest: final(tokens)@,
        }),
{
    let ghost names = literal_data@.identifiers;
    let ghost whole = value_type_list(tokens@, names, end_token);
    let mut list: Vec<(String, String)> = Vec::new();
    let first = match tokens.peek() {
        Some(token) => Some(*token.kind()),
        None => None,
    };
    match first {
        Some(kind) if kind == end_token => {
            tokens.next();
            assert(list.deep_view() =~= Seq::empty());
            return Ok(list);
        },
        Some(TokenKind::Identifier) => {},
        _ => {
            let error = err_expected(tokens.next(), &[TokenKind::Identifier, end_token]);
            return Err(error);
        },
    }
    loop
        invariant_except_break
            whole == after_entries(
                list.deep_view(),
                value_type_entries(tokens@, names, end_token),
            ),
        invariant
            names == literal_data@.identifiers,
            whole == value_type_list(old(tokens)@, names, end_token),
        ensures
            whole.rest == tokens@,
            whole.result == Ok::<_, ParseErrorView>(list.deep_view()),
        decreases tokens@.len(),
    {
        let ghost done = list.deep_view();
        let value_name = match expect_identifier(tokens, literal_data) {
            Ok(name) => name.clone(),
            Err(error) => {
                return Err(error);
            },
        };
        match expect_token(tokens, TokenKind::FieldTypeSeparator) {
            Ok(_) => {},
            Err(error) => {
                return Err(error);
            },
        }
        let value_type = match expect_identifier(tokens, literal_data) {
            Ok(name) => name.clone(),
            Err(error) => {
                return Err(error);
            },
        };
        let ghost entry = (value_name@, value_type@);
        list.push((value_name, value_type));
        assert(list.deep_view() =~= done.push(entry));

        let next_token = tokens.next();
        let next_kind = match &next_token {
            Some(token) => Some(*token.kind()),
            None => None,
        };
        let separated = match next_kind {
            Some(kind) => kind == TokenKind::Comma,
            None => false,
        };
        let closed = match next_kind {
            Some(kind) => kind == end_token,
            None => false,
        };
        if separated {
            proof {
                let more = value_type_entries(tokens@, names, end_token);
                if let Ok(further) = more.result {
                    assert(done + (seq![entry] + further) =~= done.push(entry) + further);
                }
            }
        } else if closed {
            assert(done + seq![entry] =~= done.push(entry));
            break;
        } else {
            let error = err_expected(next_token, &[TokenKind::Comma, end_token]);
            return Err(error);
        }
    }
    Ok(list)
}

/// Reads the body of a function.  Statements are not part of the grammar
/// yet: the body comes back empty, and the tokens stay where they are.
#[allow(unused_variables)]
pub fn parse_code_block(tokens: &mut TokenIter, literal_data: &LiteralData) -> (result: Result<
    CodeBlock,
    ParseError,
>)
    ensures
        final(tokens)@ == old(tokens)@,
        viewed(result) == Ok::<_, ParseErrorView>(Seq::<Statement>::empty()),
{
    Ok(CodeBlock { statements: Vec::new() })
}

/// Reads a structure declaration from behind the keyword `struct`.
pub fn parse_struct(tokens: &mut TokenIter, literal_data: &LiteralData) -> (result: Result<
    Structure,
    ParseError,
>)
    ensures
        structure(old(tokens)@, literal_data@.identifiers) == (Parsed {
            result: viewed(result),
            rest: final(tokens)@,
        }),
{
    let struct_name = match expect_identifier(tokens, literal_data) {
        Ok(name) => name,
        Err(error) => {
            return Err(error);
        },
    };
    match expect_token(tokens, TokenKind::OpenBraces) {
        Ok(_) => {},
        Err(error) => {
            return Err(error);
        },
    }
    let fields = match parse_value_type_list(tokens, literal_data, TokenKind::CloseBraces) {
        Ok(list) => list,
        Err(error) => {
            return Err(error);
        },
    };
    Ok(Structure { name: struct_name.clone(), fields })
}

/// Reads the signature of a function from behind the keyword `fn`, up to and
/// including the opening brace of its body.
pub fn parse_function(tokens: &mut TokenIter, literal_data: &LiteralData) -> (result: Result<
    Function,
    ParseError,
>)
    ensures
        function(old(tokens)@, literal_data@.identifiers) == (Parsed {
            result: viewed(result),
            rest: final(tokens)@,
        }),
{
    let name = match expect_identifier(tokens, literal_data) {
        Ok(name) => name.clone(),
        Err(error) => {
            return Err(error);
        },
    };
    match expect_token(tokens, TokenKind::OpenParentheses) {
        Ok(_) => {},
        Err(error) => {
            return Err(error);
        },
    }
    let arguments = match parse_value_type_list(
        tokens,
        literal_data,
        TokenKind::CloseParentheses,
    ) {
        Ok(list) => list,
        Err(error) => {
            return Err(error);
        },
    };

    let next_token = tokens.next();
    let next_kind = match &next_token {
        Some(token) => Some(*token.kind()),
        None => None,
    };
    let return_type = match next_kind {
        Some(TokenKind::OpenBraces) => None,
        Some(TokenKind::RightArrow) => {
            let returned = match expect_identifier(tokens, literal_data) {
                Ok(name) => name,
                Err(error) => {
                    return Err(error);
                },
            };
            match expect_token(tokens, TokenKind::OpenBraces) {
                Ok(_) => {},
                Err(error) => {
                    return Err(error);
                },
            }
            Some(returned.clone())
        },
        _ => {
            let error = err_expected(next_token, &[TokenKind::RightArrow, TokenKind::OpenBraces]);
            return Err(error);
        },
    };

    let body = match parse_code_block(tokens, literal_data) {
        Ok(block) => block,
        Err(error) => {
            return Err(error);
        },
    };

    Ok(Function { name, arguments, return_type, body })
}

impl Program {
    /// Reads a whole token stream as the declarations of a program.
    ///
    /// Each declaration starts with `fn` or `struct`.  The first token that
    /// does not fit ends the work, and nothing of the program is handed out
    /// then.
    pub fn from_tokens(tokens: Vec<Token>, literal_data: LiteralData) -> (result: Result<
        Self,
        ParseError,
    >)
        ensures
            program(tokens.deep_view(), literal_data@.identifiers) == viewed(result),
    {
        let ghost names = literal_data@.identifiers;
        let ghost all = tokens.deep_view();
        let ghost whole = program(all, names);
        let mut functions: Vec<Function> = Vec::new();
        let mut structs: Vec<Structure> = Vec::new();

        let mut stream = TokenIter::new(tokens);
        loop
            invariant_except_break
                whole == after_declarations(
                    ProgramView {
                        functions: functions.deep_view(),
                        structs: structs.deep_view(),
                    },
                    program(stream@, names),
                ),
            invariant
                names == literal_data@.identifiers,
                all == tokens.deep_view(),
                whole == program(all, names),
            ensures
                whole == Ok::<_, ParseErrorView>(
                    ProgramView {
                        functions: functions.deep_view(),
                        structs: structs.deep_view(),
                    },
                ),
            decreases stream@.len(),
        {
            let ghost done_functions = functions.deep_view();
            let ghost done_structs = structs.deep_view();
            let token = match stream.next() {
                Some(token) => token,
                None => {
                    break;
                },
            };
            match token.kind() {
                TokenKind::FunctionDefinition => {
                    proof {
                        lemma_function_rest(stream@, names);
                    }
                    let declared = match parse_function(&mut stream, &literal_data) {
                        Ok(declared) => declared,
                        Err(error) => {
                            return Err(error);
                        },
                    };
                    let ghost view = declared@;
                    functions.push(declared);
                    proof {
                        assert(functions.deep_view() =~= done_functions.push(view));
                        if let Ok(more) = program(stream@, names) {
                            assert(done_functions + (seq![view] + more.functions)
                                =~= done_functions.push(view) + more.functions);
                        }
                    }
                },
                TokenKind::Struct => {
                    proof {
                        lemma_structure_rest(stream@, names);
                    }
                    let declared = match parse_struct(&mut stream, &literal_data) {
                        Ok(declared) => declared,
                        Err(error) => {
                            return Err(error);
                        },
                    };
                    let ghost view = declared@;
                    structs.push(declared);
                    proof {
                        assert(structs.deep_view() =~= done_structs.push(view));
                        if let Ok(more) = program(stream@, names) {
                            assert(done_structs + (seq![view] + more.structs)
                                =~= done_structs.push(view) + more.structs);
                        }
                    }
                },
                _ => {
                    let error = err_expected(
                        Some(token),
                        &[TokenKind::FunctionDefinition, TokenKind::Struct],
                    );
                    return Err(error);
                },
            }
        }

        Ok(Self { functions, structs })
    }

    /// The functions of the program, in the order they were declared.
    pub fn functions(&self) -> (functions: &Vec<Function>)
        ensures
            functions.deep_view() == self@.functions,
    {
        &self.functions
    }

    /// The structures of the program, in the order they were declared.
    pub fn structs(&self) -> (structs: &Vec<Structure>)
        ensures
            structs.deep_view() == self@.structs,
    {
        &self.structs
    }
}

} // verus!
