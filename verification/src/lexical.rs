//! The lexical grammar: what the tokens of a text are, as a function of the
//! text alone.

use crate::charclass::{
    escape_value, is_ascii_letter, is_digit, is_identifier_continue, is_identifier_start,
    is_number_part, is_whitespace,
};
use crate::operators::{
    is_longest_operator_at, lemma_operator_nonempty, longest_operator, operator_spelling,
};
use crate::scanner::location_at;
use crate::token::{Location, TokenKind, TokenView};
use crate::tokenizer::{TokenizingError, TokenizingErrorKind};
use vstd::prelude::*;

verus! {

/// The first position from `p` on whose code point is no `member`, or the end
/// of the text.
pub open spec fn run_end(text: Seq<char>, p: int, member: spec_fn(char) -> bool) -> int
    decreases text.len() - p,
{
    if 0 <= p < text.len() && member(text[p]) {
        run_end(text, p + 1, member)
    } else {
        p
    }
}

/// The code points that an identifier or keyword goes on with.
pub open spec fn identifier_part() -> spec_fn(char) -> bool {
    |c: char| is_identifier_continue(c)
}

/// The code points that an integer literal goes on with.
pub open spec fn number_part() -> spec_fn(char) -> bool {
    |c: char| is_number_part(c)
}

/// The code points that a line goes on with: all but the newline.
pub open spec fn within_line() -> spec_fn(char) -> bool {
    |c: char| c != '\n'
}

/// The code points of an integer literal that are kept: its digits.
pub open spec fn decimal_digit() -> spec_fn(char) -> bool {
    |c: char| is_digit(c)
}

/// Where the identifier or keyword that starts at `p` ends.
pub open spec fn identifier_end(text: Seq<char>, p: int) -> int {
    run_end(text, p, identifier_part())
}

/// Where the digits and separators of the integer literal that starts at `p`
/// end.
pub open spec fn number_end(text: Seq<char>, p: int) -> int {
    run_end(text, p, number_part())
}

/// Where the comment that starts at `p` ends: behind the next newline, or at
/// the end of the text.
pub open spec fn comment_end(text: Seq<char>, p: int) -> int {
    let newline = run_end(text, p, within_line());
    if newline < text.len() {
        newline + 1
    } else {
        newline
    }
}

/// The keyword that is spelled `word`, or `Identifier`.
pub open spec fn word_kind(word: Seq<char>) -> TokenKind {
    if TokenKind::FunctionDefinition.spelling() == Some(word) {
        TokenKind::FunctionDefinition
    } else if TokenKind::Mutable.spelling() == Some(word) {
        TokenKind::Mutable
    } else if TokenKind::Struct.spelling() == Some(word) {
        TokenKind::Struct
    } else {
        TokenKind::Identifier
    }
}

/// What a string literal comes to, read from behind its opening quote.
pub enum StringBody {
    /// The literal is over at `end`, behind its closing quote or at the end of
    /// the text, and stands for `content`.
    Content { content: Seq<char>, end: int },
    /// What stands at `at` follows a backslash and is no escape specifier.
    BadEscape { at: int },
}

/// `body` with one more decoded character in front.
pub open spec fn after_char(c: char, body: StringBody) -> StringBody {
    match body {
        StringBody::Content { content, end } => StringBody::Content {
            content: seq![c] + content,
            end,
        },
        StringBody::BadEscape { at } => body,
    }
}

/// Reads a string literal from position `p`, which lies behind the opening
/// quote.  An unescaped quote closes the literal; a literal that the text ends
/// in is complete too.
pub open spec fn string_body(text: Seq<char>, p: int) -> StringBody
    decreases text.len() - p,
{
    if p < 0 || p >= text.len() {
        StringBody::Content { content: Seq::empty(), end: p }
    } else if text[p] == '"' {
        StringBody::Content { content: Seq::empty(), end: p + 1 }
    } else if text[p] == '\\' {
        if p + 1 < text.len() && escape_value(text[p + 1]) is Some {
            after_char(escape_value(text[p + 1]).unwrap(), string_body(text, p + 2))
        } else {
            StringBody::BadEscape { at: p + 1 }
        }
    } else {
        after_char(text[p], string_body(text, p + 1))
    }
}

/// What the tokenizer makes of the code point at a position.
pub enum Step {
    /// Whitespace or a comment: nothing to emit, go on at `next`.
    Skip { next: int },
    /// A token of `kind` that ends before `next`.  `payload` is its text for
    /// the side table, empty for kinds that have none.
    Emit { kind: TokenKind, payload: Seq<char>, next: int },
    /// No token: the text is refused because of what stands at `at`.
    Fail { offence: TokenizingErrorKind, at: int },
}

/// The dispatch on the code point at position `p`.
pub open spec fn step_at(text: Seq<char>, p: int) -> Step
    recommends
        0 <= p < text.len(),
{
    let c = text[p];
    if is_whitespace(c) {
        Step::Skip { next: p + 1 }
    } else if c == '#' {
        Step::Skip { next: comment_end(text, p) }
    } else if is_identifier_start(c) {
        let end = identifier_end(text, p);
        let word = text.subrange(p, end);
        Step::Emit {
            kind: word_kind(word),
            payload: if word_kind(word) == TokenKind::Identifier {
                word
            } else {
                Seq::empty()
            },
            next: end,
        }
    } else if is_digit(c) {
        let end = number_end(text, p);
        if end < text.len() && is_ascii_letter(text[end]) {
            Step::Fail { offence: TokenizingErrorKind::InvalidSuffix, at: end }
        } else {
            Step::Emit {
                kind: TokenKind::IntegerLiteral,
                payload: text.subrange(p, end).filter(decimal_digit()),
                next: end,
            }
        }
    } else if c == '"' {
        match string_body(text, p + 1) {
            StringBody::Content { content, end } => Step::Emit {
                kind: TokenKind::StringLiteral,
                payload: content,
                next: end,
            },
            StringBody::BadEscape { at } => Step::Fail {
                offence: TokenizingErrorKind::InvalidEscape,
                at,
            },
        }
    } else {
        match longest_operator(text, p) {
            Some(kind) => Step::Emit {
                kind,
                payload: Seq::empty(),
                next: p + operator_spelling(kind).len(),
            },
            None => Step::Fail { offence: TokenizingErrorKind::UnknownToken, at: p },
        }
    }
}

/// A token in the making: its kind, the position of its first code point, and
/// its payload.
pub struct Lexeme {
    pub kind: TokenKind,
    pub start: int,
    pub payload: Seq<char>,
}

/// `done`, then what `rest` came to.
pub open spec fn followed_by(
    done: Seq<Lexeme>,
    rest: Result<Seq<Lexeme>, TokenizingError>,
) -> Result<Seq<Lexeme>, TokenizingError> {
    match rest {
        Ok(more) => Ok(done + more),
        Err(error) => Err(error),
    }
}

/// The lexemes of `text` from position `p` on, or the first offence.
pub open spec fn lexemes_from(text: Seq<char>, p: int) -> Result<Seq<Lexeme>, TokenizingError>
    decreases text.len() - p,
    via lexemes_from_decreases
{
    if p < 0 || p >= text.len() {
        Ok(Seq::empty())
    } else {
        match step_at(text, p) {
            Step::Skip { next } => lexemes_from(text, next),
            Step::Emit { kind, payload, next } => followed_by(
                seq![Lexeme { kind, start: p, payload }],
                lexemes_from(text, next),
            ),
            Step::Fail { offence, at } => Err(
                TokenizingError { location: location_at(text, at), kind: offence },
            ),
        }
    }
}

#[via_fn]
proof fn lexemes_from_decreases(text: Seq<char>, p: int) {
    if 0 <= p < text.len() {
        lemma_step_moves(text, p);
    }
}

/// A run ends at or behind its start, within the text.  All that lies in it
/// is a member, and what stands at its end is none.
pub proof fn lemma_run_end(text: Seq<char>, p: int, member: spec_fn(char) -> bool)
    requires
        0 <= p <= text.len(),
    ensures
        p <= run_end(text, p, member) <= text.len(),
        forall|i: int| p <= i < run_end(text, p, member) ==> member(#[trigger] text[i]),
        run_end(text, p, member) < text.len() ==> !member(text[run_end(text, p, member)]),
    decreases text.len() - p,
{
    if p < text.len() && member(text[p]) {
        lemma_run_end(text, p + 1, member);
    }
}

/// A stretch of members with no member behind it is the run.
pub proof fn lemma_run_end_is(text: Seq<char>, p: int, end: int, member: spec_fn(char) -> bool)
    requires
        0 <= p <= end <= text.len(),
        forall|i: int| p <= i < end ==> member(#[trigger] text[i]),
        end < text.len() ==> !member(text[end]),
    ensures
        run_end(text, p, member) == end,
    decreases end - p,
{
    if p < end {
        lemma_run_end_is(text, p + 1, end, member);
    }
}

/// A string literal is over, or fails, behind the position it is read from
/// and within the text, or one position behind the text for a backslash that
/// the text ends in.
pub proof fn lemma_string_body_bounds(text: Seq<char>, p: int)
    requires
        0 <= p <= text.len(),
    ensures
        match string_body(text, p) {
            StringBody::Content { content, end } => p <= end <= text.len(),
            StringBody::BadEscape { at } => p < at <= text.len(),
        },
    decreases text.len() - p,
{
    if p < text.len() && text[p] != '"' {
        if text[p] == '\\' {
            if p + 1 < text.len() && escape_value(text[p + 1]) is Some {
                lemma_string_body_bounds(text, p + 2);
            }
        } else {
            lemma_string_body_bounds(text, p + 1);
        }
    }
}

/// Every step moves on: what it skips or emits ends behind `p`, and an
/// offence stands at `p` or behind it.
pub proof fn lemma_step_moves(text: Seq<char>, p: int)
    requires
        0 <= p < text.len(),
    ensures
        match step_at(text, p) {
            Step::Skip { next } => p < next <= text.len(),
            Step::Emit { kind, payload, next } => p < next <= text.len(),
            Step::Fail { offence, at } => p <= at <= text.len(),
        },
{
    let c = text[p];
    if is_whitespace(c) {
    } else if c == '#' {
        lemma_run_end(text, p + 1, within_line());
    } else if is_identifier_start(c) {
        lemma_run_end(text, p + 1, identifier_part());
    } else if is_digit(c) {
        lemma_run_end(text, p + 1, number_part());
    } else if c == '"' {
        lemma_string_body_bounds(text, p + 1);
    } else {
        if let Some(kind) = longest_operator(text, p) {
            lemma_operator_nonempty(kind);
        }
    }
}

/// The three side tables of literal payloads, each from the location of a
/// token to its text.
pub struct LiteralTables {
    pub identifiers: Map<Location, Seq<char>>,
    pub integer_literals: Map<Location, Seq<char>>,
    pub string_literals: Map<Location, Seq<char>>,
}

/// The token that a lexeme of `text` becomes.
pub open spec fn token_of(text: Seq<char>, lexeme: Lexeme) -> TokenView {
    TokenView { kind: lexeme.kind, location: location_at(text, lexeme.start) }
}

/// The token stream that a sequence of lexemes of `text` becomes.
pub open spec fn tokens_of(text: Seq<char>, lexemes: Seq<Lexeme>) -> Seq<TokenView> {
    Seq::new(lexemes.len(), |i: int| token_of(text, lexemes[i]))
}

/// The side table for `kind`: the payload of each lexeme of that kind, under
/// the location of the lexeme.
pub open spec fn payloads_of(text: Seq<char>, lexemes: Seq<Lexeme>, kind: TokenKind) -> Map<
    Location,
    Seq<char>,
>
    decreases lexemes.len(),
{
    if lexemes.len() == 0 {
        Map::empty()
    } else {
        let before = payloads_of(text, lexemes.drop_last(), kind);
        let lexeme = lexemes.last();
        if lexeme.kind == kind {
            before.insert(location_at(text, lexeme.start), lexeme.payload)
        } else {
            before
        }
    }
}

/// The side tables that a sequence of lexemes of `text` fills.
pub open spec fn tables_of(text: Seq<char>, lexemes: Seq<Lexeme>) -> LiteralTables {
    LiteralTables {
        identifiers: payloads_of(text, lexemes, TokenKind::Identifier),
        integer_literals: payloads_of(text, lexemes, TokenKind::IntegerLiteral),
        string_literals: payloads_of(text, lexemes, TokenKind::StringLiteral),
    }
}

/// What tokenizing `text` comes to: its token stream and side tables, or its
/// first offence.
pub open spec fn tokenization(text: Seq<char>) -> Result<
    (Seq<TokenView>, LiteralTables),
    TokenizingError,
> {
    match lexemes_from(text, 0) {
        Ok(lexemes) => Ok((tokens_of(text, lexemes), tables_of(text, lexemes))),
        Err(error) => Err(error),
    }
}

/// One more lexeme behind `done` is the same as one more in front of what
/// follows.
pub proof fn lemma_followed_by_push(
    done: Seq<Lexeme>,
    lexeme: Lexeme,
    rest: Result<Seq<Lexeme>, TokenizingError>,
)
    ensures
        followed_by(done, followed_by(seq![lexeme], rest)) == followed_by(done.push(lexeme), rest),
{
    if let Ok(more) = rest {
        assert(done + (seq![lexeme] + more) =~= done.push(lexeme) + more);
    }
}

/// One more lexeme is one more token.
pub proof fn lemma_tokens_of_push(text: Seq<char>, done: Seq<Lexeme>, lexeme: Lexeme)
    ensures
        tokens_of(text, done.push(lexeme)) == tokens_of(text, done).push(token_of(text, lexeme)),
{
}

/// One more lexeme is one more entry in the side table of its kind, and none
/// in the others.
pub proof fn lemma_payloads_of_push(
    text: Seq<char>,
    done: Seq<Lexeme>,
    lexeme: Lexeme,
    kind: TokenKind,
)
    ensures
        payloads_of(text, done.push(lexeme), kind) == if lexeme.kind == kind {
            payloads_of(text, done, kind).insert(location_at(text, lexeme.start), lexeme.payload)
        } else {
            payloads_of(text, done, kind)
        },
{
    assert(done.push(lexeme).drop_last() =~= done);
}

} // verus!
