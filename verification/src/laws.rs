//! What holds of every text and every token stream: the laws of the
//! tokenizer and of the declaration parser, each with its proof.

use crate::charclass::{escape_value, is_ascii_letter, is_digit, is_number_part, is_whitespace};
use crate::grammar::{
    expected_identifier, expected_token, value_type_entries, value_type_list, ParseErrorView,
    Parsed,
};
use crate::lexical::{
    comment_end, decimal_digit, identifier_end, lemma_run_end, lemma_run_end_is,
    lemma_step_moves, lexemes_from, number_end, number_part, payloads_of, step_at, string_body,
    token_of, tokenization, tokens_of, within_line, Lexeme, LiteralTables, Step, StringBody,
};
use crate::operators::{
    is_longest_operator_at, lemma_longest_operator_is, longest_operator, operator_at,
    operator_spelling,
};
use crate::scanner::{lemma_location_unique, location_at};
use crate::token::{Location, Token, TokenKind, TokenView};
use crate::tokenizer::{
    payload_of, tokenized, LiteralData, TokenizingError, TokenizingErrorKind,
};
use vstd::prelude::*;

verus! {

/// Tokenizing is a function of the text alone: whatever two runs on one text
/// hand out, they agree on the token stream and on the side tables, or else on
/// the error.
pub proof fn lemma_tokenizing_is_repeatable(
    contents: Seq<char>,
    first: Result<(Vec<Token>, LiteralData), TokenizingError>,
    second: Result<(Vec<Token>, LiteralData), TokenizingError>,
)
    requires
        tokenized(contents, first),
        tokenized(contents, second),
    ensures
        match (first, second) {
            (Ok(one), Ok(other)) => one.0.deep_view() == other.0.deep_view() && one.1@ == other.1@,
            (Err(one), Err(other)) => one == other,
            _ => false,
        },
{
}

/// Whether a comment that starts at `from` reaches position `to`: a `#`
/// stands at `from`, and no newline between there and `to`.
pub open spec fn comment_reaches(text: Seq<char>, from: int, to: int) -> bool {
    &&& 0 <= from <= to
    &&& text[from] == '#'
    &&& forall|k: int| from <= k < to ==> #[trigger] text[k] != '\n'
}

/// Whether the code point at position `i` is whitespace or part of a comment.
pub open spec fn blank_at(text: Seq<char>, i: int) -> bool {
    is_whitespace(text[i]) || exists|from: int| comment_reaches(text, from, i)
}

/// Whether a text holds nothing but whitespace and comments.
pub open spec fn is_blank(text: Seq<char>) -> bool {
    forall|i: int| 0 <= i < text.len() ==> #[trigger] blank_at(text, i)
}

/// Whether the code point at position `i` is whitespace or part of a comment
/// that starts at `p` or behind it.
spec fn blank_behind(text: Seq<char>, p: int, i: int) -> bool {
    is_whitespace(text[i]) || exists|from: int| p <= from && comment_reaches(text, from, i)
}

/// Whether all of `text` from `p` on is whitespace or part of a comment that
/// starts at `p` or behind it.
spec fn blank_from(text: Seq<char>, p: int) -> bool {
    forall|i: int| p <= i < text.len() ==> #[trigger] blank_behind(text, p, i)
}

proof fn lemma_blank_from(text: Seq<char>, p: int)
    requires
        0 <= p <= text.len(),
        blank_from(text, p),
    ensures
        lexemes_from(text, p) == Ok::<_, TokenizingError>(Seq::<Lexeme>::empty()),
    decreases text.len() - p,
{
    if p < text.len() {
        lemma_step_moves(text, p);
        let c = text[p];
        assert(blank_behind(text, p, p));
        if is_whitespace(c) {
            assert forall|i: int| p + 1 <= i < text.len() implies #[trigger] blank_behind(
                text,
                p + 1,
                i,
            ) by {
                assert(blank_behind(text, p, i));
            }
            lemma_blank_from(text, p + 1);
        } else {
            let end = comment_end(text, p);
            lemma_run_end(text, p, within_line());
            assert forall|i: int| end <= i < text.len() implies #[trigger] blank_behind(
                text,
                end,
                i,
            ) by {
                assert(blank_behind(text, p, i));
            }
            lemma_blank_from(text, end);
        }
    }
}

/// A text of nothing but whitespace and comments is valid, and has no tokens
/// and no literals.
pub proof fn lemma_blank_text_has_no_tokens(text: Seq<char>)
    requires
        is_blank(text),
    ensures
        tokenization(text) == Ok::<_, TokenizingError>(
            (
                Seq::<TokenView>::empty(),
                LiteralTables {
                    identifiers: Map::empty(),
                    integer_literals: Map::empty(),
                    string_literals: Map::empty(),
                },
            ),
        ),
{
    assert forall|i: int| 0 <= i < text.len() implies #[trigger] blank_behind(text, 0, i) by {
        assert(blank_at(text, i));
        if !is_whitespace(text[i]) {
            let from = choose|from: int| comment_reaches(text, from, i);
        }
    }
    lemma_blank_from(text, 0);
    assert(tokens_of(text, Seq::<Lexeme>::empty()) =~= Seq::<TokenView>::empty());
}

/// A letter right behind the digits and separators of an integer literal
/// refuses the text, as an invalid suffix at the place of that letter.
///
/// The literal starts at `p` and the letter stands at `end`.  With `p` at 0
/// the text starts with the literal, and the offence is that of the whole
/// text.
pub proof fn lemma_letter_behind_digits_is_refused(text: Seq<char>, p: int, end: int)
    requires
        0 <= p < end < text.len(),
        is_digit(text[p]),
        forall|i: int| p <= i < end ==> is_number_part(#[trigger] text[i]),
        is_ascii_letter(text[end]),
    ensures
        lexemes_from(text, p) == Err::<Seq<Lexeme>, _>(
            TokenizingError {
                location: location_at(text, end),
                kind: TokenizingErrorKind::InvalidSuffix,
            },
        ),
        p == 0 ==> tokenization(text) == Err::<(Seq<TokenView>, LiteralTables), _>(
            TokenizingError {
                location: location_at(text, end),
                kind: TokenizingErrorKind::InvalidSuffix,
            },
        ),
{
    assert forall|i: int| p <= i < end implies number_part()(#[trigger] text[i]) by {}
    lemma_run_end_is(text, p, end, number_part());
}

/// Whether the code points from `from` up to `to` are whole pieces of the
/// inside of a string literal: plain code points, and backslashes with a
/// valid escape specifier behind them.
pub open spec fn is_string_inside(text: Seq<char>, from: int, to: int) -> bool
    decreases to - from,
{
    if from >= to {
        from == to
    } else if from < 0 || from >= text.len() || text[from] == '"' {
        false
    } else if text[from] == '\\' {
        &&& from + 1 < text.len()
        &&& from + 2 <= to
        &&& escape_value(text[from + 1]) is Some
        &&& is_string_inside(text, from + 2, to)
    } else {
        is_string_inside(text, from + 1, to)
    }
}

proof fn lemma_bad_escape(text: Seq<char>, from: int, backslash: int)
    requires
        0 <= from <= backslash < text.len(),
        is_string_inside(text, from, backslash),
        text[backslash] == '\\',
        backslash + 1 < text.len() ==> escape_value(text[backslash + 1]) is None,
    ensures
        string_body(text, from) == (StringBody::BadEscape { at: backslash + 1 }),
    decreases backslash - from,
{
    if from < backslash {
        if text[from] == '\\' {
            lemma_bad_escape(text, from + 2, backslash);
        } else {
            lemma_bad_escape(text, from + 1, backslash);
        }
    }
}

/// A backslash in a string literal that no escape specifier follows refuses
/// the text, as an invalid escape at the place behind the backslash.
///
/// The literal starts with its quote at `p`, and the backslash stands at
/// `backslash`.  With `p` at 0 the text starts with the literal, and the
/// offence is that of the whole text.
pub proof fn lemma_unknown_escape_is_refused(text: Seq<char>, p: int, backslash: int)
    requires
        0 <= p < backslash < text.len(),
        text[p] == '"',
        is_string_inside(text, p + 1, backslash),
        text[backslash] == '\\',
        backslash + 1 < text.len() ==> escape_value(text[backslash + 1]) is None,
    ensures
        lexemes_from(text, p) == Err::<Seq<Lexeme>, _>(
            TokenizingError {
                location: location_at(text, backslash + 1),
                kind: TokenizingErrorKind::InvalidEscape,
            },
        ),
        p == 0 ==> tokenization(text) == Err::<(Seq<TokenView>, LiteralTables), _>(
            TokenizingError {
                location: location_at(text, backslash + 1),
                kind: TokenizingErrorKind::InvalidEscape,
            },
        ),
{
    lemma_bad_escape(text, p + 1, backslash);
}

/// Whether `lexeme` is what the tokenizer emits at the position it starts
/// at.
pub open spec fn emitted(text: Seq<char>, lexeme: Lexeme) -> bool {
    &&& 0 <= lexeme.start < text.len()
    &&& step_at(text, lexeme.start) matches Step::Emit { kind, payload, next }
    &&& kind == lexeme.kind
    &&& payload == lexeme.payload
}

/// The lexemes of a valid text stand in the order of their positions, and
/// each is what the tokenizer emits where it starts.
pub proof fn lemma_lexemes_in_order(text: Seq<char>, p: int, lexemes: Seq<Lexeme>)
    requires
        0 <= p <= text.len(),
        lexemes_from(text, p) == Ok::<_, TokenizingError>(lexemes),
    ensures
        forall|i: int| 0 <= i < lexemes.len() ==> p <= (#[trigger] lexemes[i]).start,
        forall|i: int| 0 <= i < lexemes.len() ==> emitted(text, #[trigger] lexemes[i]),
        forall|i: int, j: int|
            0 <= i < j < lexemes.len() ==> (#[trigger] lexemes[i]).start < (
            #[trigger] lexemes[j]).start,
    decreases text.len() - p,
{
    if p < text.len() {
        lemma_step_moves(text, p);
        match step_at(text, p) {
            Step::Skip { next } => {
                lemma_lexemes_in_order(text, next, lexemes);
            },
            Step::Emit { kind, payload, next } => {
                let more = lexemes_from(text, next)->Ok_0;
                let first = Lexeme { kind, start: p, payload };
                lemma_lexemes_in_order(text, next, more);
                assert forall|i: int| 1 <= i < lexemes.len() implies #[trigger] lexemes[i]
                    == more[i - 1] by {}
            },
            Step::Fail { offence, at } => {},
        }
    }
}

/// Whether the starts of `lexemes` lie in `text` and grow from each lexeme
/// to the next.
spec fn starts_in_order(text: Seq<char>, lexemes: Seq<Lexeme>) -> bool {
    &&& forall|i: int| 0 <= i < lexemes.len() ==> 0 <= (#[trigger] lexemes[i]).start < text.len()
    &&& forall|i: int, j: int|
        0 <= i < j < lexemes.len() ==> (#[trigger] lexemes[i]).start < (#[trigger] lexemes[j]).start
}

proof fn lemma_payloads_hold_tokens_only(
    text: Seq<char>,
    lexemes: Seq<Lexeme>,
    kind: TokenKind,
    location: Location,
)
    requires
        payloads_of(text, lexemes, kind).contains_key(location),
    ensures
        exists|i: int|
            0 <= i < lexemes.len() && #[trigger] token_of(text, lexemes[i]) == (TokenView {
                kind,
                location,
            }),
    decreases lexemes.len(),
{
    if lexemes.len() > 0 {
        let last = lexemes.last();
        if last.kind == kind && location_at(text, last.start) == location {
            assert(token_of(text, lexemes[lexemes.len() - 1]) == (TokenView { kind, location }));
        } else {
            lemma_payloads_hold_tokens_only(text, lexemes.drop_last(), kind, location);
            let i = choose|i: int|
                0 <= i < lexemes.drop_last().len() && #[trigger] token_of(
                    text,
                    lexemes.drop_last()[i],
                ) == (TokenView { kind, location });
        }
    }
}

proof fn lemma_payloads_hold_each(text: Seq<char>, lexemes: Seq<Lexeme>, kind: TokenKind, i: int)
    requires
        text.len() < usize::MAX,
        starts_in_order(text, lexemes),
        0 <= i < lexemes.len(),
        lexemes[i].kind == kind,
    ensures
        payloads_of(text, lexemes, kind).contains_key(location_at(text, lexemes[i].start)),
        payloads_of(text, lexemes, kind)[location_at(text, lexemes[i].start)]
            == lexemes[i].payload,
    decreases lexemes.len(),
{
    let last = lexemes.last();
    if i < lexemes.len() - 1 {
        let before = lexemes.drop_last();
        assert(starts_in_order(text, before));
        lemma_payloads_hold_each(text, before, kind, i);
        if location_at(text, last.start) == location_at(text, lexemes[i].start) {
            lemma_location_unique(text, last.start, lexemes[i].start);
        }
    }
}

/// The payload that a token of `kind` has if it starts at position `p`: the
/// identifier as it is written, the integer literal without its separators,
/// the string literal with its escapes decoded and without its quotes.
pub open spec fn payload_at(text: Seq<char>, kind: TokenKind, p: int) -> Seq<char> {
    match kind {
        TokenKind::Identifier => text.subrange(p, identifier_end(text, p)),
        TokenKind::IntegerLiteral => text.subrange(p, number_end(text, p)).filter(decimal_digit()),
        TokenKind::StringLiteral => match string_body(text, p + 1) {
            StringBody::Content { content, end } => content,
            StringBody::BadEscape { at } => Seq::empty(),
        },
        _ => Seq::empty(),
    }
}

/// The side table that holds the payloads of `kind`.
pub open spec fn table_for(tables: LiteralTables, kind: TokenKind) -> Map<Location, Seq<char>> {
    match kind {
        TokenKind::Identifier => tables.identifiers,
        TokenKind::IntegerLiteral => tables.integer_literals,
        TokenKind::StringLiteral => tables.string_literals,
        _ => Map::empty(),
    }
}

/// The tokens of a text come in the order of their places in it: no two of
/// them share a location.
pub proof fn lemma_token_locations_differ(
    contents: Seq<char>,
    tokens: Vec<Token>,
    literal_data: LiteralData,
    i: int,
    j: int,
)
    requires
        tokenized(contents, Ok((tokens, literal_data))),
        0 <= i < j < tokens.deep_view().len(),
    ensures
        tokens.deep_view()[i].location != tokens.deep_view()[j].location,
{
    let lexemes = lexemes_from(contents, 0)->Ok_0;
    lemma_lexemes_in_order(contents, 0, lexemes);
    if tokens.deep_view()[i].location == tokens.deep_view()[j].location {
        lemma_location_unique(contents, lexemes[i].start, lexemes[j].start);
    }
}

/// Each identifier, integer literal and string literal of a text is found in
/// the side table of its kind under the location of its token, and what is
/// found is the text of that very token.
///
/// `p` is the position at which token `i` starts.
pub proof fn lemma_payload_round_trip(
    contents: Seq<char>,
    tokens: Vec<Token>,
    literal_data: LiteralData,
    i: int,
) -> (p: int)
    requires
        tokenized(contents, Ok((tokens, literal_data))),
        0 <= i < tokens.deep_view().len(),
        tokens.deep_view()[i].kind.carries_payload(),
    ensures
        ({
            let token = tokens.deep_view()[i];
            &&& 0 <= p < contents.len()
            &&& token.location == location_at(contents, p)
            &&& step_at(contents, p) matches Step::Emit { kind, payload, next } && kind
                == token.kind
            &&& payload_of(table_for(literal_data@, token.kind), token.kind, token) == Some(
                payload_at(contents, token.kind, p),
            )
        }),
{
    let lexemes = lexemes_from(contents, 0)->Ok_0;
    lemma_lexemes_in_order(contents, 0, lexemes);
    let lexeme = lexemes[i];
    assert(starts_in_order(contents, lexemes));
    lemma_payloads_hold_each(contents, lexemes, lexeme.kind, i);
    lexeme.start
}

/// A side table holds nothing but the payloads of tokens: whatever location
/// it knows is that of a token of its kind.
pub proof fn lemma_tables_hold_tokens_only(
    contents: Seq<char>,
    tokens: Vec<Token>,
    literal_data: LiteralData,
    kind: TokenKind,
    location: Location,
) -> (i: int)
    requires
        tokenized(contents, Ok((tokens, literal_data))),
        table_for(literal_data@, kind).contains_key(location),
    ensures
        0 <= i < tokens.deep_view().len(),
        tokens.deep_view()[i] == (TokenView { kind, location }),
{
    let lexemes = lexemes_from(contents, 0)->Ok_0;
    lemma_payloads_hold_tokens_only(contents, lexemes, kind, location);
    choose|i: int|
        0 <= i < lexemes.len() && #[trigger] token_of(contents, lexemes[i]) == (TokenView {
            kind,
            location,
        })
}

/// Whether `tokens` starts with `count` entries of a list, each of them a
/// name, a separator and a type, with a comma behind it.
pub open spec fn entries_with_commas(
    tokens: Seq<TokenView>,
    names: Map<Location, Seq<char>>,
    count: int,
) -> bool
    decreases count,
{
    count <= 0 || {
        &&& tokens.len() >= 4
        &&& payload_of(names, TokenKind::Identifier, tokens[0]) is Some
        &&& tokens[1].kind == TokenKind::FieldTypeSeparator
        &&& payload_of(names, TokenKind::Identifier, tokens[2]) is Some
        &&& tokens[3].kind == TokenKind::Comma
        &&& entries_with_commas(tokens.skip(4), names, count - 1)
    }
}

proof fn lemma_entries_end_behind_comma(
    tokens: Seq<TokenView>,
    names: Map<Location, Seq<char>>,
    end: TokenKind,
    count: int,
)
    requires
        count >= 0,
        entries_with_commas(tokens, names, count),
        end != TokenKind::Identifier,
        tokens.len() > 4 * count,
        tokens[4 * count].kind == end,
    ensures
        value_type_entries(tokens, names, end) == (Parsed::<Seq<(Seq<char>, Seq<char>)>> {
            result: Err(
                ParseErrorView {
                    token: Some(tokens[4 * count]),
                    expected: seq![TokenKind::Identifier],
                },
            ),
            rest: tokens.skip(4 * count + 1),
        }),
    decreases count,
{
    if count > 0 {
        let behind = tokens.skip(4);
        lemma_entries_end_behind_comma(behind, names, end, count - 1);
        let name = expected_identifier(tokens, names);
        let separator = expected_token(name.rest, TokenKind::FieldTypeSeparator);
        let type_id = expected_identifier(separator.rest, names);
        assert(type_id.rest.drop_first() =~= behind);
        assert(behind.skip(4 * (count - 1) + 1) =~= tokens.skip(4 * count + 1));
    }
}

/// A comma asks for one more entry.  A list whose last entry has a comma
/// behind it, with the closing token right behind that comma, is refused at
/// the closing token, in favour of an identifier.
///
/// The list has `count` entries, so its closing token is token `4 * count`.
pub proof fn lemma_trailing_comma_is_refused(
    tokens: Seq<TokenView>,
    names: Map<Location, Seq<char>>,
    end: TokenKind,
    count: int,
)
    requires
        count >= 1,
        entries_with_commas(tokens, names, count),
        end != TokenKind::Identifier,
        tokens.len() > 4 * count,
        tokens[4 * count].kind == end,
    ensures
        value_type_list(tokens, names, end) == (Parsed::<Seq<(Seq<char>, Seq<char>)>> {
            result: Err(
                ParseErrorView {
                    token: Some(tokens[4 * count]),
                    expected: seq![TokenKind::Identifier],
                },
            ),
            rest: tokens.skip(4 * count + 1),
        }),
{
    lemma_entries_end_behind_comma(tokens, names, end, count);
}

/// Maximal munch: where an operator of two code points is spelled out, it is
/// the token, and never the operator that its first code point spells.
pub proof fn lemma_longer_operator_wins(text: Seq<char>, p: int, kind: TokenKind)
    requires
        operator_at(text, p, kind),
        operator_spelling(kind).len() == 2,
    ensures
        longest_operator(text, p) == Some(kind),
{
    assert(is_longest_operator_at(text, p, kind)) by {
        assert forall|other: TokenKind| #[trigger] operator_at(text, p, other) implies
            operator_spelling(other).len() <= 2 by {}
    }
    lemma_longest_operator_is(text, p, kind);
}

/// The list that `count` entries with four tokens each stand for: entry `k`
/// has the names of tokens `4 * k` and `4 * k + 2`.
pub open spec fn entries_of(
    tokens: Seq<TokenView>,
    names: Map<Location, Seq<char>>,
    count: int,
) -> Seq<(Seq<char>, Seq<char>)> {
    Seq::new(
        count as nat,
        |k: int| (names[tokens[4 * k].location], names[tokens[4 * k + 2].location]),
    )
}

proof fn lemma_entries_are_read(
    tokens: Seq<TokenView>,
    names: Map<Location, Seq<char>>,
    end: TokenKind,
    count: int,
)
    requires
        count >= 0,
        entries_with_commas(tokens, names, count),
        tokens.len() >= 4 * count + 4,
        payload_of(names, TokenKind::Identifier, tokens[4 * count]) is Some,
        tokens[4 * count + 1].kind == TokenKind::FieldTypeSeparator,
        payload_of(names, TokenKind::Identifier, tokens[4 * count + 2]) is Some,
        tokens[4 * count + 3].kind == end,
        end != TokenKind::Comma,
    ensures
        value_type_entries(tokens, names, end) == (Parsed::<Seq<(Seq<char>, Seq<char>)>> {
            result: Ok(entries_of(tokens, names, count + 1)),
            rest: tokens.skip(4 * count + 4),
        }),
    decreases count,
{
    let name = expected_identifier(tokens, names);
    let separator = expected_token(name.rest, TokenKind::FieldTypeSeparator);
    let type_id = expected_identifier(separator.rest, names);
    let entry = (name.result->Ok_0, type_id.result->Ok_0);
    if count == 0 {
        assert(type_id.rest.drop_first() =~= tokens.skip(4));
        assert(seq![entry] =~= entries_of(tokens, names, 1));
    } else {
        let behind = tokens.skip(4);
        assert(type_id.rest.drop_first() =~= behind);
        lemma_entries_are_read(behind, names, end, count - 1);
        assert(behind.skip(4 * (count - 1) + 4) =~= tokens.skip(4 * count + 4));
        assert(seq![entry] + entries_of(behind, names, count) =~= entries_of(
            tokens,
            names,
            count + 1,
        ));
    }
}

/// A list that is written out is read back.  Entries of a name, a separator
/// and a type, with a comma between each two of them and the closing token
/// behind the last, are a list of just these entries, and what follows the
/// closing token is left over.
///
/// The list has `count` entries with a comma behind them and one more
/// without, so its closing token is token `4 * count + 3`.
pub proof fn lemma_separated_list_is_read(
    tokens: Seq<TokenView>,
    names: Map<Location, Seq<char>>,
    end: TokenKind,
    count: int,
)
    requires
        count >= 0,
        entries_with_commas(tokens, names, count),
        tokens.len() >= 4 * count + 4,
        payload_of(names, TokenKind::Identifier, tokens[4 * count]) is Some,
        tokens[4 * count + 1].kind == TokenKind::FieldTypeSeparator,
        payload_of(names, TokenKind::Identifier, tokens[4 * count + 2]) is Some,
        tokens[4 * count + 3].kind == end,
        end != TokenKind::Comma,
        end != TokenKind::Identifier,
    ensures
        value_type_list(tokens, names, end) == (Parsed::<Seq<(Seq<char>, Seq<char>)>> {
            result: Ok(entries_of(tokens, names, count + 1)),
            rest: tokens.skip(4 * count + 4),
        }),
{
    lemma_entries_are_read(tokens, names, end, count);
}

} // verus!
