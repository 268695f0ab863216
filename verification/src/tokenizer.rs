//! The tokenizer: from source text to a token stream and the side table of
//! literal payloads.

use crate::charclass::{
    ascii_letter, digit, identifier_continue, identifier_start, is_ascii_letter, is_digit,
    is_identifier_start, unescape, whitespace,
};
use crate::lexical::{
    comment_end, decimal_digit, followed_by, identifier_end, lemma_followed_by_push,
    lemma_payloads_of_push, lemma_step_moves, lemma_tokens_of_push, lexemes_from, number_end,
    payloads_of, run_end, string_body, tokenization, tokens_of, within_line, word_kind, Lexeme,
    LiteralTables, StringBody,
};
use crate::operators::{
    is_longest_operator_at, is_operator_prefix, lemma_longest_operator_is, lemma_spelling_unique,
    longest_operator, operator_at, operator_spelled, operator_spelling, OperatorTable,
};
use crate::scanner::{code_points, location_at, CharLocationScanner};
use crate::token::{Location, Token, TokenKind, TokenView};
use std::collections::HashMap;
use vstd::prelude::*;
use vstd::string::StrSliceExecFns;

verus! {

/// `String::push` of the standard library, which appends one character: the
/// string afterwards is the string before with `ch` behind it.  This is taken
/// on trust.
pub assume_specification[ String::push ](text: &mut String, ch: char)
    ensures
        final(text)@ == old(text)@.push(ch),
;

/// Why a text is no sequence of tokens.
#[derive(Clone, Copy, Debug, PartialEq, Eq, Structural)]
pub enum TokenizingErrorKind {
    /// A letter right after the digits of an integer literal.
    InvalidSuffix,
    /// A backslash in a string literal that is followed by anything but `"`,
    /// `\`, `n`, `r` or `t`.
    InvalidEscape,
    /// A code point that starts no token.
    UnknownToken,
}

/// The first offence in a text, and where it stands.
#[derive(Clone, Copy, Debug, PartialEq, Eq, Structural)]
pub struct TokenizingError {
    pub location: Location,
    pub kind: TokenizingErrorKind,
}

/// The number that a location is filed under: the line in the upper 64 bits,
/// the column in the lower.
spec fn key_of(location: Location) -> u128 {
    (location.line * 0x1_0000_0000_0000_0000 + location.column) as u128
}

fn location_key(location: &Location) -> (key: u128)
    ensures
        key == key_of(*location),
{
    (location.line as u128) * 0x1_0000_0000_0000_0000u128 + (location.column as u128)
}

proof fn lemma_key_unique(a: Location, b: Location)
    requires
        key_of(a) == key_of(b),
    ensures
        a == b,
{
}

/// The table that a map from keys to strings stands for.
spec fn table_of(map: Map<u128, String>) -> Map<Location, Seq<char>> {
    Map::new(
        |location: Location| map.contains_key(key_of(location)),
        |location: Location| map[key_of(location)]@,
    )
}

proof fn lemma_table_insert(map: Map<u128, String>, location: Location, text: String)
    ensures
        table_of(map.insert(key_of(location), text)) == table_of(map).insert(location, text@),
{
    assert forall|other: Location| key_of(other) == key_of(location) implies other
        == location by {
        lemma_key_unique(other, location);
    }
}

/// What a lookup of `token` in the side table for `wanted` gives: the entry
/// under the token's location, and nothing for a token of another kind.
pub open spec fn payload_of(
    table: Map<Location, Seq<char>>,
    wanted: TokenKind,
    token: TokenView,
) -> Option<Seq<char>> {
    if token.kind == wanted && table.contains_key(token.location) {
        Some(table[token.location])
    } else {
        None
    }
}

/// The literal side table: the text of each identifier, integer literal and
/// string literal of a token stream, under the location of its token.
pub struct LiteralData {
    identifiers: HashMap<u128, String>,
    integer_literals: HashMap<u128, String>,
    string_literals: HashMap<u128, String>,
}

impl View for LiteralData {
    type V = LiteralTables;

    closed spec fn view(&self) -> LiteralTables {
        LiteralTables {
            identifiers: table_of(self.identifiers@),
            integer_literals: table_of(self.integer_literals@),
            string_literals: table_of(self.string_literals@),
        }
    }
}

impl LiteralData {
    /// The name of an identifier token.
    pub fn try_get_identifier(&self, token: &Token) -> (text: Option<&String>)
        ensures
            match text {
                Some(found) => Some(found@) == payload_of(
                    self@.identifiers,
                    TokenKind::Identifier,
                    token@,
                ),
                None => payload_of(self@.identifiers, TokenKind::Identifier, token@) is None,
            },
    {
        if *token.kind() == TokenKind::Identifier {
            self.identifiers.get(&location_key(token.location()))
        } else {
            None
        }
    }

    /// The decoded content of a string literal token.
    pub fn try_get_string_literal(&self, token: &Token) -> (text: Option<&String>)
        ensures
            match text {
                Some(found) => Some(found@) == payload_of(
                    self@.string_literals,
                    TokenKind::StringLiteral,
                    token@,
                ),
                None => payload_of(self@.string_literals, TokenKind::StringLiteral, token@)
                    is None,
            },
    {
        if *token.kind() == TokenKind::StringLiteral {
            self.string_literals.get(&location_key(token.location()))
        } else {
            None
        }
    }

    /// The digits of an integer literal token.
    pub fn try_get_integer_literal(&self, token: &Token) -> (text: Option<&String>)
        ensures
            match text {
                Some(found) => Some(found@) == payload_of(
                    self@.integer_literals,
                    TokenKind::IntegerLiteral,
                    token@,
                ),
                None => payload_of(self@.integer_literals, TokenKind::IntegerLiteral, token@)
                    is None,
            },
    {
        if *token.kind() == TokenKind::IntegerLiteral {
            self.integer_literals.get(&location_key(token.location()))
        } else {
            None
        }
    }
}

/// Reads the identifier or keyword that the scanner stands on: the longest
/// run of letters, digits and underscores.
pub fn tokenize_identifier_or_keyword(chars: &mut CharLocationScanner) -> (word: String)
    requires
        old(chars).current() matches Some(c) && is_identifier_start(c),
    ensures
        final(chars).source() == old(chars).source(),
        final(chars).position() == identifier_end(old(chars).source(), old(chars).position()),
        word@ == old(chars).source().subrange(old(chars).position(), final(chars).position()),
{
    let ghost text = chars.source();
    let ghost start = chars.position();
    let mut word = String::new();
    loop
        invariant
            text == old(chars).source(),
            start == old(chars).position(),
            chars.source() == text,
            0 <= start <= chars.position() <= text.len(),
            identifier_end(text, start) == identifier_end(text, chars.position()),
            word@ == text.subrange(start, chars.position()),
        ensures
            chars.position() == identifier_end(text, start),
        decreases text.len() - chars.position(),
    {
        match chars.current_char() {
            Some(c) => {
                if !identifier_continue(c) {
                    break;
                }
                word.push(c);
                chars.advance();
            },
            None => {
                break;
            },
        }
    }
    word
}

/// Reads the integer literal that the scanner stands on: digits, with
/// underscores between them that are left out of the result.  A letter right
/// behind them makes the literal invalid; the scanner then stands on that
/// letter.
pub fn tokenize_integer(chars: &mut CharLocationScanner) -> (result: Result<
    String,
    TokenizingError,
>)
    requires
        old(chars).current() matches Some(c) && is_digit(c),
    ensures
        final(chars).source() == old(chars).source(),
        final(chars).position() == number_end(old(chars).source(), old(chars).position()),
        match result {
            Ok(digits) => {
                &&& !has_suffix(old(chars).source(), final(chars).position())
                &&& digits@ == old(chars).source().subrange(
                    old(chars).position(),
                    final(chars).position(),
                ).filter(decimal_digit())
            },
            Err(error) => {
                &&& has_suffix(old(chars).source(), final(chars).position())
                &&& error == TokenizingError {
                    location: location_at(old(chars).source(), final(chars).position()),
                    kind: TokenizingErrorKind::InvalidSuffix,
                }
            },
        },
{
    let ghost text = chars.source();
    let ghost start = chars.position();
    let mut digits = String::new();
    proof {
        reveal(Seq::filter);
    }
    loop
        invariant
            text == old(chars).source(),
            start == old(chars).position(),
            chars.source() == text,
            0 <= start <= chars.position() <= text.len(),
            number_end(text, start) == number_end(text, chars.position()),
            digits@ == text.subrange(start, chars.position()).filter(decimal_digit()),
        ensures
            chars.position() == number_end(text, start),
            !has_suffix(text, chars.position()),
        decreases text.len() - chars.position(),
    {
        match chars.current_char() {
            Some(c) => {
                let ghost before = text.subrange(start, chars.position());
                let ghost after = text.subrange(start, chars.position() + 1);
                proof {
                    reveal(Seq::filter);
                    assert(after.drop_last() =~= before);
                }
                if digit(c) {
                    digits.push(c);
                } else if c == '_' {
                } else if ascii_letter(c) {
                    return Err(
                        TokenizingError {
                            location: chars.current_location(),
                            kind: TokenizingErrorKind::InvalidSuffix,
                        },
                    );
                } else {
                    break;
                }
                chars.advance();
            },
            None => {
                break;
            },
        }
    }
    Ok(digits)
}

/// Whether a letter stands at position `end` of `text`: behind the digits of
/// an integer literal it is a suffix, and no suffix is valid.
pub open spec fn has_suffix(text: Seq<char>, end: int) -> bool {
    0 <= end < text.len() && is_ascii_letter(text[end])
}

/// `body` with `done` in front of its content.
spec fn after_content(done: Seq<char>, body: StringBody) -> StringBody {
    match body {
        StringBody::Content { content, end } => StringBody::Content {
            content: done + content,
            end,
        },
        StringBody::BadEscape { at } => body,
    }
}

/// Reads the string literal whose opening quote the scanner stands on, up to
/// and including its closing quote, and decodes its escapes.  A literal that
/// the text ends in is complete.  After a backslash that no escape specifier
/// follows, the scanner stands behind the backslash.
pub fn tokenize_string(chars: &mut CharLocationScanner) -> (result: Result<String, TokenizingError>)
    requires
        old(chars).current() == Some('"'),
    ensures
        final(chars).source() == old(chars).source(),
        match string_body(old(chars).source(), old(chars).position() + 1) {
            StringBody::Content { content, end } => {
                &&& result matches Ok(decoded)
                &&& decoded@ == content
                &&& final(chars).position() == end
            },
            StringBody::BadEscape { at } => {
                &&& result == Err::<String, _>(
                    TokenizingError {
                        location: location_at(old(chars).source(), at),
                        kind: TokenizingErrorKind::InvalidEscape,
                    },
                )
                &&& final(chars).position() == at
            },
        },
{
    let ghost text = chars.source();
    let ghost start = chars.position() + 1;
    chars.advance();
    let mut decoded = String::new();
    assert(after_content(decoded@, string_body(text, start)) =~= string_body(text, start));
    loop
        invariant_except_break
            string_body(text, start) == after_content(
                decoded@,
                string_body(text, chars.position()),
            ),
        invariant
            text == old(chars).source(),
            start == old(chars).position() + 1,
            chars.source() == text,
            0 <= chars.position() <= text.len(),
        ensures
            string_body(text, start) == (StringBody::Content {
                content: decoded@,
                end: chars.position(),
            }),
        decreases text.len() - chars.position(),
    {
        let ghost so_far = decoded@;
        match chars.current_char() {
            Some(c) => {
                if c == '"' {
                    chars.advance();
                    break;
                }
                let plain = if c == '\\' {
                    chars.advance();
                    let escaped = match chars.current_char() {
                        Some(specifier) => unescape(specifier),
                        None => None,
                    };
                    match escaped {
                        Some(value) => value,
                        None => {
                            return Err(
                                TokenizingError {
                                    location: chars.current_location(),
                                    kind: TokenizingErrorKind::InvalidEscape,
                                },
                            );
                        },
                    }
                } else {
                    c
                };
                decoded.push(plain);
                chars.advance();
                proof {
                    match string_body(text, chars.position()) {
                        StringBody::Content { content, end } => {
                            assert(so_far + (seq![plain] + content) =~= so_far.push(plain)
                                + content);
                        },
                        StringBody::BadEscape { at } => {},
                    }
                }
            },
            None => {
                break;
            },
        }
    }
    Ok(decoded)
}

/// Steps over a comment: everything up to and including the next newline, or
/// up to the end of the text.
pub fn skip_comment(chars: &mut CharLocationScanner)
    ensures
        final(chars).source() == old(chars).source(),
        final(chars).position() == comment_end(old(chars).source(), old(chars).position()),
{
    let ghost text = chars.source();
    let ghost start = chars.position();
    proof {
        use_type_invariant(&*chars);
        chars.lemma_within_source();
    }
    loop
        invariant_except_break
            run_end(text, start, within_line()) == run_end(text, chars.position(), within_line()),
        invariant
            chars.source() == text,
            0 <= chars.position() <= text.len(),
        ensures
            chars.position() == comment_end(text, start),
        decreases text.len() - chars.position(),
    {
        match chars.current_char() {
            Some(c) => {
                chars.advance();
                if c == '\n' {
                    break;
                }
            },
            None => {
                break;
            },
        }
    }
}

/// Whether `candidate` is the longest operator at position `p` among those
/// with fewer than `limit` code points: `None` where there is none.
spec fn best_below(text: Seq<char>, p: int, limit: int, candidate: Option<TokenKind>) -> bool {
    &&& candidate matches Some(kind) ==> operator_at(text, p, kind) && operator_spelling(
        kind,
    ).len() < limit
    &&& forall|other: TokenKind|
        #[trigger] operator_at(text, p, other) && operator_spelling(other).len() < limit ==> {
            &&& candidate is Some
            &&& operator_spelling(other).len() <= operator_spelling(candidate.unwrap()).len()
        }
}

/// Once every operator that is spelled out at `p` is shorter than `limit`,
/// the best below `limit` is the longest operator.
proof fn lemma_best_is_longest(text: Seq<char>, p: int, limit: int, candidate: Option<TokenKind>)
    requires
        best_below(text, p, limit, candidate),
        forall|other: TokenKind| #[trigger]
            operator_at(text, p, other) ==> operator_spelling(other).len() < limit,
    ensures
        candidate == longest_operator(text, p),
{
    match candidate {
        Some(kind) => {
            lemma_longest_operator_is(text, p, kind);
        },
        None => {
            assert forall|kind: TokenKind| !is_longest_operator_at(text, p, kind) by {}
        },
    }
}

/// Reads the punctuation or operator token that the scanner stands on, by
/// maximal munch: of the operators that are spelled out there, the longest.
/// Where there is none, the scanner stays where it is.
///
/// The code points from the scanner on are looked up in the prefix table, one
/// more at a time, for as long as the table knows what was read so far.  The
/// last complete operator on the way is the result, and the scanner comes
/// back to stand right behind it.
pub fn tokenize_other_token(chars: &mut CharLocationScanner, table: &OperatorTable) -> (kind:
    Option<TokenKind>)
    ensures
        final(chars).source() == old(chars).source(),
        kind == longest_operator(old(chars).source(), old(chars).position()),
        final(chars).position() == old(chars).position() + match kind {
            Some(found) => operator_spelling(found).len() as int,
            None => 0,
        },
{
    let ghost text = chars.source();
    let ghost start = chars.position();
    proof {
        use_type_invariant(&*chars);
        chars.lemma_within_source();
    }
    let mut cur_chars: Vec<char> = Vec::new();
    let mut cur_candidate: Option<TokenKind> = None;
    let mut continue_chars = *chars;
    loop
        invariant_except_break
            best_below(text, start, cur_chars.len() as int, cur_candidate),
        invariant
            text == old(chars).source(),
            start == old(chars).position(),
            chars.source() == text,
            continue_chars.source() == text,
            0 <= start,
            chars.position() == start + cur_chars.len(),
            chars.position() <= text.len(),
            cur_chars@ == text.subrange(start, chars.position()),
            continue_chars.position() == start + match cur_candidate {
                Some(found) => operator_spelling(found).len() as int,
                None => 0,
            },
        ensures
            cur_candidate == longest_operator(text, start),
        decreases text.len() - chars.position(),
    {
        let ghost length = cur_chars.len() as int;
        match table.get(cur_chars.as_slice()) {
            Some(entry) => {
                if let Some(new_candidate) = entry {
                    cur_candidate = Some(new_candidate);
                    continue_chars = *chars;
                }
                proof {
                    assert(best_below(text, start, length + 1, cur_candidate)) by {
                        assert forall|other: TokenKind|
                            #[trigger] operator_at(text, start, other) && operator_spelling(
                                other,
                            ).len() == length implies entry == Some(other) by {
                            lemma_spelling_unique(other, entry.unwrap());
                        }
                    }
                }
                match chars.current_char() {
                    Some(c) => {
                        cur_chars.push(c);
                    },
                    None => {
                        proof {
                            lemma_best_is_longest(text, start, length + 1, cur_candidate);
                        }
                        break;
                    },
                }
                chars.advance();
            },
            None => {
                proof {
                    assert forall|other: TokenKind| #[trigger]
                        operator_at(text, start, other) implies operator_spelling(other).len()
                        < length by {
                        if operator_spelling(other).len() >= length {
                            assert(cur_chars@.is_prefix_of(operator_spelling(other)));
                        }
                    }
                    lemma_best_is_longest(text, start, length, cur_candidate);
                }
                break;
            },
        }
    }
    *chars = continue_chars;
    cur_candidate
}

/// Whether `word`, of `length` code points, is the spelling of `kind`.
fn is_spelled(word: &str, length: usize, kind: TokenKind) -> (same: bool)
    requires
        length == word@.len(),
    ensures
        same == (kind.spelling() == Some(word@)),
{
    match kind.text() {
        Some(text) => {
            if text.unicode_len() != length {
                return false;
            }
            let mut i: usize = 0;
            while i < length
                invariant
                    i <= length,
                    length == word@.len(),
                    length == text@.len(),
                    kind.spelling() == Some(text@),
                    forall|j: int| 0 <= j < i ==> word@[j] == text@[j],
                decreases length - i,
            {
                if word.get_char(i) != text.get_char(i) {
                    return false;
                }
                i += 1;
            }
            assert(word@ =~= text@);
            true
        },
        None => false,
    }
}

/// The kind of a word: that of the keyword it is, or `Identifier`.
pub fn classify_word(word: &str) -> (kind: TokenKind)
    ensures
        kind == word_kind(word@),
{
    let length = word.unicode_len();
    if is_spelled(word, length, TokenKind::FunctionDefinition) {
        TokenKind::FunctionDefinition
    } else if is_spelled(word, length, TokenKind::Mutable) {
        TokenKind::Mutable
    } else if is_spelled(word, length, TokenKind::Struct) {
        TokenKind::Struct
    } else {
        TokenKind::Identifier
    }
}

/// Whether `result` is what tokenizing `contents` comes to: on success the
/// token stream and the side tables of the text, on failure its first
/// offence.
///
/// A text that was tokenized was held in memory, one code point after the
/// other, and so has fewer than `usize::MAX` of them: each of its lines and
/// columns fits a `usize`.
pub open spec fn tokenized(
    contents: Seq<char>,
    result: Result<(Vec<Token>, LiteralData), TokenizingError>,
) -> bool {
    &&& contents.len() < usize::MAX
    &&& match result {
        Ok((tokens, literal_data)) => tokenization(contents) == Ok::<_, TokenizingError>(
            (tokens.deep_view(), literal_data@),
        ),
        Err(error) => tokenization(contents) == Err::<(Seq<TokenView>, LiteralTables), _>(error),
    }
}

/// Splits a text into tokens.
///
/// Whitespace and comments, which run from `#` to the end of the line,
/// separate tokens and leave no trace.  An identifier, an integer literal or
/// a string literal has its text entered in the side table under the location
/// of its first code point.  The first offence ends the work, and nothing of
/// the token stream is handed out then.
pub fn tokenize_text(contents: &str) -> (result: Result<(Vec<Token>, LiteralData), TokenizingError>)
    ensures
        tokenized(contents@, result),
{
    let table = OperatorTable::new();
    tokenize_with_table(contents, &table)
}

/// Splits a text into tokens as `tokenize_text` does, with a prefix table
/// that the caller has built before, once for many texts.
pub fn tokenize_with_table(contents: &str, table: &OperatorTable) -> (result: Result<
    (Vec<Token>, LiteralData),
    TokenizingError,
>)
    ensures
        tokenized(contents@, result),
{
    let buffer = code_points(contents);
    let mut chars = CharLocationScanner::new(buffer.as_slice());
    let mut tokens: Vec<Token> = Vec::new();
    let mut identifiers: HashMap<u128, String> = HashMap::new();
    let mut string_literals: HashMap<u128, String> = HashMap::new();
    let mut integer_literals: HashMap<u128, String> = HashMap::new();
    let ghost text = contents@;
    let ghost mut done: Seq<Lexeme> = Seq::empty();
    loop
        invariant
            text == contents@,
            chars.source() == text,
            0 <= chars.position() <= text.len(),
            lexemes_from(text, 0) == followed_by(done, lexemes_from(text, chars.position())),
            tokens.deep_view() == tokens_of(text, done),
            table_of(identifiers@) == payloads_of(text, done, TokenKind::Identifier),
            table_of(string_literals@) == payloads_of(text, done, TokenKind::StringLiteral),
            table_of(integer_literals@) == payloads_of(text, done, TokenKind::IntegerLiteral),
        ensures
            lexemes_from(text, 0) == Ok::<_, TokenizingError>(done),
        decreases text.len() - chars.position(),
    {
        let ghost p = chars.position();
        let (c, location) = match chars.current_char_and_location() {
            Some(pair) => pair,
            None => {
                break;
            },
        };
        proof {
            lemma_step_moves(text, p);
        }
        if whitespace(c) {
            chars.advance();
        } else if c == '#' {
            skip_comment(&mut chars);
        } else {
            let kind: TokenKind;
            let ghost payload: Seq<char>;
            if identifier_start(c) {
                let word = tokenize_identifier_or_keyword(&mut chars);
                kind = classify_word(word.as_str());
                if kind == TokenKind::Identifier {
                    proof {
                        payload = word@;
                        lemma_table_insert(identifiers@, location, word);
                    }
                    identifiers.insert(location_key(&location), word);
                } else {
                    proof {
                        payload = Seq::empty();
                    }
                }
            } else if digit(c) {
                match tokenize_integer(&mut chars) {
                    Ok(digits) => {
                        proof {
                            payload = digits@;
                            lemma_table_insert(integer_literals@, location, digits);
                        }
                        integer_literals.insert(location_key(&location), digits);
                        kind = TokenKind::IntegerLiteral;
                    },
                    Err(error) => {
                        return Err(error);
                    },
                }
            } else if c == '"' {
                match tokenize_string(&mut chars) {
                    Ok(decoded) => {
                        proof {
                            payload = decoded@;
                            lemma_table_insert(string_literals@, location, decoded);
                        }
                        string_literals.insert(location_key(&location), decoded);
                        kind = TokenKind::StringLiteral;
                    },
                    Err(error) => {
                        return Err(error);
                    },
                }
            } else {
                match tokenize_other_token(&mut chars, table) {
                    Some(found) => {
                        proof {
                            payload = Seq::empty();
                        }
                        kind = found;
                    },
                    None => {
                        return Err(
                            TokenizingError { location, kind: TokenizingErrorKind::UnknownToken },
                        );
                    },
                }
            }
            let token = Token::new(kind, location);
            let ghost lexeme = Lexeme { kind, start: p, payload };
            proof {
                lemma_followed_by_push(done, lexeme, lexemes_from(text, chars.position()));
                lemma_tokens_of_push(text, done, lexeme);
                lemma_payloads_of_push(text, done, lexeme, TokenKind::Identifier);
                lemma_payloads_of_push(text, done, lexeme, TokenKind::StringLiteral);
                lemma_payloads_of_push(text, done, lexeme, TokenKind::IntegerLiteral);
                done = done.push(lexeme);
            }
            let ghost before = tokens.deep_view();
            tokens.push(token);
        }
    }
    let literal_data = LiteralData { identifiers, string_literals, integer_literals };
    Ok((tokens, literal_data))
}

} // verus!
