//! The operator matcher: which punctuation and operator tokens exist, what
//! the longest one at a position is, and the prefix table that finds it.

use crate::scanner::code_points;
use crate::token::TokenKind;
use vstd::prelude::*;

verus! {

/// The punctuation and operator kinds, in the order the prefix table is built
/// from.
pub open spec fn operator_kinds() -> Seq<TokenKind> {
    seq![
        TokenKind::OpenBraces,
        TokenKind::CloseBraces,
        TokenKind::OpenParentheses,
        TokenKind::CloseParentheses,
        TokenKind::Plus,
        TokenKind::Minus,
        TokenKind::Mul,
        TokenKind::Div,
        TokenKind::Rem,
        TokenKind::Assign,
        TokenKind::DefineVar,
        TokenKind::FieldTypeSeparator,
        TokenKind::RightArrow,
        TokenKind::Equal,
        TokenKind::Greater,
        TokenKind::GreaterOrEqual,
        TokenKind::Less,
        TokenKind::LessOrEqual,
        TokenKind::Not,
        TokenKind::Or,
        TokenKind::And,
        TokenKind::Xor,
        TokenKind::Comma,
        TokenKind::EndOfStatement,
    ]
}

/// Whether a kind is punctuation or an operator: it has a fixed spelling and
/// is no keyword.
pub open spec fn is_operator(kind: TokenKind) -> bool {
    kind.spelling() is Some && kind != TokenKind::FunctionDefinition && kind != TokenKind::Mutable
        && kind != TokenKind::Struct
}

/// The spelling of an operator.
pub open spec fn operator_spelling(kind: TokenKind) -> Seq<char>
    recommends
        is_operator(kind),
{
    kind.spelling().unwrap()
}

/// Whether `word` stands in `text` at position `p`.
pub open spec fn occurs_at(text: Seq<char>, p: int, word: Seq<char>) -> bool {
    0 <= p && p + word.len() <= text.len() && text.subrange(p, p + word.len()) == word
}

/// Whether the operator `kind` is spelled out in `text` at position `p`.
pub open spec fn operator_at(text: Seq<char>, p: int, kind: TokenKind) -> bool {
    is_operator(kind) && occurs_at(text, p, operator_spelling(kind))
}

/// Maximal munch: `kind` is spelled out at `p`, and no operator with a longer
/// spelling is.
pub open spec fn is_longest_operator_at(text: Seq<char>, p: int, kind: TokenKind) -> bool {
    &&& operator_at(text, p, kind)
    &&& forall|other: TokenKind| #[trigger]
        operator_at(text, p, other) ==> operator_spelling(other).len() <= operator_spelling(
            kind,
        ).len()
}

/// The operator token that starts at position `p` of `text`, if any: the one
/// with the longest spelling among those spelled out there.
pub open spec fn longest_operator(text: Seq<char>, p: int) -> Option<TokenKind> {
    if exists|kind: TokenKind| is_longest_operator_at(text, p, kind) {
        Some(choose|kind: TokenKind| is_longest_operator_at(text, p, kind))
    } else {
        None
    }
}

/// No two kinds share a spelling.
pub proof fn lemma_spelling_unique(a: TokenKind, b: TokenKind)
    requires
        a.spelling() is Some,
        a.spelling() == b.spelling(),
    ensures
        a == b,
{
    let s = a.spelling().unwrap();
    let t = b.spelling().unwrap();
    assert(s[0] == t[0]);
    if s.len() > 1 {
        assert(s[1] == t[1]);
    }
}

/// Every operator is spelled with at least one code point.
pub proof fn lemma_operator_nonempty(kind: TokenKind)
    requires
        is_operator(kind),
    ensures
        operator_spelling(kind).len() >= 1,
{
}

/// `operator_kinds` lists each operator, and nothing else.
pub proof fn lemma_operator_kinds(kind: TokenKind)
    ensures
        is_operator(kind) <==> operator_kinds().contains(kind),
{
}

/// At most one kind is the longest operator at a position, so
/// `longest_operator` names it.
pub proof fn lemma_longest_operator_is(text: Seq<char>, p: int, kind: TokenKind)
    requires
        is_longest_operator_at(text, p, kind),
    ensures
        longest_operator(text, p) == Some(kind),
{
    let chosen = choose|kind: TokenKind| is_longest_operator_at(text, p, kind);
    lemma_spelling_unique(chosen, kind);
}

/// Whether `key` is the beginning of some operator's spelling, the whole
/// spelling included.
pub open spec fn is_operator_prefix(key: Seq<char>) -> bool {
    exists|kind: TokenKind|
        is_operator(kind) && #[trigger] key.is_prefix_of(operator_spelling(kind))
}

/// The operator that is spelled exactly `key`, if there is one.
pub open spec fn operator_spelled(key: Seq<char>) -> Option<TokenKind> {
    if exists|kind: TokenKind| is_operator(kind) && kind.spelling() == Some(key) {
        Some(choose|kind: TokenKind| is_operator(kind) && kind.spelling() == Some(key))
    } else {
        None
    }
}

/// The prefix table as a map.  Its keys are the beginnings of operator
/// spellings.  A key that is a whole spelling maps to that operator, any other
/// key to `None`: it can still grow into an operator.
pub open spec fn prefix_table() -> Map<Seq<char>, Option<TokenKind>> {
    Map::new(|key: Seq<char>| is_operator_prefix(key), |key: Seq<char>| operator_spelled(key))
}

/// The map that a list of entries stands for: a later entry replaces an
/// earlier one with the same key.
spec fn entry_map(entries: Seq<(Vec<char>, Option<TokenKind>)>) -> Map<Seq<char>, Option<TokenKind>>
    decreases entries.len(),
{
    if entries.len() == 0 {
        Map::empty()
    } else {
        entry_map(entries.drop_last()).insert(entries.last().0@, entries.last().1)
    }
}

proof fn lemma_entry_map_push(
    entries: Seq<(Vec<char>, Option<TokenKind>)>,
    entry: (Vec<char>, Option<TokenKind>),
)
    ensures
        entry_map(entries.push(entry)) == entry_map(entries).insert(entry.0@, entry.1),
{
    assert(entries.push(entry).drop_last() =~= entries);
}

proof fn lemma_entry_map_miss(entries: Seq<(Vec<char>, Option<TokenKind>)>, key: Seq<char>)
    requires
        forall|j: int| 0 <= j < entries.len() ==> (#[trigger] entries[j]).0@ != key,
    ensures
        !entry_map(entries).contains_key(key),
    decreases entries.len(),
{
    if entries.len() > 0 {
        lemma_entry_map_miss(entries.drop_last(), key);
    }
}

proof fn lemma_entry_map_hit(
    entries: Seq<(Vec<char>, Option<TokenKind>)>,
    i: int,
    key: Seq<char>,
)
    requires
        0 <= i < entries.len(),
        entries[i].0@ == key,
        forall|j: int| i < j < entries.len() ==> (#[trigger] entries[j]).0@ != key,
    ensures
        entry_map(entries).contains_key(key),
        entry_map(entries)[key] == entries[i].1,
    decreases entries.len(),
{
    if i < entries.len() - 1 {
        lemma_entry_map_hit(entries.drop_last(), i, key);
    }
}

fn same_chars(a: &[char], b: &[char]) -> (same: bool)
    ensures
        same == (a@ == b@),
{
    if a.len() != b.len() {
        return false;
    }
    let mut i: usize = 0;
    while i < a.len()
        invariant
            i <= a.len(),
            a.len() == b.len(),
            forall|j: int| 0 <= j < i ==> a@[j] == b@[j],
        decreases a.len() - i,
    {
        if a[i] != b[i] {
            return false;
        }
        i += 1;
    }
    assert(a@ =~= b@);
    true
}

fn find(entries: &Vec<(Vec<char>, Option<TokenKind>)>, key: &[char]) -> (entry: Option<
    Option<TokenKind>,
>)
    ensures
        entry == if entry_map(entries@).contains_key(key@) {
            Some(entry_map(entries@)[key@])
        } else {
            None
        },
{
    let mut i: usize = entries.len();
    while i > 0
        invariant
            i <= entries.len(),
            forall|j: int| i <= j < entries.len() ==> (#[trigger] entries@[j]).0@ != key@,
        decreases i,
    {
        i -= 1;
        if same_chars(entries[i].0.as_slice(), key) {
            proof {
                lemma_entry_map_hit(entries@, i as int, key@);
            }
            return Some(entries[i].1);
        }
    }
    proof {
        lemma_entry_map_miss(entries@, key@);
    }
    None
}

/// Whether `key` is the beginning of the spelling of one of `kinds`.
spec fn begins_one_of(key: Seq<char>, kinds: Seq<TokenKind>) -> bool {
    exists|j: int| 0 <= j < kinds.len() && key.is_prefix_of(#[trigger] kinds[j].spelling().unwrap())
}

/// Whether `key` is the whole spelling of one of `kinds`.
spec fn spells_one_of(key: Seq<char>, kinds: Seq<TokenKind>) -> bool {
    exists|j: int| 0 <= j < kinds.len() && (#[trigger] kinds[j]).spelling() == Some(key)
}

/// Whether `map` gives each of its keys the kind among `kinds` that is spelled
/// so, and `None` where there is none.
spec fn values_fit(map: Map<Seq<char>, Option<TokenKind>>, kinds: Seq<TokenKind>) -> bool {
    forall|key: Seq<char>| #[trigger]
        map.contains_key(key) ==> match map[key] {
            Some(kind) => kinds.contains(kind) && kind.spelling() == Some(key),
            None => !spells_one_of(key, kinds),
        }
}

/// Whether `map` holds every beginning of every spelling of `kinds`.
spec fn holds_beginnings(map: Map<Seq<char>, Option<TokenKind>>, kinds: Seq<TokenKind>) -> bool {
    forall|j: int, n: int|
        0 <= j < kinds.len() && 0 <= n <= kinds[j].spelling().unwrap().len()
            ==> map.contains_key(#[trigger] kinds[j].spelling().unwrap().take(n))
}

/// The state of the table while the beginnings of `word` are entered, the
/// first `upto` of them already, after all of `kinds` have been.
spec fn table_during(
    map: Map<Seq<char>, Option<TokenKind>>,
    kinds: Seq<TokenKind>,
    word: Seq<char>,
    upto: int,
) -> bool {
    &&& forall|key: Seq<char>| #[trigger]
        map.contains_key(key) ==> begins_one_of(key, kinds) || key.is_prefix_of(word)
    &&& holds_beginnings(map, kinds)
    &&& forall|n: int| 0 <= n < upto ==> map.contains_key(#[trigger] word.take(n))
    &&& values_fit(map, kinds)
}

/// The state of the table once all of `kinds` have been entered.
spec fn table_after(map: Map<Seq<char>, Option<TokenKind>>, kinds: Seq<TokenKind>) -> bool {
    &&& forall|key: Seq<char>| #[trigger] map.contains_key(key) ==> begins_one_of(key, kinds)
    &&& holds_beginnings(map, kinds)
    &&& values_fit(map, kinds)
}

fn spelling_chars(kind: TokenKind) -> (word: Vec<char>)
    requires
        kind.spelling() is Some,
    ensures
        Some(word@) == kind.spelling(),
{
    match kind.text() {
        Some(text) => code_points(text),
        None => Vec::new(),
    }
}

fn beginning(word: &Vec<char>, length: usize) -> (prefix: Vec<char>)
    requires
        length <= word.len(),
    ensures
        prefix@ == word@.take(length as int),
{
    let mut prefix: Vec<char> = Vec::new();
    let mut i: usize = 0;
    while i < length
        invariant
            i <= length <= word.len(),
            prefix@ == word@.take(i as int),
        decreases length - i,
    {
        prefix.push(word[i]);
        i += 1;
    }
    prefix
}

/// Enters every proper beginning of `word` that the table lacks as a key that
/// completes no token yet.
fn enter_beginnings(
    entries: &mut Vec<(Vec<char>, Option<TokenKind>)>,
    word: &Vec<char>,
    Ghost(kinds): Ghost<Seq<TokenKind>>,
)
    requires
        table_after(entry_map(old(entries)@), kinds),
    ensures
        table_during(entry_map(final(entries)@), kinds, word@, word@.len() as int),
{
    let mut length: usize = 0;
    while length < word.len()
        invariant
            length <= word.len(),
            table_during(entry_map(entries@), kinds, word@, length as int),
        decreases word.len() - length,
    {
        let prefix = beginning(word, length);
        if find(entries, prefix.as_slice()).is_none() {
            let ghost key = prefix@;
            proof {
                lemma_entry_map_push(entries@, (prefix, None));
                assert(!spells_one_of(key, kinds)) by {
                    if spells_one_of(key, kinds) {
                        let j = choose|j: int|
                            0 <= j < kinds.len() && (#[trigger] kinds[j]).spelling() == Some(key);
                        assert(kinds[j].spelling().unwrap().take(key.len() as int) =~= key);
                    }
                }
            }
            entries.push((prefix, None));
        }
        length += 1;
    }
}

/// Builds the entries of the prefix table from a list of kinds: each proper
/// beginning of each spelling as a key that completes no token, each whole
/// spelling as a key that completes its kind.
fn build_entries(kinds: &Vec<TokenKind>) -> (entries: Vec<(Vec<char>, Option<TokenKind>)>)
    requires
        forall|j: int| 0 <= j < kinds.len() ==> (#[trigger] kinds[j]).spelling() is Some,
    ensures
        table_after(entry_map(entries@), kinds@),
{
    let mut entries: Vec<(Vec<char>, Option<TokenKind>)> = Vec::new();
    let mut i: usize = 0;
    while i < kinds.len()
        invariant
            i <= kinds.len(),
            forall|j: int| 0 <= j < kinds.len() ==> (#[trigger] kinds[j]).spelling() is Some,
            table_after(entry_map(entries@), kinds@.take(i as int)),
        decreases kinds.len() - i,
    {
        let kind = kinds[i];
        let word = spelling_chars(kind);
        let ghost done = kinds@.take(i as int);
        let ghost next = kinds@.take(i as int + 1);
        enter_beginnings(&mut entries, &word, Ghost(done));
        proof {
            let before = entry_map(entries@);
            let after = before.insert(word@, Some(kind));
            lemma_entry_map_push(entries@, (word, Some(kind)));
            assert(next =~= done.push(kind));
            assert(next[i as int] == kind);
            assert forall|key: Seq<char>| #[trigger] after.contains_key(key) implies begins_one_of(
                key,
                next,
            ) by {
                if before.contains_key(key) && begins_one_of(key, done) {
                    let j = choose|j: int|
                        0 <= j < done.len() && key.is_prefix_of(
                            #[trigger] done[j].spelling().unwrap(),
                        );
                    assert(key.is_prefix_of(next[j].spelling().unwrap()));
                } else {
                    assert(key.is_prefix_of(next[i as int].spelling().unwrap()));
                }
            }
            assert forall|j: int, n: int|
                0 <= j < next.len() && 0 <= n <= next[j].spelling().unwrap().len()
                    implies after.contains_key(#[trigger] next[j].spelling().unwrap().take(n)) by {
                if j < i {
                    assert(before.contains_key(done[j].spelling().unwrap().take(n)));
                } else if n < word@.len() {
                    assert(before.contains_key(word@.take(n)));
                } else {
                    assert(word@.take(n) =~= word@);
                }
            }
            assert forall|key: Seq<char>| #[trigger] after.contains_key(key) implies match after[key]
            {
                Some(kind) => next.contains(kind) && kind.spelling() == Some(key),
                None => !spells_one_of(key, next),
            } by {
                if key == word@ {
                } else {
                    assert(before.contains_key(key));
                    match before[key] {
                        Some(found) => {
                            let j = choose|j: int| 0 <= j < done.len() && done[j] == found;
                            assert(next[j] == found);
                        },
                        None => {
                            if spells_one_of(key, next) {
                                let j = choose|j: int|
                                    0 <= j < next.len() && (#[trigger] next[j]).spelling() == Some(
                                        key,
                                    );
                                assert(done[j].spelling() == Some(key));
                            }
                        },
                    }
                }
            }
        }
        entries.push((word, Some(kind)));
        i += 1;
    }
    assert(kinds@.take(i as int) =~= kinds@);
    entries
}

fn operator_list() -> (kinds: Vec<TokenKind>)
    ensures
        kinds@ == operator_kinds(),
{
    let kinds = vec![
        TokenKind::OpenBraces,
        TokenKind::CloseBraces,
        TokenKind::OpenParentheses,
        TokenKind::CloseParentheses,
        TokenKind::Plus,
        TokenKind::Minus,
        TokenKind::Mul,
        TokenKind::Div,
        TokenKind::Rem,
        TokenKind::Assign,
        TokenKind::DefineVar,
        TokenKind::FieldTypeSeparator,
        TokenKind::RightArrow,
        TokenKind::Equal,
        TokenKind::Greater,
        TokenKind::GreaterOrEqual,
        TokenKind::Less,
        TokenKind::LessOrEqual,
        TokenKind::Not,
        TokenKind::Or,
        TokenKind::And,
        TokenKind::Xor,
        TokenKind::Comma,
        TokenKind::EndOfStatement,
    ];
    kinds
}

/// A table built from all operators is the prefix table.
proof fn lemma_table_complete(map: Map<Seq<char>, Option<TokenKind>>)
    requires
        table_after(map, operator_kinds()),
    ensures
        map == prefix_table(),
{
    let kinds = operator_kinds();
    assert forall|key: Seq<char>| map.contains_key(key) == is_operator_prefix(key) by {
        if map.contains_key(key) {
            let j = choose|j: int|
                0 <= j < kinds.len() && key.is_prefix_of(#[trigger] kinds[j].spelling().unwrap());
            lemma_operator_kinds(kinds[j]);
            assert(key.is_prefix_of(operator_spelling(kinds[j])));
        }
        if is_operator_prefix(key) {
            let kind = choose|kind: TokenKind|
                is_operator(kind) && #[trigger] key.is_prefix_of(operator_spelling(kind));
            lemma_operator_kinds(kind);
            let j = choose|j: int| 0 <= j < kinds.len() && kinds[j] == kind;
            assert(kinds[j].spelling().unwrap().take(key.len() as int) =~= key);
        }
    }
    assert forall|key: Seq<char>| map.contains_key(key) implies map[key] == operator_spelled(
        key,
    ) by {
        match map[key] {
            Some(kind) => {
                lemma_operator_kinds(kind);
                let chosen = choose|kind: TokenKind|
                    is_operator(kind) && kind.spelling() == Some(key);
                lemma_spelling_unique(kind, chosen);
            },
            None => {
                if operator_spelled(key) is Some {
                    let kind = operator_spelled(key).unwrap();
                    lemma_operator_kinds(kind);
                    let j = choose|j: int| 0 <= j < kinds.len() && kinds[j] == kind;
                    assert(kinds[j].spelling() == Some(key));
                    assert(spells_one_of(key, kinds));
                }
            },
        }
    }
    assert(map =~= prefix_table());
}

/// The prefix table of the operator matcher.
///
/// It is built once from the list of operators and only read afterwards.
pub struct OperatorTable {
    entries: Vec<(Vec<char>, Option<TokenKind>)>,
}

impl View for OperatorTable {
    type V = Map<Seq<char>, Option<TokenKind>>;

    closed spec fn view(&self) -> Map<Seq<char>, Option<TokenKind>> {
        entry_map(self.entries@)
    }
}

impl OperatorTable {
    #[verifier::type_invariant]
    spec fn well_formed(self) -> bool {
        entry_map(self.entries@) == prefix_table()
    }

    /// Builds the table: every proper beginning of every operator's spelling
    /// becomes a key that completes no token, unless it is an operator itself,
    /// and every whole spelling a key that completes its operator.
    pub fn new() -> (table: Self)
        ensures
            table@ == prefix_table(),
    {
        let kinds = operator_list();
        proof {
            assert forall|j: int| 0 <= j < kinds.len() implies (#[trigger] kinds[j]).spelling()
                is Some by {
                lemma_operator_kinds(kinds[j]);
            }
        }
        let entries = build_entries(&kinds);
        proof {
            lemma_table_complete(entry_map(entries@));
        }
        OperatorTable { entries }
    }

    /// Looks a sequence of code points up.  `None`: no operator begins so.
    /// `Some(None)`: some operator begins so, none is spelled so.
    /// `Some(Some(kind))`: `kind` is spelled so.
    pub fn get(&self, prefix: &[char]) -> (entry: Option<Option<TokenKind>>)
        ensures
            self@ == prefix_table(),
            entry == if is_operator_prefix(prefix@) {
                Some(operator_spelled(prefix@))
            } else {
                None
            },
    {
        proof {
            use_type_invariant(self);
        }
        find(&self.entries, prefix)
    }
}

} // verus!
