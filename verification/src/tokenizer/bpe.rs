use vstd::prelude::*;

use crate::model::gguf::{GgufMetadata, GgufValue, ValueModel, lookup_value, models_of, lemma_models_of};
use crate::text::{chars_of, decimal, push_decimal, push_str, string_from_chars};

verus! {

/// Errors reported by the tokenizer.
#[derive(Debug, Clone, PartialEq, Eq)]
pub enum TokenizerError {
    TokenNotFound(usize),
    InvalidUtf8(String),
}

// ============================================================================
// Character sequences and keyed tables
// ============================================================================
/// The character views of a vector of pieces.
pub open spec fn views(v: Seq<Vec<char>>) -> Seq<Seq<char>> {
    Seq::new(v.len(), |i: int| v[i]@)
}

/// Whether two character sequences are equal.
pub fn chars_eq(a: &[char], b: &[char]) -> (r: bool)
    ensures
        r == (a@ == b@),
{
    if a.len() != b.len() {
        return false;
    }
    let mut i: usize = 0;
    while i < a.len()
        invariant
            a@.len() == b@.len(),
            i <= a@.len(),
            forall|k: int| 0 <= k < i ==> a@[k] == b@[k],
        decreases a@.len() - i,
    {
        if a[i] != b[i] {
            return false;
        }
        i = i + 1;
    }
    proof {
        assert(a@ =~= b@);
    }
    true
}

/// The concatenation of two character sequences.
pub fn concat_chars(a: &[char], b: &[char]) -> (r: Vec<char>)
    ensures
        r@ == a@ + b@,
{
    let mut r: Vec<char> = Vec::new();
    let mut i: usize = 0;
    while i < a.len()
        invariant
            i <= a@.len(),
            r@ == a@.take(i as int),
        decreases a@.len() - i,
    {
        r.push(a[i]);
        i = i + 1;
        proof {
            assert(r@ =~= a@.take(i as int));
        }
    }
    let mut j: usize = 0;
    while j < b.len()
        invariant
            j <= b@.len(),
            r@ == a@ + b@.take(j as int),
        decreases b@.len() - j,
    {
        r.push(b[j]);
        j = j + 1;
        proof {
            assert(r@ =~= a@ + b@.take(j as int));
        }
    }
    proof {
        assert(a@.take(a@.len() as int) =~= a@);
        assert(b@.take(b@.len() as int) =~= b@);
    }
    r
}

/// Copies a character vector.
pub fn copy_chars(a: &[char]) -> (r: Vec<char>)
    ensures
        r@ == a@,
{
    vstd::slice::slice_to_vec(a)
}

/// Position of the entry with key `k` (the last one if there are several).
pub open spec fn index_of<K>(s: Seq<(K, usize)>, k: K) -> Option<int>
    decreases s.len(),
{
    if s.len() == 0 {
        None
    } else if s.last().0 == k {
        Some(s.len() - 1)
    } else {
        index_of(s.drop_last(), k)
    }
}

/// The value stored under key `k`.
pub open spec fn lookup<K>(s: Seq<(K, usize)>, k: K) -> Option<usize> {
    match index_of(s, k) {
        Some(i) => Some(s[i].1),
        None => None,
    }
}

/// No key occurs twice.
pub open spec fn distinct_keys<K>(s: Seq<(K, usize)>) -> bool {
    forall|i: int, j: int| 0 <= i < j < s.len() ==> #[trigger] s[i].0 != #[trigger] s[j].0
}

/// Map insertion: replaces the value of an existing key, else appends.
pub open spec fn table_insert<K>(s: Seq<(K, usize)>, k: K, v: usize) -> Seq<(K, usize)> {
    match index_of(s, k) {
        Some(i) => s.update(i, (k, v)),
        None => s.push((k, v)),
    }
}

proof fn lemma_index_of<K>(s: Seq<(K, usize)>, k: K)
    ensures
        index_of(s, k) matches Some(i) ==> 0 <= i < s.len() && s[i].0 == k && forall|j: int|
            i < j < s.len() ==> #[trigger] s[j].0 != k,
        index_of(s, k) is None ==> forall|j: int| 0 <= j < s.len() ==> #[trigger] s[j].0 != k,
    decreases s.len(),
{
    if s.len() > 0 {
        lemma_index_of(s.drop_last(), k);
        assert forall|j: int| 0 <= j < s.len() - 1 implies #[trigger] s[j] == s.drop_last()[j] by {}
    }
}

proof fn lemma_insert_distinct<K>(s: Seq<(K, usize)>, k: K, v: usize)
    requires
        distinct_keys(s),
    ensures
        distinct_keys(table_insert(s, k, v)),
        table_insert(s, k, v).len() == s.len() + (if index_of(s, k) is Some {
            0int
        } else {
            1int
        }),
{
    lemma_index_of(s, k);
}

/// Index of the entry whose key is the character sequence `key`.
fn find_token(entries: &Vec<(Vec<char>, usize)>, key: &[char]) -> (r: Option<usize>)
    ensures
        match index_of(token_table(entries@), key@) {
            Some(i) => r matches Some(k) && k as int == i,
            None => r is None,
        },
{
    let ghost t = token_table(entries@);
    let mut i = entries.len();
    proof {
        assert(t.take(i as int) =~= t);
    }
    while i > 0
        invariant
            i <= entries@.len(),
            t == token_table(entries@),
            index_of(t, key@) == index_of(t.take(i as int), key@),
        decreases i,
    {
        i = i - 1;
        proof {
            assert(t.take(i + 1).drop_last() =~= t.take(i as int));
        }
        if chars_eq(entries[i].0.as_slice(), key) {
            return Some(i);
        }
    }
    None
}

/// Index of the entry whose key is the pair `(a, b)`.
fn find_pair(entries: &Vec<((Vec<char>, Vec<char>), usize)>, a: &[char], b: &[char]) -> (r: Option<
    usize,
>)
    ensures
        match index_of(pair_table(entries@), (a@, b@)) {
            Some(i) => r matches Some(k) && k as int == i,
            None => r is None,
        },
{
    let ghost t = pair_table(entries@);
    let mut i = entries.len();
    proof {
        assert(t.take(i as int) =~= t);
    }
    while i > 0
        invariant
            i <= entries@.len(),
            t == pair_table(entries@),
            index_of(t, (a@, b@)) == index_of(t.take(i as int), (a@, b@)),
        decreases i,
    {
        i = i - 1;
        proof {
            assert(t.take(i + 1).drop_last() =~= t.take(i as int));
        }
        if chars_eq((entries[i].0).0.as_slice(), a) && chars_eq((entries[i].0).1.as_slice(), b) {
            return Some(i);
        }
    }
    None
}

pub open spec fn token_table(v: Seq<(Vec<char>, usize)>) -> Seq<(Seq<char>, usize)> {
    Seq::new(v.len(), |i: int| (v[i].0@, v[i].1))
}

pub open spec fn pair_table(v: Seq<((Vec<char>, Vec<char>), usize)>) -> Seq<
    ((Seq<char>, Seq<char>), usize),
> {
    Seq::new(v.len(), |i: int| ((v[i].0.0@, v[i].0.1@), v[i].1))
}

fn insert_token(entries: &mut Vec<(Vec<char>, usize)>, key: Vec<char>, value: usize)
    ensures
        token_table(final(entries)@) == table_insert(token_table(old(entries)@), key@, value),
{
    proof {
        lemma_index_of(token_table(entries@), key@);
    }
    match find_token(entries, key.as_slice()) {
        Some(i) => {
            let ghost k = key@;
            entries.set(i, (key, value));
            proof {
                assert(token_table(final(entries)@) =~= table_insert(
                    token_table(old(entries)@),
                    k,
                    value,
                ));
            }
        },
        None => {
            let ghost k = key@;
            entries.push((key, value));
            proof {
                assert(token_table(final(entries)@) =~= table_insert(
                    token_table(old(entries)@),
                    k,
                    value,
                ));
            }
        },
    }
}

fn insert_pair(
    entries: &mut Vec<((Vec<char>, Vec<char>), usize)>,
    a: Vec<char>,
    b: Vec<char>,
    value: usize,
)
    ensures
        pair_table(final(entries)@) == table_insert(pair_table(old(entries)@), (a@, b@), value),
{
    let ghost k = (a@, b@);
    proof {
        lemma_index_of(pair_table(entries@), k);
    }
    match find_pair(entries, a.as_slice(), b.as_slice()) {
        Some(i) => {
            entries.set(i, ((a, b), value));
            proof {
                assert(pair_table(final(entries)@) =~= table_insert(
                    pair_table(old(entries)@),
                    k,
                    value,
                ));
            }
        },
        None => {
            entries.push(((a, b), value));
            proof {
                assert(pair_table(final(entries)@) =~= table_insert(
                    pair_table(old(entries)@),
                    k,
                    value,
                ));
            }
        },
    }
}

// ============================================================================
// Model and spec of byte-pair encoding
// ============================================================================
pub type Merges = Seq<((Seq<char>, Seq<char>), usize)>;

pub type Vocab = Seq<(Seq<char>, usize)>;

/// Mathematical model of a tokenizer.
pub struct TokenizerModel {
    /// Token text to id (keys distinct).
    pub vocab: Vocab,
    /// Id to token text.
    pub reverse_vocab: Seq<Seq<char>>,
    /// Pair of pieces to merge rank (keys distinct); lower ranks merge first.
    pub merges: Merges,
    pub bos_id: Option<usize>,
    pub eos_id: Option<usize>,
    pub unk_id: Option<usize>,
    pub add_bos_token: bool,
    pub byte_level_bpe: bool,
}

impl TokenizerModel {
    pub open spec fn wf(self) -> bool {
        distinct_keys(self.vocab) && distinct_keys(self.merges)
    }
}

/// Byte-level vocabularies spell a space as U+0120 and a newline as U+010A.
pub open spec fn prepare_char(c: char, byte_level: bool) -> char {
    if byte_level && c == ' ' {
        '\u{120}'
    } else if byte_level && c == '\n' {
        '\u{10A}'
    } else {
        c
    }
}

pub open spec fn prepare(text: Seq<char>, byte_level: bool) -> Seq<char> {
    Seq::new(text.len(), |i: int| prepare_char(text[i], byte_level))
}

/// Each character as a piece of its own.
pub open spec fn singletons(s: Seq<char>) -> Seq<Seq<char>> {
    Seq::new(s.len(), |i: int| seq![s[i]])
}

/// Rank of merging pieces `i` and `i + 1`, when they form a known pair
/// (a pair ranked `usize::MAX` is never merged).
pub open spec fn eligible_rank(merges: Merges, p: Seq<Seq<char>>, i: int) -> Option<usize> {
    match lookup(merges, (p[i], p[i + 1])) {
        Some(r) => if r < usize::MAX {
            Some(r)
        } else {
            None
        },
        None => None,
    }
}

/// Pair `i` is the next one to merge: the lowest rank, and the leftmost
/// among equal ranks.
pub open spec fn is_best(merges: Merges, p: Seq<Seq<char>>, i: int) -> bool {
    &&& 0 <= i < p.len() - 1
    &&& eligible_rank(merges, p, i) is Some
    &&& forall|j: int|
        0 <= j < p.len() - 1 && #[trigger] eligible_rank(merges, p, j) is Some ==> eligible_rank(
            merges,
            p,
            j,
        )->0 >= eligible_rank(merges, p, i)->0
    &&& forall|j: int|
        0 <= j < i && #[trigger] eligible_rank(merges, p, j) is Some ==> eligible_rank(
            merges,
            p,
            j,
        )->0 > eligible_rank(merges, p, i)->0
}

/// Pieces `i` and `i + 1` joined into one.
pub open spec fn merge_at(p: Seq<Seq<char>>, i: int) -> Seq<Seq<char>> {
    p.take(i).push(p[i] + p[i + 1]) + p.skip(i + 2)
}

/// Repeatedly merges the best pair until none is left.
pub open spec fn bpe(merges: Merges, p: Seq<Seq<char>>) -> Seq<Seq<char>>
    decreases p.len(),
{
    if p.len() < 2 {
        p
    } else if exists|i: int| is_best(merges, p, i) {
        let i = choose|i: int| is_best(merges, p, i);
        bpe(merges, merge_at(p, i))
    } else {
        p
    }
}

/// Token ids of the final pieces: a piece not in the vocabulary becomes the
/// unknown token, or is dropped when there is none.
pub open spec fn ids_of(vocab: Vocab, unk: Option<usize>, p: Seq<Seq<char>>) -> Seq<usize>
    decreases p.len(),
{
    if p.len() == 0 {
        Seq::empty()
    } else {
        let rest = ids_of(vocab, unk, p.drop_last());
        match lookup(vocab, p.last()) {
            Some(id) => rest.push(id),
            None => match unk {
                Some(u) => rest.push(u),
                None => rest,
            },
        }
    }
}

/// The token ids of `text`, after the BOS token when one is asked for and
/// enabled.
pub open spec fn spec_encode(m: TokenizerModel, text: Seq<char>, add_bos: bool) -> Seq<usize> {
    let bos = if add_bos && m.add_bos_token && m.bos_id is Some {
        seq![m.bos_id->0]
    } else {
        Seq::empty()
    };
    bos + ids_of(m.vocab, m.unk_id, bpe(m.merges, singletons(prepare(text, m.byte_level_bpe))))
}

/// Token text with the byte-level marks turned back into space and newline.
pub open spec fn clean(piece: Seq<char>) -> Seq<char> {
    Seq::new(
        piece.len(),
        |i: int|
            if piece[i] == '\u{120}' {
                ' '
            } else if piece[i] == '\u{10A}' {
                '\n'
            } else {
                piece[i]
            },
    )
}

/// The text of `tokens`, skipping BOS and EOS; `Err(id)` for the first id
/// outside the vocabulary.
pub open spec fn spec_decode(m: TokenizerModel, tokens: Seq<usize>) -> Result<Seq<char>, usize>
    decreases tokens.len(),
{
    if tokens.len() == 0 {
        Ok(Seq::empty())
    } else {
        let id = tokens[0];
        let rest = spec_decode(m, tokens.drop_first());
        if Some(id) == m.bos_id || Some(id) == m.eos_id {
            rest
        } else if id < m.reverse_vocab.len() {
            match rest {
                Ok(s) => Ok(clean(m.reverse_vocab[id as int]) + s),
                Err(e) => Err(e),
            }
        } else {
            Err(id)
        }
    }
}

/// Text already produced, followed by the decoding of the rest.
pub open spec fn prepend(acc: Seq<char>, r: Result<Seq<char>, usize>) -> Result<Seq<char>, usize> {
    match r {
        Ok(s) => Ok(acc + s),
        Err(e) => Err(e),
    }
}

/// The table obtained by inserting `entries` in order.
pub open spec fn build_table<K>(entries: Seq<(K, usize)>) -> Seq<(K, usize)>
    decreases entries.len(),
{
    if entries.len() == 0 {
        Seq::empty()
    } else {
        table_insert(build_table(entries.drop_last()), entries.last().0, entries.last().1)
    }
}

proof fn lemma_build_table_distinct<K>(entries: Seq<(K, usize)>)
    ensures
        distinct_keys(build_table(entries)),
    decreases entries.len(),
{
    if entries.len() > 0 {
        lemma_build_table_distinct(entries.drop_last());
        lemma_insert_distinct(build_table(entries.drop_last()), entries.last().0, entries.last().1);
    }
}

/// Position of the last vocabulary entry with id `id`.
pub open spec fn last_with_id(v: Vocab, id: int) -> Option<int>
    decreases v.len(),
{
    if v.len() == 0 {
        None
    } else if v.last().1 == id {
        Some(v.len() - 1)
    } else {
        last_with_id(v.drop_last(), id)
    }
}

proof fn lemma_last_with_id(v: Vocab, id: int)
    ensures
        last_with_id(v, id) matches Some(j) ==> 0 <= j < v.len() && v[j].1 == id,
    decreases v.len(),
{
    if v.len() > 0 {
        lemma_last_with_id(v.drop_last(), id);
    }
}

/// Id-indexed token texts for ids below `n`: the token of the last entry
/// with that id, or the empty text.
pub open spec fn reverse_of(v: Vocab, n: nat) -> Seq<Seq<char>> {
    Seq::new(
        n,
        |id: int|
            match last_with_id(v, id) {
                Some(j) => v[j].0,
                None => Seq::empty(),
            },
    )
}

/// The single-character token that marks a byte-level vocabulary.
pub open spec fn space_mark() -> Seq<char> {
    seq!['\u{120}']
}

pub open spec fn string_entries(v: Seq<(String, usize)>) -> Seq<(Seq<char>, usize)> {
    Seq::new(v.len(), |i: int| (v[i].0@, v[i].1))
}

pub open spec fn string_pair_entries(v: Seq<((String, String), usize)>) -> Merges {
    Seq::new(v.len(), |i: int| ((v[i].0.0@, v[i].0.1@), v[i].1))
}

/// Model of `BpeTokenizer::new`.
pub open spec fn spec_new(
    vocab: Seq<(Seq<char>, usize)>,
    merges: Merges,
    bos_id: Option<usize>,
    eos_id: Option<usize>,
    unk_id: Option<usize>,
) -> TokenizerModel {
    let v = build_table(vocab);
    TokenizerModel {
        vocab: v,
        reverse_vocab: reverse_of(v, v.len()),
        merges: build_table(merges),
        bos_id,
        eos_id,
        unk_id,
        add_bos_token: true,
        byte_level_bpe: lookup(v, space_mark()) is Some,
    }
}

/// The merge pairs of the built-in tokenizer, in rank order.
pub open spec fn default_pairs() -> Seq<(Seq<char>, Seq<char>)> {
    seq![
        ("t"@, "h"@),
        ("th"@, "e"@),
        ("a"@, "n"@),
        ("i"@, "n"@),
        ("o"@, "n"@),
        ("e"@, "r"@),
        ("r"@, "e"@),
        ("e"@, "s"@),
        ("o"@, "u"@),
        ("i"@, "s"@),
        ("a"@, "t"@),
        ("o"@, "r"@),
        ("l"@, "i"@),
        ("f"@, "e"@),
        ("li"@, "fe"@),
        ("m"@, "e"@),
        ("me"@, "an"@),
        ("mean"@, "ing"@),
        (" "@, "t"@),
        (" "@, "th"@),
        (" "@, "the"@),
        (" "@, "m"@),
        (" "@, "is"@),
        (" "@, "of"@),
        (" "@, "li"@),
        (" "@, "life"@)
    ]
}

/// The special tokens of the built-in tokenizer: unknown, BOS and EOS.
pub open spec fn default_specials() -> Seq<Seq<char>> {
    seq!["<unk>"@, "<s>"@, "</s>"@]
}

/// Vocabulary, reverse vocabulary and merges while a tokenizer is built.
pub struct BuildState {
    pub vocab: Vocab,
    pub reverse: Seq<Seq<char>>,
    pub merges: Merges,
}

/// Adds a token with the next free id (the current vocabulary size).
pub open spec fn add_token(st: BuildState, tok: Seq<char>) -> BuildState {
    BuildState {
        vocab: table_insert(st.vocab, tok, st.vocab.len() as usize),
        reverse: st.reverse.push(tok),
        merges: st.merges,
    }
}

/// The special tokens, with ids 0, 1 and 2.
pub open spec fn default_after_specials(n: nat) -> BuildState
    decreases n,
{
    if n == 0 {
        BuildState { vocab: Seq::empty(), reverse: Seq::empty(), merges: Seq::empty() }
    } else {
        let st = default_after_specials((n - 1) as nat);
        let tok = default_specials()[n - 1];
        BuildState {
            vocab: table_insert(st.vocab, tok, (n - 1) as usize),
            reverse: st.reverse.push(tok),
            merges: st.merges,
        }
    }
}

/// Then one token for each character U+0000 to U+00FF.
pub open spec fn default_after_bytes(n: nat) -> BuildState
    decreases n,
{
    if n == 0 {
        default_after_specials(3)
    } else {
        add_token(default_after_bytes((n - 1) as nat), seq![((n - 1) as u8) as char])
    }
}

/// Then each merge pair with its rank, adding the merged text as a token
/// when it is not one yet.
pub open spec fn default_after_merges(n: nat) -> BuildState
    decreases n,
{
    if n == 0 {
        default_after_bytes(256)
    } else {
        let st = default_after_merges((n - 1) as nat);
        let pair = default_pairs()[n - 1];
        let st2 = BuildState {
            vocab: st.vocab,
            reverse: st.reverse,
            merges: table_insert(st.merges, pair, (n - 1) as usize),
        };
        if lookup(st2.vocab, pair.0 + pair.1) is Some {
            st2
        } else {
            add_token(st2, pair.0 + pair.1)
        }
    }
}

/// Model of the built-in tokenizer.
pub open spec fn default_model() -> TokenizerModel {
    let st = default_after_merges(26);
    TokenizerModel {
        vocab: st.vocab,
        reverse_vocab: st.reverse,
        merges: st.merges,
        bos_id: Some(1),
        eos_id: Some(2),
        unk_id: Some(0),
        add_bos_token: true,
        byte_level_bpe: false,
    }
}

fn default_merge_pairs() -> (r: Vec<(Vec<char>, Vec<char>)>)
    ensures
        r@.len() == default_pairs().len(),
        forall|i: int| 0 <= i < r@.len() ==> (#[trigger] r@[i].0@, r@[i].1@) == default_pairs()[i],
{
    let mut r: Vec<(Vec<char>, Vec<char>)> = Vec::new();
    r.push((chars_of("t"), chars_of("h")));
    r.push((chars_of("th"), chars_of("e")));
    r.push((chars_of("a"), chars_of("n")));
    r.push((chars_of("i"), chars_of("n")));
    r.push((chars_of("o"), chars_of("n")));
    r.push((chars_of("e"), chars_of("r")));
    r.push((chars_of("r"), chars_of("e")));
    r.push((chars_of("e"), chars_of("s")));
    r.push((chars_of("o"), chars_of("u")));
    r.push((chars_of("i"), chars_of("s")));
    r.push((chars_of("a"), chars_of("t")));
    r.push((chars_of("o"), chars_of("r")));
    r.push((chars_of("l"), chars_of("i")));
    r.push((chars_of("f"), chars_of("e")));
    r.push((chars_of("li"), chars_of("fe")));
    r.push((chars_of("m"), chars_of("e")));
    r.push((chars_of("me"), chars_of("an")));
    r.push((chars_of("mean"), chars_of("ing")));
    r.push((chars_of(" "), chars_of("t")));
    r.push((chars_of(" "), chars_of("th")));
    r.push((chars_of(" "), chars_of("the")));
    r.push((chars_of(" "), chars_of("m")));
    r.push((chars_of(" "), chars_of("is")));
    r.push((chars_of(" "), chars_of("of")));
    r.push((chars_of(" "), chars_of("li")));
    r.push((chars_of(" "), chars_of("life")));
    r
}

proof fn lemma_default_distinct(n: nat)
    requires
        n <= 26,
    ensures
        distinct_keys(default_after_merges(n).vocab),
        distinct_keys(default_after_merges(n).merges),
    decreases n,
{
    if n == 0 {
        lemma_default_bytes_distinct(256);
    } else {
        lemma_default_distinct((n - 1) as nat);
        let st = default_after_merges((n - 1) as nat);
        let pair = default_pairs()[n - 1];
        lemma_insert_distinct(st.merges, pair, (n - 1) as usize);
        lemma_insert_distinct(st.vocab, pair.0 + pair.1, st.vocab.len() as usize);
    }
}

proof fn lemma_default_bytes_distinct(n: nat)
    requires
        n <= 256,
    ensures
        distinct_keys(default_after_bytes(n).vocab),
        distinct_keys(default_after_bytes(n).merges),
    decreases n,
{
    if n == 0 {
        lemma_default_specials_distinct(3);
    } else {
        lemma_default_bytes_distinct((n - 1) as nat);
        let st = default_after_bytes((n - 1) as nat);
        lemma_insert_distinct(st.vocab, seq![((n - 1) as u8) as char], st.vocab.len() as usize);
    }
}

proof fn lemma_default_specials_distinct(n: nat)
    requires
        n <= 3,
    ensures
        distinct_keys(default_after_specials(n).vocab),
        distinct_keys(default_after_specials(n).merges),
    decreases n,
{
    if n > 0 {
        lemma_default_specials_distinct((n - 1) as nat);
        let st = default_after_specials((n - 1) as nat);
        lemma_insert_distinct(st.vocab, default_specials()[n - 1], (n - 1) as usize);
    }
}

/// Position of the first `c` in `s`.
pub open spec fn find_char(s: Seq<char>, c: char) -> Option<int>
    decreases s.len(),
{
    if s.len() == 0 {
        None
    } else if s[0] == c {
        Some(0)
    } else {
        match find_char(s.drop_first(), c) {
            Some(i) => Some(i + 1),
            None => None,
        }
    }
}

proof fn lemma_find_char(s: Seq<char>, c: char)
    ensures
        find_char(s, c) matches Some(i) ==> 0 <= i < s.len() && s[i] == c && forall|j: int|
            0 <= j < i ==> #[trigger] s[j] != c,
        find_char(s, c) is None ==> forall|j: int| 0 <= j < s.len() ==> #[trigger] s[j] != c,
    decreases s.len(),
{
    if s.len() > 0 {
        lemma_find_char(s.drop_first(), c);
        assert forall|j: int| 1 <= j < s.len() implies #[trigger] s[j] == s.drop_first()[j - 1] by {}
    }
}

/// The parts of `s` before and after its first space.
pub open spec fn split_at_space(s: Seq<char>) -> Option<(Seq<char>, Seq<char>)> {
    match find_char(s, ' ') {
        Some(i) => Some((s.take(i), s.skip(i + 1))),
        None => None,
    }
}

/// Vocabulary from a token list: each string item maps to its position.
pub open spec fn vocab_from_items(arr: Seq<ValueModel>) -> Vocab
    decreases arr.len(),
{
    if arr.len() == 0 {
        Seq::empty()
    } else {
        let prev = vocab_from_items(arr.drop_last());
        match arr.last() {
            ValueModel::Str(s) => table_insert(prev, s, (arr.len() - 1) as usize),
            _ => prev,
        }
    }
}

/// The string items of a token list, in order.
pub open spec fn reverse_from_items(arr: Seq<ValueModel>) -> Seq<Seq<char>>
    decreases arr.len(),
{
    if arr.len() == 0 {
        Seq::empty()
    } else {
        let prev = reverse_from_items(arr.drop_last());
        match arr.last() {
            ValueModel::Str(s) => prev.push(s),
            _ => prev,
        }
    }
}

/// Merges from a merge list: a string item "a b" ranks pair (a, b) by its
/// position.
pub open spec fn merges_from_items(arr: Seq<ValueModel>) -> Merges
    decreases arr.len(),
{
    if arr.len() == 0 {
        Seq::empty()
    } else {
        let prev = merges_from_items(arr.drop_last());
        match arr.last() {
            ValueModel::Str(s) => match split_at_space(s) {
                Some(pair) => table_insert(prev, pair, (arr.len() - 1) as usize),
                None => prev,
            },
            _ => prev,
        }
    }
}

proof fn lemma_items_distinct(arr: Seq<ValueModel>)
    ensures
        distinct_keys(vocab_from_items(arr)),
        distinct_keys(merges_from_items(arr)),
    decreases arr.len(),
{
    if arr.len() > 0 {
        lemma_items_distinct(arr.drop_last());
        if let ValueModel::Str(s) = arr.last() {
            lemma_insert_distinct(vocab_from_items(arr.drop_last()), s, (arr.len() - 1) as usize);
            if let Some(pair) = split_at_space(s) {
                lemma_insert_distinct(
                    merges_from_items(arr.drop_last()),
                    pair,
                    (arr.len() - 1) as usize,
                );
            }
        }
    }
}

/// A `u32` metadata entry as an id.
pub open spec fn id_entry(md: Seq<(Seq<char>, ValueModel)>, key: Seq<char>) -> Option<usize> {
    match lookup_value(md, key) {
        Some(ValueModel::Uint32(v)) => Some(v as usize),
        _ => None,
    }
}

/// Model of a tokenizer read from GGUF metadata; `None` when there is no
/// token list.
pub open spec fn spec_from_gguf(md: Seq<(Seq<char>, ValueModel)>) -> Option<TokenizerModel> {
    match lookup_value(md, "tokenizer.ggml.tokens"@) {
        Some(ValueModel::Array(arr)) => {
            let v = vocab_from_items(arr);
            let bos = id_entry(md, "tokenizer.ggml.bos_token_id"@);
            Some(
                TokenizerModel {
                    vocab: v,
                    reverse_vocab: reverse_from_items(arr),
                    merges: match lookup_value(md, "tokenizer.ggml.merges"@) {
                        Some(ValueModel::Array(m)) => merges_from_items(m),
                        _ => Seq::empty(),
                    },
                    bos_id: bos,
                    eos_id: id_entry(md, "tokenizer.ggml.eos_token_id"@),
                    unk_id: id_entry(md, "tokenizer.ggml.unknown_token_id"@),
                    add_bos_token: match lookup_value(md, "tokenizer.ggml.add_bos_token"@) {
                        Some(ValueModel::Bool(b)) => b,
                        _ => bos is Some,
                    },
                    byte_level_bpe: lookup(v, space_mark()) is Some,
                },
            )
        },
        _ => None,
    }
}

fn id_from_metadata(metadata: &GgufMetadata, key: &str) -> (r: Option<usize>)
    ensures
        r == id_entry(metadata.model(), key@),
{
    match metadata.get(key) {
        Some(GgufValue::Uint32(v)) => Some(*v as usize),
        _ => None,
    }
}

/// Splits a character sequence at its first space.
fn split_space(s: &[char]) -> (r: Option<(Vec<char>, Vec<char>)>)
    ensures
        match split_at_space(s@) {
            Some((a, b)) => r matches Some(p) && p.0@ == a && p.1@ == b,
            None => r is None,
        },
{
    proof {
        lemma_find_char(s@, ' ');
    }
    let mut i: usize = 0;
    while i < s.len()
        invariant
            i <= s@.len(),
            forall|j: int| 0 <= j < i ==> #[trigger] s@[j] != ' ',
        decreases s@.len() - i,
    {
        if s[i] == ' ' {
            proof {
                lemma_find_char(s@, ' ');
            }
            let a = vstd::slice::slice_to_vec(vstd::slice::slice_subrange(s, 0, i));
            let b = vstd::slice::slice_to_vec(vstd::slice::slice_subrange(s, i + 1, s.len()));
            proof {
                assert(find_char(s@, ' ') == Some(i as int));
                assert(a@ =~= s@.take(i as int));
                assert(b@ =~= s@.skip(i + 1));
            }
            return Some((a, b));
        }
        i = i + 1;
    }
    None
}

proof fn lemma_best_unique(merges: Merges, p: Seq<Seq<char>>, i: int, k: int)
    requires
        is_best(merges, p, i),
        is_best(merges, p, k),
    ensures
        i == k,
{
    assert(eligible_rank(merges, p, i) is Some);
    assert(eligible_rank(merges, p, k) is Some);
    if i < k {
        assert(eligible_rank(merges, p, i)->0 > eligible_rank(merges, p, k)->0);
    } else if k < i {
        assert(eligible_rank(merges, p, k)->0 > eligible_rank(merges, p, i)->0);
    }
}

proof fn lemma_bpe_step(merges: Merges, p: Seq<Seq<char>>, i: int)
    requires
        p.len() >= 2,
        is_best(merges, p, i),
    ensures
        bpe(merges, p) == bpe(merges, merge_at(p, i)),
{
    let k = choose|k: int| is_best(merges, p, k);
    lemma_best_unique(merges, p, i, k);
}

// ============================================================================
// The tokenizer
// ============================================================================
/// A byte-pair-encoding tokenizer.
pub struct BpeTokenizer {
    vocab: Vec<(Vec<char>, usize)>,
    reverse_vocab: Vec<Vec<char>>,
    merges: Vec<((Vec<char>, Vec<char>), usize)>,
    bos_id: Option<usize>,
    eos_id: Option<usize>,
    unk_id: Option<usize>,
    add_bos_token: bool,
    byte_level_bpe: bool,
}

impl BpeTokenizer {
    pub closed spec fn model(&self) -> TokenizerModel {
        TokenizerModel {
            vocab: token_table(self.vocab@),
            reverse_vocab: views(self.reverse_vocab@),
            merges: pair_table(self.merges@),
            bos_id: self.bos_id,
            eos_id: self.eos_id,
            unk_id: self.unk_id,
            add_bos_token: self.add_bos_token,
            byte_level_bpe: self.byte_level_bpe,
        }
    }

    /// Creates a tokenizer from token-to-id and pair-to-rank entries
    /// (inserted in order, a later entry replacing an earlier one with the
    /// same key) and the special token ids.
    pub fn new(
        vocab: Vec<(String, usize)>,
        merges: Vec<((String, String), usize)>,
        bos_id: Option<usize>,
        eos_id: Option<usize>,
        unk_id: Option<usize>,
    ) -> (r: Self)
        ensures
            r.model() == spec_new(
                string_entries(vocab@),
                string_pair_entries(merges@),
                bos_id,
                eos_id,
                unk_id,
            ),
            r.model().wf(),
    {
        let ghost ve = string_entries(vocab@);
        let mut table: Vec<(Vec<char>, usize)> = Vec::new();
        let mut i: usize = 0;
        proof {
            assert(ve.take(0) =~= Seq::<(Seq<char>, usize)>::empty());
            assert(token_table(table@) =~= build_table(ve.take(0)));
        }
        while i < vocab.len()
            invariant
                ve == string_entries(vocab@),
                i <= vocab@.len(),
                token_table(table@) == build_table(ve.take(i as int)),
            decreases vocab@.len() - i,
        {
            let key = chars_of(vocab[i].0.as_str());
            insert_token(&mut table, key, vocab[i].1);
            proof {
                assert(ve.take(i + 1).drop_last() =~= ve.take(i as int));
            }
            i = i + 1;
        }
        proof {
            assert(ve.take(ve.len() as int) =~= ve);
        }
        let ghost v = token_table(table@);
        let n = table.len();
        let mut reverse: Vec<Vec<char>> = Vec::new();
        while reverse.len() < n
            invariant
                reverse@.len() <= n,
                forall|k: int| 0 <= k < reverse@.len() ==> #[trigger] reverse@[k]@ == Seq::<char>::empty(),
            decreases n - reverse@.len(),
        {
            reverse.push(Vec::new());
        }
        let mut j: usize = 0;
        proof {
            assert(views(reverse@) =~= reverse_of(v.take(0), n as nat));
        }
        while j < n
            invariant
                v == token_table(table@),
                n == v.len(),
                j <= n,
                reverse@.len() == n,
                views(reverse@) == reverse_of(v.take(j as int), n as nat),
            decreases n - j,
        {
            let id = table[j].1;
            let ghost prev = views(reverse@);
            if id < n {
                let t = copy_chars(table[j].0.as_slice());
                reverse.set(id, t);
            }
            proof {
                let vj1 = v.take(j + 1);
                assert(vj1.drop_last() =~= v.take(j as int));
                assert(vj1.last() == v[j as int]);
                assert(v[j as int] == (table@[j as int].0@, table@[j as int].1));
                assert forall|x: int| 0 <= x < n implies #[trigger] views(reverse@)[x] == reverse_of(
                    vj1,
                    n as nat,
                )[x] by {
                    assert(prev[x] == reverse_of(v.take(j as int), n as nat)[x]);
                    if x == id {
                        assert(last_with_id(vj1, x) == Some(j as int));
                        assert(views(reverse@)[x] == table@[j as int].0@);
                    } else {
                        assert(views(reverse@)[x] == prev[x]);
                        assert(last_with_id(vj1, x) == last_with_id(v.take(j as int), x));
                        if let Some(jj) = last_with_id(v.take(j as int), x) {
                            lemma_last_with_id(v.take(j as int), x);
                            assert(vj1[jj] == v.take(j as int)[jj]);
                        }
                    }
                }
                assert(views(reverse@) =~= reverse_of(vj1, n as nat));
            }
            j = j + 1;
        }
        proof {
            assert(v.take(n as int) =~= v);
        }
        let ghost me = string_pair_entries(merges@);
        let mut mtable: Vec<((Vec<char>, Vec<char>), usize)> = Vec::new();
        let mut k: usize = 0;
        proof {
            assert(me.take(0) =~= Seq::<((Seq<char>, Seq<char>), usize)>::empty());
            assert(pair_table(mtable@) =~= build_table(me.take(0)));
        }
        while k < merges.len()
            invariant
                me == string_pair_entries(merges@),
                k <= merges@.len(),
                pair_table(mtable@) == build_table(me.take(k as int)),
            decreases merges@.len() - k,
        {
            let a = chars_of((merges[k].0).0.as_str());
            let b = chars_of((merges[k].0).1.as_str());
            insert_pair(&mut mtable, a, b, merges[k].1);
            proof {
                assert(me.take(k + 1).drop_last() =~= me.take(k as int));
            }
            k = k + 1;
        }
        proof {
            assert(me.take(me.len() as int) =~= me);
        }
        let mut mark: Vec<char> = Vec::new();
        mark.push('\u{120}');
        proof {
            assert(mark@ =~= space_mark());
            lemma_index_of(v, space_mark());
        }
        let byte_level_bpe = find_token(&table, mark.as_slice()).is_some();
        let r = BpeTokenizer {
            vocab: table,
            reverse_vocab: reverse,
            merges: mtable,
            bos_id,
            eos_id,
            unk_id,
            add_bos_token: true,
            byte_level_bpe,
        };
        proof {
            lemma_build_table_distinct(ve);
            lemma_build_table_distinct(me);
        }
        r
    }

    /// Reads a tokenizer from GGUF metadata (see `spec_from_gguf`): the
    /// token list, the merge list, the special token ids and the BOS flag.
    pub fn from_gguf(metadata: &GgufMetadata) -> (r: Option<Self>)
        ensures
            match spec_from_gguf(metadata.model()) {
                Some(m) => r matches Some(t) && t.model() == m && m.wf(),
                None => r is None,
            },
    {
        let tokens_arr = match metadata.get("tokenizer.ggml.tokens") {
            Some(GgufValue::Array(arr)) => arr,
            _ => {
                return None;
            },
        };
        let ghost items = models_of(tokens_arr@);
        proof {
            lemma_models_of(tokens_arr@);
        }
        let mut table: Vec<(Vec<char>, usize)> = Vec::new();
        let mut reverse: Vec<Vec<char>> = Vec::new();
        let mut idx: usize = 0;
        proof {
            assert(items.take(0) =~= Seq::<ValueModel>::empty());
            assert(token_table(table@) =~= vocab_from_items(items.take(0)));
            assert(views(reverse@) =~= reverse_from_items(items.take(0)));
        }
        while idx < tokens_arr.len()
            invariant
                items == models_of(tokens_arr@),
                items.len() == tokens_arr@.len(),
                forall|x: int| 0 <= x < tokens_arr@.len() ==> #[trigger] items[x] == tokens_arr@[x].model(),
                idx <= tokens_arr@.len(),
                token_table(table@) == vocab_from_items(items.take(idx as int)),
                views(reverse@) == reverse_from_items(items.take(idx as int)),
            decreases tokens_arr@.len() - idx,
        {
            proof {
                let t1 = items.take(idx + 1);
                assert(t1.drop_last() =~= items.take(idx as int));
                assert(t1.last() == tokens_arr@[idx as int].model());
            }
            match &tokens_arr[idx] {
                GgufValue::String(s) => {
                    let c1 = chars_of(s.as_str());
                    let c2 = chars_of(s.as_str());
                    insert_token(&mut table, c1, idx);
                    reverse.push(c2);
                    proof {
                        assert(views(reverse@) =~= reverse_from_items(items.take(idx + 1)));
                    }
                },
                _ => {},
            }
            idx = idx + 1;
        }
        proof {
            assert(items.take(items.len() as int) =~= items);
        }
        let mut mtable: Vec<((Vec<char>, Vec<char>), usize)> = Vec::new();
        match metadata.get("tokenizer.ggml.merges") {
            Some(GgufValue::Array(m_arr)) => {
                let ghost mitems = models_of(m_arr@);
                proof {
                    lemma_models_of(m_arr@);
                    assert(mitems.take(0) =~= Seq::<ValueModel>::empty());
                    assert(pair_table(mtable@) =~= merges_from_items(mitems.take(0)));
                }
                let mut rank: usize = 0;
                while rank < m_arr.len()
                    invariant
                        mitems == models_of(m_arr@),
                        mitems.len() == m_arr@.len(),
                        forall|x: int| 0 <= x < m_arr@.len() ==> #[trigger] mitems[x] == m_arr@[x].model(),
                        rank <= m_arr@.len(),
                        pair_table(mtable@) == merges_from_items(mitems.take(rank as int)),
                    decreases m_arr@.len() - rank,
                {
                    proof {
                        let t1 = mitems.take(rank + 1);
                        assert(t1.drop_last() =~= mitems.take(rank as int));
                        assert(t1.last() == m_arr@[rank as int].model());
                    }
                    match &m_arr[rank] {
                        GgufValue::String(ms) => {
                            let cs = chars_of(ms.as_str());
                            match split_space(cs.as_slice()) {
                                Some((a, b)) => {
                                    insert_pair(&mut mtable, a, b, rank);
                                },
                                None => {},
                            }
                        },
                        _ => {},
                    }
                    rank = rank + 1;
                }
                proof {
                    assert(mitems.take(mitems.len() as int) =~= mitems);
                    lemma_items_distinct(mitems);
                }
            },
            _ => {},
        }
        let bos_id = id_from_metadata(metadata, "tokenizer.ggml.bos_token_id");
        let eos_id = id_from_metadata(metadata, "tokenizer.ggml.eos_token_id");
        let unk_id = id_from_metadata(metadata, "tokenizer.ggml.unknown_token_id");
        let add_bos_token = match metadata.get("tokenizer.ggml.add_bos_token") {
            Some(GgufValue::Bool(b)) => *b,
            _ => bos_id.is_some(),
        };
        let mut mark: Vec<char> = Vec::new();
        mark.push('\u{120}');
        proof {
            assert(mark@ =~= space_mark());
            lemma_index_of(token_table(table@), space_mark());
        }
        let byte_level_bpe = find_token(&table, mark.as_slice()).is_some();
        proof {
            lemma_items_distinct(items);
            let m = spec_from_gguf(metadata.model())->0;
            assert(token_table(table@) == m.vocab);
            assert(views(reverse@) == m.reverse_vocab);
            assert(pair_table(mtable@) == m.merges);
            assert(bos_id == m.bos_id);
            assert(add_bos_token == m.add_bos_token);
            assert(byte_level_bpe == m.byte_level_bpe);
        }
        Some(
            BpeTokenizer {
                vocab: table,
                reverse_vocab: reverse,
                merges: mtable,
                bos_id,
                eos_id,
                unk_id,
                add_bos_token,
                byte_level_bpe,
            },
        )
    }

    /// The built-in demonstration tokenizer: `<unk>`, `<s>`, `</s>`, one
    /// token per character U+0000..U+00FF and a few English merges.
    pub fn new_default() -> (r: Self)
        ensures
            r.model() == default_model(),
            r.model().wf(),
    {
        let mut table: Vec<(Vec<char>, usize)> = Vec::new();
        let mut reverse: Vec<Vec<char>> = Vec::new();
        let mut mtable: Vec<((Vec<char>, Vec<char>), usize)> = Vec::new();
        let mut specials: Vec<Vec<char>> = Vec::new();
        specials.push(chars_of("<unk>"));
        specials.push(chars_of("<s>"));
        specials.push(chars_of("</s>"));
        proof {
            assert(views(specials@) =~= default_specials());
            assert(token_table(table@) =~= default_after_specials(0).vocab);
            assert(views(reverse@) =~= default_after_specials(0).reverse);
            assert(pair_table(mtable@) =~= default_after_specials(0).merges);
        }
        let mut i: usize = 0;
        while i < 3
            invariant
                i <= 3,
                specials@.len() == 3,
                views(specials@) == default_specials(),
                token_table(table@) == default_after_specials(i as nat).vocab,
                views(reverse@) == default_after_specials(i as nat).reverse,
                pair_table(mtable@) == default_after_specials(i as nat).merges,
            decreases 3 - i,
        {
            let tok = copy_chars(specials[i].as_slice());
            let tok2 = copy_chars(specials[i].as_slice());
            proof {
                assert(specials@[i as int]@ == default_specials()[i as int]);
            }
            insert_token(&mut table, tok, i);
            reverse.push(tok2);
            i = i + 1;
            proof {
                assert(views(reverse@) =~= default_after_specials(i as nat).reverse);
            }
        }
        let mut b: u32 = 0;
        while b < 256
            invariant
                b <= 256,
                token_table(table@) == default_after_bytes(b as nat).vocab,
                views(reverse@) == default_after_bytes(b as nat).reverse,
                pair_table(mtable@) == default_after_bytes(b as nat).merges,
            decreases 256 - b,
        {
            let c: char = (b as u8) as char;
            let mut tok: Vec<char> = Vec::new();
            tok.push(c);
            let mut tok2: Vec<char> = Vec::new();
            tok2.push(c);
            let id = table.len();
            proof {
                assert(tok@ =~= seq![((b as nat) as u8) as char]);
            }
            insert_token(&mut table, tok, id);
            reverse.push(tok2);
            b = b + 1;
            proof {
                assert(views(reverse@) =~= default_after_bytes(b as nat).reverse);
            }
        }
        let pairs = default_merge_pairs();
        let mut k: usize = 0;
        while k < pairs.len()
            invariant
                pairs@.len() == default_pairs().len(),
                forall|x: int| 0 <= x < pairs@.len() ==> (#[trigger] pairs@[x].0@, pairs@[x].1@) == default_pairs()[x],
                k <= pairs@.len(),
                token_table(table@) == default_after_merges(k as nat).vocab,
                views(reverse@) == default_after_merges(k as nat).reverse,
                pair_table(mtable@) == default_after_merges(k as nat).merges,
            decreases pairs@.len() - k,
        {
            let p1 = copy_chars(pairs[k].0.as_slice());
            let p2 = copy_chars(pairs[k].1.as_slice());
            let merged = concat_chars(pairs[k].0.as_slice(), pairs[k].1.as_slice());
            proof {
                assert((pairs@[k as int].0@, pairs@[k as int].1@) == default_pairs()[k as int]);
            }
            insert_pair(&mut mtable, p1, p2, k);
            proof {
                lemma_index_of(token_table(table@), merged@);
            }
            if find_token(&table, merged.as_slice()).is_none() {
                let id = table.len();
                let merged2 = copy_chars(merged.as_slice());
                insert_token(&mut table, merged, id);
                reverse.push(merged2);
            }
            k = k + 1;
            proof {
                assert(views(reverse@) =~= default_after_merges(k as nat).reverse);
            }
        }
        let r = BpeTokenizer {
            vocab: table,
            reverse_vocab: reverse,
            merges: mtable,
            bos_id: Some(1),
            eos_id: Some(2),
            unk_id: Some(0),
            add_bos_token: true,
            byte_level_bpe: false,
        };
        proof {
            lemma_default_distinct(26);
        }
        r
    }

    /// Number of distinct tokens in the vocabulary.
    pub fn vocab_size(&self) -> (r: usize)
        ensures
            r == self.model().vocab.len(),
    {
        self.vocab.len()
    }

    pub fn bos_id(&self) -> (r: Option<usize>)
        ensures
            r == self.model().bos_id,
    {
        self.bos_id
    }

    pub fn eos_id(&self) -> (r: Option<usize>)
        ensures
            r == self.model().eos_id,
    {
        self.eos_id
    }

    /// Whether `encode` prepends BOS when asked to.
    pub fn add_bos_token(&self) -> (r: bool)
        ensures
            r == self.model().add_bos_token,
    {
        self.add_bos_token
    }

    /// The leftmost lowest-ranked mergeable pair of adjacent pieces.
    fn best_merge(&self, pieces: &Vec<Vec<char>>) -> (r: Option<usize>)
        requires
            pieces@.len() >= 2,
        ensures
            r matches Some(i) ==> is_best(self.model().merges, views(pieces@), i as int),
            r is None ==> !exists|i: int| is_best(self.model().merges, views(pieces@), i),
    {
        let ghost m = self.model().merges;
        let ghost p = views(pieces@);
        let mut best: Option<usize> = None;
        let mut best_rank: usize = usize::MAX;
        let n = pieces.len() - 1;
        let mut i: usize = 0;
        while i < n
            invariant
                m == self.model().merges,
                p == views(pieces@),
                n == p.len() - 1,
                i <= n,
                best is None ==> best_rank == usize::MAX && forall|j: int|
                    0 <= j < i ==> #[trigger] eligible_rank(m, p, j) is None,
                best matches Some(b) ==> {
                    &&& b < i
                    &&& eligible_rank(m, p, b as int) == Some(best_rank)
                    &&& forall|j: int|
                        0 <= j < i && #[trigger] eligible_rank(m, p, j) is Some ==> eligible_rank(
                            m,
                            p,
                            j,
                        )->0 >= best_rank
                    &&& forall|j: int|
                        0 <= j < b && #[trigger] eligible_rank(m, p, j) is Some ==> eligible_rank(
                            m,
                            p,
                            j,
                        )->0 > best_rank
                },
            decreases n - i,
        {
            proof {
                lemma_index_of(m, (p[i as int], p[i + 1]));
            }
            proof {
                assert(p[i as int] == pieces@[i as int]@);
                assert(p[i + 1] == pieces@[i + 1]@);
            }
            let fp = find_pair(&self.merges, pieces[i].as_slice(), pieces[i + 1].as_slice());
            match fp {
                Some(k) => {
                    let rank = self.merges[k].1;
                    proof {
                        assert(m[k as int].1 == rank);
                        assert(eligible_rank(m, p, i as int) == (if rank < usize::MAX {
                            Some(rank)
                        } else {
                            None
                        }));
                    }
                    if rank < best_rank {
                        best_rank = rank;
                        best = Some(i);
                    }
                },
                None => {
                    proof {
                        assert(eligible_rank(m, p, i as int) is None);
                    }
                },
            }
            i = i + 1;
        }
        match best {
            Some(b) => {
                proof {
                    assert(is_best(m, p, b as int));
                }
            },
            None => {
                proof {
                    assert forall|k: int| !is_best(m, p, k) by {
                        if 0 <= k < p.len() - 1 {
                            assert(eligible_rank(m, p, k) is None);
                        }
                    }
                }
            },
        }
        best
    }

    /// Merges pieces until no known pair is left (see `bpe`).
    fn merge_pieces(&self, pieces: &mut Vec<Vec<char>>)
        ensures
            views(final(pieces)@) == bpe(self.model().merges, views(old(pieces)@)),
    {
        let ghost target = bpe(self.model().merges, views(pieces@));
        loop
            invariant
                bpe(self.model().merges, views(pieces@)) == target,
            ensures
                views(pieces@) == target,
            decreases pieces@.len(),
        {
            if pieces.len() < 2 {
                break;
            }
            match self.best_merge(pieces) {
                None => {
                    break;
                },
                Some(idx) => {
                    let ghost before = views(pieces@);
                    let merged = concat_chars(pieces[idx].as_slice(), pieces[idx + 1].as_slice());
                    pieces.set(idx, merged);
                    pieces.remove(idx + 1);
                    proof {
                        lemma_bpe_step(self.model().merges, before, idx as int);
                        assert(views(pieces@) =~= merge_at(before, idx as int));
                    }
                },
            }
        }
    }

    /// The id of the token `piece`, if it is in the vocabulary.
    fn token_id(&self, piece: &[char]) -> (r: Option<usize>)
        ensures
            r == lookup(self.model().vocab, piece@),
    {
        proof {
            lemma_index_of(self.model().vocab, piece@);
            assert(self.model().vocab.len() == self.vocab@.len());
        }
        match find_token(&self.vocab, piece) {
            Some(i) => {
                proof {
                    assert(self.model().vocab[i as int].1 == self.vocab@[i as int].1);
                }
                Some(self.vocab[i].1)
            },
            None => None,
        }
    }

    /// Decodes token ids into text (see `spec_decode`): BOS and EOS are
    /// skipped and byte-level marks become spaces and newlines.
    pub fn decode(&self, tokens: &[usize]) -> (r: Result<String, TokenizerError>)
        ensures
            match spec_decode(self.model(), tokens@) {
                Ok(s) => r matches Ok(t) && t@ == s,
                Err(id) => r == Err::<String, TokenizerError>(TokenizerError::TokenNotFound(id)),
            },
    {
        let ghost m = self.model();
        let mut text: Vec<char> = Vec::new();
        let mut i: usize = 0;
        proof {
            assert(tokens@.skip(0) =~= tokens@);
            assert(Seq::<char>::empty() + Seq::<char>::empty() =~= Seq::<char>::empty());
        }
        while i < tokens.len()
            invariant
                m == self.model(),
                i <= tokens@.len(),
                spec_decode(m, tokens@) == prepend(text@, spec_decode(m, tokens@.skip(i as int))),
            decreases tokens@.len() - i,
        {
            let id = tokens[i];
            let ghost rest = tokens@.skip(i as int);
            proof {
                assert(rest[0] == id);
                assert(rest.drop_first() =~= tokens@.skip(i + 1));
            }
            let special = match self.bos_id {
                Some(b) => b == id,
                None => false,
            } || match self.eos_id {
                Some(e) => e == id,
                None => false,
            };
            if special {
                i = i + 1;
                continue ;
            }
            if id < self.reverse_vocab.len() {
                let ghost before = text@;
                let piece = &self.reverse_vocab[id];
                let mut k: usize = 0;
                while k < piece.len()
                    invariant
                        k <= piece@.len(),
                        text@ == before + clean(piece@).take(k as int),
                    decreases piece@.len() - k,
                {
                    let c = piece[k];
                    let d = if c == '\u{120}' {
                        ' '
                    } else if c == '\u{10A}' {
                        '\n'
                    } else {
                        c
                    };
                    text.push(d);
                    k = k + 1;
                    proof {
                        assert(text@ =~= before + clean(piece@).take(k as int));
                    }
                }
                proof {
                    assert(clean(piece@).take(piece@.len() as int) =~= clean(piece@));
                    assert(m.reverse_vocab[id as int] == piece@);
                    match spec_decode(m, tokens@.skip(i + 1)) {
                        Ok(t) => {
                            assert(before + (clean(piece@) + t) =~= text@ + t);
                        },
                        Err(_) => {},
                    }
                }
                i = i + 1;
            } else {
                return Err(TokenizerError::TokenNotFound(id));
            }
        }
        proof {
            assert(tokens@.skip(tokens@.len() as int) =~= Seq::<usize>::empty());
            assert(text@ + Seq::<char>::empty() =~= text@);
        }
        Ok(string_from_chars(text.as_slice()))
    }

    /// Encodes text into token ids (see `spec_encode`): optional BOS, then
    /// byte-pair merges over the characters, then vocabulary lookup.
    pub fn encode(&self, text: &str, add_bos: bool) -> (r: Vec<usize>)
        ensures
            r@ == spec_encode(self.model(), text@, add_bos),
    {
        let should_add_bos = add_bos && self.add_bos_token;
        let mut token_ids: Vec<usize> = Vec::new();
        if should_add_bos {
            match self.bos_id {
                Some(bos) => token_ids.push(bos),
                None => {},
            }
        }
        let ghost bos_part = token_ids@;
        let ghost prepared = prepare(text@, self.byte_level_bpe);
        let mut pieces: Vec<Vec<char>> = Vec::new();
        for c in it: text.chars()
            invariant
                prepared == prepare(text@, self.byte_level_bpe),
                it.seq() == text@,
                views(pieces@) == singletons(prepared.take(it.index() as int)),
        {
            let d = if self.byte_level_bpe && c == ' ' {
                '\u{120}'
            } else if self.byte_level_bpe && c == '\n' {
                '\u{10A}'
            } else {
                c
            };
            proof {
                assert(c == it.seq()[it.index() as int]);
                assert(d == prepared[it.index() as int]);
            }
            let ghost before = pieces@;
            let mut single: Vec<char> = Vec::new();
            single.push(d);
            pieces.push(single);
            proof {
                assert(it.index() < prepared.len());
                assert(pieces@[pieces@.len() - 1]@ =~= seq![d]);
                assert(views(before) =~= singletons(prepared.take(it.index() as int)));
                assert(views(before).len() == it.index());
                assert(pieces@.len() == before.len() + 1);
                assert(views(pieces@).len() == it.index() + 1);
                assert forall|k: int| 0 <= k < it.index() + 1 implies views(pieces@)[k] == singletons(prepared.take(it.index() + 1))[k] by {
                    if k < it.index() {
                        assert(views(pieces@)[k] == views(before)[k]);
                    }
                }
                assert(views(pieces@) =~= singletons(prepared.take(it.index() + 1)));
            }
        }
        proof {
            assert(prepared.take(prepared.len() as int) =~= prepared);
        }
        self.merge_pieces(&mut pieces);
        let ghost merged = views(pieces@);
        let mut i: usize = 0;
        proof {
            assert(merged.take(0) =~= Seq::<Seq<char>>::empty());
            assert(token_ids@ =~= bos_part + ids_of(self.model().vocab, self.unk_id, merged.take(0)));
        }
        while i < pieces.len()
            invariant
                merged == views(pieces@),
                i <= pieces@.len(),
                token_ids@ == bos_part + ids_of(self.model().vocab, self.unk_id, merged.take(i as int)),
            decreases pieces@.len() - i,
        {
            let id = self.token_id(pieces[i].as_slice());
            proof {
                assert(merged.take(i + 1).drop_last() =~= merged.take(i as int));
                assert(merged.take(i + 1).last() == pieces@[i as int]@);
            }
            match id {
                Some(t) => token_ids.push(t),
                None => match self.unk_id {
                    Some(u) => token_ids.push(u),
                    None => {},
                },
            }
            i = i + 1;
            proof {
                assert(token_ids@ =~= bos_part + ids_of(self.model().vocab, self.unk_id, merged.take(i as int)));
            }
        }
        proof {
            assert(merged.take(merged.len() as int) =~= merged);
        }
        token_ids
    }
}

// ============================================================================
// Laws
// ============================================================================
/// Concatenation of pieces.
pub open spec fn join(p: Seq<Seq<char>>) -> Seq<char>
    decreases p.len(),
{
    if p.len() == 0 {
        Seq::empty()
    } else {
        join(p.drop_last()) + p.last()
    }
}

/// `p` is a token whose id leads back to it and is neither BOS nor EOS.
pub open spec fn good_token(m: TokenizerModel, p: Seq<char>) -> bool {
    lookup(m.vocab, p) matches Some(id) && id < m.reverse_vocab.len() && m.reverse_vocab[id as int]
        == p && Some(id) != m.bos_id && Some(id) != m.eos_id
}

/// Every merge result is a good token.
pub open spec fn merges_closed(m: TokenizerModel) -> bool {
    forall|j: int|
        0 <= j < m.merges.len() && #[trigger] m.merges[j].1 < usize::MAX ==> good_token(
            m,
            m.merges[j].0.0 + m.merges[j].0.1,
        )
}

proof fn lemma_join_append(a: Seq<Seq<char>>, b: Seq<Seq<char>>)
    ensures
        join(a + b) == join(a) + join(b),
    decreases b.len(),
{
    if b.len() == 0 {
        assert(a + b =~= a);
        assert(join(b) =~= Seq::<char>::empty());
        assert(join(a) + join(b) =~= join(a));
    } else {
        lemma_join_append(a, b.drop_last());
        assert((a + b).drop_last() =~= a + b.drop_last());
        assert((a + b).last() == b.last());
        assert(join(a + b) =~= join(a) + join(b));
    }
}

proof fn lemma_join_merge(p: Seq<Seq<char>>, i: int)
    requires
        0 <= i < p.len() - 1,
    ensures
        join(merge_at(p, i)) == join(p),
{
    let pre = p.take(i);
    let post = p.skip(i + 2);
    assert(p =~= pre + seq![p[i], p[i + 1]] + post);
    assert(merge_at(p, i) =~= pre + seq![p[i] + p[i + 1]] + post);
    lemma_join_append(pre + seq![p[i], p[i + 1]], post);
    lemma_join_append(pre, seq![p[i], p[i + 1]]);
    lemma_join_append(pre + seq![p[i] + p[i + 1]], post);
    lemma_join_append(pre, seq![p[i] + p[i + 1]]);
    let a = p[i];
    let b = p[i + 1];
    let two = seq![a, b];
    let one = seq![a];
    let merged = seq![a + b];
    assert(two.drop_last() =~= one);
    assert(one.drop_last() =~= Seq::<Seq<char>>::empty());
    assert(merged.drop_last() =~= Seq::<Seq<char>>::empty());
    assert(join(Seq::<Seq<char>>::empty()) == Seq::<char>::empty());
    assert(one.last() == a);
    assert(join(one) == join(Seq::<Seq<char>>::empty()) + a);
    assert(join(one) =~= a);
    assert(two.last() == b);
    assert(join(two) == join(one) + b);
    assert(merged.last() == a + b);
    assert(join(merged) == join(Seq::<Seq<char>>::empty()) + (a + b));
    assert(join(merged) =~= a + b);
    assert(join(two) =~= join(merged));
}

proof fn lemma_bpe_good(m: TokenizerModel, p: Seq<Seq<char>>)
    requires
        merges_closed(m),
        forall|k: int| 0 <= k < p.len() ==> good_token(m, #[trigger] p[k]),
    ensures
        forall|k: int| 0 <= k < bpe(m.merges, p).len() ==> good_token(m, #[trigger] bpe(m.merges, p)[k]),
        join(bpe(m.merges, p)) == join(p),
    decreases p.len(),
{
    if p.len() >= 2 && exists|i: int| is_best(m.merges, p, i) {
        let i = choose|i: int| is_best(m.merges, p, i);
        let q = merge_at(p, i);
        let key = (p[i], p[i + 1]);
        lemma_index_of(m.merges, key);
        let j = index_of(m.merges, key)->0;
        assert(m.merges[j].1 < usize::MAX);
        assert(good_token(m, p[i] + p[i + 1]));
        assert forall|k: int| 0 <= k < q.len() implies good_token(m, #[trigger] q[k]) by {
            if k < i {
                assert(q[k] == p[k]);
            } else if k == i {
                assert(q[k] == p[i] + p[i + 1]);
            } else {
                assert(q[k] == p[k + 1]);
            }
        }
        lemma_bpe_good(m, q);
        lemma_join_merge(p, i);
    }
}

/// `clean` of a concatenation is the concatenation of the parts' `clean`.
proof fn lemma_clean_append(a: Seq<char>, b: Seq<char>)
    ensures
        clean(a + b) == clean(a) + clean(b),
{
    assert(clean(a + b) =~= clean(a) + clean(b));
}

proof fn lemma_decode_append(m: TokenizerModel, a: Seq<usize>, b: Seq<usize>)
    ensures
        spec_decode(m, a + b) == match spec_decode(m, a) {
            Ok(x) => prepend(x, spec_decode(m, b)),
            Err(e) => Err(e),
        },
    decreases a.len(),
{
    if a.len() == 0 {
        assert(a + b =~= b);
        match spec_decode(m, b) {
            Ok(y) => {
                assert(Seq::<char>::empty() + y =~= y);
            },
            Err(_) => {},
        }
    } else {
        assert((a + b).drop_first() =~= a.drop_first() + b);
        assert((a + b)[0] == a[0]);
        lemma_decode_append(m, a.drop_first(), b);
        let id = a[0];
        if !(Some(id) == m.bos_id || Some(id) == m.eos_id) && id < m.reverse_vocab.len() {
            match spec_decode(m, a.drop_first()) {
                Ok(x) => match spec_decode(m, b) {
                    Ok(y) => {
                        assert(clean(m.reverse_vocab[id as int]) + (x + y) =~= (clean(
                            m.reverse_vocab[id as int],
                        ) + x) + y);
                    },
                    Err(_) => {},
                },
                Err(_) => {},
            }
        }
    }
}

proof fn lemma_decode_ids(m: TokenizerModel, p: Seq<Seq<char>>)
    requires
        forall|k: int| 0 <= k < p.len() ==> good_token(m, #[trigger] p[k]),
    ensures
        spec_decode(m, ids_of(m.vocab, m.unk_id, p)) == Ok::<Seq<char>, usize>(clean(join(p))),
    decreases p.len(),
{
    if p.len() == 0 {
        assert(clean(join(p)) =~= Seq::<char>::empty());
    } else {
        let q = p.drop_last();
        assert forall|k: int| 0 <= k < q.len() implies good_token(m, #[trigger] q[k]) by {
            assert(q[k] == p[k]);
        }
        lemma_decode_ids(m, q);
        assert(good_token(m, p[p.len() - 1]));
        let id = lookup(m.vocab, p.last())->0;
        let ids = ids_of(m.vocab, m.unk_id, q);
        assert(ids_of(m.vocab, m.unk_id, p) == ids.push(id));
        assert(ids.push(id) =~= ids + seq![id]);
        lemma_decode_append(m, ids, seq![id]);
        let single = seq![id];
        assert(single.drop_first() =~= Seq::<usize>::empty());
        assert(single[0] == id);
        assert(spec_decode(m, Seq::<usize>::empty()) == Ok::<Seq<char>, usize>(Seq::empty()));
        assert(m.reverse_vocab[id as int] == p.last());
        assert(spec_decode(m, single) == Ok::<Seq<char>, usize>(clean(p.last()) + Seq::<char>::empty()));
        assert(clean(p.last()) + Seq::<char>::empty() =~= clean(p.last()));
        lemma_clean_append(join(q), p.last());
    }
}

/// Decoding the encoding of a text gives the text back, when every
/// character of the (prepared) text and every merge result is a token whose
/// id decodes to it and is not BOS or EOS, and the text holds neither of
/// the byte-level marks U+0120 and U+010A.
pub proof fn decode_encode_roundtrip(m: TokenizerModel, text: Seq<char>)
    requires
        merges_closed(m),
        forall|i: int|
            0 <= i < text.len() ==> good_token(m, seq![prepare_char(#[trigger] text[i], m.byte_level_bpe)]),
        forall|i: int| 0 <= i < text.len() ==> #[trigger] text[i] != '\u{120}' && text[i] != '\u{10A}',
    ensures
        spec_decode(m, spec_encode(m, text, false)) == Ok::<Seq<char>, usize>(text),
{
    let pre = prepare(text, m.byte_level_bpe);
    let p0 = singletons(pre);
    assert forall|k: int| 0 <= k < p0.len() implies good_token(m, #[trigger] p0[k]) by {
        assert(p0[k] == seq![prepare_char(text[k], m.byte_level_bpe)]);
    }
    lemma_bpe_good(m, p0);
    let merged = bpe(m.merges, p0);
    lemma_decode_ids(m, merged);
    lemma_join_singletons(pre);
    assert(clean(pre) =~= text);
    assert(Seq::<usize>::empty() + ids_of(m.vocab, m.unk_id, merged) =~= ids_of(
        m.vocab,
        m.unk_id,
        merged,
    ));
}

proof fn lemma_join_singletons(s: Seq<char>)
    ensures
        join(singletons(s)) == s,
    decreases s.len(),
{
    if s.len() == 0 {
        assert(join(singletons(s)) =~= s);
    } else {
        lemma_join_singletons(s.drop_last());
        assert(singletons(s).drop_last() =~= singletons(s.drop_last()));
        assert(join(singletons(s)) =~= s);
    }
}

/// Asking for BOS prepends exactly the BOS id when the tokenizer adds one,
/// and changes nothing otherwise.
pub proof fn encode_bos_prefix(m: TokenizerModel, text: Seq<char>)
    ensures
        m.add_bos_token && m.bos_id is Some ==> spec_encode(m, text, true) == seq![m.bos_id->0]
            + spec_encode(m, text, false),
        !(m.add_bos_token && m.bos_id is Some) ==> spec_encode(m, text, true) == spec_encode(
            m,
            text,
            false,
        ),
{
    let ids = ids_of(m.vocab, m.unk_id, bpe(m.merges, singletons(prepare(text, m.byte_level_bpe))));
    assert(Seq::<usize>::empty() + ids =~= ids);
}

/// A byte-level tokenizer encodes a text as the same tokenizer without
/// byte-level marking encodes the text with every space written as U+0120
/// and every newline as U+010A; other characters are kept.
pub proof fn byte_level_marks_space_and_newline(m: TokenizerModel, text: Seq<char>, add_bos: bool)
    requires
        m.byte_level_bpe,
    ensures
        spec_encode(m, text, add_bos) == spec_encode(
            TokenizerModel { byte_level_bpe: false, ..m },
            Seq::new(
                text.len(),
                |i: int|
                    if text[i] == ' ' {
                        '\u{120}'
                    } else if text[i] == '\n' {
                        '\u{10A}'
                    } else {
                        text[i]
                    },
            ),
            add_bos,
        ),
{
    let marked = Seq::new(
        text.len(),
        |i: int|
            if text[i] == ' ' {
                '\u{120}'
            } else if text[i] == '\n' {
                '\u{10A}'
            } else {
                text[i]
            },
    );
    assert(prepare(text, true) =~= prepare(marked, false));
}

/// With a byte-level vocabulary that holds the token U+0120, a lone space
/// encodes as that token.
pub proof fn byte_level_space_token(m: TokenizerModel, id: usize)
    requires
        m.byte_level_bpe,
        lookup(m.vocab, seq!['\u{120}']) == Some(id),
    ensures
        spec_encode(m, seq![' '], false) == seq![id],
{
    let pieces = singletons(prepare(seq![' '], true));
    assert(pieces =~= seq![seq!['\u{120}']]);
    assert(bpe(m.merges, pieces) == pieces);
    assert(pieces.drop_last() =~= Seq::<Seq<char>>::empty());
    assert(pieces.last() == seq!['\u{120}']);
    assert(ids_of(m.vocab, m.unk_id, pieces.drop_last()) == Seq::<usize>::empty());
    assert(Seq::<usize>::empty().push(id) =~= seq![id]);
    assert(ids_of(m.vocab, m.unk_id, pieces) =~= seq![id]);
    assert(Seq::<usize>::empty() + seq![id] =~= seq![id]);
}

/// Decoding skips a leading BOS or EOS id.
pub proof fn decode_skips_special(m: TokenizerModel, id: usize, tokens: Seq<usize>)
    requires
        Some(id) == m.bos_id || Some(id) == m.eos_id,
    ensures
        spec_decode(m, seq![id] + tokens) == spec_decode(m, tokens),
{
    assert((seq![id] + tokens).drop_first() =~= tokens);
}

/// The message shown for a tokenizer error.
pub open spec fn tokenizer_error_text(e: TokenizerError) -> Seq<char> {
    match e {
        TokenizerError::TokenNotFound(id) => "Token ID "@ + decimal(id as nat)
            + " not found in vocabulary"@,
        TokenizerError::InvalidUtf8(msg) => "Invalid UTF-8 sequence during decode: "@ + msg@,
    }
}

impl TokenizerError {
    /// Appends the message of this error.
    pub fn push_message(&self, out: &mut Vec<char>)
        ensures
            final(out)@ == old(out)@ + tokenizer_error_text(*self),
    {
        let ghost start = out@;
        match self {
            TokenizerError::TokenNotFound(id) => {
                push_str(out, "Token ID ");
                push_decimal(out, *id);
                push_str(out, " not found in vocabulary");
            },
            TokenizerError::InvalidUtf8(msg) => {
                push_str(out, "Invalid UTF-8 sequence during decode: ");
                push_str(out, msg.as_str());
            },
        }
        proof {
            assert(out@ =~= start + tokenizer_error_text(*self));
        }
    }

    /// The message shown for this error.
    pub fn message(&self) -> (r: String)
        ensures
            r@ == tokenizer_error_text(*self),
    {
        let mut out: Vec<char> = Vec::new();
        self.push_message(&mut out);
        proof {
            assert(out@ =~= tokenizer_error_text(*self));
        }
        string_from_chars(out.as_slice())
    }
}

} // verus!
