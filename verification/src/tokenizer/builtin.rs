//! Properties of the built-in tokenizer (`BpeTokenizer::new_default`).
use vstd::prelude::*;

use crate::tokenizer::bpe::{
    add_token, decode_encode_roundtrip, decode_skips_special, default_after_bytes,
    default_after_merges, default_after_specials, default_model, default_pairs, distinct_keys,
    encode_bos_prefix, good_token, index_of, lookup, merges_closed, prepare_char, spec_decode,
    spec_encode, table_insert, BuildState,
};

verus! {

proof fn lemma_index_last<K>(s: Seq<(K, usize)>, k: K, i: int)
    requires
        0 <= i < s.len(),
        s[i].0 == k,
        forall|j: int| i < j < s.len() ==> #[trigger] s[j].0 != k,
    ensures
        index_of(s, k) == Some(i),
    decreases s.len(),
{
    if i < s.len() - 1 {
        lemma_index_last(s.drop_last(), k, i);
    }
}

proof fn lemma_index_none<K>(s: Seq<(K, usize)>, k: K)
    requires
        forall|j: int| 0 <= j < s.len() ==> #[trigger] s[j].0 != k,
    ensures
        index_of(s, k) is None,
    decreases s.len(),
{
    if s.len() > 0 {
        lemma_index_none(s.drop_last(), k);
    }
}

proof fn lemma_index_found<K>(s: Seq<(K, usize)>, k: K)
    ensures
        index_of(s, k) matches Some(i) ==> 0 <= i < s.len() && s[i].0 == k && forall|j: int|
            i < j < s.len() ==> #[trigger] s[j].0 != k,
        index_of(s, k) is None ==> forall|j: int| 0 <= j < s.len() ==> #[trigger] s[j].0 != k,
    decreases s.len(),
{
    if s.len() > 0 {
        lemma_index_found(s.drop_last(), k);
        assert forall|j: int| 0 <= j < s.len() - 1 implies #[trigger] s[j] == s.drop_last()[j] by {}
    }
}

/// Looking a key up after an insertion.
proof fn lemma_lookup_insert<K>(s: Seq<(K, usize)>, k: K, v: usize, k2: K)
    ensures
        lookup(table_insert(s, k, v), k2) == if k2 == k {
            Some(v)
        } else {
            lookup(s, k2)
        },
{
    lemma_index_found(s, k);
    lemma_index_found(s, k2);
    let t = table_insert(s, k, v);
    match index_of(s, k) {
        Some(i) => {
            assert(t == s.update(i, (k, v)));
            assert forall|j: int| 0 <= j < s.len() implies #[trigger] t[j].0 == s[j].0 by {}
            if k2 == k {
                lemma_index_last(t, k, i);
            } else {
                match index_of(s, k2) {
                    Some(i2) => {
                        lemma_index_last(t, k2, i2);
                    },
                    None => {
                        lemma_index_none(t, k2);
                    },
                }
            }
        },
        None => {
            assert(t == s.push((k, v)));
            if k2 == k {
                lemma_index_last(t, k, s.len() as int);
            } else {
                match index_of(s, k2) {
                    Some(i2) => {
                        lemma_index_last(t, k2, i2);
                    },
                    None => {
                        assert forall|j: int| 0 <= j < t.len() implies #[trigger] t[j].0 != k2 by {
                            if j < s.len() {
                                assert(t[j] == s[j]);
                            }
                        }
                        lemma_index_none(t, k2);
                    },
                }
            }
        },
    }
}

/// Every key of the vocabulary maps to an id whose reverse entry is that key.
spec fn sound(st: BuildState) -> bool {
    &&& distinct_keys(st.vocab)
    &&& st.vocab.len() == st.reverse.len()
    &&& forall|k: Seq<char>|
        #[trigger] lookup(st.vocab, k) is Some ==> (lookup(st.vocab, k)->0 as int) < st.reverse.len()
            && st.reverse[lookup(st.vocab, k)->0 as int] == k
}

proof fn lemma_add_token(st: BuildState, tok: Seq<char>)
    requires
        sound(st),
        lookup(st.vocab, tok) is None,
        st.vocab.len() < 1000,
    ensures
        sound(add_token(st, tok)),
        add_token(st, tok).vocab.len() == st.vocab.len() + 1,
        add_token(st, tok).merges == st.merges,
        lookup(add_token(st, tok).vocab, tok) == Some(st.vocab.len() as usize),
        forall|k: Seq<char>|
            k != tok ==> #[trigger] lookup(add_token(st, tok).vocab, k) == lookup(st.vocab, k),
{
    let n = add_token(st, tok);
    let v = st.vocab.len() as usize;
    lemma_index_found(st.vocab, tok);
    assert(index_of(st.vocab, tok) is None);
    assert(n.vocab == st.vocab.push((tok, v)));
    assert forall|k: Seq<char>| k != tok implies #[trigger] lookup(n.vocab, k) == lookup(st.vocab, k) by {
        lemma_lookup_insert(st.vocab, tok, v, k);
    }
    lemma_lookup_insert(st.vocab, tok, v, tok);
    assert forall|i: int, j: int| 0 <= i < j < n.vocab.len() implies #[trigger] n.vocab[i].0
        != #[trigger] n.vocab[j].0 by {
        if j == st.vocab.len() {
            assert(st.vocab[i].0 != tok);
        } else {
            assert(n.vocab[i] == st.vocab[i] && n.vocab[j] == st.vocab[j]);
        }
    }
    assert forall|k: Seq<char>| #[trigger] lookup(n.vocab, k) is Some implies (lookup(n.vocab, k)->0 as int)
        < n.reverse.len() && n.reverse[lookup(n.vocab, k)->0 as int] == k by {
        lemma_lookup_insert(st.vocab, tok, v, k);
        if k != tok {
            assert(lookup(st.vocab, k) is Some);
        }
    }
}

/// The special tokens: keys start with `<` and have at least 3 characters.
proof fn lemma_specials()
    ensures
        sound(default_after_specials(3)),
        default_after_specials(3).vocab.len() == 3,
        forall|k: Seq<char>|
            #[trigger] lookup(default_after_specials(3).vocab, k) is Some ==> k.len() >= 3 && k[0]
                == '<',
{
    reveal_strlit("<unk>");
    reveal_strlit("<s>");
    reveal_strlit("</s>");
    reveal_with_fuel(default_after_specials, 4);
    let s0 = default_after_specials(0);
    let s1 = default_after_specials(1);
    let s2 = default_after_specials(2);
    let s3 = default_after_specials(3);
    assert(s0.vocab.len() == 0);
    assert forall|k: Seq<char>| #[trigger] lookup(s0.vocab, k) is None by {}
    assert(s1 == add_token(s0, "<unk>"@));
    lemma_add_token(s0, "<unk>"@);
    assert(lookup(s1.vocab, "<s>"@) is None) by {
        assert("<s>"@.len() == 3 && "<unk>"@.len() == 5);
    }
    assert(s2 == add_token(s1, "<s>"@));
    lemma_add_token(s1, "<s>"@);
    assert(lookup(s2.vocab, "</s>"@) is None) by {
        assert("</s>"@.len() == 4 && "<unk>"@.len() == 5);
        assert("</s>"@.len() == 4 && "<s>"@.len() == 3);
    }
    assert(s3 == add_token(s2, "</s>"@));
    lemma_add_token(s2, "</s>"@);
    assert forall|k: Seq<char>| #[trigger] lookup(s3.vocab, k) is Some implies k.len() >= 3 && k[0]
        == '<' by {
        if k != "</s>"@ && k != "<s>"@ && k != "<unk>"@ {
            assert(lookup(s3.vocab, k) == lookup(s2.vocab, k));
            assert(lookup(s2.vocab, k) == lookup(s1.vocab, k));
            assert(lookup(s1.vocab, k) == lookup(s0.vocab, k));
        }
    }
}

/// The one-character token for byte `b`.
pub open spec fn single(b: int) -> Seq<char> {
    seq![(b as u8) as char]
}

/// After the bytes below `n`: each has id `3 + b`; every key is special or
/// one of those bytes.
proof fn lemma_bytes(n: nat)
    requires
        n <= 256,
    ensures
        sound(default_after_bytes(n)),
        default_after_bytes(n).vocab.len() == 3 + n,
        forall|b: int|
            0 <= b < n ==> #[trigger] lookup(default_after_bytes(n).vocab, single(b)) == Some(
                (3 + b) as usize,
            ),
        forall|k: Seq<char>|
            #[trigger] lookup(default_after_bytes(n).vocab, k) is Some ==> (k.len() >= 3 && k[0]
                == '<') || (lookup(default_after_bytes(n).vocab, k)->0 >= 3 && k.len() == 1 && (
            k[0] as int) < n),
    decreases n,
{
    if n == 0 {
        lemma_specials();
    } else {
        let m = (n - 1) as nat;
        lemma_bytes(m);
        let st = default_after_bytes(m);
        let tok = single(m as int);
        assert((tok[0] as int) == m);
        assert(lookup(st.vocab, tok) is None) by {
            if lookup(st.vocab, tok) is Some {
                assert(tok.len() == 1);
            }
        }
        lemma_add_token(st, tok);
        let nx = default_after_bytes(n);
        assert(nx == add_token(st, tok));
        assert forall|b: int| 0 <= b < n implies #[trigger] lookup(nx.vocab, single(b)) == Some(
            (3 + b) as usize,
        ) by {
            if b < m {
                assert((single(b)[0] as int) == b);
                assert(single(b) != tok);
            }
        }
        assert forall|k: Seq<char>| #[trigger] lookup(nx.vocab, k) is Some implies (k.len() >= 3
            && k[0] == '<') || (lookup(nx.vocab, k)->0 >= 3 && k.len() == 1 && (k[0] as int) < n) by {
            if k != tok {
                assert(lookup(nx.vocab, k) == lookup(st.vocab, k));
            }
        }
    }
}

/// The first piece of every merge pair is non-empty and does not start
/// with `<`.
proof fn lemma_pairs_plain()
    ensures
        default_pairs().len() == 26,
        forall|r: int|
            0 <= r < 26 ==> (#[trigger] default_pairs()[r]).0.len() >= 1 && default_pairs()[r].0[0]
                != '<',
{
    reveal_strlit("t");
    reveal_strlit("th");
    reveal_strlit("a");
    reveal_strlit("i");
    reveal_strlit("o");
    reveal_strlit("e");
    reveal_strlit("r");
    reveal_strlit("l");
    reveal_strlit("f");
    reveal_strlit("li");
    reveal_strlit("m");
    reveal_strlit("me");
    reveal_strlit("mean");
    reveal_strlit(" ");
}

/// `k` is a token whose id is not one of the special ids 0, 1, 2.
pub open spec fn plain_token(vocab: Seq<(Seq<char>, usize)>, k: Seq<char>) -> bool {
    lookup(vocab, k) matches Some(id) && id >= 3
}

/// The text a merge entry produces.
pub open spec fn merged(e: ((Seq<char>, Seq<char>), usize)) -> Seq<char> {
    e.0.0 + e.0.1
}

/// After the first `n` merge pairs: the byte tokens keep their ids, every
/// key is special or has an id of at least 3, and every merge entry's text
/// is a token with an id of at least 3.
proof fn lemma_merges(n: nat)
    requires
        n <= 26,
    ensures
        sound(default_after_merges(n)),
        259 <= default_after_merges(n).vocab.len() <= 259 + n,
        forall|b: int|
            0 <= b < 256 ==> #[trigger] lookup(default_after_merges(n).vocab, single(b)) == Some(
                (3 + b) as usize,
            ),
        forall|k: Seq<char>|
            #[trigger] lookup(default_after_merges(n).vocab, k) is Some ==> (k.len() >= 3 && k[0]
                == '<') || lookup(default_after_merges(n).vocab, k)->0 >= 3,
        forall|j: int|
            0 <= j < default_after_merges(n).merges.len() ==> plain_token(
                default_after_merges(n).vocab,
                #[trigger] merged(default_after_merges(n).merges[j]),
            ),
    decreases n,
{
    if n == 0 {
        lemma_bytes(256);
        reveal_with_fuel(default_after_specials, 4);
        reveal_with_fuel(default_after_bytes, 1);
        assert forall|k: Seq<char>| #[trigger] lookup(default_after_merges(0).vocab, k) is Some implies (
        k.len() >= 3 && k[0] == '<') || lookup(default_after_merges(0).vocab, k)->0 >= 3 by {}
        assert(default_after_merges(0).merges.len() == 0) by {
            lemma_merges_empty_bytes(256);
        }
    } else {
        let m = (n - 1) as nat;
        lemma_merges(m);
        lemma_pairs_plain();
        let st = default_after_merges(m);
        let pair = default_pairs()[m as int];
        let t = pair.0 + pair.1;
        let st2 = BuildState {
            vocab: st.vocab,
            reverse: st.reverse,
            merges: table_insert(st.merges, pair, m as usize),
        };
        let nx = default_after_merges(n);
        assert(t[0] == pair.0[0]);
        lemma_index_found(st.merges, pair);
        let new_merges = table_insert(st.merges, pair, m as usize);
        if lookup(st2.vocab, t) is Some {
            assert(nx == st2);
            assert(lookup(nx.vocab, t)->0 >= 3);
            assert forall|j: int| 0 <= j < nx.merges.len() implies plain_token(
                nx.vocab,
                #[trigger] merged(nx.merges[j]),
            ) by {
                if nx.merges[j].0 != pair {
                    match index_of(st.merges, pair) {
                        Some(i) => {
                            assert(nx.merges[j] == st.merges[j]);
                        },
                        None => {
                            assert(nx.merges[j] == st.merges[j]);
                        },
                    }
                }
            }
        } else {
            lemma_add_token(st2, t);
            assert(nx == add_token(st2, t));
            assert forall|b: int| 0 <= b < 256 implies #[trigger] lookup(nx.vocab, single(b)) == Some(
                (3 + b) as usize,
            ) by {
                assert(lookup(st.vocab, single(b)) is Some);
                assert(single(b) != t);
            }
            assert forall|k: Seq<char>| #[trigger] lookup(nx.vocab, k) is Some implies (k.len() >= 3
                && k[0] == '<') || lookup(nx.vocab, k)->0 >= 3 by {
                if k != t {
                    assert(lookup(nx.vocab, k) == lookup(st.vocab, k));
                }
            }
            assert forall|j: int| 0 <= j < nx.merges.len() implies plain_token(
                nx.vocab,
                #[trigger] merged(nx.merges[j]),
            ) by {
                if nx.merges[j].0 != pair {
                    match index_of(st.merges, pair) {
                        Some(i) => {
                            assert(nx.merges[j] == st.merges[j]);
                        },
                        None => {
                            assert(nx.merges[j] == st.merges[j]);
                        },
                    }
                    let e = merged(st.merges[j]);
                    assert(lookup(st.vocab, e) is Some);
                    assert(e != t);
                }
            }
        }
    }
}

proof fn lemma_merges_empty_bytes(n: nat)
    ensures
        default_after_bytes(n).merges.len() == 0,
    decreases n,
{
    if n == 0 {
        reveal_with_fuel(default_after_specials, 4);
    } else {
        lemma_merges_empty_bytes((n - 1) as nat);
    }
}

proof fn lemma_latin1_single(c: char)
    requires
        c <= '\u{ff}',
    ensures
        0 <= c as int <= 0xff,
        single(c as int) == seq![c],
{
    let b = c as int;
    assert(0 <= b <= 0xff);
    assert((b as u8) as int == b);
    assert(((b as u8) as char) as int == b);
    assert((b as u8) as char == c);
    assert(single(b) =~= seq![c]);
}

/// Decoding the built-in tokenizer's encoding of a text whose characters
/// are at most U+00FF gives the text back, with or without BOS.
pub proof fn default_tokenizer_roundtrip(text: Seq<char>, add_bos: bool)
    requires
        forall|i: int| 0 <= i < text.len() ==> #[trigger] text[i] <= '\u{ff}',
    ensures
        spec_decode(default_model(), spec_encode(default_model(), text, add_bos)) == Ok::<
            Seq<char>,
            usize,
        >(text),
{
    let m = default_model();
    lemma_merges(26);
    let st = default_after_merges(26);
    assert forall|j: int| 0 <= j < m.merges.len() && #[trigger] m.merges[j].1 < usize::MAX implies good_token(
        m,
        m.merges[j].0.0 + m.merges[j].0.1,
    ) by {
        assert(lookup(st.vocab, merged(st.merges[j])) is Some);
        let id = lookup(st.vocab, merged(st.merges[j]))->0;
        assert(id >= 3);
    }
    assert(merges_closed(m));
    assert forall|i: int| 0 <= i < text.len() implies good_token(
        m,
        seq![prepare_char(#[trigger] text[i], m.byte_level_bpe)],
    ) by {
        let c = text[i];
        lemma_latin1_single(c);
        assert(lookup(st.vocab, single(c as int)) == Some((3 + c as int) as usize));
    }
    decode_encode_roundtrip(m, text);
    encode_bos_prefix(m, text);
    if add_bos {
        decode_skips_special(m, 1, spec_encode(m, text, false));
    }
}

} // verus!
