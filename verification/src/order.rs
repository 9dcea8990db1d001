//! The order in which request parameters are signed: strings compared byte
//! by byte, as their UTF-8 encodings.

use vstd::prelude::*;
use vstd::relations::*;
use vstd::seq_lib::*;
use vstd::string::*;
use vstd::utf8::*;

verus! {

/// Lexicographic order of byte strings: `a` is a prefix of `b`, or at the
/// first place where they differ `a` holds the smaller byte.
pub open spec fn bytes_le(a: Seq<u8>, b: Seq<u8>) -> bool
    decreases a.len(),
{
    if a.len() == 0 {
        true
    } else if b.len() == 0 {
        false
    } else if a.first() != b.first() {
        a.first() < b.first()
    } else {
        bytes_le(a.drop_first(), b.drop_first())
    }
}

/// Order of strings by the bytes of their UTF-8 encodings.
pub open spec fn text_le(a: Seq<char>, b: Seq<char>) -> bool {
    bytes_le(encode_utf8(a), encode_utf8(b))
}

/// `text_le` as a relation.
pub open spec fn text_order() -> spec_fn(Seq<char>, Seq<char>) -> bool {
    |a: Seq<char>, b: Seq<char>| text_le(a, b)
}

/// The texts in ascending order.
pub open spec fn sorted_texts(texts: Seq<Seq<char>>) -> Seq<Seq<char>> {
    texts.sort_by(text_order())
}

/// The texts that a sequence of string slices holds.
pub open spec fn texts_of(items: Seq<&str>) -> Seq<Seq<char>> {
    Seq::new(items.len(), |i: int| items[i]@)
}

proof fn lemma_bytes_le_reflexive(a: Seq<u8>)
    ensures
        bytes_le(a, a),
    decreases a.len(),
{
    if a.len() > 0 {
        lemma_bytes_le_reflexive(a.drop_first());
    }
}

proof fn lemma_bytes_le_antisymmetric(a: Seq<u8>, b: Seq<u8>)
    requires
        bytes_le(a, b),
        bytes_le(b, a),
    ensures
        a == b,
    decreases a.len(),
{
    if a.len() == 0 || b.len() == 0 {
        assert(a =~= b);
    } else {
        lemma_bytes_le_antisymmetric(a.drop_first(), b.drop_first());
        assert(a =~= seq![a.first()] + a.drop_first());
        assert(b =~= seq![b.first()] + b.drop_first());
    }
}

proof fn lemma_bytes_le_transitive(a: Seq<u8>, b: Seq<u8>, c: Seq<u8>)
    requires
        bytes_le(a, b),
        bytes_le(b, c),
    ensures
        bytes_le(a, c),
    decreases a.len(),
{
    if a.len() > 0 && b.len() > 0 && c.len() > 0 && a.first() == b.first() && b.first()
        == c.first() {
        lemma_bytes_le_transitive(a.drop_first(), b.drop_first(), c.drop_first());
    }
}

proof fn lemma_bytes_le_connected(a: Seq<u8>, b: Seq<u8>)
    ensures
        bytes_le(a, b) || bytes_le(b, a),
    decreases a.len(),
{
    if a.len() > 0 && b.len() > 0 && a.first() == b.first() {
        lemma_bytes_le_connected(a.drop_first(), b.drop_first());
    }
}

/// The order of strings is total: any two strings compare, and two that
/// compare both ways are the same string.
pub proof fn lemma_text_order_total()
    ensures
        total_ordering(text_order()),
{
    let r = text_order();
    assert forall|x: Seq<char>| #[trigger] r(x, x) by {
        lemma_bytes_le_reflexive(encode_utf8(x));
    }
    assert forall|x: Seq<char>, y: Seq<char>| #[trigger] r(x, y) && #[trigger] r(y, x) implies x
        == y by {
        lemma_bytes_le_antisymmetric(encode_utf8(x), encode_utf8(y));
        encode_utf8_decode_utf8(x);
        encode_utf8_decode_utf8(y);
    }
    assert forall|x: Seq<char>, y: Seq<char>, z: Seq<char>| #[trigger]
        r(x, y) && #[trigger] r(y, z) implies r(x, z) by {
        lemma_bytes_le_transitive(encode_utf8(x), encode_utf8(y), encode_utf8(z));
    }
    assert forall|x: Seq<char>, y: Seq<char>| #[trigger] r(x, y) || #[trigger] r(y, x) by {
        lemma_bytes_le_connected(encode_utf8(x), encode_utf8(y));
    }
}

/// Sorting rearranges: the sorted texts are in ascending order and hold
/// each text as often as the input does.
pub proof fn lemma_sorted_texts(texts: Seq<Seq<char>>)
    ensures
        sorted_by(sorted_texts(texts), text_order()),
        sorted_texts(texts).to_multiset() == texts.to_multiset(),
        sorted_texts(texts).len() == texts.len(),
{
    lemma_text_order_total();
    texts.lemma_sort_by_ensures(text_order());
    to_multiset_len(texts);
    to_multiset_len(sorted_texts(texts));
}

/// No other arrangement is sorted: an ascending sequence that holds each
/// text as often as `texts` does is `sorted_texts(texts)`.
pub proof fn lemma_sorted_texts_unique(texts: Seq<Seq<char>>, arranged: Seq<Seq<char>>)
    requires
        sorted_by(arranged, text_order()),
        arranged.to_multiset() == texts.to_multiset(),
    ensures
        arranged == sorted_texts(texts),
{
    lemma_sorted_texts(texts);
    lemma_text_order_total();
    lemma_sorted_unique(arranged, sorted_texts(texts), text_order());
}

/// Whether `a` comes before `b` or equals it, byte by byte.
pub fn bytes_precede(a: &[u8], b: &[u8]) -> (le: bool)
    ensures
        le == bytes_le(a@, b@),
{
    let mut i: usize = 0;
    proof {
        assert(a@.skip(0) =~= a@);
        assert(b@.skip(0) =~= b@);
    }
    while i < a.len() && i < b.len()
        invariant
            i <= a@.len(),
            i <= b@.len(),
            bytes_le(a@, b@) == bytes_le(a@.skip(i as int), b@.skip(i as int)),
        decreases a@.len() - i,
    {
        proof {
            assert(a@.skip(i as int).drop_first() =~= a@.skip(i as int + 1));
            assert(b@.skip(i as int).drop_first() =~= b@.skip(i as int + 1));
        }
        if a[i] != b[i] {
            return a[i] < b[i];
        }
        i += 1;
    }
    i == a.len()
}

/// Whether the string `a` comes before the string `b` or equals it.
pub fn str_precedes(a: &str, b: &str) -> (le: bool)
    ensures
        le == text_le(a@, b@),
{
    bytes_precede(a.as_bytes(), b.as_bytes())
}

/// The strings in ascending order.
pub fn sort_strs<'a>(items: &Vec<&'a str>) -> (sorted: Vec<&'a str>)
    ensures
        texts_of(sorted@) == sorted_texts(texts_of(items@)),
{
    let mut sorted: Vec<&'a str> = Vec::new();
    let mut k: usize = 0;
    proof {
        lemma_text_order_total();
        assert(texts_of(sorted@) =~= texts_of(items@.take(0)));
    }
    while k < items.len()
        invariant
            k <= items@.len(),
            total_ordering(text_order()),
            sorted_by(texts_of(sorted@), text_order()),
            texts_of(sorted@).to_multiset() == texts_of(items@.take(k as int)).to_multiset(),
        decreases items@.len() - k,
    {
        let item: &'a str = items[k];
        let mut at: usize = 0;
        while at < sorted.len() && str_precedes(sorted[at], item)
            invariant
                at <= sorted@.len(),
                forall|j: int| 0 <= j < at ==> text_le(#[trigger] sorted@[j]@, item@),
            decreases sorted@.len() - at,
        {
            at += 1;
        }
        let ghost before = texts_of(sorted@);
        sorted.insert(at, item);
        proof {
            let after = texts_of(sorted@);
            let r = text_order();
            assert(after =~= before.insert(at as int, item@));
            to_multiset_insert(before, at as int, item@);
            let prefix = texts_of(items@.take(k as int));
            assert(texts_of(items@.take(k as int + 1)) =~= prefix.push(item@));
            to_multiset_build(prefix, item@);
            assert forall|i: int, j: int| 0 <= i < j < after.len() implies #[trigger] r(
                after[i],
                after[j],
            ) by {
                if j < at {
                    assert(r(before[i], before[j]));
                } else if j == at {
                    assert(text_le(before[i], item@));
                } else if i == at {
                    // the item is below what stood at `at`, hence below all that follow it
                    assert(!text_le(before[at as int], item@));
                    assert(r(before[at as int], item@) || r(item@, before[at as int]));
                    if j - 1 > at {
                        assert(r(before[at as int], before[j - 1]));
                    }
                    assert(r(item@, before[at as int]) && r(before[at as int], before[j - 1])
                        ==> r(item@, before[j - 1]));
                } else if i < at {
                    assert(r(before[i], before[j - 1]));
                } else {
                    assert(r(before[i - 1], before[j - 1]));
                }
            }
        }
        k += 1;
    }
    proof {
        assert(items@.take(k as int) =~= items@);
        lemma_sorted_texts_unique(texts_of(items@), texts_of(sorted@));
    }
    sorted
}

} // verus!
