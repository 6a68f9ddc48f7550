//! The order in which channel names are kept: strings compare as the
//! sequences of bytes of their UTF-8 encoding, the earlier byte deciding and
//! a proper prefix coming first.

use vstd::prelude::*;
use vstd::utf8::*;

verus! {

/// `a` and `b` agree on their first `n` bytes.
pub open spec fn same_prefix(a: Seq<u8>, b: Seq<u8>, n: int) -> bool {
    forall|j: int| 0 <= j < n ==> a[j] == b[j]
}

/// `a` comes before `b` and position `at` shows it: the two agree before
/// `at`, and there `a` has ended or holds the smaller byte.
pub open spec fn bytes_lt_at(a: Seq<u8>, b: Seq<u8>, at: int) -> bool {
    &&& 0 <= at <= a.len()
    &&& at < b.len()
    &&& same_prefix(a, b, at)
    &&& (at == a.len() || a[at] < b[at])
}

/// Strict lexicographic order on byte sequences.
pub open spec fn bytes_lt(a: Seq<u8>, b: Seq<u8>) -> bool {
    exists|at: int| bytes_lt_at(a, b, at)
}

/// Strict order on texts: that of their UTF-8 encodings.
pub open spec fn text_lt(a: Seq<char>, b: Seq<char>) -> bool {
    bytes_lt(encode_utf8(a), encode_utf8(b))
}

/// No byte sequence comes before itself.
pub proof fn lemma_bytes_lt_irreflexive(a: Seq<u8>)
    ensures
        !bytes_lt(a, a),
{
}

/// The order on byte sequences is transitive.
pub proof fn lemma_bytes_lt_transitive(a: Seq<u8>, b: Seq<u8>, c: Seq<u8>)
    requires
        bytes_lt(a, b),
        bytes_lt(b, c),
    ensures
        bytes_lt(a, c),
{
    let i = choose|at: int| bytes_lt_at(a, b, at);
    let j = choose|at: int| bytes_lt_at(b, c, at);
    let k = if i <= j { i } else { j };
    assert(bytes_lt_at(a, c, k));
}

/// Of two different byte sequences one comes before the other.
pub proof fn lemma_bytes_lt_connected(a: Seq<u8>, b: Seq<u8>)
    requires
        !bytes_lt(a, b),
        !bytes_lt(b, a),
    ensures
        a == b,
{
    lemma_first_difference(a, b, 0);
    let d = first_difference(a, b, 0);
    if d < a.len() && d < b.len() {
        if a[d] < b[d] {
            assert(bytes_lt_at(a, b, d));
        } else {
            assert(bytes_lt_at(b, a, d));
        }
    } else if d < b.len() {
        assert(bytes_lt_at(a, b, d));
    } else if d < a.len() {
        assert(bytes_lt_at(b, a, d));
    } else {
        assert(a =~= b);
    }
}

/// The first position from `from` on at which `a` and `b` differ or one of
/// them ends.
pub open spec fn first_difference(a: Seq<u8>, b: Seq<u8>, from: int) -> int
    decreases a.len() - from,
{
    if 0 <= from < a.len() && from < b.len() && a[from] == b[from] {
        first_difference(a, b, from + 1)
    } else {
        from
    }
}

/// What `first_difference` finds: the two sequences agree up to it, and
/// there they differ or one has ended.
pub proof fn lemma_first_difference(a: Seq<u8>, b: Seq<u8>, from: int)
    requires
        0 <= from <= a.len(),
        from <= b.len(),
        same_prefix(a, b, from),
    ensures
        from <= first_difference(a, b, from) <= a.len(),
        first_difference(a, b, from) <= b.len(),
        same_prefix(a, b, first_difference(a, b, from)),
        first_difference(a, b, from) < a.len() && first_difference(a, b, from) < b.len()
            ==> a[first_difference(a, b, from)] != b[first_difference(a, b, from)],
    decreases a.len() - from,
{
    if from < a.len() && from < b.len() && a[from] == b[from] {
        lemma_first_difference(a, b, from + 1);
    }
}

/// No text comes before itself.
pub proof fn lemma_text_lt_irreflexive(a: Seq<char>)
    ensures
        !text_lt(a, a),
{
}

/// Two texts are never each before the other.
pub proof fn lemma_text_lt_asymmetric(a: Seq<char>, b: Seq<char>)
    requires
        text_lt(a, b),
    ensures
        !text_lt(b, a),
{
    if text_lt(b, a) {
        lemma_bytes_lt_transitive(encode_utf8(a), encode_utf8(b), encode_utf8(a));
    }
}

/// The order on texts is transitive.
pub proof fn lemma_text_lt_transitive(a: Seq<char>, b: Seq<char>, c: Seq<char>)
    requires
        text_lt(a, b),
        text_lt(b, c),
    ensures
        text_lt(a, c),
{
    lemma_bytes_lt_transitive(encode_utf8(a), encode_utf8(b), encode_utf8(c));
}

/// Of two different texts one comes before the other.
pub proof fn lemma_text_lt_connected(a: Seq<char>, b: Seq<char>)
    requires
        a != b,
    ensures
        text_lt(a, b) || text_lt(b, a),
{
    if !text_lt(a, b) && !text_lt(b, a) {
        lemma_bytes_lt_connected(encode_utf8(a), encode_utf8(b));
        encode_utf8_decode_utf8(a);
        encode_utf8_decode_utf8(b);
    }
}

/// Whether `a` comes strictly before `b`.
pub fn text_less(a: &str, b: &str) -> (r: bool)
    ensures
        r == text_lt(a@, b@),
{
    let x = a.as_bytes();
    let y = b.as_bytes();
    let mut i: usize = 0;
    while i < x.len() && i < y.len() && x[i] == y[i]
        invariant
            i <= x.len(),
            i <= y.len(),
            same_prefix(x@, y@, i as int),
        decreases x.len() - i,
    {
        i += 1;
    }
    let r = if i == y.len() {
        false
    } else if i == x.len() {
        true
    } else {
        x[i] < y[i]
    };
    proof {
        if r {
            assert(bytes_lt_at(x@, y@, i as int));
        } else {
            assert forall|at: int| !bytes_lt_at(x@, y@, at) by {
                if bytes_lt_at(x@, y@, at) {
                    if at < i {
                        assert(x@[at] == y@[at]);
                    } else if at > i {
                        assert(x@[i as int] == y@[i as int]);
                    }
                }
            }
        }
    }
    r
}

} // verus!
