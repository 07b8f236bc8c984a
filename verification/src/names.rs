//! The order in which names stand in the index: that of their UTF-8 bytes,
//! read from the left, a proper prefix before what it is a prefix of.

use vstd::prelude::*;
use vstd::utf8::*;

verus! {

/// `a` and `b` hold the same bytes at each position below `k`.
pub open spec fn agree_below(a: Seq<u8>, b: Seq<u8>, k: int) -> bool {
    &&& 0 <= k <= a.len()
    &&& k <= b.len()
    &&& forall|j: int| 0 <= j < k ==> a[j] == b[j]
}

/// Position `k` shows that `a` stands before `b`: up to there they agree, and
/// there `a` ends while `b` goes on, or `a` holds the smaller byte.
pub open spec fn precedes_at(a: Seq<u8>, b: Seq<u8>, k: int) -> bool {
    &&& agree_below(a, b, k)
    &&& k < b.len()
    &&& k < a.len() ==> a[k] < b[k]
}

/// `a` stands before `b` in the lexicographic order of bytes.
pub open spec fn bytes_precede(a: Seq<u8>, b: Seq<u8>) -> bool {
    exists|k: int| precedes_at(a, b, k)
}

/// The name `a` stands before the name `b`.
pub open spec fn name_precedes(a: Seq<char>, b: Seq<char>) -> bool {
    bytes_precede(encode_utf8(a), encode_utf8(b))
}

/// Where two byte strings first differ, no other position shows an order.
proof fn lemma_first_difference_decides(a: Seq<u8>, b: Seq<u8>, k: int)
    requires
        agree_below(a, b, k),
        k == b.len() || (k < a.len() && a[k] > b[k]),
    ensures
        !bytes_precede(a, b),
{
    assert forall|j: int| !precedes_at(a, b, j) by {
        if precedes_at(a, b, j) {
            if j < k {
                assert(a[j] == b[j]);
            } else if j > k {
                assert(a[k] == b[k]);
            }
        }
    }
}

proof fn lemma_bytes_total_from(a: Seq<u8>, b: Seq<u8>, k: int)
    requires
        agree_below(a, b, k),
    ensures
        a == b || bytes_precede(a, b) || bytes_precede(b, a),
    decreases a.len() - k,
{
    if k == a.len() {
        if k == b.len() {
            assert(a =~= b);
        } else {
            assert(precedes_at(a, b, k));
        }
    } else if k == b.len() {
        assert(precedes_at(b, a, k));
    } else if a[k] == b[k] {
        lemma_bytes_total_from(a, b, k + 1);
    } else if a[k] < b[k] {
        assert(precedes_at(a, b, k));
    } else {
        assert(precedes_at(b, a, k));
    }
}

/// No name stands before itself.
pub proof fn lemma_precedes_irreflexive(a: Seq<char>)
    ensures
        !name_precedes(a, a),
{
    let x = encode_utf8(a);
    lemma_first_difference_decides(x, x, x.len() as int);
}

/// The order of names is transitive.
pub proof fn lemma_precedes_transitive(a: Seq<char>, b: Seq<char>, c: Seq<char>)
    requires
        name_precedes(a, b),
        name_precedes(b, c),
    ensures
        name_precedes(a, c),
{
    let x = encode_utf8(a);
    let y = encode_utf8(b);
    let z = encode_utf8(c);
    let i = choose|k: int| precedes_at(x, y, k);
    let j = choose|k: int| precedes_at(y, z, k);
    let m = if i <= j { i } else { j };
    assert(precedes_at(x, z, m));
}

/// Of two names, neither stands before the other only when they are equal.
pub proof fn lemma_precedes_total(a: Seq<char>, b: Seq<char>)
    ensures
        a == b || name_precedes(a, b) || name_precedes(b, a),
{
    let x = encode_utf8(a);
    let y = encode_utf8(b);
    lemma_bytes_total_from(x, y, 0);
    if x == y {
        encode_utf8_decode_utf8(a);
        encode_utf8_decode_utf8(b);
    }
}

/// Whether the name `a` stands before the name `b`.
pub fn precedes(a: &str, b: &str) -> (before: bool)
    ensures
        before == name_precedes(a@, b@),
{
    let x = a.as_bytes();
    let y = b.as_bytes();
    let mut i: usize = 0;
    while i < x.len() && i < y.len()
        invariant
            x@ == encode_utf8(a@),
            y@ == encode_utf8(b@),
            agree_below(x@, y@, i as int),
        decreases x.len() - i,
    {
        if x[i] != y[i] {
            proof {
                if x[i as int] < y[i as int] {
                    assert(precedes_at(x@, y@, i as int));
                } else {
                    lemma_first_difference_decides(x@, y@, i as int);
                }
            }
            return x[i] < y[i];
        }
        i += 1;
    }
    proof {
        if i < y.len() {
            assert(precedes_at(x@, y@, i as int));
        } else {
            lemma_first_difference_decides(x@, y@, i as int);
        }
    }
    i < y.len()
}

} // verus!
