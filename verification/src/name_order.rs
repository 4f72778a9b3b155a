//! The order in which subplans are kept: names compared byte by byte over
//! their UTF-8 encoding, a proper prefix coming first.

use vstd::prelude::*;

verus! {

/// How one name stands to another in the order of names.
#[derive(Clone, Copy, PartialEq, Eq, Structural, Debug)]
pub enum Rank {
    /// The first name comes strictly first.
    Before,
    /// Both names are the same.
    Same,
    /// The first name comes strictly last.
    After,
}

/// The bytes by which a name is ordered.
pub open spec fn key(name: Seq<char>) -> Seq<u8> {
    vstd::utf8::encode_utf8(name)
}

/// `a` and `b` hold the same bytes at every position below `k`.
pub open spec fn agree_below(a: Seq<u8>, b: Seq<u8>, k: int) -> bool {
    &&& 0 <= k <= a.len()
    &&& k <= b.len()
    &&& forall|j: int| 0 <= j < k ==> a[j] == b[j]
}

/// `a` comes strictly before `b`: at the first position where they part,
/// `a` has ended or holds the smaller byte.
pub open spec fn bytes_before(a: Seq<u8>, b: Seq<u8>) -> bool {
    exists|k: int| #[trigger]
        agree_below(a, b, k) && k < b.len() && (k == a.len() || a[k] < b[k])
}

/// The name `a` comes strictly before the name `b`.
pub open spec fn precedes(a: Seq<char>, b: Seq<char>) -> bool {
    bytes_before(key(a), key(b))
}

/// Where the name `a` stands to the name `b`.
pub open spec fn rank_of(a: Seq<char>, b: Seq<char>) -> Rank {
    if precedes(a, b) {
        Rank::Before
    } else if a == b {
        Rank::Same
    } else {
        Rank::After
    }
}

/// No sequence of bytes comes before itself.
pub proof fn bytes_before_irreflexive(a: Seq<u8>)
    ensures
        !bytes_before(a, a),
{
}

/// Of two sequences of bytes at most one comes before the other.
pub proof fn bytes_before_asymmetric(a: Seq<u8>, b: Seq<u8>)
    requires
        bytes_before(a, b),
    ensures
        !bytes_before(b, a),
{
    let k = choose|k: int| #[trigger]
        agree_below(a, b, k) && k < b.len() && (k == a.len() || a[k] < b[k]);
    if bytes_before(b, a) {
        let m = choose|m: int| #[trigger]
            agree_below(b, a, m) && m < a.len() && (m == b.len() || b[m] < a[m]);
        if m < k {
            assert(a[m] == b[m]);
        } else if k < m {
            assert(b[k] == a[k]);
        }
    }
}

/// Coming before is transitive.
pub proof fn bytes_before_transitive(a: Seq<u8>, b: Seq<u8>, c: Seq<u8>)
    requires
        bytes_before(a, b),
        bytes_before(b, c),
    ensures
        bytes_before(a, c),
{
    let k = choose|k: int| #[trigger]
        agree_below(a, b, k) && k < b.len() && (k == a.len() || a[k] < b[k]);
    let m = choose|m: int| #[trigger]
        agree_below(b, c, m) && m < c.len() && (m == b.len() || b[m] < c[m]);
    let n = if k < m { k } else { m };
    assert(agree_below(a, c, n));
    if k < m {
        assert(b[k] == c[k]);
    } else if m < k {
        assert(a[m] == b[m]);
    }
}

/// Two sequences that agree below `k`, and of which none comes before the
/// other, are equal.
proof fn bytes_equal_from(a: Seq<u8>, b: Seq<u8>, k: int)
    requires
        agree_below(a, b, k),
        !bytes_before(a, b),
        !bytes_before(b, a),
    ensures
        a =~= b,
    decreases a.len() - k,
{
    assert(agree_below(b, a, k));
    if k == a.len() {
    } else if k == b.len() {
    } else {
        assert(a[k] == b[k]);
        assert(agree_below(a, b, k + 1));
        bytes_equal_from(a, b, k + 1);
    }
}

/// Of two different sequences of bytes one comes before the other.
pub proof fn bytes_before_total(a: Seq<u8>, b: Seq<u8>)
    ensures
        a == b || bytes_before(a, b) || bytes_before(b, a),
{
    if !bytes_before(a, b) && !bytes_before(b, a) {
        assert(agree_below(a, b, 0));
        bytes_equal_from(a, b, 0);
    }
}

/// Names with the same key are the same name.
pub proof fn key_injective(a: Seq<char>, b: Seq<char>)
    requires
        key(a) == key(b),
    ensures
        a == b,
{
    vstd::utf8::encode_utf8_decode_utf8(a);
    vstd::utf8::encode_utf8_decode_utf8(b);
}

/// No name comes before itself.
pub proof fn precedes_irreflexive(a: Seq<char>)
    ensures
        !precedes(a, a),
{
    bytes_before_irreflexive(key(a));
}

/// Of two names at most one comes before the other.
pub proof fn precedes_asymmetric(a: Seq<char>, b: Seq<char>)
    requires
        precedes(a, b),
    ensures
        !precedes(b, a),
        a != b,
{
    bytes_before_asymmetric(key(a), key(b));
}

/// The order of names is transitive.
pub proof fn precedes_transitive(a: Seq<char>, b: Seq<char>, c: Seq<char>)
    requires
        precedes(a, b),
        precedes(b, c),
    ensures
        precedes(a, c),
{
    bytes_before_transitive(key(a), key(b), key(c));
}

/// Of two different names one comes before the other.
pub proof fn precedes_total(a: Seq<char>, b: Seq<char>)
    ensures
        a == b || precedes(a, b) || precedes(b, a),
{
    bytes_before_total(key(a), key(b));
    if key(a) == key(b) {
        key_injective(a, b);
    }
}

/// What `rank_of` says of the two names the other way round.
pub proof fn rank_of_mirrored(a: Seq<char>, b: Seq<char>)
    ensures
        rank_of(a, b) == Rank::Before <==> rank_of(b, a) == Rank::After,
        rank_of(a, b) == Rank::Same <==> rank_of(b, a) == Rank::Same,
        rank_of(a, b) == Rank::After <==> precedes(b, a),
{
    precedes_total(a, b);
    if precedes(a, b) {
        precedes_asymmetric(a, b);
    }
    if precedes(b, a) {
        precedes_asymmetric(b, a);
    }
}

/// Compares two names in the order of names.
pub fn compare(a: &str, b: &str) -> (r: Rank)
    ensures
        r == rank_of(a@, b@),
{
    let x = a.as_bytes();
    let y = b.as_bytes();
    let n = x.len();
    let m = y.len();
    let mut i: usize = 0;
    while i < n && i < m
        invariant
            n == x@.len(),
            m == y@.len(),
            x@ == key(a@),
            y@ == key(b@),
            agree_below(x@, y@, i as int),
        decreases n - i,
    {
        if x[i] < y[i] {
            proof {
                precedes_asymmetric(a@, b@);
            }
            return Rank::Before;
        } else if x[i] > y[i] {
            proof {
                assert(agree_below(y@, x@, i as int));
                precedes_asymmetric(b@, a@);
            }
            return Rank::After;
        }
        i += 1;
    }
    if n < m {
        proof {
            precedes_asymmetric(a@, b@);
        }
        Rank::Before
    } else if m < n {
        proof {
            assert(agree_below(y@, x@, i as int));
            precedes_asymmetric(b@, a@);
        }
        Rank::After
    } else {
        proof {
            assert(x@ =~= y@);
            key_injective(a@, b@);
            precedes_irreflexive(a@);
        }
        Rank::Same
    }
}

} // verus!
