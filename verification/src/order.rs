//! The order in which names stand in the signature map: that of their UTF-8
//! bytes, which is the order of `String`.

use vstd::prelude::*;
use vstd::string::StringSliceAdditionalSpecFns;
use vstd::utf8::encode_utf8;

verus! {

/// `a` and `b` agree before position `i`, and there `a` ends or holds the
/// smaller byte, while `b` goes on.
pub open spec fn less_at(a: Seq<u8>, b: Seq<u8>, i: int) -> bool {
    &&& 0 <= i <= a.len()
    &&& i < b.len()
    &&& forall|k: int| 0 <= k < i ==> a[k] == b[k]
    &&& (i == a.len() || a[i] < b[i])
}

/// `a` comes before `b` in lexicographic order.
pub open spec fn bytes_less(a: Seq<u8>, b: Seq<u8>) -> bool {
    exists|i: int| less_at(a, b, i)
}

/// The name `a` comes before the name `b`.
pub open spec fn precedes(a: Seq<char>, b: Seq<char>) -> bool {
    bytes_less(encode_utf8(a), encode_utf8(b))
}

/// No name comes before itself.
pub proof fn lemma_precedes_irreflexive(a: Seq<char>)
    ensures
        !precedes(a, a),
{
}

/// The order of names is transitive.
pub proof fn lemma_precedes_transitive(a: Seq<char>, b: Seq<char>, c: Seq<char>)
    requires
        precedes(a, b),
        precedes(b, c),
    ensures
        precedes(a, c),
{
    let x = encode_utf8(a);
    let y = encode_utf8(b);
    let z = encode_utf8(c);
    let i = choose|i: int| less_at(x, y, i);
    let j = choose|j: int| less_at(y, z, j);
    if i <= j {
        assert(less_at(x, z, i));
    } else {
        assert(less_at(x, z, j));
    }
}

/// Of two names, one comes before the other or they are the same name.
pub proof fn lemma_precedes_total(a: Seq<char>, b: Seq<char>)
    ensures
        precedes(a, b) || a == b || precedes(b, a),
{
    let x = encode_utf8(a);
    let y = encode_utf8(b);
    lemma_bytes_total(x, y, 0);
    if x == y {
        vstd::utf8::encode_utf8_decode_utf8(a);
        vstd::utf8::encode_utf8_decode_utf8(b);
    }
}

/// Two byte strings that agree before `from` are equal, or one comes before
/// the other.
proof fn lemma_bytes_total(x: Seq<u8>, y: Seq<u8>, from: int)
    requires
        0 <= from <= x.len(),
        from <= y.len(),
        forall|k: int| 0 <= k < from ==> x[k] == y[k],
    ensures
        bytes_less(x, y) || x == y || bytes_less(y, x),
    decreases x.len() - from,
{
    if from == x.len() {
        if from == y.len() {
            assert(x =~= y);
        } else {
            assert(less_at(x, y, from));
        }
    } else if from == y.len() {
        assert(less_at(y, x, from));
    } else if x[from] < y[from] {
        assert(less_at(x, y, from));
    } else if y[from] < x[from] {
        assert(less_at(y, x, from));
    } else {
        lemma_bytes_total(x, y, from + 1);
    }
}

/// How one name stands to another.
#[derive(Debug, Clone, Copy, PartialEq, Eq, Structural)]
pub enum Rank {
    Before,
    Same,
    After,
}

/// How the name `a` stands to the name `b`.
pub fn rank(a: &str, b: &str) -> (r: Rank)
    ensures
        match r {
            Rank::Before => precedes(a@, b@),
            Rank::Same => a@ == b@,
            Rank::After => precedes(b@, a@),
        },
{
    let x = a.as_bytes();
    let y = b.as_bytes();
    let mut i: usize = 0;
    while i < x.len() && i < y.len()
        invariant
            i <= x.len(),
            i <= y.len(),
            x@ == a.spec_bytes(),
            y@ == b.spec_bytes(),
            forall|k: int| 0 <= k < i ==> x@[k] == y@[k],
        decreases x.len() - i,
    {
        if x[i] < y[i] {
            assert(less_at(x@, y@, i as int));
            return Rank::Before;
        }
        if x[i] > y[i] {
            assert(less_at(y@, x@, i as int));
            return Rank::After;
        }
        i += 1;
    }
    if i < y.len() {
        assert(less_at(x@, y@, i as int));
        Rank::Before
    } else if i < x.len() {
        assert(less_at(y@, x@, i as int));
        Rank::After
    } else {
        proof {
            assert(x@ =~= y@);
            vstd::utf8::encode_utf8_decode_utf8(a@);
            vstd::utf8::encode_utf8_decode_utf8(b@);
        }
        Rank::Same
    }
}

} // verus!
