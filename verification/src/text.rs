//! The order in which texts stand: that of their bytes in UTF-8, which is
//! the order of the standard library's strings.

use vstd::prelude::*;
use vstd::string::*;
use vstd::utf8::*;

verus! {

/// Whether `x` stands before `y`, byte by byte: at the first place where
/// the two differ `x` has the smaller byte, or `x` ends there and `y` goes
/// on.
pub open spec fn bytes_precede(x: Seq<u8>, y: Seq<u8>) -> bool
    decreases x.len(),
{
    if y.len() == 0 {
        false
    } else if x.len() == 0 {
        true
    } else if x[0] != y[0] {
        x[0] < y[0]
    } else {
        bytes_precede(x.drop_first(), y.drop_first())
    }
}

/// Whether the text `a` stands before the text `b`.
pub open spec fn precedes(a: Seq<char>, b: Seq<char>) -> bool {
    bytes_precede(encode_utf8(a), encode_utf8(b))
}

/// Of two byte strings one stands before the other or they are the same,
/// and only one of the three holds.
pub proof fn lemma_bytes_order_is_total(x: Seq<u8>, y: Seq<u8>)
    ensures
        bytes_precede(x, y) || x == y || bytes_precede(y, x),
        !(bytes_precede(x, y) && bytes_precede(y, x)),
        x == y ==> !bytes_precede(x, y),
    decreases x.len(),
{
    if x.len() == 0 || y.len() == 0 {
        if x.len() == 0 && y.len() == 0 {
            assert(x =~= y);
        }
    } else if x[0] == y[0] {
        lemma_bytes_order_is_total(x.drop_first(), y.drop_first());
        if x.drop_first() == y.drop_first() {
            assert forall|i: int| 0 <= i < x.len() implies x[i] == y[i] by {
                if i > 0 {
                    assert(x[i] == x.drop_first()[i - 1]);
                    assert(y[i] == y.drop_first()[i - 1]);
                }
            }
            assert(x.len() == x.drop_first().len() + 1);
            assert(y.len() == y.drop_first().len() + 1);
            assert(x =~= y);
        }
    }
}

/// What stands before something that stands before a third stands before
/// the third.
pub proof fn lemma_bytes_order_is_transitive(x: Seq<u8>, y: Seq<u8>, z: Seq<u8>)
    requires
        bytes_precede(x, y),
        bytes_precede(y, z),
    ensures
        bytes_precede(x, z),
    decreases x.len(),
{
    if x.len() > 0 && x[0] == y[0] && y[0] == z[0] {
        lemma_bytes_order_is_transitive(x.drop_first(), y.drop_first(), z.drop_first());
    }
}

/// Byte strings that agree up to a place stand to each other as what they
/// hold from that place on.
pub proof fn lemma_bytes_order_from(x: Seq<u8>, y: Seq<u8>, i: int)
    requires
        0 <= i <= x.len(),
        i <= y.len(),
        forall|j: int| 0 <= j < i ==> x[j] == y[j],
    ensures
        bytes_precede(x, y) == bytes_precede(x.skip(i), y.skip(i)),
    decreases i,
{
    if i == 0 {
        assert(x.skip(0) =~= x);
        assert(y.skip(0) =~= y);
    } else {
        lemma_bytes_order_from(x, y, i - 1);
        let p = x.skip(i - 1);
        let q = y.skip(i - 1);
        assert(p[0] == x[i - 1] && q[0] == y[i - 1]);
        assert(p.drop_first() =~= x.skip(i));
        assert(q.drop_first() =~= y.skip(i));
    }
}

/// Of two texts one stands before the other or they are the same text, and
/// only one of the three holds.
pub proof fn lemma_order_is_total(a: Seq<char>, b: Seq<char>)
    ensures
        precedes(a, b) || a == b || precedes(b, a),
        !(precedes(a, b) && precedes(b, a)),
        a == b ==> !precedes(a, b),
{
    lemma_bytes_order_is_total(encode_utf8(a), encode_utf8(b));
    encode_utf8_decode_utf8(a);
    encode_utf8_decode_utf8(b);
}

/// A text that stands before one that stands before a third stands before
/// the third.
pub proof fn lemma_order_is_transitive(a: Seq<char>, b: Seq<char>, c: Seq<char>)
    requires
        precedes(a, b),
        precedes(b, c),
    ensures
        precedes(a, c),
{
    lemma_bytes_order_is_transitive(encode_utf8(a), encode_utf8(b), encode_utf8(c));
}

/// Whether the text `a` stands before the text `b`.
pub fn comes_before(a: &str, b: &str) -> (r: bool)
    ensures
        r == precedes(a@, b@),
{
    let x = a.as_bytes();
    let y = b.as_bytes();
    let mut i: usize = 0;
    while i < x.len() && i < y.len()
        invariant
            i <= x.len(),
            i <= y.len(),
            x@ == encode_utf8(a@),
            y@ == encode_utf8(b@),
            forall|j: int| 0 <= j < i ==> x@[j] == y@[j],
        decreases x.len() - i,
    {
        if x[i] != y[i] {
            proof {
                lemma_bytes_order_from(x@, y@, i as int);
                assert(x@.skip(i as int)[0] == x@[i as int]);
                assert(y@.skip(i as int)[0] == y@[i as int]);
            }
            return x[i] < y[i];
        }
        i += 1;
    }
    proof {
        lemma_bytes_order_from(x@, y@, i as int);
    }
    x.len() < y.len()
}

} // verus!
