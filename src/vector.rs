//! Fixed-size random byte vectors and their bitwise combination.

use vstd::prelude::*;

verus! {

/// Size in bytes of every key the protocol handles.
pub const KEY_SIZE: usize = 16;

/// Position-wise AND of two byte sequences of equal length.
pub open spec fn and_seq(a: Seq<u8>, b: Seq<u8>) -> Seq<u8> {
    Seq::new(a.len(), |i: int| a[i] & b[i])
}

/// Relies on `rand::random::<u8>`: one byte drawn from the thread-local
/// generator. Nothing is known of its value.
#[verifier::external_body]
fn random_byte() -> (r: u8) {
    rand::random::<u8>()
}

/// Returns `n` independently drawn random bytes.
pub fn rand_byte_vector(n: usize) -> (r: Vec<u8>)
    ensures
        r@.len() == n,
{
    let mut v: Vec<u8> = Vec::new();
    let mut i: usize = 0;
    while i < n
        invariant
            i <= n,
            v@.len() == i,
        decreases n - i,
    {
        v.push(random_byte());
        i += 1;
    }
    v
}

/// Bytewise AND of two vectors of equal length.
pub fn and_vector(a: &Vec<u8>, b: &Vec<u8>) -> (r: Vec<u8>)
    requires
        a@.len() == b@.len(),
    ensures
        r@ == and_seq(a@, b@),
{
    let mut v: Vec<u8> = Vec::new();
    let mut i: usize = 0;
    while i < a.len()
        invariant
            i <= a@.len(),
            a@.len() == b@.len(),
            v@ == and_seq(a@, b@).take(i as int),
        decreases a@.len() - i,
    {
        v.push(a[i] & b[i]);
        i += 1;
        assert(v@ =~= and_seq(a@, b@).take(i as int));
    }
    assert(v@ =~= and_seq(a@, b@));
    v
}

/// AND over byte sequences of one length is associative and commutative:
/// three values combine to the same result in any grouping and any order.
pub proof fn lemma_and_assoc_comm(a: Seq<u8>, b: Seq<u8>, c: Seq<u8>)
    requires
        a.len() == b.len(),
        b.len() == c.len(),
    ensures
        and_seq(and_seq(a, b), c) == and_seq(a, and_seq(b, c)),
        and_seq(and_seq(a, b), c) == and_seq(and_seq(a, c), b),
        and_seq(a, b) == and_seq(b, a),
{
    assert forall|i: int| 0 <= i < a.len() implies {
        &&& (a[i] & b[i]) & c[i] == a[i] & (b[i] & c[i])
        &&& (a[i] & b[i]) & c[i] == (a[i] & c[i]) & b[i]
        &&& a[i] & b[i] == b[i] & a[i]
    } by {
        let (x, y, z) = (a[i], b[i], c[i]);
        assert((x & y) & z == x & (y & z) && (x & y) & z == (x & z) & y && x & y == y & x)
            by (bit_vector);
    }
    assert(and_seq(and_seq(a, b), c) =~= and_seq(a, and_seq(b, c)));
    assert(and_seq(and_seq(a, b), c) =~= and_seq(and_seq(a, c), b));
    assert(and_seq(a, b) =~= and_seq(b, a));
}

} // verus!
