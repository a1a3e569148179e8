//! The repeating-key stream cipher that protects message payloads.

use vstd::prelude::*;

verus! {

/// The byte at position `i` of `data` combined with the key byte that the
/// repeated key places there. An empty key leaves the byte as it is.
pub open spec fn keystream_byte(data: Seq<u8>, key: Seq<u8>, i: int) -> u8 {
    if key.len() == 0 {
        data[i]
    } else {
        data[i] ^ key[i % (key.len() as int)]
    }
}

/// `data` with the key repeated across its length and XOR-ed in position-wise.
pub open spec fn keystream_xor(data: Seq<u8>, key: Seq<u8>) -> Seq<u8> {
    Seq::new(data.len(), |i: int| keystream_byte(data, key, i))
}

fn apply_keystream(data: &Vec<u8>, key: &Vec<u8>) -> (r: Vec<u8>)
    ensures
        r@ == keystream_xor(data@, key@),
{
    let mut out: Vec<u8> = Vec::new();
    let n = key.len();
    let mut i: usize = 0;
    while i < data.len()
        invariant
            i <= data@.len(),
            n == key@.len(),
            out@ == keystream_xor(data@, key@).take(i as int),
        decreases data@.len() - i,
    {
        if n == 0 {
            out.push(data[i]);
        } else {
            out.push(data[i] ^ key[i % n]);
        }
        i += 1;
        assert(out@ =~= keystream_xor(data@, key@).take(i as int));
    }
    assert(out@ =~= keystream_xor(data@, key@));
    out
}

/// Encrypts `plaintext` under `key`; the result has the plaintext's length.
pub fn encrypt(plaintext: &Vec<u8>, key: &Vec<u8>) -> (r: Vec<u8>)
    ensures
        r@ == keystream_xor(plaintext@, key@),
{
    apply_keystream(plaintext, key)
}

/// Decrypts `ciphertext` under `key`. Decryption never fails: under a wrong
/// key it yields garbled bytes of the same length.
pub fn decrypt(ciphertext: &Vec<u8>, key: &Vec<u8>) -> (r: Vec<u8>)
    ensures
        r@ == keystream_xor(ciphertext@, key@),
{
    apply_keystream(ciphertext, key)
}

/// Decrypting under the key that encrypted gives the message back, for every
/// message and every key.
pub proof fn lemma_decrypt_encrypt(m: Seq<u8>, k: Seq<u8>)
    ensures
        keystream_xor(keystream_xor(m, k), k) == m,
{
    let c = keystream_xor(m, k);
    assert forall|i: int| 0 <= i < m.len() implies #[trigger] keystream_xor(c, k)[i] == m[i] by {
        if k.len() != 0 {
            let (x, y) = (m[i], k[i % (k.len() as int)]);
            assert((x ^ y) ^ y == x) by (bit_vector);
        }
    }
    assert(keystream_xor(c, k) =~= m);
}

/// Decrypting under a key of the same length that differs from the one that
/// encrypted does not give the message back, once the message is at least as
/// long as the key.
pub proof fn lemma_wrong_key_garbles(m: Seq<u8>, k1: Seq<u8>, k2: Seq<u8>)
    requires
        k1.len() == k2.len(),
        k1 != k2,
        m.len() >= k1.len(),
    ensures
        keystream_xor(keystream_xor(m, k1), k2) != m,
{
    assert(k1.len() > 0) by {
        if k1.len() == 0 {
            assert(k1 =~= k2);
        }
    }
    assert(exists|j: int| 0 <= j < k1.len() && k1[j] != k2[j]) by {
        if forall|j: int| 0 <= j < k1.len() ==> k1[j] == k2[j] {
            assert(k1 =~= k2);
        }
    }
    let j = choose|j: int| 0 <= j < k1.len() && k1[j] != k2[j];
    let n: int = k1.len() as int;
    assert(j % n == j) by (nonlinear_arith)
        requires
            0 <= j < n,
    ;
    let (x, y, z) = (m[j], k1[j], k2[j]);
    assert((x ^ y) ^ z != x) by (bit_vector)
        requires
            y != z,
    ;
    assert(keystream_xor(keystream_xor(m, k1), k2)[j] != m[j]);
}

} // verus!
