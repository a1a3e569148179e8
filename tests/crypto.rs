use whisperer::kem::{decrypt, encrypt};
use whisperer::vector::{and_vector, rand_byte_vector, KEY_SIZE};

fn key(seed: u8) -> Vec<u8> {
    (0..KEY_SIZE as u8).map(|i| i.wrapping_mul(37).wrapping_add(seed)).collect()
}

#[test]
fn and_vector_exact_value() {
    let a = vec![0b1100u8, 0xFF, 0x00];
    let b = vec![0b1010u8, 0x0F, 0xFF];
    assert_eq!(and_vector(&a, &b), vec![0b1000u8, 0x0F, 0x00]);
}

#[test]
fn and_is_associative_and_commutative() {
    let (a, b, c) = (key(1), key(90), key(200));
    let left = and_vector(&and_vector(&a, &b), &c);
    assert_eq!(left, and_vector(&a, &and_vector(&b, &c)));
    assert_eq!(left, and_vector(&and_vector(&a, &c), &b));
}

#[test]
fn random_vectors_have_requested_length() {
    assert_eq!(rand_byte_vector(KEY_SIZE).len(), KEY_SIZE);
    assert_eq!(rand_byte_vector(0).len(), 0);
    assert_ne!(rand_byte_vector(KEY_SIZE), rand_byte_vector(KEY_SIZE));
}

#[test]
fn encrypt_exact_value() {
    let k = vec![0xFFu8; KEY_SIZE];
    assert_eq!(encrypt(&vec![1, 2, 3], &k), vec![0xFE, 0xFD, 0xFC]);
    let mut k2 = vec![0u8; KEY_SIZE];
    k2[0] = 1;
    let m = vec![0u8; KEY_SIZE + 2];
    let c = encrypt(&m, &k2);
    assert_eq!(c[0], 1);
    assert_eq!(c[KEY_SIZE], 1);
    assert_eq!(c[1], 0);
}

#[test]
fn decrypt_inverts_encrypt() {
    let k = key(7);
    for m in [Vec::new(), b"hello".to_vec(), b"a longer message than the key itself".to_vec()] {
        let c = encrypt(&m, &k);
        assert_eq!(c.len(), m.len());
        assert_eq!(decrypt(&c, &k), m);
    }
}

#[test]
fn wrong_key_garbles() {
    let m = b"sixteen byte msg and more".to_vec();
    let c = encrypt(&m, &key(3));
    let garbled = decrypt(&c, &key(4));
    assert_eq!(garbled.len(), m.len());
    assert_ne!(garbled, m);
}
