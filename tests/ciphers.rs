use crypto::ceasar::{ceasar_cipher, ceasar_cipher_decrypt};
use crypto::check_message_from_letters;
use crypto::substitution::{check_permutation, substitution_cipher, substitution_cipher_decrypt};
use crypto::CipherError;

const REVERSED: &[u8; 26] = b"zyxwvutsrqponmlkjihgfedcba";
const ALPHABET: &[u8; 26] = b"abcdefghijklmnopqrstuvwxyz";

#[test]
fn message_from_letters() {
    let message = b"hello";
    assert_eq!(check_message_from_letters(message), Ok(()));
}

#[test]
fn message_not_from_letters() {
    let message = [97, 98, 53];
    assert_eq!(
        check_message_from_letters(&message),
        Err(CipherError::InvalidMessage)
    );
}

#[test]
fn not_a_permutation() {
    let permutation = b"asdasdasdasdasdasdasdasdas";
    assert_eq!(
        check_permutation(*permutation),
        Err(CipherError::InvalidPermutation)
    );
}

#[test]
fn permutation() {
    let permutation = b"zyxwvutsrqponmlkjihgfedcba";
    assert_eq!(check_permutation(*permutation), Ok(()));
}

#[test]
fn substitution_works() {
    let message = b"hello";
    let permutation = b"zyxwvutsrqponmlkjihgfedcba";
    let encrypted_message = substitution_cipher(message, *permutation).unwrap();
    let decrypted_message = substitution_cipher_decrypt(&encrypted_message, *permutation).unwrap();

    assert_eq!(message, &decrypted_message[..]);
}

#[test]
fn caesar_encrypts_hello() {
    assert_eq!(ceasar_cipher(b"hello", 15).unwrap(), b"wtaad".to_vec());
}

#[test]
fn caesar_decrypts_hello() {
    assert_eq!(ceasar_cipher_decrypt(b"wtaad", 15).unwrap(), b"hello".to_vec());
}

#[test]
fn caesar_wraps_past_z() {
    assert_eq!(ceasar_cipher(b"xyz", 3).unwrap(), b"abc".to_vec());
    assert_eq!(ceasar_cipher_decrypt(b"abc", 3).unwrap(), b"xyz".to_vec());
}

#[test]
fn caesar_round_trip_every_key() {
    let message = b"thequickbrownfoxjumpsoverthelazydog";
    for key in 0..26u8 {
        let encrypted = ceasar_cipher(message, key).unwrap();
        assert!(encrypted.iter().all(|b| (97..=122).contains(b)));
        assert_eq!(ceasar_cipher_decrypt(&encrypted, key).unwrap(), message.to_vec());
    }
}

#[test]
fn caesar_key_zero_is_identity() {
    assert_eq!(ceasar_cipher(b"hello", 0).unwrap(), b"hello".to_vec());
    assert_eq!(ceasar_cipher_decrypt(b"hello", 0).unwrap(), b"hello".to_vec());
}

#[test]
fn caesar_key_last_shifts_back_one() {
    assert_eq!(ceasar_cipher(b"hello", 25).unwrap(), b"gdkkn".to_vec());
    assert_eq!(
        ceasar_cipher(ALPHABET, 25).unwrap(),
        ceasar_cipher_decrypt(ALPHABET, 1).unwrap()
    );
}

#[test]
fn caesar_rejects_key_out_of_range() {
    assert_eq!(ceasar_cipher(b"hello", 26), Err(CipherError::InvalidKey));
    assert_eq!(ceasar_cipher_decrypt(b"hello", 255), Err(CipherError::InvalidKey));
}

#[test]
fn caesar_key_checked_before_message() {
    assert_eq!(ceasar_cipher(b"Hello", 26), Err(CipherError::InvalidKey));
}

#[test]
fn caesar_rejects_non_letters() {
    assert_eq!(ceasar_cipher(&[97, 98, 53], 3), Err(CipherError::InvalidMessage));
    assert_eq!(ceasar_cipher_decrypt(b"hello world", 3), Err(CipherError::InvalidMessage));
    assert_eq!(ceasar_cipher(b"{", 3), Err(CipherError::InvalidMessage));
    assert_eq!(ceasar_cipher(b"`", 3), Err(CipherError::InvalidMessage));
}

#[test]
fn substitution_encrypts_hello() {
    assert_eq!(substitution_cipher(b"hello", *REVERSED).unwrap(), b"svool".to_vec());
}

#[test]
fn substitution_decrypts_hello() {
    assert_eq!(
        substitution_cipher_decrypt(b"svool", *REVERSED).unwrap(),
        b"hello".to_vec()
    );
}

#[test]
fn substitution_identity_permutation() {
    assert_eq!(substitution_cipher(b"hello", *ALPHABET).unwrap(), b"hello".to_vec());
}

#[test]
fn substitution_round_trip_irregular_permutation() {
    let permutation = b"qwertyuiopasdfghjklzxcvbnm";
    let message = b"thequickbrownfoxjumpsoverthelazydog";
    let encrypted = substitution_cipher(message, *permutation).unwrap();
    assert_eq!(&encrypted[..3], b"zit");
    assert_eq!(
        substitution_cipher_decrypt(&encrypted, *permutation).unwrap(),
        message.to_vec()
    );
    assert_eq!(
        substitution_cipher_decrypt(b"zit", *permutation).unwrap(),
        b"the".to_vec()
    );
}

#[test]
fn permutation_rejects_repeated_letter() {
    let mut permutation = *ALPHABET;
    permutation[25] = b'a';
    assert_eq!(check_permutation(permutation), Err(CipherError::InvalidPermutation));
}

#[test]
fn permutation_rejects_byte_out_of_range() {
    let mut permutation = *ALPHABET;
    permutation[3] = b'D';
    assert_eq!(check_permutation(permutation), Err(CipherError::InvalidPermutation));
    permutation[3] = 123;
    assert_eq!(check_permutation(permutation), Err(CipherError::InvalidPermutation));
}

#[test]
fn substitution_rejects_bad_permutation() {
    let permutation = b"asdasdasdasdasdasdasdasdas";
    assert_eq!(
        substitution_cipher(b"hello", *permutation),
        Err(CipherError::InvalidPermutation)
    );
    assert_eq!(
        substitution_cipher_decrypt(b"hello", *permutation),
        Err(CipherError::InvalidPermutation)
    );
}

#[test]
fn substitution_permutation_checked_before_message() {
    let permutation = b"asdasdasdasdasdasdasdasdas";
    assert_eq!(
        substitution_cipher(b"HELLO", *permutation),
        Err(CipherError::InvalidPermutation)
    );
}

#[test]
fn substitution_rejects_non_letters() {
    assert_eq!(
        substitution_cipher(&[97, 98, 53], *REVERSED),
        Err(CipherError::InvalidMessage)
    );
    assert_eq!(
        substitution_cipher_decrypt(b"sv ool", *REVERSED),
        Err(CipherError::InvalidMessage)
    );
}

#[test]
fn empty_message_everywhere() {
    assert_eq!(check_message_from_letters(b""), Ok(()));
    assert_eq!(ceasar_cipher(b"", 7).unwrap(), Vec::<u8>::new());
    assert_eq!(ceasar_cipher_decrypt(b"", 7).unwrap(), Vec::<u8>::new());
    assert_eq!(substitution_cipher(b"", *REVERSED).unwrap(), Vec::<u8>::new());
    assert_eq!(substitution_cipher_decrypt(b"", *REVERSED).unwrap(), Vec::<u8>::new());
}
