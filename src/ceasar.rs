//! The Caesar cipher: every letter is shifted by a fixed key, cyclically
//! through the alphabet.

use vstd::prelude::*;

use crate::{all_letters, check_message_from_letters, CipherError, ALPHABET_LEN, FIRST_LETTER};

verus! {

/// The letter `key` places after `b`, wrapping from `'z'` to `'a'`.
pub open spec fn shift_letter(b: u8, key: u8) -> u8 {
    ((b - 97 + key) % 26 + 97) as u8
}

/// The letter `key` places before `b`, wrapping from `'a'` to `'z'`.
pub open spec fn unshift_letter(b: u8, key: u8) -> u8 {
    ((b - 97 + 26 - key) % 26 + 97) as u8
}

/// The Caesar encryption of `m` under `key`.
pub open spec fn caesar_encrypt_seq(m: Seq<u8>, key: u8) -> Seq<u8> {
    m.map_values(|b: u8| shift_letter(b, key))
}

/// The Caesar decryption of `m` under `key`.
pub open spec fn caesar_decrypt_seq(m: Seq<u8>, key: u8) -> Seq<u8> {
    m.map_values(|b: u8| unshift_letter(b, key))
}

/// The error a Caesar operation reports on these arguments, if any:
/// the key is checked before the message.
pub open spec fn caesar_failure(m: Seq<u8>, key: u8) -> Option<CipherError> {
    if key >= 26 {
        Some(CipherError::InvalidKey)
    } else if !all_letters(m) {
        Some(CipherError::InvalidMessage)
    } else {
        None
    }
}

/// Succeeds exactly when `key` lies in `0..=25`.
fn check_ceasar_key(key: u8) -> (r: Result<(), CipherError>)
    ensures
        r == (if key < 26 {
            Ok::<(), CipherError>(())
        } else {
            Err(CipherError::InvalidKey)
        }),
{
    if key < 26 {
        Ok(())
    } else {
        Err(CipherError::InvalidKey)
    }
}

/// Encrypts `message` with the Caesar cipher under `key`.
pub fn ceasar_cipher(message: &[u8], key: u8) -> (r: Result<Vec<u8>, CipherError>)
    ensures
        match r {
            Ok(c) => caesar_failure(message@, key) is None && c@ == caesar_encrypt_seq(
                message@,
                key,
            ),
            Err(e) => caesar_failure(message@, key) == Some(e),
        },
{
    if let Err(e) = check_ceasar_key(key) {
        return Err(e);
    }
    if let Err(e) = check_message_from_letters(message) {
        return Err(e);
    }
    let mut out: Vec<u8> = Vec::new();
    let mut i: usize = 0;
    while i < message.len()
        invariant
            i <= message@.len(),
            key < 26,
            all_letters(message@),
            out@.len() == i,
            forall|j: int| 0 <= j < i ==> out@[j] == shift_letter(#[trigger] message@[j], key),
        decreases message@.len() - i,
    {
        let b = message[i];
        out.push((b - FIRST_LETTER + key) % 26 + FIRST_LETTER);
        i += 1;
    }
    assert(out@ =~= caesar_encrypt_seq(message@, key));
    Ok(out)
}

/// Decrypts `encrypted_message` with the Caesar cipher under `key`.
pub fn ceasar_cipher_decrypt(encrypted_message: &[u8], key: u8) -> (r: Result<
    Vec<u8>,
    CipherError,
>)
    ensures
        match r {
            Ok(c) => caesar_failure(encrypted_message@, key) is None && c@ == caesar_decrypt_seq(
                encrypted_message@,
                key,
            ),
            Err(e) => caesar_failure(encrypted_message@, key) == Some(e),
        },
{
    if let Err(e) = check_ceasar_key(key) {
        return Err(e);
    }
    if let Err(e) = check_message_from_letters(encrypted_message) {
        return Err(e);
    }
    let mut out: Vec<u8> = Vec::new();
    let mut i: usize = 0;
    while i < encrypted_message.len()
        invariant
            i <= encrypted_message@.len(),
            key < 26,
            all_letters(encrypted_message@),
            out@.len() == i,
            forall|j: int|
                0 <= j < i ==> out@[j] == unshift_letter(#[trigger] encrypted_message@[j], key),
        decreases encrypted_message@.len() - i,
    {
        let b = encrypted_message[i];
        out.push((b - FIRST_LETTER + ALPHABET_LEN - key) % 26 + FIRST_LETTER);
        i += 1;
    }
    assert(out@ =~= caesar_decrypt_seq(encrypted_message@, key));
    Ok(out)
}

/// Decrypting under a key undoes encrypting under it: for every message of
/// lowercase letters and every key in `0..=25`, the ciphertext is again made
/// of lowercase letters and decrypts to the message.
pub proof fn lemma_caesar_round_trip(m: Seq<u8>, key: u8)
    requires
        all_letters(m),
        key < 26,
    ensures
        all_letters(caesar_encrypt_seq(m, key)),
        caesar_decrypt_seq(caesar_encrypt_seq(m, key), key) == m,
{
    let c = caesar_encrypt_seq(m, key);
    assert(caesar_decrypt_seq(c, key) =~= m);
}

/// Key 0 leaves every message of lowercase letters as it is, both ways.
pub proof fn lemma_caesar_key_zero(m: Seq<u8>)
    requires
        all_letters(m),
    ensures
        caesar_encrypt_seq(m, 0) == m,
        caesar_decrypt_seq(m, 0) == m,
{
    assert(caesar_encrypt_seq(m, 0) =~= m);
    assert(caesar_decrypt_seq(m, 0) =~= m);
}

/// Shifting forward by 25 is shifting backward by 1.
pub proof fn lemma_caesar_key_last(m: Seq<u8>)
    requires
        all_letters(m),
    ensures
        caesar_encrypt_seq(m, 25) == caesar_decrypt_seq(m, 1),
{
    assert(caesar_encrypt_seq(m, 25) =~= caesar_decrypt_seq(m, 1));
}

} // verus!
