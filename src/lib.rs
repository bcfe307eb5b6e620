//! Classical ciphers over messages of ASCII lowercase letters: the Caesar
//! shift and the general alphabet substitution, each with its inverse.
//!
//! Every operation checks its arguments before it transforms anything and
//! reports a `CipherError` instead of producing partial output.

use vstd::prelude::*;

pub mod ceasar;
pub mod substitution;

use crate::ceasar::{caesar_decrypt_seq, caesar_encrypt_seq, caesar_failure};
use crate::substitution::{
    is_permutation, substitute_seq, substitution_failure, unsubstitute_seq,
};

verus! {

/// Why a cipher operation refused its arguments.
#[derive(Debug, Clone, Copy, PartialEq, Eq, Structural)]
pub enum CipherError {
    /// A message byte lies outside `b'a'..=b'z'`.
    InvalidMessage,
    /// A Caesar key lies outside `0..=25`.
    InvalidKey,
    /// A substitution table is not a permutation of the 26 lowercase letters.
    InvalidPermutation,
    /// A ciphertext byte does not occur in the substitution table.
    LookupFailure,
}

/// The number of letters in the alphabet.
pub const ALPHABET_LEN: u8 = 26;

/// The byte of `'a'`, the first letter.
pub const FIRST_LETTER: u8 = 97;

/// `b` is an ASCII lowercase letter.
pub open spec fn is_letter(b: u8) -> bool {
    97 <= b <= 122
}

/// Every byte of `s` is an ASCII lowercase letter.
pub open spec fn all_letters(s: Seq<u8>) -> bool {
    forall|i: int| 0 <= i < s.len() ==> is_letter(#[trigger] s[i])
}

/// Succeeds exactly when every byte of `message` is an ASCII lowercase letter.
pub fn check_message_from_letters(message: &[u8]) -> (r: Result<(), CipherError>)
    ensures
        r == (if all_letters(message@) {
            Ok::<(), CipherError>(())
        } else {
            Err(CipherError::InvalidMessage)
        }),
{
    let mut i: usize = 0;
    while i < message.len()
        invariant
            i <= message@.len(),
            forall|j: int| 0 <= j < i ==> is_letter(#[trigger] message@[j]),
        decreases message@.len() - i,
    {
        let b = message[i];
        if b < 97 || b > 122 {
            return Err(CipherError::InvalidMessage);
        }
        i += 1;
    }
    Ok(())
}

/// The empty message is valid and every operation maps it to the empty
/// message: the Caesar ones under any valid key, the substitution ones
/// through any permutation.
pub proof fn lemma_empty_message(key: u8, p: Seq<u8>)
    ensures
        all_letters(Seq::<u8>::empty()),
        key < 26 ==> caesar_failure(Seq::<u8>::empty(), key) is None,
        caesar_encrypt_seq(Seq::<u8>::empty(), key) == Seq::<u8>::empty(),
        caesar_decrypt_seq(Seq::<u8>::empty(), key) == Seq::<u8>::empty(),
        is_permutation(p) ==> substitution_failure(Seq::<u8>::empty(), p) is None,
        substitute_seq(Seq::<u8>::empty(), p) == Seq::<u8>::empty(),
        unsubstitute_seq(Seq::<u8>::empty(), p) == Seq::<u8>::empty(),
{
    assert(caesar_encrypt_seq(Seq::<u8>::empty(), key) =~= Seq::<u8>::empty());
    assert(caesar_decrypt_seq(Seq::<u8>::empty(), key) =~= Seq::<u8>::empty());
    assert(substitute_seq(Seq::<u8>::empty(), p) =~= Seq::<u8>::empty());
    assert(unsubstitute_seq(Seq::<u8>::empty(), p) =~= Seq::<u8>::empty());
}

} // verus!
