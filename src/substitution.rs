//! The substitution cipher: every letter is replaced by the letter that a
//! permutation of the alphabet assigns to it.

use vstd::prelude::*;

use vstd::set_lib::{lemma_int_range, lemma_subset_equality, set_int_range};

use crate::{all_letters, check_message_from_letters, is_letter, CipherError, FIRST_LETTER};

verus! {

/// `p` holds each of the 26 lowercase letters exactly once: position `i`
/// gives the letter that stands for the plaintext letter `'a' + i`.
pub open spec fn is_permutation(p: Seq<u8>) -> bool {
    &&& p.len() == 26
    &&& all_letters(p)
    &&& p.no_duplicates()
}

/// The position at which `b` stands in `p`.
pub open spec fn index_in(p: Seq<u8>, b: u8) -> int {
    choose|i: int| 0 <= i < p.len() && p[i] == b
}

/// The substitution encryption of `m` through `p`.
pub open spec fn substitute_seq(m: Seq<u8>, p: Seq<u8>) -> Seq<u8> {
    m.map_values(|b: u8| p[b - 97])
}

/// The substitution decryption of `m` through `p`: each letter is replaced
/// by the letter whose position in `p` it holds.
pub open spec fn unsubstitute_seq(m: Seq<u8>, p: Seq<u8>) -> Seq<u8> {
    m.map_values(|b: u8| (index_in(p, b) + 97) as u8)
}

/// The error a substitution operation reports on these arguments, if any:
/// the permutation is checked before the message.
pub open spec fn substitution_failure(m: Seq<u8>, p: Seq<u8>) -> Option<CipherError> {
    if !is_permutation(p) {
        Some(CipherError::InvalidPermutation)
    } else if !all_letters(m) {
        Some(CipherError::InvalidMessage)
    } else {
        None
    }
}

/// A permutation holds every letter somewhere: 26 distinct letters leave
/// none of the 26 out.
pub proof fn lemma_permutation_covers(p: Seq<u8>, b: u8)
    requires
        is_permutation(p),
        is_letter(b),
    ensures
        exists|i: int| 0 <= i < p.len() && p[i] == b,
{
    let q = p.map_values(|x: u8| x as int);
    assert(q.no_duplicates()) by {
        assert forall|i: int, j: int| 0 <= i < q.len() && 0 <= j < q.len() && i != j implies q[i]
            != q[j] by {
            assert(p[i] != p[j]);
        }
    }
    q.unique_seq_to_set();
    let letters = set_int_range(97, 123);
    lemma_int_range(97, 123);
    assert(q.to_set().subset_of(letters)) by {
        assert forall|x: int| q.to_set().contains(x) implies letters.contains(x) by {
            let i = choose|i: int| 0 <= i < q.len() && q[i] == x;
            assert(is_letter(p[i]));
        }
    }
    vstd::set_lib::lemma_len_subset(q.to_set(), letters);
    lemma_subset_equality(q.to_set(), letters);
    assert(letters.contains(b as int));
    assert(q.to_set().contains(b as int));
    let i = choose|i: int| 0 <= i < q.len() && q[i] == b as int;
    assert(p[i] == b);
}

/// In a permutation, the position found for `p[i]` is `i`.
pub proof fn lemma_index_in_unique(p: Seq<u8>, i: int)
    requires
        is_permutation(p),
        0 <= i < 26,
    ensures
        index_in(p, p[i]) == i,
{
    let k = index_in(p, p[i]);
    assert(0 <= k < p.len() && p[k] == p[i]);
}

/// Succeeds exactly when `permutation` holds each lowercase letter once.
pub fn check_permutation(permutation: [u8; 26]) -> (r: Result<(), CipherError>)
    ensures
        r == (if is_permutation(permutation@) {
            Ok::<(), CipherError>(())
        } else {
            Err(CipherError::InvalidPermutation)
        }),
{
    let ghost p = permutation@;
    let mut seen: [bool; 26] = [false; 26];
    let mut i: usize = 0;
    while i < 26
        invariant
            p == permutation@,
            p.len() == 26,
            i <= 26,
            forall|j: int| 0 <= j < i ==> is_letter(#[trigger] p[j]),
            forall|j: int, k: int| 0 <= j < i && 0 <= k < i && j != k ==> p[j] != p[k],
            forall|c: int|
                0 <= c < 26 ==> (seen@[c] <==> exists|j: int|
                    0 <= j < i && #[trigger] p[j] == c + 97),
        decreases 26 - i,
    {
        let letter = permutation[i];
        if letter < 97 || letter > 122 {
            return Err(CipherError::InvalidPermutation);
        }
        let idx = (letter - FIRST_LETTER) as usize;
        if seen[idx] {
            proof {
                let j = choose|j: int| 0 <= j < i && #[trigger] p[j] == idx + 97;
                assert(p[j] == p[i as int]);
            }
            return Err(CipherError::InvalidPermutation);
        }
        seen[idx] = true;
        proof {
            assert forall|c: int| 0 <= c < 26 implies (seen@[c] <==> exists|j: int|
                0 <= j < i + 1 && #[trigger] p[j] == c + 97) by {
                if c == idx {
                    assert(p[i as int] == c + 97);
                } else if exists|j: int| 0 <= j < i + 1 && #[trigger] p[j] == c + 97 {
                    let j = choose|j: int| 0 <= j < i + 1 && #[trigger] p[j] == c + 97;
                    assert(0 <= j < i);
                }
            }
        }
        i += 1;
    }
    assert(all_letters(p));
    Ok(())
}

/// Encrypts `message` by replacing every letter `'a' + i` with
/// `permutation[i]`.
pub fn substitution_cipher(message: &[u8], permutation: [u8; 26]) -> (r: Result<
    Vec<u8>,
    CipherError,
>)
    ensures
        match r {
            Ok(c) => substitution_failure(message@, permutation@) is None && c@ == substitute_seq(
                message@,
                permutation@,
            ),
            Err(e) => substitution_failure(message@, permutation@) == Some(e),
        },
{
    if let Err(e) = check_permutation(permutation) {
        return Err(e);
    }
    if let Err(e) = check_message_from_letters(message) {
        return Err(e);
    }
    let mut out: Vec<u8> = Vec::new();
    let mut i: usize = 0;
    while i < message.len()
        invariant
            i <= message@.len(),
            all_letters(message@),
            out@.len() == i,
            forall|j: int|
                0 <= j < i ==> out@[j] == permutation@[#[trigger] message@[j] - 97],
        decreases message@.len() - i,
    {
        let b = message[i];
        out.push(permutation[(b - FIRST_LETTER) as usize]);
        i += 1;
    }
    assert(out@ =~= substitute_seq(message@, permutation@));
    Ok(out)
}

/// The first position of `letter` in `permutation`, or `None` where it
/// does not occur.
fn index_in_permutation(letter: u8, permutation: [u8; 26]) -> (r: Option<usize>)
    ensures
        match r {
            Some(i) => i < 26 && permutation@[i as int] == letter && forall|j: int|
                0 <= j < i ==> permutation@[j] != letter,
            None => forall|j: int| 0 <= j < 26 ==> permutation@[j] != letter,
        },
{
    let mut i: usize = 0;
    while i < 26
        invariant
            i <= 26,
            forall|j: int| 0 <= j < i ==> permutation@[j] != letter,
        decreases 26 - i,
    {
        if permutation[i] == letter {
            return Some(i);
        }
        i += 1;
    }
    None
}

/// Decrypts `encrypted_message`, which `substitution_cipher` produced with
/// the same `permutation`: every letter is replaced by `'a' + i`, where `i`
/// is its position in `permutation`.
pub fn substitution_cipher_decrypt(encrypted_message: &[u8], permutation: [u8; 26]) -> (r:
    Result<Vec<u8>, CipherError>)
    ensures
        match r {
            Ok(c) => substitution_failure(encrypted_message@, permutation@) is None && c@
                == unsubstitute_seq(encrypted_message@, permutation@),
            Err(e) => substitution_failure(encrypted_message@, permutation@) == Some(e),
        },
{
    if let Err(e) = check_permutation(permutation) {
        return Err(e);
    }
    if let Err(e) = check_message_from_letters(encrypted_message) {
        return Err(e);
    }
    let ghost p = permutation@;
    let mut out: Vec<u8> = Vec::new();
    let mut i: usize = 0;
    while i < encrypted_message.len()
        invariant
            p == permutation@,
            is_permutation(p),
            i <= encrypted_message@.len(),
            all_letters(encrypted_message@),
            out@.len() == i,
            forall|j: int|
                0 <= j < i ==> out@[j] == (index_in(p, #[trigger] encrypted_message@[j])
                    + 97) as u8,
        decreases encrypted_message@.len() - i,
    {
        let b = encrypted_message[i];
        match index_in_permutation(b, permutation) {
            Some(k) => {
                proof {
                    lemma_index_in_unique(p, k as int);
                }
                out.push(k as u8 + FIRST_LETTER);
            },
            None => {
                proof {
                    lemma_permutation_covers(p, b);
                }
                return Err(CipherError::LookupFailure);
            },
        }
        i += 1;
    }
    assert(out@ =~= unsubstitute_seq(encrypted_message@, p));
    Ok(out)
}

/// Decrypting through a permutation undoes encrypting through it: for every
/// permutation and every message of lowercase letters, the ciphertext is
/// again made of lowercase letters and decrypts to the message.
pub proof fn lemma_substitution_round_trip(m: Seq<u8>, p: Seq<u8>)
    requires
        is_permutation(p),
        all_letters(m),
    ensures
        all_letters(substitute_seq(m, p)),
        unsubstitute_seq(substitute_seq(m, p), p) == m,
{
    let c = substitute_seq(m, p);
    assert forall|j: int| 0 <= j < m.len() implies #[trigger] unsubstitute_seq(c, p)[j] == m[j] by {
        lemma_index_in_unique(p, m[j] - 97);
    }
    assert(unsubstitute_seq(c, p) =~= m);
}

} // verus!
