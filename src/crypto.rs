//! Authenticated encryption, password hashing and nonces, through
//! `sodiumoxide`.
use vstd::prelude::*;

verus! {

/// The number of bytes in a secret key.
pub const KEY_BYTES: usize = 32;

/// The number of bytes in a nonce.
pub const NONCE_BYTES: usize = 24;

/// The number of bytes by which a sealed box is longer than its message.
pub const MAC_BYTES: usize = 16;

/// What `secretbox::seal` makes of a message under a nonce and a key.
pub uninterp spec fn sealed(m: Seq<u8>, nonce: Seq<u8>, key: Seq<u8>) -> Seq<u8>;

/// What `secretbox::open` recovers from a sealed box under a nonce and a
/// key, if it authenticates.
pub uninterp spec fn opened(c: Seq<u8>, nonce: Seq<u8>, key: Seq<u8>) -> Option<Seq<u8>>;

/// The SHA-256 digest of some bytes.
pub uninterp spec fn sha256_digest(b: Seq<u8>) -> Seq<u8>;

/// Relies on `secretbox::seal` (XSalsa20-Poly1305): it is deterministic in
/// the message, the nonce and the key, and prepends a tag of `MAC_BYTES`.
#[verifier::external_body]
pub fn seal(m: &[u8], nonce: &[u8; 24], key: &[u8; 32]) -> (r: Vec<u8>)
    ensures
        r@ == sealed(m@, nonce@, key@),
        r@.len() == m@.len() + MAC_BYTES,
{
    sodiumoxide::crypto::secretbox::seal(
        m,
        &sodiumoxide::crypto::secretbox::Nonce(*nonce),
        &sodiumoxide::crypto::secretbox::Key(*key),
    )
}

/// Relies on `secretbox::open`: it is deterministic, and a box made by
/// `secretbox::seal` under the same nonce and key opens to its message.
#[verifier::external_body]
pub fn open(c: &[u8], nonce: &[u8; 24], key: &[u8; 32]) -> (r: Option<Vec<u8>>)
    ensures
        match r {
            Some(m) => opened(c@, nonce@, key@) == Some(m@),
            None => opened(c@, nonce@, key@) is None,
        },
        forall|m: Seq<u8>| c@ == sealed(m, nonce@, key@) ==> (r is Some && r->Some_0@ == m),
{
    sodiumoxide::crypto::secretbox::open(
        c,
        &sodiumoxide::crypto::secretbox::Nonce(*nonce),
        &sodiumoxide::crypto::secretbox::Key(*key),
    ).ok()
}

/// Relies on `secretbox::gen_nonce`: random bytes; nothing is known of them.
#[verifier::external_body]
pub fn gen_nonce() -> (r: [u8; 24]) {
    sodiumoxide::crypto::secretbox::gen_nonce().0
}

/// Relies on `hash::sha256::hash`: the digest of the given bytes.
#[verifier::external_body]
pub fn sha256(b: &[u8]) -> (r: [u8; 32])
    ensures
        r@ == sha256_digest(b@),
{
    sodiumoxide::crypto::hash::sha256::hash(b).0
}

/// A secret key made of the given bytes, if there are exactly `KEY_BYTES`
/// of them.
pub fn key_from_slice(b: &[u8]) -> (r: Option<[u8; 32]>)
    ensures
        match r {
            Some(k) => b@.len() == KEY_BYTES && k@ == b@,
            None => b@.len() != KEY_BYTES,
        },
{
    if b.len() != KEY_BYTES {
        return None;
    }
    let mut k: [u8; 32] = [0u8; 32];
    let mut i: usize = 0;
    while i < KEY_BYTES
        invariant
            b@.len() == KEY_BYTES,
            i <= KEY_BYTES,
            k@.len() == KEY_BYTES,
            forall|j: int| 0 <= j < i ==> k@[j] == b@[j],
        decreases KEY_BYTES - i,
    {
        k[i] = b[i];
        i = i + 1;
    }
    assert(k@ =~= b@);
    Some(k)
}

/// Overwrites a secret key with zeros.
pub fn wipe_key(k: &mut [u8; 32])
    ensures
        forall|j: int| 0 <= j < KEY_BYTES ==> final(k)@[j] == 0,
{
    let mut i: usize = 0;
    while i < KEY_BYTES
        invariant
            i <= KEY_BYTES,
            k@.len() == KEY_BYTES,
            forall|j: int| 0 <= j < i ==> k@[j] == 0,
        decreases KEY_BYTES - i,
    {
        k[i] = 0;
        i = i + 1;
    }
}

} // verus!
