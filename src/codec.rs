//! The value codec: a value becomes a JSON document, the document is framed
//! with `bincode`, and the frame is sealed when a password is set.
use vstd::prelude::*;
use vstd::utf8::{decode_utf8, encode_utf8, valid_utf8};
use crate::crypto::{key_from_slice, open, opened, seal, sealed, wipe_key, KEY_BYTES};
use crate::error::{ErrorType, KVError};
use crate::secure::{sec_bytes, sec_content, sec_new, sec_zero_out};

verus! {

#[verifier::external_type_specification]
#[verifier::external_body]
pub struct ExJsonValue(serde_json::Value);

/// `256` to the power `k`.
pub open spec fn pow256(k: nat) -> nat
    decreases k,
{
    if k == 0 {
        1
    } else {
        256 * pow256((k - 1) as nat)
    }
}

/// The number that little-endian bytes stand for.
pub open spec fn le_value(b: Seq<u8>) -> nat
    decreases b.len(),
{
    if b.len() == 0 {
        0
    } else {
        b[0] as nat + 256 * le_value(b.drop_first())
    }
}

/// The `k` low bytes of `n`, least significant first.
pub open spec fn le_bytes(n: nat, k: nat) -> Seq<u8>
    decreases k,
{
    if k == 0 {
        Seq::empty()
    } else {
        seq![(n % 256) as u8] + le_bytes(n / 256, (k - 1) as nat)
    }
}

/// How `bincode` writes a string: its UTF-8 length as eight little-endian
/// bytes, then its UTF-8 bytes.
pub open spec fn framed(text: Seq<char>) -> Seq<u8> {
    le_bytes(encode_utf8(text).len(), 8) + encode_utf8(text)
}

/// How `bincode` reads a string: eight little-endian bytes give a length,
/// that many bytes follow and are valid UTF-8; bytes after them are ignored.
pub open spec fn unframed(b: Seq<u8>) -> Option<Seq<char>> {
    if b.len() < 8 {
        None
    } else {
        let n = le_value(b.take(8));
        if b.len() < 8 + n {
            None
        } else {
            let body = b.subrange(8, 8 + n as int);
            if valid_utf8(body) {
                Some(decode_utf8(body))
            } else {
                None
            }
        }
    }
}

/// Little-endian bytes of a number that fits read back as that number.
pub proof fn lemma_le_round_trip(n: nat, k: nat)
    requires
        n < pow256(k),
    ensures
        le_bytes(n, k).len() == k,
        le_value(le_bytes(n, k)) == n,
    decreases k,
{
    if k > 0 {
        let p = pow256((k - 1) as nat);
        assert(n / 256 < p) by (nonlinear_arith)
            requires
                n < 256 * p,
        ;
        lemma_le_round_trip(n / 256, (k - 1) as nat);
        let b = le_bytes(n, k);
        assert(b.drop_first() =~= le_bytes(n / 256, (k - 1) as nat));
        assert((n % 256) as nat + 256 * (n / 256) == n) by (nonlinear_arith);
    }
}

/// A frame that fits in memory reads back as the string it was written for.
pub proof fn lemma_frame_fits(text: Seq<char>, n: nat)
    requires
        framed(text).len() == n,
        n <= usize::MAX,
    ensures
        unframed(framed(text)) == Some(text),
{
    lemma_le_len(encode_utf8(text).len(), 8);
    reveal_with_fuel(pow256, 9);
    assert(pow256(8) == 0x1_0000_0000_0000_0000);
    lemma_unframe_frame(text);
}

/// `le_bytes` gives as many bytes as asked.
proof fn lemma_le_len(n: nat, k: nat)
    ensures
        le_bytes(n, k).len() == k,
    decreases k,
{
    if k > 0 {
        lemma_le_len(n / 256, (k - 1) as nat);
    }
}

/// A frame reads back as the string it was written for.
pub proof fn lemma_unframe_frame(text: Seq<char>)
    requires
        encode_utf8(text).len() < pow256(8),
    ensures
        unframed(framed(text)) == Some(text),
{
    let body = encode_utf8(text);
    let b = framed(text);
    lemma_le_round_trip(body.len(), 8);
    assert(b.take(8) =~= le_bytes(body.len(), 8));
    assert(b.subrange(8, 8 + body.len() as int) =~= body);
    vstd::utf8::encode_utf8_valid_utf8(text);
    vstd::utf8::encode_utf8_decode_utf8(text);
}

/// Whether `serde_json` parses a text as a JSON document.
pub uninterp spec fn json_accepts(text: Seq<char>) -> bool;

/// Relies on `bincode::serialize` on a string (fixed-width little-endian
/// integers), which cannot fail: a `u64` length and the UTF-8 bytes.
#[verifier::external_body]
fn frame_text(text: &String) -> (r: Vec<u8>)
    ensures
        r@ == framed(text@),
{
    match bincode::serialize(text) {
        Ok(b) => b,
        Err(_) => Vec::new(),
    }
}

/// Relies on `bincode::deserialize` into a string (fixed-width
/// little-endian integers, trailing bytes allowed): a `u64` length, then
/// that many bytes, which must be UTF-8.
#[verifier::external_body]
fn unframe_text(b: &[u8]) -> (r: Option<String>)
    ensures
        match r {
            Some(t) => unframed(b@) == Some(t@),
            None => unframed(b@) is None,
        },
{
    bincode::deserialize::<String>(b).ok()
}

/// Relies on `Display` of `serde_json::Value`: the compact JSON text of the
/// value.
#[verifier::external_body]
fn json_text(value: &serde_json::Value) -> (r: String) {
    value.to_string()
}

/// Relies on `serde_json::from_str`: whether a text parses depends on the
/// text alone.
#[verifier::external_body]
fn json_parse(text: &str) -> (r: Option<serde_json::Value>)
    ensures
        r is Some <==> json_accepts(text@),
{
    serde_json::from_str::<serde_json::Value>(text).ok()
}

/// The bytes of a password, if one is set.
pub open spec fn pwd_view(pwd: Option<secstr::SecVec<u8>>) -> Option<Seq<u8>> {
    match pwd {
        Some(p) => Some(sec_content(p)),
        None => None,
    }
}

/// Whether a secret key can be made of the password, if one is set.
pub open spec fn key_ok(pwd: Option<Seq<u8>>) -> bool {
    match pwd {
        Some(k) => k.len() == KEY_BYTES,
        None => true,
    }
}

/// The blob that stores a JSON text: its frame, sealed under the password
/// when there is one.
pub open spec fn encoded(text: Seq<char>, pwd: Option<Seq<u8>>, nonce: Seq<u8>) -> Seq<u8> {
    match pwd {
        Some(k) => sealed(framed(text), nonce, k),
        None => framed(text),
    }
}

/// The JSON text that a blob stores, or why it cannot be read.
pub open spec fn decoded(blob: Seq<u8>, pwd: Option<Seq<u8>>, nonce: Seq<u8>) -> Result<
    Seq<char>,
    ErrorType,
> {
    let plain = match pwd {
        Some(k) => if k.len() != KEY_BYTES {
            None
        } else {
            opened(blob, nonce, k)
        },
        None => Some(blob),
    };
    match plain {
        None => Err(ErrorType::CryptoError),
        Some(m) => match unframed(m) {
            Some(t) => Ok(t),
            None => Err(ErrorType::SerializationError),
        },
    }
}

/// What reading a blob as a JSON value gives: `Ok` where the stored text
/// parses, else the error.
pub open spec fn decoded_value(blob: Seq<u8>, pwd: Option<Seq<u8>>, nonce: Seq<u8>) -> Result<
    (),
    ErrorType,
> {
    match decoded(blob, pwd, nonce) {
        Ok(t) => if json_accepts(t) {
            Ok(())
        } else {
            Err(ErrorType::SerializationError)
        },
        Err(e) => Err(e),
    }
}

/// Without a password no sealing happens: a text is stored as its bare
/// frame, and that blob always decodes back to the text.
pub proof fn lemma_plain_round_trip(text: Seq<char>, nonce: Seq<u8>)
    requires
        framed(text).len() <= usize::MAX,
    ensures
        encoded(text, None, nonce) == framed(text),
        decoded(encoded(text, None, nonce), None, nonce) == Ok::<Seq<char>, ErrorType>(text),
{
    lemma_frame_fits(text, framed(text).len());
}

/// Encodes a JSON text into a blob: framed, and sealed with the password
/// as key and the store's nonce when a password is set.
pub fn encode_text(text: &String, pwd: &Option<secstr::SecVec<u8>>, nonce: &[u8; 24]) -> (r: Result<
    secstr::SecVec<u8>,
    KVError,
>)
    ensures
        match r {
            Ok(b) => key_ok(pwd_view(*pwd)) && sec_content(b) == encoded(
                text@,
                pwd_view(*pwd),
                nonce@,
            ),
            Err(e) => !key_ok(pwd_view(*pwd)) && e.error == ErrorType::CryptoError,
        },
{
    let frame = frame_text(text);
    match pwd {
        Some(p) => {
            match key_from_slice(sec_bytes(p)) {
                Some(mut key) => {
                    let boxed = seal(frame.as_slice(), nonce, &key);
                    wipe_key(&mut key);
                    Ok(sec_new(boxed))
                },
                None => Err(KVError::of(ErrorType::CryptoError)),
            }
        },
        None => Ok(sec_new(frame)),
    }
}

/// Decodes a blob back into the JSON text it stores. Any plaintext that was
/// decrypted on the way is wiped before it is released.
pub fn decode_text(blob: &secstr::SecVec<u8>, pwd: &Option<secstr::SecVec<u8>>, nonce: &[u8; 24]) -> (r:
    Result<String, KVError>)
    ensures
        match r {
            Ok(t) => decoded(sec_content(*blob), pwd_view(*pwd), nonce@) == Ok::<
                Seq<char>,
                ErrorType,
            >(t@),
            Err(e) => decoded(sec_content(*blob), pwd_view(*pwd), nonce@) == Err::<
                Seq<char>,
                ErrorType,
            >(e.error),
        },
        forall|t: Seq<char>|
            key_ok(pwd_view(*pwd)) && sec_content(*blob) == #[trigger] encoded(
                t,
                pwd_view(*pwd),
                nonce@,
            ) ==> (r is Ok && r->Ok_0@ == t),
{
    match pwd {
        Some(p) => {
            match key_from_slice(sec_bytes(p)) {
                Some(mut key) => {
                    let opened_box = open(sec_bytes(blob), nonce, &key);
                    wipe_key(&mut key);
                    match opened_box {
                        Some(m) => {
                            let plain_len = m.len();
                            proof {
                                assert forall|t: Seq<char>| m@ == #[trigger] framed(t) implies unframed(
                                    m@,
                                ) == Some(t) by {
                                    lemma_frame_fits(t, plain_len as nat);
                                }
                            }
                            let mut plain = sec_new(m);
                            let text = unframe_text(sec_bytes(&plain));
                            sec_zero_out(&mut plain);
                            match text {
                                Some(t) => Ok(t),
                                None => Err(KVError::of(ErrorType::SerializationError)),
                            }
                        },
                        None => Err(KVError::of(ErrorType::CryptoError)),
                    }
                },
                None => Err(KVError::of(ErrorType::CryptoError)),
            }
        },
        None => {
            let blob_len = sec_bytes(blob).len();
            proof {
                assert forall|t: Seq<char>| sec_content(*blob) == #[trigger] framed(t) implies unframed(
                    sec_content(*blob),
                ) == Some(t) by {
                    lemma_frame_fits(t, blob_len as nat);
                }
            }
            match unframe_text(sec_bytes(blob)) {
                Some(t) => Ok(t),
                None => Err(KVError::of(ErrorType::SerializationError)),
            }
        },
    }
}

/// Encodes a JSON value into a blob (see `encode_text`).
pub fn encode_value(value: &serde_json::Value, pwd: &Option<secstr::SecVec<u8>>, nonce: &[u8; 24]) -> (r:
    Result<secstr::SecVec<u8>, KVError>)
    ensures
        match r {
            Ok(b) => key_ok(pwd_view(*pwd)) && exists|t: Seq<char>|
                sec_content(b) == encoded(t, pwd_view(*pwd), nonce@),
            Err(e) => !key_ok(pwd_view(*pwd)) && e.error == ErrorType::CryptoError,
        },
{
    let text = json_text(value);
    encode_text(&text, pwd, nonce)
}

/// Decodes a blob into the JSON value that it stores.
pub fn decode_value(blob: &secstr::SecVec<u8>, pwd: &Option<secstr::SecVec<u8>>, nonce: &[u8; 24]) -> (r:
    Result<serde_json::Value, KVError>)
    ensures
        match r {
            Ok(_) => decoded_value(sec_content(*blob), pwd_view(*pwd), nonce@) is Ok,
            Err(e) => decoded_value(sec_content(*blob), pwd_view(*pwd), nonce@) == Err::<
                (),
                ErrorType,
            >(e.error),
        },
{
    let text = decode_text(blob, pwd, nonce)?;
    match json_parse(text.as_str()) {
        Some(v) => Ok(v),
        None => Err(KVError::of(ErrorType::SerializationError)),
    }
}

} // verus!
