use microkv::codec::{decode_text, decode_value, encode_text, encode_value};
use microkv::crypto::{gen_nonce, key_from_slice, sha256};
use microkv::secure::{sec_bytes, sec_new};
use microkv::ErrorType;

fn password(bytes: [u8; 32]) -> Option<secstr::SecVec<u8>> {
    Some(sec_new(bytes.to_vec()))
}

#[test]
fn round_trip_without_password() {
    let nonce = gen_nonce();
    let text = String::from("{\"a\":[1,2,3]}");
    let blob = encode_text(&text, &None, &nonce).unwrap();
    let back = decode_text(&blob, &None, &nonce).unwrap();
    assert_eq!(back, text);
}

#[test]
fn no_password_blob_is_plain_frame() {
    let nonce = gen_nonce();
    let text = String::from("42");
    let blob = encode_text(&text, &None, &nonce).unwrap();
    let expected = bincode::serialize(&text).unwrap();
    assert_eq!(sec_bytes(&blob), expected.as_slice());
}

#[test]
fn round_trip_with_password() {
    let nonce = gen_nonce();
    let pwd = password(sha256(b"hunter2"));
    let text = String::from("\"secret value\"");
    let blob = encode_text(&text, &pwd, &nonce).unwrap();
    let frame = bincode::serialize(&text).unwrap();
    assert_eq!(sec_bytes(&blob).len(), frame.len() + 16);
    assert_ne!(&sec_bytes(&blob)[16..], frame.as_slice());
    let back = decode_text(&blob, &pwd, &nonce).unwrap();
    assert_eq!(back, text);
}

#[test]
fn wrong_password_is_crypto_error() {
    let nonce = gen_nonce();
    let pwd1 = password(sha256(b"hunter2"));
    let pwd2 = password(sha256(b"hunter3"));
    let text = String::from("{\"x\":1}");
    let blob = encode_text(&text, &pwd1, &nonce).unwrap();
    let err = decode_text(&blob, &pwd2, &nonce).unwrap_err();
    assert_eq!(err.error, ErrorType::CryptoError);
}

#[test]
fn wrong_nonce_is_crypto_error() {
    let pwd = password(sha256(b"pw"));
    let text = String::from("1");
    let blob = encode_text(&text, &pwd, &[1u8; 24]).unwrap();
    let err = decode_text(&blob, &pwd, &[2u8; 24]).unwrap_err();
    assert_eq!(err.error, ErrorType::CryptoError);
}

#[test]
fn short_password_is_crypto_error() {
    let nonce = gen_nonce();
    let pwd = Some(sec_new(vec![1u8, 2, 3]));
    let text = String::from("1");
    let err = encode_text(&text, &pwd, &nonce).unwrap_err();
    assert_eq!(err.error, ErrorType::CryptoError);
    let blob = encode_text(&text, &None, &nonce).unwrap();
    let err = decode_text(&blob, &pwd, &nonce).unwrap_err();
    assert_eq!(err.error, ErrorType::CryptoError);
}

#[test]
fn garbage_is_serialization_error() {
    let nonce = gen_nonce();
    let blob = sec_new(vec![200u8, 1, 2]);
    let err = decode_text(&blob, &None, &nonce).unwrap_err();
    assert_eq!(err.error, ErrorType::SerializationError);
}

#[test]
fn non_json_text_is_serialization_error() {
    let nonce = gen_nonce();
    let text = String::from("not json");
    let blob = encode_text(&text, &None, &nonce).unwrap();
    let err = decode_value(&blob, &None, &nonce).unwrap_err();
    assert_eq!(err.error, ErrorType::SerializationError);
}

#[test]
fn value_round_trip() {
    let nonce = gen_nonce();
    let pwd = password([7u8; 32]);
    let value = serde_json::Value::from(vec![1, 2, 3]);
    let blob = encode_value(&value, &pwd, &nonce).unwrap();
    let back = decode_value(&blob, &pwd, &nonce).unwrap();
    assert_eq!(back, value);
}

#[test]
fn sha256_of_abc() {
    let digest = sha256(b"abc");
    assert_eq!(digest[0], 0xba);
    assert_eq!(digest[1], 0x78);
    assert_eq!(digest[31], 0xad);
}

#[test]
fn key_needs_exactly_32_bytes() {
    assert!(key_from_slice(&[0u8; 31]).is_none());
    assert!(key_from_slice(&[0u8; 33]).is_none());
    assert_eq!(key_from_slice(&[9u8; 32]), Some([9u8; 32]));
}

#[test]
fn frame_is_length_then_utf8() {
    let nonce = [0u8; 24];
    let blob = encode_text(&String::from("4é"), &None, &nonce).unwrap();
    assert_eq!(sec_bytes(&blob), &[3u8, 0, 0, 0, 0, 0, 0, 0, b'4', 0xc3, 0xa9][..]);
}

#[test]
fn trailing_bytes_after_frame_are_ignored() {
    let nonce = [0u8; 24];
    let blob = sec_new(vec![1u8, 0, 0, 0, 0, 0, 0, 0, b'7', 0xff, 0xff]);
    assert_eq!(decode_text(&blob, &None, &nonce).unwrap(), "7");
    let short = sec_new(vec![5u8, 0, 0, 0, 0, 0, 0, 0, b'7']);
    assert_eq!(decode_text(&short, &None, &nonce).unwrap_err().error, ErrorType::SerializationError);
    let bad_utf8 = sec_new(vec![1u8, 0, 0, 0, 0, 0, 0, 0, 0xff]);
    assert_eq!(decode_text(&bad_utf8, &None, &nonce).unwrap_err().error, ErrorType::SerializationError);
}
