use npm_cdn::error::ServerError;
use npm_cdn::query::{decode_base64, decoded_text, MAX_ENCODED_LEN};

#[test]
fn roundtrip_decodes() {
    // "react@^18.0.0" in standard base64
    assert_eq!(decode_base64("cmVhY3RAXjE4LjAuMA==").unwrap(), "react@^18.0.0");
}

#[test]
fn oversized_input_is_rejected() {
    let oversized = "A".repeat(MAX_ENCODED_LEN + 1);
    assert!(matches!(
        decode_base64(&oversized),
        Err(ServerError::InvalidQuery)
    ));
}

#[test]
fn invalid_base64_is_rejected() {
    assert!(matches!(
        decode_base64("!!!"),
        Err(ServerError::Base64DecodingError())
    ));
}

#[test]
fn longest_allowed_input_is_decoded() {
    // 65536 base64 characters of "AAAA" decode to 49152 zero bytes.
    let input = "A".repeat(MAX_ENCODED_LEN);
    let text = decode_base64(&input).unwrap();
    assert_eq!(text.len(), 49152);
    assert!(text.bytes().all(|b| b == 0));
}

#[test]
fn base64_of_non_utf8_is_rejected() {
    // "/w==" is the single byte 0xff, which is not UTF-8.
    assert!(matches!(
        decode_base64("/w=="),
        Err(ServerError::Base64DecodingError())
    ));
    assert!(matches!(
        decoded_text(Some(vec![0xc3, 0x28])),
        Err(ServerError::Base64DecodingError())
    ));
    assert!(matches!(decoded_text(None), Err(ServerError::Base64DecodingError())));
    assert_eq!(decoded_text(Some("héllo".as_bytes().to_vec())).unwrap(), "héllo");
}

#[test]
fn decoding_is_not_the_identity() {
    assert_eq!(decode_base64("YQ==").unwrap(), "a");
    assert_eq!(decode_base64("").unwrap(), "");
}
