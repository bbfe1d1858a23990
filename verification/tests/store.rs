use npm_cdn::document::{MinimalPackageData, MinimalPackageVersionData};
use npm_cdn::store::{write_plan, StoreWrite};
use npm_cdn::strmap::StringMap;
use npm_cdn::error::ServerError;
use npm_cdn::store::{decode_last_seq, encode_last_seq, health_reply, last_seq_key, needs_refresh};

#[test]
fn last_seq_roundtrips() {
    for seq in [0i64, 1, -1, 42, i64::MAX, i64::MIN, 1_234_567_890_123] {
        assert_eq!(encode_last_seq(seq), seq.to_le_bytes().to_vec());
        assert_eq!(decode_last_seq(Some(encode_last_seq(seq))).unwrap(), seq);
    }
}

#[test]
fn missing_last_seq_is_zero_and_corrupt_one_is_an_error() {
    assert_eq!(decode_last_seq(None).unwrap(), 0);
    match decode_last_seq(Some(vec![1, 2, 3])) {
        Err(ServerError::UnexpectedError { message }) => {
            assert_eq!(message, "corrupt #CDN_LAST_SYNC value")
        }
        _ => panic!("expected an error"),
    }
    assert_eq!(last_seq_key(), b"#CDN_LAST_SYNC".to_vec());
}

#[test]
fn refresh_rules() {
    assert!(needs_refresh(Ok(None), 1000).unwrap());
    assert!(!needs_refresh(Ok(Some(1000)), 1060).unwrap());
    assert!(needs_refresh(Ok(Some(1000)), 1061).unwrap());
    // a refresh time in the future (clock skew) counts as fresh
    assert!(!needs_refresh(Ok(Some(2000)), 1000).unwrap());
    assert!(needs_refresh(Err(ServerError::PackageNotFound("x".to_string())), 0).unwrap());
    assert!(matches!(
        needs_refresh(Err(ServerError::SerializeError()), 0),
        Err(ServerError::SerializeError())
    ));
}

#[test]
fn health_answers() {
    assert_eq!(health_reply(Some(Ok(0))), (200, "ok".to_string()));
    assert_eq!(health_reply(Some(Ok(17))), (200, "ok".to_string()));
    assert_eq!(
        health_reply(Some(Err(ServerError::SerializeError()))),
        (500, "db unavailable".to_string())
    );
    assert_eq!(health_reply(None), (500, "db unavailable".to_string()));
}

#[test]
fn packages_without_versions_are_deleted() {
    let empty = MinimalPackageData::default();
    assert_eq!(write_plan(&empty), StoreWrite::Delete);
    let mut versions: StringMap<MinimalPackageVersionData> = StringMap::new();
    versions.insert(
        "1.0.0".to_string(),
        MinimalPackageVersionData { tarball: "t".to_string(), dependencies: StringMap::new() },
    );
    let pkg = MinimalPackageData {
        name: "a".to_string(),
        dist_tags: StringMap::new(),
        versions,
        last_updated: None,
    };
    assert_eq!(write_plan(&pkg), StoreWrite::Put);
}
