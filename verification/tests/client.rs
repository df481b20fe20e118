use object_store::checksum::Checksum;
use object_store::client::{
    classify_copy_failure, reconcile_bulk_delete, HttpMethod, S3Config, S3CopyIfNotExists,
};
use object_store::codec::{encode_path, percent_decode, percent_encode};
use object_store::error::{Error, RetryFailure};
use object_store::parts::PartId;
use object_store::path::Path;
use object_store::s3::{parse_bulk_delete_response, DeleteError};

fn config(checksum: Option<Checksum>, copy_if_not_exists: Option<S3CopyIfNotExists>) -> S3Config {
    S3Config {
        region: b"us-east-1".to_vec(),
        endpoint: b"https://s3.us-east-1.amazonaws.com".to_vec(),
        bucket: b"bucket".to_vec(),
        bucket_endpoint: b"https://s3.us-east-1.amazonaws.com/bucket".to_vec(),
        sign_payload: true,
        checksum,
        copy_if_not_exists,
    }
}

#[test]
fn path_url_encodes_key() {
    let cfg = config(None, None);
    let path = Path::parse("a b/c~d").unwrap();
    assert_eq!(
        String::from_utf8(cfg.path_url(&path)).unwrap(),
        "https://s3.us-east-1.amazonaws.com/bucket/a%20b/c~d"
    );
}

#[test]
fn percent_codec_round_trip() {
    let raw = b"a b/c+%&d".to_vec();
    let enc = percent_encode(&raw, true);
    assert_eq!(String::from_utf8(enc.clone()).unwrap(), "a%20b/c%2B%25%26d");
    assert_eq!(percent_decode(&enc), Some(raw.clone()));
    let strict = percent_encode(&raw, false);
    assert_eq!(
        String::from_utf8(strict.clone()).unwrap(),
        "a%20b%2Fc%2B%25%26d"
    );
    assert_eq!(percent_decode(&strict), Some(raw));
}

#[test]
fn percent_codec_unreserved_identity() {
    let raw = b"Safe-key_0.9~ok/also".to_vec();
    assert_eq!(percent_encode(&raw, true), raw);
}

#[test]
fn percent_decode_rejects_bad_escape() {
    assert_eq!(percent_decode(&b"a%zz".to_vec()), None);
    assert_eq!(percent_decode(&b"a%2".to_vec()), None);
    assert_eq!(percent_decode(&b"%2F".to_vec()), Some(b"/".to_vec()));
    assert_eq!(percent_decode(&b"%2f".to_vec()), Some(b"/".to_vec()));
}

#[test]
fn percent_encode_non_ascii_bytes() {
    let path = Path::parse("\u{20ac}").unwrap();
    assert_eq!(
        String::from_utf8(encode_path(&path)).unwrap(),
        "%E2%82%AC"
    );
}

#[test]
fn path_rules() {
    assert!(Path::parse("a/b/c").is_ok());
    assert!(Path::parse("").is_ok());
    assert!(matches!(
        Path::parse("/a"),
        Err(Error::InvalidPath { .. })
    ));
    assert!(Path::parse("a/").is_err());
    assert!(Path::parse("a//b").is_err());
    assert!(Path::parse("a/./b").is_err());
    assert!(Path::parse("a/../b").is_err());
    assert!(Path::parse("a/.hidden/b").is_ok());
    let p = Path::parse("x/y").unwrap();
    assert_eq!(p.as_bytes(), &b"x/y".to_vec());
    assert_eq!(p.clone(), p);
}

#[test]
fn put_plan_attaches_checksum_header() {
    let cfg = config(Some(Checksum::Sha256), None);
    let path = Path::parse("k").unwrap();
    let plan = cfg.put_plan(&path, b"hello".to_vec(), Vec::new(), None, None);
    assert_eq!(plan.method, HttpMethod::Put);
    assert_eq!(plan.headers.len(), 1);
    assert_eq!(plan.headers[0].0, b"x-amz-checksum-sha256".to_vec());
    assert_eq!(
        String::from_utf8(plan.headers[0].1.clone()).unwrap(),
        "LPJNul+wow4m6DsqxbninhsWHlwfp0JecwQzYpOLmCQ="
    );
    // the digest doubles as the signing payload hash for the content-hash
    // algorithm
    let digest = plan.payload_sha256.unwrap();
    assert_eq!(digest.len(), 32);
    assert_eq!(digest[0], 0x2c);
    assert_eq!(plan.body.unwrap(), b"hello".to_vec());
}

#[test]
fn put_plan_empty_payload_sets_content_length() {
    let cfg = config(None, None);
    let path = Path::parse("k").unwrap();
    let plan = cfg.put_plan(&path, Vec::new(), Vec::new(), None, None);
    assert!(plan.body.is_none());
    assert!(plan.payload_sha256.is_none());
    assert_eq!(
        plan.headers,
        vec![(b"content-length".to_vec(), b"0".to_vec())]
    );
}

#[test]
fn put_plan_tagging_header() {
    let cfg = config(None, None);
    let path = Path::parse("k").unwrap();
    let tags = vec![
        (b"k 1".to_vec(), b"v&1".to_vec()),
        (b"k2".to_vec(), b"v/2".to_vec()),
    ];
    let plan = cfg.put_plan(
        &path,
        b"x".to_vec(),
        Vec::new(),
        Some(b"text/plain".to_vec()),
        Some(tags),
    );
    assert_eq!(
        plan.headers,
        vec![
            (b"content-type".to_vec(), b"text/plain".to_vec()),
            (b"x-amz-tagging".to_vec(), b"k%201=v%261&k2=v%2F2".to_vec()),
        ]
    );
}

#[test]
fn copy_plan_without_strategy_is_not_supported() {
    let cfg = config(None, None);
    let from = Path::parse("a").unwrap();
    let to = Path::parse("b").unwrap();
    assert!(matches!(
        cfg.copy_plan(&from, &to, false),
        Err(Error::NotSupported { .. })
    ));
    // with overwrite the same config builds a plan
    assert!(cfg.copy_plan(&from, &to, true).is_ok());
}

#[test]
fn copy_plan_attaches_conditional_header() {
    let cfg = config(
        None,
        Some(S3CopyIfNotExists::Header(
            b"if-none-match".to_vec(),
            b"*".to_vec(),
        )),
    );
    let from = Path::parse("src key").unwrap();
    let to = Path::parse("dst").unwrap();
    let plan = cfg.copy_plan(&from, &to, false).unwrap();
    assert_eq!(plan.method, HttpMethod::Put);
    assert_eq!(
        plan.headers,
        vec![
            (
                b"x-amz-copy-source".to_vec(),
                b"bucket/src%20key".to_vec()
            ),
            (b"if-none-match".to_vec(), b"*".to_vec()),
        ]
    );
    let overwrite = cfg.copy_plan(&from, &to, true).unwrap();
    assert_eq!(overwrite.headers.len(), 1);
}

#[test]
fn copy_failure_classification() {
    let from = Path::parse("a").unwrap();
    let to = Path::parse("b").unwrap();
    let precondition = RetryFailure {
        status: Some(412),
        message: b"precondition failed".to_vec(),
    };
    assert!(matches!(
        classify_copy_failure(&from, &to, precondition),
        Error::AlreadyExists { path } if path == b"b".to_vec()
    ));
    let other = RetryFailure {
        status: Some(503),
        message: b"slow down".to_vec(),
    };
    assert!(matches!(
        classify_copy_failure(&from, &to, other),
        Error::CopyRequest { path, .. } if path == b"a".to_vec()
    ));
}

#[test]
fn bulk_delete_plan_empty_sends_nothing() {
    let cfg = config(None, None);
    assert!(cfg.bulk_delete_plan(&Vec::new()).is_none());
    // and an empty batch reconciles to an empty outcome vector
    let out = reconcile_bulk_delete(&Vec::new(), Vec::new()).unwrap();
    assert!(out.is_empty());
}

#[test]
fn bulk_delete_plan_defaults_checksum() {
    let cfg = config(None, None);
    let paths = vec![Path::parse("a").unwrap()];
    let plan = cfg.bulk_delete_plan(&paths).unwrap();
    assert_eq!(plan.method, HttpMethod::Post);
    assert_eq!(
        String::from_utf8(plan.url).unwrap(),
        "https://s3.us-east-1.amazonaws.com/bucket?delete"
    );
    assert_eq!(plan.headers[0].0, b"x-amz-checksum-sha256".to_vec());
    assert_eq!(
        plan.headers[1],
        (b"content-type".to_vec(), b"application/xml".to_vec())
    );
    assert_eq!(
        String::from_utf8(plan.body.unwrap()).unwrap(),
        r#"<Delete xmlns="http://s3.amazonaws.com/doc/2006-03-01/"><Object><Key>a</Key></Object></Delete>"#
    );
    assert!(plan.payload_sha256.is_some());
}

fn paths3() -> Vec<Path> {
    vec![
        Path::parse("a/1").unwrap(),
        Path::parse("a/2").unwrap(),
        Path::parse("a/3").unwrap(),
    ]
}

#[test]
fn bulk_delete_outcomes_keep_input_order() {
    // the response lists entries in its own order and omits one success
    let body = br#"<DeleteResult>
  <Error><Key>a/2</Key><Code>AccessDenied</Code><Message>denied</Message></Error>
  <Deleted><Key>a/3</Key></Deleted>
</DeleteResult>"#
        .to_vec();
    let items = parse_bulk_delete_response(&body).unwrap();
    let paths = paths3();
    let out = reconcile_bulk_delete(&paths, items).unwrap();
    assert_eq!(out.len(), 3);
    assert_eq!(out[0].as_ref().unwrap().as_bytes(), &b"a/1".to_vec());
    assert!(matches!(
        &out[1],
        Err(Error::DeleteFailed { path, code, message })
            if path == &b"a/2".to_vec() && code == &b"AccessDenied".to_vec()
                && message == &b"denied".to_vec()
    ));
    assert_eq!(out[2].as_ref().unwrap().as_bytes(), &b"a/3".to_vec());
}

#[test]
fn bulk_delete_single_error_substitution() {
    let items = vec![DeleteError {
        key: b"a/3".to_vec(),
        code: b"InternalError".to_vec(),
        message: b"oops".to_vec(),
    }];
    let paths = paths3();
    let out = reconcile_bulk_delete(&paths, items).unwrap();
    let failures: Vec<usize> = out
        .iter()
        .enumerate()
        .filter(|(_, r)| r.is_err())
        .map(|(i, _)| i)
        .collect();
    assert_eq!(failures, vec![2]);
}

#[test]
fn bulk_delete_rejects_invalid_reported_key() {
    let items = vec![DeleteError {
        key: b"//bad".to_vec(),
        code: b"c".to_vec(),
        message: b"m".to_vec(),
    }];
    let paths = paths3();
    assert!(matches!(
        reconcile_bulk_delete(&paths, items),
        Err(Error::InvalidDeleteObjectsResponse { .. })
    ));
}

#[test]
fn list_plan_query_parameters() {
    let cfg = config(None, None);
    let plan = cfg.list_plan(
        Some(b"photos/".to_vec()),
        true,
        Some(b"token1".to_vec()),
        Some(b"photos/0".to_vec()),
    );
    assert_eq!(plan.method, HttpMethod::Get);
    assert_eq!(
        String::from_utf8(plan.url).unwrap(),
        "https://s3.us-east-1.amazonaws.com/bucket"
    );
    assert_eq!(
        plan.query,
        vec![
            (b"continuation-token".to_vec(), b"token1".to_vec()),
            (b"delimiter".to_vec(), b"/".to_vec()),
            (b"list-type".to_vec(), b"2".to_vec()),
            (b"prefix".to_vec(), b"photos/".to_vec()),
            (b"start-after".to_vec(), b"photos/0".to_vec()),
        ]
    );
    let bare = cfg.list_plan(None, false, None, None);
    assert_eq!(bare.query, vec![(b"list-type".to_vec(), b"2".to_vec())]);
}

#[test]
fn multipart_plans() {
    let cfg = config(None, None);
    let path = Path::parse("big/object").unwrap();
    let create = cfg.create_multipart_plan(&path);
    assert_eq!(create.method, HttpMethod::Post);
    assert_eq!(
        String::from_utf8(create.url).unwrap(),
        "https://s3.us-east-1.amazonaws.com/bucket/big/object?uploads="
    );
    let parts = vec![
        PartId {
            content_id: "e1".to_string(),
            size: 8,
        },
        PartId {
            content_id: "e2".to_string(),
            size: 4,
        },
    ];
    let complete = cfg.complete_multipart_plan(&path, "upload-1", parts);
    assert_eq!(complete.method, HttpMethod::Post);
    assert_eq!(
        complete.query,
        vec![(b"uploadId".to_vec(), b"upload-1".to_vec())]
    );
    assert_eq!(
        String::from_utf8(complete.body.unwrap()).unwrap(),
        r#"<CompleteMultipartUpload><Part><ETag>"e1"</ETag><PartNumber>1</PartNumber></Part><Part><ETag>"e2"</ETag><PartNumber>2</PartNumber></Part></CompleteMultipartUpload>"#
    );
}

#[test]
fn get_plan_method() {
    let cfg = config(None, None);
    let path = Path::parse("k").unwrap();
    assert_eq!(cfg.get_plan(&path, false).method, HttpMethod::Get);
    assert_eq!(cfg.get_plan(&path, true).method, HttpMethod::Head);
    assert!(cfg.get_plan(&path, true).body.is_none());
}

#[test]
fn delete_plan_carries_query() {
    let cfg = config(None, None);
    let path = Path::parse("k").unwrap();
    let plan = cfg.delete_plan(&path, vec![(b"versionId".to_vec(), b"v7".to_vec())]);
    assert_eq!(plan.method, HttpMethod::Delete);
    assert_eq!(plan.query, vec![(b"versionId".to_vec(), b"v7".to_vec())]);
    assert_eq!(
        String::from_utf8(plan.url).unwrap(),
        "https://s3.us-east-1.amazonaws.com/bucket/k"
    );
}

#[test]
fn put_plan_with_empty_body_and_checksum() {
    let cfg = config(Some(Checksum::Sha256), None);
    let path = Path::parse("k").unwrap();
    let plan = cfg.put_plan(&path, Vec::new(), Vec::new(), None, None);
    // checksum of the empty payload, then the explicit zero content-length
    assert_eq!(plan.headers.len(), 2);
    assert_eq!(
        String::from_utf8(plan.headers[0].1.clone()).unwrap(),
        "47DEQpj8HBSa+/TImW+5JCeuQeRkm5NMpJWZG3hSuFU="
    );
    assert_eq!(
        plan.headers[1],
        (b"content-length".to_vec(), b"0".to_vec())
    );
}

#[test]
fn bulk_delete_duplicate_input_paths_fail_first_match() {
    let paths = vec![Path::parse("dup").unwrap(), Path::parse("dup").unwrap()];
    let items = vec![DeleteError {
        key: b"dup".to_vec(),
        code: b"c".to_vec(),
        message: b"m".to_vec(),
    }];
    let out = reconcile_bulk_delete(&paths, items).unwrap();
    assert!(out[0].is_err());
    assert!(out[1].is_ok());
}
