use object_store::error::Error;
use object_store::parts::PartId;
use object_store::s3::{
    parse_bulk_delete_response, parse_initiate_response, parse_list_response,
    serialize_bulk_delete, serialize_complete_multipart, CompleteMultipartUpload, ListResult,
    MultipartPart, ObjectMeta,
};
use object_store::path::Path;

fn part(e_tag: &str, part_number: usize) -> MultipartPart {
    MultipartPart {
        e_tag: e_tag.to_string(),
        part_number,
    }
}

#[test]
fn client_test_multipart_serialization() {
    let request = CompleteMultipartUpload {
        part: vec![part("1", 1), part("2", 2), part("3", 3)],
    };

    let body = serialize_complete_multipart(&request);

    assert_eq!(
        String::from_utf8(body).unwrap(),
        r#"<CompleteMultipartUpload><Part><ETag>"1"</ETag><PartNumber>1</PartNumber></Part><Part><ETag>"2"</ETag><PartNumber>2</PartNumber></Part><Part><ETag>"3"</ETag><PartNumber>3</PartNumber></Part></CompleteMultipartUpload>"#
    )
}

#[test]
fn s3_test_multipart_serialization() {
    let request = CompleteMultipartUpload {
        part: vec![part("1", 1), part("2", 2), part("3", 3)],
    };

    let body = serialize_complete_multipart(&request);

    assert_eq!(
        String::from_utf8(body).unwrap(),
        r#"<CompleteMultipartUpload><Part><ETag>"1"</ETag><PartNumber>1</PartNumber></Part><Part><ETag>"2"</ETag><PartNumber>2</PartNumber></Part><Part><ETag>"3"</ETag><PartNumber>3</PartNumber></Part></CompleteMultipartUpload>"#
    )
}

#[test]
fn completion_numbering_is_positional() {
    // submitted indices play no role: numbers are assigned by position
    let parts = vec![
        PartId {
            content_id: "t9".to_string(),
            size: 9,
        },
        PartId {
            content_id: "t5".to_string(),
            size: 5,
        },
    ];
    let req = CompleteMultipartUpload::from(parts);
    assert_eq!(req.part.len(), 2);
    assert_eq!(req.part[0].e_tag, "t9");
    assert_eq!(req.part[0].part_number, 1);
    assert_eq!(req.part[1].e_tag, "t5");
    assert_eq!(req.part[1].part_number, 2);
    let body = serialize_complete_multipart(&req);
    assert_eq!(
        String::from_utf8(body).unwrap(),
        r#"<CompleteMultipartUpload><Part><ETag>"t9"</ETag><PartNumber>1</PartNumber></Part><Part><ETag>"t5"</ETag><PartNumber>2</PartNumber></Part></CompleteMultipartUpload>"#
    );
}

#[test]
fn delete_request_document() {
    let paths = vec![
        Path::parse("a/b").unwrap(),
        Path::parse("c").unwrap(),
    ];
    let body = serialize_bulk_delete(&paths);
    assert_eq!(
        String::from_utf8(body).unwrap(),
        r#"<Delete xmlns="http://s3.amazonaws.com/doc/2006-03-01/"><Object><Key>a/b</Key></Object><Object><Key>c</Key></Object></Delete>"#
    );
}

#[test]
fn delete_request_escapes_key_text() {
    let paths = vec![Path::parse("a&b<c>\"d'").unwrap()];
    let body = serialize_bulk_delete(&paths);
    assert_eq!(
        String::from_utf8(body).unwrap(),
        r#"<Delete xmlns="http://s3.amazonaws.com/doc/2006-03-01/"><Object><Key>a&amp;b&lt;c&gt;&quot;d&apos;</Key></Object></Delete>"#
    );
}

#[test]
fn parse_delete_response_entries() {
    let body = br#"<?xml version="1.0" encoding="UTF-8"?>
<DeleteResult xmlns="http://s3.amazonaws.com/doc/2006-03-01/">
  <Deleted><Key>ok/one</Key></Deleted>
  <Error><Key>bad&amp;key</Key><Code>AccessDenied</Code><Message>Access Denied</Message></Error>
  <Deleted><Key>ok/two</Key></Deleted>
</DeleteResult>"#
        .to_vec();
    let items = parse_bulk_delete_response(&body).unwrap();
    assert_eq!(items.len(), 1);
    assert_eq!(items[0].key, b"bad&key".to_vec());
    assert_eq!(items[0].code, b"AccessDenied".to_vec());
    assert_eq!(items[0].message, b"Access Denied".to_vec());
}

#[test]
fn parse_delete_response_fields_in_any_order() {
    let body = br#"<DeleteResult><Error><Message>m</Message><Code>c</Code><VersionId>v1</VersionId><Key>k</Key></Error></DeleteResult>"#.to_vec();
    let items = parse_bulk_delete_response(&body).unwrap();
    assert_eq!(items.len(), 1);
    assert_eq!(items[0].key, b"k".to_vec());
    assert_eq!(items[0].code, b"c".to_vec());
    assert_eq!(items[0].message, b"m".to_vec());
}

#[test]
fn parse_delete_response_rejects_malformed() {
    let body = b"<DeleteResult><Error><Key>k</Key></Error>".to_vec();
    assert!(matches!(
        parse_bulk_delete_response(&body),
        Err(Error::InvalidDeleteObjectsResponse { .. })
    ));
    let body = b"not xml at all".to_vec();
    assert!(matches!(
        parse_bulk_delete_response(&body),
        Err(Error::InvalidDeleteObjectsResponse { .. })
    ));
}

#[test]
fn parse_initiate_upload_id() {
    let body = br#"<?xml version="1.0" encoding="UTF-8"?>
<InitiateMultipartUploadResult xmlns="http://s3.amazonaws.com/doc/2006-03-01/">
  <Bucket>example-bucket</Bucket>
  <Key>example-object</Key>
  <UploadId>VXBsb2FkIElE</UploadId>
</InitiateMultipartUploadResult>"#
        .to_vec();
    let res = parse_initiate_response(&body).unwrap();
    assert_eq!(res.upload_id, "VXBsb2FkIElE");
}

#[test]
fn parse_initiate_without_upload_id_fails() {
    let body = b"<InitiateMultipartUploadResult><Bucket>b</Bucket></InitiateMultipartUploadResult>"
        .to_vec();
    assert!(matches!(
        parse_initiate_response(&body),
        Err(Error::InvalidMultipartResponse { .. })
    ));
}

const LIST_BODY: &str = r#"<?xml version="1.0" encoding="UTF-8"?>
<ListBucketResult xmlns="http://s3.amazonaws.com/doc/2006-03-01/">
  <Name>bucket</Name>
  <KeyCount>2</KeyCount>
  <IsTruncated>true</IsTruncated>
  <Contents>
    <Key>photos/2009/example.jpg</Key>
    <LastModified>2009-10-12T17:50:30.000Z</LastModified>
    <ETag>&quot;fba9dede5f27731c9771645a39863328&quot;</ETag>
    <Size>434234</Size>
    <StorageClass>STANDARD</StorageClass>
  </Contents>
  <CommonPrefixes>
    <Prefix>photos/2010</Prefix>
  </CommonPrefixes>
  <NextContinuationToken>1ueGcxLPRx1Tr</NextContinuationToken>
</ListBucketResult>"#;

#[test]
fn parse_list_page() {
    let body = LIST_BODY.as_bytes().to_vec();
    let page = parse_list_response(&body).unwrap();
    assert_eq!(page.contents.len(), 1);
    assert_eq!(page.contents[0].key, "photos/2009/example.jpg");
    assert_eq!(page.contents[0].size, 434234);
    assert_eq!(page.contents[0].last_modified, "2009-10-12T17:50:30.000Z");
    assert_eq!(
        page.contents[0].e_tag.as_deref(),
        Some("\"fba9dede5f27731c9771645a39863328\"")
    );
    assert_eq!(page.common_prefixes.len(), 1);
    assert_eq!(page.common_prefixes[0].prefix, "photos/2010");
    assert_eq!(
        page.next_continuation_token.as_deref(),
        Some("1ueGcxLPRx1Tr")
    );
}

#[test]
fn list_result_validates_and_converts() {
    let body = LIST_BODY.as_bytes().to_vec();
    let page = parse_list_response(&body).unwrap();
    let result = ListResult::try_from(page).unwrap();
    assert_eq!(result.objects.len(), 1);
    assert_eq!(
        result.objects[0].location.as_bytes(),
        b"photos/2009/example.jpg"
    );
    assert_eq!(result.objects[0].last_modified, 1255369830000);
    assert_eq!(result.objects[0].size, 434234);
    assert!(result.objects[0].version.is_none());
    assert_eq!(result.common_prefixes.len(), 1);
    assert_eq!(result.common_prefixes[0].as_bytes(), b"photos/2010");
}

#[test]
fn list_result_rejects_invalid_key() {
    let body = br#"<ListBucketResult><Contents><Key>a//b</Key><LastModified>2009-10-12T17:50:30.000Z</LastModified><Size>1</Size></Contents></ListBucketResult>"#.to_vec();
    let page = parse_list_response(&body).unwrap();
    assert!(matches!(
        ListResult::try_from(page),
        Err(Error::InvalidPath { .. })
    ));
}

#[test]
fn list_result_rejects_invalid_timestamp() {
    let body = br#"<ListBucketResult><Contents><Key>a</Key><LastModified>yesterday</LastModified><Size>1</Size></Contents></ListBucketResult>"#.to_vec();
    let page = parse_list_response(&body).unwrap();
    assert!(matches!(
        ListResult::try_from(page),
        Err(Error::InvalidListResponse { .. })
    ));
}

#[test]
fn object_meta_from_entry() {
    let body =
        br#"<L><Contents><Key>k</Key><LastModified>1970-01-01T00:00:01Z</LastModified><Size>5</Size></Contents></L>"#
            .to_vec();
    let page = parse_list_response(&body).unwrap();
    let entry = page.contents.into_iter().next().unwrap();
    let meta = ObjectMeta::try_from(entry).unwrap();
    assert_eq!(meta.last_modified, 1000);
    assert_eq!(meta.size, 5);
    assert_eq!(meta.e_tag, None);
}

#[test]
fn parse_list_rejects_bad_size() {
    let body = br#"<L><Contents><Key>k</Key><LastModified>1970-01-01T00:00:01Z</LastModified><Size>12x</Size></Contents></L>"#.to_vec();
    assert!(matches!(
        parse_list_response(&body),
        Err(Error::InvalidListResponse { .. })
    ));
}

#[test]
fn parse_list_empty_page() {
    let body = b"<ListBucketResult></ListBucketResult>".to_vec();
    let page = parse_list_response(&body).unwrap();
    assert!(page.contents.is_empty());
    assert!(page.common_prefixes.is_empty());
    assert!(page.next_continuation_token.is_none());
}

#[test]
fn parse_list_skips_nested_unknown_elements() {
    let body = br#"<L><Contents><Key>k</Key><Owner><ID>me</ID><DisplayName>Me</DisplayName></Owner><LastModified>1970-01-01T00:00:01Z</LastModified><Size>5</Size></Contents></L>"#.to_vec();
    let page = parse_list_response(&body).unwrap();
    assert_eq!(page.contents.len(), 1);
    assert_eq!(page.contents[0].key, "k");
}

#[test]
fn parse_list_size_digit_limits() {
    // nineteen digits are accepted
    let body = br#"<L><Contents><Key>k</Key><LastModified>1970-01-01T00:00:01Z</LastModified><Size>9999999999999999999</Size></Contents></L>"#.to_vec();
    let page = parse_list_response(&body).unwrap();
    assert_eq!(page.contents[0].size, 9_999_999_999_999_999_999);
    // twenty digits are not
    let body = br#"<L><Contents><Key>k</Key><LastModified>1970-01-01T00:00:01Z</LastModified><Size>99999999999999999999</Size></Contents></L>"#.to_vec();
    assert!(matches!(
        parse_list_response(&body),
        Err(Error::InvalidListResponse { .. })
    ));
}
