use kayo::error::{Error, ErrorCode, IoErrorKind};
use kayo::request::{parse_i32, DecodeError, EncodingType, ListBucketRequest, RequestPayer};
use kayo::response::{DateTime, ListBucketResult, Object, Owner};
use kayo::value::{Field, Unsupported, Value};
use kayo::xml::{key_to_string, to_bytes, to_xml, Error as EncodingError};

fn s(x: &str) -> String {
    x.to_string()
}

fn pairs(ps: &[(&str, &str)]) -> Vec<(String, String)> {
    ps.iter().map(|(a, b)| (s(a), s(b))).collect()
}

fn object(key: &str, size: i64) -> Object {
    Object {
        key: Some(s(key)),
        last_modified: None,
        e_tag: None,
        checksum_algorithm: Vec::new(),
        size: Some(size),
        storage_class: None,
        owner: None,
    }
}

fn listing(contents: Vec<Object>, common_prefixes: Vec<String>) -> ListBucketResult {
    ListBucketResult {
        is_truncated: false,
        contents,
        name: s("contents"),
        prefix: s(""),
        delimiter: s("/"),
        max_keys: 1000,
        common_prefixes,
        encoding_type: None,
        key_count: 0,
        continuation_token: None,
        next_continuation_token: None,
        start_after: None,
    }
}

fn xml_string(v: &Value) -> String {
    match to_xml(v) {
        Ok(t) => t,
        Err(e) => panic!("encoding failed: {}", e.message()),
    }
}

#[test]
fn empty_listing_has_only_the_fixed_elements() {
    let r = listing(Vec::new(), Vec::new());
    let x = r.to_xml().ok().unwrap();
    assert_eq!(
        x,
        "<ListBucketResult><IsTruncated>false</IsTruncated><Name>contents</Name><Prefix></Prefix>\
<Delimiter>/</Delimiter><MaxKeys>1000</MaxKeys><KeyCount>0</KeyCount></ListBucketResult>"
    );
    assert!(!x.contains("Contents"));
    assert!(!x.contains("CommonPrefixes"));
}

#[test]
fn optional_listing_field_appears_only_when_present() {
    let mut r = listing(Vec::new(), Vec::new());
    let without = r.to_xml().ok().unwrap();
    r.continuation_token = Some(s("tok"));
    let with = r.to_xml().ok().unwrap();
    assert_eq!(with.replace("<ContinuationToken>tok</ContinuationToken>", ""), without);
    assert!(with.contains("<KeyCount>0</KeyCount><ContinuationToken>tok</ContinuationToken></ListBucketResult>"));
    assert!(!without.contains("ContinuationToken"));
}

#[test]
fn absent_named_field_leaves_no_element() {
    let absent = Value::Struct(s("S"), vec![
        Field::Named(s("A"), Value::Int(1)),
        Field::Named(s("B"), Value::Absent),
        Field::Named(s("C"), Value::Bool(true)),
    ]);
    let present = Value::Struct(s("S"), vec![
        Field::Named(s("A"), Value::Int(1)),
        Field::Named(s("B"), Value::Str(s("x"))),
        Field::Named(s("C"), Value::Bool(true)),
    ]);
    assert_eq!(xml_string(&absent), "<S><A>1</A><C>true</C></S>");
    assert_eq!(xml_string(&present), "<S><A>1</A><B>x</B><C>true</C></S>");
}

#[test]
fn spliced_entries_are_direct_siblings() {
    let r = listing(
        vec![object("a", 1), object("b", 2), object("c", 3)],
        vec![s("d/"), s("e/")],
    );
    let x = r.to_xml().ok().unwrap();
    assert_eq!(x.matches("<Contents>").count(), 3);
    assert_eq!(x.matches("<CommonPrefixes>").count(), 2);
    assert_eq!(
        x,
        "<ListBucketResult><IsTruncated>false</IsTruncated>\
<Contents><Key>a</Key><Size>1</Size></Contents>\
<Contents><Key>b</Key><Size>2</Size></Contents>\
<Contents><Key>c</Key><Size>3</Size></Contents>\
<Name>contents</Name><Prefix></Prefix><Delimiter>/</Delimiter><MaxKeys>1000</MaxKeys>\
<CommonPrefixes><Prefix>d/</Prefix></CommonPrefixes>\
<CommonPrefixes><Prefix>e/</Prefix></CommonPrefixes>\
<KeyCount>0</KeyCount></ListBucketResult>"
    );
}

#[test]
fn sequence_key_is_rejected() {
    let v = Value::Mapping(vec![(Value::Sequence(vec![Value::Int(1)]), Value::Int(2))]);
    match to_xml(&v) {
        Err(EncodingError::UnsupportedType(Unsupported::KeyType)) => {}
        _ => panic!("expected a key-type error"),
    }
    let e = to_bytes(&v).err().unwrap();
    assert_eq!(e.message(), "unsupported key type");
}

#[test]
fn struct_key_is_rejected() {
    let key = Value::Struct(s("K"), vec![Field::Named(s("a"), Value::Int(1))]);
    let v = Value::Mapping(vec![(Value::Str(s("ok")), Value::Int(0)), (key, Value::Int(2))]);
    match to_xml(&v) {
        Err(EncodingError::UnsupportedType(Unsupported::KeyType)) => {}
        _ => panic!("expected a key-type error"),
    }
}

#[test]
fn scalar_keys_name_elements() {
    let v = Value::Mapping(vec![
        (Value::Str(s("a")), Value::Int(-5)),
        (Value::UInt(7), Value::Bool(false)),
        (Value::Present(Box::new(Value::UnitVariant(s("Tag")))), Value::Char('<')),
    ]);
    assert_eq!(xml_string(&v), "<a>-5</a><7>false</7><Tag>&lt;</Tag>");
    assert_eq!(key_to_string(&Value::Int(-12)).ok().unwrap(), "-12");
    assert_eq!(key_to_string(&Value::Char('x')).ok().unwrap(), "x");
    assert!(matches!(key_to_string(&Value::Absent), Err(Unsupported::KeyType)));
    assert!(matches!(key_to_string(&Value::Unit), Err(Unsupported::KeyType)));
    assert!(matches!(key_to_string(&Value::Bytes(vec![97])), Err(Unsupported::KeyType)));
}

#[test]
fn raw_bytes_are_unsupported() {
    let v = Value::Struct(s("S"), vec![Field::Named(s("B"), Value::Bytes(vec![1, 2]))]);
    let e = to_xml(&v).err().unwrap();
    assert!(matches!(e, EncodingError::UnsupportedType(Unsupported::DataType)));
    assert_eq!(e.message(), "unsupported data type");
}

#[test]
fn unit_variant_renderings_differ() {
    let wrapped = Value::UnitStruct(s("Marker"));
    let bare = Value::Newtype(s("Class"), Box::new(Value::UnitVariant(s("STANDARD"))));
    assert_eq!(xml_string(&wrapped), "<Marker></Marker>");
    assert_eq!(xml_string(&bare), "<Class>STANDARD</Class>");
    assert_eq!(xml_string(&Value::Unit), "");
    assert_eq!(xml_string(&Value::UInt(18446744073709551615)), "18446744073709551615");
    assert_eq!(xml_string(&Value::Int(-9223372036854775808)), "-9223372036854775808");
}

#[test]
fn key_text_is_escaped() {
    let r = listing(vec![object("a<b&c\"d>", 5)], Vec::new());
    let x = r.to_xml().ok().unwrap();
    assert!(x.contains("<Key>a&lt;b&amp;c\"d&gt;</Key>"));
    assert_eq!(xml_string(&Value::Str(s("x<y"))), "x&lt;y");
}

#[test]
fn bytes_are_utf8_of_the_text() {
    let v = Value::Newtype(s("N"), Box::new(Value::Str(s("é"))));
    assert_eq!(to_bytes(&v).ok().unwrap(), "<N>é</N>".as_bytes().to_vec());
}

#[test]
fn unknown_field_fails_decoding() {
    let e = ListBucketRequest::decode(&pairs(&[("prefix", "x"), ("foo", "bar"), ("max-keys", "5")])).err().unwrap();
    match e {
        DecodeError::UnknownField { name } => assert_eq!(name, "foo"),
        _ => panic!("expected an unknown field"),
    }
    let e = ListBucketRequest::decode(&pairs(&[("foo", "bar")])).err().unwrap();
    assert!(matches!(e, DecodeError::UnknownField { .. }));
}

#[test]
fn values_are_coerced() {
    let r = ListBucketRequest::decode(&pairs(&[("max-keys", "1000")])).ok().unwrap();
    assert_eq!(r.max_keys, Some(1000));
    match ListBucketRequest::decode(&pairs(&[("max-keys", "abc")])).err().unwrap() {
        DecodeError::InvalidValue { name, value } => {
            assert_eq!(name, "max-keys");
            assert_eq!(value, "abc");
        }
        _ => panic!("expected an invalid value"),
    }
    let r = ListBucketRequest::decode(&pairs(&[("fetch-owner", "true")])).ok().unwrap();
    assert_eq!(r.fetch_owner, Some(true));
    let e = ListBucketRequest::decode(&pairs(&[("fetch-owner", "maybe")])).err().unwrap();
    assert!(matches!(e, DecodeError::InvalidValue { .. }));
}

#[test]
fn enum_values_are_strict() {
    let r = ListBucketRequest::decode(&pairs(&[("encoding-type", "url"), ("request-payer", "requester")])).ok().unwrap();
    assert_eq!(r.encoding_type, Some(EncodingType::Url));
    assert_eq!(r.request_payer, Some(RequestPayer::Requester));
    assert!(ListBucketRequest::decode(&pairs(&[("encoding-type", "base64")])).is_err());
    assert!(ListBucketRequest::decode(&pairs(&[("request-payer", "owner")])).is_err());
}

#[test]
fn every_registered_name_is_accepted() {
    let r = ListBucketRequest::decode(&pairs(&[
        ("list-type", "anything"),
        ("bucket", "b"),
        ("delimiter", "/"),
        ("continuation-token", "c"),
        ("start-after", "s"),
        ("expected-bucket-owner", "o"),
        ("fetch-owner", "false"),
    ]))
    .ok()
    .unwrap();
    assert_eq!(r.bucket, Some(s("b")));
    assert_eq!(r.delimiter, Some(s("/")));
    assert_eq!(r.continuation_token, Some(s("c")));
    assert_eq!(r.start_after, Some(s("s")));
    assert_eq!(r.expected_bucket_owner, Some(s("o")));
    assert_eq!(r.fetch_owner, Some(false));
    assert_eq!(r.prefix, None);
    assert_eq!(r.max_keys, None);
}

#[test]
fn integer_text_edges() {
    assert_eq!(parse_i32("+5"), Some(5));
    assert_eq!(parse_i32("-2147483648"), Some(-2147483648));
    assert_eq!(parse_i32("2147483647"), Some(2147483647));
    assert_eq!(parse_i32("2147483648"), None);
    assert_eq!(parse_i32("99999999999999999999"), None);
    assert_eq!(parse_i32(""), None);
    assert_eq!(parse_i32("-"), None);
    assert_eq!(parse_i32("1 "), None);
    assert_eq!(parse_i32("007"), Some(7));
}

#[test]
fn later_value_wins() {
    let r = ListBucketRequest::decode(&pairs(&[("prefix", "a"), ("prefix", "b")])).ok().unwrap();
    assert_eq!(r.prefix, Some(s("b")));
}

#[test]
fn decode_then_encode_listing() {
    let req = ListBucketRequest::decode(&pairs(&[("list-type", "2"), ("prefix", "images/"), ("max-keys", "2")]))
        .ok()
        .unwrap();
    let prefix = req.prefix.clone().unwrap();
    let contents = vec![object("images/a.png", 10), object("images/b.png", 20)];
    let r = ListBucketResult {
        is_truncated: false,
        key_count: contents.len() as i32,
        contents,
        name: s("contents"),
        prefix,
        delimiter: s("/"),
        max_keys: req.max_keys.unwrap(),
        common_prefixes: Vec::new(),
        encoding_type: None,
        continuation_token: None,
        next_continuation_token: None,
        start_after: None,
    };
    assert_eq!(
        r.to_xml().ok().unwrap(),
        "<ListBucketResult><IsTruncated>false</IsTruncated>\
<Contents><Key>images/a.png</Key><Size>10</Size></Contents>\
<Contents><Key>images/b.png</Key><Size>20</Size></Contents>\
<Name>contents</Name><Prefix>images/</Prefix><Delimiter>/</Delimiter><MaxKeys>2</MaxKeys>\
<KeyCount>2</KeyCount></ListBucketResult>"
    );
}

#[test]
fn object_with_every_field() {
    let o = Object {
        key: Some(s("k")),
        last_modified: Some(DateTime::from_secs(0)),
        e_tag: Some(s("\"e\"")),
        checksum_algorithm: vec![s("CRC32"), s("SHA256")],
        size: Some(3),
        storage_class: Some(s("STANDARD")),
        owner: Some(Owner { display_name: Some(s("me")), id: None }),
    };
    let mut r = listing(vec![o], Vec::new());
    r.encoding_type = Some(EncodingType::Url);
    r.start_after = Some(s("j"));
    let x = r.to_xml().ok().unwrap();
    assert!(x.contains(
        "<Contents><Key>k</Key><LastModified>1970-01-01T00:00:00Z</LastModified><ETag>\"e\"</ETag>\
<ChecksumAlgorithm>CRC32</ChecksumAlgorithm><ChecksumAlgorithm>SHA256</ChecksumAlgorithm>\
<Size>3</Size><StorageClass>STANDARD</StorageClass><Owner><DisplayName>me</DisplayName></Owner></Contents>"
    ));
    assert!(x.contains("<EncodingType>url</EncodingType><KeyCount>0</KeyCount><StartAfter>j</StartAfter>"));
}

#[test]
fn fractional_instant_is_written() {
    let mut o = object("k", 1);
    o.last_modified = DateTime::new(1_700_000_000, 500_000_000);
    let x = listing(vec![o], Vec::new()).to_xml().ok().unwrap();
    assert!(x.contains("<LastModified>2023-11-14T22:13:20.5Z</LastModified>"));
    assert!(DateTime::new(0, 1_000_000_000).is_none());
}

#[test]
fn unwritable_instant_fails_the_listing() {
    let mut o = object("k", 1);
    o.last_modified = Some(DateTime::from_secs(i64::MAX));
    let e = listing(vec![o], Vec::new()).to_bytes().err().unwrap();
    assert!(matches!(e, EncodingError::Custom(_)));
}

#[test]
fn error_response_xml() {
    let e = Error::from(ErrorCode::NoSuchBucket).bucket_name(s("x"));
    assert_eq!(
        e.to_xml(),
        "<Error><Code>NoSuchBucket</Code><Message>The specified bucket does not exist.</Message>\
<BucketName>x</BucketName></Error>"
    );
    let e = Error::from(ErrorCode::InvalidArgument).message(s("bad")).key(s("a&b"));
    assert_eq!(e.to_xml(), "<Error><Code>InvalidArgument</Code><Message>bad</Message><Key>a&amp;b</Key></Error>");
}

#[test]
fn error_codes() {
    assert_eq!(ErrorCode::AccessDenied.as_message(), "Access Denied");
    assert_eq!(ErrorCode::InvalidArgument.as_message(), "");
    assert_eq!(ErrorCode::InvalidArgument.to_status_code(), 400);
    assert_eq!(ErrorCode::AccessDenied.to_status_code(), 403);
    assert_eq!(ErrorCode::NoSuchKey.to_status_code(), 404);
    assert_eq!(ErrorCode::InternalError.to_status_code(), 500);
    assert_eq!(ErrorCode::from_io(IoErrorKind::NotFound), ErrorCode::NoSuchKey);
    assert_eq!(ErrorCode::from_io(IoErrorKind::PermissionDenied), ErrorCode::AccessDenied);
    assert_eq!(ErrorCode::from_io(IoErrorKind::Other), ErrorCode::InternalError);
}

#[test]
fn formatted_instant_goes_into_contents() {
    let o = object("k", 4);
    let v = o.to_value_with_last_modified(&Some(s("2020-01-02T03:04:05Z")));
    assert_eq!(
        xml_string(&v),
        "<Contents><Key>k</Key><LastModified>2020-01-02T03:04:05Z</LastModified><Size>4</Size></Contents>"
    );
    assert_eq!(xml_string(&o.to_value_with_last_modified(&None)), "<Contents><Key>k</Key><Size>4</Size></Contents>");
}

#[test]
fn decode_error_messages() {
    let e = ListBucketRequest::decode(&pairs(&[("foo", "bar")])).err().unwrap();
    assert_eq!(
        e.message(),
        "unknown field `foo`, expected one of `list-type`, `bucket`, `delimiter`, `encoding-type`, \
`max-keys`, `prefix`, `continuation-token`, `fetch-owner`, `start-after`, `request-payer`, `expected-bucket-owner`"
    );
    let e = ListBucketRequest::decode(&pairs(&[("max-keys", "abc")])).err().unwrap();
    assert_eq!(e.message(), "invalid value `abc` for `max-keys`");
}

#[test]
fn empty_listing_with_tokens() {
    let mut r = listing(Vec::new(), Vec::new());
    r.next_continuation_token = Some(s("n"));
    r.is_truncated = true;
    assert_eq!(
        r.to_xml().ok().unwrap(),
        "<ListBucketResult><IsTruncated>true</IsTruncated><Name>contents</Name><Prefix></Prefix>\
<Delimiter>/</Delimiter><MaxKeys>1000</MaxKeys><KeyCount>0</KeyCount>\
<NextContinuationToken>n</NextContinuationToken></ListBucketResult>"
    );
}
