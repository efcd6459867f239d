use content_decoding::Compression;
use content_decoding::DecodeError;
use content_decoding::Encoding;
use content_decoding::Headers;
use content_decoding::Request;
use content_decoding::parse_chain;
use content_decoding::parse_encoding;

#[test]
fn advertise_sets_capability_header() {
    let mut req = Request { headers: Headers::new() };
    content_decoding::new().advertise(&mut req);
    assert_eq!(
        req.headers.get(&b"accept-encoding".to_vec()),
        Some(&b"gzip, br, deflate, zstd".to_vec())
    );
}

#[test]
fn advertise_overwrites_prior_value() {
    let mut headers = Headers::new();
    headers.insert(b"accept-encoding".to_vec(), b"identity".to_vec());
    headers.insert(b"user-agent".to_vec(), b"test".to_vec());
    let mut req = Request { headers };
    Compression::new().advertise(&mut req);
    assert_eq!(
        req.headers.get(&b"accept-encoding".to_vec()),
        Some(&b"gzip, br, deflate, zstd".to_vec())
    );
    assert_eq!(req.headers.len(), 2);
    assert_eq!(req.headers.get(&b"user-agent".to_vec()), Some(&b"test".to_vec()));
}

#[test]
fn parse_encoding_knows_all_five_tokens() {
    assert_eq!(parse_encoding(&b"gzip".to_vec()), Some(Encoding::Gzip));
    assert_eq!(parse_encoding(&b"deflate".to_vec()), Some(Encoding::Deflate));
    assert_eq!(parse_encoding(&b"br".to_vec()), Some(Encoding::Brotli));
    assert_eq!(parse_encoding(&b"zstd".to_vec()), Some(Encoding::Zstd));
    assert_eq!(parse_encoding(&b"identity".to_vec()), Some(Encoding::Identity));
    assert_eq!(parse_encoding(&b"lz4".to_vec()), None);
    assert_eq!(parse_encoding(&b"Gzip".to_vec()), None);
    assert_eq!(parse_encoding(&b"".to_vec()), None);
}

#[test]
fn parse_chain_reverses_header_order() {
    let chain = parse_chain(&b"gzip, br".to_vec()).unwrap();
    assert_eq!(chain, vec![Encoding::Brotli, Encoding::Gzip]);
    let chain = parse_chain(&b"zstd, deflate, identity".to_vec()).unwrap();
    assert_eq!(chain, vec![Encoding::Identity, Encoding::Deflate, Encoding::Zstd]);
}

#[test]
fn parse_chain_trims_and_rejects_unknown() {
    assert_eq!(parse_chain(&b" br ".to_vec()).unwrap(), vec![Encoding::Brotli]);
    let err = parse_chain(&b"gzip,, br".to_vec()).unwrap_err();
    assert_eq!(err, DecodeError::InvalidEncodingChain { offending_token: Vec::new() });
}

#[test]
fn removing_absent_header_is_noop() {
    let mut headers = Headers::new();
    headers.insert(b"content-type".to_vec(), b"text/plain".to_vec());
    headers.remove(&b"content-encoding".to_vec());
    assert_eq!(headers.len(), 1);
    assert_eq!(headers.name_at(0), &b"content-type".to_vec());
    assert_eq!(headers.value_at(0), &b"text/plain".to_vec());
    let mut empty = Headers::new();
    empty.remove(&b"content-encoding".to_vec());
    assert_eq!(empty.len(), 0);
}

#[test]
fn headers_keep_order_and_first_match_wins() {
    let mut headers = Headers::new();
    headers.push(b"set-cookie".to_vec(), b"a=1".to_vec());
    headers.push(b"set-cookie".to_vec(), b"b=2".to_vec());
    assert_eq!(headers.get(&b"set-cookie".to_vec()), Some(&b"a=1".to_vec()));
    headers.remove(&b"set-cookie".to_vec());
    assert_eq!(headers.get(&b"set-cookie".to_vec()), None);
    assert_eq!(headers.len(), 0);
}
