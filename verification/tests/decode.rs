use content_decoding::Compression;
use content_decoding::DecodeError;
use content_decoding::Encoding;
use content_decoding::Headers;
use content_decoding::Response;
use futures::io::AsyncReadExt;

fn gzip_compress(data: &[u8]) -> Vec<u8> {
    let mut enc = async_compression::futures::bufread::GzipEncoder::new(data);
    let mut out = Vec::new();
    futures::executor::block_on(enc.read_to_end(&mut out)).unwrap();
    out
}

fn deflate_compress(data: &[u8]) -> Vec<u8> {
    let mut enc = async_compression::futures::bufread::DeflateEncoder::new(data);
    let mut out = Vec::new();
    futures::executor::block_on(enc.read_to_end(&mut out)).unwrap();
    out
}

fn brotli_compress(data: &[u8]) -> Vec<u8> {
    let mut enc = async_compression::futures::bufread::BrotliEncoder::new(data);
    let mut out = Vec::new();
    futures::executor::block_on(enc.read_to_end(&mut out)).unwrap();
    out
}

fn zstd_compress(data: &[u8]) -> Vec<u8> {
    let mut enc = async_compression::futures::bufread::ZstdEncoder::new(data);
    let mut out = Vec::new();
    futures::executor::block_on(enc.read_to_end(&mut out)).unwrap();
    out
}

fn response_with(encoding: &[u8], body: Vec<u8>) -> Response {
    let mut headers = Headers::new();
    headers.insert(b"content-encoding".to_vec(), encoding.to_vec());
    headers.insert(b"content-type".to_vec(), b"text/plain".to_vec());
    Response { headers, body }
}

fn content_encoding_of(resp: &Response) -> Option<Vec<u8>> {
    resp.headers.get(&b"content-encoding".to_vec()).cloned()
}

const PLAINTEXT: &[u8] = b"the quick brown fox jumps over the lazy dog, twice over";

#[test]
fn gzip_single_layer_decodes() {
    let mut resp = response_with(b"gzip", gzip_compress(PLAINTEXT));
    Compression::new().decode(&mut resp).unwrap();
    assert_eq!(resp.body, PLAINTEXT.to_vec());
    assert_eq!(content_encoding_of(&resp), None);
}

#[test]
fn deflate_single_layer_decodes() {
    let mut resp = response_with(b"deflate", deflate_compress(PLAINTEXT));
    Compression::new().decode(&mut resp).unwrap();
    assert_eq!(resp.body, PLAINTEXT.to_vec());
    assert_eq!(content_encoding_of(&resp), None);
}

#[test]
fn brotli_single_layer_decodes() {
    let mut resp = response_with(b"br", brotli_compress(PLAINTEXT));
    Compression::new().decode(&mut resp).unwrap();
    assert_eq!(resp.body, PLAINTEXT.to_vec());
    assert_eq!(content_encoding_of(&resp), None);
}

#[test]
fn zstd_single_layer_decodes() {
    let mut resp = response_with(b"zstd", zstd_compress(PLAINTEXT));
    Compression::new().decode(&mut resp).unwrap();
    assert_eq!(resp.body, PLAINTEXT.to_vec());
    assert_eq!(content_encoding_of(&resp), None);
}

#[test]
fn two_layer_chain_undoes_outer_layer_first() {
    // `gzip, br` says gzip was applied first, brotli on top of it; the
    // driver must brotli-decode first, then gzip-decode.
    let wire = brotli_compress(&gzip_compress(PLAINTEXT));
    let mut resp = response_with(b"gzip, br", wire);
    Compression::new().decode(&mut resp).unwrap();
    assert_eq!(resp.body, PLAINTEXT.to_vec());
    assert_eq!(content_encoding_of(&resp), None);
}

#[test]
fn identity_leaves_body_unchanged_and_strips_header() {
    let mut resp = response_with(b"identity", PLAINTEXT.to_vec());
    Compression::new().decode(&mut resp).unwrap();
    assert_eq!(resp.body, PLAINTEXT.to_vec());
    assert_eq!(content_encoding_of(&resp), None);
}

#[test]
fn identity_within_chain_is_noop() {
    let mut resp = response_with(b"gzip, identity", gzip_compress(PLAINTEXT));
    Compression::new().decode(&mut resp).unwrap();
    assert_eq!(resp.body, PLAINTEXT.to_vec());
    assert_eq!(content_encoding_of(&resp), None);
}

#[test]
fn absent_header_passes_through_unchanged() {
    let mut headers = Headers::new();
    headers.insert(b"content-type".to_vec(), b"text/plain".to_vec());
    let mut resp = Response { headers, body: PLAINTEXT.to_vec() };
    Compression::new().decode(&mut resp).unwrap();
    assert_eq!(resp.body, PLAINTEXT.to_vec());
    assert_eq!(resp.headers.len(), 1);
    assert_eq!(resp.headers.name_at(0), &b"content-type".to_vec());
    assert_eq!(resp.headers.value_at(0), &b"text/plain".to_vec());
}

#[test]
fn unrecognized_token_is_typed_error_and_body_untouched() {
    let mut resp = response_with(b"lz4", PLAINTEXT.to_vec());
    let err = Compression::new().decode(&mut resp).unwrap_err();
    assert_eq!(err, DecodeError::InvalidEncodingChain { offending_token: b"lz4".to_vec() });
    assert_eq!(resp.body, PLAINTEXT.to_vec());
    assert_eq!(content_encoding_of(&resp), Some(b"lz4".to_vec()));
}

#[test]
fn first_unrecognized_token_is_reported() {
    let mut resp = response_with(b"gzip, lz4, snappy", PLAINTEXT.to_vec());
    let err = Compression::new().decode(&mut resp).unwrap_err();
    assert_eq!(err, DecodeError::InvalidEncodingChain { offending_token: b"lz4".to_vec() });
    assert_eq!(resp.body, PLAINTEXT.to_vec());
}

#[test]
fn empty_header_value_is_invalid_chain() {
    let mut resp = response_with(b"", PLAINTEXT.to_vec());
    let err = Compression::new().decode(&mut resp).unwrap_err();
    assert_eq!(err, DecodeError::InvalidEncodingChain { offending_token: Vec::new() });
}

#[test]
fn token_matching_is_case_sensitive() {
    let mut resp = response_with(b"GZIP", PLAINTEXT.to_vec());
    let err = Compression::new().decode(&mut resp).unwrap_err();
    assert_eq!(err, DecodeError::InvalidEncodingChain { offending_token: b"GZIP".to_vec() });
}

#[test]
fn surrounding_whitespace_is_trimmed() {
    let wire = brotli_compress(&gzip_compress(PLAINTEXT));
    let mut resp = response_with(b"  gzip\t,  br  ", wire);
    Compression::new().decode(&mut resp).unwrap();
    assert_eq!(resp.body, PLAINTEXT.to_vec());
}

#[test]
fn corrupt_data_reports_coding_and_position() {
    let mut resp = response_with(b"gzip", b"certainly not gzip".to_vec());
    let err = Compression::new().decode(&mut resp).unwrap_err();
    match err {
        DecodeError::DecodeFailed { encoding, chain_position, .. } => {
            assert_eq!(encoding, Encoding::Gzip);
            assert_eq!(chain_position, 0);
        },
        other => panic!("expected DecodeFailed, got {:?}", other),
    }
    assert_eq!(resp.body, b"certainly not gzip".to_vec());
    assert_eq!(content_encoding_of(&resp), Some(b"gzip".to_vec()));
}

#[test]
fn failure_in_second_layer_reports_its_position() {
    // `br, gzip`: gzip-decode runs first and succeeds, the brotli layer
    // then rejects what was never brotli data.
    let wire = gzip_compress(b"this is not a brotli stream at all");
    let mut resp = response_with(b"br, gzip", wire.clone());
    let err = Compression::new().decode(&mut resp).unwrap_err();
    match err {
        DecodeError::DecodeFailed { encoding, chain_position, .. } => {
            assert_eq!(encoding, Encoding::Brotli);
            assert_eq!(chain_position, 1);
        },
        other => panic!("expected DecodeFailed, got {:?}", other),
    }
    assert_eq!(resp.body, wire);
}

#[test]
fn round_trip_each_codec() {
    let samples: Vec<Vec<u8>> = vec![
        Vec::new(),
        b"a".to_vec(),
        PLAINTEXT.to_vec(),
        (0u8..=255).cycle().take(4096).collect(),
    ];
    for plain in samples {
        for (token, wire) in [
            (&b"gzip"[..], gzip_compress(&plain)),
            (&b"deflate"[..], deflate_compress(&plain)),
            (&b"br"[..], brotli_compress(&plain)),
            (&b"zstd"[..], zstd_compress(&plain)),
        ] {
            let mut resp = response_with(token, wire);
            Compression::new().decode(&mut resp).unwrap();
            assert_eq!(resp.body, plain);
            assert_eq!(content_encoding_of(&resp), None);
        }
    }
}
