use vstd::prelude::*;
use crate::encoding::Encoding;
use crate::headers::copy_bytes;

verus! {

/// The gzip decoding of `s`: `Some` of the plaintext when `s` is a
/// well-formed gzip stream, `None` when the codec rejects it.
pub uninterp spec fn gzip_decoding(s: Seq<u8>) -> Option<Seq<u8>>;

/// The raw-deflate decoding of `s`: `Some` of the plaintext when `s` is a
/// well-formed deflate stream, `None` when the codec rejects it.
pub uninterp spec fn deflate_decoding(s: Seq<u8>) -> Option<Seq<u8>>;

/// The brotli decoding of `s`: `Some` of the plaintext when `s` is a
/// well-formed brotli stream, `None` when the codec rejects it.
pub uninterp spec fn brotli_decoding(s: Seq<u8>) -> Option<Seq<u8>>;

/// The zstd decoding of `s`: `Some` of the plaintext when `s` is a
/// well-formed zstd frame, `None` when the codec rejects it.
pub uninterp spec fn zstd_decoding(s: Seq<u8>) -> Option<Seq<u8>>;

/// Relies on `async_compression::futures::bufread::GzipDecoder`, drained by
/// `futures::io::AsyncReadExt::read_to_end` under
/// `futures::executor::block_on`: what a gzip stream decodes to is a
/// function of its bytes alone.
#[verifier::external_body]
fn gzip_decode(data: &Vec<u8>) -> (r: Result<Vec<u8>, String>)
    ensures
        match r {
            Ok(out) => gzip_decoding(data@) == Some(out@),
            Err(_) => gzip_decoding(data@) is None,
        },
{
    let mut dec = async_compression::futures::bufread::GzipDecoder::new(data.as_slice());
    let mut out: Vec<u8> = Vec::new();
    match futures::executor::block_on(futures::io::AsyncReadExt::read_to_end(&mut dec, &mut out)) {
        Ok(_) => Ok(out),
        Err(e) => Err(format!("{}", e)),
    }
}

/// Relies on `async_compression::futures::bufread::DeflateDecoder`, drained
/// by `futures::io::AsyncReadExt::read_to_end` under
/// `futures::executor::block_on`: what a deflate stream decodes to is a
/// function of its bytes alone.
#[verifier::external_body]
fn deflate_decode(data: &Vec<u8>) -> (r: Result<Vec<u8>, String>)
    ensures
        match r {
            Ok(out) => deflate_decoding(data@) == Some(out@),
            Err(_) => deflate_decoding(data@) is None,
        },
{
    let mut dec = async_compression::futures::bufread::DeflateDecoder::new(data.as_slice());
    let mut out: Vec<u8> = Vec::new();
    match futures::executor::block_on(futures::io::AsyncReadExt::read_to_end(&mut dec, &mut out)) {
        Ok(_) => Ok(out),
        Err(e) => Err(format!("{}", e)),
    }
}

/// Relies on `async_compression::futures::bufread::BrotliDecoder`, drained
/// by `futures::io::AsyncReadExt::read_to_end` under
/// `futures::executor::block_on`: what a brotli stream decodes to is a
/// function of its bytes alone.
#[verifier::external_body]
fn brotli_decode(data: &Vec<u8>) -> (r: Result<Vec<u8>, String>)
    ensures
        match r {
            Ok(out) => brotli_decoding(data@) == Some(out@),
            Err(_) => brotli_decoding(data@) is None,
        },
{
    let mut dec = async_compression::futures::bufread::BrotliDecoder::new(data.as_slice());
    let mut out: Vec<u8> = Vec::new();
    match futures::executor::block_on(futures::io::AsyncReadExt::read_to_end(&mut dec, &mut out)) {
        Ok(_) => Ok(out),
        Err(e) => Err(format!("{}", e)),
    }
}

/// Relies on `async_compression::futures::bufread::ZstdDecoder`, drained by
/// `futures::io::AsyncReadExt::read_to_end` under
/// `futures::executor::block_on`: what a zstd frame decodes to is a
/// function of its bytes alone.
#[verifier::external_body]
fn zstd_decode(data: &Vec<u8>) -> (r: Result<Vec<u8>, String>)
    ensures
        match r {
            Ok(out) => zstd_decoding(data@) == Some(out@),
            Err(_) => zstd_decoding(data@) is None,
        },
{
    let mut dec = async_compression::futures::bufread::ZstdDecoder::new(data.as_slice());
    let mut out: Vec<u8> = Vec::new();
    match futures::executor::block_on(futures::io::AsyncReadExt::read_to_end(&mut dec, &mut out)) {
        Ok(_) => Ok(out),
        Err(e) => Err(format!("{}", e)),
    }
}

/// What one coding decodes `s` to: the codec's decoding for the four real
/// codecs, and `s` itself for `identity`, which names no transformation.
pub open spec fn spec_decoded(enc: Encoding, s: Seq<u8>) -> Option<Seq<u8>> {
    match enc {
        Encoding::Gzip => gzip_decoding(s),
        Encoding::Deflate => deflate_decoding(s),
        Encoding::Brotli => brotli_decoding(s),
        Encoding::Zstd => zstd_decoding(s),
        Encoding::Identity => Some(s),
    }
}

/// Decodes one layer of the chain: `data` through the codec `enc` names.
/// On failure the codec's account of it is returned and nothing else
/// changes.
pub fn decode_step(enc: Encoding, data: &Vec<u8>) -> (r: Result<Vec<u8>, String>)
    ensures
        match r {
            Ok(out) => spec_decoded(enc, data@) == Some(out@),
            Err(_) => spec_decoded(enc, data@) is None,
        },
{
    match enc {
        Encoding::Gzip => gzip_decode(data),
        Encoding::Deflate => deflate_decode(data),
        Encoding::Brotli => brotli_decode(data),
        Encoding::Zstd => zstd_decode(data),
        Encoding::Identity => Ok(copy_bytes(data)),
    }
}

} // verus!
