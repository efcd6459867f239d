use vstd::prelude::*;

verus! {

/// A content coding recognized by this library, as named by one token of a
/// `Content-Encoding` header.
#[derive(Debug, Clone, Copy, PartialEq, Eq, Structural)]
pub enum Encoding {
    Gzip,
    Deflate,
    Brotli,
    Zstd,
    Identity,
}

/// The bytes of the token `gzip`.
pub open spec fn gzip_token() -> Seq<u8> {
    seq![103u8, 122u8, 105u8, 112u8]
}

/// The bytes of the token `deflate`.
pub open spec fn deflate_token() -> Seq<u8> {
    seq![100u8, 101u8, 102u8, 108u8, 97u8, 116u8, 101u8]
}

/// The bytes of the token `br`.
pub open spec fn brotli_token() -> Seq<u8> {
    seq![98u8, 114u8]
}

/// The bytes of the token `zstd`.
pub open spec fn zstd_token() -> Seq<u8> {
    seq![122u8, 115u8, 116u8, 100u8]
}

/// The bytes of the token `identity`.
pub open spec fn identity_token() -> Seq<u8> {
    seq![105u8, 100u8, 101u8, 110u8, 116u8, 105u8, 116u8, 121u8]
}

/// What a single `Content-Encoding` token names: one of the five known
/// codings, or nothing when the token is unrecognized.  Matching is
/// byte-exact against the lowercase token, as on the wire.
pub open spec fn spec_parse_token(t: Seq<u8>) -> Option<Encoding> {
    if t == gzip_token() {
        Some(Encoding::Gzip)
    } else if t == deflate_token() {
        Some(Encoding::Deflate)
    } else if t == brotli_token() {
        Some(Encoding::Brotli)
    } else if t == zstd_token() {
        Some(Encoding::Zstd)
    } else if t == identity_token() {
        Some(Encoding::Identity)
    } else {
        None
    }
}

/// Parses one `Content-Encoding` token (already trimmed of surrounding
/// whitespace) into the coding it names.
pub fn parse_encoding(t: &Vec<u8>) -> (r: Option<Encoding>)
    ensures
        r == spec_parse_token(t@),
{
    let n = t.len();
    if n == 4 && t[0] == 103 && t[1] == 122 && t[2] == 105 && t[3] == 112 {
        proof {
            assert(t@ =~= gzip_token());
        }
        Some(Encoding::Gzip)
    } else if n == 7 && t[0] == 100 && t[1] == 101 && t[2] == 102 && t[3] == 108 && t[4] == 97
        && t[5] == 116 && t[6] == 101 {
        proof {
            assert(t@ =~= deflate_token());
        }
        Some(Encoding::Deflate)
    } else if n == 2 && t[0] == 98 && t[1] == 114 {
        proof {
            assert(t@ =~= brotli_token());
        }
        Some(Encoding::Brotli)
    } else if n == 4 && t[0] == 122 && t[1] == 115 && t[2] == 116 && t[3] == 100 {
        proof {
            assert(t@ =~= zstd_token());
        }
        Some(Encoding::Zstd)
    } else if n == 8 && t[0] == 105 && t[1] == 100 && t[2] == 101 && t[3] == 110 && t[4] == 116
        && t[5] == 105 && t[6] == 116 && t[7] == 121 {
        proof {
            assert(t@ =~= identity_token());
        }
        Some(Encoding::Identity)
    } else {
        None
    }
}

} // verus!
