pub mod chain;
pub mod codec;
pub mod driver;
pub mod encoding;
pub mod error;
pub mod headers;

pub use chain::parse_chain;
pub use driver::Request;
pub use driver::Response;
pub use encoding::Encoding;
pub use encoding::parse_encoding;
pub use error::DecodeError;
pub use headers::Headers;

use vstd::prelude::*;

verus! {

/// Middleware that transparently decodes compressed HTTP response bodies.
///
/// Supports HTTP compression using `gzip`, `deflate`, `br`, and `zstd`.
#[derive(Debug)]
pub struct Compression;

impl Compression {
    /// Creates the Compression middleware.
    pub fn new() -> Compression {
        Compression {  }
    }
}

/// Creates the Compression middleware.
pub fn new() -> Compression {
    Compression::new()
}

} // verus!
