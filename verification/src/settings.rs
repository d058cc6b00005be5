//! Service configuration values that the library reasons about.

use vstd::prelude::*;
use vstd::string::StringExecFns;

verus! {

/// The response compression algorithms the server can be configured with.
#[derive(Clone, Copy, Debug, PartialEq, Eq, Structural)]
pub enum CompressionAlgorithm {
    Nothing,
    Gzip,
    Brotli,
    Zstd,
    Deflate,
}

impl CompressionAlgorithm {
    /// The configuration name of the algorithm.
    pub fn as_name(self) -> (r: String)
        ensures
            self == CompressionAlgorithm::Gzip ==> r@ == "gzip"@,
            self == CompressionAlgorithm::Brotli ==> r@ == "brotli"@,
            self == CompressionAlgorithm::Zstd ==> r@ == "zstd"@,
            self == CompressionAlgorithm::Deflate ==> r@ == "deflate"@,
            self == CompressionAlgorithm::Nothing ==> r@ == "none"@,
    {
        match self {
            CompressionAlgorithm::Nothing => String::from_str("none"),
            CompressionAlgorithm::Gzip => String::from_str("gzip"),
            CompressionAlgorithm::Brotli => String::from_str("brotli"),
            CompressionAlgorithm::Zstd => String::from_str("zstd"),
            CompressionAlgorithm::Deflate => String::from_str("deflate"),
        }
    }
}

} // verus!
