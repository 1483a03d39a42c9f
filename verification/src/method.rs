//! Compression methods and their numeric codes.

use vstd::prelude::*;

verus! {

/// How the payload of a file entry is compressed.
#[derive(Clone, Copy, Debug, PartialEq, Eq, Structural)]
pub enum CompressionMethod {
    Stored,
    Deflated,
    Deflate64,
    Bzip2,
    Aes,
    Zstd,
    Lzma,
}

/// The method that a numeric code selects. Codes without a method of their
/// own select `Deflated`.
pub open spec fn method_for_code(code: u16) -> CompressionMethod {
    if code == 0 {
        CompressionMethod::Stored
    } else if code == 2 {
        CompressionMethod::Deflate64
    } else if code == 3 {
        CompressionMethod::Bzip2
    } else if code == 4 {
        CompressionMethod::Aes
    } else if code == 5 {
        CompressionMethod::Zstd
    } else if code == 6 {
        CompressionMethod::Lzma
    } else {
        CompressionMethod::Deflated
    }
}

/// Maps a numeric method code to its compression method.
pub fn into_comp_method(value: u16) -> (method: CompressionMethod)
    ensures
        method == method_for_code(value),
{
    match value {
        0 => CompressionMethod::Stored,
        1 => CompressionMethod::Deflated,
        2 => CompressionMethod::Deflate64,
        3 => CompressionMethod::Bzip2,
        4 => CompressionMethod::Aes,
        5 => CompressionMethod::Zstd,
        6 => CompressionMethod::Lzma,
        _ => CompressionMethod::Deflated,
    }
}

} // verus!
