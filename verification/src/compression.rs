//! The compression codecs behind the archive collaborator: gzip and xz
//! byte-stream compression, each delegated to its crate and promised
//! only to invert cleanly; format selection by file extension is
//! verified here.

use vstd::prelude::*;

verus! {

/// A compression format, chosen by file extension: `.gz`, `.xz`, or
/// anything else for a plain stream.
#[derive(Clone, Copy, Debug, PartialEq, Eq, Structural)]
pub enum CompressionFormat {
    Gzip,
    Xz,
    Plain,
}

/// Whether `s` ends with `suffix`.
pub open spec fn spec_ends_with(s: Seq<char>, suffix: Seq<char>) -> bool {
    s.len() >= suffix.len() && s.skip(s.len() - suffix.len()) == suffix
}

/// The format a file name selects.
pub open spec fn spec_format_of(path: Seq<char>) -> CompressionFormat {
    if spec_ends_with(path, ".gz"@) {
        CompressionFormat::Gzip
    } else if spec_ends_with(path, ".xz"@) {
        CompressionFormat::Xz
    } else {
        CompressionFormat::Plain
    }
}

fn ends_with(s: &str, suffix: &str) -> (r: bool)
    ensures
        r == spec_ends_with(s@, suffix@),
{
    let n = s.unicode_len();
    let m = suffix.unicode_len();
    if m > n {
        return false;
    }
    let tail = s.substring_char(n - m, n);
    proof {
        assert(tail@ =~= s@.skip(s@.len() - suffix@.len()));
    }
    crate::text::str_equal(tail, suffix)
}

impl CompressionFormat {
    /// The format a file name selects, by its ending.
    pub fn from_extension(path: &str) -> (r: Self)
        ensures
            r == spec_format_of(path@),
    {
        if ends_with(path, ".gz") {
            CompressionFormat::Gzip
        } else if ends_with(path, ".xz") {
            CompressionFormat::Xz
        } else {
            CompressionFormat::Plain
        }
    }
}

/// What `flate2::read::GzDecoder` makes of a byte stream: the original
/// bytes for a well-formed stream, `None` otherwise.
pub uninterp spec fn gzip_inflate_of(b: Seq<u8>) -> Option<Seq<u8>>;

/// What `xz2::read::XzDecoder` makes of a byte stream: the original
/// bytes for a well-formed stream, `None` otherwise.
pub uninterp spec fn xz_inflate_of(b: Seq<u8>) -> Option<Seq<u8>>;

/// Relies on `flate2::write::GzEncoder`: compression is lossless, so
/// decompressing the result gives the input back.
#[verifier::external_body]
fn gzip_compress(data: &[u8]) -> (r: Vec<u8>)
    ensures
        gzip_inflate_of(r@) == Some(data@),
{
    let mut encoder = flate2::write::GzEncoder::new(Vec::new(), flate2::Compression::default());
    // Writing into a Vec cannot fail.
    std::io::Write::write_all(&mut encoder, data).unwrap();
    encoder.finish().unwrap()
}

/// Relies on `flate2::read::GzDecoder`: yields the decompressed bytes,
/// `None` exactly on a stream gzip cannot decode.
#[verifier::external_body]
fn gzip_decompress(data: &[u8]) -> (r: Option<Vec<u8>>)
    ensures
        match r {
            Some(v) => gzip_inflate_of(data@) == Some(v@),
            None => gzip_inflate_of(data@) is None,
        },
{
    let mut decoder = flate2::read::GzDecoder::new(data);
    let mut out = Vec::new();
    match std::io::Read::read_to_end(&mut decoder, &mut out) {
        Ok(_) => Some(out),
        Err(_) => None,
    }
}

/// Relies on `xz2::write::XzEncoder`: compression is lossless, so
/// decompressing the result gives the input back.
#[verifier::external_body]
fn xz_compress(data: &[u8]) -> (r: Vec<u8>)
    ensures
        xz_inflate_of(r@) == Some(data@),
{
    let mut encoder = xz2::write::XzEncoder::new(Vec::new(), 6);
    // Writing into a Vec cannot fail.
    std::io::Write::write_all(&mut encoder, data).unwrap();
    encoder.finish().unwrap()
}

/// Relies on `xz2::read::XzDecoder`: yields the decompressed bytes,
/// `None` exactly on a stream xz cannot decode.
#[verifier::external_body]
fn xz_decompress(data: &[u8]) -> (r: Option<Vec<u8>>)
    ensures
        match r {
            Some(v) => xz_inflate_of(data@) == Some(v@),
            None => xz_inflate_of(data@) is None,
        },
{
    let mut decoder = xz2::read::XzDecoder::new(data);
    let mut out = Vec::new();
    match std::io::Read::read_to_end(&mut decoder, &mut out) {
        Ok(_) => Some(out),
        Err(_) => None,
    }
}

/// Compresses a byte stream in the given format; the contract promises
/// that `decompress_data` inverts it.
pub fn compress_data(data: &[u8], format: CompressionFormat) -> (r: Vec<u8>)
    ensures
        match format {
            CompressionFormat::Gzip => gzip_inflate_of(r@) == Some(data@),
            CompressionFormat::Xz => xz_inflate_of(r@) == Some(data@),
            CompressionFormat::Plain => r@ == data@,
        },
{
    match format {
        CompressionFormat::Gzip => gzip_compress(data),
        CompressionFormat::Xz => xz_compress(data),
        CompressionFormat::Plain => vstd::slice::slice_to_vec(data),
    }
}

/// Decompresses a byte stream of the given format; `None` exactly on a
/// stream the codec cannot decode.
pub fn decompress_data(data: &[u8], format: CompressionFormat) -> (r: Option<Vec<u8>>)
    ensures
        match format {
            CompressionFormat::Gzip => match r {
                Some(v) => gzip_inflate_of(data@) == Some(v@),
                None => gzip_inflate_of(data@) is None,
            },
            CompressionFormat::Xz => match r {
                Some(v) => xz_inflate_of(data@) == Some(v@),
                None => xz_inflate_of(data@) is None,
            },
            CompressionFormat::Plain => r matches Some(v) && v@ == data@,
        },
{
    match format {
        CompressionFormat::Gzip => gzip_decompress(data),
        CompressionFormat::Xz => xz_decompress(data),
        CompressionFormat::Plain => Some(vstd::slice::slice_to_vec(data)),
    }
}

} // verus!
