//! The content of the output file: the container as it is, or packed as a
//! gzip stream where the file's name asks for that.

use crate::mtx::{encode, mtx_bytes};
use vstd::prelude::*;
use vstd::string::StrSliceExecFns;

verus! {

/// Why no content could be produced for the output file.
#[derive(Clone, Copy, Debug, PartialEq, Eq, Structural)]
pub enum WriteError {
    /// The compressor reported an error.
    Compression,
}

/// Whether a file name ends in `.gz`.
pub open spec fn has_gz_suffix(name: Seq<char>) -> bool {
    &&& name.len() >= 3
    &&& name[name.len() - 3] == '.'
    &&& name[name.len() - 2] == 'g'
    &&& name[name.len() - 1] == 'z'
}

/// The gzip stream that the compressor makes of `data` at its default level,
/// or `None` where it reports an error.
pub uninterp spec fn gzip_stream(data: Seq<u8>) -> Option<Seq<u8>>;

/// The content of a byte vector that may be absent.
pub open spec fn bytes_model(bytes: Option<Vec<u8>>) -> Option<Seq<u8>> {
    match bytes {
        Some(v) => Some(v@),
        None => None,
    }
}

/// Feeds `data` to a `flate2::write::GzEncoder` over an empty vector, made
/// with `flate2::Compression::default()`, and takes the vector back with
/// `finish`. An error of either step becomes `None`.
///
/// Nothing is claimed about the stream beyond naming it [`gzip_stream`].
#[verifier::external_body]
fn gzip(data: &[u8]) -> (packed: Option<Vec<u8>>)
    ensures
        bytes_model(packed) == gzip_stream(data@),
{
    let mut encoder = flate2::write::GzEncoder::new(Vec::new(), flate2::Compression::default());
    std::io::Write::write_all(&mut encoder, data).and_then(|_| encoder.finish()).ok()
}

/// The content of the file named `name` for the zones `zones` and the cells
/// `matrix`.
pub open spec fn file_content(name: Seq<char>, zones: Seq<i32>, matrix: Seq<u32>) -> Result<
    Seq<u8>,
    WriteError,
> {
    if has_gz_suffix(name) {
        packed_content(gzip_stream(mtx_bytes(zones, matrix)))
    } else {
        Ok(mtx_bytes(zones, matrix))
    }
}

/// The content of a compressed file, given what the compressor returned.
pub open spec fn packed_content(packed: Option<Seq<u8>>) -> Result<Seq<u8>, WriteError> {
    match packed {
        Some(stream) => Ok(stream),
        None => Err(WriteError::Compression),
    }
}

/// The content of a byte vector or an error.
pub open spec fn content_model(content: Result<Vec<u8>, WriteError>) -> Result<
    Seq<u8>,
    WriteError,
> {
    match content {
        Ok(bytes) => Ok(bytes@),
        Err(e) => Err(e),
    }
}

/// Whether `name` ends in `.gz`.
pub fn is_gz_name(name: &str) -> (gz: bool)
    ensures
        gz == has_gz_suffix(name@),
{
    let n: usize = name.unicode_len();
    n >= 3 && name.get_char(n - 3) == '.' && name.get_char(n - 2) == 'g' && name.get_char(n - 1)
        == 'z'
}

/// Turns what the compressor returned into the content of the file.
pub fn packed_output(packed: Option<Vec<u8>>) -> (content: Result<Vec<u8>, WriteError>)
    ensures
        content_model(content) == packed_content(bytes_model(packed)),
{
    match packed {
        Some(stream) => Ok(stream),
        None => Err(WriteError::Compression),
    }
}

/// Produces the content of the output file named `output_file_name`: the
/// container for `all_zones` and `matrix`, compressed as a whole where the
/// name ends in `.gz`. Compression changes no byte of the container before it
/// is packed.
pub fn write_mtx_file(output_file_name: &str, all_zones: &[i32], matrix: &[u32]) -> (content:
    Result<Vec<u8>, WriteError>)
    ensures
        content_model(content) == file_content(output_file_name@, all_zones@, matrix@),
{
    let plain = encode(all_zones, matrix);
    if is_gz_name(output_file_name) {
        packed_output(gzip(plain.as_slice()))
    } else {
        Ok(plain)
    }
}

} // verus!
