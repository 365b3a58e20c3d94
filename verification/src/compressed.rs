//! Gzip-compressed text, as the library's embedded data is stored.
use std::io::Read;
use vstd::prelude::*;

verus! {

/// What gzip decompression of `data` yields, read as UTF-8 text, or the error's message.
pub uninterp spec fn gunzip_text(data: Seq<u8>) -> Result<Seq<char>, Seq<char>>;

/// Decompresses `data` with `flate2::read::GzDecoder` and reads the result with
/// `Read::read_to_string`. The outcome depends on the bytes alone; this contract names it
/// `gunzip_text` and states nothing of the gzip format.
#[verifier::external_body]
pub(crate) fn gunzip_to_string(data: &[u8]) -> (r: Result<String, String>)
    ensures
        match r {
            Ok(s) => gunzip_text(data@) == Ok::<Seq<char>, Seq<char>>(s@),
            Err(e) => gunzip_text(data@) == Err::<Seq<char>, Seq<char>>(e@),
        },
{
    let mut text = String::new();
    match flate2::read::GzDecoder::new(data).read_to_string(&mut text) {
        Ok(_) => Ok(text),
        Err(e) => Err(e.to_string()),
    }
}

/// The text that gzip-compressed data holds, as the library's tables are stored when they
/// are embedded, or the message of the error that reading it met.
pub fn decompress_text(compressed: &[u8]) -> (r: Result<String, String>)
    ensures
        match r {
            Ok(s) => gunzip_text(compressed@) == Ok::<Seq<char>, Seq<char>>(s@),
            Err(e) => gunzip_text(compressed@) == Err::<Seq<char>, Seq<char>>(e@),
        },
{
    gunzip_to_string(compressed)
}

} // verus!
