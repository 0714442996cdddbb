//! Trusted bindings for the stored form of the log lines: the JSON array
//! text kept plain for substring search, and its gzip compression kept for
//! space.

use vstd::prelude::*;
use vstd::string::StringSliceAdditionalSpecFns;
use vstd::utf8::valid_utf8;
use std::io::Read;
use std::io::Write;

verus! {

/// The JSON array text that a list of lines serialises to.
pub uninterp spec fn json_of_lines(lines: Seq<Seq<char>>) -> Seq<char>;

/// The list of lines that JSON text parses to, if it parses.
pub uninterp spec fn lines_of_json(text: Seq<char>) -> Option<Seq<Seq<char>>>;

/// The bytes a gzip member decompresses to, if it decompresses.
pub uninterp spec fn gunzip_of(data: Seq<u8>) -> Option<Seq<u8>>;

/// Relies on `serde_json::to_string` for `Vec<String>`: the JSON text is a
/// pure function of the lines, serialising a list of strings never fails,
/// and `serde_json::from_str` parses the text back to the same lines.
#[verifier::external_body]
pub fn logs_to_json(lines: &Vec<String>) -> (r: String)
    ensures
        r@ == json_of_lines(lines.deep_view()),
        lines_of_json(r@) == Some(lines.deep_view()),
{
    serde_json::to_string(lines).unwrap_or_else(|_| String::new())
}

/// Relies on `serde_json::from_str` for `Vec<String>`: whether JSON text
/// parses to a list of lines, and to which, is a pure function of the text.
#[verifier::external_body]
pub fn logs_from_json(text: &str) -> (r: Option<Vec<String>>)
    ensures
        match r {
            Some(v) => lines_of_json(text@) == Some(v.deep_view()),
            None => lines_of_json(text@) is None,
        },
{
    serde_json::from_str::<Vec<String>>(text).ok()
}

/// Relies on `flate2::write::GzEncoder` into a `Vec` (whose writes cannot
/// fail): the output is one gzip member that decompresses to exactly the
/// input bytes.
#[verifier::external_body]
pub fn compress_json(data: &str) -> (r: Vec<u8>)
    ensures
        gunzip_of(r@) == Some(data.spec_bytes()),
{
    let mut encoder = flate2::write::GzEncoder::new(Vec::new(), flate2::Compression::default());
    match encoder.write_all(data.as_bytes()) {
        Ok(()) => {},
        Err(_) => {
            return Vec::new();
        },
    }
    encoder.finish().unwrap_or_else(|_| Vec::new())
}

/// Relies on `flate2::read::GzDecoder` (`read_to_string`): succeeds exactly
/// when the bytes decompress as gzip to valid UTF-8, and then returns that
/// text.
#[verifier::external_body]
pub fn decompress_json(bytes: &Vec<u8>) -> (r: Result<String, String>)
    ensures
        r is Ok <==> (gunzip_of(bytes@) is Some && valid_utf8(gunzip_of(bytes@)->0)),
        r is Ok ==> vstd::utf8::encode_utf8(r->Ok_0@) == gunzip_of(bytes@)->0,
{
    let mut decoder = flate2::read::GzDecoder::new(bytes.as_slice());
    let mut out = String::new();
    match decoder.read_to_string(&mut out) {
        Ok(_) => Ok(out),
        Err(e) => Err(e.to_string()),
    }
}

} // verus!
