//! Gzip compression of the guide document.
use std::io::Write;

use flate2::write::GzEncoder;
use flate2::Compression;

use vstd::prelude::*;

verus! {

/// The gzip stream that flate2 writes for the data at its best compression
/// level.
pub uninterp spec fn gzip_best_stream(data: Seq<u8>) -> Seq<u8>;

/// The header flate2 writes at its best level: the gzip magic, deflate, no
/// flags, no time stamp, the "best compression" flag and operating system
/// 255.
pub open spec fn gzip_best_header() -> Seq<u8> {
    seq![0x1fu8, 0x8bu8, 8u8, 0u8, 0u8, 0u8, 0u8, 0u8, 2u8, 255u8]
}

/// `GzEncoder::new(Vec::new(), Compression::best())`, `write_all(data)` and
/// `finish()`: the header above, the deflate stream, then the CRC-32 and the
/// length (eight bytes). Writing into a vector does not fail. Of the
/// deflate stream nothing more is stated than its name.
#[verifier::external_body]
fn gzip_encode(data: &[u8]) -> (res: Vec<u8>)
    ensures
        res@ == gzip_best_stream(data@),
        res@.len() >= 18,
        res@.take(10) == gzip_best_header(),
{
    let mut encoder = GzEncoder::new(Vec::new(), Compression::best());
    encoder.write_all(data).unwrap();
    encoder.finish().unwrap()
}

/// The data compressed as a gzip stream at the best level.
pub fn gzip_best(content: &[u8]) -> (res: Vec<u8>)
    ensures
        res@ == gzip_best_stream(content@),
        res@.take(10) == gzip_best_header(),
{
    gzip_encode(content)
}

} // verus!
