//! The public manifest: each published artifact with its size and its
//! SHA-256 digest in lowercase hex.
use sha2::{Digest, Sha256};

use vstd::prelude::*;

use crate::json::{as_str_spec, JsonValue};
use crate::text::string_of;

verus! {

/// The SHA-256 digest of a byte string (FIPS 180-4).
pub uninterp spec fn sha256_of(data: Seq<u8>) -> Seq<u8>;

/// `Sha256::new()`, `update(data)`, `finalize()`: the 32-byte SHA-256
/// digest of the data.
#[verifier::external_body]
fn sha256_digest(data: &[u8]) -> (res: Vec<u8>)
    ensures
        res@ == sha256_of(data@),
        res@.len() == 32,
{
    let mut hasher = Sha256::new();
    hasher.update(data);
    hasher.finalize().to_vec()
}

/// The lowercase hex digit of a nibble.
pub open spec fn hex_lower(n: int) -> char {
    if n < 10 {
        (('0' as int) + n) as char
    } else {
        (('a' as int) + n - 10) as char
    }
}

/// Bytes in lowercase hex, two digits each, the high nibble first.
pub open spec fn hex_text(bytes: Seq<u8>) -> Seq<char>
    decreases bytes.len(),
{
    if bytes.len() == 0 {
        seq![]
    } else {
        hex_text(bytes.drop_last()) + seq![
            hex_lower((bytes.last() / 16) as int),
            hex_lower((bytes.last() % 16) as int),
        ]
    }
}

fn hex_char(n: u8) -> (c: char)
    requires
        n < 16,
    ensures
        c == hex_lower(n as int),
{
    if n < 10 {
        ((48u8 + n) as char)
    } else {
        ((87u8 + n) as char)
    }
}

/// The SHA-256 digest of the data in lowercase hex, as `{:x}` writes it:
/// 64 digits.
pub fn sha256_hex(data: &[u8]) -> (res: String)
    ensures
        res@ == hex_text(sha256_of(data@)),
        res@.len() == 64,
{
    let digest = sha256_digest(data);
    let mut out: Vec<char> = Vec::new();
    let mut i: usize = 0;
    assert(digest@.take(0) =~= Seq::<u8>::empty());
    while i < digest.len()
        invariant
            i <= digest.len(),
            digest@.len() == 32,
            out@ == hex_text(digest@.take(i as int)),
            out@.len() == 2 * i,
        decreases digest.len() - i,
    {
        let b = digest[i];
        assert(digest@.take(i + 1).drop_last() =~= digest@.take(i as int));
        assert(digest@.take(i + 1).last() == b);
        out.push(hex_char(b / 16));
        out.push(hex_char(b % 16));
        i = i + 1;
        assert(out@ =~= hex_text(digest@.take(i as int)));
    }
    assert(digest@.take(i as int) =~= digest@);
    string_of(&out)
}

/// A JSON number for a size: an integer that fits an `i64` is held as one.
pub open spec fn size_json(bytes: u64) -> JsonValue {
    if bytes <= i64::MAX {
        JsonValue::Int(bytes as i64)
    } else {
        JsonValue::UInt(bytes)
    }
}

fn size_json_exec(bytes: u64) -> (res: JsonValue)
    ensures
        res == size_json(bytes),
{
    if bytes <= 9_223_372_036_854_775_807u64 {
        JsonValue::Int(bytes as i64)
    } else {
        JsonValue::UInt(bytes)
    }
}

/// The manifest entry of one artifact: its path, its size and its digest.
pub open spec fn artifact_json_ok(j: JsonValue, path: Seq<char>, bytes: u64, sha256: Seq<char>) -> bool {
    match j {
        JsonValue::Object(ms) => {
            &&& ms@.len() == 3
            &&& ms@[0].0@ == "path"@ && as_str_spec(ms@[0].1) == Some(path)
            &&& ms@[1].0@ == "bytes"@ && ms@[1].1 == size_json(bytes)
            &&& ms@[2].0@ == "sha256"@ && as_str_spec(ms@[2].1) == Some(sha256)
        },
        _ => false,
    }
}

/// The manifest: its name, when it was made, and its artifacts in order.
pub open spec fn manifest_json_ok(j: JsonValue, generated_at: Seq<char>, artifacts: Seq<(String, u64, String)>) -> bool {
    match j {
        JsonValue::Object(ms) => {
            &&& ms@.len() == 3
            &&& ms@[0].0@ == "name"@ && as_str_spec(ms@[0].1) == Some("omega-iptv-rust"@)
            &&& ms@[1].0@ == "generated_at_utc"@ && as_str_spec(ms@[1].1) == Some(generated_at)
            &&& ms@[2].0@ == "artifacts"@
            &&& match ms@[2].1 {
                JsonValue::Array(a) => a@.len() == artifacts.len() && forall|k: int|
                    0 <= k < a@.len() ==> artifact_json_ok(
                        #[trigger] a@[k],
                        artifacts[k].0@,
                        artifacts[k].1,
                        artifacts[k].2@,
                    ),
                _ => false,
            }
        },
        _ => false,
    }
}

/// The public manifest of the artifacts, each given as its path, its size
/// in bytes and its digest.
pub fn manifest_json(generated_at: &str, artifacts: &Vec<(String, u64, String)>) -> (res: JsonValue)
    ensures
        manifest_json_ok(res, generated_at@, artifacts@),
{
    let mut items: Vec<JsonValue> = Vec::new();
    let mut i: usize = 0;
    while i < artifacts.len()
        invariant
            i <= artifacts.len(),
            items@.len() == i,
            forall|k: int|
                0 <= k < i ==> artifact_json_ok(
                    #[trigger] items@[k],
                    artifacts@[k].0@,
                    artifacts@[k].1,
                    artifacts@[k].2@,
                ),
        decreases artifacts.len() - i,
    {
        let mut ms: Vec<(String, JsonValue)> = Vec::new();
        ms.push((String::from_str("path"), JsonValue::Str(artifacts[i].0.clone())));
        ms.push((String::from_str("bytes"), size_json_exec(artifacts[i].1)));
        ms.push((String::from_str("sha256"), JsonValue::Str(artifacts[i].2.clone())));
        items.push(JsonValue::Object(ms));
        i = i + 1;
    }
    let mut ms: Vec<(String, JsonValue)> = Vec::new();
    ms.push((String::from_str("name"), JsonValue::Str(String::from_str("omega-iptv-rust"))));
    ms.push((String::from_str("generated_at_utc"), JsonValue::Str(String::from_str(generated_at))));
    ms.push((String::from_str("artifacts"), JsonValue::Array(items)));
    JsonValue::Object(ms)
}

} // verus!
