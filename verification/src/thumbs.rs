//! Thumbnail support: which files are eligible, the cache key derived from
//! a path and its modification time, and the base64 encoding of thumbnail
//! bytes for data URIs.
use vstd::prelude::*;
use vstd::string::StrSliceExecFns;
use vstd::string::StringExecFns;
use vstd::utf8::encode_utf8;

use crate::textops::{extension_of, extension_spec, lower_of, lowercase, str_eq, string_from_ascii};

verus! {

/// Extensions for which thumbnails are generated.
pub open spec fn is_supported_image_ext(e: Seq<char>) -> bool {
    ||| e == "jpg"@
    ||| e == "jpeg"@
    ||| e == "png"@
    ||| e == "gif"@
    ||| e == "webp"@
    ||| e == "bmp"@
}

/// Whether a path names a supported image, judged by its lowercased
/// extension.
pub open spec fn spec_is_supported_image(path: Seq<char>) -> bool {
    match extension_spec(path) {
        Some(e) => is_supported_image_ext(lower_of(e)),
        None => false,
    }
}

/// Check if a file is a supported image type.
pub fn is_supported_image(path: &str) -> (r: bool)
    ensures
        r == spec_is_supported_image(path@),
{
    match extension_of(path) {
        Some(e) => {
            let l = lowercase(e.as_str());
            let s = l.as_str();
            str_eq(s, "jpg") || str_eq(s, "jpeg") || str_eq(s, "png") || str_eq(s, "gif") || str_eq(
                s,
                "webp",
            ) || str_eq(s, "bmp")
        },
        None => false,
    }
}

/// The base64 alphabet, by index.
pub open spec fn b64_char(v: int) -> char {
    if v < 26 {
        ((65 + v) as u8) as char
    } else if v < 52 {
        ((97 + v - 26) as u8) as char
    } else if v < 62 {
        ((48 + v - 52) as u8) as char
    } else if v == 62 {
        '+'
    } else {
        '/'
    }
}

/// The four output characters of one input group of `len` bytes (1 to 3),
/// padded with `'='`.
pub open spec fn b64_group(b0: int, b1: int, b2: int, len: int) -> Seq<char> {
    let c0 = b64_char(b0 / 4);
    let c1 = b64_char((b0 % 4) * 16 + b1 / 16);
    if len == 1 {
        seq![c0, c1, '=', '=']
    } else {
        let c2 = b64_char((b1 % 16) * 4 + b2 / 64);
        if len == 2 {
            seq![c0, c1, c2, '=']
        } else {
            seq![c0, c1, c2, b64_char(b2 % 64)]
        }
    }
}

/// The base64 encoding of a byte sequence: four characters per group of
/// three bytes, the last group padded.
pub open spec fn b64_spec(data: Seq<u8>) -> Seq<char>
    decreases data.len(),
{
    if data.len() == 0 {
        Seq::empty()
    } else if data.len() == 1 {
        b64_group(data[0] as int, 0, 0, 1)
    } else if data.len() == 2 {
        b64_group(data[0] as int, data[1] as int, 0, 2)
    } else {
        b64_group(data[0] as int, data[1] as int, data[2] as int, 3) + b64_spec(data.skip(3))
    }
}

/// The alphabet byte for a six-bit value.
fn b64_byte(v: u8) -> (r: u8)
    requires
        v < 64,
    ensures
        r < 128,
        r as char == b64_char(v as int),
{
    if v < 26 {
        65 + v
    } else if v < 52 {
        97 + v - 26
    } else if v < 62 {
        48 + v - 52
    } else if v == 62 {
        43
    } else {
        47
    }
}

/// Simple base64 encoding.
pub fn base64_encode(data: &[u8]) -> (r: String)
    ensures
        r@ == b64_spec(data@),
{
    let len = data.len();
    let mut out: Vec<u8> = Vec::new();
    let mut i: usize = 0;
    proof {
        assert(data@.skip(0) =~= data@);
        assert(out@.map(|_k: int, b: u8| b as char) =~= Seq::<char>::empty());
    }
    while i < len && len - i >= 3
        invariant
            len == data@.len(),
            0 <= i <= len,
            i % 3 == 0,
            forall|k: int| 0 <= k < out@.len() ==> #[trigger] out@[k] < 128,
            b64_spec(data@) =~= out@.map(|_k: int, b: u8| b as char) + b64_spec(
                data@.skip(i as int),
            ),
        decreases len - i,
    {
        let ghost out0 = out@;
        let b0 = data[i];
        let b1 = data[i + 1];
        let b2 = data[i + 2];
        out.push(b64_byte(b0 / 4));
        out.push(b64_byte((b0 % 4) * 16 + b1 / 16));
        out.push(b64_byte((b1 % 16) * 4 + b2 / 64));
        out.push(b64_byte(b2 % 64));
        proof {
            let rest = data@.skip(i as int);
            assert(rest.len() >= 3);
            assert(rest[0] == b0 && rest[1] == b1 && rest[2] == b2);
            assert(rest.skip(3) =~= data@.skip(i as int + 3));
            assert(b64_spec(rest) == b64_group(b0 as int, b1 as int, b2 as int, 3) + b64_spec(
                rest.skip(3),
            ));
            assert(out@.map(|_k: int, b: u8| b as char) =~= out0.map(|_k: int, b: u8| b as char)
                + b64_group(b0 as int, b1 as int, b2 as int, 3));
            assert(b64_spec(data@) =~= out@.map(|_k: int, b: u8| b as char) + b64_spec(
                data@.skip(i as int + 3),
            ));
        }
        i = i + 3;
    }
    let ghost out0 = out@;
    let rem = len - i;
    if rem == 1 {
        let b0 = data[i];
        out.push(b64_byte(b0 / 4));
        out.push(b64_byte((b0 % 4) * 16));
        out.push(61);
        out.push(61);
        proof {
            let rest = data@.skip(i as int);
            assert(rest.len() == 1);
            assert(rest[0] == b0);
            assert(b64_spec(rest) == b64_group(b0 as int, 0, 0, 1));
            assert(61u8 as char == '=');
            assert(out@.map(|_k: int, b: u8| b as char) =~= out0.map(|_k: int, b: u8| b as char)
                + b64_group(b0 as int, 0, 0, 1));
        }
    } else if rem == 2 {
        let b0 = data[i];
        let b1 = data[i + 1];
        out.push(b64_byte(b0 / 4));
        out.push(b64_byte((b0 % 4) * 16 + b1 / 16));
        out.push(b64_byte((b1 % 16) * 4));
        out.push(61);
        proof {
            let rest = data@.skip(i as int);
            assert(rest.len() == 2);
            assert(rest[0] == b0 && rest[1] == b1);
            assert(b64_spec(rest) == b64_group(b0 as int, b1 as int, 0, 2));
            assert(61u8 as char == '=');
            assert(out@.map(|_k: int, b: u8| b as char) =~= out0.map(|_k: int, b: u8| b as char)
                + b64_group(b0 as int, b1 as int, 0, 2));
        }
    } else {
        proof {
            assert(data@.skip(i as int).len() == 0);
            assert(b64_spec(data@.skip(i as int)) =~= Seq::<char>::empty());
        }
    }
    proof {
        assert(b64_spec(data@) =~= out@.map(|_k: int, b: u8| b as char));
    }
    string_from_ascii(out)
}

/// What the hash of the cache key input is: a function of the bytes alone.
pub uninterp spec fn sha256_of(data: Seq<u8>) -> Seq<u8>;

/// Relies on `sha2::Sha256`: the digest depends on the input bytes alone
/// and is 32 bytes long.
#[verifier::external_body]
fn sha256_digest(data: &Vec<u8>) -> (r: Vec<u8>)
    ensures
        r@ == sha256_of(data@),
        r@.len() == 32,
{
    let mut hasher = <sha2::Sha256 as sha2::Digest>::new();
    sha2::Digest::update(&mut hasher, data.as_slice());
    sha2::Digest::finalize(hasher).to_vec()
}

/// The lowercase hex digit for a value in `[0, 16)`.
pub open spec fn hex_digit(v: int) -> char {
    if v < 10 {
        ((48 + v) as u8) as char
    } else {
        ((87 + v) as u8) as char
    }
}

/// The lowercase hex encoding of a byte sequence: two digits per byte.
pub open spec fn hex_spec(data: Seq<u8>) -> Seq<char>
    decreases data.len(),
{
    if data.len() == 0 {
        Seq::empty()
    } else {
        seq![hex_digit(data[0] as int / 16), hex_digit(data[0] as int % 16)] + hex_spec(
            data.drop_first(),
        )
    }
}

/// Hex encoding doubles the length.
pub proof fn lemma_hex_len(data: Seq<u8>)
    ensures
        hex_spec(data).len() == 2 * data.len(),
    decreases data.len(),
{
    if data.len() > 0 {
        lemma_hex_len(data.drop_first());
    }
}

/// Relies on `hex::encode`: the lowercase hex encoding of the bytes, two
/// digits per byte.
#[verifier::external_body]
fn hex_encode(data: &Vec<u8>) -> (r: String)
    ensures
        r@ == hex_spec(data@),
{
    hex::encode(data)
}

/// The little-endian bytes of a 64-bit number, least significant first.
pub open spec fn le_bytes_spec(n: u64) -> Seq<u8> {
    seq![
        (n as int % 256) as u8,
        (n as int / 256 % 256) as u8,
        (n as int / 65536 % 256) as u8,
        (n as int / 16777216 % 256) as u8,
        (n as int / 4294967296 % 256) as u8,
        (n as int / 1099511627776 % 256) as u8,
        (n as int / 281474976710656 % 256) as u8,
        (n as int / 72057594037927936 % 256) as u8,
    ]
}

/// Split a number into its eight little-endian bytes.
pub fn u64_le_bytes(n: u64) -> (r: Vec<u8>)
    ensures
        r@ == le_bytes_spec(n),
{
    let mut out: Vec<u8> = Vec::new();
    out.push((n % 256) as u8);
    out.push((n / 256 % 256) as u8);
    out.push((n / 65536 % 256) as u8);
    out.push((n / 16777216 % 256) as u8);
    out.push((n / 4294967296 % 256) as u8);
    out.push((n / 1099511627776 % 256) as u8);
    out.push((n / 281474976710656 % 256) as u8);
    out.push((n / 72057594037927936 % 256) as u8);
    proof {
        assert(out@ =~= le_bytes_spec(n));
    }
    out
}

/// The cache key of a thumbnail: the hex digest of the source path's bytes
/// followed by the little-endian bytes of its modification time, 64 hex
/// characters.
pub fn cache_key_for(path: &str, modified_secs: u64) -> (r: String)
    ensures
        r@ == hex_spec(sha256_of(encode_utf8(path@) + le_bytes_spec(modified_secs))),
        r@.len() == 64,
{
    let mut bytes = path.as_bytes_vec();
    let mut stamp = u64_le_bytes(modified_secs);
    let ghost path_bytes = bytes@;
    while stamp.len() > 0
        invariant
            bytes@ + stamp@ =~= path_bytes + le_bytes_spec(modified_secs),
        decreases stamp@.len(),
    {
        let ghost stamp0 = stamp@;
        let b = stamp.remove(0);
        proof {
            assert(stamp0[0] == b);
            assert(bytes@.push(b) + stamp@ =~= bytes@ + stamp0);
        }
        bytes.push(b);
    }
    proof {
        assert(bytes@ =~= path_bytes + le_bytes_spec(modified_secs));
    }
    let digest = sha256_digest(&bytes);
    let key = hex_encode(&digest);
    proof {
        lemma_hex_len(digest@);
    }
    key
}

/// The file a cache key is stored under.
pub fn thumbnail_cache_file_name(key: &str) -> (r: String)
    ensures
        r@ == key@ + ".jpg"@,
{
    let mut s = String::from_str(key);
    s.append(".jpg");
    s
}

/// A base64 JPEG payload as a data URI.
pub fn jpeg_data_uri(b64: &str) -> (r: String)
    ensures
        r@ == "data:image/jpeg;base64,"@ + b64@,
{
    let mut s = String::from_str("data:image/jpeg;base64,");
    s.append(b64);
    s
}

/// What the thumbnail cache holds.
#[derive(Debug)]
pub struct ThumbnailCacheStats {
    pub count: usize,
    pub total_size: u64,
    pub path: String,
}

/// The sum of the sizes, saturated at the type's ceiling.
pub open spec fn sat_sum(sizes: Seq<u64>) -> int
    decreases sizes.len(),
{
    if sizes.len() == 0 {
        0
    } else {
        let p = sat_sum(sizes.drop_last());
        if p + sizes.last() <= u64::MAX {
            p + sizes.last()
        } else {
            u64::MAX as int
        }
    }
}

/// Tally the cache: one entry per size, and their saturated total.
pub fn cache_stats(path: String, sizes: &Vec<u64>) -> (r: ThumbnailCacheStats)
    ensures
        r.count == sizes@.len(),
        r.total_size == sat_sum(sizes@),
        r.path == path,
{
    let mut total: u64 = 0;
    let mut i: usize = 0;
    let n = sizes.len();
    while i < n
        invariant
            n == sizes@.len(),
            0 <= i <= n,
            total == sat_sum(sizes@.take(i as int)),
        decreases n - i,
    {
        let sz = sizes[i];
        proof {
            assert(sizes@.take(i as int + 1).drop_last() =~= sizes@.take(i as int));
            assert(sizes@.take(i as int + 1).last() == sz);
        }
        if total <= u64::MAX - sz {
            total = total + sz;
        } else {
            total = u64::MAX;
        }
        i = i + 1;
    }
    proof {
        assert(sizes@.take(n as int) =~= sizes@);
    }
    ThumbnailCacheStats { count: n, total_size: total, path }
}

} // verus!
