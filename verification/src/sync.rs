use vstd::prelude::*;
use std::io::Write;
use serde_json::Value;
use crate::text::{string_from_chars, trim_end_char, trim_end_matches_char};
use crate::json::{JsonValue, Json};

verus! {

/// The URL-safe base64 alphabet (RFC 4648, section 5): symbol `i` for `0 <= i < 64`.
pub open spec fn b64url_symbol(i: int) -> char {
    if i < 26 {
        (i + 65) as char
    } else if i < 52 {
        (i - 26 + 97) as char
    } else if i < 62 {
        (i - 52 + 48) as char
    } else if i == 62 {
        '-'
    } else {
        '_'
    }
}

/// The symbols of one group of up to three bytes `a`, `b`, `c`, of which the
/// first `k` are present (`1 <= k <= 3`); absent bytes count as zero.
pub open spec fn b64url_group(a: int, b: int, c: int, k: int) -> Seq<char> {
    let s0 = b64url_symbol(a / 4);
    let s1 = b64url_symbol((a % 4) * 16 + b / 16);
    let s2 = b64url_symbol((b % 16) * 4 + c / 64);
    let s3 = b64url_symbol(c % 64);
    if k == 1 {
        seq![s0, s1]
    } else if k == 2 {
        seq![s0, s1, s2]
    } else {
        seq![s0, s1, s2, s3]
    }
}

/// Unpadded URL-safe base64 of `d`: every full group of three bytes gives four
/// symbols, a trailing group of one byte gives two, of two bytes gives three.
pub open spec fn spec_base64_url(d: Seq<u8>) -> Seq<char>
    decreases d.len(),
{
    if d.len() == 0 {
        seq![]
    } else {
        let a = d[0] as int;
        let b = if d.len() > 1 { d[1] as int } else { 0 };
        let c = if d.len() > 2 { d[2] as int } else { 0 };
        if d.len() <= 3 {
            b64url_group(a, b, c, d.len() as int)
        } else {
            b64url_group(a, b, c, 3) + spec_base64_url(d.skip(3))
        }
    }
}

fn symbol(i: u8) -> (c: char)
    requires
        i < 64,
    ensures
        c == b64url_symbol(i as int),
{
    if i < 26 {
        (i + 65) as char
    } else if i < 52 {
        (i - 26 + 97) as char
    } else if i < 62 {
        (i - 52 + 48) as char
    } else if i == 62 {
        '-'
    } else {
        '_'
    }
}

/// Encodes bytes as unpadded URL-safe base64.
pub fn base64_url_encode(data: &[u8]) -> (res: String)
    ensures
        res@ == spec_base64_url(data@),
{
    let mut out: Vec<char> = Vec::new();
    let n = data.len();
    let mut i: usize = 0;
    assert(data@.skip(0) =~= data@);
    while i < n
        invariant
            i <= n,
            n == data@.len(),
            spec_base64_url(data@) =~= out@ + spec_base64_url(data@.skip(i as int)),
        decreases n - i,
    {
        let rest = Ghost(data@.skip(i as int));
        let b0 = data[i];
        let b1: u8 = if n - i > 1 { data[i + 1] } else { 0 };
        let b2: u8 = if n - i > 2 { data[i + 2] } else { 0 };
        assert(rest@.len() == n - i && rest@[0] == b0);
        assert(n - i > 1 ==> rest@[1] == b1);
        assert(n - i > 2 ==> rest@[2] == b2);
        assert((b0 >> 2) == b0 / 4 && (b0 >> 2) < 64) by (bit_vector);
        assert((((b0 & 0x03) << 4) | (b1 >> 4)) == (b0 % 4) * 16 + b1 / 16
            && (((b0 & 0x03) << 4) | (b1 >> 4)) < 64) by (bit_vector);
        assert((((b1 & 0x0F) << 2) | (b2 >> 6)) == (b1 % 16) * 4 + b2 / 64
            && (((b1 & 0x0F) << 2) | (b2 >> 6)) < 64) by (bit_vector);
        assert((b2 & 0x3F) == b2 % 64) by (bit_vector);
        let ghost old_out = out@;
        out.push(symbol(b0 >> 2));
        out.push(symbol(((b0 & 0x03) << 4) | (b1 >> 4)));
        if n - i > 1 {
            out.push(symbol(((b1 & 0x0F) << 2) | (b2 >> 6)));
        }
        if n - i > 2 {
            out.push(symbol(b2 & 0x3F));
        }
        let ghost k: int = if n - i >= 3 { 3 } else { (n - i) as int };
        assert(out@ =~= old_out + b64url_group(b0 as int, b1 as int, b2 as int, k));
        assert(spec_base64_url(rest@) =~= b64url_group(b0 as int, b1 as int, b2 as int, k) + (if n - i <= 3 {
            Seq::<char>::empty()
        } else {
            spec_base64_url(rest@.skip(3))
        }));
        if n - i <= 3 {
            assert(data@.skip(n as int) =~= Seq::<u8>::empty());
            i = n;
        } else {
            assert(rest@.skip(3) =~= data@.skip(i + 3));
            i = i + 3;
        }
    }
    string_from_chars(&out)
}

/// Position of `c` in the URL-safe base64 alphabet, or `-1` for any other character.
pub open spec fn b64url_index(c: char) -> int {
    let x = c as int;
    if 65 <= x <= 90 {
        x - 65
    } else if 97 <= x <= 122 {
        x - 97 + 26
    } else if 48 <= x <= 57 {
        x - 48 + 52
    } else if c == '-' {
        62
    } else if c == '_' {
        63
    } else {
        -1
    }
}

/// Decoding of unpadded URL-safe base64, as the import page does it: each group of
/// up to four symbols gives one byte less than its number of symbols.
pub open spec fn spec_base64_url_decode(s: Seq<char>) -> Seq<u8>
    decreases s.len(),
{
    if s.len() == 0 {
        seq![]
    } else {
        let x0 = b64url_index(s[0]);
        let x1 = if s.len() > 1 { b64url_index(s[1]) } else { 0 };
        let x2 = if s.len() > 2 { b64url_index(s[2]) } else { 0 };
        let x3 = if s.len() > 3 { b64url_index(s[3]) } else { 0 };
        let v0 = ((x0 % 64) * 4 + x1 / 16) as u8;
        let v1 = ((x1 % 16) * 16 + x2 / 4) as u8;
        let v2 = ((x2 % 4) * 64 + x3) as u8;
        let head = if s.len() <= 2 {
            seq![v0]
        } else if s.len() == 3 {
            seq![v0, v1]
        } else {
            seq![v0, v1, v2]
        };
        if s.len() <= 4 {
            head
        } else {
            head + spec_base64_url_decode(s.skip(4))
        }
    }
}

/// Every symbol of the alphabet is a URL-safe character whose position is its index.
pub proof fn lemma_b64url_symbol(i: int)
    requires
        0 <= i < 64,
    ensures
        b64url_index(b64url_symbol(i)) == i,
        b64url_url_safe(b64url_symbol(i)),
{
}

/// Characters that may stand in a URL fragment without escaping: ASCII letters, digits, `-`, `_`.
pub open spec fn b64url_url_safe(c: char) -> bool {
    ||| 'A' <= c <= 'Z'
    ||| 'a' <= c <= 'z'
    ||| '0' <= c <= '9'
    ||| c == '-'
    ||| c == '_'
}

proof fn lemma_group_arith(a: int, b: int, c: int)
    requires
        0 <= a < 256,
        0 <= b < 256,
        0 <= c < 256,
    ensures
        0 <= a / 4 < 64,
        0 <= (a % 4) * 16 + b / 16 < 64,
        0 <= (b % 16) * 4 + c / 64 < 64,
        0 <= c % 64 < 64,
        (a / 4) * 4 + ((a % 4) * 16 + b / 16) / 16 == a,
        (((a % 4) * 16 + b / 16) % 16) * 16 + ((b % 16) * 4 + c / 64) / 4 == b,
        (((b % 16) * 4 + c / 64) % 4) * 64 + c % 64 == c,
{
    assert(0 <= (a % 4) * 16 + b / 16 < 64) by (nonlinear_arith)
        requires 0 <= a < 256, 0 <= b < 256;
    assert(0 <= (b % 16) * 4 + c / 64 < 64) by (nonlinear_arith)
        requires 0 <= b < 256, 0 <= c < 256;
    assert((a / 4) * 4 + ((a % 4) * 16 + b / 16) / 16 == a) by (nonlinear_arith)
        requires 0 <= a < 256, 0 <= b < 256;
    assert((((a % 4) * 16 + b / 16) % 16) * 16 + ((b % 16) * 4 + c / 64) / 4 == b) by (nonlinear_arith)
        requires 0 <= a < 256, 0 <= b < 256, 0 <= c < 256;
    assert((((b % 16) * 4 + c / 64) % 4) * 64 + c % 64 == c) by (nonlinear_arith)
        requires 0 <= b < 256, 0 <= c < 256;
}

/// The encoding is lossless: decoding the URL-safe base64 of any bytes, as the import
/// page does, gives those bytes back.
pub proof fn lemma_base64_url_roundtrip(d: Seq<u8>)
    ensures
        spec_base64_url_decode(spec_base64_url(d)) == d,
    decreases d.len(),
{
    if d.len() > 0 {
        let a = d[0] as int;
        let b = if d.len() > 1 { d[1] as int } else { 0 };
        let c = if d.len() > 2 { d[2] as int } else { 0 };
        lemma_group_arith(a, b, c);
        lemma_b64url_symbol(a / 4);
        lemma_b64url_symbol((a % 4) * 16 + b / 16);
        lemma_b64url_symbol((b % 16) * 4 + c / 64);
        lemma_b64url_symbol(c % 64);
        let e = spec_base64_url(d);
        if d.len() <= 3 {
            assert(spec_base64_url_decode(e) =~= d);
        } else {
            lemma_base64_url_roundtrip(d.skip(3));
            assert(e.skip(4) =~= spec_base64_url(d.skip(3)));
            assert(spec_base64_url_decode(e) =~= d);
        }
    }
}

/// The encoding has `4 * (n / 3)` symbols for the full groups of `n` bytes, plus one
/// more than the number of trailing bytes, and every symbol is URL-safe.
pub proof fn lemma_base64_url_shape(d: Seq<u8>)
    ensures
        spec_base64_url(d).len() == 4 * (d.len() / 3) + (if d.len() % 3 == 0 { 0 } else { d.len() % 3 + 1 }),
        forall|j: int| 0 <= j < spec_base64_url(d).len() ==> b64url_url_safe(#[trigger] spec_base64_url(d)[j]),
    decreases d.len(),
{
    if d.len() > 0 {
        let a = d[0] as int;
        let b = if d.len() > 1 { d[1] as int } else { 0 };
        let c = if d.len() > 2 { d[2] as int } else { 0 };
        lemma_group_arith(a, b, c);
        lemma_b64url_symbol(a / 4);
        lemma_b64url_symbol((a % 4) * 16 + b / 16);
        lemma_b64url_symbol((b % 16) * 4 + c / 64);
        lemma_b64url_symbol(c % 64);
        if d.len() > 3 {
            lemma_base64_url_shape(d.skip(3));
            let g = b64url_group(a, b, c, 3);
            let r = spec_base64_url(d.skip(3));
            assert forall|j: int| 0 <= j < spec_base64_url(d).len() implies b64url_url_safe(#[trigger] spec_base64_url(d)[j]) by {
                if j >= 4 {
                    assert(spec_base64_url(d)[j] == r[j - 4]);
                }
            }
        }
    }
}

/// The bytes that `serde_json::to_vec` gives for the document (objects as
/// serde_json's default, key-ordered map).
pub uninterp spec fn json_bytes_of(v: Json) -> Seq<u8>;

/// The text that `serde_json::to_string_pretty` gives for the document.
pub uninterp spec fn json_pretty_of(v: Json) -> Seq<char>;

/// The raw DEFLATE stream (RFC 1951) that flate2's `DeflateEncoder` with
/// `Compression::best()` produces for `data` written at once, or `None` when
/// writing or finishing reports an error.
pub uninterp spec fn deflate_best_of(data: Seq<u8>) -> Option<Seq<u8>>;

/// Part of the JSON wrappers' trusted bodies: builds the serde_json value of a
/// document, kind for kind (an object's entries inserted in order).
#[verifier::external_body]
fn json_to_serde(v: &JsonValue) -> Value {
    match v {
        JsonValue::Null => Value::Null,
        JsonValue::Bool(b) => Value::Bool(*b),
        JsonValue::Int(i) => Value::from(*i),
        JsonValue::UInt(u) => Value::from(*u),
        JsonValue::Float(n) => Value::Number(n.clone()),
        JsonValue::Str(s) => Value::String(s.clone()),
        JsonValue::Array(a) => Value::Array(a.iter().map(json_to_serde).collect()),
        JsonValue::Object(o) => Value::Object(o.iter().map(|(k, x)| (k.clone(), json_to_serde(x))).collect()),
    }
}

/// Serializes a document as compact JSON text.
///
/// Trusted: calls `serde_json::to_vec` on the document's serde_json value. The
/// contract claims success (a `serde_json::Value` has string keys and finite
/// numbers only, and writing into a `Vec` cannot fail) with the bytes named by
/// `json_bytes_of`.
#[verifier::external_body]
fn json_to_vec(v: &JsonValue) -> (res: Result<Vec<u8>, String>)
    ensures
        match res {
            Ok(b) => b@ == json_bytes_of(v@),
            Err(_) => false,
        },
{
    serde_json::to_vec(&json_to_serde(v)).map_err(|e| e.to_string())
}

/// Serializes a document as indented JSON text.
///
/// Trusted: calls `serde_json::to_string_pretty` on the document's serde_json
/// value. The contract claims success (for the same reasons as `json_to_vec`) with
/// the text named by `json_pretty_of`.
#[verifier::external_body]
pub(crate) fn json_to_string_pretty(v: &JsonValue) -> (res: Result<String, String>)
    ensures
        match res {
            Ok(t) => t@ == json_pretty_of(v@),
            Err(_) => false,
        },
{
    serde_json::to_string_pretty(&json_to_serde(v)).map_err(|e| e.to_string())
}

/// The step of compressing that reported an error.
pub enum DeflateStage {
    Write,
    Finish,
}

/// Compresses bytes as a raw DEFLATE stream at the best compression level.
///
/// Trusted: calls flate2's `DeflateEncoder::new` over a `Vec<u8>` with
/// `Compression::best()`, then `write_all` and `finish`. The contract claims that the
/// outcome is the one named by `deflate_best_of`; on failure it gives the step that
/// failed and the I/O error's text, which is not stated.
#[verifier::external_body]
fn deflate_best(data: &[u8]) -> (res: Result<Vec<u8>, (DeflateStage, String)>)
    ensures
        match res {
            Ok(c) => deflate_best_of(data@) == Some(c@),
            Err(_) => deflate_best_of(data@) is None,
        },
{
    let mut encoder = flate2::write::DeflateEncoder::new(Vec::new(), flate2::Compression::best());
    encoder.write_all(data).map_err(|e| (DeflateStage::Write, e.to_string()))?;
    encoder.finish().map_err(|e| (DeflateStage::Finish, e.to_string()))
}

/// What `compress_and_encode` gives for a document: its compact JSON text, deflated,
/// in unpadded URL-safe base64; `None` when compressing fails.
pub open spec fn spec_compressed_payload(v: Json) -> Option<Seq<char>> {
    match deflate_best_of(json_bytes_of(v)) {
        Some(c) => Some(spec_base64_url(c)),
        None => None,
    }
}

/// Serializes the document to JSON, deflates it, and encodes the result as
/// unpadded URL-safe base64, ready for a URL fragment. Serializing never fails;
/// a compression failure is reported with the step that failed.
pub fn compress_and_encode(payload: &JsonValue) -> (res: Result<String, String>)
    ensures
        match res {
            Ok(s) => spec_compressed_payload(payload@) == Some(s@),
            Err(m) => spec_compressed_payload(payload@) is None
                && ("Deflate write: "@.is_prefix_of(m@) || "Deflate finish: "@.is_prefix_of(m@)),
        },
{
    let json_bytes = match json_to_vec(payload) {
        Ok(b) => b,
        Err(e) => {
            let mut msg = String::from_str("JSON encode: ");
            msg.append(e.as_str());
            return Err(msg);
        },
    };
    match deflate_best(json_bytes.as_slice()) {
        Ok(compressed) => Ok(base64_url_encode(compressed.as_slice())),
        Err((stage, e)) => {
            let mut msg = match stage {
                DeflateStage::Write => String::from_str("Deflate write: "),
                DeflateStage::Finish => String::from_str("Deflate finish: "),
            };
            let ghost prefix = msg@;
            msg.append(e.as_str());
            assert(prefix.is_prefix_of(msg@)) by {
                assert(msg@.subrange(0, prefix.len() as int) =~= prefix);
            }
            Err(msg)
        },
    }
}

/// The address the browser is sent to: the target URL without its trailing
/// slashes, then `/#data=` and the payload, so the payload travels in the fragment.
pub open spec fn spec_browser_url(target: Seq<char>, payload_b64: Seq<char>) -> Seq<char> {
    trim_end_char(target, '/') + "/#data="@ + payload_b64
}

/// Builds the address for the browser sync from the configured target URL and the
/// compressed payload.
pub fn browser_url(target: &str, payload_b64: &str) -> (res: String)
    ensures
        res@ == spec_browser_url(target@, payload_b64@),
{
    let base = trim_end_matches_char(target, '/');
    let mut url = String::from_str(base);
    url.append("/#data=");
    url.append(payload_b64);
    url
}

/// What the import page does with a payload gives back the compressed document:
/// decoding the URL-safe base64 of a successful `compress_and_encode` yields
/// exactly the DEFLATE stream of the document's JSON text.
pub proof fn lemma_compressed_payload_decodes(v: Json)
    requires
        spec_compressed_payload(v) is Some,
    ensures
        deflate_best_of(json_bytes_of(v)) matches Some(c)
            && spec_base64_url_decode(spec_compressed_payload(v)->0) == c,
{
    let c = deflate_best_of(json_bytes_of(v))->0;
    lemma_base64_url_roundtrip(c);
}

} // verus!
