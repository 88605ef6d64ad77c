use std::io::Read;

use flate2::read::DeflateDecoder;
use kyumaru::json::JsonValue;
use kyumaru::sync::{base64_url_encode, browser_url, compress_and_encode};

fn base64_url_decode(s: &str) -> Option<Vec<u8>> {
    fn decode_char(c: u8) -> Option<u8> {
        match c {
            b'A'..=b'Z' => Some(c - b'A'),
            b'a'..=b'z' => Some(c - b'a' + 26),
            b'0'..=b'9' => Some(c - b'0' + 52),
            b'-' => Some(62),
            b'_' => Some(63),
            _ => None,
        }
    }

    let bytes = s.as_bytes();
    let mut out = Vec::with_capacity(bytes.len() * 3 / 4);
    for chunk in bytes.chunks(4) {
        let c0 = decode_char(chunk[0])?;
        let c1 = decode_char(chunk.get(1).copied().unwrap_or(b'A'))?;
        out.push((c0 << 2) | (c1 >> 4));

        if chunk.len() > 2 {
            let c2 = decode_char(chunk[2])?;
            out.push(((c1 & 0x0F) << 4) | (c2 >> 2));

            if chunk.len() > 3 {
                let c3 = decode_char(chunk[3])?;
                out.push(((c2 & 0x03) << 6) | c3);
            }
        }
    }
    Some(out)
}

fn obj(entries: Vec<(&str, JsonValue)>) -> JsonValue {
    JsonValue::Object(entries.into_iter().map(|(k, v)| (k.to_string(), v)).collect())
}

fn sample_payload() -> JsonValue {
    obj(vec![
        ("cards", obj(vec![("30005", JsonValue::Int(1)), ("30016", JsonValue::Int(4))])),
        ("umas", obj(vec![("100601", JsonValue::Array(vec![JsonValue::Int(3), JsonValue::Int(5)]))])),
    ])
}

fn sample_serde() -> serde_json::Value {
    let mut cards = serde_json::Map::new();
    cards.insert("30005".to_string(), serde_json::Value::from(1));
    cards.insert("30016".to_string(), serde_json::Value::from(4));
    let mut umas = serde_json::Map::new();
    umas.insert(
        "100601".to_string(),
        serde_json::Value::Array(vec![serde_json::Value::from(3), serde_json::Value::from(5)]),
    );
    let mut root = serde_json::Map::new();
    root.insert("cards".to_string(), serde_json::Value::Object(cards));
    root.insert("umas".to_string(), serde_json::Value::Object(umas));
    serde_json::Value::Object(root)
}

#[test]
fn test_roundtrip_compression() {
    let sample = sample_payload();

    let b64 = compress_and_encode(&sample).expect("compression failed");
    assert!(!b64.is_empty());

    let compressed = base64_url_decode(&b64).expect("base64 decode failed");
    let mut decoder = DeflateDecoder::new(&compressed[..]);
    let mut decompressed = Vec::new();
    decoder.read_to_end(&mut decompressed).expect("decompression failed");

    let recovered: serde_json::Value = serde_json::from_slice(&decompressed).expect("json parse failed");
    assert_eq!(recovered, sample_serde());
}

#[test]
fn compressed_payload_is_compact_json_deflated() {
    let b64 = compress_and_encode(&sample_payload()).unwrap();
    let compressed = base64_url_decode(&b64).unwrap();
    let mut decoder = DeflateDecoder::new(&compressed[..]);
    let mut text = String::new();
    decoder.read_to_string(&mut text).unwrap();
    assert_eq!(text, r#"{"cards":{"30005":1,"30016":4},"umas":{"100601":[3,5]}}"#);
    assert!(b64.chars().all(|c| c.is_ascii_alphanumeric() || c == '-' || c == '_'));
}

#[test]
fn base64_url_encode_known_values() {
    assert_eq!(base64_url_encode(b""), "");
    assert_eq!(base64_url_encode(b"f"), "Zg");
    assert_eq!(base64_url_encode(b"fo"), "Zm8");
    assert_eq!(base64_url_encode(b"foo"), "Zm9v");
    assert_eq!(base64_url_encode(b"foobar"), "Zm9vYmFy");
    assert_eq!(base64_url_encode(b"hello"), "aGVsbG8");
    assert_eq!(base64_url_encode(&[0xfb, 0xff, 0xbf]), "-_-_");
    assert_eq!(base64_url_encode(&[0xff]), "_w");
}

#[test]
fn base64_url_roundtrip_all_lengths() {
    let data: Vec<u8> = (0..=255u8).collect();
    for n in 0..data.len() {
        let enc = base64_url_encode(&data[..n]);
        assert_eq!(enc.len(), 4 * (n / 3) + if n % 3 == 0 { 0 } else { n % 3 + 1 });
        assert_eq!(base64_url_decode(&enc).unwrap(), data[..n].to_vec());
    }
}

#[test]
fn browser_url_strips_trailing_slashes() {
    assert_eq!(
        browser_url("https://database.almond-eye.tech/import/", "abc"),
        "https://database.almond-eye.tech/import/#data=abc"
    );
    assert_eq!(browser_url("http://localhost:3000/import//", "x_y"), "http://localhost:3000/import/#data=x_y");
    assert_eq!(browser_url("http://host/path", ""), "http://host/path/#data=");
    assert_eq!(browser_url("///", "p"), "/#data=p");
}
