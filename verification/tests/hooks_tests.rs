use std::io::Read;

use flate2::read::DeflateDecoder;
use kyumaru::hooks::{
    capture_toast_text, extract_capture, find_subsequence, overlay_layout, process_load_index_payload,
    select_veteran_method, sync_request, CaptureState, LoadIndexOutcome, PacketContent, UiItem,
};
use kyumaru::json::JsonValue;
use kyumaru::msgpack::{rmpv_to_json, MsgValue};
use rmpv::Value;

fn key_map(entries: Vec<(&str, Value)>) -> Value {
    Value::Map(entries.into_iter().map(|(k, v)| (Value::from(k), v)).collect())
}

fn pack(v: &Value) -> Vec<u8> {
    let mut buf = Vec::new();
    rmpv::encode::write_value(&mut buf, v).unwrap();
    buf
}

fn card(id: i64, lb: i64) -> Value {
    key_map(vec![("support_card_id", Value::from(id)), ("limit_break_count", Value::from(lb)), ("exp", Value::from(10))])
}

fn uma(id: i64, rarity: i64, talent: i64) -> Value {
    key_map(vec![("card_id", Value::from(id)), ("rarity", Value::from(rarity)), ("talent_level", Value::from(talent))])
}

fn sample_packet() -> Value {
    key_map(vec![
        ("data_headers", key_map(vec![("result_code", Value::from(1))])),
        (
            "data",
            key_map(vec![
                (
                    "support_card_list",
                    Value::Array(vec![
                        card(30005, 1),
                        card(30016, 4),
                        card(30005, 2),
                        key_map(vec![("support_card_id", Value::from("x")), ("limit_break_count", Value::from(1))]),
                    ]),
                ),
                ("card_list", Value::Array(vec![uma(100601, 3, 5), uma(112901, 3, 1)])),
                ("user_info", key_map(vec![("name", Value::from("Haruna")), ("viewer_id", Value::from(231175073))])),
                ("trained_chara", Value::Array(vec![key_map(vec![("trained_chara_id", Value::from(1))])])),
            ]),
        ),
    ])
}

fn inflate_b64(b64: &str) -> String {
    fn decode_char(c: u8) -> u8 {
        match c {
            b'A'..=b'Z' => c - b'A',
            b'a'..=b'z' => c - b'a' + 26,
            b'0'..=b'9' => c - b'0' + 52,
            b'-' => 62,
            _ => 63,
        }
    }
    let bytes = b64.as_bytes();
    let mut out = Vec::new();
    for chunk in bytes.chunks(4) {
        let c: Vec<u8> = chunk.iter().map(|&b| decode_char(b)).collect();
        let c1 = if c.len() > 1 { c[1] } else { 0 };
        out.push((c[0] << 2) | (c1 >> 4));
        if c.len() > 2 {
            out.push(((c1 & 0x0F) << 4) | (c[2] >> 2));
        }
        if c.len() > 3 {
            out.push(((c[2] & 0x03) << 6) | c[3]);
        }
    }
    let mut text = String::new();
    DeflateDecoder::new(&out[..]).read_to_string(&mut text).unwrap();
    text
}

fn get<'a>(v: &'a JsonValue, k: &str) -> Option<&'a JsonValue> {
    v.get(&k.to_string())
}

#[test]
fn find_subsequence_cases() {
    assert!(find_subsequence(b"xxsupport_card_listyy", b"support_card_list"));
    assert!(find_subsequence(b"abc", b""));
    assert!(find_subsequence(b"", b""));
    assert!(!find_subsequence(b"", b"a"));
    assert!(!find_subsequence(b"ab", b"abc"));
    assert!(find_subsequence(b"aab", b"ab"));
    assert!(find_subsequence(b"abababc", b"ababc"));
    assert!(!find_subsequence(b"abababd", b"ababc"));
    assert!(find_subsequence(b"xyz", b"z"));
    assert!(!find_subsequence(b"support_card_lis", b"support_card_list"));
}

#[test]
fn load_index_packet_is_captured() {
    let bytes = pack(&sample_packet());
    assert!(find_subsequence(&bytes, b"support_card_list"));
    match process_load_index_payload(&bytes) {
        LoadIndexOutcome::Captured(c, enc) => {
            assert_eq!(c.card_count, 2);
            assert_eq!(c.uma_count, 2);
            let b64 = enc.unwrap();
            assert_eq!(
                inflate_b64(&b64),
                r#"{"cards":{"30005":2,"30016":4},"umas":{"100601":[3,5],"112901":[3,1]}}"#
            );
            match &c.veterans {
                Some(JsonValue::Array(a)) => assert_eq!(a.len(), 1),
                _ => panic!("veterans missing"),
            }
            let list = get(&c.inventory, "support_card_list").unwrap();
            match list {
                JsonValue::Array(a) => assert_eq!(a.len(), 4),
                _ => panic!("support card list missing"),
            }
            match get(get(&c.inventory, "user_info").unwrap(), "name") {
                Some(JsonValue::Str(s)) => assert_eq!(s, "Haruna"),
                _ => panic!("user info missing"),
            }
            assert!(get(&c.inventory, "trained_chara").is_none());
            let mut state = CaptureState::new();
            state.apply_outcome(&LoadIndexOutcome::Captured(c, Ok(b64.clone())));
            assert!(state.captured);
            assert_eq!(state.card_count, 2);
            assert_eq!(state.uma_count, 2);
            assert_eq!(state.payload, Some(b64));
        }
        _ => panic!("expected a capture"),
    }
}

#[test]
fn packets_without_inventory() {
    assert!(matches!(process_load_index_payload(&[]), LoadIndexOutcome::Undecodable(_)));
    assert!(matches!(process_load_index_payload(&[0x92, 0x01]), LoadIndexOutcome::Undecodable(_)));
    let no_data = pack(&key_map(vec![("support_card_list", Value::Array(vec![card(1, 1)]))]));
    assert!(matches!(process_load_index_payload(&no_data), LoadIndexOutcome::NoDataObject));
    let data_not_object = pack(&key_map(vec![("data", Value::Array(vec![]))]));
    assert!(matches!(process_load_index_payload(&data_not_object), LoadIndexOutcome::NoDataObject));
    let no_cards = pack(&key_map(vec![(
        "data",
        key_map(vec![("support_card_list", Value::Array(vec![])), ("card_list", Value::Array(vec![uma(1, 1, 1)]))]),
    )]));
    assert!(matches!(process_load_index_payload(&no_cards), LoadIndexOutcome::NoSupportCards));
    let not_a_map = pack(&Value::from(5));
    assert!(matches!(process_load_index_payload(&not_a_map), LoadIndexOutcome::NoDataObject));
}

#[test]
fn veterans_only_when_array() {
    let packet = key_map(vec![(
        "data",
        key_map(vec![("support_card_list", Value::Array(vec![card(7, 0)])), ("trained_chara", Value::from(3))]),
    )]);
    match process_load_index_payload(&pack(&packet)) {
        LoadIndexOutcome::Captured(c, _) => {
            assert!(c.veterans.is_none());
            assert_eq!(c.card_count, 1);
            assert_eq!(c.uma_count, 0);
            assert!(matches!(get(&c.inventory, "card_list"), Some(JsonValue::Null)));
            assert!(matches!(get(&c.inventory, "user_info"), Some(JsonValue::Null)));
        }
        _ => panic!("expected inventory"),
    }
}

#[test]
fn decode_reads_one_value_and_ignores_the_rest() {
    let mut bytes = pack(&sample_packet());
    bytes.extend_from_slice(&[0xc0, 0xd9]);
    assert!(matches!(process_load_index_payload(&bytes), LoadIndexOutcome::Captured(_, Ok(_))));
    assert!(matches!(process_load_index_payload(&[0xd9]), LoadIndexOutcome::Undecodable(_)));
}

#[test]
fn extract_capture_from_document() {
    let card = JsonValue::Object(vec![
        ("support_card_id".to_string(), JsonValue::UInt(30005)),
        ("limit_break_count".to_string(), JsonValue::Int(4)),
    ]);
    let data = JsonValue::Object(vec![("support_card_list".to_string(), JsonValue::Array(vec![card]))]);
    let root = JsonValue::Object(vec![("data".to_string(), data)]);
    match extract_capture(&root) {
        PacketContent::Inventory(c) => {
            assert_eq!(c.card_count, 1);
            match get(get(&c.sync_payload, "cards").unwrap(), "30005") {
                Some(JsonValue::Int(4)) => {}
                _ => panic!("card missing"),
            }
        }
        _ => panic!("expected inventory"),
    }
    assert!(matches!(extract_capture(&JsonValue::Null), PacketContent::NoDataObject));
}

#[test]
fn rmpv_to_json_conversions() {
    let big = u64::MAX;
    let s = |t: &str| MsgValue::Str(Some(t.to_string()));
    let packet = MsgValue::Array(vec![
        MsgValue::Nil,
        MsgValue::Boolean(true),
        MsgValue::Integer(Some(-7), None),
        MsgValue::Integer(None, Some(big)),
        MsgValue::F64(serde_json::Number::from_f64(1.5)),
        MsgValue::F32(None),
        s("text"),
        MsgValue::Binary(vec![1, 255]),
        MsgValue::Ext(3, vec![0]),
        MsgValue::Mapping(vec![
            (s("a"), MsgValue::Integer(Some(1), Some(1))),
            (MsgValue::Integer(Some(5), Some(5)), MsgValue::Integer(Some(2), Some(2))),
            (s("a"), MsgValue::Integer(Some(3), Some(3))),
            (MsgValue::Str(None), MsgValue::Nil),
            (s("b"), MsgValue::Nil),
        ]),
        MsgValue::Str(None),
        MsgValue::Integer(None, None),
    ]);
    let json = rmpv_to_json(&packet);
    let items = match json {
        JsonValue::Array(a) => a,
        _ => panic!("expected array"),
    };
    assert_eq!(items.len(), 12);
    assert!(matches!(items[0], JsonValue::Null));
    assert!(matches!(items[1], JsonValue::Bool(true)));
    assert!(matches!(items[2], JsonValue::Int(-7)));
    assert!(matches!(items[3], JsonValue::UInt(u) if u == big));
    match &items[4] {
        JsonValue::Float(n) => assert_eq!(n.as_f64(), Some(1.5)),
        _ => panic!("expected a float"),
    }
    assert!(matches!(items[5], JsonValue::Null));
    assert!(matches!(&items[6], JsonValue::Str(t) if t == "text"));
    match &items[7] {
        JsonValue::Array(b) => {
            assert_eq!(b.len(), 2);
            assert!(matches!(b[0], JsonValue::Int(1)));
            assert!(matches!(b[1], JsonValue::Int(255)));
        }
        _ => panic!("expected bytes"),
    }
    assert!(matches!(items[8], JsonValue::Null));
    match &items[9] {
        JsonValue::Object(es) => {
            assert_eq!(es.len(), 2);
            assert_eq!(es[0].0, "a");
            assert!(matches!(es[0].1, JsonValue::Int(3)));
            assert_eq!(es[1].0, "b");
            assert!(matches!(es[1].1, JsonValue::Null));
        }
        _ => panic!("expected object"),
    }
    assert!(matches!(items[10], JsonValue::Null));
    assert!(matches!(items[11], JsonValue::Null));
}

#[test]
fn floats_in_packets_become_numbers_or_null() {
    let packet = key_map(vec![(
        "data",
        key_map(vec![
            ("support_card_list", Value::Array(vec![card(1, 2)])),
            ("user_info", Value::Array(vec![Value::F32(0.5), Value::F64(f64::INFINITY), Value::from("é")])),
        ]),
    )]);
    match process_load_index_payload(&pack(&packet)) {
        LoadIndexOutcome::Captured(c, _) => match get(&c.inventory, "user_info") {
            Some(JsonValue::Array(a)) => {
                assert!(matches!(&a[0], JsonValue::Float(n) if n.as_f64() == Some(0.5)));
                assert!(matches!(a[1], JsonValue::Null));
                assert!(matches!(&a[2], JsonValue::Str(t) if t == "é"));
            }
            _ => panic!("user info missing"),
        },
        _ => panic!("expected a capture"),
    }
}

#[test]
fn invalid_utf8_string_becomes_null() {
    let mut bytes = vec![0x81u8, 0xa4];
    bytes.extend_from_slice(b"data");
    bytes.push(0x82);
    bytes.push(0xb1);
    bytes.extend_from_slice(b"support_card_list");
    bytes.extend_from_slice(&pack(&Value::Array(vec![card(9, 3)])));
    bytes.extend_from_slice(&[0xa9]);
    bytes.extend_from_slice(b"user_info");
    bytes.extend_from_slice(&[0xa2, 0xff, 0xfe]);
    match process_load_index_payload(&bytes) {
        LoadIndexOutcome::Captured(c, _) => {
            assert!(matches!(get(&c.inventory, "user_info"), Some(JsonValue::Null)));
            assert_eq!(c.card_count, 1);
        }
        _ => panic!("expected a capture"),
    }
}

#[test]
fn capture_state_transitions() {
    let mut state = CaptureState::new();
    assert!(!state.captured);
    state.apply_outcome(&LoadIndexOutcome::NoSupportCards);
    assert!(!state.captured && state.payload.is_none());
    state.payload = Some("p".to_string());
    state.captured = true;
    state.card_count = 3;
    state.apply_outcome(&LoadIndexOutcome::Undecodable("bad".to_string()));
    assert!(state.captured);
    assert_eq!(state.card_count, 3);
    assert_eq!(state.payload.as_deref(), Some("p"));
}

#[test]
fn failed_compression_leaves_state() {
    let bytes = pack(&sample_packet());
    let outcome = match process_load_index_payload(&bytes) {
        LoadIndexOutcome::Captured(c, _) => LoadIndexOutcome::Captured(c, Err("Deflate write: x".to_string())),
        _ => panic!("expected a capture"),
    };
    let mut state = CaptureState::new();
    state.apply_outcome(&outcome);
    assert!(!state.captured);
    assert_eq!(state.card_count, 0);
}

fn label(item: &UiItem) -> String {
    match item {
        UiItem::Heading(t) | UiItem::Small(t) | UiItem::SyncButton(t) => t.clone(),
        UiItem::ColoredLabel(r, g, b, a, t) => format!("{},{},{},{}:{}", r, g, b, a, t),
        UiItem::Separator => "---".to_string(),
    }
}

#[test]
fn overlay_layouts() {
    let mut state = CaptureState::new();
    let waiting: Vec<String> = overlay_layout(&state).iter().map(label).collect();
    assert_eq!(
        waiting,
        vec![
            "Kyumaru Sync",
            "---",
            "255,180,50,255:Status: Waiting for login (load/index)...",
            "Please log in to the game or return to title.",
            "---",
            "160,160,160,255:Notice: Auto-updates on title/login. Normal packets bypass with 0ms lag.",
        ]
    );
    state.captured = true;
    state.card_count = 352;
    state.uma_count = 43;
    let ready: Vec<String> = overlay_layout(&state).iter().map(label).collect();
    assert_eq!(ready[2], "80,220,100,255:Status: Ready (352 cards, 43 Umas)");
    assert_eq!(ready[3], "Saved: Documents/Kyumaru/inventory.json");
    assert_eq!(ready[4], "Open in Browser & Sync");
    assert_eq!(ready.len(), 7);
}

#[test]
fn toast_text_counts() {
    assert_eq!(capture_toast_text(352, 43), "Kyumaru: Captured 352 support cards, 43 umas!");
    assert_eq!(capture_toast_text(0, 0), "Kyumaru: Captured 0 support cards, 0 umas!");
}

#[test]
fn sync_request_uses_payload() {
    let mut state = CaptureState::new();
    assert_eq!(sync_request(&state, "https://x/import/"), None);
    state.payload = Some("AbC".to_string());
    assert_eq!(sync_request(&state, "https://x/import/").as_deref(), Some("https://x/import/#data=AbC"));
}

#[test]
fn veteran_method_selection() {
    let s = |a: &str, b: &str| (a.to_string(), b.to_string());
    assert_eq!(select_veteran_method(&vec![]), None);
    assert_eq!(select_veteran_method(&vec![s("Foo", "Bar")]), Some(0));
    assert_eq!(
        select_veteran_method(&vec![s("Foo", "UpdateAll"), s("Gallop.WorkTrainedCharaData", "Set"), s("Gallop.WorkTrainedCharaData", "UpdateAll")]),
        Some(2)
    );
}
