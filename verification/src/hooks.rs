use vstd::prelude::*;
use crate::json::{
    JsonValue, Json, json_view, json_view_seq, lemma_json_view_seq, json_view_entries,
    lemma_json_view_entries, json_get, json_as_i64, obj_insert, obj_entries_insert, obj_get,
    obj_index, keys_distinct, lemma_obj_insert_distinct, lemma_obj_index_first,
};
use crate::msgpack::{decode_msgpack, rmpv_to_json, msgpack_value_of, msg_to_json};
use crate::sync::{compress_and_encode, spec_compressed_payload, browser_url, spec_browser_url};
use crate::text::{lemma_int_decimal_injective, i64_to_string, int_decimal, usize_to_string, nat_decimal, str_contains, has_substring};

verus! {

/// `needle` occurs in `haystack` starting at position `i`.
pub open spec fn occurs_at(haystack: Seq<u8>, needle: Seq<u8>, i: int) -> bool {
    &&& 0 <= i
    &&& i + needle.len() <= haystack.len()
    &&& haystack.subrange(i, i + needle.len()) == needle
}

/// `needle` occurs somewhere in `haystack` as a contiguous run of bytes.
pub open spec fn contains_run(haystack: Seq<u8>, needle: Seq<u8>) -> bool {
    exists|i: int| occurs_at(haystack, needle, i)
}

/// Whether `needle` occurs in `haystack` as a contiguous run of bytes (an empty
/// needle occurs everywhere). Jumps from one occurrence of the needle's first byte
/// to the next and compares the window there.
pub fn find_subsequence(haystack: &[u8], needle: &[u8]) -> (res: bool)
    ensures
        res == contains_run(haystack@, needle@),
{
    if needle.len() == 0 {
        assert(haystack@.subrange(0, 0) =~= needle@);
        assert(occurs_at(haystack@, needle@, 0));
        return true;
    }
    if haystack.len() < needle.len() {
        return false;
    }
    let first = needle[0];
    let needle_len = needle.len();
    let mut offset: usize = 0;
    while offset <= haystack.len() - needle_len
        invariant
            offset <= haystack@.len(),
            needle_len == needle@.len(),
            needle_len > 0,
            first == needle@[0],
            needle_len <= haystack@.len(),
            forall|i: int| 0 <= i < offset ==> !occurs_at(haystack@, needle@, i),
        decreases haystack.len() - offset,
    {
        let mut p: usize = offset;
        while p < haystack.len() && haystack[p] != first
            invariant
                offset <= p <= haystack@.len(),
                forall|q: int| offset <= q < p ==> haystack@[q] != first,
            decreases haystack.len() - p,
        {
            p = p + 1;
        }
        if p == haystack.len() {
            assert forall|i: int| #![trigger occurs_at(haystack@, needle@, i)] 0 <= i implies !occurs_at(haystack@, needle@, i) by {
                if i >= offset && occurs_at(haystack@, needle@, i) {
                    assert(haystack@.subrange(i, i + needle_len)[0] == haystack@[i]);
                }
            }
            return false;
        }
        let start = p;
        if start > haystack.len() - needle_len {
            assert forall|i: int| #![trigger occurs_at(haystack@, needle@, i)] 0 <= i implies !occurs_at(haystack@, needle@, i) by {
                if offset <= i < start && occurs_at(haystack@, needle@, i) {
                    assert(haystack@.subrange(i, i + needle_len)[0] == haystack@[i]);
                }
            }
            return false;
        }
        let mut k: usize = 0;
        let mut mismatch = false;
        while k < needle_len
            invariant_except_break
                !mismatch,
            invariant
                k <= needle_len,
                start + needle_len <= haystack.len(),
                needle_len == needle@.len(),
                forall|j: int| 0 <= j < k ==> haystack@[start + j] == needle@[j],
            ensures
                forall|j: int| 0 <= j < k ==> haystack@[start + j] == needle@[j],
                !mismatch ==> k == needle_len,
                mismatch ==> k < needle_len && haystack@[start + k] != needle@[k as int],
            decreases needle_len - k,
        {
            if haystack[start + k] != needle[k] {
                mismatch = true;
                break;
            }
            k = k + 1;
        }
        if !mismatch {
            assert(haystack@.subrange(start as int, start + needle_len) =~= needle@);
            assert(occurs_at(haystack@, needle@, start as int));
            return true;
        }
        assert forall|i: int| 0 <= i < start + 1 implies !occurs_at(haystack@, needle@, i) by {
            if offset <= i < start && occurs_at(haystack@, needle@, i) {
                assert(haystack@.subrange(i, i + needle_len)[0] == haystack@[i]);
            }
            if i == start && occurs_at(haystack@, needle@, i) {
                assert(haystack@.subrange(i, i + needle_len)[k as int] == haystack@[start + k]);
            }
        }
        offset = start + 1;
    }
    assert forall|i: int| #![trigger occurs_at(haystack@, needle@, i)] 0 <= i implies !occurs_at(haystack@, needle@, i) by {
        if i >= offset {
            assert(i + needle_len > haystack@.len());
        }
    }
    false
}

/// The elements of a value that is an array; no elements otherwise.
pub open spec fn json_list(v: Option<Json>) -> Seq<Json> {
    match v {
        Some(Json::Array(a)) => a,
        _ => seq![],
    }
}

/// `as_i64` of a looked-up value.
pub open spec fn opt_as_i64(v: Option<Json>) -> Option<int> {
    match v {
        Some(j) => json_as_i64(j),
        None => None,
    }
}

/// The entry that a support card gives: its id with its limit break, when both
/// `support_card_id` and `limit_break_count` are integers.
pub open spec fn card_item(c: Json) -> Option<(int, Json)> {
    match (opt_as_i64(json_get(c, "support_card_id"@)), opt_as_i64(json_get(c, "limit_break_count"@))) {
        (Some(id), Some(lb)) => Some((id, Json::Int(lb))),
        _ => None,
    }
}

/// The object made by setting, for each element in order that gives an entry
/// `(id, v)`, the decimal id to `v`.
pub open spec fn insert_items(s: Seq<Json>, item: spec_fn(Json) -> Option<(int, Json)>) -> Seq<(Seq<char>, Json)>
    decreases s.len(),
{
    if s.len() == 0 {
        seq![]
    } else {
        let prev = insert_items(s.drop_last(), item);
        match item(s.last()) {
            Some((id, v)) => obj_insert(prev, int_decimal(id), v),
            None => prev,
        }
    }
}

/// The `cards` object of the sync payload: for every support card (in list order)
/// that has an integer `support_card_id` and an integer `limit_break_count`, the
/// decimal id is set to the limit break; a later card with the same id wins.
pub open spec fn card_entries(cards: Seq<Json>) -> Seq<(Seq<char>, Json)> {
    insert_items(cards, |c: Json| card_item(c))
}

/// The entry that a character card gives: its id with `[rarity, talent_level]`,
/// when all three are integers.
pub open spec fn uma_item(u: Json) -> Option<(int, Json)> {
    match (
        opt_as_i64(json_get(u, "card_id"@)),
        opt_as_i64(json_get(u, "rarity"@)),
        opt_as_i64(json_get(u, "talent_level"@)),
    ) {
        (Some(id), Some(r), Some(t)) => Some((id, Json::Array(seq![Json::Int(r), Json::Int(t)]))),
        _ => None,
    }
}

/// The `umas` object of the sync payload: for every character card (in list order)
/// with integer `card_id`, `rarity` and `talent_level`, the decimal id is set to
/// `[rarity, talent_level]`; a later card with the same id wins.
pub open spec fn uma_entries(umas: Seq<Json>) -> Seq<(Seq<char>, Json)> {
    insert_items(umas, |u: Json| uma_item(u))
}

fn key(s: &str) -> (res: String)
    ensures
        res@ == s@,
{
    String::from_str(s)
}

fn list_elements(v: Option<&JsonValue>) -> (res: &[JsonValue])
    ensures
        json_view_seq(res@) == json_list(
            match v {
                Some(x) => Some(x@),
                None => None,
            },
        ),
{
    match v {
        Some(JsonValue::Array(a)) => a.as_slice(),
        _ => {
            let e: &[JsonValue] = &[];
            assert(json_view_seq(e@) =~= Seq::<Json>::empty());
            e
        },
    }
}

fn opt_i64(v: Option<&JsonValue>) -> (res: Option<i64>)
    ensures
        match res {
            Some(n) => opt_as_i64(
                match v {
                    Some(x) => Some(x@),
                    None => None,
                },
            ) == Some(n as int),
            None => opt_as_i64(
                match v {
                    Some(x) => Some(x@),
                    None => None,
                },
            ) is None,
        },
{
    match v {
        Some(x) => x.as_i64(),
        None => None,
    }
}

fn card_item_of(c: &JsonValue, k_id: &String, k_lb: &String) -> (res: Option<(i64, JsonValue)>)
    requires
        k_id@ == "support_card_id"@,
        k_lb@ == "limit_break_count"@,
    ensures
        match res {
            Some((id, v)) => card_item(c@) == Some((id as int, v@)),
            None => card_item(c@) is None,
        },
{
    let id = opt_i64(c.get(k_id));
    let lb = opt_i64(c.get(k_lb));
    match (id, lb) {
        (Some(id), Some(lb)) => Some((id, JsonValue::Int(lb))),
        _ => None,
    }
}

/// Builds the `cards` object of the sync payload from the support card list.
pub fn collect_cards(cards: &[JsonValue]) -> (res: Vec<(String, JsonValue)>)
    ensures
        json_view_entries(res@) == card_entries(json_view_seq(cards@)),
{
    let ghost cs = json_view_seq(cards@);
    proof {
        lemma_json_view_seq(cards@);
        lemma_json_view_entries(Seq::<(String, JsonValue)>::empty());
        assert(cs.take(0) =~= Seq::<Json>::empty());
    }
    let k_id = key("support_card_id");
    let k_lb = key("limit_break_count");
    let mut out: Vec<(String, JsonValue)> = Vec::new();
    let mut i: usize = 0;
    while i < cards.len()
        invariant
            i <= cards.len(),
            cs == json_view_seq(cards@),
            cs.len() == cards.len(),
            forall|j: int| 0 <= j < cards.len() ==> #[trigger] cs[j] == json_view(cards@[j]),
            k_id@ == "support_card_id"@,
            k_lb@ == "limit_break_count"@,
            json_view_entries(out@) == card_entries(cs.take(i as int)),
        decreases cards.len() - i,
    {
        proof {
            assert(cs.take(i + 1).drop_last() =~= cs.take(i as int));
            assert(cs.take(i + 1).last() == cs[i as int]);
        }
        match card_item_of(&cards[i], &k_id, &k_lb) {
            Some((id, v)) => {
                obj_entries_insert(&mut out, i64_to_string(id), v);
            },
            None => {},
        }
        i = i + 1;
    }
    proof {
        assert(cs.take(cards.len() as int) =~= cs);
    }
    out
}

fn uma_item_of(u: &JsonValue, k_id: &String, k_r: &String, k_t: &String) -> (res: Option<(i64, JsonValue)>)
    requires
        k_id@ == "card_id"@,
        k_r@ == "rarity"@,
        k_t@ == "talent_level"@,
    ensures
        match res {
            Some((id, v)) => uma_item(u@) == Some((id as int, v@)),
            None => uma_item(u@) is None,
        },
{
    let id = opt_i64(u.get(k_id));
    let r = opt_i64(u.get(k_r));
    let t = opt_i64(u.get(k_t));
    match (id, r, t) {
        (Some(id), Some(r), Some(t)) => {
            let mut pair: Vec<JsonValue> = Vec::new();
            pair.push(JsonValue::Int(r));
            pair.push(JsonValue::Int(t));
            proof {
                lemma_json_view_seq(pair@);
                assert(json_view_seq(pair@) =~= seq![Json::Int(r as int), Json::Int(t as int)]);
            }
            Some((id, JsonValue::Array(pair)))
        },
        _ => None,
    }
}

/// Builds the `umas` object of the sync payload from the character card list.
pub fn collect_umas(umas: &[JsonValue]) -> (res: Vec<(String, JsonValue)>)
    ensures
        json_view_entries(res@) == uma_entries(json_view_seq(umas@)),
{
    let ghost us = json_view_seq(umas@);
    proof {
        lemma_json_view_seq(umas@);
        lemma_json_view_entries(Seq::<(String, JsonValue)>::empty());
        assert(us.take(0) =~= Seq::<Json>::empty());
    }
    let k_id = key("card_id");
    let k_r = key("rarity");
    let k_t = key("talent_level");
    let mut out: Vec<(String, JsonValue)> = Vec::new();
    let mut i: usize = 0;
    while i < umas.len()
        invariant
            i <= umas.len(),
            us == json_view_seq(umas@),
            us.len() == umas.len(),
            forall|j: int| 0 <= j < umas.len() ==> #[trigger] us[j] == json_view(umas@[j]),
            k_id@ == "card_id"@,
            k_r@ == "rarity"@,
            k_t@ == "talent_level"@,
            json_view_entries(out@) == uma_entries(us.take(i as int)),
        decreases umas.len() - i,
    {
        proof {
            assert(us.take(i + 1).drop_last() =~= us.take(i as int));
            assert(us.take(i + 1).last() == us[i as int]);
        }
        match uma_item_of(&umas[i], &k_id, &k_r, &k_t) {
            Some((id, v)) => {
                obj_entries_insert(&mut out, i64_to_string(id), v);
            },
            None => {},
        }
        i = i + 1;
    }
    proof {
        assert(us.take(umas.len() as int) =~= us);
    }
    out
}

/// The `data` object of a decoded packet, when the packet has one.
pub open spec fn spec_data_object(root: Json) -> Option<Json> {
    match json_get(root, "data"@) {
        Some(d) => if d is Object { Some(d) } else { None },
        None => None,
    }
}

pub open spec fn or_null(v: Option<Json>) -> Json {
    match v {
        Some(j) => j,
        None => Json::Null,
    }
}

/// What `inventory.json` holds: the packet's support card list, character card list
/// and user info, each `null` when absent.
pub open spec fn inventory_of(d: Json) -> Json {
    Json::Object(
        seq![
            ("support_card_list"@, or_null(json_get(d, "support_card_list"@))),
            ("card_list"@, or_null(json_get(d, "card_list"@))),
            ("user_info"@, or_null(json_get(d, "user_info"@))),
        ],
    )
}

/// What `veterans.json` is written from: the packet's `trained_chara`, when it is an array.
pub open spec fn veterans_of(d: Json) -> Option<Json> {
    match json_get(d, "trained_chara"@) {
        Some(v) => if v is Array { Some(v) } else { None },
        None => None,
    }
}

pub open spec fn cards_of(d: Json) -> Seq<(Seq<char>, Json)> {
    card_entries(json_list(json_get(d, "support_card_list"@)))
}

pub open spec fn umas_of(d: Json) -> Seq<(Seq<char>, Json)> {
    uma_entries(json_list(json_get(d, "card_list"@)))
}

/// The compact sync payload: `{"cards": {...}, "umas": {...}}`.
pub open spec fn sync_payload_of(d: Json) -> Json {
    Json::Object(seq![("cards"@, Json::Object(cards_of(d))), ("umas"@, Json::Object(umas_of(d)))])
}

/// What a load/index packet yields when it lists support cards.
pub struct Capture {
    /// The document for `inventory.json`.
    pub inventory: JsonValue,
    /// The document for `veterans.json`, when the packet has trained characters.
    pub veterans: Option<JsonValue>,
    /// The compact `{cards, umas}` document for the browser.
    pub sync_payload: JsonValue,
    /// Number of distinct support cards in the payload.
    pub card_count: usize,
    /// Number of distinct character cards in the payload.
    pub uma_count: usize,
}

/// `c` is what the packet data object `d` yields.
pub open spec fn capture_of(c: Capture, d: Json) -> bool {
    &&& c.inventory@ == inventory_of(d)
    &&& match c.veterans {
        Some(v) => veterans_of(d) == Some(v@),
        None => veterans_of(d) is None,
    }
    &&& c.sync_payload@ == sync_payload_of(d)
    &&& c.card_count == cards_of(d).len()
    &&& c.uma_count == umas_of(d).len()
}

/// What a decoded packet holds for the plugin.
pub enum PacketContent {
    /// The packet has no `data` object.
    NoDataObject,
    /// The `data` object lists no usable support card; nothing is saved.
    NoSupportCards,
    /// The inventory found in the packet.
    Inventory(Capture),
}

fn lookup_or_null(d: &JsonValue, k: &String) -> (res: JsonValue)
    ensures
        res@ == or_null(json_get(d@, k@)),
{
    match d.get(k) {
        Some(v) => v.deep_clone(),
        None => JsonValue::Null,
    }
}

/// Reads the inventory out of a decoded packet: the `data` object's support card
/// list, character card list, user info and trained characters, and the compact
/// sync payload built from the two card lists.
pub fn extract_capture(root: &JsonValue) -> (res: PacketContent)
    ensures
        match spec_data_object(root@) {
            None => res is NoDataObject,
            Some(d) => if cards_of(d).len() == 0 {
                res is NoSupportCards
            } else {
                res matches PacketContent::Inventory(c) && capture_of(c, d)
            },
        },
{
    let k_data = key("data");
    let d = match root.get(&k_data) {
        Some(d) => {
            if !d.is_object() {
                return PacketContent::NoDataObject;
            }
            d
        },
        None => {
            return PacketContent::NoDataObject;
        },
    };
    let k_cards = key("support_card_list");
    let k_umas = key("card_list");
    let k_user = key("user_info");
    let k_vets = key("trained_chara");
    let card_map = collect_cards(list_elements(d.get(&k_cards)));
    let uma_map = collect_umas(list_elements(d.get(&k_umas)));
    proof {
        lemma_json_view_entries(card_map@);
        lemma_json_view_entries(uma_map@);
    }
    let card_count = card_map.len();
    let uma_count = uma_map.len();
    if card_count == 0 {
        return PacketContent::NoSupportCards;
    }
    let mut inv: Vec<(String, JsonValue)> = Vec::new();
    inv.push((key("support_card_list"), lookup_or_null(d, &k_cards)));
    inv.push((key("card_list"), lookup_or_null(d, &k_umas)));
    inv.push((key("user_info"), lookup_or_null(d, &k_user)));
    proof {
        lemma_json_view_entries(inv@);
        assert(json_view_entries(inv@) =~= seq![
            ("support_card_list"@, or_null(json_get(d@, "support_card_list"@))),
            ("card_list"@, or_null(json_get(d@, "card_list"@))),
            ("user_info"@, or_null(json_get(d@, "user_info"@))),
        ]);
    }
    let veterans = match d.get(&k_vets) {
        Some(v) => if v.is_array() { Some(v.deep_clone()) } else { None },
        None => None,
    };
    let mut payload: Vec<(String, JsonValue)> = Vec::new();
    payload.push((key("cards"), JsonValue::Object(card_map)));
    payload.push((key("umas"), JsonValue::Object(uma_map)));
    proof {
        lemma_json_view_entries(payload@);
        assert(json_view_entries(payload@) =~= seq![
            ("cards"@, Json::Object(cards_of(d@))),
            ("umas"@, Json::Object(umas_of(d@))),
        ]);
    }
    PacketContent::Inventory(Capture {
        inventory: JsonValue::Object(inv),
        veterans,
        sync_payload: JsonValue::Object(payload),
        card_count,
        uma_count,
    })
}

/// What handling a load/index packet comes to.
pub enum LoadIndexOutcome {
    /// The bytes are not a MessagePack value (rmpv's message).
    Undecodable(String),
    /// The packet has no `data` object.
    NoDataObject,
    /// The packet lists no usable support card; nothing is saved.
    NoSupportCards,
    /// The inventory, and the sync payload compressed for the URL fragment (or why
    /// compressing failed).
    Captured(Capture, Result<String, String>),
}

/// Unpacks a decompressed load/index packet: decodes the MessagePack value,
/// converts it to JSON, reads the inventory out of its `data` object, and compresses
/// the compact sync payload for the browser URL.
pub fn process_load_index_payload(data: &[u8]) -> (res: LoadIndexOutcome)
    ensures
        match msgpack_value_of(data@) {
            None => res is Undecodable,
            Some(m) => match spec_data_object(msg_to_json(m)) {
                None => res is NoDataObject,
                Some(d) => if cards_of(d).len() == 0 {
                    res is NoSupportCards
                } else {
                    res matches LoadIndexOutcome::Captured(c, enc) && capture_of(c, d) && match enc {
                        Ok(s) => spec_compressed_payload(sync_payload_of(d)) == Some(s@),
                        Err(_) => spec_compressed_payload(sync_payload_of(d)) is None,
                    }
                },
            },
        },
{
    let val = match decode_msgpack(data) {
        Ok(v) => v,
        Err(e) => {
            return LoadIndexOutcome::Undecodable(e);
        },
    };
    let json_val = rmpv_to_json(&val);
    match extract_capture(&json_val) {
        PacketContent::NoDataObject => LoadIndexOutcome::NoDataObject,
        PacketContent::NoSupportCards => LoadIndexOutcome::NoSupportCards,
        PacketContent::Inventory(c) => {
            let enc = compress_and_encode(&c.sync_payload);
            LoadIndexOutcome::Captured(c, enc)
        },
    }
}

/// What the overlay shows and the sync button opens: whether an inventory has been
/// captured, its counts, and the compressed payload.
pub struct CaptureState {
    pub captured: bool,
    pub card_count: usize,
    pub uma_count: usize,
    pub payload: Option<String>,
}

impl CaptureState {
    /// Nothing captured yet.
    pub fn new() -> (res: CaptureState)
        ensures
            !res.captured,
            res.card_count == 0,
            res.uma_count == 0,
            res.payload is None,
    {
        CaptureState { captured: false, card_count: 0, uma_count: 0, payload: None }
    }

    /// Takes in the outcome of a packet: a capture whose payload compressed
    /// replaces the payload and counts and marks the state captured; any other
    /// outcome leaves the state as it was. Once captured, the state stays captured.
    pub fn apply_outcome(&mut self, outcome: &LoadIndexOutcome)
        ensures
            old(self).captured ==> final(self).captured,
            match outcome {
                LoadIndexOutcome::Captured(c, Ok(s)) => {
                    &&& final(self).captured
                    &&& final(self).card_count == c.card_count
                    &&& final(self).uma_count == c.uma_count
                    &&& final(self).payload == Some(*s)
                },
                _ => *final(self) == *old(self),
            },
    {
        match outcome {
            LoadIndexOutcome::Captured(c, Ok(s)) => {
                self.payload = Some(s.clone());
                self.card_count = c.card_count;
                self.uma_count = c.uma_count;
                self.captured = true;
            },
            _ => {},
        }
    }
}

/// The value given by the last element of `s` whose entry has decimal id `k`.
pub open spec fn last_item_for(s: Seq<Json>, item: spec_fn(Json) -> Option<(int, Json)>, k: Seq<char>) -> Option<Json>
    decreases s.len(),
{
    if s.len() == 0 {
        None
    } else {
        match item(s.last()) {
            Some((id, v)) => if int_decimal(id) == k {
                Some(v)
            } else {
                last_item_for(s.drop_last(), item, k)
            },
            None => last_item_for(s.drop_last(), item, k),
        }
    }
}

/// The decimal ids of the elements of `s` that give an entry.
pub open spec fn item_ids(s: Seq<Json>, item: spec_fn(Json) -> Option<(int, Json)>) -> Set<Seq<char>> {
    Set::new(|k: Seq<char>| last_item_for(s, item, k) is Some)
}

/// Building an object from a list keeps one entry per id: the keys are distinct,
/// each id gives the value of the last element with that id, and there are as many
/// entries as distinct ids.
pub proof fn lemma_insert_items(s: Seq<Json>, item: spec_fn(Json) -> Option<(int, Json)>)
    ensures
        keys_distinct(insert_items(s, item)),
        forall|k: Seq<char>| obj_get(#[trigger] insert_items(s, item), k) == last_item_for(s, item, k),
        insert_items(s, item).len() == item_ids(s, item).len(),
    decreases s.len(),
{
    if s.len() == 0 {
        reveal(obj_index);
        assert(item_ids(s, item) =~= Set::<Seq<char>>::empty());
    } else {
        lemma_insert_items(s.drop_last(), item);
        let prev = insert_items(s.drop_last(), item);
        match item(s.last()) {
            Some((id, v)) => {
                lemma_obj_insert_distinct(prev, int_decimal(id), v);
            },
            None => {},
        }
    }
    let es = insert_items(s, item);
    assert forall|k: Seq<char>| obj_get(#[trigger] insert_items(s, item), k) == last_item_for(s, item, k) by {
        if s.len() > 0 {
            let prev = insert_items(s.drop_last(), item);
            assert(obj_get(prev, k) == last_item_for(s.drop_last(), item, k));
        }
    }
    let keys = es.map_values(|e: (Seq<char>, Json)| e.0);
    assert(keys.no_duplicates()) by {
        assert forall|i: int, j: int| 0 <= i < keys.len() && 0 <= j < keys.len() && i != j implies keys[i] != keys[j] by {
            if i < j {
                assert(es[i].0 != es[j].0);
            } else {
                assert(es[j].0 != es[i].0);
            }
        }
    }
    keys.unique_seq_to_set();
    assert(keys.to_set() =~= item_ids(s, item)) by {
        reveal(obj_index);
        assert forall|k: Seq<char>| keys.to_set().contains(k) <==> item_ids(s, item).contains(k) by {
            assert(obj_get(es, k) == last_item_for(s, item, k));
            if keys.to_set().contains(k) {
                let i = choose|i: int| 0 <= i < keys.len() && keys[i] == k;
                assert(es[i].0 == k);
            }
            if item_ids(s, item).contains(k) {
                let i = choose|i: int| 0 <= i < es.len() && es[i].0 == k && forall|j: int| 0 <= j < i ==> es[j].0 != k;
                assert(keys[i] == k);
            }
        }
    }
}

/// The sync payload keeps one entry per card: its `cards` object has distinct keys,
/// one per distinct decimal `support_card_id` among the support cards that have an
/// integer id and limit break, each giving the limit break of the last such card
/// with that id; its `umas` object likewise gives `[rarity, talent_level]` of the
/// last character card with each `card_id`. The counts shown and reported are these
/// numbers of entries.
pub proof fn lemma_sync_payload_entries(d: Json)
    ensures
        keys_distinct(cards_of(d)),
        keys_distinct(umas_of(d)),
        forall|k: Seq<char>| #[trigger] obj_get(cards_of(d), k)
            == last_item_for(json_list(json_get(d, "support_card_list"@)), |c: Json| card_item(c), k),
        forall|k: Seq<char>| #[trigger] obj_get(umas_of(d), k)
            == last_item_for(json_list(json_get(d, "card_list"@)), |u: Json| uma_item(u), k),
        cards_of(d).len() == item_ids(json_list(json_get(d, "support_card_list"@)), |c: Json| card_item(c)).len(),
        umas_of(d).len() == item_ids(json_list(json_get(d, "card_list"@)), |u: Json| uma_item(u)).len(),
{
    lemma_insert_items(json_list(json_get(d, "support_card_list"@)), |c: Json| card_item(c));
    lemma_insert_items(json_list(json_get(d, "card_list"@)), |u: Json| uma_item(u));
}

/// One element of the plugin's section in the overlay menu, top to bottom.
pub enum UiItem {
    Heading(String),
    Separator,
    /// Red, green, blue, alpha and text.
    ColoredLabel(u8, u8, u8, u8, String),
    Small(String),
    /// The sync button; clicking it opens the browser with the captured payload.
    SyncButton(String),
}

/// The status line of a captured inventory.
pub open spec fn ready_status_text(cards: nat, umas: nat) -> Seq<char> {
    "Status: Ready ("@ + nat_decimal(cards) + " cards, "@ + nat_decimal(umas) + " Umas)"@
}

/// The notification shown when an inventory is captured.
pub open spec fn capture_toast_spec(cards: nat, umas: nat) -> Seq<char> {
    "Kyumaru: Captured "@ + nat_decimal(cards) + " support cards, "@ + nat_decimal(umas) + " umas!"@
}

/// The notification text for a capture of `cards` support cards and `umas` characters.
pub fn capture_toast_text(cards: usize, umas: usize) -> (res: String)
    ensures
        res@ == capture_toast_spec(cards as nat, umas as nat),
{
    let mut t = key("Kyumaru: Captured ");
    t.append(usize_to_string(cards).as_str());
    t.append(" support cards, ");
    t.append(usize_to_string(umas).as_str());
    t.append(" umas!");
    t
}

/// The plugin's overlay section for the current state: a heading and a separator;
/// then, once an inventory is captured, a green status line with the counts, where
/// the file was saved, and the sync button, or else an orange waiting line and a
/// hint to log in; then a separator and a grey notice.
pub fn overlay_layout(state: &CaptureState) -> (res: Vec<UiItem>)
    ensures
        res@.len() == if state.captured { 7int } else { 6int },
        res@[0] matches UiItem::Heading(t) && t@ == "Kyumaru Sync"@,
        res@[1] is Separator,
        state.captured ==> {
            &&& res@[2] matches UiItem::ColoredLabel(r, g, b, a, t) && r == 80 && g == 220 && b == 100
                && a == 255 && t@ == ready_status_text(state.card_count as nat, state.uma_count as nat)
            &&& res@[3] matches UiItem::Small(t) && t@ == "Saved: Documents/Kyumaru/inventory.json"@
            &&& res@[4] matches UiItem::SyncButton(t) && t@ == "Open in Browser & Sync"@
        },
        !state.captured ==> {
            &&& res@[2] matches UiItem::ColoredLabel(r, g, b, a, t) && r == 255 && g == 180 && b == 50
                && a == 255 && t@ == "Status: Waiting for login (load/index)..."@
            &&& res@[3] matches UiItem::Small(t) && t@ == "Please log in to the game or return to title."@
        },
        res@[res@.len() - 2] is Separator,
        res@[res@.len() - 1] matches UiItem::ColoredLabel(r, g, b, a, t) && r == 160 && g == 160
            && b == 160 && a == 255
            && t@ == "Notice: Auto-updates on title/login. Normal packets bypass with 0ms lag."@,
{
    let mut items: Vec<UiItem> = Vec::new();
    items.push(UiItem::Heading(key("Kyumaru Sync")));
    items.push(UiItem::Separator);
    if state.captured {
        let mut status = key("Status: Ready (");
        status.append(usize_to_string(state.card_count).as_str());
        status.append(" cards, ");
        status.append(usize_to_string(state.uma_count).as_str());
        status.append(" Umas)");
        items.push(UiItem::ColoredLabel(80, 220, 100, 255, status));
        items.push(UiItem::Small(key("Saved: Documents/Kyumaru/inventory.json")));
        items.push(UiItem::SyncButton(key("Open in Browser & Sync")));
    } else {
        items.push(UiItem::ColoredLabel(255, 180, 50, 255, key("Status: Waiting for login (load/index)...")));
        items.push(UiItem::Small(key("Please log in to the game or return to title.")));
    }
    items.push(UiItem::Separator);
    items.push(
        UiItem::ColoredLabel(
            160,
            160,
            160,
            255,
            key("Notice: Auto-updates on title/login. Normal packets bypass with 0ms lag."),
        ),
    );
    items
}

/// What clicking the sync button does: the address to open in the browser, built
/// from the target URL and the captured payload; nothing when no payload is held.
pub fn sync_request(state: &CaptureState, target: &str) -> (res: Option<String>)
    ensures
        match state.payload {
            Some(p) => res matches Some(u) && u@ == spec_browser_url(target@, p@),
            None => res is None,
        },
{
    match &state.payload {
        Some(p) => Some(browser_url(target, p.as_str())),
        None => None,
    }
}

/// The game assemblies searched, in this order, for the Hall of Fame update method.
pub const VETERAN_IMAGE_NAMES: [&'static str; 3] = ["umamusume", "Assembly-CSharp", "Gallop"];

/// How many times, 100 ms apart, the hook installer looks for `libnative.dll`.
pub const LIBNATIVE_POLL_ATTEMPTS: u32 = 300;

/// A method taking `TrainedChara[]` found by reflection: (class name, method name).
pub open spec fn is_veteran_update(class_name: Seq<char>, method_name: Seq<char>) -> bool {
    has_substring(class_name, "WorkTrainedCharaData"@) && has_substring(method_name, "UpdateAll"@)
}

/// Picks the method to hook for the Hall of Fame: the first candidate whose class
/// name contains `WorkTrainedCharaData` and whose method name contains `UpdateAll`,
/// else the first candidate; none when there are no candidates.
pub fn select_veteran_method(candidates: &Vec<(String, String)>) -> (res: Option<usize>)
    ensures
        candidates.len() == 0 <==> res is None,
        match res {
            Some(i) => {
                &&& i < candidates.len()
                &&& forall|j: int| 0 <= j < i ==> !is_veteran_update(#[trigger] candidates@[j].0@, candidates@[j].1@)
                &&& (is_veteran_update(candidates@[i as int].0@, candidates@[i as int].1@) || (i == 0
                    && forall|j: int| 0 <= j < candidates.len() ==> !is_veteran_update(#[trigger] candidates@[j].0@, candidates@[j].1@)))
            },
            None => true,
        },
{
    let mut i: usize = 0;
    while i < candidates.len()
        invariant
            i <= candidates.len(),
            forall|j: int| 0 <= j < i ==> !is_veteran_update(#[trigger] candidates@[j].0@, candidates@[j].1@),
        decreases candidates.len() - i,
    {
        let c = &candidates[i];
        if str_contains(c.0.as_str(), "WorkTrainedCharaData") && str_contains(c.1.as_str(), "UpdateAll") {
            return Some(i);
        }
        i = i + 1;
    }
    if candidates.len() == 0 {
        None
    } else {
        Some(0)
    }
}

/// The inventory dump holds exactly the three lists of the packet's `data`
/// object, each as it is in the packet (`null` when absent), and the Hall of Fame
/// dump is the packet's whole `trained_chara` array when it is one, nothing otherwise.
pub proof fn lemma_capture_dumps(c: Capture, d: Json)
    requires
        capture_of(c, d),
    ensures
        c.inventory@ matches Json::Object(es) && es.len() == 3,
        json_get(c.inventory@, "support_card_list"@) == Some(match json_get(d, "support_card_list"@) {
            Some(v) => v,
            None => Json::Null,
        }),
        json_get(c.inventory@, "card_list"@) == Some(match json_get(d, "card_list"@) {
            Some(v) => v,
            None => Json::Null,
        }),
        json_get(c.inventory@, "user_info"@) == Some(match json_get(d, "user_info"@) {
            Some(v) => v,
            None => Json::Null,
        }),
        forall|k: Seq<char>| k != "support_card_list"@ && k != "card_list"@ && k != "user_info"@
            ==> #[trigger] json_get(c.inventory@, k) is None,
        match json_get(d, "trained_chara"@) {
            Some(Json::Array(a)) => c.veterans matches Some(v) && v@ == Json::Array(a),
            _ => c.veterans is None,
        },
{
    reveal_strlit("support_card_list");
    reveal_strlit("card_list");
    reveal_strlit("user_info");
    let es = seq![
        ("support_card_list"@, or_null(json_get(d, "support_card_list"@))),
        ("card_list"@, or_null(json_get(d, "card_list"@))),
        ("user_info"@, or_null(json_get(d, "user_info"@))),
    ];
    assert("support_card_list"@ != "card_list"@ && "support_card_list"@ != "user_info"@
        && "card_list"@ != "user_info"@) by {
        assert("support_card_list"@.len() != "card_list"@.len());
        assert("support_card_list"@.len() != "user_info"@.len());
        assert("card_list"@[0] != "user_info"@[0]);
    }
    lemma_obj_index_first(es, "support_card_list"@, 0);
    lemma_obj_index_first(es, "card_list"@, 1);
    lemma_obj_index_first(es, "user_info"@, 2);
    assert forall|k: Seq<char>| k != "support_card_list"@ && k != "card_list"@ && k != "user_info"@
        implies #[trigger] json_get(c.inventory@, k) is None by {
        reveal(obj_index);
    }
}

/// The element at `i` decides the value for its id when no later element gives an
/// entry with the same id.
pub proof fn lemma_last_item_for_at(s: Seq<Json>, item: spec_fn(Json) -> Option<(int, Json)>, i: int, id: int, v: Json)
    requires
        0 <= i < s.len(),
        item(s[i]) == Some((id, v)),
        forall|j: int| i < j < s.len() ==> !(#[trigger] item(s[j]) matches Some((id2, _)) && id2 == id),
    ensures
        last_item_for(s, item, int_decimal(id)) == Some(v),
    decreases s.len(),
{
    if i < s.len() - 1 {
        let p = s.drop_last();
        assert(p[i] == s[i]);
        assert forall|j: int| i < j < p.len() implies !(#[trigger] item(p[j]) matches Some((id2, _)) && id2 == id) by {
            assert(p[j] == s[j]);
            assert(!(item(s[j]) matches Some((id2, _)) && id2 == id));
        }
        lemma_last_item_for_at(p, item, i, id, v);
        let l = s.last();
        assert(l == s[s.len() - 1]);
        match item(l) {
            Some((id2, v2)) => {
                assert(id2 != id);
                if int_decimal(id2) == int_decimal(id) {
                    lemma_int_decimal_injective(id2, id);
                }
            },
            None => {},
        }
    }
}

/// Every support card with an integer `support_card_id` and an integer
/// `limit_break_count`, whatever their values, is in the `cards` object under its
/// decimal id with its limit break, unless a later such card has the same id.
pub proof fn lemma_card_in_payload(d: Json, i: int, id: int, lb: int)
    requires
        0 <= i < json_list(json_get(d, "support_card_list"@)).len(),
        opt_as_i64(json_get(json_list(json_get(d, "support_card_list"@))[i], "support_card_id"@)) == Some(id),
        opt_as_i64(json_get(json_list(json_get(d, "support_card_list"@))[i], "limit_break_count"@)) == Some(lb),
        forall|j: int| i < j < json_list(json_get(d, "support_card_list"@)).len() ==> !(
            opt_as_i64(json_get(#[trigger] json_list(json_get(d, "support_card_list"@))[j], "support_card_id"@)) == Some(id)
            && opt_as_i64(json_get(json_list(json_get(d, "support_card_list"@))[j], "limit_break_count"@)) is Some),
    ensures
        obj_get(cards_of(d), int_decimal(id)) == Some(Json::Int(lb)),
{
    let s = json_list(json_get(d, "support_card_list"@));
    let item = |c: Json| card_item(c);
    assert forall|j: int| i < j < s.len() implies !(#[trigger] item(s[j]) matches Some((id2, _)) && id2 == id) by {
        assert(!(opt_as_i64(json_get(s[j], "support_card_id"@)) == Some(id)
            && opt_as_i64(json_get(s[j], "limit_break_count"@)) is Some));
    }
    lemma_last_item_for_at(s, item, i, id, Json::Int(lb));
    lemma_insert_items(s, item);
}

/// Every character card with integer `card_id`, `rarity` and `talent_level`,
/// whatever their values, is in the `umas` object under its decimal id with
/// `[rarity, talent_level]`, unless a later such card has the same id.
pub proof fn lemma_uma_in_payload(d: Json, i: int, id: int, r: int, t: int)
    requires
        0 <= i < json_list(json_get(d, "card_list"@)).len(),
        opt_as_i64(json_get(json_list(json_get(d, "card_list"@))[i], "card_id"@)) == Some(id),
        opt_as_i64(json_get(json_list(json_get(d, "card_list"@))[i], "rarity"@)) == Some(r),
        opt_as_i64(json_get(json_list(json_get(d, "card_list"@))[i], "talent_level"@)) == Some(t),
        forall|j: int| i < j < json_list(json_get(d, "card_list"@)).len() ==> !(
            opt_as_i64(json_get(#[trigger] json_list(json_get(d, "card_list"@))[j], "card_id"@)) == Some(id)
            && opt_as_i64(json_get(json_list(json_get(d, "card_list"@))[j], "rarity"@)) is Some
            && opt_as_i64(json_get(json_list(json_get(d, "card_list"@))[j], "talent_level"@)) is Some),
    ensures
        obj_get(umas_of(d), int_decimal(id)) == Some(Json::Array(seq![Json::Int(r), Json::Int(t)])),
{
    let s = json_list(json_get(d, "card_list"@));
    let item = |u: Json| uma_item(u);
    assert forall|j: int| i < j < s.len() implies !(#[trigger] item(s[j]) matches Some((id2, _)) && id2 == id) by {
        assert(!(opt_as_i64(json_get(s[j], "card_id"@)) == Some(id)
            && opt_as_i64(json_get(s[j], "rarity"@)) is Some
            && opt_as_i64(json_get(s[j], "talent_level"@)) is Some));
    }
    lemma_last_item_for_at(s, item, i, id, Json::Array(seq![Json::Int(r), Json::Int(t)]));
    lemma_insert_items(s, item);
}

/// `o` is an integer whose decimal text is `k`.
pub open spec fn decimal_is(o: Option<int>, k: Seq<char>) -> bool {
    match o {
        Some(id) => int_decimal(id) == k,
        None => false,
    }
}

/// `o` is an entry whose id has decimal text `k`.
pub open spec fn item_key_is(o: Option<(int, Json)>, k: Seq<char>) -> bool {
    match o {
        Some((id, _)) => int_decimal(id) == k,
        None => false,
    }
}

/// The payload's objects hold nothing but such cards: every key of `cards` is the
/// decimal id of a support card with integer id and limit break, every key of
/// `umas` the decimal id of a character card with integer id, rarity and talent.
pub proof fn lemma_payload_keys_from_cards(d: Json, k: Seq<char>)
    ensures
        obj_get(cards_of(d), k) is Some ==> exists|i: int| 0 <= i < json_list(json_get(d, "support_card_list"@)).len()
            && decimal_is(opt_as_i64(json_get(#[trigger] json_list(json_get(d, "support_card_list"@))[i], "support_card_id"@)), k)
            && opt_as_i64(json_get(json_list(json_get(d, "support_card_list"@))[i], "limit_break_count"@)) is Some,
        obj_get(umas_of(d), k) is Some ==> exists|i: int| 0 <= i < json_list(json_get(d, "card_list"@)).len()
            && decimal_is(opt_as_i64(json_get(#[trigger] json_list(json_get(d, "card_list"@))[i], "card_id"@)), k)
            && opt_as_i64(json_get(json_list(json_get(d, "card_list"@))[i], "rarity"@)) is Some
            && opt_as_i64(json_get(json_list(json_get(d, "card_list"@))[i], "talent_level"@)) is Some,
{
    let s = json_list(json_get(d, "support_card_list"@));
    let u = json_list(json_get(d, "card_list"@));
    lemma_insert_items(s, |c: Json| card_item(c));
    lemma_insert_items(u, |x: Json| uma_item(x));
    lemma_last_item_some(s, |c: Json| card_item(c), k);
    lemma_last_item_some(u, |x: Json| uma_item(x), k);
    let fc = |c: Json| card_item(c);
    let fu = |x: Json| uma_item(x);
    if obj_get(cards_of(d), k) is Some {
        let i = choose|i: int| 0 <= i < s.len() && item_key_is(#[trigger] fc(s[i]), k);
        assert(card_item(s[i]) is Some);
    }
    if obj_get(umas_of(d), k) is Some {
        let i = choose|i: int| 0 <= i < u.len() && item_key_is(#[trigger] fu(u[i]), k);
        assert(uma_item(u[i]) is Some);
    }
}

pub proof fn lemma_last_item_some(s: Seq<Json>, item: spec_fn(Json) -> Option<(int, Json)>, k: Seq<char>)
    ensures
        last_item_for(s, item, k) is Some <==> exists|i: int| 0 <= i < s.len() && item_key_is(#[trigger] item(s[i]), k),
    decreases s.len(),
{
    if s.len() > 0 {
        let p = s.drop_last();
        lemma_last_item_some(p, item, k);
        if exists|i: int| 0 <= i < s.len() && item_key_is(#[trigger] item(s[i]), k) {
            let i = choose|i: int| 0 <= i < s.len() && item_key_is(#[trigger] item(s[i]), k);
            if i < s.len() - 1 {
                assert(p[i] == s[i]);
            } else {
                assert(s.last() == s[i]);
            }
        }
        if last_item_for(s, item, k) is Some {
            let l = s.len() - 1;
            assert(s[l] == s.last());
            if !item_key_is(item(s[l]), k) {
                let i = choose|i: int| 0 <= i < p.len() && item_key_is(#[trigger] item(p[i]), k);
                assert(s[i] == p[i]);
            }
        }
    }
}

/// The Hall of Fame update method is recognised by these exact character runs: the
/// class name contains `WorkTrainedCharaData` and the method name `UpdateAll`.
pub proof fn lemma_veteran_update_names(class_name: Seq<char>, method_name: Seq<char>)
    ensures
        is_veteran_update(class_name, method_name) <==> {
            &&& exists|i: int| 0 <= i && i + 20 <= class_name.len() && #[trigger] class_name.subrange(i, i + 20)
                == seq!['W', 'o', 'r', 'k', 'T', 'r', 'a', 'i', 'n', 'e', 'd', 'C', 'h', 'a', 'r', 'a', 'D', 'a', 't', 'a']
            &&& exists|j: int| 0 <= j && j + 9 <= method_name.len() && #[trigger] method_name.subrange(j, j + 9)
                == seq!['U', 'p', 'd', 'a', 't', 'e', 'A', 'l', 'l']
        },
{
    reveal_strlit("WorkTrainedCharaData");
    reveal_strlit("UpdateAll");
    assert("WorkTrainedCharaData"@ =~= seq!['W', 'o', 'r', 'k', 'T', 'r', 'a', 'i', 'n', 'e', 'd', 'C', 'h', 'a', 'r', 'a', 'D', 'a', 't', 'a']);
    assert("UpdateAll"@ =~= seq!['U', 'p', 'd', 'a', 't', 'e', 'A', 'l', 'l']);
}

/// A name like `UpdateTrainedCharaList`, which has `Update` but not `UpdateAll`,
/// is not the update method: the choice of method depends on the whole word.
pub proof fn lemma_veteran_update_needs_update_all(class_name: Seq<char>, method_name: Seq<char>)
    requires
        forall|j: int| 0 <= j && j + 9 <= method_name.len() ==> #[trigger] method_name[j + 6] != 'A',
    ensures
        !is_veteran_update(class_name, method_name),
{
    lemma_veteran_update_names(class_name, method_name);
    if is_veteran_update(class_name, method_name) {
        let j = choose|j: int| 0 <= j && j + 9 <= method_name.len() && #[trigger] method_name.subrange(j, j + 9)
            == seq!['U', 'p', 'd', 'a', 't', 'e', 'A', 'l', 'l'];
        assert(method_name.subrange(j, j + 9)[6] == method_name[j + 6]);
    }
}

/// A packet yields a capture exactly when some support card has an integer
/// `support_card_id` and an integer `limit_break_count`.
pub proof fn lemma_no_cards_iff(d: Json)
    ensures
        cards_of(d).len() == 0 <==> forall|i: int| 0 <= i < json_list(json_get(d, "support_card_list"@)).len() ==> !(
            opt_as_i64(json_get(#[trigger] json_list(json_get(d, "support_card_list"@))[i], "support_card_id"@)) is Some
            && opt_as_i64(json_get(json_list(json_get(d, "support_card_list"@))[i], "limit_break_count"@)) is Some),
{
    let s = json_list(json_get(d, "support_card_list"@));
    let fc = |c: Json| card_item(c);
    lemma_insert_items(s, fc);
    let es = cards_of(d);
    if es.len() == 0 {
        assert forall|i: int| 0 <= i < s.len() implies !(
            opt_as_i64(json_get(#[trigger] s[i], "support_card_id"@)) is Some
            && opt_as_i64(json_get(s[i], "limit_break_count"@)) is Some) by {
            if opt_as_i64(json_get(s[i], "support_card_id"@)) is Some
                && opt_as_i64(json_get(s[i], "limit_break_count"@)) is Some {
                let id = opt_as_i64(json_get(s[i], "support_card_id"@))->0;
                let k = int_decimal(id);
                assert(item_key_is(fc(s[i]), k));
                lemma_last_item_some(s, fc, k);
                assert(obj_get(es, k) is Some);
                reveal(obj_index);
            }
        }
    } else {
        let k = es[0].0;
        assert(obj_get(es, k) is Some) by {
            reveal(obj_index);
        }
        lemma_last_item_some(s, fc, k);
        let i = choose|i: int| 0 <= i < s.len() && item_key_is(#[trigger] fc(s[i]), k);
        assert(opt_as_i64(json_get(s[i], "support_card_id"@)) is Some
            && opt_as_i64(json_get(s[i], "limit_break_count"@)) is Some);
    }
}

} // verus!
