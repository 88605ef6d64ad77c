use vstd::prelude::*;
use rmpv::Value;
use crate::json::{JsonValue, Json, json_wf, json_entries_wf, lemma_json_seq_wf, lemma_obj_insert_wf, keys_distinct, json_view, json_view_seq, json_view_entries, lemma_json_view_seq, obj_insert, obj_entries_insert, obj_get, obj_index, lemma_obj_insert_distinct};

verus! {

/// A MessagePack value as decoded from a packet.
///
/// An integer carries both of its readings: as `i64` (when it fits) and as `u64`
/// (when it fits); a decoded value has at least one, and they agree (see `msg_wf`). A string carries its text, or nothing when its bytes are not
/// valid UTF-8. A float is carried as the serde_json number that stands for it, or
/// nothing when it is infinite or NaN.
pub enum MsgValue {
    Nil,
    Boolean(bool),
    Integer(Option<i64>, Option<u64>),
    F32(Option<serde_json::Number>),
    F64(Option<serde_json::Number>),
    Str(Option<String>),
    Binary(Vec<u8>),
    Array(Vec<MsgValue>),
    Mapping(Vec<(MsgValue, MsgValue)>),
    Ext(i8, Vec<u8>),
}

/// The mathematical model of a MessagePack value.
pub enum Msg {
    Nil,
    Boolean(bool),
    Integer(Option<i64>, Option<u64>),
    F32(Option<serde_json::Number>),
    F64(Option<serde_json::Number>),
    Str(Option<Seq<char>>),
    Binary(Seq<u8>),
    Array(Seq<Msg>),
    Mapping(Seq<(Msg, Msg)>),
    Ext(i8, Seq<u8>),
}

pub open spec fn msg_view(v: MsgValue) -> Msg
    decreases v,
{
    match v {
        MsgValue::Nil => Msg::Nil,
        MsgValue::Boolean(b) => Msg::Boolean(b),
        MsgValue::Integer(i, u) => Msg::Integer(i, u),
        MsgValue::F32(b) => Msg::F32(b),
        MsgValue::F64(b) => Msg::F64(b),
        MsgValue::Str(s) => Msg::Str(
            match s {
                Some(t) => Some(t@),
                None => None,
            },
        ),
        MsgValue::Binary(b) => Msg::Binary(b@),
        MsgValue::Array(a) => Msg::Array(msg_view_seq(a@)),
        MsgValue::Mapping(m) => Msg::Mapping(msg_view_entries(m@)),
        MsgValue::Ext(t, b) => Msg::Ext(t, b@),
    }
}

pub open spec fn msg_view_seq(s: Seq<MsgValue>) -> Seq<Msg>
    decreases s,
{
    if s.len() == 0 {
        seq![]
    } else {
        msg_view_seq(s.drop_last()).push(msg_view(s.last()))
    }
}

pub open spec fn msg_view_entries(s: Seq<(MsgValue, MsgValue)>) -> Seq<(Msg, Msg)>
    decreases s,
{
    if s.len() == 0 {
        seq![]
    } else {
        msg_view_entries(s.drop_last()).push((msg_view(s.last().0), msg_view(s.last().1)))
    }
}

impl View for MsgValue {
    type V = Msg;

    open spec fn view(&self) -> Msg {
        msg_view(*self)
    }
}

pub proof fn lemma_msg_view_seq(s: Seq<MsgValue>)
    ensures
        msg_view_seq(s).len() == s.len(),
        forall|j: int| 0 <= j < s.len() ==> #[trigger] msg_view_seq(s)[j] == msg_view(s[j]),
    decreases s.len(),
{
    if s.len() > 0 {
        lemma_msg_view_seq(s.drop_last());
    }
}

pub proof fn lemma_msg_view_entries(s: Seq<(MsgValue, MsgValue)>)
    ensures
        msg_view_entries(s).len() == s.len(),
        forall|j: int|
            0 <= j < s.len() ==> #[trigger] msg_view_entries(s)[j] == (msg_view(s[j].0), msg_view(s[j].1)),
    decreases s.len(),
{
    if s.len() > 0 {
        lemma_msg_view_entries(s.drop_last());
    }
}

/// The JSON document that a MessagePack value stands for: nil, booleans, integers,
/// strings and arrays map to their JSON kind; a float becomes its number, or `null`
/// when it has none; binary data
/// becomes an array of its byte values; a string that is not valid UTF-8 and an
/// extension value become `null`; a map becomes an object made by inserting its
/// entries in order, where entries whose key is not a (valid) string are dropped and a
/// later entry with the same key replaces the value of the earlier one.
pub open spec fn msg_to_json(m: Msg) -> Json
    decreases m,
{
    match m {
        Msg::Nil => Json::Null,
        Msg::Boolean(b) => Json::Bool(b),
        Msg::Integer(i, u) => match i {
            Some(x) => Json::Int(x as int),
            None => match u {
                Some(y) => Json::Int(y as int),
                None => Json::Null,
            },
        },
        Msg::F32(f) => match f {
            Some(n) => Json::Float(n),
            None => Json::Null,
        },
        Msg::F64(f) => match f {
            Some(n) => Json::Float(n),
            None => Json::Null,
        },
        Msg::Str(s) => match s {
            Some(t) => Json::Str(t),
            None => Json::Null,
        },
        Msg::Binary(bs) => Json::Array(bytes_to_json(bs)),
        Msg::Array(a) => Json::Array(msgs_to_json(a)),
        Msg::Mapping(es) => Json::Object(msg_entries_to_json(es)),
        Msg::Ext(_, _) => Json::Null,
    }
}

pub open spec fn bytes_to_json(bs: Seq<u8>) -> Seq<Json> {
    Seq::new(bs.len(), |i: int| Json::Int(bs[i] as int))
}

pub open spec fn msgs_to_json(s: Seq<Msg>) -> Seq<Json>
    decreases s,
{
    if s.len() == 0 {
        seq![]
    } else {
        msgs_to_json(s.drop_last()).push(msg_to_json(s.last()))
    }
}

pub open spec fn msg_entries_to_json(es: Seq<(Msg, Msg)>) -> Seq<(Seq<char>, Json)>
    decreases es,
{
    if es.len() == 0 {
        seq![]
    } else {
        let prev = msg_entries_to_json(es.drop_last());
        match es.last().0 {
            Msg::Str(Some(k)) => obj_insert(prev, k, msg_to_json(es.last().1)),
            _ => prev,
        }
    }
}

pub proof fn lemma_msgs_to_json(s: Seq<Msg>)
    ensures
        msgs_to_json(s).len() == s.len(),
        forall|j: int| 0 <= j < s.len() ==> #[trigger] msgs_to_json(s)[j] == msg_to_json(s[j]),
    decreases s.len(),
{
    if s.len() > 0 {
        lemma_msgs_to_json(s.drop_last());
    }
}

/// Converts a MessagePack value into the JSON document it stands for.
pub fn rmpv_to_json(val: &MsgValue) -> (res: JsonValue)
    ensures
        res@ == msg_to_json(val@),
    decreases val,
{
    match val {
        MsgValue::Nil => JsonValue::Null,
        MsgValue::Boolean(b) => JsonValue::Bool(*b),
        MsgValue::Integer(i, u) => {
            if let Some(x) = i {
                JsonValue::Int(*x)
            } else if let Some(y) = u {
                JsonValue::UInt(*y)
            } else {
                JsonValue::Null
            }
        },
        MsgValue::F32(f) | MsgValue::F64(f) => match f {
            Some(n) => JsonValue::Float(n.clone()),
            None => JsonValue::Null,
        },
        MsgValue::Str(s) => match s {
            Some(t) => JsonValue::Str(t.clone()),
            None => JsonValue::Null,
        },
        MsgValue::Binary(bs) => {
            let mut out: Vec<JsonValue> = Vec::new();
            let mut i: usize = 0;
            while i < bs.len()
                invariant
                    i <= bs.len(),
                    out.len() == i,
                    forall|j: int| 0 <= j < i ==> json_view(#[trigger] out@[j]) == Json::Int(bs@[j] as int),
                decreases bs.len() - i,
            {
                out.push(JsonValue::Int(bs[i] as i64));
                i = i + 1;
            }
            proof {
                lemma_json_view_seq(out@);
                assert(json_view_seq(out@) =~= bytes_to_json(bs@));
            }
            JsonValue::Array(out)
        },
        MsgValue::Array(a) => {
            let mut out: Vec<JsonValue> = Vec::new();
            let mut i: usize = 0;
            while i < a.len()
                invariant
                    *val == MsgValue::Array(*a),
                    i <= a.len(),
                    out.len() == i,
                    forall|j: int| 0 <= j < i ==> json_view(#[trigger] out@[j]) == msg_to_json(msg_view(a@[j])),
                decreases a.len() - i,
            {
                proof {
                    vstd::std_specs::vec::axiom_vec_index_decreases(*a, i as int);
                    assert(decreases_to!(*val => (*val)->Array_0));
                }
                let c = rmpv_to_json(&a[i]);
                out.push(c);
                i = i + 1;
            }
            proof {
                lemma_json_view_seq(out@);
                lemma_msg_view_seq(a@);
                lemma_msgs_to_json(msg_view_seq(a@));
                assert(json_view_seq(out@) =~= msgs_to_json(msg_view_seq(a@)));
            }
            JsonValue::Array(out)
        },
        MsgValue::Mapping(m) => {
            let mut out: Vec<(String, JsonValue)> = Vec::new();
            let ghost es = msg_view_entries(m@);
            proof {
                lemma_msg_view_entries(m@);
                assert(es.take(0) =~= Seq::<(Msg, Msg)>::empty());
            }
            let mut i: usize = 0;
            while i < m.len()
                invariant
                    *val == MsgValue::Mapping(*m),
                    i <= m.len(),
                    es == msg_view_entries(m@),
                    es.len() == m.len(),
                    forall|j: int| 0 <= j < m.len() ==> #[trigger] es[j] == (msg_view(m@[j].0), msg_view(m@[j].1)),
                    json_view_entries(out@) == msg_entries_to_json(es.take(i as int)),
                decreases m.len() - i,
            {
                proof {
                    vstd::std_specs::vec::axiom_vec_index_decreases(*m, i as int);
                    assert(decreases_to!(*val => (*val)->Mapping_0));
                    assert(decreases_to!(m[i as int] => m[i as int].1));
                    assert(es.take(i + 1).drop_last() =~= es.take(i as int));
                    assert(es.take(i + 1).last() == es[i as int]);
                }
                match &m[i].0 {
                    MsgValue::Str(Some(k)) => {
                        let v = rmpv_to_json(&m[i].1);
                        obj_entries_insert(&mut out, k.clone(), v);
                    },
                    _ => {},
                }
                i = i + 1;
            }
            proof {
                assert(es.take(m.len() as int) =~= es);
            }
            JsonValue::Object(out)
        },
        MsgValue::Ext(_, _) => JsonValue::Null,
    }
}

/// The JSON document of any MessagePack value is well formed: in every object, at
/// any depth, the keys are distinct (a repeated map key leaves a single entry).
pub proof fn lemma_msg_to_json_wf(m: Msg)
    ensures
        json_wf(msg_to_json(m)),
    decreases m,
{
    match m {
        Msg::Array(a) => {
            lemma_msgs_to_json(a);
            assert forall|i: int| 0 <= i < a.len() implies json_wf(#[trigger] msgs_to_json(a)[i]) by {
                lemma_msg_to_json_wf(a[i]);
            }
            lemma_json_seq_wf(msgs_to_json(a));
        },
        Msg::Binary(bs) => {
            lemma_json_seq_wf(bytes_to_json(bs));
        },
        Msg::Mapping(es) => {
            lemma_msg_entries_to_json_wf(es);
        },
        _ => {},
    }
}

pub proof fn lemma_msg_entries_to_json_wf(es: Seq<(Msg, Msg)>)
    ensures
        keys_distinct(msg_entries_to_json(es)),
        json_entries_wf(msg_entries_to_json(es)),
    decreases es,
{
    if es.len() > 0 {
        lemma_msg_entries_to_json_wf(es.drop_last());
        match es.last().0 {
            Msg::Str(Some(k)) => {
                lemma_msg_to_json_wf(es.last().1);
                lemma_obj_insert_wf(msg_entries_to_json(es.drop_last()), k, msg_to_json(es.last().1));
            },
            _ => {},
        }
    }
}

/// The two readings of an integer as rmpv's `Integer::as_i64` and `as_u64` give
/// them: both, equal, for a non-negative value within `i64`; only the `u64` one for
/// a larger value; only the `i64` one for a negative value.
pub open spec fn int_readings_wf(i: Option<i64>, u: Option<u64>) -> bool {
    match (i, u) {
        (Some(x), Some(y)) => x as int == y as int,
        (Some(x), None) => x < 0,
        (None, Some(y)) => y > i64::MAX,
        (None, None) => false,
    }
}

/// Every integer in the value, at any depth, has consistent readings.
pub open spec fn msg_wf(m: Msg) -> bool
    decreases m,
{
    match m {
        Msg::Integer(i, u) => int_readings_wf(i, u),
        Msg::Array(a) => msg_seq_wf(a),
        Msg::Mapping(es) => msg_entries_wf(es),
        _ => true,
    }
}

pub open spec fn msg_seq_wf(s: Seq<Msg>) -> bool
    decreases s,
{
    if s.len() == 0 {
        true
    } else {
        msg_seq_wf(s.drop_last()) && msg_wf(s.last())
    }
}

pub open spec fn msg_entries_wf(es: Seq<(Msg, Msg)>) -> bool
    decreases es,
{
    if es.len() == 0 {
        true
    } else {
        msg_entries_wf(es.drop_last()) && msg_wf(es.last().0) && msg_wf(es.last().1)
    }
}

/// A consistent integer becomes the JSON number of its value, never `null`.
pub proof fn lemma_integer_to_json(i: Option<i64>, u: Option<u64>)
    requires
        int_readings_wf(i, u),
    ensures
        msg_to_json(Msg::Integer(i, u)) == Json::Int(
            match i {
                Some(x) => x as int,
                None => u->0 as int,
            },
        ),
        u matches Some(y) ==> msg_to_json(Msg::Integer(i, u)) == Json::Int(y as int),
{
}

/// The value of the last entry of a map whose key is the (valid) string `k`.
pub open spec fn last_entry_for(es: Seq<(Msg, Msg)>, k: Seq<char>) -> Option<Msg>
    decreases es.len(),
{
    if es.len() == 0 {
        None
    } else if es.last().0 == Msg::Str(Some(k)) {
        Some(es.last().1)
    } else {
        last_entry_for(es.drop_last(), k)
    }
}

/// A map becomes the object whose keys are exactly its valid string keys, each
/// with the JSON of the value of the last entry with that key.
pub proof fn lemma_msg_entries_to_json_get(es: Seq<(Msg, Msg)>)
    ensures
        forall|k: Seq<char>| #[trigger] obj_get(msg_entries_to_json(es), k) == match last_entry_for(es, k) {
            Some(v) => Some(msg_to_json(v)),
            None => None,
        },
        forall|k: Seq<char>| (exists|j: int| 0 <= j < msg_entries_to_json(es).len() && #[trigger] msg_entries_to_json(es)[j].0 == k)
            <==> last_entry_for(es, k) is Some,
    decreases es.len(),
{
    lemma_msg_entries_to_json_wf(es);
    if es.len() == 0 {
        reveal(obj_index);
    } else {
        lemma_msg_entries_to_json_get(es.drop_last());
        lemma_msg_entries_to_json_wf(es.drop_last());
        let prev = msg_entries_to_json(es.drop_last());
        match es.last().0 {
            Msg::Str(Some(k0)) => {
                lemma_obj_insert_distinct(prev, k0, msg_to_json(es.last().1));
            },
            _ => {},
        }
        assert forall|k: Seq<char>| #[trigger] obj_get(msg_entries_to_json(es), k) == match last_entry_for(es, k) {
            Some(v) => Some(msg_to_json(v)),
            None => None,
        } by {
            assert(obj_get(prev, k) == match last_entry_for(es.drop_last(), k) {
                Some(v) => Some(msg_to_json(v)),
                None => None,
            });
        }
    }
    let r = msg_entries_to_json(es);
    assert forall|k: Seq<char>| (exists|j: int| 0 <= j < r.len() && #[trigger] r[j].0 == k)
        <==> last_entry_for(es, k) is Some by {
        reveal(obj_index);
        assert(obj_get(r, k) is Some <==> last_entry_for(es, k) is Some);
    }
}

/// Scalars keep their value: nil is `null`, a boolean is the same boolean, a valid
/// string is the same text, an integer is its number, binary data is the array of
/// its byte values in order, a float is its number when it has one; an invalid
/// string, an extension value and a float without a number are `null`.
pub proof fn lemma_msg_scalars_to_json()
    ensures
        msg_to_json(Msg::Nil) == Json::Null,
        forall|b: bool| #[trigger] msg_to_json(Msg::Boolean(b)) == Json::Bool(b),
        forall|t: Seq<char>| #[trigger] msg_to_json(Msg::Str(Some(t))) == Json::Str(t),
        msg_to_json(Msg::Str(None)) == Json::Null,
        forall|x: i64, u: Option<u64>| #[trigger] msg_to_json(Msg::Integer(Some(x), u)) == Json::Int(x as int),
        forall|y: u64| #[trigger] msg_to_json(Msg::Integer(None, Some(y))) == Json::Int(y as int),
        forall|n: serde_json::Number| #[trigger] msg_to_json(Msg::F32(Some(n))) == Json::Float(n),
        forall|n: serde_json::Number| #[trigger] msg_to_json(Msg::F64(Some(n))) == Json::Float(n),
        msg_to_json(Msg::F32(None)) == Json::Null,
        msg_to_json(Msg::F64(None)) == Json::Null,
        forall|t: i8, bs: Seq<u8>| #[trigger] msg_to_json(Msg::Ext(t, bs)) == Json::Null,
        forall|bs: Seq<u8>| #[trigger] msg_to_json(Msg::Binary(bs)) matches Json::Array(a) && a.len() == bs.len()
            && forall|i: int| 0 <= i < bs.len() ==> a[i] == Json::Int(bs[i] as int),
{
}

/// An array keeps its length and order, each element converted.
pub proof fn lemma_msg_array_to_json(a: Seq<Msg>)
    ensures
        msg_to_json(Msg::Array(a)) matches Json::Array(b) && b.len() == a.len()
            && forall|i: int| 0 <= i < a.len() ==> b[i] == msg_to_json(#[trigger] a[i]),
{
    lemma_msgs_to_json(a);
}

/// A map becomes an object: a key is present exactly when some entry has it as a
/// valid string key, and then it holds the JSON of the last such entry's value.
pub proof fn lemma_msg_map_to_json(es: Seq<(Msg, Msg)>, k: Seq<char>)
    ensures
        msg_to_json(Msg::Mapping(es)) matches Json::Object(o) && obj_get(o, k) == match last_entry_for(es, k) {
            Some(v) => Some(msg_to_json(v)),
            None => None,
        },
        last_entry_for(es, k) is Some <==> exists|j: int| 0 <= j < es.len() && #[trigger] es[j].0 == Msg::Str(Some(k)),
        forall|j: int| 0 <= j < es.len() && #[trigger] es[j].0 == Msg::Str(Some(k))
            && (forall|l: int| j < l < es.len() ==> es[l].0 != Msg::Str(Some(k)))
            ==> last_entry_for(es, k) == Some(es[j].1),
{
    lemma_msg_entries_to_json_get(es);
    lemma_last_entry_for(es, k);
}

pub proof fn lemma_last_entry_for(es: Seq<(Msg, Msg)>, k: Seq<char>)
    ensures
        last_entry_for(es, k) is Some <==> exists|j: int| 0 <= j < es.len() && #[trigger] es[j].0 == Msg::Str(Some(k)),
        forall|j: int| 0 <= j < es.len() && #[trigger] es[j].0 == Msg::Str(Some(k))
            && (forall|l: int| j < l < es.len() ==> es[l].0 != Msg::Str(Some(k)))
            ==> last_entry_for(es, k) == Some(es[j].1),
    decreases es.len(),
{
    if es.len() > 0 {
        let p = es.drop_last();
        lemma_last_entry_for(p, k);
        assert forall|j: int| 0 <= j < p.len() implies #[trigger] p[j] == es[j] by {}
        if es.last().0 == Msg::Str(Some(k)) {
            assert(es[es.len() - 1].0 == Msg::Str(Some(k)));
        } else {
            if exists|j: int| 0 <= j < es.len() && #[trigger] es[j].0 == Msg::Str(Some(k)) {
                let j = choose|j: int| 0 <= j < es.len() && #[trigger] es[j].0 == Msg::Str(Some(k));
                assert(p[j].0 == Msg::Str(Some(k)));
            }
        }
        assert forall|j: int| 0 <= j < es.len() && #[trigger] es[j].0 == Msg::Str(Some(k))
            && (forall|l: int| j < l < es.len() ==> es[l].0 != Msg::Str(Some(k)))
            implies last_entry_for(es, k) == Some(es[j].1) by {
            if j < es.len() - 1 {
                assert(es[es.len() - 1].0 != Msg::Str(Some(k)));
                assert(p[j].0 == Msg::Str(Some(k)));
                assert forall|l: int| j < l < p.len() implies p[l].0 != Msg::Str(Some(k)) by {
                    assert(es[l].0 != Msg::Str(Some(k)));
                }
            }
        }
    }
}

#[verifier::external_type_specification]
#[verifier::external_body]
pub struct ExRmpvValue(rmpv::Value);

/// The value that `rmpv::decode::read_value` reads from the start of `data`
/// (trailing bytes are left unread), in this library's model; `None` when it
/// reports an error (truncated input, depth limit).
pub uninterp spec fn msgpack_value_of(data: Seq<u8>) -> Option<Msg>;

/// Part of `decode_msgpack`'s trusted body: moves an `rmpv::Value` into a
/// `MsgValue`, variant for variant, keeping both integer readings (`as_i64`,
/// `as_u64`), a string's text when it is valid UTF-8 (`into_str`), and for a float
/// the number of serde_json's `Value::from` of it (through `into`).
#[verifier::external_body]
fn msg_from_rmpv(v: Value) -> MsgValue {
    match v {
        Value::Nil => MsgValue::Nil,
        Value::Boolean(b) => MsgValue::Boolean(b),
        Value::Integer(i) => MsgValue::Integer(i.as_i64(), i.as_u64()),
        Value::F32(f) => MsgValue::F32(json_number(f.into())),
        Value::F64(f) => MsgValue::F64(json_number(f.into())),
        Value::String(s) => MsgValue::Str(s.into_str()),
        Value::Binary(b) => MsgValue::Binary(b),
        Value::Array(a) => MsgValue::Array(a.into_iter().map(msg_from_rmpv).collect()),
        Value::Map(m) => MsgValue::Mapping(m.into_iter().map(msg_pair).collect()),
        Value::Ext(t, b) => MsgValue::Ext(t, b),
    }
}

/// Part of `decode_msgpack`'s trusted body: moves a map entry, key and value.
#[verifier::external_body]
fn msg_pair(e: (Value, Value)) -> (MsgValue, MsgValue) {
    (msg_from_rmpv(e.0), msg_from_rmpv(e.1))
}

/// Part of `decode_msgpack`'s trusted body: the number of a serde_json value.
#[verifier::external_body]
fn json_number(v: serde_json::Value) -> Option<serde_json::Number> {
    match v {
        serde_json::Value::Number(n) => Some(n),
        _ => None,
    }
}

/// Decodes one MessagePack value from the start of `data`.
///
/// Trusted: calls `rmpv::decode::read_value` on a cursor over `data`. The contract
/// claims that the outcome is the one named by `msgpack_value_of` for these bytes,
/// and that every integer has the readings rmpv's `Integer` gives (`msg_wf`:
/// a non-negative one both readings when it fits `i64`, only the `u64` one above
/// that; a negative one only the `i64` one); the error text is rmpv's message and
/// is not stated.
#[verifier::external_body]
pub(crate) fn decode_msgpack(data: &[u8]) -> (res: Result<MsgValue, String>)
    ensures
        match res {
            Ok(v) => msgpack_value_of(data@) == Some(v@) && msg_wf(v@),
            Err(_) => msgpack_value_of(data@) is None,
        },
{
    let mut cursor = std::io::Cursor::new(data);
    rmpv::decode::read_value(&mut cursor).map(msg_from_rmpv).map_err(|e| e.to_string())
}

} // verus!
