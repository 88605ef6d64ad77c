use vstd::prelude::*;

verus! {

#[verifier::external_type_specification]
#[verifier::external_body]
pub struct ExJsonNumber(serde_json::Number);

#[verifier::external_type_specification]
#[verifier::external_body]
pub struct ExJsonValue(serde_json::Value);

/// Trusted: `serde_json::Number` derives `Clone`, so a clone is the same number.
pub assume_specification[ <serde_json::Number as Clone>::clone ](n: &serde_json::Number) -> (res: serde_json::Number)
    ensures
        res == *n,
;

/// A JSON document as the library builds and reads it.
///
/// Numbers keep the integer kind they were made from (`Int` for values that fit
/// `i64`, `UInt` otherwise); a floating-point number is carried as serde_json's
/// own (finite) number. An object is a list of (key, value) entries; the objects
/// this library builds have distinct keys (see `json_wf`).
pub enum JsonValue {
    Null,
    Bool(bool),
    Int(i64),
    UInt(u64),
    Float(serde_json::Number),
    Str(String),
    Array(Vec<JsonValue>),
    Object(Vec<(String, JsonValue)>),
}

/// The mathematical model of a JSON document: integers are plain integers,
/// floats are serde_json's numbers,
/// strings are character sequences, objects are sequences of (key, value) entries.
pub enum Json {
    Null,
    Bool(bool),
    Int(int),
    Float(serde_json::Number),
    Str(Seq<char>),
    Array(Seq<Json>),
    Object(Seq<(Seq<char>, Json)>),
}

pub open spec fn json_view(v: JsonValue) -> Json
    decreases v,
{
    match v {
        JsonValue::Null => Json::Null,
        JsonValue::Bool(b) => Json::Bool(b),
        JsonValue::Int(i) => Json::Int(i as int),
        JsonValue::UInt(u) => Json::Int(u as int),
        JsonValue::Float(n) => Json::Float(n),
        JsonValue::Str(s) => Json::Str(s@),
        JsonValue::Array(a) => Json::Array(json_view_seq(a@)),
        JsonValue::Object(o) => Json::Object(json_view_entries(o@)),
    }
}

pub open spec fn json_view_seq(s: Seq<JsonValue>) -> Seq<Json>
    decreases s,
{
    if s.len() == 0 {
        seq![]
    } else {
        json_view_seq(s.drop_last()).push(json_view(s.last()))
    }
}

pub open spec fn json_view_entries(s: Seq<(String, JsonValue)>) -> Seq<(Seq<char>, Json)>
    decreases s,
{
    if s.len() == 0 {
        seq![]
    } else {
        json_view_entries(s.drop_last()).push((s.last().0@, json_view(s.last().1)))
    }
}

impl View for JsonValue {
    type V = Json;

    open spec fn view(&self) -> Json {
        json_view(*self)
    }
}

pub proof fn lemma_json_view_seq(s: Seq<JsonValue>)
    ensures
        json_view_seq(s).len() == s.len(),
        forall|j: int| 0 <= j < s.len() ==> #[trigger] json_view_seq(s)[j] == json_view(s[j]),
    decreases s.len(),
{
    if s.len() > 0 {
        lemma_json_view_seq(s.drop_last());
    }
}

pub proof fn lemma_json_view_entries(s: Seq<(String, JsonValue)>)
    ensures
        json_view_entries(s).len() == s.len(),
        forall|j: int|
            0 <= j < s.len() ==> #[trigger] json_view_entries(s)[j] == (s[j].0@, json_view(s[j].1)),
    decreases s.len(),
{
    if s.len() > 0 {
        lemma_json_view_entries(s.drop_last());
    }
}

/// Index of the first entry with key `k`, if any.
#[verifier::opaque]
pub open spec fn obj_index(es: Seq<(Seq<char>, Json)>, k: Seq<char>) -> Option<int> {
    if exists|i: int| 0 <= i < es.len() && es[i].0 == k {
        Some(choose|i: int| 0 <= i < es.len() && es[i].0 == k && forall|j: int| 0 <= j < i ==> es[j].0 != k)
    } else {
        None
    }
}

/// The value of the first entry with key `k`, if any.
pub open spec fn obj_get(es: Seq<(Seq<char>, Json)>, k: Seq<char>) -> Option<Json> {
    match obj_index(es, k) {
        Some(i) => Some(es[i].1),
        None => None,
    }
}

/// Setting key `k` to `v`: the entry with that key takes the new value where it
/// stands; a key not yet present is appended.
pub open spec fn obj_insert(es: Seq<(Seq<char>, Json)>, k: Seq<char>, v: Json) -> Seq<(Seq<char>, Json)> {
    match obj_index(es, k) {
        Some(i) => es.update(i, (k, v)),
        None => es.push((k, v)),
    }
}

/// No two entries share a key.
pub open spec fn keys_distinct(es: Seq<(Seq<char>, Json)>) -> bool {
    forall|i: int, j: int| 0 <= i < j < es.len() ==> es[i].0 != es[j].0
}

/// What `Value::get` of serde_json gives for a key: the entry's value on an object,
/// nothing on any other kind of value.
pub open spec fn json_get(v: Json, k: Seq<char>) -> Option<Json> {
    match v {
        Json::Object(es) => obj_get(es, k),
        _ => None,
    }
}

/// What `Value::as_i64` of serde_json gives: an integer within the `i64` range.
pub open spec fn json_as_i64(v: Json) -> Option<int> {
    match v {
        Json::Int(n) => if i64::MIN <= n <= i64::MAX { Some(n) } else { None },
        _ => None,
    }
}

pub proof fn lemma_obj_index_first(es: Seq<(Seq<char>, Json)>, k: Seq<char>, i: int)
    requires
        0 <= i < es.len(),
        es[i].0 == k,
        forall|j: int| 0 <= j < i ==> es[j].0 != k,
    ensures
        obj_index(es, k) == Some(i),
{
    reveal(obj_index);
    let c = choose|i: int| 0 <= i < es.len() && es[i].0 == k && forall|j: int| 0 <= j < i ==> es[j].0 != k;
    assert(0 <= c < es.len() && es[c].0 == k && forall|j: int| 0 <= j < c ==> es[j].0 != k);
    if c < i {
        assert(es[c].0 != k);
    } else if c > i {
        assert(es[i].0 != k);
    }
}

pub proof fn lemma_obj_insert_distinct(es: Seq<(Seq<char>, Json)>, k: Seq<char>, v: Json)
    requires
        keys_distinct(es),
    ensures
        keys_distinct(obj_insert(es, k, v)),
        obj_get(obj_insert(es, k, v), k) == Some(v),
        forall|k2: Seq<char>| k2 != k ==> obj_get(#[trigger] obj_insert(es, k, v), k2) == obj_get(es, k2),
{
    reveal(obj_index);
    let r = obj_insert(es, k, v);
    match obj_index(es, k) {
        Some(i) => {
            lemma_obj_index_first(r, k, i);
            assert forall|k2: Seq<char>| k2 != k implies obj_get(#[trigger] obj_insert(es, k, v), k2) == obj_get(es, k2) by {
                match obj_index(es, k2) {
                    Some(i2) => {
                        lemma_obj_index_first(r, k2, i2);
                    }
                    None => {
                        assert(!(exists|j: int| 0 <= j < r.len() && r[j].0 == k2));
                    }
                }
            }
        }
        None => {
            lemma_obj_index_first(r, k, es.len() as int);
            assert forall|k2: Seq<char>| k2 != k implies obj_get(#[trigger] obj_insert(es, k, v), k2) == obj_get(es, k2) by {
                match obj_index(es, k2) {
                    Some(i2) => {
                        lemma_obj_index_first(r, k2, i2);
                    }
                    None => {
                        assert(!(exists|j: int| 0 <= j < r.len() && r[j].0 == k2));
                    }
                }
            }
        }
    }
}

impl JsonValue {
    /// A deep copy.
    pub fn deep_clone(&self) -> (res: JsonValue)
        ensures
            res@ == self@,
        decreases self,
    {
        match self {
            JsonValue::Null => JsonValue::Null,
            JsonValue::Bool(b) => JsonValue::Bool(*b),
            JsonValue::Int(i) => JsonValue::Int(*i),
            JsonValue::UInt(u) => JsonValue::UInt(*u),
            JsonValue::Float(n) => JsonValue::Float(n.clone()),
            JsonValue::Str(s) => JsonValue::Str(s.clone()),
            JsonValue::Array(a) => {
                let mut out: Vec<JsonValue> = Vec::new();
                let mut i: usize = 0;
                while i < a.len()
                    invariant
                        *self == JsonValue::Array(*a),
                        i <= a.len(),
                        out.len() == i,
                        forall|j: int| 0 <= j < i ==> json_view(#[trigger] out@[j]) == json_view(a@[j]),
                    decreases a.len() - i,
                {
                    proof {
                        vstd::std_specs::vec::axiom_vec_index_decreases(*a, i as int);
                        assert(decreases_to!(*self => (*self)->Array_0));
                    }
                    let c = a[i].deep_clone();
                    out.push(c);
                    i = i + 1;
                }
                proof {
                    lemma_json_view_seq(out@);
                    lemma_json_view_seq(a@);
                    assert(json_view_seq(out@) =~= json_view_seq(a@));
                }
                JsonValue::Array(out)
            },
            JsonValue::Object(o) => {
                let mut out: Vec<(String, JsonValue)> = Vec::new();
                let mut i: usize = 0;
                while i < o.len()
                    invariant
                        *self == JsonValue::Object(*o),
                        i <= o.len(),
                        out.len() == i,
                        forall|j: int| 0 <= j < i ==> (#[trigger] out@[j]).0@ == o@[j].0@ && json_view(out@[j].1) == json_view(o@[j].1),
                    decreases o.len() - i,
                {
                    proof {
                        vstd::std_specs::vec::axiom_vec_index_decreases(*o, i as int);
                        assert(decreases_to!(*self => (*self)->Object_0));
                        assert(decreases_to!(o[i as int] => o[i as int].1));
                    }
                    let k = o[i].0.clone();
                    let c = o[i].1.deep_clone();
                    out.push((k, c));
                    i = i + 1;
                }
                proof {
                    lemma_json_view_entries(out@);
                    lemma_json_view_entries(o@);
                    assert(json_view_entries(out@) =~= json_view_entries(o@));
                }
                JsonValue::Object(out)
            },
        }
    }
}

impl JsonValue {
    /// The value under `key` when this is an object (as serde_json's `Value::get`).
    pub fn get(&self, key: &String) -> (res: Option<&JsonValue>)
        ensures
            match res {
                Some(r) => json_get(self@, key@) == Some(r@),
                None => json_get(self@, key@) is None,
            },
    {
        match self {
            JsonValue::Object(o) => {
                proof {
                    lemma_json_view_entries(o@);
                }
                let ghost es = json_view_entries(o@);
                let mut i: usize = 0;
                while i < o.len()
                    invariant
                        *self == JsonValue::Object(*o),
                        i <= o.len(),
                        es == json_view_entries(o@),
                        es.len() == o.len(),
                        forall|j: int| 0 <= j < o.len() ==> #[trigger] es[j] == (o@[j].0@, json_view(o@[j].1)),
                        forall|j: int| 0 <= j < i ==> es[j].0 != key@,
                    decreases o.len() - i,
                {
                    if o[i].0 == *key {
                        proof {
                            lemma_obj_index_first(es, key@, i as int);
                        }
                        return Some(&o[i].1);
                    }
                    i = i + 1;
                }
                proof {
                    reveal(obj_index);
                }
                None
            },
            _ => None,
        }
    }

    /// The integer when this is a number within the `i64` range (as serde_json's `Value::as_i64`).
    pub fn as_i64(&self) -> (res: Option<i64>)
        ensures
            match res {
                Some(n) => json_as_i64(self@) == Some(n as int),
                None => json_as_i64(self@) is None,
            },
    {
        match self {
            JsonValue::Int(i) => Some(*i),
            JsonValue::UInt(u) => if *u <= 0x7fff_ffff_ffff_ffffu64 { Some(*u as i64) } else { None },
            _ => None,
        }
    }

    pub fn is_array(&self) -> (res: bool)
        ensures
            res == self@ is Array,
    {
        match self {
            JsonValue::Array(_) => true,
            _ => false,
        }
    }

    pub fn is_object(&self) -> (res: bool)
        ensures
            res == self@ is Object,
    {
        match self {
            JsonValue::Object(_) => true,
            _ => false,
        }
    }
}

/// Sets `key` to `value` in a list of object entries (as serde_json's `Map::insert`).
pub fn obj_entries_insert(entries: &mut Vec<(String, JsonValue)>, key: String, value: JsonValue)
    ensures
        json_view_entries(final(entries)@) == obj_insert(json_view_entries(old(entries)@), key@, value@),
{
    proof {
        lemma_json_view_entries(entries@);
    }
    let ghost es = json_view_entries(entries@);
    let ghost kv = key@;
    let ghost vv = value@;
    let mut i: usize = 0;
    while i < entries.len()
        invariant
            i <= entries.len(),
            entries@ == old(entries)@,
            es == json_view_entries(entries@),
            es.len() == entries.len(),
            kv == key@,
            vv == value@,
            forall|j: int| 0 <= j < entries.len() ==> #[trigger] es[j] == (entries@[j].0@, json_view(entries@[j].1)),
            forall|j: int| 0 <= j < i ==> es[j].0 != key@,
        decreases entries.len() - i,
    {
        if entries[i].0 == key {
            proof {
                lemma_obj_index_first(es, kv, i as int);
            }
            entries.set(i, (key, value));
            proof {
                lemma_json_view_entries(entries@);
                assert(json_view_entries(entries@) =~= es.update(i as int, (kv, vv)));
            }
            return;
        }
        i = i + 1;
    }
    proof {
        reveal(obj_index);
        assert(!(exists|j: int| 0 <= j < es.len() && es[j].0 == kv));
    }
    entries.push((key, value));
    proof {
        lemma_json_view_entries(entries@);
        assert(json_view_entries(entries@) =~= es.push((kv, vv)));
    }
}

/// Every object in the document, at any depth, has distinct keys.
pub open spec fn json_wf(j: Json) -> bool
    decreases j,
{
    match j {
        Json::Array(a) => json_seq_wf(a),
        Json::Object(es) => keys_distinct(es) && json_entries_wf(es),
        _ => true,
    }
}

pub open spec fn json_seq_wf(s: Seq<Json>) -> bool
    decreases s,
{
    if s.len() == 0 {
        true
    } else {
        json_seq_wf(s.drop_last()) && json_wf(s.last())
    }
}

pub open spec fn json_entries_wf(es: Seq<(Seq<char>, Json)>) -> bool
    decreases es,
{
    if es.len() == 0 {
        true
    } else {
        json_entries_wf(es.drop_last()) && json_wf(es.last().1)
    }
}

pub proof fn lemma_json_seq_wf(s: Seq<Json>)
    ensures
        json_seq_wf(s) <==> forall|i: int| 0 <= i < s.len() ==> json_wf(#[trigger] s[i]),
    decreases s.len(),
{
    if s.len() > 0 {
        lemma_json_seq_wf(s.drop_last());
        assert(forall|i: int| 0 <= i < s.len() - 1 ==> s.drop_last()[i] == s[i]);
    }
}

pub proof fn lemma_json_entries_wf(es: Seq<(Seq<char>, Json)>)
    ensures
        json_entries_wf(es) <==> forall|i: int| 0 <= i < es.len() ==> json_wf(#[trigger] es[i].1),
    decreases es.len(),
{
    if es.len() > 0 {
        lemma_json_entries_wf(es.drop_last());
        assert(forall|i: int| 0 <= i < es.len() - 1 ==> es.drop_last()[i] == es[i]);
    }
}

pub proof fn lemma_obj_insert_wf(es: Seq<(Seq<char>, Json)>, k: Seq<char>, v: Json)
    requires
        keys_distinct(es),
        json_entries_wf(es),
        json_wf(v),
    ensures
        keys_distinct(obj_insert(es, k, v)),
        json_entries_wf(obj_insert(es, k, v)),
{
    lemma_obj_insert_distinct(es, k, v);
    lemma_json_entries_wf(es);
    lemma_json_entries_wf(obj_insert(es, k, v));
    reveal(obj_index);
}

} // verus!
