//! JSON documents as the control plane reads and writes them (inventories,
//! validation results, provider payloads), with a mathematical view.
//!
//! Objects are sequences of `(key, value)` fields: a lookup finds the first
//! field with the key, an assignment replaces that field in place or appends a
//! new one, and a removal drops every field with the key.
use vstd::prelude::*;

use crate::text::{copy_string, owned, str_eq};

verus! {

/// A JSON number: an unsigned or negative integer, or any other number kept
/// in its decimal text.
#[derive(Debug, Clone, PartialEq)]
pub enum JsonNumber {
    PosInt(u64),
    NegInt(i64),
    Float(String),
}

/// Mathematical view of a JSON number.
pub enum Number {
    PosInt(u64),
    NegInt(i64),
    Float(Seq<char>),
}

/// Mathematical view of a JSON document.
pub enum Json {
    Null,
    Bool(bool),
    Num(Number),
    Str(Seq<char>),
    Array(Seq<Json>),
    Object(Seq<(Seq<char>, Json)>),
}

/// A JSON document.
#[derive(Debug, PartialEq)]
pub enum JsonValue {
    Null,
    Bool(bool),
    Number(JsonNumber),
    Str(String),
    Array(Vec<JsonValue>),
    Object(Vec<(String, JsonValue)>),
}

impl View for JsonNumber {
    type V = Number;

    open spec fn view(&self) -> Number {
        match self {
            JsonNumber::PosInt(n) => Number::PosInt(*n),
            JsonNumber::NegInt(n) => Number::NegInt(*n),
            JsonNumber::Float(s) => Number::Float(s@),
        }
    }
}

/// The view of a JSON document.
pub open spec fn json_view(v: JsonValue) -> Json
    decreases v,
{
    match v {
        JsonValue::Null => Json::Null,
        JsonValue::Bool(b) => Json::Bool(b),
        JsonValue::Number(n) => Json::Num(n@),
        JsonValue::Str(s) => Json::Str(s@),
        JsonValue::Array(items) => Json::Array(
            Seq::new(
                items@.len(),
                |i: int|
                    if 0 <= i < items@.len() {
                        json_view(items@[i])
                    } else {
                        Json::Null
                    },
            ),
        ),
        JsonValue::Object(fields) => Json::Object(
            Seq::new(
                fields@.len(),
                |i: int|
                    if 0 <= i < fields@.len() {
                        (fields@[i].0@, json_view(fields@[i].1))
                    } else {
                        (Seq::empty(), Json::Null)
                    },
            ),
        ),
    }
}

impl View for JsonValue {
    type V = Json;

    open spec fn view(&self) -> Json {
        json_view(*self)
    }
}

// ---------------------------------------------------------------------------
// Spec-level access
// ---------------------------------------------------------------------------
/// Position of the first field named `key` (the length when there is none).
pub open spec fn field_index(fields: Seq<(Seq<char>, Json)>, key: Seq<char>) -> int
    decreases fields.len(),
{
    if fields.len() == 0 {
        0
    } else if fields[0].0 == key {
        0
    } else {
        1 + field_index(fields.drop_first(), key)
    }
}

/// Value of the first field named `key`.
pub open spec fn field(fields: Seq<(Seq<char>, Json)>, key: Seq<char>) -> Option<Json> {
    let i = field_index(fields, key);
    if 0 <= i < fields.len() {
        Some(fields[i].1)
    } else {
        None
    }
}

/// `value.get(key)`: the member of an object, nothing for any other value.
pub open spec fn get(j: Json, key: Seq<char>) -> Option<Json> {
    match j {
        Json::Object(fields) => field(fields, key),
        _ => None,
    }
}

pub open spec fn as_str(j: Json) -> Option<Seq<char>> {
    match j {
        Json::Str(s) => Some(s),
        _ => None,
    }
}

pub open spec fn as_bool(j: Json) -> Option<bool> {
    match j {
        Json::Bool(b) => Some(b),
        _ => None,
    }
}

pub open spec fn as_array(j: Json) -> Option<Seq<Json>> {
    match j {
        Json::Array(items) => Some(items),
        _ => None,
    }
}

pub open spec fn as_u64(j: Json) -> Option<u64> {
    match j {
        Json::Num(Number::PosInt(n)) => Some(n),
        _ => None,
    }
}

/// `value.get(key).and_then(Value::as_str)`.
pub open spec fn get_str(j: Json, key: Seq<char>) -> Option<Seq<char>> {
    match get(j, key) {
        Some(v) => as_str(v),
        None => None,
    }
}

/// `value.get(key).and_then(Value::as_bool)`.
pub open spec fn get_bool(j: Json, key: Seq<char>) -> Option<bool> {
    match get(j, key) {
        Some(v) => as_bool(v),
        None => None,
    }
}

/// `value.get(key).and_then(Value::as_array)`.
pub open spec fn get_array(j: Json, key: Seq<char>) -> Option<Seq<Json>> {
    match get(j, key) {
        Some(v) => as_array(v),
        None => None,
    }
}

/// Fields after assigning `value` to `key`: the first field with the key is
/// replaced in place, otherwise the field is appended.
pub open spec fn set_field(fields: Seq<(Seq<char>, Json)>, key: Seq<char>, value: Json) -> Seq<
    (Seq<char>, Json),
> {
    let i = field_index(fields, key);
    if 0 <= i < fields.len() {
        fields.update(i, (key, value))
    } else {
        fields.push((key, value))
    }
}

/// Fields without any field named `key`.
pub open spec fn remove_field(fields: Seq<(Seq<char>, Json)>, key: Seq<char>) -> Seq<
    (Seq<char>, Json),
>
    decreases fields.len(),
{
    if fields.len() == 0 {
        fields
    } else {
        let rest = remove_field(fields.drop_last(), key);
        if fields.last().0 == key {
            rest
        } else {
            rest.push(fields.last())
        }
    }
}

/// A value can receive `value[key] = ..`: an object, or null (which becomes one).
pub open spec fn assignable(j: Json) -> bool {
    j is Object || j is Null
}

/// `value[key] = v` on an object or on null.
pub open spec fn assign(j: Json, key: Seq<char>, v: Json) -> Json {
    match j {
        Json::Object(fields) => Json::Object(set_field(fields, key, v)),
        _ => Json::Object(seq![(key, v)]),
    }
}

/// The object holding exactly the given fields.
pub open spec fn object(fields: Seq<(Seq<char>, Json)>) -> Json {
    Json::Object(fields)
}

// ---------------------------------------------------------------------------
// Lemmas
// ---------------------------------------------------------------------------
pub proof fn lemma_field_index_bounds(fields: Seq<(Seq<char>, Json)>, key: Seq<char>)
    ensures
        0 <= field_index(fields, key) <= fields.len(),
        field_index(fields, key) < fields.len() ==> fields[field_index(fields, key)].0 == key,
        forall|j: int| 0 <= j < field_index(fields, key) ==> fields[j].0 != key,
    decreases fields.len(),
{
    if fields.len() > 0 && fields[0].0 != key {
        lemma_field_index_bounds(fields.drop_first(), key);
        assert forall|j: int| 0 <= j < field_index(fields, key) implies fields[j].0 != key by {
            if j > 0 {
                assert(fields[j] == fields.drop_first()[j - 1]);
            }
        }
    }
}

/// The first field with `key` is at `i` when it carries the key and none before does.
pub proof fn lemma_field_index_at(fields: Seq<(Seq<char>, Json)>, key: Seq<char>, i: int)
    requires
        0 <= i <= fields.len(),
        i < fields.len() ==> fields[i].0 == key,
        forall|j: int| 0 <= j < i ==> fields[j].0 != key,
    ensures
        field_index(fields, key) == i,
    decreases fields.len(),
{
    if fields.len() > 0 && i > 0 {
        lemma_field_index_at(fields.drop_first(), key, i - 1);
    }
}

/// The first field with `key` after appending a field.
pub proof fn lemma_field_push(fields: Seq<(Seq<char>, Json)>, x: (Seq<char>, Json), key: Seq<char>)
    ensures
        field(fields.push(x), key) == match field(fields, key) {
            Some(v) => Some(v),
            None => if x.0 == key {
                Some(x.1)
            } else {
                None
            },
        },
{
    lemma_field_index_bounds(fields, key);
    let i = field_index(fields, key);
    let p = fields.push(x);
    if i < fields.len() {
        lemma_field_index_at(p, key, i);
    } else if x.0 == key {
        lemma_field_index_at(p, key, fields.len() as int);
    } else {
        lemma_field_index_at(p, key, p.len() as int);
    }
}

/// Removing `key` leaves every other key reading as before.
pub proof fn lemma_remove_field_other(fields: Seq<(Seq<char>, Json)>, key: Seq<char>, other: Seq<char>)
    requires
        other != key,
    ensures
        field(remove_field(fields, key), other) == field(fields, other),
    decreases fields.len(),
{
    if fields.len() > 0 {
        let front = fields.drop_last();
        lemma_remove_field_other(front, key, other);
        assert(fields == front.push(fields.last()));
        lemma_field_push(front, fields.last(), other);
        if fields.last().0 != key {
            lemma_field_push(remove_field(front, key), fields.last(), other);
        }
    }
}

/// Removing a key that no field carries changes nothing.
pub proof fn lemma_remove_field_noop(fields: Seq<(Seq<char>, Json)>, key: Seq<char>)
    requires
        forall|j: int| 0 <= j < fields.len() ==> #[trigger] fields[j].0 != key,
    ensures
        remove_field(fields, key) == fields,
    decreases fields.len(),
{
    if fields.len() > 0 {
        let front = fields.drop_last();
        assert forall|j: int| 0 <= j < front.len() implies #[trigger] front[j].0 != key by {
            assert(front[j] == fields[j]);
        }
        lemma_remove_field_noop(front, key);
        assert(fields.last() == fields[fields.len() - 1]);
        assert(front.push(fields.last()) =~= fields);
    }
}

/// Assigning a key the value it already reads changes nothing.
pub proof fn lemma_assign_same(j: Json, key: Seq<char>, v: Json)
    requires
        j is Object,
        get(j, key) == Some(v),
    ensures
        assign(j, key, v) == j,
{
    let fields = j->Object_0;
    lemma_field_index_bounds(fields, key);
    let i = field_index(fields, key);
    assert(fields[i] == (key, v));
    assert(fields.update(i, (key, v)) =~= fields);
}

/// After `value[key] = v`, the key reads back `v`.
pub proof fn lemma_assign_get(j: Json, key: Seq<char>, v: Json)
    requires
        assignable(j),
    ensures
        get(assign(j, key, v), key) == Some(v),
{
    match j {
        Json::Object(fields) => {
            lemma_field_index_bounds(fields, key);
            let i = field_index(fields, key);
            let nf = set_field(fields, key, v);
            lemma_field_index_at(nf, key, i);
        },
        _ => {
            lemma_field_index_at(seq![(key, v)], key, 0);
        },
    }
}

/// `value[key] = v` leaves every other key as it was.
pub proof fn lemma_assign_get_other(j: Json, key: Seq<char>, v: Json, other: Seq<char>)
    requires
        assignable(j),
        other != key,
    ensures
        get(assign(j, key, v), other) == get(j, other),
{
    match j {
        Json::Object(fields) => {
            lemma_field_index_bounds(fields, key);
            lemma_field_index_bounds(fields, other);
            let i = field_index(fields, key);
            let k = field_index(fields, other);
            let nf = set_field(fields, key, v);
            if k < fields.len() {
                lemma_field_index_at(nf, other, k);
            } else {
                lemma_field_index_at(nf, other, nf.len() as int);
            }
        },
        _ => {
            lemma_field_index_at(seq![(key, v)], other, 1);
        },
    }
}

/// After removing `key`, the key reads nothing.
pub proof fn lemma_remove_field_absent(fields: Seq<(Seq<char>, Json)>, key: Seq<char>)
    ensures
        forall|j: int| 0 <= j < remove_field(fields, key).len() ==> #[trigger] remove_field(fields, key)[j].0 != key,
        field(remove_field(fields, key), key) is None,
    decreases fields.len(),
{
    if fields.len() > 0 {
        lemma_remove_field_absent(fields.drop_last(), key);
    }
    let r = remove_field(fields, key);
    lemma_field_index_at(r, key, r.len() as int);
}

// ---------------------------------------------------------------------------
// Executable access
// ---------------------------------------------------------------------------
/// Position of the first field named `key`.
pub fn find_field(fields: &Vec<(String, JsonValue)>, key: &str) -> (r: usize)
    ensures
        r == field_index(JsonValue::Object(*fields)@->Object_0, key@),
        r <= fields.len(),
{
    let ghost fv = JsonValue::Object(*fields)@->Object_0;
    assert(fv.len() == fields@.len());
    let mut i: usize = 0;
    while i < fields.len()
        invariant
            i <= fields.len(),
            fv == JsonValue::Object(*fields)@->Object_0,
            fv.len() == fields@.len(),
            forall|j: int| 0 <= j < i ==> fv[j].0 != key@,
        decreases fields.len() - i,
    {
        assert(fv[i as int].0 == fields@[i as int].0@);
        if str_eq(fields[i].0.as_str(), key) {
            proof {
                lemma_field_index_at(fv, key@, i as int);
            }
            return i;
        }
        i += 1;
    }
    proof {
        lemma_field_index_at(fv, key@, i as int);
    }
    i
}

/// Appends the field `key: v`.
pub fn push_field(fields: &mut Vec<(String, JsonValue)>, key: &str, v: JsonValue)
    ensures
        JsonValue::Object(*final(fields))@->Object_0 == JsonValue::Object(*old(fields))@->Object_0.push(
            (key@, v@),
        ),
{
    let ghost before = JsonValue::Object(*fields)@->Object_0;
    let ghost vv = v@;
    let k = owned(key);
    fields.push((k, v));
    let ghost after = JsonValue::Object(*fields)@->Object_0;
    assert(after.len() == before.len() + 1);
    assert(after[before.len() as int] == (key@, vv));
    assert forall|i: int| 0 <= i < before.len() implies after[i] == before[i] by {}
    assert(after =~= before.push((key@, vv)));
}

impl JsonValue {
    pub fn text(s: &str) -> (r: JsonValue)
        ensures
            r@ == Json::Str(s@),
    {
        JsonValue::Str(owned(s))
    }

    pub fn empty_object() -> (r: JsonValue)
        ensures
            r@ == Json::Object(Seq::empty()),
    {
        let fields: Vec<(String, JsonValue)> = Vec::new();
        let r = JsonValue::Object(fields);
        assert(r@->Object_0 =~= Seq::<(Seq<char>, Json)>::empty());
        r
    }

    pub fn empty_array() -> (r: JsonValue)
        ensures
            r@ == Json::Array(Seq::empty()),
    {
        let items: Vec<JsonValue> = Vec::new();
        let r = JsonValue::Array(items);
        assert(r@->Array_0 =~= Seq::<Json>::empty());
        r
    }

    /// `value.get(key)`.
    pub fn get(&self, key: &str) -> (r: Option<&JsonValue>)
        ensures
            match r {
                Some(v) => get(self@, key@) == Some(v@),
                None => get(self@, key@) is None,
            },
    {
        match self {
            JsonValue::Object(fields) => {
                let i = find_field(fields, key);
                proof {
                    lemma_field_index_bounds(self@->Object_0, key@);
                }
                if i < fields.len() {
                    Some(&fields[i].1)
                } else {
                    None
                }
            },
            _ => None,
        }
    }

    pub fn as_str(&self) -> (r: Option<&String>)
        ensures
            match r {
                Some(s) => as_str(self@) == Some(s@),
                None => as_str(self@) is None,
            },
    {
        match self {
            JsonValue::Str(s) => Some(s),
            _ => None,
        }
    }

    pub fn as_bool(&self) -> (r: Option<bool>)
        ensures
            r == as_bool(self@),
    {
        match self {
            JsonValue::Bool(b) => Some(*b),
            _ => None,
        }
    }

    pub fn as_u64(&self) -> (r: Option<u64>)
        ensures
            r == as_u64(self@),
    {
        match self {
            JsonValue::Number(JsonNumber::PosInt(n)) => Some(*n),
            _ => None,
        }
    }

    pub fn as_array(&self) -> (r: Option<&Vec<JsonValue>>)
        ensures
            match r {
                Some(items) => as_array(self@) == Some(JsonValue::Array(*items)@->Array_0),
                None => as_array(self@) is None,
            },
    {
        match self {
            JsonValue::Array(items) => Some(items),
            _ => None,
        }
    }

    pub fn is_object(&self) -> (r: bool)
        ensures
            r == self@ is Object,
    {
        match self {
            JsonValue::Object(_) => true,
            _ => false,
        }
    }

    pub fn is_null(&self) -> (r: bool)
        ensures
            r == self@ is Null,
    {
        match self {
            JsonValue::Null => true,
            _ => false,
        }
    }

    /// `value.get(key).and_then(Value::as_str)`.
    pub fn get_str(&self, key: &str) -> (r: Option<&String>)
        ensures
            match r {
                Some(s) => get_str(self@, key@) == Some(s@),
                None => get_str(self@, key@) is None,
            },
    {
        match self.get(key) {
            Some(v) => v.as_str(),
            None => None,
        }
    }

    /// `value.get(key).and_then(Value::as_bool)`.
    pub fn get_bool(&self, key: &str) -> (r: Option<bool>)
        ensures
            r == get_bool(self@, key@),
    {
        match self.get(key) {
            Some(v) => v.as_bool(),
            None => None,
        }
    }

    /// A deep copy.
    pub fn duplicate(&self) -> (r: JsonValue)
        ensures
            r@ == self@,
        decreases self,
    {
        match self {
            JsonValue::Null => JsonValue::Null,
            JsonValue::Bool(b) => JsonValue::Bool(*b),
            JsonValue::Number(n) => JsonValue::Number(
                match n {
                    JsonNumber::PosInt(v) => JsonNumber::PosInt(*v),
                    JsonNumber::NegInt(v) => JsonNumber::NegInt(*v),
                    JsonNumber::Float(s) => JsonNumber::Float(copy_string(s)),
                },
            ),
            JsonValue::Str(s) => JsonValue::Str(copy_string(s)),
            JsonValue::Array(items) => {
                let mut out: Vec<JsonValue> = Vec::new();
                let mut i: usize = 0;
                while i < items.len()
                    invariant
                        i <= items.len(),
                        *self == JsonValue::Array(*items),
                        out@.len() == i,
                        forall|j: int| 0 <= j < i ==> (#[trigger] out@[j])@ == items@[j]@,
                    decreases items.len() - i,
                {
                    proof {
                        assert(decreases_to!(*self => (*self)->Array_0));
                        assert(decreases_to!(*items => items@));
                        assert(decreases_to!(items@ => items@[i as int]));
                    }
                    out.push(items[i].duplicate());
                    i += 1;
                }
                let r = JsonValue::Array(out);
                assert(r@->Array_0 =~= self@->Array_0);
                r
            },
            JsonValue::Object(fields) => {
                let mut out: Vec<(String, JsonValue)> = Vec::new();
                let mut i: usize = 0;
                while i < fields.len()
                    invariant
                        i <= fields.len(),
                        *self == JsonValue::Object(*fields),
                        out@.len() == i,
                        forall|j: int|
                            0 <= j < i ==> (#[trigger] out@[j]).0@ == fields@[j].0@ && out@[j].1@
                                == fields@[j].1@,
                    decreases fields.len() - i,
                {
                    proof {
                        assert(decreases_to!(*self => (*self)->Object_0));
                        assert(decreases_to!(*fields => fields@));
                        assert(decreases_to!(fields@ => fields@[i as int]));
                        assert(decreases_to!(fields@[i as int] => fields@[i as int].1));
                    }
                    let v = fields[i].1.duplicate();
                    out.push((copy_string(&fields[i].0), v));
                    i += 1;
                }
                let r = JsonValue::Object(out);
                assert(r@->Object_0 =~= self@->Object_0);
                r
            },
        }
    }

    /// `value[key] = v`.
    pub fn assign(&mut self, key: &str, v: JsonValue)
        requires
            assignable(old(self)@),
        ensures
            final(self)@ == assign(old(self)@, key@, v@),
    {
        let ghost old_view = self@;
        let ghost vv = v@;
        match self {
            JsonValue::Object(fields) => {
                let i = find_field(fields, key);
                let ghost fv = old_view->Object_0;
                proof {
                    lemma_field_index_bounds(fv, key@);
                }
                if i < fields.len() {
                    fields.set(i, (owned(key), v));
                } else {
                    fields.push((owned(key), v));
                }
            },
            _ => {
                let mut fields: Vec<(String, JsonValue)> = Vec::new();
                fields.push((owned(key), v));
                *self = JsonValue::Object(fields);
            },
        }
        assert(self@->Object_0 =~= assign(old_view, key@, vv)->Object_0);
    }

    /// Removes every field named `key` from an object; other values are kept.
    pub fn remove_key(&mut self, key: &str)
        ensures
            match old(self)@ {
                Json::Object(fields) => final(self)@ == Json::Object(remove_field(fields, key@)),
                _ => final(self)@ == old(self)@,
            },
    {
        let ghost old_view = self@;
        match self {
            JsonValue::Object(fields) => {
                let ghost fv = old_view->Object_0;
                let mut kept: Vec<(String, JsonValue)> = Vec::new();
                let mut i: usize = 0;
                while i < fields.len()
                    invariant
                        i <= fields.len(),
                        fv == JsonValue::Object(*fields)@->Object_0,
                        JsonValue::Object(kept)@->Object_0 == remove_field(fv.take(i as int), key@),
                    decreases fields.len() - i,
                {
                    let ghost before = JsonValue::Object(kept)@->Object_0;
                    assert(fv[i as int].0 == fields@[i as int].0@);
                    if !str_eq(fields[i].0.as_str(), key) {
                        let v = fields[i].1.duplicate();
                        kept.push((copy_string(&fields[i].0), v));
                        assert(JsonValue::Object(kept)@->Object_0 =~= before.push(fv[i as int]));
                    }
                    i += 1;
                    assert(fv.take(i as int).drop_last() =~= fv.take(i - 1));
                }
                assert(fv.take(i as int) =~= fv);
                *fields = kept;
            },
            _ => {},
        }
    }
}

} // verus!
