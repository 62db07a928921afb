//! JSON values.

use serde_json::Value;
use crate::text::{lemma_take_full, lemma_take_step, opt_str, opt_text, str_eq};
use vstd::prelude::*;

verus! {

/// A number: one that fits 64 bits, or the text of another one.
#[derive(Debug)]
pub enum JsonNumber {
    Unsigned(u64),
    Negative(i64),
    Float(String),
}

#[derive(Debug)]
pub enum Json {
    Null,
    Bool(bool),
    Number(JsonNumber),
    Str(String),
    Array(Vec<Json>),
    Object(Vec<(String, Json)>),
}

/// What a JSON value is.
pub enum JsonView {
    Null,
    Bool(bool),
    Unsigned(u64),
    Negative(i64),
    Float(Seq<char>),
    Str(Seq<char>),
    Array(Seq<JsonView>),
    Object(Seq<(Seq<char>, JsonView)>),
}

/// The value that a piece of JSON stands for.
pub open spec fn json_view(j: Json) -> JsonView
    decreases j,
{
    match j {
        Json::Null => JsonView::Null,
        Json::Bool(b) => JsonView::Bool(b),
        Json::Number(JsonNumber::Unsigned(n)) => JsonView::Unsigned(n),
        Json::Number(JsonNumber::Negative(n)) => JsonView::Negative(n),
        Json::Number(JsonNumber::Float(t)) => JsonView::Float(t@),
        Json::Str(s) => JsonView::Str(s@),
        Json::Array(items) => JsonView::Array(
            Seq::new(
                items@.len(),
                |i: int|
                    if 0 <= i < items@.len() {
                        json_view(items@[i])
                    } else {
                        JsonView::Null
                    },
            ),
        ),
        Json::Object(fields) => JsonView::Object(
            Seq::new(
                fields@.len(),
                |i: int|
                    if 0 <= i < fields@.len() {
                        (fields@[i].0@, json_view(fields@[i].1))
                    } else {
                        (Seq::empty(), JsonView::Null)
                    },
            ),
        ),
    }
}

impl View for Json {
    type V = JsonView;

    open spec fn view(&self) -> JsonView {
        json_view(*self)
    }
}

/// The values of a list.
pub open spec fn jsons(v: Seq<Json>) -> Seq<JsonView> {
    v.map_values(|j: Json| j@)
}

/// The fields of an object.
pub open spec fn field_views(v: Seq<(String, Json)>) -> Seq<(Seq<char>, JsonView)> {
    v.map_values(|f: (String, Json)| (f.0@, f.1@))
}

/// The value of an optional piece of JSON; a missing one is null.
pub open spec fn opt_json(o: Option<&Json>) -> JsonView {
    match o {
        Some(j) => j@,
        None => JsonView::Null,
    }
}

pub proof fn lemma_array_view(items: Vec<Json>)
    ensures
        Json::Array(items)@ == JsonView::Array(jsons(items@)),
{
    assert(Json::Array(items)@->Array_0 =~= jsons(items@));
}

pub proof fn lemma_object_view(fields: Vec<(String, Json)>)
    ensures
        Json::Object(fields)@ == JsonView::Object(field_views(fields@)),
{
    assert(Json::Object(fields)@->Object_0 =~= field_views(fields@));
}

pub proof fn lemma_jsons_push(v: Seq<Json>, j: Json)
    ensures
        jsons(v.push(j)) == jsons(v).push(j@),
{
    assert(jsons(v.push(j)) =~= jsons(v).push(j@));
}

pub proof fn lemma_fields_push(v: Seq<(String, Json)>, f: (String, Json))
    ensures
        field_views(v.push(f)) == field_views(v).push((f.0@, f.1@)),
{
    assert(field_views(v.push(f)) =~= field_views(v).push((f.0@, f.1@)));
}

// ---------------------------------------------------------------------------
// Reading
// ---------------------------------------------------------------------------

/// The value of the first field from index `i` on with a name, or null.
pub open spec fn field_from(f: Seq<(Seq<char>, JsonView)>, key: Seq<char>, i: int) -> JsonView
    decreases f.len() - i,
{
    if i < 0 || i >= f.len() {
        JsonView::Null
    } else if f[i].0 == key {
        f[i].1
    } else {
        field_from(f, key, i + 1)
    }
}

pub open spec fn has_field(f: Seq<(Seq<char>, JsonView)>, key: Seq<char>) -> bool {
    exists|i: int| 0 <= i < f.len() && (#[trigger] f[i]).0 == key
}

impl JsonView {
    /// The field of an object; null where there is none.
    pub open spec fn at(self, key: Seq<char>) -> JsonView {
        match self {
            JsonView::Object(f) => field_from(f, key, 0),
            _ => JsonView::Null,
        }
    }

    /// The element of an array; null where there is none.
    pub open spec fn nth(self, i: nat) -> JsonView {
        match self {
            JsonView::Array(items) => if i < items.len() {
                items[i as int]
            } else {
                JsonView::Null
            },
            _ => JsonView::Null,
        }
    }

    pub open spec fn text(self) -> Option<Seq<char>> {
        match self {
            JsonView::Str(s) => Some(s),
            _ => None,
        }
    }

    pub open spec fn text_or(self, default: Seq<char>) -> Seq<char> {
        match self {
            JsonView::Str(s) => s,
            _ => default,
        }
    }

    pub open spec fn unsigned(self) -> Option<u64> {
        match self {
            JsonView::Unsigned(n) => Some(n),
            _ => None,
        }
    }

    pub open spec fn flag(self) -> Option<bool> {
        match self {
            JsonView::Bool(b) => Some(b),
            _ => None,
        }
    }

    /// The elements of an array; none where it is no array.
    pub open spec fn elements(self) -> Seq<JsonView> {
        match self {
            JsonView::Array(items) => items,
            _ => Seq::empty(),
        }
    }
}

impl Json {
    pub fn get(&self, key: &str) -> (r: Option<&Json>)
        ensures
            opt_json(r) == self@.at(key@),
            r is Some <==> (self@ is Object && has_field(self@->Object_0, key@)),
    {
        match self {
            Json::Object(fields) => {
                proof {
                    lemma_object_view(*fields);
                }
                let ghost f = field_views(fields@);
                let mut i: usize = 0;
                while i < fields.len()
                    invariant
                        i <= fields@.len(),
                        f == field_views(fields@),
                        self@ == JsonView::Object(f),
                        field_from(f, key@, 0) == field_from(f, key@, i as int),
                        forall|k: int| 0 <= k < i ==> (#[trigger] f[k]).0 != key@,
                    decreases fields@.len() - i,
                {
                    proof {
                        assert(f[i as int] == (fields@[i as int].0@, fields@[i as int].1@));
                    }
                    if str_eq(fields[i].0.as_str(), key) {
                        return Some(&fields[i].1);
                    }
                    i = i + 1;
                }
                None
            },
            _ => None,
        }
    }

    pub fn index(&self, i: usize) -> (r: Option<&Json>)
        ensures
            opt_json(r) == self@.nth(i as nat),
    {
        match self {
            Json::Array(items) => {
                proof {
                    lemma_array_view(*items);
                }
                if i < items.len() {
                    proof {
                        assert(jsons(items@)[i as int] == items@[i as int]@);
                    }
                    Some(&items[i])
                } else {
                    None
                }
            },
            _ => None,
        }
    }

    pub fn as_array(&self) -> (r: Option<&Vec<Json>>)
        ensures
            match r {
                Some(items) => self@ == JsonView::Array(jsons(items@)),
                None => !(self@ is Array),
            },
    {
        match self {
            Json::Array(items) => {
                proof {
                    lemma_array_view(*items);
                }
                Some(items)
            },
            _ => None,
        }
    }

    pub fn as_str(&self) -> (r: Option<&str>)
        ensures
            opt_str(r) == self@.text(),
    {
        match self {
            Json::Str(s) => Some(s.as_str()),
            _ => None,
        }
    }
}

/// The field of an optional value.
pub fn get_in<'a>(v: Option<&'a Json>, key: &str) -> (r: Option<&'a Json>)
    ensures
        opt_json(r) == opt_json(v).at(key@),
{
    match v {
        Some(j) => j.get(key),
        None => None,
    }
}

/// The element of an optional value.
pub fn index_in<'a>(v: Option<&'a Json>, i: usize) -> (r: Option<&'a Json>)
    ensures
        opt_json(r) == opt_json(v).nth(i as nat),
{
    match v {
        Some(j) => j.index(i),
        None => None,
    }
}

pub fn text_in(v: Option<&Json>) -> (r: Option<String>)
    ensures
        opt_text(r) == opt_json(v).text(),
{
    match v {
        Some(Json::Str(s)) => Some(s.clone()),
        _ => None,
    }
}

pub fn text_in_or(v: Option<&Json>, default: &str) -> (r: String)
    ensures
        r@ == opt_json(v).text_or(default@),
{
    match v {
        Some(Json::Str(s)) => s.clone(),
        _ => default.to_owned(),
    }
}

pub fn unsigned_in(v: Option<&Json>) -> (r: Option<u64>)
    ensures
        r == opt_json(v).unsigned(),
{
    match v {
        Some(Json::Number(JsonNumber::Unsigned(n))) => Some(*n),
        _ => None,
    }
}

pub fn flag_in(v: Option<&Json>) -> (r: Option<bool>)
    ensures
        r == opt_json(v).flag(),
{
    match v {
        Some(Json::Bool(b)) => Some(*b),
        _ => None,
    }
}

pub fn elements_in(v: Option<&Json>) -> (r: Vec<Json>)
    ensures
        jsons(r@) == opt_json(v).elements(),
{
    match v {
        Some(Json::Array(items)) => {
            proof {
                lemma_array_view(*items);
            }
            clone_list(items)
        },
        _ => {
            let r: Vec<Json> = Vec::new();
            proof {
                assert(jsons(r@) =~= Seq::<JsonView>::empty());
            }
            r
        },
    }
}

// ---------------------------------------------------------------------------
// Building
// ---------------------------------------------------------------------------

pub fn json_text(s: &str) -> (r: Json)
    ensures
        r@ == JsonView::Str(s@),
{
    Json::Str(s.to_owned())
}

pub fn json_number(n: u64) -> (r: Json)
    ensures
        r@ == JsonView::Unsigned(n),
{
    Json::Number(JsonNumber::Unsigned(n))
}

pub fn array(items: Vec<Json>) -> (r: Json)
    ensures
        r@ == JsonView::Array(jsons(items@)),
{
    proof {
        lemma_array_view(items);
    }
    Json::Array(items)
}

pub fn object(fields: Vec<(String, Json)>) -> (r: Json)
    ensures
        r@ == JsonView::Object(field_views(fields@)),
{
    proof {
        lemma_object_view(fields);
    }
    Json::Object(fields)
}

/// An object of 1 field.
pub fn object1(k1: &str, v1: Json) -> (r: Json)
    ensures
        r@ == JsonView::Object(seq![(k1@, v1@)]),
{
    let mut f: Vec<(String, Json)> = Vec::new();
    f.push((k1.to_owned(), v1));
    proof {
        assert(field_views(f@) =~= seq![(k1@, v1@)]);
    }
    object(f)
}

/// An object of 2 fields.
pub fn object2(k1: &str, v1: Json, k2: &str, v2: Json) -> (r: Json)
    ensures
        r@ == JsonView::Object(seq![(k1@, v1@), (k2@, v2@)]),
{
    let mut f: Vec<(String, Json)> = Vec::new();
    f.push((k1.to_owned(), v1));
    f.push((k2.to_owned(), v2));
    proof {
        assert(field_views(f@) =~= seq![(k1@, v1@), (k2@, v2@)]);
    }
    object(f)
}

/// An object of 3 fields.
pub fn object3(k1: &str, v1: Json, k2: &str, v2: Json, k3: &str, v3: Json) -> (r: Json)
    ensures
        r@ == JsonView::Object(seq![(k1@, v1@), (k2@, v2@), (k3@, v3@)]),
{
    let mut f: Vec<(String, Json)> = Vec::new();
    f.push((k1.to_owned(), v1));
    f.push((k2.to_owned(), v2));
    f.push((k3.to_owned(), v3));
    proof {
        assert(field_views(f@) =~= seq![(k1@, v1@), (k2@, v2@), (k3@, v3@)]);
    }
    object(f)
}

/// An object of 4 fields.
pub fn object4(k1: &str, v1: Json, k2: &str, v2: Json, k3: &str, v3: Json, k4: &str, v4: Json) -> (r: Json)
    ensures
        r@ == JsonView::Object(seq![(k1@, v1@), (k2@, v2@), (k3@, v3@), (k4@, v4@)]),
{
    let mut f: Vec<(String, Json)> = Vec::new();
    f.push((k1.to_owned(), v1));
    f.push((k2.to_owned(), v2));
    f.push((k3.to_owned(), v3));
    f.push((k4.to_owned(), v4));
    proof {
        assert(field_views(f@) =~= seq![(k1@, v1@), (k2@, v2@), (k3@, v3@), (k4@, v4@)]);
    }
    object(f)
}

/// The fields of an object after one was set: in its place where the name is there, else at
/// the end.
pub open spec fn with_field(
    f: Seq<(Seq<char>, JsonView)>,
    key: Seq<char>,
    value: JsonView,
) -> Seq<(Seq<char>, JsonView)>
    decreases f.len(),
{
    if f.len() == 0 {
        seq![(key, value)]
    } else if f[0].0 == key {
        seq![(key, value)] + f.drop_first()
    } else {
        seq![f[0]] + with_field(f.drop_first(), key, value)
    }
}

proof fn lemma_with_field_at(
    f: Seq<(Seq<char>, JsonView)>,
    key: Seq<char>,
    value: JsonView,
    i: int,
)
    requires
        0 <= i < f.len(),
        f[i].0 == key,
        forall|k: int| 0 <= k < i ==> (#[trigger] f[k]).0 != key,
    ensures
        with_field(f, key, value) == f.update(i, (key, value)),
    decreases f.len(),
{
    if i == 0 {
        assert(f.update(i, (key, value)) =~= seq![(key, value)] + f.drop_first());
    } else {
        assert forall|k: int| 0 <= k < i - 1 implies (#[trigger] f.drop_first()[k]).0 != key by {
            assert(f[k + 1].0 != key);
        }
        lemma_with_field_at(f.drop_first(), key, value, i - 1);
        assert(f[0].0 != key);
        assert(f.update(i, (key, value)) =~= seq![f[0]] + f.drop_first().update(
            i - 1,
            (key, value),
        ));
    }
}

proof fn lemma_with_field_new(f: Seq<(Seq<char>, JsonView)>, key: Seq<char>, value: JsonView)
    requires
        forall|k: int| 0 <= k < f.len() ==> (#[trigger] f[k]).0 != key,
    ensures
        with_field(f, key, value) == f.push((key, value)),
    decreases f.len(),
{
    if f.len() == 0 {
        assert(f.push((key, value)) =~= seq![(key, value)]);
    } else {
        assert forall|k: int| 0 <= k < f.len() - 1 implies (#[trigger] f.drop_first()[k]).0
            != key by {
            assert(f[k + 1].0 != key);
        }
        lemma_with_field_new(f.drop_first(), key, value);
        assert(f[0].0 != key);
        assert(f.push((key, value)) =~= seq![f[0]] + f.drop_first().push((key, value)));
    }
}

pub fn put_field(fields: &mut Vec<(String, Json)>, key: &str, value: Json)
    ensures
        field_views(final(fields)@) == with_field(field_views(old(fields)@), key@, value@),
{
    let ghost f = field_views(fields@);
    let mut i: usize = 0;
    while i < fields.len()
        invariant
            i <= fields@.len(),
            *fields == *old(fields),
            f == field_views(fields@),
            forall|k: int| 0 <= k < i ==> (#[trigger] f[k]).0 != key@,
        decreases fields@.len() - i,
    {
        proof {
            assert(f[i as int] == (fields@[i as int].0@, fields@[i as int].1@));
        }
        if str_eq(fields[i].0.as_str(), key) {
            proof {
                lemma_with_field_at(f, key@, value@, i as int);
            }
            fields.set(i, (key.to_owned(), value));
            proof {
                assert(field_views(fields@) =~= f.update(i as int, (key@, value@)));
            }
            return;
        }
        i = i + 1;
    }
    proof {
        lemma_with_field_new(f, key@, value@);
    }
    fields.push((key.to_owned(), value));
    proof {
        assert(field_views(fields@) =~= f.push((key@, value@)));
    }
}

/// Setting a field is read back, and no other field changes.
pub proof fn law_field_read_back(
    f: Seq<(Seq<char>, JsonView)>,
    key: Seq<char>,
    value: JsonView,
    other: Seq<char>,
)
    ensures
        JsonView::Object(with_field(f, key, value)).at(key) == value,
        other != key ==> JsonView::Object(with_field(f, key, value)).at(other)
            == JsonView::Object(f).at(other),
    decreases f.len(),
{
    let g = with_field(f, key, value);
    if f.len() == 0 {
        assert(field_from(g, other, 1) == JsonView::Null);
    } else {
        lemma_field_shift(f, other);
        lemma_field_shift(g, key);
        lemma_field_shift(g, other);
        if f[0].0 == key {
            assert(g.drop_first() =~= f.drop_first());
        } else {
            law_field_read_back(f.drop_first(), key, value, other);
            assert(g.drop_first() =~= with_field(f.drop_first(), key, value));
        }
    }
}

proof fn lemma_field_shift_at(f: Seq<(Seq<char>, JsonView)>, key: Seq<char>, i: int)
    requires
        1 <= i <= f.len(),
    ensures
        field_from(f, key, i) == field_from(f.drop_first(), key, i - 1),
    decreases f.len() - i,
{
    if i < f.len() {
        lemma_field_shift_at(f, key, i + 1);
    }
}

proof fn lemma_field_shift(f: Seq<(Seq<char>, JsonView)>, key: Seq<char>)
    requires
        f.len() > 0,
    ensures
        field_from(f, key, 0) == if f[0].0 == key {
            f[0].1
        } else {
            field_from(f.drop_first(), key, 0)
        },
{
    lemma_field_shift_at(f, key, 1);
}

// ---------------------------------------------------------------------------
// Copies
// ---------------------------------------------------------------------------

/// A copy of a JSON value.
pub fn clone_json(j: &Json) -> (r: Json)
    ensures
        r@ == j@,
    decreases *j,
{
    match j {
        Json::Null => Json::Null,
        Json::Bool(b) => Json::Bool(*b),
        Json::Number(n) => {
            match n {
                JsonNumber::Unsigned(v) => Json::Number(JsonNumber::Unsigned(*v)),
                JsonNumber::Negative(v) => Json::Number(JsonNumber::Negative(*v)),
                JsonNumber::Float(t) => Json::Number(JsonNumber::Float(t.clone())),
            }
        },
        Json::Str(s) => Json::Str(s.clone()),
        Json::Array(items) => {
            let mut out: Vec<Json> = Vec::new();
            let mut i: usize = 0;
            while i < items.len()
                invariant
                    i <= items@.len(),
                    *j == Json::Array(*items),
                    jsons(out@) == jsons(items@).take(i as int),
                decreases items@.len() - i,
            {
                proof {
                    assert(decreases_to!(*j => j->Array_0));
                    assert(decreases_to!(*items => items[i as int]));
                }
                let copy = clone_json(&items[i]);
                proof {
                    lemma_take_step(jsons(items@), i as int);
                    lemma_jsons_push(out@, copy);
                }
                out.push(copy);
                i = i + 1;
            }
            proof {
                lemma_take_full(jsons(items@));
                lemma_array_view(*items);
            }
            array(out)
        },
        Json::Object(fields) => {
            let mut out: Vec<(String, Json)> = Vec::new();
            let mut i: usize = 0;
            while i < fields.len()
                invariant
                    i <= fields@.len(),
                    *j == Json::Object(*fields),
                    field_views(out@) == field_views(fields@).take(i as int),
                decreases fields@.len() - i,
            {
                proof {
                    assert(decreases_to!(*j => j->Object_0));
                    assert(decreases_to!(*fields => fields[i as int]));
                    assert(decreases_to!(fields[i as int] => fields[i as int].1));
                }
                let copy = clone_json(&fields[i].1);
                let field = (fields[i].0.clone(), copy);
                proof {
                    lemma_take_step(field_views(fields@), i as int);
                    lemma_fields_push(out@, field);
                }
                out.push(field);
                i = i + 1;
            }
            proof {
                lemma_take_full(field_views(fields@));
                lemma_object_view(*fields);
            }
            object(out)
        },
    }
}

/// A copy of a list of JSON values.
pub fn clone_list(items: &Vec<Json>) -> (r: Vec<Json>)
    ensures
        jsons(r@) == jsons(items@),
{
    let mut out: Vec<Json> = Vec::new();
    let mut i: usize = 0;
    while i < items.len()
        invariant
            i <= items@.len(),
            jsons(out@) == jsons(items@).take(i as int),
        decreases items@.len() - i,
    {
        let copy = clone_json(&items[i]);
        proof {
            lemma_take_step(jsons(items@), i as int);
            lemma_jsons_push(out@, copy);
        }
        out.push(copy);
        i = i + 1;
    }
    proof {
        lemma_take_full(jsons(items@));
    }
    out
}

// ---------------------------------------------------------------------------
// Text form
// ---------------------------------------------------------------------------

/// What the `serde_json` crate reads from a text: a value, or the message of its error.
pub uninterp spec fn parsed_json(s: Seq<char>) -> Result<JsonView, Seq<char>>;

/// The text that the `serde_json` crate writes for a value.
pub uninterp spec fn printed_json(v: JsonView) -> Seq<char>;

/// The indented text that the `serde_json` crate writes for a value.
pub uninterp spec fn pretty_json(v: JsonView) -> Seq<char>;

/// `serde_json::Value`: a JSON value of the `serde_json` crate.
#[verifier::external_type_specification]
#[verifier::external_body]
pub struct ExValue(serde_json::Value);

/// Turns a `serde_json::Value` into a value of this library, variant by variant. Nothing is
/// claimed of the result: what reading and writing give is named by `parsed_json`,
/// `printed_json` and `pretty_json`.
#[verifier::external_body]
fn from_value(v: Value) -> Json {
    match v {
        Value::Null => Json::Null,
        Value::Bool(b) => Json::Bool(b),
        Value::Number(n) => match (n.as_u64(), n.as_i64()) {
            (Some(u), _) => Json::Number(JsonNumber::Unsigned(u)),
            (None, Some(i)) => Json::Number(JsonNumber::Negative(i)),
            (None, None) => Json::Number(JsonNumber::Float(n.to_string())),
        },
        Value::String(s) => Json::Str(s),
        Value::Array(a) => Json::Array(a.into_iter().map(from_value).collect()),
        Value::Object(m) => {
            Json::Object(m.into_iter().map(|(k, v)| (k, from_value(v))).collect())
        },
    }
}

/// Turns a value of this library into a `serde_json::Value`, variant by variant.
#[verifier::external_body]
fn to_value(j: &Json) -> Value {
    match j {
        Json::Null => Value::Null,
        Json::Bool(b) => Value::Bool(*b),
        Json::Number(JsonNumber::Unsigned(n)) => Value::from(*n),
        Json::Number(JsonNumber::Negative(n)) => Value::from(*n),
        Json::Number(JsonNumber::Float(t)) => serde_json::from_str(t).unwrap_or_default(),
        Json::Str(s) => Value::String(s.clone()),
        Json::Array(items) => Value::Array(items.iter().map(to_value).collect()),
        Json::Object(fields) => {
            fields.iter().map(|(k, v)| (k.clone(), to_value(v))).collect()
        },
    }
}

/// `serde_json::from_str`: reads a JSON text. What is read, and what the error says, depends
/// on the text alone.
#[verifier::external_body]
pub(crate) fn parse_json(text: &str) -> (r: Result<Json, String>)
    ensures
        match r {
            Ok(j) => parsed_json(text@) == Ok::<JsonView, Seq<char>>(j@),
            Err(message) => parsed_json(text@) == Err::<JsonView, Seq<char>>(message@),
        },
{
    match serde_json::from_str::<serde_json::Value>(text) {
        Ok(value) => Ok(from_value(value)),
        Err(err) => Err(err.to_string()),
    }
}

/// Whether no two fields of an object have one name.
pub open spec fn distinct(f: Seq<(Seq<char>, JsonView)>) -> bool {
    forall|i: int, k: int| 0 <= i < k < f.len() ==> (#[trigger] f[i]).0 != (#[trigger] f[k]).0
}

/// How deep lists and objects may stand in each other in a text that is read.
pub const MAX_JSON_DEPTH: u8 = 127;

/// What an object starts with.
pub const OPEN_BRACE: char = '{';

/// Whether a value can be written without loss: no object has two fields of one name, every
/// number is an integer, a negative one where it is marked so, and lists and objects stand at
/// most `depth` deep in each other.
pub open spec fn exact_json(v: JsonView, depth: nat) -> bool
    decreases v,
{
    match v {
        JsonView::Null => true,
        JsonView::Bool(_) => true,
        JsonView::Unsigned(_) => true,
        JsonView::Negative(n) => n < 0,
        JsonView::Float(_) => false,
        JsonView::Str(_) => true,
        JsonView::Array(x) => depth > 0 && forall|i: int|
            0 <= i < x.len() ==> exact_json(#[trigger] x[i], (depth - 1) as nat),
        JsonView::Object(f) => depth > 0 && distinct(f) && forall|i: int|
            0 <= i < f.len() ==> exact_json((#[trigger] f[i]).1, (depth - 1) as nat),
    }
}

/// Whether a value is another one, up to the order of the fields of objects.
pub open spec fn same_json(a: JsonView, b: JsonView) -> bool
    decreases b,
{
    match (a, b) {
        (JsonView::Array(x), JsonView::Array(y)) => x.len() == y.len() && forall|i: int|
            0 <= i < y.len() ==> same_json(x[i], #[trigger] y[i]),
        (JsonView::Object(f), JsonView::Object(g)) => {
            &&& forall|key: Seq<char>| #[trigger] has_field(f, key) == has_field(g, key)
            &&& forall|i: int|
                0 <= i < g.len() ==> same_json(field_from(f, g[i].0, 0), (#[trigger] g[i]).1)
        },
        _ => a == b,
    }
}

/// Whether what was read from a text is a value.
pub open spec fn is_reading(parsed: Result<JsonView, Seq<char>>, v: JsonView) -> bool {
    match parsed {
        Ok(w) => same_json(w, v),
        Err(_) => false,
    }
}

/// The `Display` of `serde_json::Value`: its compact text, which depends on the value alone. It
/// holds no control character: the compact form puts none between tokens, and in a string they
/// are escaped. An object starts with a brace. `serde_json::from_str` reads the same value from
/// it, up to the order of fields, which the crate does not keep. That is not said of floating
/// point numbers, which the crate reads with a small error, of values so deep that it refuses
/// to read them, and of objects with two fields of one name, of which it keeps the last.
#[verifier::external_body]
pub(crate) fn print_json(j: &Json) -> (r: String)
    ensures
        r@ == printed_json(j@),
        forall|i: int| 0 <= i < r@.len() ==> ' ' <= #[trigger] r@[i],
        j@ is Object ==> r@.len() > 0 && r@[0] == OPEN_BRACE,
        exact_json(j@, MAX_JSON_DEPTH as nat) ==> is_reading(parsed_json(r@), j@),
{
    to_value(j).to_string()
}

/// `serde_json::to_string_pretty`: the indented text of a value, which depends on the value
/// alone.
#[verifier::external_body]
pub(crate) fn print_json_pretty(j: &Json) -> (r: String)
    ensures
        r@ == pretty_json(j@),
{
    serde_json::to_string_pretty(&to_value(j)).unwrap_or_default()
}

impl Json {
    /// The value of a text, or the message of the error in it.
    pub fn read(text: &str) -> (r: Result<Json, String>)
        ensures
            match r {
                Ok(j) => parsed_json(text@) == Ok::<JsonView, Seq<char>>(j@),
                Err(message) => parsed_json(text@) == Err::<JsonView, Seq<char>>(message@),
            },
    {
        parse_json(text)
    }

    /// The compact text of a value: it reads as that value.
    pub fn to_text(&self) -> (r: String)
        ensures
            r@ == printed_json(self@),
            exact_json(self@, MAX_JSON_DEPTH as nat) ==> is_reading(parsed_json(r@), self@),
    {
        print_json(self)
    }

    /// The indented text of a value.
    pub fn to_pretty(&self) -> (r: String)
        ensures
            r@ == pretty_json(self@),
    {
        print_json_pretty(self)
    }
}

} // verus!
