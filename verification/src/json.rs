//! JSON values.
//!
//! [`Json`] is the library's own tree. `serde_json` reads and writes JSON text; the
//! functions at the end of this file are the only ones that touch its types.
use vstd::prelude::*;

use crate::number::{decimal, decimal_int};
use crate::text::same_text;

verus! {

// ---- The model -----------------------------------------------------------------

/// A JSON number: its text, and its value where that is an integer in the range of `i64`.
#[verifier::ext_equal]
pub struct NumberModel {
    pub int: Option<i64>,
    pub text: Seq<char>,
}

/// What a JSON value is. The fields of an object have no order.
#[verifier::ext_equal]
pub enum JsonModel {
    Null,
    Bool(bool),
    Number(NumberModel),
    Str(Seq<char>),
    Array(Seq<JsonModel>),
    Object(Map<Seq<char>, JsonModel>),
}

/// The fields of an empty object.
pub open spec fn no_fields() -> Map<Seq<char>, JsonModel> {
    Map::empty()
}

/// The integer `i` as a JSON number.
pub open spec fn int_model(i: i64) -> JsonModel {
    JsonModel::Number(NumberModel { int: Some(i), text: decimal_int(i as int) })
}

/// The unsigned integer `n` as a JSON number.
pub open spec fn unsigned_model(n: u64) -> JsonModel {
    JsonModel::Number(
        NumberModel {
            int: if n <= i64::MAX {
                Some(n as i64)
            } else {
                None
            },
            text: decimal(n as nat),
        },
    )
}

impl JsonModel {
    /// The field `key` of an object; no other value has fields.
    pub open spec fn get(self, key: Seq<char>) -> Option<JsonModel> {
        match self {
            JsonModel::Object(fields) => if fields.dom().contains(key) {
                Some(fields[key])
            } else {
                None
            },
            _ => None,
        }
    }

    /// The text of a string.
    pub open spec fn as_str(self) -> Option<Seq<char>> {
        match self {
            JsonModel::Str(text) => Some(text),
            _ => None,
        }
    }

    /// The value of an integer in the range of `i64`.
    pub open spec fn as_i64(self) -> Option<i64> {
        match self {
            JsonModel::Number(n) => n.int,
            _ => None,
        }
    }

    /// The field `key` of an object, where it is a string.
    pub open spec fn get_str(self, key: Seq<char>) -> Option<Seq<char>> {
        match self.get(key) {
            Some(value) => value.as_str(),
            None => None,
        }
    }

    /// The object with `key` set to `value`; what is no object becomes one.
    pub open spec fn with(self, key: Seq<char>, value: JsonModel) -> JsonModel {
        match self {
            JsonModel::Object(fields) => JsonModel::Object(fields.insert(key, value)),
            _ => JsonModel::Object(no_fields().insert(key, value)),
        }
    }
}

/// Two numbers are equal: they are written alike, or both are a zero with a fraction.
pub open spec fn number_same(a: NumberModel, b: NumberModel) -> bool {
    a.text == b.text || (float_zero(a.text) && float_zero(b.text))
}

/// A zero with a fraction, with or without a sign.
pub open spec fn float_zero(text: Seq<char>) -> bool {
    text == "0.0"@ || text == "-0.0"@
}

/// Two JSON values are equal; the order of an object's fields does not count.
pub open spec fn json_same(a: JsonModel, b: JsonModel) -> bool
    decreases a,
{
    match (a, b) {
        (JsonModel::Null, JsonModel::Null) => true,
        (JsonModel::Bool(x), JsonModel::Bool(y)) => x == y,
        (JsonModel::Number(x), JsonModel::Number(y)) => number_same(x, y),
        (JsonModel::Str(x), JsonModel::Str(y)) => x == y,
        (JsonModel::Array(x), JsonModel::Array(y)) => {
            &&& x.len() == y.len()
            &&& forall|i: int| 0 <= i < x.len() ==> json_same(#[trigger] x[i], y[i])
        },
        (JsonModel::Object(x), JsonModel::Object(y)) => {
            &&& x.dom() == y.dom()
            &&& forall|key: Seq<char>| #[trigger]
                x.dom().contains(key) ==> json_same(x[key], y[key])
        },
        _ => false,
    }
}

/// A value equals itself.
pub proof fn law_json_same_reflexive(a: JsonModel)
    ensures
        json_same(a, a),
    decreases a,
{
    match a {
        JsonModel::Array(x) => {
            assert forall|i: int| 0 <= i < x.len() implies json_same(#[trigger] x[i], x[i]) by {
                law_json_same_reflexive(x[i]);
            }
        },
        JsonModel::Object(x) => {
            assert forall|key: Seq<char>| #[trigger] x.dom().contains(key) implies json_same(
                x[key],
                x[key],
            ) by {
                law_json_same_reflexive(x[key]);
            }
        },
        _ => {},
    }
}

/// A value that is read back as it was written: its numbers are integers in the range of
/// `i64`, and it is nested no deeper than `depth`.
pub open spec fn reads_back(json: JsonModel, depth: nat) -> bool
    decreases json,
{
    match json {
        JsonModel::Number(n) => n.int matches Some(i) && n.text == decimal_int(i as int),
        JsonModel::Array(items) => depth > 0 && forall|i: int|
            0 <= i < items.len() ==> reads_back(#[trigger] items[i], (depth - 1) as nat),
        JsonModel::Object(fields) => depth > 0 && forall|key: Seq<char>| #[trigger]
            fields.dom().contains(key) ==> reads_back(fields[key], (depth - 1) as nat),
        _ => true,
    }
}

/// How deeply nested a value `serde_json` reads.
pub const MAX_DEPTH: u64 = 127;

// ---- The tree ------------------------------------------------------------------

/// A JSON value. Where a key stands in an object more than once, the last entry counts.
#[derive(Debug)]
pub enum Json {
    Null,
    Bool(bool),
    Number(serde_json::Number),
    Str(String),
    Array(Vec<Json>),
    Object(Vec<(String, Json)>),
}

/// What a number of `serde_json` stands for.
pub open spec fn number_model(n: serde_json::Number) -> NumberModel {
    NumberModel { int: number_i64(n), text: number_text(n) }
}

/// What a tree stands for.
pub open spec fn model(json: Json) -> JsonModel
    decreases json,
{
    match json {
        Json::Null => JsonModel::Null,
        Json::Bool(b) => JsonModel::Bool(b),
        Json::Number(n) => JsonModel::Number(number_model(n)),
        Json::Str(s) => JsonModel::Str(s@),
        Json::Array(items) => JsonModel::Array(
            Seq::new(
                items@.len(),
                |i: int|
                    if 0 <= i < items@.len() {
                        model(items@[i])
                    } else {
                        JsonModel::Null
                    },
            ),
        ),
        Json::Object(entries) => JsonModel::Object(fields(entries@)),
    }
}

/// The fields that a list of entries stands for.
pub open spec fn fields(entries: Seq<(String, Json)>) -> Map<Seq<char>, JsonModel>
    decreases entries,
{
    if entries.len() == 0 {
        no_fields()
    } else {
        fields(entries.drop_last()).insert(entries.last().0@, model(entries.last().1))
    }
}

impl View for Json {
    type V = JsonModel;

    open spec fn view(&self) -> JsonModel {
        model(*self)
    }
}

/// What an optional JSON value is.
pub open spec fn opt(value: Option<Json>) -> Option<JsonModel> {
    match value {
        Some(json) => Some(json@),
        None => None,
    }
}

/// What an optional reference to a JSON value is.
pub open spec fn opt_ref(value: Option<&Json>) -> Option<JsonModel> {
    match value {
        Some(json) => Some(json@),
        None => None,
    }
}

/// What the items of an array are.
pub open spec fn models(items: Seq<Json>) -> Seq<JsonModel> {
    items.map_values(|j: Json| j@)
}

/// The model of an array lists the models of its items.
pub broadcast proof fn lemma_array_model(items: Vec<Json>)
    ensures
        #[trigger] Json::Array(items)@ == JsonModel::Array(models(items@)),
{
    assert(Json::Array(items)@->Array_0 =~= models(items@));
}

/// An item is smaller than the array that holds it.
pub proof fn lemma_item_below(json: Json, i: int)
    requires
        json is Array,
        0 <= i < json->Array_0@.len(),
    ensures
        decreases_to!(json => json->Array_0@[i]),
{
    assert(decreases_to!(json => json->Array_0));
    assert(decreases_to!(json->Array_0 => json->Array_0@[i]));
}

/// The value of an entry is smaller than the object that holds it.
pub proof fn lemma_entry_below(json: Json, i: int)
    requires
        json is Object,
        0 <= i < json->Object_0@.len(),
    ensures
        decreases_to!(json => json->Object_0@[i].1),
{
    assert(decreases_to!(json => json->Object_0));
    assert(decreases_to!(json->Object_0 => json->Object_0@[i]));
    assert(decreases_to!(json->Object_0@[i] => json->Object_0@[i].1));
}

/// The position of the last entry for `key`.
pub open spec fn last_entry(entries: Seq<(String, Json)>, key: Seq<char>, at: int) -> bool {
    &&& 0 <= at < entries.len()
    &&& entries[at].0@ == key
    &&& forall|later: int| at < later < entries.len() ==> entries[later].0@ != key
}

/// The last entry for a key gives the field its value.
pub(crate) proof fn lemma_last_entry(entries: Seq<(String, Json)>, key: Seq<char>, at: int)
    requires
        last_entry(entries, key, at),
    ensures
        fields(entries).dom().contains(key),
        fields(entries)[key] == entries[at].1@,
    decreases entries.len(),
{
    if at < entries.len() - 1 {
        assert(entries[entries.len() - 1].0@ != key);
        lemma_last_entry(entries.drop_last(), key, at);
    }
}

/// A key without an entry is no field.
proof fn lemma_no_entry(entries: Seq<(String, Json)>, key: Seq<char>)
    requires
        forall|i: int| 0 <= i < entries.len() ==> entries[i].0@ != key,
    ensures
        !fields(entries).dom().contains(key),
    decreases entries.len(),
{
    if entries.len() > 0 {
        assert(entries[entries.len() - 1].0@ != key);
        assert forall|i: int| 0 <= i < entries.drop_last().len() implies entries.drop_last()[i].0@
            != key by {
            assert(entries.drop_last()[i] == entries[i]);
        }
        lemma_no_entry(entries.drop_last(), key);
    }
}

/// Every field has a last entry.
pub(crate) proof fn lemma_field_has_entry(entries: Seq<(String, Json)>, key: Seq<char>)
    requires
        fields(entries).dom().contains(key),
    ensures
        exists|at: int| last_entry(entries, key, at),
    decreases entries.len(),
{
    if entries.len() > 0 {
        if entries.last().0@ == key {
            assert(last_entry(entries, key, entries.len() - 1));
        } else {
            lemma_field_has_entry(entries.drop_last(), key);
            let at = choose|at: int| last_entry(entries.drop_last(), key, at);
            assert forall|later: int| at < later < entries.len() implies entries[later].0@
                != key by {
                if later < entries.len() - 1 {
                    assert(entries.drop_last()[later].0@ != key);
                }
            }
            assert(last_entry(entries, key, at));
        }
    }
}

/// To replace the last entry for a key is to set the field.
proof fn lemma_replace_entry(
    entries: Seq<(String, Json)>,
    key: Seq<char>,
    at: int,
    entry: (String, Json),
)
    requires
        last_entry(entries, key, at),
        entry.0@ == key,
    ensures
        fields(entries.update(at, entry)) == fields(entries).insert(key, entry.1@),
    decreases entries.len(),
{
    let updated = entries.update(at, entry);
    if at == entries.len() - 1 {
        assert(updated.drop_last() =~= entries.drop_last());
        assert(fields(updated) =~= fields(entries).insert(key, entry.1@));
    } else {
        assert(entries[entries.len() - 1].0@ != key);
        lemma_replace_entry(entries.drop_last(), key, at, entry);
        assert(updated.drop_last() =~= entries.drop_last().update(at, entry));
        assert(fields(updated) =~= fields(entries).insert(key, entry.1@));
    }
}

/// The position of the last entry for `key`, if there is one.
pub(crate) fn seek_entry(entries: &Vec<(String, Json)>, key: &str) -> (at: Option<usize>)
    ensures
        match at {
            Some(i) => last_entry(entries@, key@, i as int) && fields(entries@).dom().contains(key@)
                && fields(entries@)[key@] == entries@[i as int].1@,
            None => !fields(entries@).dom().contains(key@),
        },
{
    let mut i: usize = entries.len();
    while i > 0
        invariant
            i <= entries@.len(),
            forall|j: int| i <= j < entries@.len() ==> entries@[j].0@ != key@,
        decreases i,
    {
        i = i - 1;
        if same_text(entries[i].0.as_str(), key) {
            proof {
                lemma_last_entry(entries@, key@, i as int);
            }
            return Some(i);
        }
    }
    proof {
        lemma_no_entry(entries@, key@);
    }
    None
}

/// Whether two objects are equal.
fn same_entries(
    a: &Json,
    x: &Vec<(String, Json)>,
    b: &Json,
    y: &Vec<(String, Json)>,
) -> (same: bool)
    requires
        a == Json::Object(*x),
        b == Json::Object(*y),
    ensures
        same == json_same(a@, b@),
    decreases a, 0int,
{
    let ghost left = fields(x@);
    let ghost right = fields(y@);
    let mut i: usize = 0;
    while i < x.len()
        invariant
            i <= x@.len(),
            a == Json::Object(*x),
            a@ == JsonModel::Object(left),
            b@ == JsonModel::Object(right),
            left == fields(x@),
            right == fields(y@),
            forall|j: int|
                0 <= j < i && last_entry(x@, (#[trigger] x@[j]).0@, j) ==> right.dom().contains(
                    x@[j].0@,
                ) && json_same(left[x@[j].0@], right[x@[j].0@]),
        decreases x@.len() - i,
    {
        let key = x[i].0.as_str();
        proof {
            lemma_entry_below(*a, i as int);
            lemma_entry_is_field(x@, i as int);
        }
        match seek_entry(x, key) {
            Some(at) => if at == i {
                match seek_entry(y, key) {
                    Some(there) => {
                        if !x[i].1.same(&y[there].1) {
                            assert(left.dom().contains(key@));
                            assert(!json_same(left[key@], right[key@]));
                            return false;
                        }
                    },
                    None => {
                        assert(left.dom().contains(key@) && !right.dom().contains(key@));
                        return false;
                    },
                }
            } else {
                assert(!last_entry(x@, key@, i as int)) by {
                    assert(x@[at as int].0@ == key@);
                }
            },
            None => {},
        }
        i = i + 1;
    }
    let mut i: usize = 0;
    while i < y.len()
        invariant
            i <= y@.len(),
            a@ == JsonModel::Object(left),
            b@ == JsonModel::Object(right),
            left == fields(x@),
            right == fields(y@),
            forall|j: int| 0 <= j < i ==> left.dom().contains((#[trigger] y@[j]).0@),
        decreases y@.len() - i,
    {
        proof {
            lemma_entry_is_field(y@, i as int);
        }
        if seek_entry(x, y[i].0.as_str()).is_none() {
            assert(right.dom().contains(y@[i as int].0@) && !left.dom().contains(y@[i as int].0@));
            return false;
        }
        i = i + 1;
    }
    proof {
        assert forall|key: Seq<char>| #[trigger]
            left.dom().contains(key) implies right.dom().contains(key) && json_same(
            left[key],
            right[key],
        ) by {
            lemma_field_has_entry(x@, key);
            let at = choose|at: int| last_entry(x@, key, at);
            assert(x@[at].0@ == key);
        }
        assert forall|key: Seq<char>| #[trigger]
            right.dom().contains(key) implies left.dom().contains(key) by {
            lemma_field_has_entry(y@, key);
            let at = choose|at: int| last_entry(y@, key, at);
            assert(y@[at].0@ == key);
        }
        assert(left.dom() =~= right.dom());
    }
    true
}

impl Json {
    /// The integer `i`.
    pub fn integer(i: i64) -> (json: Json)
        ensures
            json@ == int_model(i),
    {
        Json::Number(number_of(i))
    }

    /// The unsigned integer `n`.
    pub fn unsigned(n: u64) -> (json: Json)
        ensures
            json@ == unsigned_model(n),
    {
        Json::Number(number_of_unsigned(n))
    }

    /// The string `text`.
    pub fn text(text: &str) -> (json: Json)
        ensures
            json@ == JsonModel::Str(text@),
    {
        Json::Str(text.to_owned())
    }

    /// The object without fields.
    pub fn object() -> (json: Json)
        ensures
            json@ == JsonModel::Object(no_fields()),
    {
        let entries: Vec<(String, Json)> = Vec::new();
        assert(fields(entries@) == no_fields());
        Json::Object(entries)
    }

    /// The field `key` of an object.
    pub fn get(&self, key: &str) -> (field: Option<&Json>)
        ensures
            opt_ref(field) == self@.get(key@),
            field matches Some(json) ==> decreases_to!(self => json),
    {
        match self {
            Json::Object(entries) => match seek_entry(entries, key) {
                Some(i) => Some(&entries[i].1),
                None => None,
            },
            _ => None,
        }
    }

    /// Whether this is an object with the field `key`.
    pub fn has(&self, key: &str) -> (found: bool)
        ensures
            found == (self@.get(key@) is Some),
    {
        self.get(key).is_some()
    }

    /// The text of a string.
    pub fn as_str(&self) -> (text: Option<&str>)
        ensures
            self@.as_str() == (match text {
                Some(t) => Some(t@),
                None => None,
            }),
    {
        match self {
            Json::Str(text) => Some(text.as_str()),
            _ => None,
        }
    }

    /// The field `key` of an object, where it is a string.
    pub fn get_str(&self, key: &str) -> (text: Option<&str>)
        ensures
            self@.get_str(key@) == (match text {
                Some(t) => Some(t@),
                None => None,
            }),
    {
        match self.get(key) {
            Some(value) => value.as_str(),
            None => None,
        }
    }

    /// The value of an integer in the range of `i64`.
    pub fn as_i64(&self) -> (value: Option<i64>)
        ensures
            value == self@.as_i64(),
    {
        match self {
            Json::Number(n) => n.as_i64(),
            _ => None,
        }
    }

    /// This value with the field `key` set to `value`; what is no object becomes one.
    pub fn with(self, key: &str, value: Json) -> (json: Json)
        ensures
            json@ == self@.with(key@, value@),
    {
        match self {
            Json::Object(entries) => {
                let mut entries = entries;
                let ghost before = entries@;
                match seek_entry(&entries, key) {
                    Some(i) => {
                        let entry = (key.to_owned(), value);
                        proof {
                            lemma_replace_entry(before, key@, i as int, entry);
                        }
                        entries.set(i, entry);
                    },
                    None => {
                        entries.push((key.to_owned(), value));
                        assert(entries@.drop_last() =~= before);
                    },
                }
                assert(fields(entries@) == fields(before).insert(key@, value@));
                Json::Object(entries)
            },
            _ => {
                assert(!(self is Object));
                assert(!(self@ is Object));
                let mut entries: Vec<(String, Json)> = Vec::new();
                entries.push((key.to_owned(), value));
                proof {
                    assert(entries@.drop_last() =~= Seq::<(String, Json)>::empty());
                    assert(fields(entries@.drop_last()) == no_fields());
                    assert(fields(entries@) == no_fields().insert(key@, value@));
                }
                Json::Object(entries)
            },
        }
    }

    /// Whether two values are equal.
    pub fn same(&self, other: &Json) -> (same: bool)
        ensures
            same == json_same(self@, other@),
        decreases self, 1int,
    {
        match (self, other) {
            (Json::Null, Json::Null) => true,
            (Json::Bool(x), Json::Bool(y)) => *x == *y,
            (Json::Number(x), Json::Number(y)) => same_number(x, y),
            (Json::Str(x), Json::Str(y)) => *x == *y,
            (Json::Array(x), Json::Array(y)) => {
                proof {
                    lemma_array_model(*x);
                    lemma_array_model(*y);
                }
                if x.len() != y.len() {
                    return false;
                }
                let mut i: usize = 0;
                while i < x.len()
                    invariant
                        i <= x@.len(),
                        x@.len() == y@.len(),
                        self == Json::Array(*x),
                        self@ == JsonModel::Array(models(x@)),
                        other@ == JsonModel::Array(models(y@)),
                        forall|j: int| 0 <= j < i ==> json_same(#[trigger] x@[j]@, y@[j]@),
                    decreases x@.len() - i,
                {
                    proof {
                        lemma_item_below(*self, i as int);
                        assert(models(x@)[i as int] == x@[i as int]@);
                        assert(models(y@)[i as int] == y@[i as int]@);
                    }
                    if !x[i].same(&y[i]) {
                        return false;
                    }
                    i = i + 1;
                }
                assert forall|j: int| 0 <= j < models(x@).len() implies json_same(
                    #[trigger] models(x@)[j],
                    models(y@)[j],
                ) by {
                    assert(json_same(x@[j]@, y@[j]@));
                }
                true
            },
            (Json::Object(x), Json::Object(y)) => same_entries(self, x, other, y),
            _ => false,
        }
    }

    /// A value of its own that is the same.
    pub fn dup(&self) -> (copy: Json)
        ensures
            copy@ == self@,
        decreases self,
    {
        match self {
            Json::Null => Json::Null,
            Json::Bool(b) => Json::Bool(*b),
            Json::Number(n) => Json::Number(n.clone()),
            Json::Str(s) => Json::Str(s.clone()),
            Json::Array(items) => {
                let mut copies: Vec<Json> = Vec::new();
                let mut i: usize = 0;
                while i < items.len()
                    invariant
                        i <= items@.len(),
                        copies@.len() == i,
                        self == Json::Array(*items),
                        forall|j: int| 0 <= j < i ==> copies@[j]@ == items@[j]@,
                    decreases items@.len() - i,
                {
                    proof {
                        lemma_item_below(*self, i as int);
                    }
                    copies.push(items[i].dup());
                    i = i + 1;
                }
                let copy = Json::Array(copies);
                proof {
                    lemma_array_model(copies);
                    lemma_array_model(*items);
                    assert(models(copies@) =~= models(items@));
                }
                copy
            },
            Json::Object(entries) => {
                let mut copies: Vec<(String, Json)> = Vec::new();
                let mut i: usize = 0;
                assert(fields(entries@.take(0)) == no_fields());
                while i < entries.len()
                    invariant
                        i <= entries@.len(),
                        self == Json::Object(*entries),
                        fields(copies@) == fields(entries@.take(i as int)),
                    decreases entries@.len() - i,
                {
                    let ghost before = copies@;
                    proof {
                        lemma_entry_below(*self, i as int);
                    }
                    copies.push((entries[i].0.clone(), entries[i].1.dup()));
                    proof {
                        assert(copies@.drop_last() =~= before);
                        assert(entries@.take(i + 1).drop_last() =~= entries@.take(i as int));
                    }
                    i = i + 1;
                }
                assert(entries@.take(i as int) =~= entries@);
                Json::Object(copies)
            },
        }
    }
}

// ---- The bridge to `serde_json` ------------------------------------------------

/// A JSON value as `serde_json` holds it.
#[verifier::external_type_specification]
#[verifier::external_body]
pub struct ExValue(serde_json::Value);

/// The fields of an object as `serde_json` holds them.
#[verifier::external_type_specification]
#[verifier::external_body]
#[verifier::reject_recursive_types(K)]
#[verifier::reject_recursive_types(V)]
pub struct ExFields<K, V>(serde_json::Map<K, V>);

/// A JSON number as `serde_json` holds it.
#[verifier::external_type_specification]
#[verifier::external_body]
pub struct ExNumber(serde_json::Number);

/// Why `serde_json` could not read or write a text.
#[verifier::external_type_specification]
#[verifier::external_body]
pub struct ExJsonError(serde_json::Error);

/// The text that a number of `serde_json` is written as.
pub uninterp spec fn number_text(n: serde_json::Number) -> Seq<char>;

/// The value of a number of `serde_json`, where it is an integer in the range of `i64`.
pub uninterp spec fn number_i64(n: serde_json::Number) -> Option<i64>;

/// The tree that a value of `serde_json` holds.
pub uninterp spec fn value_content(v: serde_json::Value) -> JsonModel;

/// The fields that a map of `serde_json` holds.
pub uninterp spec fn map_content(m: serde_json::Map<String, serde_json::Value>) -> Map<
    Seq<char>,
    JsonModel,
>;

/// The tree that `serde_json` reads from a text, if the text is JSON that it accepts.
pub uninterp spec fn json_parse(text: Seq<char>) -> Option<JsonModel>;

/// The text that `serde_json` writes for a tree.
pub uninterp spec fn json_text(model: JsonModel) -> Seq<char>;

/// `Number::as_i64`: the value of an integer that fits; such a number is written in decimal.
pub assume_specification[ serde_json::Number::as_i64 ](n: &serde_json::Number) -> (value: Option<
    i64,
>)
    ensures
        value == number_i64(*n),
        value matches Some(i) ==> number_text(*n) == decimal_int(i as int),
;

/// `Number::clone`: the copy is the same number.
pub assume_specification[ <serde_json::Number as Clone>::clone ](n: &serde_json::Number) -> (copy:
    serde_json::Number)
    ensures
        copy == *n,
;

/// `Number::from(i64)`: the number with that value, which is written in decimal.
#[verifier::external_body]
fn number_of(i: i64) -> (n: serde_json::Number)
    ensures
        number_i64(n) == Some(i),
        number_text(n) == decimal_int(i as int),
{
    serde_json::Number::from(i)
}

/// `Number::from(u64)`: the number with that value, which is written in decimal.
#[verifier::external_body]
fn number_of_unsigned(i: u64) -> (n: serde_json::Number)
    ensures
        number_i64(n) == (if i <= i64::MAX {
            Some(i as i64)
        } else {
            None
        }),
        number_text(n) == decimal(i as nat),
{
    serde_json::Number::from(i)
}

/// Equality of `serde_json` numbers: integers are equal to integers of the same value and
/// fractions to fractions of the same value, whichever the sign of a zero.
#[verifier::external_body]
fn same_number(a: &serde_json::Number, b: &serde_json::Number) -> (same: bool)
    ensures
        same == number_same(number_model(*a), number_model(*b)),
{
    *a == *b
}

/// One level of a value of `serde_json`.
enum Layer {
    Null,
    Bool(bool),
    Number(serde_json::Number),
    Str(String),
    Array(Vec<serde_json::Value>),
    Object(serde_json::Map<String, serde_json::Value>),
}

/// What one level holds, over what the values below it hold.
spec fn layer_model(layer: Layer) -> JsonModel {
    match layer {
        Layer::Null => JsonModel::Null,
        Layer::Bool(b) => JsonModel::Bool(b),
        Layer::Number(n) => JsonModel::Number(number_model(n)),
        Layer::Str(s) => JsonModel::Str(s@),
        Layer::Array(items) => JsonModel::Array(
            items@.map_values(|v: serde_json::Value| value_content(v)),
        ),
        Layer::Object(m) => JsonModel::Object(map_content(m)),
    }
}

/// The variants of `serde_json::Value`, taken apart one for one.
#[verifier::external_body]
fn open_value(value: serde_json::Value) -> (layer: Layer)
    ensures
        layer_model(layer) == value_content(value),
{
    match value {
        serde_json::Value::Null => Layer::Null,
        serde_json::Value::Bool(b) => Layer::Bool(b),
        serde_json::Value::Number(n) => Layer::Number(n),
        serde_json::Value::String(s) => Layer::Str(s),
        serde_json::Value::Array(items) => Layer::Array(items),
        serde_json::Value::Object(m) => Layer::Object(m),
    }
}

/// The variants of `serde_json::Value`, put together one for one.
#[verifier::external_body]
fn close_value(layer: Layer) -> (value: serde_json::Value)
    ensures
        value_content(value) == layer_model(layer),
{
    match layer {
        Layer::Null => serde_json::Value::Null,
        Layer::Bool(b) => serde_json::Value::Bool(b),
        Layer::Number(n) => serde_json::Value::Number(n),
        Layer::Str(s) => serde_json::Value::String(s),
        Layer::Array(items) => serde_json::Value::Array(items),
        Layer::Object(m) => serde_json::Value::Object(m),
    }
}

/// `Map::new`: a map without fields.
#[verifier::external_body]
fn new_map() -> (m: serde_json::Map<String, serde_json::Value>)
    ensures
        map_content(m) == no_fields(),
{
    serde_json::Map::new()
}

/// `Map::insert`: sets one field; any value that it had before is gone.
#[verifier::external_body]
fn insert_field(
    m: &mut serde_json::Map<String, serde_json::Value>,
    key: String,
    value: serde_json::Value,
)
    ensures
        map_content(*final(m)) == map_content(*old(m)).insert(key@, value_content(value)),
{
    m.insert(key, value);
}

/// `Map::into_iter`: every field comes out, with its value, and nothing else does.
#[verifier::external_body]
fn map_entries(m: serde_json::Map<String, serde_json::Value>) -> (entries: Vec<
    (String, serde_json::Value),
>)
    ensures
        forall|i: int|
            0 <= i < entries@.len() ==> map_content(m).dom().contains((#[trigger] entries@[i]).0@)
                && map_content(m)[entries@[i].0@] == value_content(entries@[i].1),
        forall|key: Seq<char>| #[trigger]
            map_content(m).dom().contains(key) ==> exists|i: int|
                0 <= i < entries@.len() && (#[trigger] entries@[i]).0@ == key,
{
    m.into_iter().collect()
}

/// `serde_json::from_str`, into a `serde_json::Value`.
#[verifier::external_body]
fn read_value(text: &str) -> (value: Result<serde_json::Value, serde_json::Error>)
    ensures
        json_parse(text@) == (match value {
            Ok(v) => Some(value_content(v)),
            Err(_) => None,
        }),
{
    serde_json::from_str::<serde_json::Value>(text)
}

/// `serde_json::to_string`, of a `serde_json::Value`. It succeeds, since the keys of such a
/// value are strings and a text in memory takes whatever is written to it. The text is compact
/// and escapes every control character of a string, so no line feed stands in it.
/// `serde_json::from_str` reads it back as the same value, unless it is nested too deeply; of
/// fractions nothing is said, since their last digit can be read otherwise.
#[verifier::external_body]
fn write_value(value: &serde_json::Value) -> (text: Result<String, serde_json::Error>)
    ensures
        text is Ok,
        text->Ok_0@ == json_text(value_content(*value)),
        !text->Ok_0@.contains('\n'),
        reads_back(value_content(*value), MAX_DEPTH as nat) ==> json_parse(text->Ok_0@) == Some(
            value_content(*value),
        ),
{
    serde_json::to_string(value)
}

/// The library's tree for a value of `serde_json`.
pub fn from_value(value: serde_json::Value) -> (json: Json)
    ensures
        json@ == value_content(value),
    decreases value_content(value),
{
    match open_value(value) {
        Layer::Null => Json::Null,
        Layer::Bool(b) => Json::Bool(b),
        Layer::Number(n) => Json::Number(n),
        Layer::Str(s) => Json::Str(s),
        Layer::Array(values) => {
            let ghost contents = values@.map_values(|v: serde_json::Value| value_content(v));
            let mut items: Vec<Json> = Vec::new();
            for v in it: values
                invariant
                    it.seq().map_values(|v: serde_json::Value| value_content(v)) == contents,
                    value_content(value) == JsonModel::Array(contents),
                    models(items@) == contents.take(it.index()),
            {
                let ghost before = items@;
                assert(contents[it.index()] == value_content(v));
                assert(decreases_to!(value_content(value) => value_content(value)->Array_0));
                assert(decreases_to!(contents => contents[it.index()]));
                items.push(from_value(v));
                assert(models(items@) =~= models(before).push(value_content(v)));
                assert(contents.take(it.index() + 1) =~= contents.take(it.index()).push(
                    contents[it.index()],
                ));
            }
            let json = Json::Array(items);
            proof {
                lemma_array_model(items);
                assert(models(items@) =~= contents);
            }
            json
        },
        Layer::Object(m) => {
            let ghost content = map_content(m);
            let found = map_entries(m);
            let ghost listed = found@;
            let mut entries: Vec<(String, Json)> = Vec::new();
            for entry in it: found
                invariant
                    it.seq() == listed,
                    value_content(value) == JsonModel::Object(content),
                    forall|i: int|
                        0 <= i < listed.len() ==> content.dom().contains((#[trigger] listed[i]).0@)
                            && content[listed[i].0@] == value_content(listed[i].1),
                    entries@.len() == it.index(),
                    forall|i: int|
                        0 <= i < it.index() ==> (#[trigger] entries@[i]).0@ == listed[i].0@
                            && entries@[i].1@ == value_content(listed[i].1),
            {
                assert(entry == listed[it.index()]);
                let (key, v) = entry;
                assert(content[key@] == value_content(v));
                assert(decreases_to!(value_content(value) => value_content(value)->Object_0[key@]));
                entries.push((key, from_value(v)));
            }
            proof {
                lemma_listed_fields(entries@, content);
                assert forall|key: Seq<char>| content.dom().contains(key) implies fields(
                    entries@,
                ).dom().contains(key) by {
                    let i = choose|i: int|
                        0 <= i < listed.len() && (#[trigger] listed[i]).0@ == key;
                    assert(entries@[i].0@ == key);
                    lemma_entry_is_field(entries@, i);
                }
                assert(fields(entries@) =~= content);
            }
            Json::Object(entries)
        },
    }
}

/// Entries that agree with some fields stand for some of those fields.
proof fn lemma_listed_fields(entries: Seq<(String, Json)>, content: Map<Seq<char>, JsonModel>)
    requires
        forall|i: int|
            0 <= i < entries.len() ==> content.dom().contains((#[trigger] entries[i]).0@)
                && content[entries[i].0@] == entries[i].1@,
    ensures
        forall|key: Seq<char>| #[trigger]
            fields(entries).dom().contains(key) ==> content.dom().contains(key)
                && fields(entries)[key] == content[key],
{
    assert forall|key: Seq<char>| #[trigger]
        fields(entries).dom().contains(key) implies content.dom().contains(key) && fields(
        entries,
    )[key] == content[key] by {
        lemma_field_has_entry(entries, key);
        let at = choose|at: int| last_entry(entries, key, at);
        lemma_last_entry(entries, key, at);
        assert(entries[at].0@ == key);
    }
}

/// The key of every entry is a field.
pub(crate) proof fn lemma_entry_is_field(entries: Seq<(String, Json)>, i: int)
    requires
        0 <= i < entries.len(),
    ensures
        fields(entries).dom().contains(entries[i].0@),
    decreases entries.len(),
{
    if i < entries.len() - 1 {
        assert(entries.drop_last()[i] == entries[i]);
        lemma_entry_is_field(entries.drop_last(), i);
    }
}

/// The value of `serde_json` for one of the library's trees.
fn to_value(json: &Json) -> (value: serde_json::Value)
    ensures
        value_content(value) == json@,
    decreases json,
{
    match json {
        Json::Null => close_value(Layer::Null),
        Json::Bool(b) => close_value(Layer::Bool(*b)),
        Json::Number(n) => close_value(Layer::Number(n.clone())),
        Json::Str(s) => close_value(Layer::Str(s.clone())),
        Json::Array(items) => {
            let mut values: Vec<serde_json::Value> = Vec::new();
            let mut i: usize = 0;
            while i < items.len()
                invariant
                    i <= items@.len(),
                    json == Json::Array(*items),
                    values@.len() == i,
                    forall|j: int| 0 <= j < i ==> value_content(#[trigger] values@[j]) == items@[j]@,
                decreases items@.len() - i,
            {
                proof {
                    lemma_item_below(*json, i as int);
                }
                values.push(to_value(&items[i]));
                i = i + 1;
            }
            proof {
                lemma_array_model(*items);
                assert(values@.map_values(|v: serde_json::Value| value_content(v)) =~= models(
                    items@,
                ));
            }
            close_value(Layer::Array(values))
        },
        Json::Object(entries) => {
            let mut m = new_map();
            let mut i: usize = 0;
            assert(fields(entries@.take(0)) == no_fields());
            while i < entries.len()
                invariant
                    i <= entries@.len(),
                    json == Json::Object(*entries),
                    map_content(m) == fields(entries@.take(i as int)),
                decreases entries@.len() - i,
            {
                proof {
                    lemma_entry_below(*json, i as int);
                }
                insert_field(&mut m, entries[i].0.clone(), to_value(&entries[i].1));
                assert(entries@.take(i + 1).drop_last() =~= entries@.take(i as int));
                i = i + 1;
            }
            assert(entries@.take(i as int) =~= entries@);
            close_value(Layer::Object(m))
        },
    }
}

/// The JSON value that `text` writes, if it writes one.
pub fn parse_json(text: &str) -> (json: Option<Json>)
    ensures
        opt(json) == json_parse(text@),
{
    match read_value(text) {
        Ok(value) => Some(from_value(value)),
        Err(_) => None,
    }
}

/// The text of a JSON value; it is always a single line. Whoever reads it finds the value.
pub fn write_json(json: &Json) -> (text: String)
    ensures
        text@ == json_text(json@),
        !text@.contains('\n'),
        reads_back(json@, MAX_DEPTH as nat) ==> json_parse(text@) == Some(json@),
{
    match write_value(&to_value(json)) {
        Ok(text) => text,
        Err(_) => String::new(),
    }
}

} // verus!
