//! JSON documents as values of the library, with the look-ups that the rest of it
//! makes on them.

use crate::text::same_text;
use vstd::prelude::*;

verus! {

/// A JSON number as the three machine forms it has: unsigned, signed, and the
/// bits of the nearest double.
#[derive(Debug, Clone, Copy)]
pub struct Number {
    pub unsigned: Option<u64>,
    pub signed: Option<i64>,
    pub double: Option<u64>,
}

/// A JSON document. The fields of a record have distinct names.
#[derive(Debug)]
pub enum Json {
    Null,
    Bool(bool),
    Number(Number),
    Text(String),
    List(Vec<Json>),
    Record(Vec<(String, Json)>),
}

/// What a JSON document says.
pub enum JsonView {
    Null,
    Bool(bool),
    Number(Number),
    Text(Seq<char>),
    List(Seq<JsonView>),
    Record(Seq<(Seq<char>, JsonView)>),
}

/// What `j` says.
pub open spec fn json_view(j: Json) -> JsonView
    decreases j,
{
    match j {
        Json::Null => JsonView::Null,
        Json::Bool(b) => JsonView::Bool(b),
        Json::Number(n) => JsonView::Number(n),
        Json::Text(s) => JsonView::Text(s@),
        Json::List(items) => JsonView::List(
            Seq::new(
                items@.len(),
                |i: int|
                    if 0 <= i < items@.len() {
                        json_view(items@[i])
                    } else {
                        JsonView::Null
                    },
            ),
        ),
        Json::Record(fields) => JsonView::Record(
            Seq::new(
                fields@.len(),
                |i: int|
                    if 0 <= i < fields@.len() {
                        (fields@[i].0@, json_view(fields@[i].1))
                    } else {
                        (Seq::empty(), JsonView::Null)
                    },
            ),
        ),
    }
}

impl View for Json {
    type V = JsonView;

    open spec fn view(&self) -> JsonView {
        json_view(*self)
    }
}

/// What each document of a list says.
pub open spec fn json_views(items: Seq<Json>) -> Seq<JsonView> {
    items.map_values(|j: Json| j@)
}

/// What the fields of a record say.
pub open spec fn field_views(fields: Seq<(String, Json)>) -> Seq<(Seq<char>, JsonView)> {
    fields.map_values(|f: (String, Json)| (f.0@, f.1@))
}

/// A list says what its items say, a record what its fields say.
pub broadcast proof fn lemma_json_view(j: Json)
    ensures
        j matches Json::List(items) ==> #[trigger] j@ == JsonView::List(json_views(items@)),
        j matches Json::Record(fields) ==> j@ == JsonView::Record(field_views(fields@)),
{
    match j {
        Json::List(items) => {
            let said = j@->List_0;
            assert(said.len() == items@.len());
            assert forall|i: int| 0 <= i < items@.len() implies said[i] == json_views(
                items@,
            )[i] by {
                let item = items@[i];
                assert(said[i] == json_view(item));
            }
            assert(said =~= json_views(items@));
        },
        Json::Record(fields) => {
            let said = j@->Record_0;
            assert(said.len() == fields@.len());
            assert forall|i: int| 0 <= i < fields@.len() implies said[i] == field_views(
                fields@,
            )[i] by {
                let field = fields@[i];
                assert(said[i] == (field.0@, json_view(field.1)));
            }
            assert(said =~= field_views(fields@));
        },
        _ => {},
    }
}

/// The value of the first field named `key`.
pub open spec fn find_field(fields: Seq<(Seq<char>, JsonView)>, key: Seq<char>) -> Option<JsonView>
    decreases fields.len(),
{
    if fields.len() == 0 {
        None
    } else if fields[0].0 == key {
        Some(fields[0].1)
    } else {
        find_field(fields.drop_first(), key)
    }
}

/// The fields with `value` under `key`: in its old place, or at the end.
pub open spec fn put_field(
    fields: Seq<(Seq<char>, JsonView)>,
    key: Seq<char>,
    value: JsonView,
) -> Seq<(Seq<char>, JsonView)>
    decreases fields.len(),
{
    if fields.len() == 0 {
        seq![(key, value)]
    } else if fields[0].0 == key {
        seq![(key, value)] + fields.drop_first()
    } else {
        seq![fields[0]] + put_field(fields.drop_first(), key, value)
    }
}

impl JsonView {
    /// The value of a record's field.
    pub open spec fn get(self, key: Seq<char>) -> Option<JsonView> {
        match self {
            JsonView::Record(fields) => find_field(fields, key),
            _ => None,
        }
    }

    /// An item of a list.
    pub open spec fn item(self, i: int) -> Option<JsonView> {
        match self {
            JsonView::List(items) => if 0 <= i < items.len() {
                Some(items[i])
            } else {
                None
            },
            _ => None,
        }
    }

    /// The text, if the document is one.
    pub open spec fn text(self) -> Option<Seq<char>> {
        match self {
            JsonView::Text(s) => Some(s),
            _ => None,
        }
    }

    /// The items, if the document is a list.
    pub open spec fn items(self) -> Option<Seq<JsonView>> {
        match self {
            JsonView::List(items) => Some(items),
            _ => None,
        }
    }

    /// The signed integer, if the document is one.
    pub open spec fn integer(self) -> Option<i64> {
        match self {
            JsonView::Number(n) => n.signed,
            _ => None,
        }
    }

    /// The bits of the number's double, if the document is a number.
    pub open spec fn double(self) -> Option<u64> {
        match self {
            JsonView::Number(n) => n.double,
            _ => None,
        }
    }

    /// The truth value, if the document is one.
    pub open spec fn truth(self) -> Option<bool> {
        match self {
            JsonView::Bool(b) => Some(b),
            _ => None,
        }
    }

    /// The text of a record's field.
    pub open spec fn text_at(self, key: Seq<char>) -> Option<Seq<char>> {
        match self.get(key) {
            Some(v) => v.text(),
            None => None,
        }
    }

    /// The text of a record's field, or `default` where there is none.
    pub open spec fn text_or(self, key: Seq<char>, default: Seq<char>) -> Seq<char> {
        match self.text_at(key) {
            Some(s) => s,
            None => default,
        }
    }

    /// The items of the list in a record's field.
    pub open spec fn items_at(self, key: Seq<char>) -> Option<Seq<JsonView>> {
        match self.get(key) {
            Some(v) => v.items(),
            None => None,
        }
    }

    /// The signed integer in a record's field.
    pub open spec fn integer_at(self, key: Seq<char>) -> Option<i64> {
        match self.get(key) {
            Some(v) => v.integer(),
            None => None,
        }
    }

    /// The record with `value` under `key`. Anything but a record is kept.
    pub open spec fn with(self, key: Seq<char>, value: JsonView) -> JsonView {
        match self {
            JsonView::Record(fields) => JsonView::Record(put_field(fields, key, value)),
            _ => self,
        }
    }
}

/// A field that was put is found, and the others stay.
pub proof fn lemma_put_field(
    fields: Seq<(Seq<char>, JsonView)>,
    key: Seq<char>,
    value: JsonView,
    other: Seq<char>,
)
    ensures
        find_field(put_field(fields, key, value), other) == if other == key {
            Some(value)
        } else {
            find_field(fields, other)
        },
    decreases fields.len(),
{
    let r = put_field(fields, key, value);
    if fields.len() == 0 {
        assert(r.drop_first() =~= fields);
    } else if fields[0].0 == key {
        assert(r.drop_first() =~= fields.drop_first());
    } else {
        lemma_put_field(fields.drop_first(), key, value, other);
        assert(r.drop_first() =~= put_field(fields.drop_first(), key, value));
    }
}

/// Putting a field twice is putting it once.
pub proof fn lemma_put_twice(fields: Seq<(Seq<char>, JsonView)>, key: Seq<char>, value: JsonView)
    ensures
        put_field(put_field(fields, key, value), key, value) == put_field(fields, key, value),
    decreases fields.len(),
{
    let r = put_field(fields, key, value);
    if fields.len() == 0 {
        assert(seq![(key, value)] + r.drop_first() =~= r);
    } else if fields[0].0 == key {
        assert(seq![(key, value)] + r.drop_first() =~= r);
    } else {
        lemma_put_twice(fields.drop_first(), key, value);
        assert(r.drop_first() =~= put_field(fields.drop_first(), key, value));
    }
}

// ---------------------------------------------------------------------------
// Reading
// ---------------------------------------------------------------------------

/// What `serde_json::from_str` makes of a text: the document, or the words of its
/// error.
pub uninterp spec fn json_read(text: Seq<char>) -> Result<JsonView, Seq<char>>;

#[verifier::external_type_specification]
#[verifier::external_body]
pub struct ExValue(serde_json::Value);

/// A `serde_json::Value` as a document of the library, one for one.
#[verifier::external_body]
fn json_of(value: serde_json::Value) -> (r: Json) {
    match value {
        serde_json::Value::Null => Json::Null,
        serde_json::Value::Bool(b) => Json::Bool(b),
        serde_json::Value::Number(n) => {
            let double = n.as_f64().map(|x| x.to_bits());
            Json::Number(Number { unsigned: n.as_u64(), signed: n.as_i64(), double })
        },
        serde_json::Value::String(s) => Json::Text(s),
        serde_json::Value::Array(v) => Json::List(v.into_iter().map(json_of).collect()),
        serde_json::Value::Object(m) => Json::Record(
            m.into_iter().map(|(k, v)| (k, json_of(v))).collect(),
        ),
    }
}

/// `serde_json::from_str` into a `Value`, by its name `json_read`: the document
/// that the text spells, or the words of the error.
#[verifier::external_body]
fn read_value(text: &str) -> (r: Result<Json, String>)
    ensures
        match r {
            Ok(j) => json_read(text@) == Ok::<JsonView, Seq<char>>(j@),
            Err(e) => json_read(text@) == Err::<JsonView, Seq<char>>(e@),
        },
{
    serde_json::from_str::<serde_json::Value>(text).map(json_of).map_err(|e| e.to_string())
}

/// The document that `text` spells, or the words of the error.
pub fn read_json(text: &str) -> (r: Result<Json, String>)
    ensures
        match r {
            Ok(j) => json_read(text@) == Ok::<JsonView, Seq<char>>(j@),
            Err(e) => json_read(text@) == Err::<JsonView, Seq<char>>(e@),
        },
{
    read_value(text)
}

// ---------------------------------------------------------------------------
// Looking things up
// ---------------------------------------------------------------------------

/// Whether the result of a look-up is what the document says.
pub open spec fn same_json(r: Option<&Json>, v: Option<JsonView>) -> bool {
    match r {
        Some(j) => v == Some(j@),
        None => v is None,
    }
}

/// Whether the result of a look-up is the text that the document says.
pub open spec fn same_str(r: Option<&str>, v: Option<Seq<char>>) -> bool {
    match r {
        Some(s) => v == Some(s@),
        None => v is None,
    }
}

/// Whether the result of a look-up is the list that the document says.
pub open spec fn same_list(r: Option<&Vec<Json>>, v: Option<Seq<JsonView>>) -> bool {
    match r {
        Some(l) => v == Some(json_views(l@)),
        None => v is None,
    }
}

impl Json {
    /// The value of a record's field.
    pub fn get(&self, key: &str) -> (r: Option<&Json>)
        ensures
            same_json(r, self@.get(key@)),
    {
        proof {
            lemma_json_view(*self);
        }
        match self {
            Json::Record(fields) => {
                let ghost all = field_views(fields@);
                let mut i: usize = 0;
                proof {
                    assert(all.skip(0) =~= all);
                }
                while i < fields.len()
                    invariant
                        i <= fields.len(),
                        all == field_views(fields@),
                        find_field(all.skip(i as int), key@) == find_field(all, key@),
                        self@.get(key@) == find_field(all, key@),
                    decreases fields.len() - i,
                {
                    proof {
                        assert(all.skip(i as int)[0] == all[i as int]);
                        assert(all.skip(i as int).drop_first() =~= all.skip(i + 1));
                    }
                    if same_text(fields[i].0.as_str(), key) {
                        return Some(&fields[i].1);
                    }
                    i = i + 1;
                }
                None
            },
            _ => None,
        }
    }

    /// An item of a list.
    pub fn item(&self, i: usize) -> (r: Option<&Json>)
        ensures
            same_json(r, self@.item(i as int)),
    {
        proof {
            lemma_json_view(*self);
        }
        match self {
            Json::List(items) => if i < items.len() {
                Some(&items[i])
            } else {
                None
            },
            _ => None,
        }
    }

    /// The text, if the document is one.
    pub fn as_str(&self) -> (r: Option<&str>)
        ensures
            same_str(r, self@.text()),
    {
        match self {
            Json::Text(s) => Some(s.as_str()),
            _ => None,
        }
    }

    /// The items, if the document is a list.
    pub fn as_array(&self) -> (r: Option<&Vec<Json>>)
        ensures
            same_list(r, self@.items()),
    {
        proof {
            lemma_json_view(*self);
        }
        match self {
            Json::List(items) => Some(items),
            _ => None,
        }
    }

    /// The signed integer, if the document is one.
    pub fn as_i64(&self) -> (r: Option<i64>)
        ensures
            r == self@.integer(),
    {
        match self {
            Json::Number(n) => n.signed,
            _ => None,
        }
    }

    /// The bits of the number's double, if the document is a number.
    pub fn double_bits(&self) -> (r: Option<u64>)
        ensures
            r == self@.double(),
    {
        match self {
            Json::Number(n) => n.double,
            _ => None,
        }
    }

    /// The truth value, if the document is one.
    pub fn as_bool(&self) -> (r: Option<bool>)
        ensures
            r == self@.truth(),
    {
        match self {
            Json::Bool(b) => Some(*b),
            _ => None,
        }
    }

    /// The text of a record's field.
    pub fn text_at(&self, key: &str) -> (r: Option<&str>)
        ensures
            same_str(r, self@.text_at(key@)),
    {
        match self.get(key) {
            Some(v) => v.as_str(),
            None => None,
        }
    }

    /// The text of a record's field, or `default` where there is none.
    pub fn text_or(&self, key: &str, default: &str) -> (r: String)
        ensures
            r@ == self@.text_or(key@, default@),
    {
        match self.text_at(key) {
            Some(s) => s.to_string(),
            None => default.to_string(),
        }
    }

    /// The items of the list in a record's field.
    pub fn items_at(&self, key: &str) -> (r: Option<&Vec<Json>>)
        ensures
            same_list(r, self@.items_at(key@)),
    {
        match self.get(key) {
            Some(v) => v.as_array(),
            None => None,
        }
    }

    /// The signed integer in a record's field.
    pub fn integer_at(&self, key: &str) -> (r: Option<i64>)
        ensures
            r == self@.integer_at(key@),
    {
        match self.get(key) {
            Some(v) => v.as_i64(),
            None => None,
        }
    }

    /// The record with `value` under `key`. Anything but a record is kept.
    pub fn with(self, key: &str, value: Json) -> (r: Json)
        ensures
            r@ == self@.with(key@, value@),
    {
        proof {
            lemma_json_view(self);
        }
        match self {
            Json::Record(fields) => {
                let ghost all = field_views(fields@);
                let mut out = fields;
                let mut i: usize = 0;
                proof {
                    assert(all.skip(0) =~= all);
                    assert(all.take(0) + put_field(all, key@, value@) =~= put_field(
                        all,
                        key@,
                        value@,
                    ));
                }
                while i < out.len() && !same_text(out[i].0.as_str(), key)
                    invariant
                        i <= out.len(),
                        all == field_views(out@),
                        all.take(i as int) + put_field(all.skip(i as int), key@, value@)
                            == put_field(all, key@, value@),
                    decreases out.len() - i,
                {
                    proof {
                        let rest = all.skip(i as int);
                        assert(rest[0] == all[i as int]);
                        assert(rest.drop_first() =~= all.skip(i + 1));
                        assert(all.take(i + 1) + put_field(all.skip(i + 1), key@, value@)
                            =~= all.take(i as int) + (seq![rest[0]] + put_field(
                            all.skip(i + 1),
                            key@,
                            value@,
                        )));
                    }
                    i = i + 1;
                }
                let ghost v = value@;
                if i < out.len() {
                    proof {
                        let rest = all.skip(i as int);
                        assert(rest[0] == all[i as int]);
                        assert(rest.drop_first() =~= all.skip(i + 1));
                    }
                    out[i] = (key.to_string(), value);
                    proof {
                        assert(field_views(out@) =~= all.take(i as int) + (seq![(key@, v)]
                            + all.skip(i + 1)));
                    }
                } else {
                    proof {
                        assert(all.skip(i as int).len() == 0);
                    }
                    out.push((key.to_string(), value));
                    proof {
                        assert(field_views(out@) =~= all.take(i as int) + seq![(key@, v)]);
                    }
                }
                let r = Json::Record(out);
                proof {
                    lemma_json_view(r);
                }
                r
            },
            other => other,
        }
    }

    /// The same document once more.
    pub fn copy(&self) -> (r: Json)
        ensures
            r@ == self@,
        decreases self,
    {
        proof {
            lemma_json_view(*self);
        }
        match self {
            Json::Null => Json::Null,
            Json::Bool(b) => Json::Bool(*b),
            Json::Number(n) => Json::Number(*n),
            Json::Text(s) => Json::Text(s.as_str().to_string()),
            Json::List(items) => {
                let mut out: Vec<Json> = Vec::new();
                let mut i: usize = 0;
                while i < items.len()
                    invariant
                        i <= items.len(),
                        *self == Json::List(*items),
                        json_views(out@) =~= json_views(items@).take(i as int),
                    decreases items.len() - i,
                {
                    proof {
                        assert(self->List_0 == *items);
                        assert(decreases_to!(*items => items[i as int]));
                    }
                    let ghost before = json_views(out@);
                    let item = items[i].copy();
                    out.push(item);
                    proof {
                        assert(json_views(out@) =~= before.push(item@));
                        assert(json_views(items@).take(i + 1) =~= json_views(items@).take(
                            i as int,
                        ).push(items@[i as int]@));
                    }
                    i = i + 1;
                }
                let r = Json::List(out);
                proof {
                    assert(json_views(items@).take(i as int) =~= json_views(items@));
                    lemma_json_view(r);
                }
                r
            },
            Json::Record(fields) => {
                let mut out: Vec<(String, Json)> = Vec::new();
                let mut i: usize = 0;
                while i < fields.len()
                    invariant
                        i <= fields.len(),
                        *self == Json::Record(*fields),
                        field_views(out@) =~= field_views(fields@).take(i as int),
                    decreases fields.len() - i,
                {
                    proof {
                        assert(self->Record_0 == *fields);
                        assert(decreases_to!(*fields => fields[i as int]));
                    }
                    let ghost before = field_views(out@);
                    let field = (fields[i].0.as_str().to_string(), fields[i].1.copy());
                    out.push(field);
                    proof {
                        assert(field_views(out@) =~= before.push((field.0@, field.1@)));
                        assert(field_views(fields@).take(i + 1) =~= field_views(fields@).take(
                            i as int,
                        ).push((fields@[i as int].0@, fields@[i as int].1@)));
                    }
                    i = i + 1;
                }
                let r = Json::Record(out);
                proof {
                    assert(field_views(fields@).take(i as int) =~= field_views(fields@));
                    lemma_json_view(r);
                }
                r
            },
        }
    }
}

} // verus!
