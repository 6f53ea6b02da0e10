//! JSON values: an owned tree with a mathematical view, and the reading and
//! writing of JSON text through `serde_json`.

use vstd::prelude::*;
use vstd::string::*;

use crate::text::same;

verus! {

/// A JSON number as `serde_json` holds it.
#[verifier::external_type_specification]
#[verifier::external_body]
pub struct ExNumber(serde_json::Number);

/// A JSON value as `serde_json` holds it.
#[verifier::external_type_specification]
#[verifier::external_body]
pub struct ExValue(serde_json::Value);

/// The error of a failed parse or rendering.
#[verifier::external_type_specification]
#[verifier::external_body]
pub struct ExError(serde_json::Error);

/// A number that is not an integer in the range of `u64` or `i64`. It is
/// carried through unread.
#[derive(Debug)]
pub struct FloatNumber {
    number: serde_json::Number,
}

/// `serde_json::Number` derives `Clone`: the copy holds the same number.
pub assume_specification[ <serde_json::Number as Clone>::clone ](n: &serde_json::Number) -> (r:
    serde_json::Number)
    ensures
        r == *n,
;

/// A JSON value. Of two fields of an object with the same name the later counts.
#[derive(Debug)]
pub enum Json {
    Null,
    Bool(bool),
    UInt(u64),
    Int(i64),
    Float(FloatNumber),
    Text(String),
    Array(Vec<Json>),
    Object(Vec<(String, Json)>),
}

/// What a JSON value is: objects are finite maps, integers have no width.
#[verifier::ext_equal]
pub enum JsonView {
    Null,
    Bool(bool),
    Int(int),
    Float(FloatNumber),
    Str(Seq<char>),
    Arr(Seq<JsonView>),
    Obj(Map<Seq<char>, JsonView>),
}

/// The map that a list of fields stands for.
pub open spec fn fields_view(fields: Seq<(String, Json)>) -> Map<Seq<char>, JsonView>
    decreases fields,
{
    if fields.len() == 0 {
        Map::empty()
    } else {
        fields_view(fields.drop_last()).insert(fields.last().0@, json_view(fields.last().1))
    }
}

/// The value that a tree stands for.
pub open spec fn json_view(j: Json) -> JsonView
    decreases j,
{
    match j {
        Json::Null => JsonView::Null,
        Json::Bool(b) => JsonView::Bool(b),
        Json::UInt(n) => JsonView::Int(n as int),
        Json::Int(n) => JsonView::Int(n as int),
        Json::Float(f) => JsonView::Float(f),
        Json::Text(s) => JsonView::Str(s@),
        Json::Array(items) => JsonView::Arr(
            Seq::new(
                items@.len(),
                |i: int|
                    if 0 <= i < items@.len() {
                        json_view(items@[i])
                    } else {
                        JsonView::Null
                    },
            ),
        ),
        Json::Object(fields) => JsonView::Obj(fields_view(fields@)),
    }
}

impl View for Json {
    type V = JsonView;

    open spec fn view(&self) -> JsonView {
        json_view(*self)
    }
}

/// The views of a list of values.
pub open spec fn json_views(items: Seq<Json>) -> Seq<JsonView> {
    Seq::new(items.len(), |i: int| items[i]@)
}

/// The field `key` of an object.
pub open spec fn field(v: JsonView, key: Seq<char>) -> Option<JsonView> {
    match v {
        JsonView::Obj(m) => if m.dom().contains(key) {
            Some(m[key])
        } else {
            None
        },
        _ => None,
    }
}

/// The text of a string.
pub open spec fn text_in(v: JsonView) -> Option<Seq<char>> {
    match v {
        JsonView::Str(s) => Some(s),
        _ => None,
    }
}

/// The integer of a number that fits in an `i64`.
pub open spec fn int_in(v: JsonView) -> Option<int> {
    match v {
        JsonView::Int(n) => if i64::MIN <= n <= i64::MAX {
            Some(n)
        } else {
            None
        },
        _ => None,
    }
}

/// The items of an array.
pub open spec fn items_in(v: JsonView) -> Option<Seq<JsonView>> {
    match v {
        JsonView::Arr(a) => Some(a),
        _ => None,
    }
}

/// The text of the string field `key` of an object.
pub open spec fn str_field(v: JsonView, key: Seq<char>) -> Option<Seq<char>> {
    match field(v, key) {
        Some(x) => text_in(x),
        None => None,
    }
}

/// The integer of the field `key` of an object.
pub open spec fn int_field(v: JsonView, key: Seq<char>) -> Option<int> {
    match field(v, key) {
        Some(x) => int_in(x),
        None => None,
    }
}

/// The items of the array field `key` of an object.
pub open spec fn items_field(v: JsonView, key: Seq<char>) -> Option<Seq<JsonView>> {
    match field(v, key) {
        Some(x) => items_in(x),
        None => None,
    }
}

/// `v` with the field `key` set to `x`; a value that is no object is kept.
pub open spec fn with_field(v: JsonView, key: Seq<char>, x: JsonView) -> JsonView {
    match v {
        JsonView::Obj(m) => JsonView::Obj(m.insert(key, x)),
        _ => v,
    }
}

/// The name under which `serde_json` passes on JSON text that it has not
/// read. Its parser takes an object that begins with this name for such text.
pub const RAW_TEXT_NAME: &'static str = "$serde_json::private::RawValue";

/// Whether `v` is a value that its JSON text reads as: it holds integers only
/// for numbers, nests at most `depth` arrays and objects, and no object in it
/// has the name that stands for unread text.
pub open spec fn plain(v: JsonView, depth: nat) -> bool
    decreases depth,
{
    match v {
        JsonView::Float(_) => false,
        JsonView::Int(n) => i64::MIN <= n <= u64::MAX,
        JsonView::Arr(a) => depth > 0 && forall|i: int|
            0 <= i < a.len() ==> plain(#[trigger] a[i], (depth - 1) as nat),
        JsonView::Obj(m) => depth > 0 && m.dom().finite() && !m.dom().contains(RAW_TEXT_NAME@)
            && forall|k: Seq<char>|
            m.dom().contains(k) ==> plain(#[trigger] m[k], (depth - 1) as nat),
        _ => true,
    }
}

/// The map of a list of fields has finitely many names.
pub proof fn lemma_fields_are_finite(fields: Seq<(String, Json)>)
    ensures
        fields_view(fields).dom().finite(),
    decreases fields.len(),
{
    if fields.len() > 0 {
        lemma_fields_are_finite(fields.drop_last());
    }
}

/// A name that no field has is not in the map.
proof fn lemma_absent_field(fields: Seq<(String, Json)>, key: Seq<char>)
    requires
        forall|i: int| 0 <= i < fields.len() ==> (#[trigger] fields[i]).0@ != key,
    ensures
        !fields_view(fields).dom().contains(key),
    decreases fields.len(),
{
    if fields.len() > 0 {
        assert(fields.last() == fields[fields.len() - 1]);
        assert forall|i: int| 0 <= i < fields.drop_last().len() implies (
        #[trigger] fields.drop_last()[i]).0@ != key by {
            assert(fields.drop_last()[i] == fields[i]);
        }
        lemma_absent_field(fields.drop_last(), key);
    }
}

/// The last field with a name is the one in the map.
proof fn lemma_present_field(fields: Seq<(String, Json)>, at: int)
    requires
        0 <= at < fields.len(),
        forall|i: int| at < i < fields.len() ==> (#[trigger] fields[i]).0@ != fields[at].0@,
    ensures
        fields_view(fields).dom().contains(fields[at].0@),
        fields_view(fields)[fields[at].0@] == fields[at].1@,
    decreases fields.len(),
{
    if at < fields.len() - 1 {
        assert(fields.last() == fields[fields.len() - 1]);
        let rest = fields.drop_last();
        assert(rest[at] == fields[at]);
        assert forall|i: int| at < i < rest.len() implies (#[trigger] rest[i]).0@
            != rest[at].0@ by {
            assert(rest[i] == fields[i]);
        }
        lemma_present_field(rest, at);
    }
}

/// A field in the place of the last one with its name is the one in the map.
proof fn lemma_replaced_field(fields: Seq<(String, Json)>, at: int, new: (String, Json))
    requires
        0 <= at < fields.len(),
        new.0@ == fields[at].0@,
        forall|i: int| at < i < fields.len() ==> (#[trigger] fields[i]).0@ != new.0@,
    ensures
        fields_view(fields.update(at, new)) == fields_view(fields).insert(new.0@, new.1@),
    decreases fields.len(),
{
    let changed = fields.update(at, new);
    let rest = fields.drop_last();
    if at < fields.len() - 1 {
        assert(fields.last() == fields[fields.len() - 1]);
        assert forall|i: int| at < i < rest.len() implies (#[trigger] rest[i]).0@ != new.0@ by {
            assert(rest[i] == fields[i]);
        }
        lemma_replaced_field(rest, at, new);
        assert(changed.drop_last() =~= rest.update(at, new));
        assert(changed.last() == fields.last());
        assert(fields_view(changed) =~= fields_view(fields).insert(new.0@, new.1@));
    } else {
        assert(changed.drop_last() =~= rest);
        assert(fields_view(changed) =~= fields_view(fields).insert(new.0@, new.1@));
    }
}

/// The place of the last field with the name `key`.
fn last_named(fields: &Vec<(String, Json)>, key: &str) -> (r: Option<usize>)
    ensures
        match r {
            Some(at) => at < fields@.len() && fields@[at as int].0@ == key@ && forall|i: int|
                at < i < fields@.len() ==> (#[trigger] fields@[i]).0@ != key@,
            None => forall|i: int| 0 <= i < fields@.len() ==> (#[trigger] fields@[i]).0@ != key@,
        },
{
    let mut i: usize = fields.len();
    while i > 0
        invariant
            i <= fields@.len(),
            forall|j: int| i <= j < fields@.len() ==> (#[trigger] fields@[j]).0@ != key@,
        decreases i,
    {
        i -= 1;
        if same(fields[i].0.as_str(), key) {
            return Some(i);
        }
    }
    None
}

impl Json {
    /// The object without fields.
    pub fn object() -> (r: Json)
        ensures
            r@ == JsonView::Obj(Map::<Seq<char>, JsonView>::empty()),
    {
        let fields: Vec<(String, Json)> = Vec::new();
        assert(fields_view(fields@) =~= Map::<Seq<char>, JsonView>::empty());
        Json::Object(fields)
    }

    /// The string `s`.
    pub fn text(s: &str) -> (r: Json)
        ensures
            r@ == JsonView::Str(s@),
    {
        Json::Text(s.to_string())
    }

    /// The number `n`.
    pub fn number(n: usize) -> (r: Json)
        ensures
            r@ == JsonView::Int(n as int),
    {
        Json::UInt(n as u64)
    }

    /// The array of `items`.
    pub fn array(items: Vec<Json>) -> (r: Json)
        ensures
            r@ == JsonView::Arr(json_views(items@)),
    {
        let r = Json::Array(items);
        assert(r@->Arr_0 =~= json_views(items@));
        r
    }

    /// The array of the strings `items`.
    pub fn texts(items: &Vec<&str>) -> (r: Json)
        ensures
            r@ == JsonView::Arr(Seq::new(items@.len(), |i: int| JsonView::Str(items@[i]@))),
    {
        let mut out: Vec<Json> = Vec::new();
        let mut i: usize = 0;
        while i < items.len()
            invariant
                i <= items@.len(),
                out@.len() == i,
                forall|j: int| 0 <= j < i ==> (#[trigger] out@[j])@ == JsonView::Str(items@[j]@),
            decreases items@.len() - i,
        {
            out.push(Json::text(items[i]));
            i += 1;
        }
        assert(json_views(out@) =~= Seq::new(items@.len(), |i: int| JsonView::Str(items@[i]@)));
        Json::array(out)
    }

    /// Sets the field `key` of an object; a value that is no object is kept.
    pub fn put(&mut self, key: &str, value: Json)
        ensures
            final(self)@ == with_field(old(self)@, key@, value@),
    {
        match self {
            Json::Object(fields) => {
                let ghost before = fields@;
                if let Some(i) = last_named(fields, key) {
                    fields.set(i, (key.to_string(), value));
                    proof {
                        lemma_replaced_field(before, i as int, fields@[i as int]);
                    }
                    return;
                }
                fields.push((key.to_string(), value));
                assert(fields@.drop_last() == before);
                assert(fields_view(fields@) == fields_view(before).insert(key@, value@));
            },
            _ => {},
        }
    }

    /// The object with the field `key` set to `value`; a value that is no object is kept.
    pub fn with(self, key: &str, value: Json) -> (r: Json)
        ensures
            r@ == with_field(self@, key@, value@),
    {
        let mut out = self;
        out.put(key, value);
        out
    }

    /// The field `key` of an object.
    pub fn get(&self, key: &str) -> (r: Option<&Json>)
        ensures
            match r {
                Some(x) => field(self@, key@) == Some(x@),
                None => field(self@, key@) is None,
            },
    {
        match self {
            Json::Object(fields) => match last_named(fields, key) {
                Some(i) => {
                    proof {
                        lemma_present_field(fields@, i as int);
                    }
                    Some(&fields[i].1)
                },
                None => {
                    proof {
                        lemma_absent_field(fields@, key@);
                    }
                    None
                },
            },
            _ => None,
        }
    }

    /// The text of a string.
    pub fn as_str(&self) -> (r: Option<&str>)
        ensures
            match r {
                Some(s) => text_in(self@) == Some(s@),
                None => text_in(self@) is None,
            },
    {
        match self {
            Json::Text(s) => Some(s.as_str()),
            _ => None,
        }
    }

    /// The integer of a number that fits in an `i64`.
    pub fn as_i64(&self) -> (r: Option<i64>)
        ensures
            match r {
                Some(n) => int_in(self@) == Some(n as int),
                None => int_in(self@) is None,
            },
    {
        match self {
            Json::UInt(n) => if *n <= i64::MAX as u64 {
                Some(*n as i64)
            } else {
                None
            },
            Json::Int(n) => Some(*n),
            _ => None,
        }
    }

    /// The items of an array.
    pub fn as_array(&self) -> (r: Option<&Vec<Json>>)
        ensures
            match r {
                Some(a) => items_in(self@) == Some(json_views(a@)),
                None => items_in(self@) is None,
            },
    {
        match self {
            Json::Array(items) => {
                assert(self@->Arr_0 =~= json_views(items@));
                Some(items)
            },
            _ => None,
        }
    }

    /// The text of the string field `key` of an object.
    pub fn str_of(&self, key: &str) -> (r: Option<&str>)
        ensures
            match r {
                Some(s) => str_field(self@, key@) == Some(s@),
                None => str_field(self@, key@) is None,
            },
    {
        match self.get(key) {
            Some(x) => x.as_str(),
            None => None,
        }
    }

    /// The integer of the field `key` of an object.
    pub fn int_of(&self, key: &str) -> (r: Option<i64>)
        ensures
            match r {
                Some(n) => int_field(self@, key@) == Some(n as int),
                None => int_field(self@, key@) is None,
            },
    {
        match self.get(key) {
            Some(x) => x.as_i64(),
            None => None,
        }
    }

    /// The items of the array field `key` of an object.
    pub fn items_of(&self, key: &str) -> (r: Option<&Vec<Json>>)
        ensures
            match r {
                Some(a) => items_field(self@, key@) == Some(json_views(a@)),
                None => items_field(self@, key@) is None,
            },
    {
        match self.get(key) {
            Some(x) => x.as_array(),
            None => None,
        }
    }

    /// A copy of the value.
    pub fn copy(&self) -> (r: Json)
        ensures
            r@ == self@,
        decreases self,
    {
        match self {
            Json::Null => Json::Null,
            Json::Bool(b) => Json::Bool(*b),
            Json::UInt(n) => Json::UInt(*n),
            Json::Int(n) => Json::Int(*n),
            Json::Float(f) => Json::Float(FloatNumber { number: f.number.clone() }),
            Json::Text(s) => Json::Text(s.clone()),
            Json::Array(items) => {
                let mut out: Vec<Json> = Vec::new();
                let mut i: usize = 0;
                while i < items.len()
                    invariant
                        i <= items@.len(),
                        out@.len() == i,
                        *self == Json::Array(*items),
                        forall|j: int| 0 <= j < i ==> (#[trigger] out@[j])@ == items@[j]@,
                    decreases items@.len() - i,
                {
                    assert(decreases_to!(self => self->Array_0));
                    assert(decreases_to!(self->Array_0 => self->Array_0@));
                    assert(decreases_to!(self->Array_0@ => self->Array_0@[i as int]));
                    out.push(items[i].copy());
                    i += 1;
                }
                let r = Json::Array(out);
                assert(r@->Arr_0 =~= self@->Arr_0);
                r
            },
            Json::Object(fields) => {
                let mut out: Vec<(String, Json)> = Vec::new();
                let mut i: usize = 0;
                assert(fields@.take(0) =~= Seq::<(String, Json)>::empty());
                while i < fields.len()
                    invariant
                        i <= fields@.len(),
                        *self == Json::Object(*fields),
                        fields_view(out@) == fields_view(fields@.take(i as int)),
                    decreases fields@.len() - i,
                {
                    let ghost before = out@;
                    assert(decreases_to!(self => self->Object_0));
                    assert(decreases_to!(self->Object_0 => self->Object_0@));
                    assert(decreases_to!(self->Object_0@ => self->Object_0@[i as int]));
                    assert(decreases_to!(self->Object_0@[i as int] => self->Object_0@[i as int].1));
                    out.push((fields[i].0.clone(), fields[i].1.copy()));
                    assert(out@.drop_last() == before);
                    assert(fields@.take(i + 1).drop_last() == fields@.take(i as int));
                    i += 1;
                }
                assert(fields@.take(i as int) == fields@);
                Json::Object(out)
            },
        }
    }
}

/// Copies of a list of values.
pub fn copies(items: &Vec<Json>) -> (r: Vec<Json>)
    ensures
        json_views(r@) == json_views(items@),
{
    let mut out: Vec<Json> = Vec::new();
    let mut i: usize = 0;
    while i < items.len()
        invariant
            i <= items@.len(),
            out@.len() == i,
            forall|j: int| 0 <= j < i ==> (#[trigger] out@[j])@ == items@[j]@,
        decreases items@.len() - i,
    {
        out.push(items[i].copy());
        i += 1;
    }
    assert(json_views(out@) =~= json_views(items@));
    out
}

/// The outermost layer of a `serde_json` value.
pub enum Layer {
    Null,
    Bool(bool),
    UInt(u64),
    Int(i64),
    Float(FloatNumber),
    Text(String),
    Array(Vec<serde_json::Value>),
    Object(Vec<(String, serde_json::Value)>),
}

/// The contents of a `serde_json` value.
pub uninterp spec fn value_contents(v: serde_json::Value) -> JsonView;

/// The map that a list of `serde_json` fields stands for.
pub open spec fn value_fields(fields: Seq<(String, serde_json::Value)>) -> Map<
    Seq<char>,
    JsonView,
>
    decreases fields.len(),
{
    if fields.len() == 0 {
        Map::empty()
    } else {
        value_fields(fields.drop_last()).insert(
            fields.last().0@,
            value_contents(fields.last().1),
        )
    }
}

/// Whether no two fields have the same name.
pub open spec fn names_once(fields: Seq<(String, serde_json::Value)>) -> bool {
    forall|i: int, j: int|
        0 <= i < j < fields.len() ==> (#[trigger] fields[i]).0@ != (#[trigger] fields[j]).0@
}

/// A field whose name occurs once is in the map.
proof fn lemma_value_field(fields: Seq<(String, serde_json::Value)>, at: int)
    requires
        0 <= at < fields.len(),
        names_once(fields),
    ensures
        value_fields(fields).dom().contains(fields[at].0@),
        value_fields(fields)[fields[at].0@] == value_contents(fields[at].1),
        value_fields(fields).dom().finite(),
    decreases fields.len(),
{
    let rest = fields.drop_last();
    if at < rest.len() {
        assert(rest[at] == fields[at]);
        lemma_value_field(rest, at);
    } else if rest.len() > 0 {
        lemma_value_field(rest, 0);
    }
}

/// The contents of a layer.
pub open spec fn layer_contents(l: Layer) -> JsonView {
    match l {
        Layer::Null => JsonView::Null,
        Layer::Bool(b) => JsonView::Bool(b),
        Layer::UInt(n) => JsonView::Int(n as int),
        Layer::Int(n) => JsonView::Int(n as int),
        Layer::Float(f) => JsonView::Float(f),
        Layer::Text(s) => JsonView::Str(s@),
        Layer::Array(a) => JsonView::Arr(Seq::new(a@.len(), |i: int| value_contents(a@[i]))),
        Layer::Object(o) => JsonView::Obj(value_fields(o@)),
    }
}

/// Takes a `serde_json::Value` apart, variant by variant. `Number::as_u64` and
/// `Number::as_i64` tell the integers from the other numbers, and an object's
/// fields are listed by `Map::into_iter`, each name once.
#[verifier::external_body]
fn open_value(value: serde_json::Value) -> (r: Layer)
    ensures
        layer_contents(r) == value_contents(value),
        r is Object ==> names_once(r->Object_0@),
{
    match value {
        serde_json::Value::Null => Layer::Null,
        serde_json::Value::Bool(b) => Layer::Bool(b),
        serde_json::Value::Number(n) => match (n.as_u64(), n.as_i64()) {
            (Some(u), _) => Layer::UInt(u),
            (None, Some(i)) => Layer::Int(i),
            (None, None) => Layer::Float(FloatNumber { number: n }),
        },
        serde_json::Value::String(s) => Layer::Text(s),
        serde_json::Value::Array(a) => Layer::Array(a),
        serde_json::Value::Object(o) => Layer::Object(o.into_iter().collect()),
    }
}

/// Puts a `serde_json::Value` together, variant by variant: `Value::from` for
/// the integers, and `Map::from_iter` for an object's fields, of which the
/// later of two with one name counts.
#[verifier::external_body]
fn close_value(layer: Layer) -> (r: serde_json::Value)
    ensures
        value_contents(r) == layer_contents(layer),
{
    match layer {
        Layer::Null => serde_json::Value::Null,
        Layer::Bool(b) => serde_json::Value::Bool(b),
        Layer::UInt(n) => serde_json::Value::from(n),
        Layer::Int(n) => serde_json::Value::from(n),
        Layer::Float(f) => serde_json::Value::Number(f.number),
        Layer::Text(s) => serde_json::Value::String(s),
        Layer::Array(a) => serde_json::Value::Array(a),
        Layer::Object(o) => serde_json::Value::Object(o.into_iter().collect()),
    }
}

/// The value that the JSON text `text` writes, if it is JSON text.
pub uninterp spec fn parsed_text(text: Seq<char>) -> Option<JsonView>;

/// The compact JSON text of a value, with the fields of objects in the order
/// of their names.
pub uninterp spec fn rendered_text(v: JsonView) -> Seq<char>;

/// The depth to which the parser follows nested arrays and objects.
pub const DEPTH_LIMIT: usize = 127;

/// `serde_json::from_str`: the value that the text writes, or an error where
/// the text is not JSON or nests too deeply.
#[verifier::external_body]
fn from_str(text: &str) -> (r: Result<serde_json::Value, serde_json::Error>)
    ensures
        match r {
            Ok(v) => parsed_text(text@) == Some(value_contents(v)),
            Err(_) => parsed_text(text@) is None,
        },
{
    serde_json::from_str(text)
}

/// `serde_json::to_string` of a `serde_json::Value`: it does not fail, since
/// every name in such a value is a string. A plain value is what its text
/// parses to. Nothing is said of the text of other values: the parser may read
/// a floating-point number as its neighbour, refuses deeper nesting, and takes
/// an object that begins with `RAW_TEXT_NAME` for unread text.
#[verifier::external_body]
fn to_string(value: &serde_json::Value) -> (r: Result<String, serde_json::Error>)
    ensures
        r is Ok,
        r->Ok_0@ == rendered_text(value_contents(*value)),
        plain(value_contents(*value), DEPTH_LIMIT as nat) ==> parsed_text(r->Ok_0@) == Some(
            value_contents(*value),
        ),
{
    serde_json::to_string(value)
}

/// The tree of a `serde_json` value.
pub fn from_value(value: serde_json::Value) -> (r: Json)
    ensures
        r@ == value_contents(value),
    decreases value_contents(value),
{
    let ghost contents = value_contents(value);
    match open_value(value) {
        Layer::Null => Json::Null,
        Layer::Bool(b) => Json::Bool(b),
        Layer::UInt(n) => Json::UInt(n),
        Layer::Int(n) => Json::Int(n),
        Layer::Float(f) => Json::Float(f),
        Layer::Text(s) => Json::Text(s),
        Layer::Array(a) => {
            let ghost all = a@;
            let mut out: Vec<Json> = Vec::new();
            for v in it: a
                invariant
                    contents == value_contents(value),
                    contents == JsonView::Arr(Seq::new(all.len(), |i: int| value_contents(all[i]))),
                    it.seq() == all,
                    out@.len() == it.index(),
                    forall|j: int|
                        0 <= j < out@.len() ==> (#[trigger] out@[j])@ == value_contents(all[j]),
            {
                let ghost at = it.index() as int;
                assert(contents->Arr_0[at] == value_contents(v));
                assert(decreases_to!(contents => contents->Arr_0[at]));
                out.push(from_value(v));
            }
            let r = Json::Array(out);
            assert(r@->Arr_0 =~= contents->Arr_0);
            r
        },
        Layer::Object(o) => {
            let ghost all = o@;
            let mut out: Vec<(String, Json)> = Vec::new();
            assert(all.take(0) =~= Seq::empty());
            for f in it: o
                invariant
                    contents == value_contents(value),
                    contents == JsonView::Obj(value_fields(all)),
                    names_once(all),
                    it.seq() == all,
                    fields_view(out@) == value_fields(all.take(it.index() as int)),
            {
                let ghost at = it.index() as int;
                let ghost before = out@;
                proof {
                    lemma_value_field(all, at);
                    assert(decreases_to!(contents => contents->Obj_0[f.0@]));
                }
                out.push((f.0, from_value(f.1)));
                assert(out@.drop_last() == before);
                assert(all.take(at + 1).drop_last() == all.take(at));
            }
            assert(all.take(all.len() as int) == all);
            Json::Object(out)
        },
    }
}

/// The `serde_json` value of a tree.
pub fn to_value(json: &Json) -> (r: serde_json::Value)
    ensures
        value_contents(r) == json@,
    decreases json,
{
    match json {
        Json::Null => close_value(Layer::Null),
        Json::Bool(b) => close_value(Layer::Bool(*b)),
        Json::UInt(n) => close_value(Layer::UInt(*n)),
        Json::Int(n) => close_value(Layer::Int(*n)),
        Json::Float(f) => close_value(Layer::Float(FloatNumber { number: f.number.clone() })),
        Json::Text(s) => close_value(Layer::Text(s.clone())),
        Json::Array(items) => {
            let mut out: Vec<serde_json::Value> = Vec::new();
            let mut i: usize = 0;
            while i < items.len()
                invariant
                    i <= items@.len(),
                    out@.len() == i,
                    *json == Json::Array(*items),
                    forall|j: int| 0 <= j < i ==> value_contents(#[trigger] out@[j]) == items@[j]@,
                decreases items@.len() - i,
            {
                assert(decreases_to!(json => json->Array_0));
                assert(decreases_to!(json->Array_0 => json->Array_0@));
                assert(decreases_to!(json->Array_0@ => json->Array_0@[i as int]));
                out.push(to_value(&items[i]));
                i += 1;
            }
            let layer = Layer::Array(out);
            assert(layer_contents(layer)->Arr_0 =~= json@->Arr_0);
            close_value(layer)
        },
        Json::Object(fields) => {
            let mut out: Vec<(String, serde_json::Value)> = Vec::new();
            let mut i: usize = 0;
            assert(fields@.take(0) =~= Seq::<(String, Json)>::empty());
            while i < fields.len()
                invariant
                    i <= fields@.len(),
                    *json == Json::Object(*fields),
                    value_fields(out@) == fields_view(fields@.take(i as int)),
                decreases fields@.len() - i,
            {
                let ghost before = out@;
                assert(decreases_to!(json => json->Object_0));
                assert(decreases_to!(json->Object_0 => json->Object_0@));
                assert(decreases_to!(json->Object_0@ => json->Object_0@[i as int]));
                assert(decreases_to!(json->Object_0@[i as int] => json->Object_0@[i as int].1));
                out.push((fields[i].0.clone(), to_value(&fields[i].1)));
                assert(out@.drop_last() == before);
                assert(fields@.take(i + 1).drop_last() == fields@.take(i as int));
                i += 1;
            }
            assert(fields@.take(i as int) == fields@);
            close_value(Layer::Object(out))
        },
    }
}

/// The value that the text `text` writes, if it is JSON text.
pub fn parse(text: &str) -> (r: Option<Json>)
    ensures
        match r {
            Some(j) => parsed_text(text@) == Some(j@),
            None => parsed_text(text@) is None,
        },
{
    match from_str(text) {
        Ok(v) => Some(from_value(v)),
        Err(_) => None,
    }
}

/// The compact JSON text of a value. Parsing the text of a plain value gives
/// the value back.
pub fn render(json: &Json) -> (r: String)
    ensures
        r@ == rendered_text(json@),
        plain(json@, DEPTH_LIMIT as nat) ==> parsed_text(r@) == Some(json@),
{
    match to_string(&to_value(json)) {
        Ok(s) => s,
        Err(_) => String::new(),
    }
}

} // verus!
