//! JSON values as the library reads and writes them.
//!
//! `Json` holds what a `serde_json::Value` holds, as plain values; `JsonView`
//! is the same tree as a mathematical value. Object members keep the order in
//! which they were given, and a lookup finds the first member with the key.
use crate::double;
use crate::double::Double;
use crate::text;
use vstd::prelude::*;

verus! {

/// A JSON number, by its three readings: as an unsigned and as a signed
/// integer, where it is one in range, and as a double.
#[derive(Clone, Copy, Debug, PartialEq, Eq, Structural)]
pub struct Number {
    pub unsigned: Option<u64>,
    pub signed: Option<i64>,
    pub double: Option<Double>,
}

impl Number {
    /// Whether the double of the number, where it has one, is finite.
    pub open spec fn is_finite(self) -> bool {
        self.double matches Some(d) ==> d.is_finite()
    }
}

/// A JSON value.
#[derive(Debug)]
pub enum Json {
    Null,
    Bool(bool),
    Number(Number),
    Str(String),
    Array(Vec<Json>),
    Object(Vec<(String, Json)>),
}

/// A JSON value as a mathematical tree.
pub enum JsonView {
    Null,
    Bool(bool),
    Number(Number),
    Str(Seq<char>),
    Array(Seq<JsonView>),
    Object(Seq<(Seq<char>, JsonView)>),
}

/// The value of the first member with the key.
pub open spec fn lookup(members: Seq<(Seq<char>, JsonView)>, key: Seq<char>) -> Option<JsonView>
    decreases members.len(),
{
    if members.len() == 0 {
        None
    } else if members[0].0 == key {
        Some(members[0].1)
    } else {
        lookup(members.skip(1), key)
    }
}

impl JsonView {
    /// The member of an object with the key.
    pub open spec fn get(self, key: Seq<char>) -> Option<JsonView> {
        match self {
            JsonView::Object(members) => lookup(members, key),
            _ => None,
        }
    }

    pub open spec fn text(self) -> Option<Seq<char>> {
        match self {
            JsonView::Str(s) => Some(s),
            _ => None,
        }
    }

    pub open spec fn boolean(self) -> Option<bool> {
        match self {
            JsonView::Bool(b) => Some(b),
            _ => None,
        }
    }

    pub open spec fn signed(self) -> Option<i64> {
        match self {
            JsonView::Number(n) => n.signed,
            _ => None,
        }
    }

    pub open spec fn unsigned(self) -> Option<u64> {
        match self {
            JsonView::Number(n) => n.unsigned,
            _ => None,
        }
    }

    pub open spec fn double(self) -> Option<Double> {
        match self {
            JsonView::Number(n) => n.double,
            _ => None,
        }
    }

    pub open spec fn items(self) -> Option<Seq<JsonView>> {
        match self {
            JsonView::Array(items) => Some(items),
            _ => None,
        }
    }

    /// The text under the key.
    pub open spec fn text_at(self, key: Seq<char>) -> Option<Seq<char>> {
        match self.get(key) {
            Some(v) => v.text(),
            None => None,
        }
    }

    /// The text under the key, or another one.
    pub open spec fn text_or(self, key: Seq<char>, other: Seq<char>) -> Seq<char> {
        match self.text_at(key) {
            Some(s) => s,
            None => other,
        }
    }

    /// The truth value under the key.
    pub open spec fn boolean_at(self, key: Seq<char>) -> Option<bool> {
        match self.get(key) {
            Some(v) => v.boolean(),
            None => None,
        }
    }

    /// The signed integer under the key.
    pub open spec fn signed_at(self, key: Seq<char>) -> Option<i64> {
        match self.get(key) {
            Some(v) => v.signed(),
            None => None,
        }
    }

    /// The signed integer under the key, or another one.
    pub open spec fn signed_or(self, key: Seq<char>, other: i64) -> i64 {
        match self.signed_at(key) {
            Some(n) => n,
            None => other,
        }
    }

    /// The unsigned integer under the key.
    pub open spec fn unsigned_at(self, key: Seq<char>) -> Option<u64> {
        match self.get(key) {
            Some(v) => v.unsigned(),
            None => None,
        }
    }

    /// The double under the key.
    pub open spec fn double_at(self, key: Seq<char>) -> Option<Double> {
        match self.get(key) {
            Some(v) => v.double(),
            None => None,
        }
    }

    /// The array under the key.
    pub open spec fn items_at(self, key: Seq<char>) -> Option<Seq<JsonView>> {
        match self.get(key) {
            Some(v) => v.items(),
            None => None,
        }
    }

    /// The value under the key, or an empty object.
    pub open spec fn object_at(self, key: Seq<char>) -> JsonView {
        match self.get(key) {
            Some(v) => v,
            None => JsonView::Object(Seq::empty()),
        }
    }
}

/// Whether every number of a tree is finite, as JSON has it.
pub open spec fn all_finite(tree: JsonView) -> bool
    decreases tree,
{
    match tree {
        JsonView::Number(n) => n.is_finite(),
        JsonView::Array(items) => forall|i: int|
            0 <= i < items.len() ==> all_finite(#[trigger] items[i]),
        JsonView::Object(members) => forall|i: int|
            0 <= i < members.len() ==> all_finite((#[trigger] members[i]).1),
        _ => true,
    }
}

/// A member of a tree whose numbers are finite has finite numbers.
pub proof fn member_is_finite(tree: JsonView, key: Seq<char>)
    requires
        all_finite(tree),
    ensures
        tree.get(key) matches Some(value) ==> all_finite(value),
{
    if let JsonView::Object(members) = tree {
        lemma_lookup_is_finite(members, key);
    }
}

proof fn lemma_lookup_is_finite(members: Seq<(Seq<char>, JsonView)>, key: Seq<char>)
    requires
        forall|i: int| 0 <= i < members.len() ==> all_finite((#[trigger] members[i]).1),
    ensures
        lookup(members, key) matches Some(value) ==> all_finite(value),
    decreases members.len(),
{
    if members.len() > 0 {
        assert forall|i: int| 0 <= i < members.skip(1).len() implies all_finite(
            (#[trigger] members.skip(1)[i]).1,
        ) by {
            assert(members.skip(1)[i] == members[i + 1]);
        }
        lemma_lookup_is_finite(members.skip(1), key);
    }
}

/// The tree of a value.
pub open spec fn tree(json: Json) -> JsonView
    decreases json,
{
    match json {
        Json::Null => JsonView::Null,
        Json::Bool(b) => JsonView::Bool(b),
        Json::Number(n) => JsonView::Number(n),
        Json::Str(s) => JsonView::Str(s@),
        Json::Array(items) => JsonView::Array(
            Seq::new(
                items@.len(),
                |i: int|
                    if 0 <= i < items@.len() {
                        tree(items@[i])
                    } else {
                        JsonView::Null
                    },
            ),
        ),
        Json::Object(members) => JsonView::Object(
            Seq::new(
                members@.len(),
                |i: int|
                    if 0 <= i < members@.len() {
                        (members@[i].0@, tree(members@[i].1))
                    } else {
                        (Seq::empty(), JsonView::Null)
                    },
            ),
        ),
    }
}

impl View for Json {
    type V = JsonView;

    open spec fn view(&self) -> JsonView {
        tree(*self)
    }
}

/// A list of values as mathematical trees.
pub open spec fn trees(list: Seq<Json>) -> Seq<JsonView> {
    list.map_values(|item: Json| item@)
}

/// An optional text, borrowed, as a sequence of characters.
pub open spec fn text_view(s: Option<&String>) -> Option<Seq<char>> {
    match s {
        Some(s) => Some(s@),
        None => None,
    }
}

/// The type `serde_json::Value`.
#[verifier::external_type_specification]
#[verifier::external_body]
pub struct ExValue(serde_json::Value);

/// The tree that a `serde_json::Value` holds.
pub uninterp spec fn value_tree(value: serde_json::Value) -> JsonView;

/// The tree that a JSON text denotes, where `serde_json::from_str` accepts it.
pub uninterp spec fn json_tree(source: Seq<char>) -> Option<JsonView>;

/// One layer of a `serde_json::Value`: its variant, with the values right
/// below it.
enum Layer {
    Null,
    Bool(bool),
    Number(Number),
    Str(String),
    Array(Vec<serde_json::Value>),
    Object(Vec<(String, serde_json::Value)>),
}

/// The tree of a layer and of what is below it.
spec fn layer_tree(layer: Layer) -> JsonView {
    match layer {
        Layer::Null => JsonView::Null,
        Layer::Bool(b) => JsonView::Bool(b),
        Layer::Number(n) => JsonView::Number(n),
        Layer::Str(s) => JsonView::Str(s@),
        Layer::Array(items) => JsonView::Array(
            items@.map_values(|value: serde_json::Value| value_tree(value)),
        ),
        Layer::Object(members) => JsonView::Object(
            members@.map_values(|m: (String, serde_json::Value)| (m.0@, value_tree(m.1))),
        ),
    }
}

/// Takes one layer off a `serde_json::Value`, one variant each. Its numbers
/// are taken over by `as_u64`, `as_i64` and the bits of `as_f64`, its objects
/// member by member. The doubles of `serde_json` are finite.
#[verifier::external_body]
fn layer_of(value: serde_json::Value) -> (layer: Layer)
    ensures
        layer_tree(layer) == value_tree(value),
        layer matches Layer::Number(n) ==> n.is_finite(),
{
    match value {
        serde_json::Value::Null => Layer::Null,
        serde_json::Value::Bool(b) => Layer::Bool(b),
        serde_json::Value::Number(n) => Layer::Number(Number {
            unsigned: n.as_u64(),
            signed: n.as_i64(),
            double: n.as_f64().map(|d| Double { bits: d.to_bits() }),
        }),
        serde_json::Value::String(s) => Layer::Str(s),
        serde_json::Value::Array(items) => Layer::Array(items),
        serde_json::Value::Object(map) => Layer::Object(map.into_iter().collect()),
    }
}

/// The tree of a `serde_json::Value`, layer by layer.
fn json_of(value: serde_json::Value) -> (json: Json)
    ensures
        json@ == value_tree(value),
        all_finite(json@),
    decreases value_tree(value),
{
    let ghost whole = value_tree(value);
    match layer_of(value) {
        Layer::Null => Json::Null,
        Layer::Bool(b) => Json::Bool(b),
        Layer::Number(n) => Json::Number(n),
        Layer::Str(s) => Json::Str(s),
        Layer::Array(items) => {
            let ghost all = items@;
            let mut out: Vec<Json> = Vec::new();
            for item in rest: items
                invariant
                    rest.seq() == all,
                    whole == value_tree(value),
                    whole == JsonView::Array(
                        all.map_values(|v: serde_json::Value| value_tree(v)),
                    ),
                    out@.len() == rest.index(),
                    forall|j: int|
                        0 <= j < rest.index() ==> (#[trigger] out@[j])@ == value_tree(all[j])
                            && all_finite(out@[j]@),
            {
                assert(decreases_to!(whole => whole->Array_0));
                assert(decreases_to!(whole->Array_0 => whole->Array_0[rest.index()]));
                out.push(json_of(item));
            }
            let json = Json::Array(out);
            assert(json@->Array_0 =~= whole->Array_0);
            json
        },
        Layer::Object(members) => {
            let ghost all = members@;
            let mut out: Vec<(String, Json)> = Vec::new();
            for member in rest: members
                invariant
                    rest.seq() == all,
                    whole == value_tree(value),
                    whole == JsonView::Object(
                        all.map_values(|m: (String, serde_json::Value)| (m.0@, value_tree(m.1))),
                    ),
                    out@.len() == rest.index(),
                    forall|j: int|
                        0 <= j < rest.index() ==> (#[trigger] out@[j]).0@ == all[j].0@
                            && out@[j].1@ == value_tree(all[j].1) && all_finite(out@[j].1@),
            {
                assert(decreases_to!(whole => whole->Object_0));
                let ghost pair = whole->Object_0[rest.index()];
                assert(decreases_to!(whole->Object_0 => whole->Object_0[rest.index()]));
                assert(decreases_to!(pair => pair.1));
                let (key, below) = member;
                out.push((key, json_of(below)));
            }
            let json = Json::Object(out);
            assert(json@->Object_0 =~= whole->Object_0);
            json
        },
    }
}

/// Calls `serde_json::from_str` for a `serde_json::Value`. Whether it accepts
/// the text, and the tree that it reads, are functions of the text.
#[verifier::external_body]
fn parse_value(source: &str) -> (value: Option<serde_json::Value>)
    ensures
        value is Some == json_tree(source@) is Some,
        value matches Some(v) ==> Some(value_tree(v)) == json_tree(source@),
{
    serde_json::from_str(source).ok()
}

/// The number that an integer is: its unsigned and its signed reading are the
/// integer itself, where it is in range, and its double is the nearest one.
pub open spec fn integer_number(n: int) -> Number {
    Number {
        unsigned: if 0 <= n <= u64::MAX {
            Some(n as u64)
        } else {
            None
        },
        signed: if i64::MIN <= n <= i64::MAX {
            Some(n as i64)
        } else {
            None
        },
        double: Some(double::nearest(n)),
    }
}

/// Makes a `serde_json::Number` of an integer and takes its readings over, by
/// `as_u64`, `as_i64` and the bits of `as_f64`. The integers are the integer
/// itself, where it is in range. The double is the one nearest to it.
#[verifier::external_body]
fn number_of(n: i64) -> (number: Number)
    ensures
        number.unsigned == integer_number(n as int).unsigned,
        number.signed == Some(n),
        number.double is Some,
        number.double->0.is_finite(),
        number.double->0.negative() == (n < 0),
        number.double->0.size() == double::rounded(
            if n < 0 {
                (-n) as nat
            } else {
                n as nat
            },
        ) * double::two(1074),
{
    let number = serde_json::Number::from(n);
    Number {
        unsigned: number.as_u64(),
        signed: number.as_i64(),
        double: number.as_f64().map(|d| Double { bits: d.to_bits() }),
    }
}

/// Makes a `serde_json::Number` of an unsigned integer and takes its readings
/// over, by `as_u64`, `as_i64` and the bits of `as_f64`. The integers are the
/// integer itself, where it is in range. The double is the one nearest to it.
#[verifier::external_body]
fn number_of_count(n: u64) -> (number: Number)
    ensures
        number.unsigned == Some(n),
        number.signed == integer_number(n as int).signed,
        number.double is Some,
        number.double->0.is_finite(),
        !number.double->0.negative(),
        number.double->0.size() == double::rounded(n as nat) * double::two(1074),
{
    let number = serde_json::Number::from(n);
    Number {
        unsigned: number.as_u64(),
        signed: number.as_i64(),
        double: number.as_f64().map(|d| Double { bits: d.to_bits() }),
    }
}

impl Json {
    /// Takes over a value of `serde_json`.
    pub fn from_value(value: serde_json::Value) -> (json: Json)
        ensures
            json@ == value_tree(value),
            all_finite(json@),
    {
        json_of(value)
    }

    /// Reads a JSON text.
    pub fn parse(source: &str) -> (json: Option<Json>)
        ensures
            json is Some == json_tree(source@) is Some,
            json matches Some(j) ==> Some(j@) == json_tree(source@) && all_finite(j@),
    {
        match parse_value(source) {
            Some(value) => Some(json_of(value)),
            None => None,
        }
    }

    /// A text.
    pub fn string(s: &str) -> (json: Json)
        ensures
            json@ == JsonView::Str(s@),
    {
        Json::Str(s.to_owned())
    }

    /// An integer.
    pub fn integer(n: i64) -> (json: Json)
        ensures
            json@ == JsonView::Number(integer_number(n as int)),
    {
        let number = number_of(n);
        proof {
            double::size_and_sign_fix_a_double(number.double->0);
        }
        Json::Number(number)
    }

    /// An unsigned integer.
    pub fn count(n: u64) -> (json: Json)
        ensures
            json@ == JsonView::Number(integer_number(n as int)),
    {
        let number = number_of_count(n);
        proof {
            double::size_and_sign_fix_a_double(number.double->0);
        }
        Json::Number(number)
    }

    /// A number that is given as a double.
    pub fn from_double(d: Double) -> (json: Json)
        ensures
            json@ == double_tree(d),
    {
        Json::Number(Number { unsigned: None, signed: None, double: Some(d) })
    }

    /// The member of an object with the key.
    pub fn get(&self, key: &str) -> (r: Option<&Json>)
        ensures
            r is Some == self@.get(key@) is Some,
            r matches Some(j) ==> Some(j@) == self@.get(key@),
    {
        match self {
            Json::Object(members) => {
                let ghost entries = self@->Object_0;
                let mut i: usize = 0;
                assert(entries.skip(0) =~= entries);
                while i < members.len()
                    invariant
                        i <= members@.len(),
                        self@ == JsonView::Object(entries),
                        entries.len() == members@.len(),
                        forall|j: int|
                            0 <= j < members@.len() ==> #[trigger] entries[j] == (
                                members@[j].0@,
                                members@[j].1@,
                            ),
                        lookup(entries, key@) == lookup(entries.skip(i as int), key@),
                    decreases members@.len() - i,
                {
                    assert(entries.skip(i as int)[0] == entries[i as int]);
                    assert(entries.skip(i as int).skip(1) =~= entries.skip(i + 1));
                    if text::same(members[i].0.as_str(), key) {
                        return Some(&members[i].1);
                    }
                    i = i + 1;
                }
                None
            },
            _ => None,
        }
    }

    pub fn as_str(&self) -> (r: Option<&String>)
        ensures
            text_view(r) == self@.text(),
    {
        match self {
            Json::Str(s) => Some(s),
            _ => None,
        }
    }

    pub fn as_bool(&self) -> (r: Option<bool>)
        ensures
            r == self@.boolean(),
    {
        match self {
            Json::Bool(b) => Some(*b),
            _ => None,
        }
    }

    pub fn as_i64(&self) -> (r: Option<i64>)
        ensures
            r == self@.signed(),
    {
        match self {
            Json::Number(n) => n.signed,
            _ => None,
        }
    }

    pub fn as_u64(&self) -> (r: Option<u64>)
        ensures
            r == self@.unsigned(),
    {
        match self {
            Json::Number(n) => n.unsigned,
            _ => None,
        }
    }

    pub fn as_double(&self) -> (r: Option<Double>)
        ensures
            r == self@.double(),
    {
        match self {
            Json::Number(n) => n.double,
            _ => None,
        }
    }

    pub fn as_array(&self) -> (r: Option<&Vec<Json>>)
        ensures
            r is Some == self@.items() is Some,
            r matches Some(v) ==> Some(trees(v@)) == self@.items(),
    {
        match self {
            Json::Array(items) => {
                assert(trees(items@) =~= self@->Array_0);
                Some(items)
            },
            _ => None,
        }
    }

    pub fn is_null(&self) -> (r: bool)
        ensures
            r == (self@ == JsonView::Null),
    {
        match self {
            Json::Null => true,
            _ => false,
        }
    }

    /// The text under the key.
    pub fn str_at(&self, key: &str) -> (r: Option<&String>)
        ensures
            text_view(r) == self@.text_at(key@),
    {
        match self.get(key) {
            Some(v) => v.as_str(),
            None => None,
        }
    }

    /// A copy of the text under the key, or of another one.
    pub fn str_or(&self, key: &str, other: &str) -> (r: String)
        ensures
            r@ == self@.text_or(key@, other@),
    {
        match self.str_at(key) {
            Some(s) => s.clone(),
            None => other.to_owned(),
        }
    }

    /// The truth value under the key.
    pub fn bool_at(&self, key: &str) -> (r: Option<bool>)
        ensures
            r == self@.boolean_at(key@),
    {
        match self.get(key) {
            Some(v) => v.as_bool(),
            None => None,
        }
    }

    /// The signed integer under the key.
    pub fn i64_at(&self, key: &str) -> (r: Option<i64>)
        ensures
            r == self@.signed_at(key@),
    {
        match self.get(key) {
            Some(v) => v.as_i64(),
            None => None,
        }
    }

    /// The signed integer under the key, or another one.
    pub fn i64_or(&self, key: &str, other: i64) -> (r: i64)
        ensures
            r == self@.signed_or(key@, other),
    {
        match self.i64_at(key) {
            Some(n) => n,
            None => other,
        }
    }

    /// The unsigned integer under the key.
    pub fn u64_at(&self, key: &str) -> (r: Option<u64>)
        ensures
            r == self@.unsigned_at(key@),
    {
        match self.get(key) {
            Some(v) => v.as_u64(),
            None => None,
        }
    }

    /// The double under the key.
    pub fn double_at(&self, key: &str) -> (r: Option<Double>)
        ensures
            r == self@.double_at(key@),
    {
        match self.get(key) {
            Some(v) => v.as_double(),
            None => None,
        }
    }

    /// The array under the key.
    pub fn array_at(&self, key: &str) -> (r: Option<&Vec<Json>>)
        ensures
            r is Some == self@.items_at(key@) is Some,
            r matches Some(v) ==> Some(trees(v@)) == self@.items_at(key@),
    {
        match self.get(key) {
            Some(v) => v.as_array(),
            None => None,
        }
    }

    /// A copy of the value.
    pub fn copy(&self) -> (r: Json)
        ensures
            r@ == self@,
        decreases self,
    {
        match self {
            Json::Null => Json::Null,
            Json::Bool(b) => Json::Bool(*b),
            Json::Number(n) => Json::Number(*n),
            Json::Str(s) => Json::Str(s.clone()),
            Json::Array(items) => {
                let mut out: Vec<Json> = Vec::new();
                let mut i: usize = 0;
                while i < items.len()
                    invariant
                        i <= items@.len(),
                        out@.len() == i,
                        *self == Json::Array(*items),
                        forall|j: int| 0 <= j < i ==> (#[trigger] out@[j])@ == items@[j]@,
                    decreases items@.len() - i,
                {
                    assert(decreases_to!(self => self->Array_0));
                    assert(decreases_to!(items@ => items@[i as int]));
                    out.push(items[i].copy());
                    i = i + 1;
                }
                let r = Json::Array(out);
                assert(r@->Array_0 =~= self@->Array_0);
                r
            },
            Json::Object(members) => {
                let mut out: Vec<(String, Json)> = Vec::new();
                let mut i: usize = 0;
                while i < members.len()
                    invariant
                        i <= members@.len(),
                        out@.len() == i,
                        *self == Json::Object(*members),
                        forall|j: int|
                            0 <= j < i ==> (#[trigger] out@[j]).0@ == members@[j].0@
                                && out@[j].1@ == members@[j].1@,
                    decreases members@.len() - i,
                {
                    assert(decreases_to!(self => self->Object_0));
                    assert(decreases_to!(members@ => members@[i as int]));
                    out.push((members[i].0.clone(), members[i].1.copy()));
                    i = i + 1;
                }
                let r = Json::Object(out);
                assert(r@->Object_0 =~= self@->Object_0);
                r
            },
        }
    }
}

/// The members of an object, in the order in which they are given.
pub struct Members {
    list: Vec<(String, Json)>,
}

impl View for Members {
    type V = Seq<(Seq<char>, JsonView)>;

    closed spec fn view(&self) -> Seq<(Seq<char>, JsonView)> {
        self.list@.map_values(|m: (String, Json)| (m.0@, m.1@))
    }
}

impl Members {
    pub fn new() -> (r: Members)
        ensures
            r@ == Seq::<(Seq<char>, JsonView)>::empty(),
    {
        let r = Members { list: Vec::new() };
        assert(r@ =~= Seq::<(Seq<char>, JsonView)>::empty());
        r
    }

    /// Adds a member.
    pub fn with(self, key: &str, value: Json) -> (r: Members)
        ensures
            r@ == self@.push((key@, value@)),
    {
        let mut list = self.list;
        list.push((key.to_owned(), value));
        let r = Members { list };
        assert(r@ =~= self@.push((key@, value@)));
        r
    }

    /// Adds a member that is a text.
    pub fn with_str(self, key: &str, value: &str) -> (r: Members)
        ensures
            r@ == self@.push((key@, JsonView::Str(value@))),
    {
        self.with(key, Json::string(value))
    }

    /// Adds a member that is a truth value.
    pub fn with_bool(self, key: &str, value: bool) -> (r: Members)
        ensures
            r@ == self@.push((key@, JsonView::Bool(value))),
    {
        self.with(key, Json::Bool(value))
    }

    /// Adds a member that is a text, or null where there is none.
    pub fn with_opt(self, key: &str, value: &Option<String>) -> (r: Members)
        ensures
            r@ == self@.push((key@, opt_tree(opt_view(*value)))),
    {
        match value {
            Some(s) => self.with_str(key, s.as_str()),
            None => self.with(key, Json::Null),
        }
    }

    /// The object.
    pub fn object(self) -> (r: Json)
        ensures
            r@ == JsonView::Object(self@),
    {
        let r = Json::Object(self.list);
        assert(r@->Object_0 =~= self@);
        r
    }
}

/// An optional text as a sequence of characters.
pub open spec fn opt_view(s: Option<String>) -> Option<Seq<char>> {
    match s {
        Some(s) => Some(s@),
        None => None,
    }
}

/// A number that is given as a double, as a tree.
pub open spec fn double_tree(d: Double) -> JsonView {
    JsonView::Number(Number { unsigned: None, signed: None, double: Some(d) })
}

/// A text as a tree, or null where there is none.
pub open spec fn opt_tree(value: Option<Seq<char>>) -> JsonView {
    match value {
        Some(s) => JsonView::Str(s),
        None => JsonView::Null,
    }
}

/// A member of an object is the value of the first one with its key, and only
/// an object has members.
pub proof fn members_are_found(members: Seq<(Seq<char>, JsonView)>, key: Seq<char>, i: int)
    ensures
        0 <= i < members.len() && members[i].0 == key && (forall|j: int|
            0 <= j < i ==> (#[trigger] members[j]).0 != key) ==> JsonView::Object(members).get(key)
            == Some(members[i].1),
        (forall|j: int| 0 <= j < members.len() ==> (#[trigger] members[j]).0 != key)
            ==> JsonView::Object(members).get(key) is None,
    decreases members.len(),
{
    if members.len() > 0 && members[0].0 != key {
        let rest = members.skip(1);
        members_are_found(rest, key, i - 1);
        assert(JsonView::Object(members).get(key) == JsonView::Object(rest).get(key));
        assert forall|j: int| 0 <= j < rest.len() implies rest[j] == #[trigger] members[j + 1] by {}
        if 0 <= i < members.len() && members[i].0 == key && (forall|j: int|
            0 <= j < i ==> (#[trigger] members[j]).0 != key) {
            assert forall|j: int| 0 <= j < i - 1 implies (#[trigger] rest[j]).0 != key by {
                assert(rest[j] == members[j + 1]);
            }
            assert(rest[i - 1] == members[i]);
        }
        if forall|j: int| 0 <= j < members.len() ==> (#[trigger] members[j]).0 != key {
            assert forall|j: int| 0 <= j < rest.len() implies (#[trigger] rest[j]).0 != key by {
                assert(rest[j] == members[j + 1]);
            }
        }
    }
}

/// A value under a key is read as a text, a truth value, a number or a list
/// exactly where it is one, and the readings with a replacement give the
/// replacement exactly where there is nothing to read.
pub proof fn readings_go_by_type(value: JsonView, key: Seq<char>, other: Seq<char>, n: i64)
    ensures
        !(value is Object) ==> value.get(key) is None,
        match value.get(key) {
            Some(JsonView::Str(s)) => value.text_at(key) == Some(s) && value.text_or(key, other)
                == s,
            _ => value.text_at(key) is None && value.text_or(key, other) == other,
        },
        match value.get(key) {
            Some(JsonView::Bool(b)) => value.boolean_at(key) == Some(b),
            _ => value.boolean_at(key) is None,
        },
        match value.get(key) {
            Some(JsonView::Number(m)) => value.signed_at(key) == m.signed && value.unsigned_at(key)
                == m.unsigned && value.double_at(key) == m.double && value.signed_or(key, n) == (
            match m.signed {
                Some(i) => i,
                None => n,
            }),
            _ => value.signed_at(key) is None && value.unsigned_at(key) is None && value.double_at(
                key,
            ) is None && value.signed_or(key, n) == n,
        },
        match value.get(key) {
            Some(JsonView::Array(items)) => value.items_at(key) == Some(items),
            _ => value.items_at(key) is None,
        },
        value.get(key) matches Some(member) ==> value.object_at(key) == member,
        value.get(key) is None ==> value.object_at(key) == JsonView::Object(Seq::empty()),
{
}

/// An integer is read back from the number that is made of it, signed and
/// unsigned, exactly where it is in range.
pub proof fn integers_are_read_back(n: int)
    ensures
        integer_number(n).unsigned is Some <==> 0 <= n <= 18_446_744_073_709_551_615,
        integer_number(n).unsigned matches Some(m) ==> m == n,
        integer_number(n).signed is Some <==> -9_223_372_036_854_775_808 <= n
            <= 9_223_372_036_854_775_807,
        integer_number(n).signed matches Some(m) ==> m == n,
        integer_number(n).double is Some,
{
}

} // verus!
