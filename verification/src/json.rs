//! JSON values the library can reason about, and the `serde_json` calls that
//! read them from text and write them back.

use serde_json::{Number, Value};
use vstd::prelude::*;

verus! {

/// What a JSON value is: the mathematical model of [`Json`].
pub enum JsonView {
    Null,
    Bool(bool),
    /// A number that is an integer in the range of `i64`.
    Int(int),
    /// Any other number.
    Num(Number),
    Str(Seq<char>),
    Array(Seq<JsonView>),
    Object(Map<Seq<char>, JsonView>),
}

/// A JSON value.
#[derive(Debug, PartialEq)]
pub enum Json {
    Null,
    Bool(bool),
    /// A number that is an integer in the range of `i64`.
    Int(i64),
    /// A number as `serde_json` holds it.
    Num(Number),
    Str(String),
    Array(Vec<Json>),
    /// The members of an object. Where a name occurs twice the last one holds.
    Object(Vec<(String, Json)>),
}

/// The map that a list of members stands for.
pub open spec fn members(s: Seq<(String, Json)>) -> Map<Seq<char>, JsonView>
    decreases s,
{
    if s.len() == 0 {
        Map::empty()
    } else {
        members(s.drop_last()).insert(s.last().0@, s.last().1.view())
    }
}

/// The models of a sequence of values.
pub open spec fn values(s: Seq<Json>) -> Seq<JsonView>
    decreases s,
{
    Seq::new(
        s.len(),
        |i: int|
            if 0 <= i < s.len() {
                s[i].view()
            } else {
                JsonView::Null
            },
    )
}

impl Json {
    /// The value as the contracts see it.
    pub open spec fn view(&self) -> JsonView
        decreases self,
    {
        match *self {
            Json::Null => JsonView::Null,
            Json::Bool(b) => JsonView::Bool(b),
            Json::Int(i) => JsonView::Int(i as int),
            Json::Num(n) => number_json(n),
            Json::Str(s) => JsonView::Str(s@),
            Json::Array(v) => JsonView::Array(values(v@)),
            Json::Object(v) => JsonView::Object(members(v@)),
        }
    }
}

impl JsonView {
    /// The member of an object under `key`, if there is one. Anything but an
    /// object has no members.
    pub open spec fn get(self, key: Seq<char>) -> Option<JsonView> {
        match self {
            JsonView::Object(m) if m.contains_key(key) => Some(m[key]),
            _ => None,
        }
    }

    /// Whether an object has a member under `key`.
    pub open spec fn has(self, key: Seq<char>) -> bool {
        self.get(key) is Some
    }
}

/// A key of the member map is a name of the list, and its value is that of the
/// last member with that name.
proof fn lemma_members_last(s: Seq<(String, Json)>, i: int)
    requires
        0 <= i < s.len(),
        forall|j: int| i < j < s.len() ==> #[trigger] s[j].0@ != s[i].0@,
    ensures
        members(s).contains_key(s[i].0@),
        members(s)[s[i].0@] == s[i].1.view(),
    decreases s.len(),
{
    if i < s.len() - 1 {
        assert(s[s.len() - 1].0@ != s[i].0@);
        let t = s.drop_last();
        assert forall|j: int| i < j < t.len() implies #[trigger] t[j].0@ != t[i].0@ by {
            assert(t[j] == s[j]);
        }
        lemma_members_last(t, i);
        assert(t[i] == s[i]);
    }
}

/// A name that no member has is no key of the member map.
proof fn lemma_members_absent(s: Seq<(String, Json)>, key: Seq<char>)
    requires
        forall|j: int| 0 <= j < s.len() ==> #[trigger] s[j].0@ != key,
    ensures
        !members(s).contains_key(key),
    decreases s.len(),
{
    if s.len() > 0 {
        let t = s.drop_last();
        assert forall|j: int| 0 <= j < t.len() implies #[trigger] t[j].0@ != key by {
            assert(t[j] == s[j]);
        }
        assert(s[s.len() - 1].0@ != key);
        lemma_members_absent(t, key);
    }
}

/// Appends a member to a list of members.
pub fn push_member(entries: &mut Vec<(String, Json)>, name: &str, value: Json)
    ensures
        members(final(entries)@) == members(old(entries)@).insert(name@, value.view()),
{
    let ghost before = entries@;
    entries.push((name.to_owned(), value));
    assert(entries@.drop_last() =~= before);
}

/// The member under `key` of a list of members.
pub fn find_member<'a>(entries: &'a Vec<(String, Json)>, key: &str) -> (r: Option<&'a Json>)
    ensures
        match r {
            Some(j) => members(entries@).contains_key(key@) && members(entries@)[key@] == j.view(),
            None => !members(entries@).contains_key(key@),
        },
{
    let wanted: String = key.to_owned();
    let mut i: usize = entries.len();
    while i > 0
        invariant
            i <= entries@.len(),
            wanted@ == key@,
            forall|j: int| i <= j < entries@.len() ==> #[trigger] entries@[j].0@ != key@,
        decreases i,
    {
        i = i - 1;
        if entries[i].0 == wanted {
            proof {
                lemma_members_last(entries@, i as int);
            }
            return Some(&entries[i].1);
        }
    }
    proof {
        lemma_members_absent(entries@, key@);
    }
    None
}

impl Json {
    /// The member of an object under `key`.
    pub fn get(&self, key: &str) -> (r: Option<&Json>)
        ensures
            match r {
                Some(j) => self.view().get(key@) == Some(j.view()),
                None => self.view().get(key@) is None,
            },
    {
        match self {
            Json::Object(entries) => find_member(entries, key),
            _ => None,
        }
    }
}

/// `serde_json::Value`, any JSON value.
#[verifier::external_type_specification]
#[verifier::external_body]
pub struct ExValue(serde_json::Value);

/// `serde_json::Number`, a JSON number.
#[verifier::external_type_specification]
#[verifier::external_body]
pub struct ExNumber(serde_json::Number);

/// `serde_json::Error`, why text was not read as a value.
#[verifier::external_type_specification]
#[verifier::external_body]
pub struct ExError(serde_json::Error);

/// What a `serde_json::Value` holds.
pub uninterp spec fn json_of(value: Value) -> JsonView;

/// What `serde_json::from_str` makes of a text: the value, or the text of the
/// error.
pub uninterp spec fn json_parse(text: Seq<char>) -> Result<JsonView, Seq<char>>;

/// The message that `serde_json::Error` displays.
pub uninterp spec fn json_error_text(error: serde_json::Error) -> Seq<char>;

/// The compact text that `serde_json::to_string` writes for a value.
pub uninterp spec fn json_text(value: JsonView) -> Seq<char>;

/// The `i64` that `serde_json::Number::as_i64` reads out of a number.
pub uninterp spec fn number_i64(number: Number) -> Option<i64>;

/// The number that `serde_json::Number::from` makes of a `u64`.
pub uninterp spec fn number_u64(u: u64) -> Number;

/// The message with which `serde_json::from_value` refuses a value that is not
/// a string where one is expected.
pub uninterp spec fn not_a_string_text(value: JsonView) -> Seq<char>;

/// One level of a `serde_json::Value`.
pub enum Node {
    Null,
    Bool(bool),
    Num(Number),
    Str(String),
    Array(Vec<Value>),
    Object(Vec<(String, Value)>),
}

/// The model of a number.
pub open spec fn number_json(n: Number) -> JsonView {
    match number_i64(n) {
        Some(i) => JsonView::Int(i as int),
        None => JsonView::Num(n),
    }
}

/// The map that a list of members with `serde_json` values stands for.
pub open spec fn raw_members(s: Seq<(String, Value)>) -> Map<Seq<char>, JsonView>
    decreases s.len(),
{
    if s.len() == 0 {
        Map::empty()
    } else {
        raw_members(s.drop_last()).insert(s.last().0@, json_of(s.last().1))
    }
}

/// What one level holds, its children taken for what they hold.
pub open spec fn node_json(n: Node) -> JsonView {
    match n {
        Node::Null => JsonView::Null,
        Node::Bool(b) => JsonView::Bool(b),
        Node::Num(n) => number_json(n),
        Node::Str(s) => JsonView::Str(s@),
        Node::Array(v) => JsonView::Array(v@.map_values(|x: Value| json_of(x))),
        Node::Object(v) => JsonView::Object(raw_members(v@)),
    }
}

/// No name occurs twice in a list of members.
pub open spec fn distinct_names(s: Seq<(String, Value)>) -> bool {
    forall|i: int, j: int| 0 <= i < j < s.len() ==> #[trigger] s[i].0@ != #[trigger] s[j].0@
}

/// `serde_json::from_str` reads one JSON value from the whole text. What comes
/// back is the value, or the error, that the text alone determines.
#[verifier::external_body]
fn value_from_str(text: &str) -> (r: Result<Value, serde_json::Error>)
    ensures
        match r {
            Ok(v) => json_parse(text@) == Ok::<JsonView, Seq<char>>(json_of(v)),
            Err(e) => json_parse(text@) == Err::<JsonView, Seq<char>>(json_error_text(e)),
        },
{
    serde_json::from_str(text)
}

/// How many levels of arrays and objects `serde_json::from_str` reads.
pub const READ_DEPTH: usize = 127;

/// Whether a value nests at most `depth` levels deep and its only numbers are
/// integers in the range of `i64`.
pub open spec fn plain(v: JsonView, depth: nat) -> bool
    decreases depth,
{
    match v {
        JsonView::Num(_) => false,
        JsonView::Array(items) => depth > 0 && forall|i: int|
            0 <= i < items.len() ==> plain(#[trigger] items[i], (depth - 1) as nat),
        JsonView::Object(m) => depth > 0 && forall|key: Seq<char>| #[trigger]
            m.contains_key(key) ==> plain(m[key], (depth - 1) as nat),
        _ => true,
    }
}

/// Whether a plain value is read from a text. Nothing is said of other values.
pub open spec fn reads_back(text: Seq<char>, v: JsonView) -> bool {
    plain(v, READ_DEPTH as nat) ==> json_parse(text) == Ok::<JsonView, Seq<char>>(v)
}

/// `serde_json::to_string` writes a value as compact text. It does not fail on
/// a `Value`, whose keys are strings, and the order of an object's members is
/// that of its sorted keys, so the text is determined by what the value holds.
/// `serde_json::from_str` reads the value back, where it does not nest deeper
/// than that function reads and has no number but integers, whose digits both
/// keep; nothing is claimed of the text of other numbers.
#[verifier::external_body]
fn value_to_string(value: &Value) -> (r: String)
    ensures
        r@ == json_text(json_of(*value)),
        reads_back(r@, json_of(*value)),
{
    serde_json::to_string(value).unwrap_or_default()
}

/// The variants of `serde_json::Value`, told apart. An object's `Map` hands
/// out each of its keys once.
#[verifier::external_body]
fn value_into_node(value: Value) -> (n: Node)
    ensures
        node_json(n) == json_of(value),
        n matches Node::Object(entries) ==> distinct_names(entries@),
{
    match value {
        Value::Null => Node::Null,
        Value::Bool(b) => Node::Bool(b),
        Value::Number(n) => Node::Num(n),
        Value::String(s) => Node::Str(s),
        Value::Array(items) => Node::Array(items),
        Value::Object(map) => Node::Object(map.into_iter().collect()),
    }
}

/// The variants of `serde_json::Value`, put together. An object's `Map` is
/// collected from members with distinct names and holds each of them.
#[verifier::external_body]
fn node_into_value(n: Node) -> (value: Value)
    requires
        n matches Node::Object(entries) ==> distinct_names(entries@),
    ensures
        json_of(value) == node_json(n),
{
    match n {
        Node::Null => Value::Null,
        Node::Bool(b) => Value::Bool(b),
        Node::Num(n) => Value::Number(n),
        Node::Str(s) => Value::String(s),
        Node::Array(items) => Value::Array(items),
        Node::Object(entries) => Value::Object(entries.into_iter().collect()),
    }
}

/// `Number::clone` copies the number.
pub assume_specification[ <serde_json::Number as std::clone::Clone>::clone ](
    number: &serde_json::Number,
) -> (r: serde_json::Number)
    ensures
        r == *number,
;

/// `Number::as_i64` gives the number as an `i64` where it is one.
#[verifier::external_body]
fn number_as_i64(number: &Number) -> (r: Option<i64>)
    ensures
        r == number_i64(*number),
{
    number.as_i64()
}

/// `Number::from` makes a number of an `i64`, and `as_i64` reads it back.
#[verifier::external_body]
fn number_from_i64(i: i64) -> (r: Number)
    ensures
        number_i64(r) == Some(i),
{
    Number::from(i)
}

/// `Number::from` makes a number of a `u64`. One beyond the range of `i64` is
/// none that `as_i64` gives.
#[verifier::external_body]
fn number_from_u64(u: u64) -> (r: Number)
    ensures
        r == number_u64(u),
        u > i64::MAX ==> number_i64(r) is None,
{
    Number::from(u)
}

/// The text that `serde_json::Error` displays.
#[verifier::external_body]
pub(crate) fn error_text(error: &serde_json::Error) -> (r: String)
    ensures
        r@ == json_error_text(*error),
{
    error.to_string()
}

/// `serde_json::from_value` into a `String` takes the string out of a string
/// value and refuses any other value with a message that the value determines.
#[verifier::external_body]
fn string_from_value(value: Value) -> (r: Result<String, serde_json::Error>)
    ensures
        match r {
            Ok(s) => json_of(value) == JsonView::Str(s@),
            Err(e) => !(json_of(value) is Str) && json_error_text(e) == not_a_string_text(
                json_of(value),
            ),
        },
{
    serde_json::from_value::<String>(value)
}

/// With distinct names, every member of the list is found under its name.
proof fn lemma_raw_members_index(s: Seq<(String, Value)>, i: int)
    requires
        0 <= i < s.len(),
        distinct_names(s),
    ensures
        raw_members(s).contains_key(s[i].0@),
        raw_members(s)[s[i].0@] == json_of(s[i].1),
    decreases s.len(),
{
    if i < s.len() - 1 {
        let t = s.drop_last();
        assert(distinct_names(t)) by {
            assert forall|i: int, j: int| 0 <= i < j < t.len() implies #[trigger] t[i].0@
                != #[trigger] t[j].0@ by {
                assert(t[i] == s[i] && t[j] == s[j]);
            }
        }
        lemma_raw_members_index(t, i);
        assert(t[i] == s[i]);
        assert(s[i].0@ != s[s.len() - 1].0@);
    }
}

/// The member map of a list has finitely many keys.
proof fn lemma_raw_members_finite(s: Seq<(String, Value)>)
    ensures
        raw_members(s).dom().finite(),
    decreases s.len(),
{
    if s.len() > 0 {
        lemma_raw_members_finite(s.drop_last());
    }
}

/// Two lists of members that agree name by name and value by value stand for
/// one map.
proof fn lemma_members_agree(a: Seq<(String, Json)>, b: Seq<(String, Value)>)
    requires
        a.len() == b.len(),
        forall|i: int|
            0 <= i < a.len() ==> (#[trigger] a[i]).0@ == b[i].0@ && a[i].1.view() == json_of(
                b[i].1,
            ),
    ensures
        members(a) == raw_members(b),
    decreases a.len(),
{
    if a.len() > 0 {
        let s = a.drop_last();
        let t = b.drop_last();
        assert forall|i: int| 0 <= i < s.len() implies (#[trigger] s[i]).0@ == t[i].0@
            && s[i].1.view() == json_of(t[i].1) by {
            assert(s[i] == a[i]);
        }
        lemma_members_agree(s, t);
        assert(a[a.len() - 1].0@ == b[b.len() - 1].0@);
    }
}

/// The value that a `serde_json::Value` holds.
fn json_from_value(value: Value) -> (j: Json)
    ensures
        j.view() == json_of(value),
    decreases json_of(value),
{
    let ghost whole = json_of(value);
    match value_into_node(value) {
        Node::Null => Json::Null,
        Node::Bool(b) => Json::Bool(b),
        Node::Num(n) => match number_as_i64(&n) {
            Some(i) => Json::Int(i),
            None => Json::Num(n),
        },
        Node::Str(s) => Json::Str(s),
        Node::Array(items) => {
            let ghost all = items@;
            let mut out: Vec<Json> = Vec::new();
            for item in it: items
                invariant
                    it.seq() == all,
                    whole == json_of(value),
                    whole == JsonView::Array(all.map_values(|x: Value| json_of(x))),
                    out@.len() == it.index(),
                    forall|i: int|
                        0 <= i < out@.len() ==> (#[trigger] out@[i]).view() == json_of(all[i]),
            {
                proof {
                    let s = whole->Array_0;
                    assert(s[it.index() as int] == json_of(item));
                    assert(decreases_to!(whole => s));
                    assert(decreases_to!(s => s[it.index() as int]));
                }
                out.push(json_from_value(item));
            }
            assert(values(out@) =~= all.map_values(|x: Value| json_of(x)));
            Json::Array(out)
        },
        Node::Object(entries) => {
            let ghost all = entries@;
            let mut out: Vec<(String, Json)> = Vec::new();
            for entry in it: entries
                invariant
                    it.seq() == all,
                    whole == json_of(value),
                    whole == JsonView::Object(raw_members(all)),
                    distinct_names(all),
                    out@.len() == it.index(),
                    forall|i: int|
                        0 <= i < out@.len() ==> (#[trigger] out@[i]).0@ == all[i].0@
                            && out@[i].1.view() == json_of(all[i].1),
            {
                let (name, child) = entry;
                proof {
                    let m = whole->Object_0;
                    lemma_raw_members_index(all, it.index() as int);
                    lemma_raw_members_finite(all);
                    assert(m[name@] == json_of(child));
                    assert(decreases_to!(whole => m));
                    assert(decreases_to!(m => m[name@]));
                }
                out.push((name, json_from_value(child)));
            }
            proof {
                lemma_members_agree(out@, all);
            }
            Json::Object(out)
        },
    }
}

/// A list of values as a list of `serde_json` values.
fn values_from_json(items: &Vec<Json>) -> (out: Vec<Value>)
    ensures
        out@.map_values(|x: Value| json_of(x)) == values(items@),
    decreases items,
{
    let mut out: Vec<Value> = Vec::new();
    for i in 0..items.len()
        invariant
            out@.len() == i,
            forall|k: int| 0 <= k < i ==> json_of(#[trigger] out@[k]) == items@[k].view(),
    {
        proof {
            assert(decreases_to!(items => items@));
            assert(decreases_to!(items@ => items@[i as int]));
        }
        out.push(value_from_json(&items[i]));
    }
    assert(out@.map_values(|x: Value| json_of(x)) =~= values(items@));
    out
}

/// The name at `i`, given another value, is all that changes in the member map.
proof fn lemma_raw_members_update(s: Seq<(String, Value)>, i: int, entry: (String, Value))
    requires
        0 <= i < s.len(),
        distinct_names(s),
        entry.0@ == s[i].0@,
    ensures
        distinct_names(s.update(i, entry)),
        raw_members(s.update(i, entry)) == raw_members(s).insert(entry.0@, json_of(entry.1)),
    decreases s.len(),
{
    let t = s.update(i, entry);
    let front = s.drop_last();
    assert forall|a: int, b: int| 0 <= a < b < t.len() implies #[trigger] t[a].0@
        != #[trigger] t[b].0@ by {
        assert(t[a].0@ == s[a].0@ && t[b].0@ == s[b].0@);
    }
    if i == s.len() - 1 {
        assert(t.drop_last() =~= front);
        assert(raw_members(t) =~= raw_members(s).insert(entry.0@, json_of(entry.1)));
    } else {
        assert(distinct_names(front)) by {
            assert forall|a: int, b: int| 0 <= a < b < front.len() implies #[trigger] front[a].0@
                != #[trigger] front[b].0@ by {
                assert(front[a] == s[a] && front[b] == s[b]);
            }
        }
        lemma_raw_members_update(front, i, entry);
        assert(t.drop_last() =~= front.update(i, entry));
        assert(s[i].0@ != s[s.len() - 1].0@);
        assert(raw_members(t) =~= raw_members(s).insert(entry.0@, json_of(entry.1)));
    }
}

/// Puts a member into a list with distinct names. The value of a name that is
/// in the list already is replaced.
fn put_member(out: &mut Vec<(String, Value)>, name: &String, value: Value)
    requires
        distinct_names(old(out)@),
    ensures
        distinct_names(final(out)@),
        raw_members(final(out)@) == raw_members(old(out)@).insert(name@, json_of(value)),
{
    let ghost before = out@;
    let n: usize = out.len();
    for i in 0..n
        invariant
            n == before.len(),
            out@ == before,
            distinct_names(before),
            before == old(out)@,
            forall|k: int| 0 <= k < i ==> #[trigger] before[k].0@ != name@,
    {
        if out[i].0 == *name {
            let entry: (String, Value) = (name.clone(), value);
            proof {
                lemma_raw_members_update(before, i as int, entry);
            }
            out.set(i, entry);
            return;
        }
    }
    out.push((name.clone(), value));
    assert(out@.drop_last() =~= before);
    assert forall|a: int, b: int| 0 <= a < b < out@.len() implies #[trigger] out@[a].0@
        != #[trigger] out@[b].0@ by {
        if b < before.len() {
            assert(out@[a] == before[a] && out@[b] == before[b]);
        } else {
            assert(out@[a] == before[a]);
        }
    }
}

/// The `serde_json::Value` that holds a value. Where a name of an object occurs
/// twice, the last member of that name goes into it.
fn value_from_json(j: &Json) -> (value: Value)
    ensures
        json_of(value) == j.view(),
    decreases j,
{
    match j {
        Json::Null => node_into_value(Node::Null),
        Json::Bool(b) => node_into_value(Node::Bool(*b)),
        Json::Int(i) => node_into_value(Node::Num(number_from_i64(*i))),
        Json::Num(n) => node_into_value(Node::Num(n.clone())),
        Json::Str(s) => node_into_value(Node::Str(s.clone())),
        Json::Array(items) => node_into_value(Node::Array(values_from_json(items))),
        Json::Object(entries) => {
            let mut out: Vec<(String, Value)> = Vec::new();
            assert(entries@.take(0) =~= Seq::<(String, Json)>::empty());
            for i in 0..entries.len()
                invariant
                    *j == Json::Object(*entries),
                    distinct_names(out@),
                    raw_members(out@) == members(entries@.take(i as int)),
            {
                proof {
                    assert(decreases_to!(j => j->Object_0));
                    assert(decreases_to!(entries => entries@));
                    assert(decreases_to!(entries@ => entries@[i as int]));
                    assert(decreases_to!(entries@[i as int] => entries@[i as int].1));
                    assert(entries@.take(i + 1).drop_last() =~= entries@.take(i as int));
                    assert(entries@.take(i + 1).last() == entries@[i as int]);
                }
                let value = value_from_json(&entries[i].1);
                put_member(&mut out, &entries[i].0, value);
            }
            assert(entries@.take(entries@.len() as int) =~= entries@);
            node_into_value(Node::Object(out))
        },
    }
}

/// Two lists of members that agree name by name and value by value stand for
/// one map.
proof fn lemma_members_same(a: Seq<(String, Json)>, b: Seq<(String, Json)>)
    requires
        a.len() == b.len(),
        forall|i: int|
            0 <= i < a.len() ==> (#[trigger] a[i]).0@ == b[i].0@ && a[i].1.view()
                == b[i].1.view(),
    ensures
        members(a) == members(b),
    decreases a.len(),
{
    if a.len() > 0 {
        let s = a.drop_last();
        let t = b.drop_last();
        assert forall|i: int| 0 <= i < s.len() implies (#[trigger] s[i]).0@ == t[i].0@
            && s[i].1.view() == t[i].1.view() by {
            assert(s[i] == a[i]);
        }
        lemma_members_same(s, t);
        assert(a[a.len() - 1].0@ == b[b.len() - 1].0@);
    }
}

/// Copies a list of values.
fn copy_values(items: &Vec<Json>) -> (out: Vec<Json>)
    ensures
        values(out@) == values(items@),
    decreases items,
{
    let mut out: Vec<Json> = Vec::new();
    for i in 0..items.len()
        invariant
            out@.len() == i,
            forall|k: int| 0 <= k < i ==> (#[trigger] out@[k]).view() == items@[k].view(),
    {
        proof {
            assert(decreases_to!(items => items@));
            assert(decreases_to!(items@ => items@[i as int]));
        }
        out.push(copy_json(&items[i]));
    }
    assert(values(out@) =~= values(items@));
    out
}

/// Copies a value, part by part.
fn copy_json(j: &Json) -> (r: Json)
    ensures
        r.view() == j.view(),
    decreases j,
{
    match j {
        Json::Null => Json::Null,
        Json::Bool(b) => Json::Bool(*b),
        Json::Int(i) => Json::Int(*i),
        Json::Num(n) => Json::Num(n.clone()),
        Json::Str(s) => Json::Str(s.clone()),
        Json::Array(items) => Json::Array(copy_values(items)),
        Json::Object(entries) => {
            let mut out: Vec<(String, Json)> = Vec::new();
            for i in 0..entries.len()
                invariant
                    *j == Json::Object(*entries),
                    out@.len() == i,
                    forall|k: int|
                        0 <= k < i ==> (#[trigger] entries@[k]).0@ == out@[k].0@
                            && entries@[k].1.view() == out@[k].1.view(),
            {
                proof {
                    assert(decreases_to!(j => j->Object_0));
                    assert(decreases_to!(entries => entries@));
                    assert(decreases_to!(entries@ => entries@[i as int]));
                    assert(decreases_to!(entries@[i as int] => entries@[i as int].1));
                }
                out.push((entries[i].0.clone(), copy_json(&entries[i].1)));
            }
            proof {
                lemma_members_same(entries@, out@);
            }
            Json::Object(out)
        },
    }
}

impl Clone for Json {
    fn clone(&self) -> (r: Json)
        ensures
            r.view() == self.view(),
    {
        copy_json(self)
    }
}

/// Reads one JSON value from the whole of a text.
pub fn parse_json(text: &str) -> (r: Result<Json, serde_json::Error>)
    ensures
        match r {
            Ok(j) => json_parse(text@) == Ok::<JsonView, Seq<char>>(j.view()),
            Err(e) => json_parse(text@) == Err::<JsonView, Seq<char>>(json_error_text(e)),
        },
{
    match value_from_str(text) {
        Ok(v) => Ok(json_from_value(v)),
        Err(e) => Err(e),
    }
}

/// A place in a list as a JSON number.
pub open spec fn index_json(i: usize) -> JsonView {
    if i <= i64::MAX {
        JsonView::Int(i as int)
    } else {
        JsonView::Num(number_u64(i as u64))
    }
}

impl Json {
    /// A place in a list as a JSON number.
    pub fn from_index(i: usize) -> (r: Json)
        ensures
            r.view() == index_json(i),
    {
        let wide: u64 = i as u64;
        if wide <= i64::MAX as u64 {
            Json::Int(wide as i64)
        } else {
            Json::Num(number_from_u64(wide))
        }
    }

    /// The value as compact JSON text. A plain value is read back from it.
    pub fn to_text(&self) -> (r: String)
        ensures
            r@ == json_text(self.view()),
            reads_back(r@, self.view()),
    {
        value_to_string(&value_from_json(self))
    }

    /// The string that the value is, or the message that says it is none.
    pub fn expect_string(&self) -> (r: Result<String, String>)
        ensures
            match r {
                Ok(s) => self.view() == JsonView::Str(s@),
                Err(m) => !(self.view() is Str) && m@ == not_a_string_text(self.view()),
            },
    {
        match string_from_value(value_from_json(self)) {
            Ok(s) => Ok(s),
            Err(e) => Err(error_text(&e)),
        }
    }

    /// The value as an integer in the range of `i64`, if it is one.
    pub fn as_i64(&self) -> (r: Option<i64>)
        ensures
            match r {
                Some(i) => self.view() == JsonView::Int(i as int),
                None => !(self.view() is Int),
            },
    {
        match self {
            Json::Int(i) => Some(*i),
            Json::Num(n) => number_as_i64(n),
            _ => None,
        }
    }
}

/// An object has a member under a name exactly where its list has one of that
/// name, and the last of them is the one it has.
pub proof fn law_last_member_of_a_name_holds(
    before: Seq<(String, Json)>,
    name: String,
    value: Json,
    after: Seq<(String, Json)>,
    other: Seq<char>,
)
    requires
        forall|i: int| 0 <= i < after.len() ==> #[trigger] after[i].0@ != name@,
    ensures
        ({
            let all = before.push((name, value)) + after;
            &&& members(all).contains_key(name@)
            &&& members(all)[name@] == value.view()
            &&& (forall|i: int| 0 <= i < all.len() ==> #[trigger] all[i].0@ != other)
                ==> !members(all).contains_key(other)
        }),
        !members(Seq::empty()).contains_key(other),
{
    let all = before.push((name, value)) + after;
    let i = before.len() as int;
    assert(all[i] == (name, value));
    assert forall|j: int| i < j < all.len() implies #[trigger] all[j].0@ != all[i].0@ by {
        assert(all[j] == after[j - i - 1]);
    }
    lemma_members_last(all, i);
    if forall|i: int| 0 <= i < all.len() ==> #[trigger] all[i].0@ != other {
        lemma_members_absent(all, other);
    }
}

/// A place in a list is the number that it is, as far as `i64` goes.
pub proof fn law_a_place_is_its_number(i: usize)
    ensures
        i <= i64::MAX ==> index_json(i) == JsonView::Int(i as int),
        i > i64::MAX ==> index_json(i) is Num,
{
}

/// A value stands for what it is: every item of an array in its place, and the
/// members of an object by name. A number that `as_i64` reads is that integer.
pub proof fn law_model_of_a_value(v: Json, i: int)
    ensures
        v is Null ==> v.view() is Null,
        v matches Json::Bool(b) ==> v.view() == JsonView::Bool(b),
        v matches Json::Int(n) ==> v.view() == JsonView::Int(n as int),
        v matches Json::Str(s) ==> v.view() == JsonView::Str(s@),
        v matches Json::Num(n) ==> match number_i64(n) {
            Some(k) => v.view() == JsonView::Int(k as int),
            None => v.view() == JsonView::Num(n),
        },
        v matches Json::Array(items) ==> {
            &&& v.view() is Array
            &&& v.view()->Array_0.len() == items@.len()
            &&& 0 <= i < items@.len() ==> v.view()->Array_0[i] == items@[i].view()
        },
        v matches Json::Object(entries) ==> v.view() == JsonView::Object(members(entries@)),
{
}

/// A member is found where the object has it, whatever its value is, and only
/// objects have members.
pub proof fn law_what_a_lookup_finds(v: JsonView, name: Seq<char>)
    ensures
        v matches JsonView::Object(m) ==> (v.get(name) is Some <==> m.contains_key(name)) && (
        m.contains_key(name) ==> v.get(name) == Some(m[name])),
        !(v is Object) ==> v.get(name) is None,
        v.has(name) <==> v.get(name) is Some,
{
}

} // verus!
