//! Many terms in one question: how the terms are written down, and how the
//! verdicts are read from the answer.

use crate::json::{find_member, parse_json, push_member, Json, JsonView};
use crate::prompt::{nfc_normalize_context, wrap_in};
use crate::text::{
    chars_of, comes_before, parse_index, starts_with, string_of, stripped_end, stripped_start,
    trimmed,
};
use std::collections::HashMap;
use vstd::prelude::*;

verus! {

broadcast use vstd::std_specs::hash::group_hash_axioms;

/// A term that is to be confirmed.
#[derive(Debug)]
pub struct BulkConfirmTerm {
    /// The term as it stands in the text.
    pub found: String,
    /// The English anchor it should have.
    pub english: String,
    /// The text around it.
    pub context: String,
}

impl Clone for BulkConfirmTerm {
    fn clone(&self) -> (r: BulkConfirmTerm)
        ensures
            r.found@ == self.found@,
            r.english@ == self.english@,
            r.context@ == self.context@,
    {
        BulkConfirmTerm {
            found: self.found.clone(),
            english: self.english.clone(),
            context: self.context.clone(),
        }
    }
}

/// A term as it is put to the client, under its place in the list. What comes
/// from the text stands between delimiters.
pub open spec fn term_json(tag: Seq<char>, i: int, term: BulkConfirmTerm) -> JsonView {
    JsonView::Object(
        Map::<Seq<char>, JsonView>::empty().insert(
            "id"@,
            crate::json::index_json(i as usize),
        ).insert("found"@, JsonView::Str(crate::prompt::wrapped(tag, term.found@))).insert(
            "english"@,
            JsonView::Str(term.english@),
        ).insert(
            "context"@,
            JsonView::Str(crate::prompt::wrapped(tag, crate::prompt::nfc(term.context@))),
        ),
    )
}

/// The terms as they are put to the client.
pub open spec fn terms_json(tag: Seq<char>, terms: Seq<BulkConfirmTerm>) -> JsonView {
    JsonView::Array(Seq::new(terms.len(), |i: int| term_json(tag, i, terms[i])))
}

/// The question for many terms.
pub open spec fn bulk_question(tag: Seq<char>, terms: Seq<BulkConfirmTerm>) -> Seq<char> {
    "Per term: true=mainland CN, false=not.\n"@ + crate::json::json_text(terms_json(tag, terms))
        + "\nJSON:{\"0\":true,\"1\":false}"@
}

/// Writes the question for many terms.
pub fn write_bulk_question(tag: &str, terms: &[BulkConfirmTerm]) -> (r: String)
    ensures
        r@ == bulk_question(tag@, terms@),
{
    let mut items: Vec<Json> = Vec::new();
    for i in 0..terms.len()
        invariant
            items@.len() == i,
            forall|k: int|
                0 <= k < i ==> (#[trigger] items@[k]).view() == term_json(tag@, k, terms@[k]),
    {
        let context = nfc_normalize_context(terms[i].context.as_str());
        let mut entries: Vec<(String, Json)> = Vec::new();
        push_member(&mut entries, "id", Json::from_index(i));
        push_member(&mut entries, "found", Json::Str(wrap_in(tag, terms[i].found.as_str())));
        push_member(&mut entries, "english", Json::Str(terms[i].english.clone()));
        push_member(&mut entries, "context", Json::Str(wrap_in(tag, context.as_str())));
        items.push(Json::Object(entries));
    }
    assert(crate::json::values(items@) =~= terms_json(tag@, terms@)->Array_0);
    let list = Json::Array(items);
    let text = list.to_text();
    let mut r: String = "Per term: true=mainland CN, false=not.\n".to_owned();
    r.append(text.as_str());
    r.append("\nJSON:{\"0\":true,\"1\":false}");
    r
}

/// An answer without the white space around it, and without the marks of a
/// code block.
pub open spec fn unfenced(text: Seq<char>) -> Seq<char> {
    let t = crate::text::trim(text);
    if "```"@.is_prefix_of(t) {
        crate::text::trim(
            crate::text::strip_end(
                crate::text::strip_start(crate::text::strip_start(t, "```json"@), "```"@),
                "```"@,
            ),
        )
    } else {
        t
    }
}

/// Takes an answer out of its white space and the marks of a code block.
pub fn unfence(text: &str) -> (r: String)
    ensures
        r@ == unfenced(text@),
{
    let all = chars_of(text);
    let fence = chars_of("```");
    let opening = chars_of("```json");
    let t = trimmed(all.as_slice());
    if starts_with(t, fence.as_slice()) {
        let inner = stripped_start(stripped_start(t, opening.as_slice()), fence.as_slice());
        string_of(trimmed(stripped_end(inner, fence.as_slice())))
    } else {
        string_of(t)
    }
}

/// Whether the member under `key` is a verdict on the term at `index`.
pub open spec fn is_verdict(m: Map<Seq<char>, JsonView>, index: usize, key: Seq<char>) -> bool {
    m.contains_key(key) && m[key] is Bool && crate::text::index_of(key) == Some(index)
}

/// Whether the member under `key` is the verdict that holds for the term at
/// `index`: where the place is written in several ways, the one that is last
/// in the order of texts.
pub open spec fn is_last_verdict(
    m: Map<Seq<char>, JsonView>,
    index: usize,
    key: Seq<char>,
) -> bool {
    is_verdict(m, index, key) && forall|other: Seq<char>| #[trigger]
        is_verdict(m, index, other) ==> !crate::text::text_lt(key, other)
}

/// The verdicts that an object holds.
pub open spec fn verdicts(m: Map<Seq<char>, JsonView>) -> Map<usize, bool> {
    Map::new(
        |index: usize| exists|key: Seq<char>| is_verdict(m, index, key),
        |index: usize| m[choose|key: Seq<char>| is_last_verdict(m, index, key)]->Bool_0,
    )
}

/// Whether a list of members has `key` among its names.
spec fn is_name(entries: Seq<(String, Json)>, key: Seq<char>) -> bool {
    exists|i: int| 0 <= i < entries.len() && #[trigger] entries[i].0@ == key
}

/// The keys of a member map are the names in the list.
proof fn lemma_member_names(entries: Seq<(String, Json)>, key: Seq<char>)
    ensures
        crate::json::members(entries).contains_key(key) <==> is_name(entries, key),
    decreases entries.len(),
{
    if entries.len() > 0 {
        let front = entries.drop_last();
        lemma_member_names(front, key);
        if is_name(front, key) {
            let i = choose|i: int| 0 <= i < front.len() && #[trigger] front[i].0@ == key;
            assert(entries[i].0@ == key);
        }
        if entries.last().0@ == key {
            assert(entries[entries.len() - 1].0@ == key);
        }
        if is_name(entries, key) && entries.last().0@ != key {
            let i = choose|i: int| 0 <= i < entries.len() && #[trigger] entries[i].0@ == key;
            assert(front[i].0@ == key);
        }
    }
}

/// Whether the member at `j` is a verdict on a term that comes last among the
/// first `n` members.
spec fn is_last_among(entries: Seq<(String, Json)>, index: usize, n: int, j: int) -> bool {
    let m = crate::json::members(entries);
    &&& 0 <= j < n
    &&& is_verdict(m, index, entries[j].0@)
    &&& forall|k: int|
        0 <= k < n && #[trigger] is_verdict(m, index, entries[k].0@) ==> !crate::text::text_lt(
            entries[j].0@,
            entries[k].0@,
        )
}

/// Among the first `n` members, some verdict on a term comes last, if there is
/// one.
proof fn lemma_some_verdict_is_last(
    entries: Seq<(String, Json)>,
    index: usize,
    n: int,
    i: int,
) -> (j: int)
    requires
        0 <= i < n <= entries.len(),
        is_verdict(crate::json::members(entries), index, entries[i].0@),
    ensures
        is_last_among(entries, index, n, j),
    decreases n,
{
    let m = crate::json::members(entries);
    let last = entries[n - 1].0@;
    crate::text::lemma_text_lt_irreflexive(last);
    if exists|k: int| 0 <= k < n - 1 && #[trigger] is_verdict(m, index, entries[k].0@) {
        let first = choose|k: int|
            0 <= k < n - 1 && #[trigger] is_verdict(m, index, entries[k].0@);
        let j = lemma_some_verdict_is_last(entries, index, n - 1, first);
        if is_verdict(m, index, last) && crate::text::text_lt(entries[j].0@, last) {
            assert forall|k: int|
                0 <= k < n && #[trigger] is_verdict(m, index, entries[k].0@) implies
                !crate::text::text_lt(last, entries[k].0@) by {
                if k < n - 1 && crate::text::text_lt(last, entries[k].0@) {
                    crate::text::lemma_text_lt_transitive(entries[j].0@, last, entries[k].0@);
                }
            }
            n - 1
        } else {
            j
        }
    } else {
        i
    }
}

/// A term with a verdict has one that holds.
proof fn lemma_last_verdict(entries: Seq<(String, Json)>, index: usize) -> (j: int)
    requires
        exists|key: Seq<char>| is_verdict(crate::json::members(entries), index, key),
    ensures
        0 <= j < entries.len(),
        is_last_verdict(crate::json::members(entries), index, entries[j].0@),
{
    let m = crate::json::members(entries);
    let key = choose|key: Seq<char>| is_verdict(m, index, key);
    lemma_member_names(entries, key);
    let i = choose|i: int| 0 <= i < entries.len() && #[trigger] entries[i].0@ == key;
    let n = entries.len() as int;
    let j = lemma_some_verdict_is_last(entries, index, n, i);
    assert forall|other: Seq<char>| #[trigger] is_verdict(m, index, other) implies
        !crate::text::text_lt(entries[j].0@, other) by {
        lemma_member_names(entries, other);
        let k = choose|k: int| 0 <= k < entries.len() && #[trigger] entries[k].0@ == other;
        assert(is_verdict(m, index, entries[k].0@));
    }
    j
}

/// Two verdicts that hold for one term are the same.
proof fn lemma_last_verdict_unique(
    m: Map<Seq<char>, JsonView>,
    index: usize,
    a: Seq<char>,
    b: Seq<char>,
)
    requires
        is_last_verdict(m, index, a),
        is_last_verdict(m, index, b),
    ensures
        a == b,
{
    crate::text::lemma_text_lt_total(a, b);
    assert(is_verdict(m, index, a));
    assert(is_verdict(m, index, b));
}

/// Whether a verdict on the term at `index` comes after `key`.
fn is_outdone(entries: &Vec<(String, Json)>, index: usize, key: &String) -> (r: bool)
    ensures
        r == exists|other: Seq<char>|
            #![trigger is_verdict(crate::json::members(entries@), index, other)]
            is_verdict(crate::json::members(entries@), index, other) && crate::text::text_lt(
                key@,
                other,
            ),
{
    let ghost m = crate::json::members(entries@);
    let own = chars_of(key.as_str());
    for j in 0..entries.len()
        invariant
            m == crate::json::members(entries@),
            own@ == key@,
            forall|k: int|
                0 <= k < j ==> !(is_verdict(m, index, #[trigger] entries@[k].0@)
                    && crate::text::text_lt(key@, entries@[k].0@)),
    {
        let name = chars_of(entries[j].0.as_str());
        let ghost k = entries@[j as int].0@;
        if let Some(other) = parse_index(name.as_slice()) {
            if let Some(Json::Bool(_)) = find_member(entries, entries[j].0.as_str()) {
                if other == index && comes_before(own.as_slice(), name.as_slice()) {
                    assert(is_verdict(m, index, k));
                    return true;
                }
            }
        }
        assert(is_name(entries@, k));
        proof {
            lemma_member_names(entries@, k);
        }
    }
    assert forall|other: Seq<char>| is_verdict(m, index, other) implies !crate::text::text_lt(
        key@,
        other,
    ) by {
        lemma_member_names(entries@, other);
        let k = choose|k: int| 0 <= k < entries@.len() && #[trigger] entries@[k].0@ == other;
        assert(is_verdict(m, index, entries@[k].0@));
    }
    false
}

/// Reads the verdicts from an answer's value. Members that are no verdict on a
/// place are passed over; a value that is no object has none.
pub fn read_verdicts(answer: &Json) -> (r: Option<HashMap<usize, bool>>)
    ensures
        match answer.view() {
            JsonView::Object(m) => r matches Some(v) && v@ == verdicts(m),
            _ => r is None,
        },
{
    let entries = match answer {
        Json::Object(entries) => entries,
        _ => {
            return None;
        },
    };
    let ghost m = crate::json::members(entries@);
    let mut result: HashMap<usize, bool> = HashMap::new();
    for i in 0..entries.len()
        invariant
            m == crate::json::members(entries@),
            forall|index: usize| #[trigger]
                result@.contains_key(index) ==> exists|k: int|
                    0 <= k < entries@.len() && is_last_verdict(
                        m,
                        index,
                        #[trigger] entries@[k].0@,
                    ) && m[entries@[k].0@] == JsonView::Bool(result@[index]),
            forall|index: usize, k: int|
                0 <= k < i && #[trigger] is_last_verdict(m, index, entries@[k].0@)
                    ==> result@.contains_key(index),
    {
        let name = chars_of(entries[i].0.as_str());
        let ghost before = result@;
        let ghost key = entries@[i as int].0@;
        if let Some(index) = parse_index(name.as_slice()) {
            if let Some(Json::Bool(b)) = find_member(entries, entries[i].0.as_str()) {
                assert(is_verdict(m, index, key));
                if !is_outdone(entries, index, &entries[i].0) {
                    assert(is_last_verdict(m, index, entries@[i as int].0@));
                    result.insert(index, *b);
                }
            }
        }
    }
    proof {
        let v = verdicts(m);
        assert forall|index: usize|
            #![trigger result@.dom().contains(index)]
            #![trigger v.dom().contains(index)]
            result@.dom().contains(index) == v.dom().contains(index) && (
            result@.dom().contains(index) ==> result@[index] == v[index]) by {
            assert(result@.contains_key(index) == result@.dom().contains(index));
            assert(v.contains_key(index) == v.dom().contains(index));
            if result@.contains_key(index) {
                let k = choose|k: int|
                    0 <= k < entries@.len() && is_last_verdict(m, index, #[trigger] entries@[k].0@)
                        && m[entries@[k].0@] == JsonView::Bool(result@[index]);
                assert(is_verdict(m, index, entries@[k].0@));
                lemma_last_verdict_unique(
                    m,
                    index,
                    entries@[k].0@,
                    choose|key: Seq<char>| is_last_verdict(m, index, key),
                );
            }
            if v.contains_key(index) {
                let j = lemma_last_verdict(entries@, index);
                assert(is_last_verdict(m, index, entries@[j].0@));
            }
        }
        assert(result@.dom() =~= v.dom());
        assert(result@ =~= v);
    }
    Some(result)
}

/// What an answer to a bulk question says.
pub open spec fn bulk_verdicts(text: Seq<char>) -> Option<Map<usize, bool>> {
    match crate::json::json_parse(unfenced(text)) {
        Ok(JsonView::Object(m)) => Some(verdicts(m)),
        _ => None,
    }
}

/// Reads the verdicts from an answer.
pub fn read_bulk_reply(text: &str) -> (r: Option<HashMap<usize, bool>>)
    ensures
        match r {
            Some(v) => bulk_verdicts(text@) == Some(v@),
            None => bulk_verdicts(text@) is None,
        },
{
    let answer = unfence(text);
    match parse_json(answer.as_str()) {
        Ok(j) => read_verdicts(&j),
        Err(_) => None,
    }
}

/// A place that is written in one way only has the verdict that stands there.
pub proof fn law_plain_verdict_holds(m: Map<Seq<char>, JsonView>, index: usize, key: Seq<char>)
    requires
        is_verdict(m, index, key),
        forall|other: Seq<char>| #[trigger] is_verdict(m, index, other) ==> other == key,
    ensures
        verdicts(m).contains_key(index),
        m[key] == JsonView::Bool(verdicts(m)[index]),
{
    crate::text::lemma_text_lt_irreflexive(key);
    assert(is_last_verdict(m, index, key));
    lemma_last_verdict_unique(
        m,
        index,
        key,
        choose|key: Seq<char>| is_last_verdict(m, index, key),
    );
}

/// The names in a term are different.
proof fn lemma_term_names()
    ensures
        "id"@ != "found"@,
        "id"@ != "english"@,
        "id"@ != "context"@,
        "found"@ != "english"@,
        "found"@ != "context"@,
        "english"@ != "context"@,
{
    reveal_strlit("id");
    reveal_strlit("found");
    reveal_strlit("english");
    reveal_strlit("context");
    assert("id"@.len() == 2 && "found"@.len() == 5 && "english"@.len() == 7 && "context"@.len()
        == 7);
    assert("english"@[0] == 'e' && "context"@[0] == 'c');
}

/// Every term is put to the client, in its place and under the number of that
/// place: what was found and its composed context between delimiters, its
/// anchor as it is, and nothing else.
pub proof fn law_what_is_asked_of_each_term(
    tag: Seq<char>,
    terms: Seq<BulkConfirmTerm>,
    i: int,
    name: Seq<char>,
)
    requires
        0 <= i < terms.len(),
        terms.len() <= usize::MAX,
    ensures
        ({
            let items = terms_json(tag, terms)->Array_0;
            let term = items[i]->Object_0;
            let open = seq!['<'] + tag + seq!['>'];
            let close = seq!['<', '/'] + tag + seq!['>'];
            &&& terms_json(tag, terms) is Array
            &&& items.len() == terms.len()
            &&& items[i] is Object
            &&& term.contains_key(name) <==> name == "id"@ || name == "found"@ || name
                == "english"@ || name == "context"@
            &&& i <= i64::MAX ==> term["id"@] == JsonView::Int(i)
            &&& term["found"@] == JsonView::Str(open + terms[i].found@ + close)
            &&& term["english"@] == JsonView::Str(terms[i].english@)
            &&& term["context"@] == JsonView::Str(
                open + crate::prompt::nfc(terms[i].context@) + close,
            )
        }),
{
    lemma_term_names();
    let open = seq!['<'] + tag + seq!['>'];
    let close = seq!['<', '/'] + tag + seq!['>'];
    crate::prompt::law_how_text_is_delimited(tag, terms[i].found@);
    crate::prompt::law_how_text_is_delimited(tag, crate::prompt::nfc(terms[i].context@));
    assert(crate::prompt::wrapped(tag, terms[i].found@) =~= open + terms[i].found@ + close);
    assert(crate::prompt::wrapped(tag, crate::prompt::nfc(terms[i].context@)) =~= open
        + crate::prompt::nfc(terms[i].context@) + close);
    assert(terms_json(tag, terms)->Array_0[i] == term_json(tag, i, terms[i]));
    assert((i as usize) as int == i);
}

/// The question about many terms is the list of them as JSON, between what is
/// asked and how to answer.
pub proof fn law_how_many_terms_are_asked_about(tag: Seq<char>, terms: Seq<BulkConfirmTerm>)
    ensures
        bulk_question(tag, terms) == "Per term: true=mainland CN, false=not.\n"@ + (
        crate::json::json_text(terms_json(tag, terms)) + "\nJSON:{\"0\":true,\"1\":false}"@),
{
    assert(bulk_question(tag, terms) =~= "Per term: true=mainland CN, false=not.\n"@ + (
    crate::json::json_text(terms_json(tag, terms)) + "\nJSON:{\"0\":true,\"1\":false}"@));
}

/// Whether a text has something at both ends that is neither white space nor a
/// backtick.
pub open spec fn solid_ends(s: Seq<char>) -> bool {
    &&& s.len() > 0
    &&& crate::text::bare_ends(s)
    &&& s[0] != '`'
    &&& s[s.len() - 1] != '`'
}

/// An answer is read without the white space around it, and without the marks
/// of a code block around it, with `json` behind the first or not; what stands
/// between them is read as it is.
#[verifier::rlimit(40)]
#[verifier::spinoff_prover]
pub proof fn law_answer_is_taken_out_of_its_fence(
    a: Seq<char>,
    x: Seq<char>,
    s: Seq<char>,
    y: Seq<char>,
    b: Seq<char>,
)
    requires
        crate::text::all_white(a),
        crate::text::all_white(x),
        solid_ends(s),
        crate::text::all_white(y),
        crate::text::all_white(b),
    ensures
        unfenced(a + s + b) == s,
        unfenced(a + ("```json"@ + x + s + y + "```"@) + b) == s,
        x.len() > 0 ==> unfenced(a + ("```"@ + x + s + y + "```"@) + b) == s,
{
    reveal_strlit("```");
    reveal_strlit("```json");
    let fence = "```"@;
    let opening = "```json"@;
    let inner = x + s + y;
    crate::text::law_trim_takes_off_white_space(a, s, b);
    if fence.is_prefix_of(s) {
        assert(s.subrange(0, 3)[0] == '`');
    }
    crate::text::law_trim_takes_off_white_space(x, s, y);
    let rest = inner + fence;
    assert(inner.len() > 0);
    assert(inner[0] == if x.len() > 0 {
        x[0]
    } else {
        s[0]
    });
    if x.len() > 0 {
        assert(crate::text::white_space(x[0]));
    }
    assert(inner[0] != '`');
    assert(inner[inner.len() - 1] == if y.len() > 0 {
        y[y.len() - 1]
    } else {
        s[s.len() - 1]
    });
    if y.len() > 0 {
        assert(crate::text::white_space(y[y.len() - 1]));
    }
    assert(inner[inner.len() - 1] != '`');
    assert(rest[0] == inner[0]);
    if fence.is_prefix_of(rest) {
        assert(rest.subrange(0, 3)[0] == '`');
    }
    if opening.is_prefix_of(rest) {
        assert(rest.subrange(0, 7)[0] == '`');
    }
    if fence.is_suffix_of(inner) {
        assert(inner.subrange(inner.len() - 3, inner.len() as int)[2] == '`');
    }
    crate::text::law_copies_are_stripped(rest, opening);
    crate::text::law_copies_are_stripped(rest, fence);
    crate::text::law_copies_are_stripped(inner, fence);
    let with_name = opening + rest;
    assert(opening + x + s + y + fence =~= with_name);
    assert(with_name[0] == '`' && with_name[with_name.len() - 1] == '`');
    crate::text::law_trim_takes_off_white_space(a, with_name, b);
    assert(fence =~= with_name.subrange(0, 3));
    let without_name = fence + rest;
    assert(fence + x + s + y + fence =~= without_name);
    assert(without_name[0] == '`' && without_name[without_name.len() - 1] == '`');
    crate::text::law_trim_takes_off_white_space(a, without_name, b);
    assert(fence =~= without_name.subrange(0, 3));
    if x.len() > 0 {
        if opening.is_prefix_of(without_name) {
            assert(without_name.subrange(0, 7)[3] == opening[3]);
            assert(without_name[3] == x[0]);
            assert(opening[3] == 'j');
        }
        crate::text::law_copies_are_stripped(without_name, opening);
    }
}

/// A term has a verdict exactly where some member of the answer is true or
/// false and its name is the term's place; where several are, the one whose name
/// comes last in the order of texts is the verdict.
pub proof fn law_where_a_verdict_comes_from(
    m: Map<Seq<char>, JsonView>,
    index: usize,
    key: Seq<char>,
)
    ensures
        verdicts(m).contains_key(index) <==> exists|k: Seq<char>|
            #![trigger m.contains_key(k)]
            m.contains_key(k) && m[k] is Bool && crate::text::index_of(k) == Some(index),
        m.contains_key(key) && m[key] is Bool && crate::text::index_of(key) == Some(index) && (
        forall|k: Seq<char>|
            #![trigger m.contains_key(k)]
            m.contains_key(k) && m[k] is Bool && crate::text::index_of(k) == Some(index)
                ==> !crate::text::text_lt(key, k)) ==> m[key] == JsonView::Bool(
            verdicts(m)[index],
        ),
{
    if verdicts(m).contains_key(index) {
        let k = choose|k: Seq<char>| is_verdict(m, index, k);
        assert(m.contains_key(k));
    }
    if exists|k: Seq<char>|
        #![trigger m.contains_key(k)]
        m.contains_key(k) && m[k] is Bool && crate::text::index_of(k) == Some(index) {
        let k = choose|k: Seq<char>|
            #![trigger m.contains_key(k)]
            m.contains_key(k) && m[k] is Bool && crate::text::index_of(k) == Some(index);
        assert(is_verdict(m, index, k));
    }
    if m.contains_key(key) && m[key] is Bool && crate::text::index_of(key) == Some(index) && (
    forall|k: Seq<char>|
        #![trigger m.contains_key(k)]
        m.contains_key(k) && m[k] is Bool && crate::text::index_of(k) == Some(index)
            ==> !crate::text::text_lt(key, k)) {
        assert(is_verdict(m, index, key));
        assert forall|other: Seq<char>| #[trigger] is_verdict(m, index, other) implies
            !crate::text::text_lt(key, other) by {
            assert(m.contains_key(other));
        }
        assert(is_last_verdict(m, index, key));
        lemma_last_verdict_unique(
            m,
            index,
            key,
            choose|key: Seq<char>| is_last_verdict(m, index, key),
        );
    }
}

/// An answer that gives one verdict for each place, under its number, is read
/// as those verdicts, and a verdict on one place says nothing of another.
pub proof fn law_numbered_verdicts_are_read(
    m: Map<Seq<char>, JsonView>,
    index: usize,
    verdict: bool,
)
    requires
        forall|k: Seq<char>| #[trigger]
            m.contains_key(k) ==> exists|n: usize| k == #[trigger] crate::text::decimal(n as nat),
    ensures
        m.contains_key(crate::text::decimal(index as nat)) && m[crate::text::decimal(index as nat)]
            == JsonView::Bool(verdict) <==> verdicts(m).contains_key(index) && verdicts(m)[index]
            == verdict,
{
    let key = crate::text::decimal(index as nat);
    crate::text::law_places_are_read_back(index);
    law_where_a_verdict_comes_from(m, index, key);
    crate::text::lemma_text_lt_irreflexive(key);
    assert forall|k: Seq<char>|
        #![trigger m.contains_key(k)]
        m.contains_key(k) && crate::text::index_of(k) == Some(index) implies k == key by {
        let n = choose|n: usize| k == #[trigger] crate::text::decimal(n as nat);
        crate::text::law_places_are_read_back(n);
    }
    if verdicts(m).contains_key(index) {
        let k = choose|k: Seq<char>|
            #![trigger m.contains_key(k)]
            m.contains_key(k) && m[k] is Bool && crate::text::index_of(k) == Some(index);
        assert(k == key);
    }
}

/// An answer says something exactly where, taken out of its fence, it is a JSON
/// object; it then says what the object says.
pub proof fn law_when_an_answer_is_read(text: Seq<char>)
    ensures
        bulk_verdicts(text) is Some <==> (crate::json::json_parse(unfenced(text)) matches Ok(v)
            && v is Object),
        crate::json::json_parse(unfenced(text)) matches Ok(JsonView::Object(m)) ==> bulk_verdicts(
            text,
        ) == Some(verdicts(m)),
{
}

/// What is left when copies are taken off the start is the end of the text.
proof fn lemma_strip_start_is_end(s: Seq<char>, part: Seq<char>) -> (x: Seq<char>)
    ensures
        s == x + crate::text::strip_start(s, part),
    decreases s.len(),
{
    if 0 < part.len() && part.is_prefix_of(s) {
        let rest = s.skip(part.len() as int);
        let x = lemma_strip_start_is_end(rest, part);
        let front = s.take(part.len() as int) + x;
        assert(s =~= s.take(part.len() as int) + rest);
        assert(s =~= front + crate::text::strip_start(s, part));
        front
    } else {
        assert(s =~= Seq::<char>::empty() + s);
        Seq::empty()
    }
}

/// What is left when copies are taken off the end is the start of the text.
proof fn lemma_strip_end_is_start(s: Seq<char>, part: Seq<char>) -> (y: Seq<char>)
    ensures
        s == crate::text::strip_end(s, part) + y,
    decreases s.len(),
{
    if 0 < part.len() && part.is_suffix_of(s) {
        let n = s.len() - part.len();
        let y = lemma_strip_end_is_start(s.take(n), part);
        let back = y + s.skip(n);
        assert(s =~= s.take(n) + s.skip(n));
        assert(s =~= crate::text::strip_end(s, part) + back);
        back
    } else {
        assert(s =~= s + Seq::<char>::empty());
        Seq::empty()
    }
}

/// Whatever an answer is, what is read of it stands in it as it is, in one
/// piece, and has no white space at its ends; and the white space around an
/// answer does not matter.
pub proof fn law_what_is_read_stands_in_the_answer(a: Seq<char>, text: Seq<char>, b: Seq<char>)
    requires
        crate::text::all_white(a),
        crate::text::bare_ends(text),
        crate::text::all_white(b),
    ensures
        crate::matching::stands_in(unfenced(text), text),
        crate::text::bare_ends(unfenced(text)),
        unfenced(a + text + b) == unfenced(text),
{
    let none = Seq::<char>::empty();
    crate::text::law_trim_takes_off_white_space(a, text, b);
    crate::text::law_trim_takes_off_white_space(none, text, none);
    assert(none + text + none =~= text);
    if "```"@.is_prefix_of(text) {
        let one = crate::text::strip_start(text, "```json"@);
        let two = crate::text::strip_start(one, "```"@);
        let three = crate::text::strip_end(two, "```"@);
        let x = lemma_strip_start_is_end(text, "```json"@);
        let y = lemma_strip_start_is_end(one, "```"@);
        let z = lemma_strip_end_is_start(two, "```"@);
        let (p, q) = crate::text::lemma_trim_cuts(three);
        let left = x + y + p;
        let right = q + z;
        assert(text =~= left + unfenced(text) + right);
    } else {
        assert(text == none + unfenced(text) + none);
    }
}

} // verus!
