//! Judgments that outlive a call: what was decided about a term, under all that
//! the decision rested on.

use crate::text::same_text;
use vstd::prelude::*;

verus! {

/// What a judgment rests on.
#[derive(Debug)]
pub struct JudgmentKey {
    pub ruleset_hash: String,
    pub judgment_prompt_version: u32,
    pub local_disambig_version: u32,
    pub profile: String,
    pub content_type: String,
    /// The text around the term, as the cache keeps it.
    pub normalized_context: String,
    pub ambiguous_term: String,
    /// What could stand in place of the term. The order does not matter.
    pub candidate_set: Vec<String>,
    /// The English anchor, empty where there is none.
    pub english_anchor: String,
}

/// The model of a [`JudgmentKey`].
pub struct JudgmentKeyView {
    pub ruleset_hash: Seq<char>,
    pub judgment_prompt_version: u32,
    pub local_disambig_version: u32,
    pub profile: Seq<char>,
    pub content_type: Seq<char>,
    pub normalized_context: Seq<char>,
    pub ambiguous_term: Seq<char>,
    pub candidate_set: Set<Seq<char>>,
    pub english_anchor: Seq<char>,
}

/// The texts of a list, whatever their order.
pub open spec fn text_set(s: Seq<Seq<char>>) -> Set<Seq<char>> {
    Set::new(|t: Seq<char>| s.contains(t))
}

impl View for JudgmentKey {
    type V = JudgmentKeyView;

    open spec fn view(&self) -> JudgmentKeyView {
        JudgmentKeyView {
            ruleset_hash: self.ruleset_hash@,
            judgment_prompt_version: self.judgment_prompt_version,
            local_disambig_version: self.local_disambig_version,
            profile: self.profile@,
            content_type: self.content_type@,
            normalized_context: self.normalized_context@,
            ambiguous_term: self.ambiguous_term@,
            candidate_set: text_set(crate::text::texts(self.candidate_set@)),
            english_anchor: self.english_anchor@,
        }
    }
}

/// A judgment.
#[derive(Debug)]
pub struct JudgmentValue {
    /// The replacement that was confirmed; none where the issue was rejected.
    pub chosen_replacement: Option<String>,
    /// How sure the judgment is, in hundredths.
    pub confidence_percent: u8,
    /// What the judge said.
    pub explanation: String,
    /// Who judged.
    pub source: String,
}

/// The model of a [`JudgmentValue`].
pub struct JudgmentValueView {
    pub chosen_replacement: Option<Seq<char>>,
    pub confidence_percent: u8,
    pub explanation: Seq<char>,
    pub source: Seq<char>,
}

impl View for JudgmentValue {
    type V = JudgmentValueView;

    open spec fn view(&self) -> JudgmentValueView {
        JudgmentValueView {
            chosen_replacement: crate::issue::text_view(self.chosen_replacement),
            confidence_percent: self.confidence_percent,
            explanation: self.explanation@,
            source: self.source@,
        }
    }
}

/// Whether a text is in a list.
fn has_text(v: &Vec<String>, t: &String) -> (r: bool)
    ensures
        r == crate::text::texts(v@).contains(t@),
{
    let ghost all = crate::text::texts(v@);
    for i in 0..v.len()
        invariant
            all == crate::text::texts(v@),
            forall|k: int| 0 <= k < i ==> #[trigger] all[k] != t@,
    {
        assert(all[i as int] == v@[i as int]@);
        if v[i] == *t {
            return true;
        }
    }
    false
}

/// Whether every text of one list is in another.
fn has_texts(v: &Vec<String>, part: &Vec<String>) -> (r: bool)
    ensures
        r == text_set(crate::text::texts(part@)).subset_of(text_set(crate::text::texts(v@))),
{
    let ghost all = crate::text::texts(v@);
    let ghost some = crate::text::texts(part@);
    for i in 0..part.len()
        invariant
            all == crate::text::texts(v@),
            some == crate::text::texts(part@),
            forall|k: int| 0 <= k < i ==> all.contains(#[trigger] some[k]),
    {
        assert(some[i as int] == part@[i as int]@);
        if !has_text(v, &part[i]) {
            assert(text_set(some).contains(some[i as int]));
            assert(!text_set(all).contains(some[i as int]));
            return false;
        }
    }
    true
}

impl JudgmentKey {
    /// Whether two keys are of the same judgment.
    pub fn same_key(&self, other: &JudgmentKey) -> (r: bool)
        ensures
            r == (self@ == other@),
    {
        let r = same_text(self.ruleset_hash.as_str(), other.ruleset_hash.as_str())
            && self.judgment_prompt_version == other.judgment_prompt_version
            && self.local_disambig_version == other.local_disambig_version && same_text(
            self.profile.as_str(),
            other.profile.as_str(),
        ) && same_text(self.content_type.as_str(), other.content_type.as_str()) && same_text(
            self.normalized_context.as_str(),
            other.normalized_context.as_str(),
        ) && same_text(self.ambiguous_term.as_str(), other.ambiguous_term.as_str()) && same_text(
            self.english_anchor.as_str(),
            other.english_anchor.as_str(),
        ) && has_texts(&self.candidate_set, &other.candidate_set) && has_texts(
            &other.candidate_set,
            &self.candidate_set,
        );
        proof {
            let a = self@.candidate_set;
            let b = other@.candidate_set;
            assert(a =~= b <==> a.subset_of(b) && b.subset_of(a));
        }
        r
    }
}

/// The judgments that have been made.
#[derive(Debug)]
pub struct JudgmentCache {
    entries: Vec<(JudgmentKey, JudgmentValue)>,
}

/// The map that a list of judgments stands for: the last one holds.
spec fn judgments(s: Seq<(JudgmentKey, JudgmentValue)>) -> Map<JudgmentKeyView, JudgmentValueView>
    decreases s.len(),
{
    if s.len() == 0 {
        Map::empty()
    } else {
        judgments(s.drop_last()).insert(s.last().0@, s.last().1@)
    }
}

/// The last judgment under a key is the one that the map holds.
proof fn lemma_judgment_at(s: Seq<(JudgmentKey, JudgmentValue)>, i: int)
    requires
        0 <= i < s.len(),
        forall|j: int| i < j < s.len() ==> #[trigger] s[j].0@ != s[i].0@,
    ensures
        judgments(s).contains_key(s[i].0@),
        judgments(s)[s[i].0@] == s[i].1@,
    decreases s.len(),
{
    if i < s.len() - 1 {
        assert(s[s.len() - 1].0@ != s[i].0@);
        let t = s.drop_last();
        assert forall|j: int| i < j < t.len() implies #[trigger] t[j].0@ != t[i].0@ by {
            assert(t[j] == s[j]);
        }
        lemma_judgment_at(t, i);
        assert(t[i] == s[i]);
    }
}

/// A key that no judgment has is not in the map.
proof fn lemma_judgment_absent(s: Seq<(JudgmentKey, JudgmentValue)>, key: JudgmentKeyView)
    requires
        forall|j: int| 0 <= j < s.len() ==> #[trigger] s[j].0@ != key,
    ensures
        !judgments(s).contains_key(key),
    decreases s.len(),
{
    if s.len() > 0 {
        let t = s.drop_last();
        assert forall|j: int| 0 <= j < t.len() implies #[trigger] t[j].0@ != key by {
            assert(t[j] == s[j]);
        }
        assert(s[s.len() - 1].0@ != key);
        lemma_judgment_absent(t, key);
    }
}

impl View for JudgmentCache {
    type V = Map<JudgmentKeyView, JudgmentValueView>;

    closed spec fn view(&self) -> Map<JudgmentKeyView, JudgmentValueView> {
        judgments(self.entries@)
    }
}

impl JudgmentCache {
    /// A cache without judgments.
    pub fn new() -> (r: JudgmentCache)
        ensures
            r@ == Map::<JudgmentKeyView, JudgmentValueView>::empty(),
    {
        JudgmentCache { entries: Vec::new() }
    }

    /// The judgment under a key.
    pub fn get(&self, key: &JudgmentKey) -> (r: Option<&JudgmentValue>)
        ensures
            match r {
                Some(v) => self@.contains_key(key@) && self@[key@] == v@,
                None => !self@.contains_key(key@),
            },
    {
        let mut i: usize = self.entries.len();
        while i > 0
            invariant
                i <= self.entries@.len(),
                forall|j: int|
                    i <= j < self.entries@.len() ==> #[trigger] self.entries@[j].0@ != key@,
            decreases i,
        {
            i = i - 1;
            if self.entries[i].0.same_key(key) {
                proof {
                    lemma_judgment_at(self.entries@, i as int);
                }
                return Some(&self.entries[i].1);
            }
        }
        proof {
            lemma_judgment_absent(self.entries@, key@);
        }
        None
    }

    /// Keeps a judgment under a key.
    pub fn insert(&mut self, key: JudgmentKey, value: JudgmentValue)
        ensures
            final(self)@ == old(self)@.insert(key@, value@),
    {
        let ghost before = self.entries@;
        self.entries.push((key, value));
        assert(self.entries@.drop_last() =~= before);
    }
}

/// Every field of a key is part of what it stands for; of the candidates, which
/// there are and not their order.
pub proof fn law_model_of_a_key(key: JudgmentKey, t: Seq<char>)
    ensures
        key@.ruleset_hash == key.ruleset_hash@,
        key@.judgment_prompt_version == key.judgment_prompt_version,
        key@.local_disambig_version == key.local_disambig_version,
        key@.profile == key.profile@,
        key@.content_type == key.content_type@,
        key@.normalized_context == key.normalized_context@,
        key@.ambiguous_term == key.ambiguous_term@,
        key@.english_anchor == key.english_anchor@,
        key@.candidate_set.contains(t) <==> crate::text::texts(key.candidate_set@).contains(t),
{
}

/// Every field of a judgment is part of its model, as it is.
pub proof fn law_model_of_a_judgment(value: JudgmentValue)
    ensures
        value@.chosen_replacement is Some <==> value.chosen_replacement is Some,
        value.chosen_replacement matches Some(t) ==> value@.chosen_replacement == Some(t@),
        value@.confidence_percent == value.confidence_percent,
        value@.explanation == value.explanation@,
        value@.source == value.source@,
{
}

} // verus!
