//! Which issues are worth a question, and what an answer says about an issue.

use crate::issue::{Issue, IssueView, Tier2Outcome};
use crate::text::{bytes_in, chars_of, contains_part, is_blank, same_text};
use vstd::prelude::*;

verus! {

/// A suggestion that says something.
pub open spec fn usable(s: Seq<char>) -> bool {
    crate::text::trim(s).len() > 0
}

/// A usable suggestion that stands in an answer.
pub open spec fn mentioned(text: Seq<char>, s: Seq<char>) -> bool {
    usable(s) && crate::text::is_infix(s, text)
}

/// The longest suggestion that stands in an answer, by the bytes it takes; the
/// last of them where several are longest.
pub open spec fn longest_mentioned(text: Seq<char>, suggestions: Seq<Seq<char>>) -> Option<
    Seq<char>,
>
    decreases suggestions.len(),
{
    if suggestions.len() == 0 {
        None
    } else {
        let s = suggestions.last();
        let best = longest_mentioned(text, suggestions.drop_last());
        if mentioned(text, s) && (best matches Some(b) ==> crate::text::byte_len(b)
            <= crate::text::byte_len(s)) {
            Some(s)
        } else {
            best
        }
    }
}

/// The suggestion that an answer names: the answer itself where it is a
/// suggestion, else the longest one that stands in it.
pub open spec fn matching(text: Seq<char>, suggestions: Seq<Seq<char>>) -> Option<Seq<char>> {
    if usable(text) && suggestions.contains(text) {
        Some(text)
    } else {
        longest_mentioned(text, suggestions)
    }
}

/// Finds the suggestion that an answer names.
pub fn find_matching_suggestion(text: &str, suggestions: &Vec<String>) -> (r: Option<String>)
    ensures
        crate::issue::text_view(r) == matching(text@, crate::text::texts(suggestions@)),
{
    let ghost all = crate::text::texts(suggestions@);
    let answer = chars_of(text);
    for i in 0..suggestions.len()
        invariant
            all == crate::text::texts(suggestions@),
            answer@ == text@,
            usable(text@) ==> forall|k: int| 0 <= k < i ==> #[trigger] all[k] != text@,
    {
        assert(all[i as int] == suggestions@[i as int]@);
        if !is_blank(answer.as_slice()) && same_text(suggestions[i].as_str(), text) {
            assert(all.contains(text@));
            return Some(suggestions[i].clone());
        }
    }
    assert(!(usable(text@) && all.contains(text@)));
    let mut best: Option<String> = None;
    assert(all.take(0) =~= Seq::<Seq<char>>::empty());
    for i in 0..suggestions.len()
        invariant
            all == crate::text::texts(suggestions@),
            answer@ == text@,
            crate::issue::text_view(best) == longest_mentioned(text@, all.take(i as int)),
    {
        assert(all.take(i + 1).drop_last() =~= all.take(i as int));
        assert(all.take(i + 1).last() == suggestions@[i as int]@);
        let part = chars_of(suggestions[i].as_str());
        if !is_blank(part.as_slice()) && contains_part(answer.as_slice(), part.as_slice()) {
            let longer = match &best {
                Some(b) => bytes_in(b.as_str()) <= bytes_in(suggestions[i].as_str()),
                None => true,
            };
            if longer {
                best = Some(suggestions[i].clone());
            }
        }
    }
    assert(all.take(all.len() as int) =~= all);
    best
}

/// What [`longest_mentioned`] gives: one of the suggestions, which stands in
/// the answer, none that stands there being longer.
proof fn lemma_longest_mentioned(text: Seq<char>, suggestions: Seq<Seq<char>>)
    ensures
        match longest_mentioned(text, suggestions) {
            Some(b) => {
                &&& suggestions.contains(b)
                &&& mentioned(text, b)
                &&& forall|k: int|
                    0 <= k < suggestions.len() && mentioned(text, #[trigger] suggestions[k])
                        ==> crate::text::byte_len(suggestions[k]) <= crate::text::byte_len(b)
            },
            None => forall|k: int|
                0 <= k < suggestions.len() ==> !mentioned(text, #[trigger] suggestions[k]),
        },
    decreases suggestions.len(),
{
    if suggestions.len() > 0 {
        let front = suggestions.drop_last();
        lemma_longest_mentioned(text, front);
        assert(forall|k: int| 0 <= k < front.len() ==> front[k] == #[trigger] suggestions[k]);
        match longest_mentioned(text, front) {
            Some(b) => {
                let k = choose|k: int| 0 <= k < front.len() && front[k] == b;
                assert(suggestions[k] == b);
            },
            None => {},
        }
        assert(suggestions[suggestions.len() - 1] == suggestions.last());
    }
}

/// Whatever an answer says, the term it is taken to name is one of the
/// suggestions, is not blank, and stands in the answer.
pub proof fn law_match_is_a_suggestion(text: Seq<char>, suggestions: Seq<Seq<char>>)
    ensures
        matching(text, suggestions) matches Some(t) ==> suggestions.contains(t) && mentioned(
            text,
            t,
        ),
{
    lemma_longest_mentioned(text, suggestions);
    if usable(text) && suggestions.contains(text) {
        assert(text.subrange(0, text.len() as int) =~= text);
        assert(crate::text::occurs_at(text, text, 0));
    }
}

/// An answer that is a suggestion names that suggestion, whatever longer or
/// shorter ones there are.
pub proof fn law_exact_match_wins(text: Seq<char>, suggestions: Seq<Seq<char>>)
    requires
        usable(text),
        suggestions.contains(text),
    ensures
        matching(text, suggestions) == Some(text),
{
}

/// No suggestion that stands in the answer is longer than the one that is
/// taken.
pub proof fn law_longest_match_wins(text: Seq<char>, suggestions: Seq<Seq<char>>, k: int)
    requires
        0 <= k < suggestions.len(),
        mentioned(text, suggestions[k]),
    ensures
        matching(text, suggestions) matches Some(t) && crate::text::byte_len(suggestions[k])
            <= crate::text::byte_len(t),
{
    lemma_longest_mentioned(text, suggestions);
    if usable(text) && suggestions.contains(text) {
        let s = suggestions[k];
        let i = choose|i: int| #[trigger] crate::text::occurs_at(s, text, i);
        crate::text::lemma_byte_len_concat(text.take(i), text.skip(i));
        crate::text::lemma_byte_len_concat(s, text.skip(i + s.len()));
        assert(text.take(i) + text.skip(i) =~= text);
        assert(text.skip(i) =~= s + text.skip(i + s.len()));
    }
}

/// An answer in which no suggestion stands names none.
pub proof fn law_unmentioned_is_no_match(text: Seq<char>, suggestions: Seq<Seq<char>>)
    requires
        forall|k: int|
            0 <= k < suggestions.len() ==> !mentioned(text, #[trigger] suggestions[k]),
    ensures
        matching(text, suggestions) is None,
{
    lemma_longest_mentioned(text, suggestions);
    if usable(text) && suggestions.contains(text) {
        let k = choose|k: int| 0 <= k < suggestions.len() && suggestions[k] == text;
        assert(text.subrange(0, text.len() as int) =~= text);
        assert(crate::text::occurs_at(text, text, 0));
        assert(mentioned(text, suggestions[k]));
    }
}

/// Whether an issue is worth a question. The local disambiguation decides
/// where it was asked. Else an English anchor is needed, and something to
/// decide: calibration found no anchor in the text, or, where it left no doubt
/// about the match, there is more than one suggestion, or clues to go by.
pub open spec fn eligible(issue: IssueView) -> bool {
    match issue.tier2_outcome {
        Tier2Outcome::Resolved | Tier2Outcome::Suppressed => false,
        Tier2Outcome::GrayZone => true,
        Tier2Outcome::NotEligible => issue.english is Some && match issue.anchor_match {
            Some(true) => issue.suggestions.len() > 1,
            Some(false) => true,
            None => issue.suggestions.len() > 1 || issue.context_clues is Some,
        },
    }
}

/// Whether an issue is worth a question.
pub fn is_sampling_eligible(issue: &Issue) -> (r: bool)
    ensures
        r == eligible(issue@),
{
    match issue.tier2_outcome {
        Tier2Outcome::Resolved | Tier2Outcome::Suppressed => {
            return false;
        },
        Tier2Outcome::GrayZone => {
            return true;
        },
        Tier2Outcome::NotEligible => {},
    }
    match issue.anchor_match {
        Some(true) => {
            if issue.suggestions.len() <= 1 {
                return false;
            }
        },
        Some(false) => {
            return issue.english.is_some();
        },
        None => {},
    }
    issue.english.is_some() && (issue.suggestions.len() > 1 || issue.context_clues.is_some())
}

/// What the local disambiguation made of an issue decides alone, where it was
/// asked: what it settled or dropped is not asked again, what it could not tell
/// is.
pub proof fn law_local_outcome_decides(issue: IssueView)
    requires
        issue.tier2_outcome != Tier2Outcome::NotEligible,
    ensures
        eligible(issue) <==> issue.tier2_outcome == Tier2Outcome::GrayZone,
{
}

/// Where calibration found no anchor, one suggestion is enough to ask.
pub proof fn law_missing_anchor_is_asked_about(issue: IssueView)
    requires
        issue.tier2_outcome == Tier2Outcome::NotEligible,
        issue.anchor_match == Some(false),
    ensures
        eligible(issue) <==> issue.english is Some,
{
}

/// Whether a text has a character that is no white space.
pub open spec fn says_something(s: Seq<char>) -> bool {
    exists|j: int| 0 <= j < s.len() && !crate::text::white_space(#[trigger] s[j])
}

/// Whether a text stands in another as it is.
pub open spec fn stands_in(s: Seq<char>, text: Seq<char>) -> bool {
    exists|a: Seq<char>, b: Seq<char>| text == #[trigger] (a + s + b)
}

/// Whether one of the suggestions says something and stands in a text.
pub open spec fn names_one(text: Seq<char>, suggestions: Seq<Seq<char>>) -> bool {
    exists|k: int|
        0 <= k < suggestions.len() && says_something(#[trigger] suggestions[k]) && stands_in(
            suggestions[k],
            text,
        )
}

/// A suggestion counts exactly where it says something and stands in the
/// answer as it is.
pub proof fn law_what_counts_as_mentioned(text: Seq<char>, s: Seq<char>)
    ensures
        mentioned(text, s) <==> says_something(s) && stands_in(s, text),
{
    crate::text::law_trim_keeps_the_rest(s);
    if says_something(s) {
        let j = choose|j: int| 0 <= j < s.len() && !crate::text::white_space(#[trigger] s[j]);
        assert(!crate::text::all_white(s));
    }
    if stands_in(s, text) {
        let (a, b) = choose|a: Seq<char>, b: Seq<char>| text == #[trigger] (a + s + b);
        assert(text.subrange(a.len() as int, (a.len() + s.len()) as int) =~= s);
        assert(crate::text::occurs_at(s, text, a.len() as int));
    }
    if crate::text::is_infix(s, text) {
        let i = choose|i: int| #[trigger] crate::text::occurs_at(s, text, i);
        let a = text.take(i);
        let b = text.skip(i + s.len());
        assert(text =~= a + text.subrange(i, i + s.len()) + b);
        assert(stands_in(s, text)) by {
            assert(text == a + s + b);
        }
    }
}

/// An answer names a suggestion exactly where some suggestion that says
/// something stands in it; and what it names says something, is a suggestion
/// and stands in it.
pub proof fn law_when_a_suggestion_is_named(text: Seq<char>, suggestions: Seq<Seq<char>>)
    ensures
        matching(text, suggestions) is Some <==> names_one(text, suggestions),
        matching(text, suggestions) matches Some(t) ==> suggestions.contains(t) && says_something(t)
            && stands_in(t, text),
        says_something(text) && suggestions.contains(text) ==> matching(text, suggestions) == Some(
            text,
        ),
{
    law_match_is_a_suggestion(text, suggestions);
    crate::text::law_trim_keeps_the_rest(text);
    if says_something(text) {
        let j = choose|j: int| 0 <= j < text.len() && !crate::text::white_space(#[trigger] text[j]);
        assert(!crate::text::all_white(text));
    }
    if let Some(t) = matching(text, suggestions) {
        law_what_counts_as_mentioned(text, t);
        let k = choose|k: int| 0 <= k < suggestions.len() && suggestions[k] == t;
        assert(says_something(suggestions[k]));
    }
    if names_one(text, suggestions) {
        let k = choose|k: int|
            0 <= k < suggestions.len() && says_something(#[trigger] suggestions[k]) && stands_in(
                suggestions[k],
                text,
            );
        law_what_counts_as_mentioned(text, suggestions[k]);
        law_longest_match_wins(text, suggestions, k);
    }
}

/// Where the longest that is mentioned stands: behind it, nothing that is
/// mentioned is as long.
proof fn lemma_longest_is_last(text: Seq<char>, suggestions: Seq<Seq<char>>) -> (k: int)
    requires
        longest_mentioned(text, suggestions) is Some,
    ensures
        0 <= k < suggestions.len(),
        longest_mentioned(text, suggestions) == Some(suggestions[k]),
        forall|j: int|
            k < j < suggestions.len() && mentioned(text, #[trigger] suggestions[j])
                ==> crate::text::byte_len(suggestions[j]) < crate::text::byte_len(suggestions[k]),
    decreases suggestions.len(),
{
    let front = suggestions.drop_last();
    let s = suggestions.last();
    let n = suggestions.len() - 1;
    let best = longest_mentioned(text, front);
    if mentioned(text, s) && (best matches Some(b) ==> crate::text::byte_len(b)
        <= crate::text::byte_len(s)) {
        n
    } else {
        let k = lemma_longest_is_last(text, front);
        assert(suggestions[k] == front[k]);
        assert forall|j: int|
            k < j < suggestions.len() && mentioned(text, #[trigger] suggestions[j]) implies
            crate::text::byte_len(suggestions[j]) < crate::text::byte_len(suggestions[k]) by {
            if j < n {
                assert(front[j] == suggestions[j]);
            }
        }
        k
    }
}

/// Where several suggestions that stand in an answer are longest, the last of
/// them is named, unless the answer is itself a suggestion.
pub proof fn law_last_of_the_longest_is_named(text: Seq<char>, suggestions: Seq<Seq<char>>)
    requires
        matching(text, suggestions) is Some,
        !(says_something(text) && suggestions.contains(text)),
    ensures
        exists|k: int|
            {
                &&& 0 <= k < suggestions.len()
                &&& matching(text, suggestions) == Some(#[trigger] suggestions[k])
                &&& forall|j: int|
                    k < j < suggestions.len() && mentioned(text, #[trigger] suggestions[j])
                        ==> crate::text::byte_len(suggestions[j]) < crate::text::byte_len(
                        suggestions[k],
                    )
            },
{
    crate::text::law_trim_keeps_the_rest(text);
    if usable(text) && suggestions.contains(text) {
        assert(says_something(text)) by {
            assert(!crate::text::all_white(text));
        }
        assert(false);
    }
    let k = lemma_longest_is_last(text, suggestions);
    assert(matching(text, suggestions) == Some(suggestions[k]));
}

/// Where the local disambiguation was not asked, an issue without an English
/// anchor is never worth a question. With one, it is where calibration found no
/// anchor in the text; where calibration found it, if there is more than one
/// suggestion; and without calibration, if there is more than one or there are
/// clues.
pub proof fn law_what_is_worth_a_question(issue: IssueView)
    requires
        issue.tier2_outcome == Tier2Outcome::NotEligible,
    ensures
        issue.english is None ==> !eligible(issue),
        issue.english is Some && issue.anchor_match == Some(false) ==> eligible(issue),
        issue.english is Some && issue.anchor_match == Some(true) ==> (eligible(issue)
            <==> issue.suggestions.len() > 1),
        issue.english is Some && issue.anchor_match is None ==> (eligible(issue)
            <==> issue.suggestions.len() > 1 || issue.context_clues is Some),
{
}

/// Nothing but the anchor, the calibration, the clues, the local outcome and the
/// number of suggestions decides whether an issue is worth a question.
pub proof fn law_what_does_not_matter_for_a_question(a: IssueView, b: IssueView)
    requires
        a.tier2_outcome == b.tier2_outcome,
        a.english is Some <==> b.english is Some,
        a.anchor_match == b.anchor_match,
        a.suggestions.len() == b.suggestions.len(),
        a.context_clues is Some <==> b.context_clues is Some,
    ensures
        eligible(a) == eligible(b),
{
}

} // verus!
