//! Issues that a scan reports, and what a judgment does to one.

use vstd::prelude::*;

verus! {

/// How much an issue matters.
#[derive(Debug, Clone, Copy, PartialEq, Eq, Structural)]
pub enum Severity {
    Info,
    Warning,
    Error,
}

/// The axis an issue belongs to.
#[derive(Debug, Clone, Copy, PartialEq, Eq, Structural)]
pub enum IssueType {
    CrossStrait,
    Confusable,
    AiStyle,
    Translationese,
}

/// What the local disambiguation made of an issue.
#[derive(Debug, Clone, Copy, PartialEq, Eq, Structural)]
pub enum Tier2Outcome {
    /// It was not asked.
    NotEligible,
    /// It settled the issue.
    Resolved,
    /// It dropped the issue.
    Suppressed,
    /// It could not tell.
    GrayZone,
}

/// One issue in a text.
#[derive(Debug)]
pub struct Issue {
    pub offset: usize,
    pub length: usize,
    pub line: usize,
    pub col: usize,
    /// The text that was matched.
    pub found: String,
    /// What could stand in its place, the best first.
    pub suggestions: Vec<String>,
    pub rule_type: IssueType,
    pub severity: Severity,
    /// The English anchor of the rule.
    pub english: Option<String>,
    /// A note on how the issue came about.
    pub context: Option<String>,
    pub context_clues: Option<Vec<String>>,
    /// Whether calibration found the English anchor, where it looked.
    pub anchor_match: Option<bool>,
    pub tier2_outcome: Tier2Outcome,
    /// Whether a language model has judged the issue.
    pub llm_judged: bool,
    /// The rewrite that is offered for a translationese phrase.
    pub suggested_rewrite: Option<String>,
}

/// The model of an optional string.
pub open spec fn text_view(s: Option<String>) -> Option<Seq<char>> {
    match s {
        Some(t) => Some(t@),
        None => None,
    }
}

/// Copies an optional string.
pub fn copy_text(s: &Option<String>) -> (r: Option<String>)
    ensures
        text_view(r) == text_view(*s),
{
    match s {
        Some(t) => Some(t.clone()),
        None => None,
    }
}

/// The model of an optional string slice.
pub open spec fn str_view(s: Option<&str>) -> Option<Seq<char>> {
    match s {
        Some(t) => Some(t@),
        None => None,
    }
}

/// The model of an [`Issue`].
pub struct IssueView {
    pub offset: usize,
    pub length: usize,
    pub line: usize,
    pub col: usize,
    pub found: Seq<char>,
    pub suggestions: Seq<Seq<char>>,
    pub rule_type: IssueType,
    pub severity: Severity,
    pub english: Option<Seq<char>>,
    pub context: Option<Seq<char>>,
    pub context_clues: Option<Seq<Seq<char>>>,
    pub anchor_match: Option<bool>,
    pub tier2_outcome: Tier2Outcome,
    pub llm_judged: bool,
    pub suggested_rewrite: Option<Seq<char>>,
}

impl View for Issue {
    type V = IssueView;

    open spec fn view(&self) -> IssueView {
        IssueView {
            offset: self.offset,
            length: self.length,
            line: self.line,
            col: self.col,
            found: self.found@,
            suggestions: crate::text::texts(self.suggestions@),
            rule_type: self.rule_type,
            severity: self.severity,
            english: text_view(self.english),
            context: text_view(self.context),
            context_clues: match self.context_clues {
                Some(c) => Some(crate::text::texts(c@)),
                None => None,
            },
            anchor_match: self.anchor_match,
            tier2_outcome: self.tier2_outcome,
            llm_judged: self.llm_judged,
            suggested_rewrite: text_view(self.suggested_rewrite),
        }
    }
}

impl IssueView {
    /// The issue with the rewrite that its suggestions call for: a
    /// translationese phrase is rewritten to its first suggestion.
    pub open spec fn refreshed(self) -> IssueView {
        if self.rule_type == IssueType::Translationese {
            IssueView {
                suggested_rewrite: if self.suggestions.len() > 0 {
                    Some(self.suggestions[0])
                } else {
                    None
                },
                ..self
            }
        } else {
            self
        }
    }
}

impl Issue {
    /// An issue that nothing is known of but where and what it is.
    pub fn new(
        offset: usize,
        length: usize,
        found: &str,
        suggestions: Vec<String>,
        rule_type: IssueType,
        severity: Severity,
    ) -> (r: Issue)
        ensures
            r@ == (IssueView {
                offset,
                length,
                line: 0,
                col: 0,
                found: found@,
                suggestions: crate::text::texts(suggestions@),
                rule_type,
                severity,
                english: None,
                context: None,
                context_clues: None,
                anchor_match: None,
                tier2_outcome: Tier2Outcome::NotEligible,
                llm_judged: false,
                suggested_rewrite: None,
            }).refreshed(),
    {
        let mut r = Issue {
            offset,
            length,
            line: 0,
            col: 0,
            found: found.to_owned(),
            suggestions,
            rule_type,
            severity,
            english: None,
            context: None,
            context_clues: None,
            anchor_match: None,
            tier2_outcome: Tier2Outcome::NotEligible,
            llm_judged: false,
            suggested_rewrite: None,
        };
        r.refresh_suggested_rewrite();
        r
    }

    /// The issue with an English anchor.
    pub fn with_english(self, english: &str) -> (r: Issue)
        ensures
            r@ == (IssueView { english: Some(english@), ..self@ }),
    {
        let mut r = self;
        r.english = Some(english.to_owned());
        r
    }

    /// Brings the rewrite in step with the suggestions.
    pub fn refresh_suggested_rewrite(&mut self)
        ensures
            final(self)@ == old(self)@.refreshed(),
    {
        if self.rule_type == IssueType::Translationese {
            if self.suggestions.len() > 0 {
                self.suggested_rewrite = Some(self.suggestions[0].clone());
            } else {
                self.suggested_rewrite = None;
            }
        }
    }
}

/// The place of the first occurrence of a text in a list.
pub open spec fn place_of(s: Seq<Seq<char>>, t: Seq<char>) -> Option<int>
    decreases s.len(),
{
    if s.len() == 0 {
        None
    } else {
        match place_of(s.drop_last(), t) {
            Some(i) => Some(i),
            None => if s.last() == t {
                Some(s.len() - 1)
            } else {
                None
            },
        }
    }
}

/// The list with the entry at `i` in front and the first one in its place.
pub open spec fn promoted(s: Seq<Seq<char>>, i: int) -> Seq<Seq<char>> {
    s.update(0, s[i]).update(i, s[0])
}

/// The issue with a term promoted to the front of its suggestions, where it is
/// one of them.
pub open spec fn with_promoted(issue: IssueView, term: Seq<char>) -> IssueView {
    match place_of(issue.suggestions, term) {
        Some(i) => (IssueView {
            suggestions: promoted(issue.suggestions, i),
            ..issue
        }).refreshed(),
        None => issue,
    }
}

/// What a judgment makes of an issue. A confirmed term is promoted; without
/// one the issue is rejected, which makes it informational.
pub open spec fn judged(
    issue: IssueView,
    matched: Option<Seq<char>>,
    detail: Seq<char>,
) -> IssueView {
    match matched {
        Some(term) => IssueView {
            llm_judged: true,
            context: Some("LLM disambiguation: '"@ + term + "' ("@ + detail + ")"@),
            ..with_promoted(issue, term)
        },
        None => IssueView {
            llm_judged: true,
            severity: Severity::Info,
            context: Some("LLM disambiguation: rejected ("@ + detail + ")"@),
            ..issue
        },
    }
}

/// Finds a text in a list.
fn find_text(v: &Vec<String>, t: &String) -> (r: Option<usize>)
    ensures
        match r {
            Some(i) => i < v@.len() && place_of(crate::text::texts(v@), t@) == Some(i as int),
            None => place_of(crate::text::texts(v@), t@) is None,
        },
{
    let ghost all = crate::text::texts(v@);
    assert(all.take(0) =~= Seq::<Seq<char>>::empty());
    let mut r: Option<usize> = None;
    for i in 0..v.len()
        invariant
            all == crate::text::texts(v@),
            match r {
                Some(k) => k < i && place_of(all.take(i as int), t@) == Some(k as int),
                None => place_of(all.take(i as int), t@) is None,
            },
    {
        assert(all.take(i + 1).drop_last() =~= all.take(i as int));
        assert(all.take(i + 1).last() == v@[i as int]@);
        if r.is_none() && v[i] == *t {
            r = Some(i);
        }
    }
    assert(all.take(v@.len() as int) =~= all);
    r
}

/// Applies a judgment to an issue.
pub fn apply_disambiguation(issue: &mut Issue, matched_term: &Option<String>, detail: &str)
    ensures
        final(issue)@ == judged(old(issue)@, text_view(*matched_term), detail@),
{
    issue.llm_judged = true;
    match matched_term {
        Some(term) => {
            if let Some(pos) = find_text(&issue.suggestions, term) {
                let ghost before = issue.suggestions@;
                if pos != 0 {
                    let first = issue.suggestions[0].clone();
                    let chosen = issue.suggestions[pos].clone();
                    issue.suggestions.set(0, chosen);
                    issue.suggestions.set(pos, first);
                }
                assert(crate::text::texts(issue.suggestions@) =~= promoted(
                    crate::text::texts(before),
                    pos as int,
                ));
                issue.refresh_suggested_rewrite();
            }
            let mut note: String = "LLM disambiguation: '".to_owned();
            note.append(term.as_str());
            note.append("' (");
            note.append(detail);
            note.append(")");
            issue.context = Some(note);
        },
        None => {
            issue.severity = Severity::Info;
            let mut note: String = "LLM disambiguation: rejected (".to_owned();
            note.append(detail);
            note.append(")");
            issue.context = Some(note);
        },
    }
}

/// Where [`place_of`] finds a text, and where it does not.
proof fn lemma_place_of(s: Seq<Seq<char>>, t: Seq<char>)
    ensures
        match place_of(s, t) {
            Some(i) => 0 <= i < s.len() && s[i] == t,
            None => !s.contains(t),
        },
    decreases s.len(),
{
    if s.len() > 0 {
        lemma_place_of(s.drop_last(), t);
        if place_of(s, t) is None && s.contains(t) {
            let i = choose|i: int| 0 <= i < s.len() && s[i] == t;
            assert(s.drop_last()[i] == t);
        }
    }
}

/// A term that is confirmed and is a suggestion comes first.
pub proof fn law_confirmed_term_is_first(issue: IssueView, term: Seq<char>, detail: Seq<char>)
    requires
        issue.suggestions.contains(term),
    ensures
        judged(issue, Some(term), detail).suggestions.len() > 0,
        judged(issue, Some(term), detail).suggestions[0] == term,
        issue.rule_type == IssueType::Translationese ==> judged(
            issue,
            Some(term),
            detail,
        ).suggested_rewrite == Some(term),
{
    lemma_place_of(issue.suggestions, term);
}

/// A judgment neither adds a suggestion nor loses one.
pub proof fn law_judgment_keeps_the_suggestions(
    issue: IssueView,
    matched: Option<Seq<char>>,
    detail: Seq<char>,
)
    ensures
        judged(issue, matched, detail).suggestions.to_multiset()
            == issue.suggestions.to_multiset(),
        judged(issue, matched, detail).suggestions.len() == issue.suggestions.len(),
        forall|t: Seq<char>| #[trigger]
            judged(issue, matched, detail).suggestions.contains(t) <==> issue.suggestions.contains(
                t,
            ),
{
    broadcast use vstd::seq_lib::group_to_multiset_ensures;

    if let Some(term) = matched {
        lemma_place_of(issue.suggestions, term);
        if let Some(i) = place_of(issue.suggestions, term) {
            let s = issue.suggestions;
            let after = promoted(s, i);
            assert forall|t: Seq<char>| after.contains(t) <==> s.contains(t) by {
                if after.contains(t) {
                    let k = choose|k: int| 0 <= k < after.len() && after[k] == t;
                    if k == i {
                        assert(s[0] == t);
                    } else if k == 0 {
                        assert(s[i] == t);
                    } else {
                        assert(s[k] == t);
                    }
                }
                if s.contains(t) {
                    let k = choose|k: int| 0 <= k < s.len() && s[k] == t;
                    if k == i {
                        assert(after[0] == t);
                    } else if k == 0 {
                        assert(after[i] == t);
                    } else {
                        assert(after[k] == t);
                    }
                }
            }
            let mid = s.update(0, s[i]);
            assert(mid.to_multiset() =~= s.to_multiset().insert(s[i]).remove(s[0]));
            assert(after.to_multiset() =~= mid.to_multiset().insert(s[0]).remove(mid[i]));
            assert(after.to_multiset() =~= s.to_multiset());
        }
    }
}

/// A confirmed issue keeps its severity and a rejected one becomes
/// informational; where the issue stands and what was found there is not
/// touched.
pub proof fn law_judgment_and_severity(
    issue: IssueView,
    matched: Option<Seq<char>>,
    detail: Seq<char>,
)
    ensures
        judged(issue, matched, detail).severity == if matched is Some {
            issue.severity
        } else {
            Severity::Info
        },
        judged(issue, matched, detail).llm_judged,
        judged(issue, matched, detail).offset == issue.offset,
        judged(issue, matched, detail).length == issue.length,
        judged(issue, matched, detail).line == issue.line,
        judged(issue, matched, detail).col == issue.col,
        judged(issue, matched, detail).found == issue.found,
        judged(issue, matched, detail).english == issue.english,
        judged(issue, matched, detail).rule_type == issue.rule_type,
        judged(issue, matched, detail).context_clues == issue.context_clues,
        judged(issue, matched, detail).anchor_match == issue.anchor_match,
        judged(issue, matched, detail).tier2_outcome == issue.tier2_outcome,
{
}

/// A translationese phrase is rewritten to its first suggestion, and has no
/// rewrite without one; for an issue of any other kind the rewrite stays, and
/// nothing else of an issue is touched.
pub proof fn law_rewrite_is_the_first_suggestion(issue: IssueView)
    ensures
        ({
            let after = issue.refreshed();
            &&& after == IssueView { suggested_rewrite: after.suggested_rewrite, ..issue }
            &&& issue.rule_type == IssueType::Translationese && issue.suggestions.len() > 0
                ==> after.suggested_rewrite == Some(issue.suggestions[0])
            &&& issue.rule_type == IssueType::Translationese && issue.suggestions.len() == 0
                ==> after.suggested_rewrite is None
            &&& issue.rule_type != IssueType::Translationese ==> after.suggested_rewrite
                == issue.suggested_rewrite
        }),
{
}

/// A text that stands at a place, and at no place before it, is found there.
proof fn lemma_place_of_first(s: Seq<Seq<char>>, t: Seq<char>, i: int)
    requires
        0 <= i < s.len(),
        s[i] == t,
        forall|k: int| 0 <= k < i ==> #[trigger] s[k] != t,
    ensures
        place_of(s, t) == Some(i),
    decreases s.len(),
{
    let front = s.drop_last();
    if i < front.len() {
        assert forall|k: int| 0 <= k < i implies #[trigger] front[k] != t by {
            assert(front[k] == s[k]);
        }
        lemma_place_of_first(front, t, i);
    } else {
        lemma_place_of(front, t);
        if let Some(k) = place_of(front, t) {
            assert(s[k] == t);
        }
    }
}

/// A confirmed suggestion changes places with the first one: the first of them
/// that is the term, and no other suggestion moves.
pub proof fn law_confirmed_term_changes_places(
    issue: IssueView,
    term: Seq<char>,
    detail: Seq<char>,
    i: int,
)
    requires
        0 <= i < issue.suggestions.len(),
        issue.suggestions[i] == term,
        forall|k: int| 0 <= k < i ==> #[trigger] issue.suggestions[k] != term,
    ensures
        ({
            let before = issue.suggestions;
            let after = judged(issue, Some(term), detail).suggestions;
            &&& after.len() == before.len()
            &&& after[0] == term
            &&& after[i] == before[0]
            &&& forall|k: int|
                0 < k < before.len() && k != i ==> #[trigger] after[k] == before[k]
        }),
{
    lemma_place_of_first(issue.suggestions, term, i);
}

/// A term that is none of the suggestions moves none of them, and a rejection
/// does not either; the rewrite stays then too.
pub proof fn law_nothing_else_moves_a_suggestion(
    issue: IssueView,
    matched: Option<Seq<char>>,
    detail: Seq<char>,
)
    requires
        matched matches Some(term) ==> !issue.suggestions.contains(term),
    ensures
        judged(issue, matched, detail).suggestions == issue.suggestions,
        judged(issue, matched, detail).suggested_rewrite == issue.suggested_rewrite,
{
    if let Some(term) = matched {
        lemma_place_of(issue.suggestions, term);
    }
}

/// A judged issue says what was decided, and how.
pub proof fn law_judgment_is_told(
    issue: IssueView,
    matched: Option<Seq<char>>,
    detail: Seq<char>,
)
    ensures
        judged(issue, matched, detail).context == Some(
            match matched {
                Some(term) => "LLM disambiguation: '"@ + term + "' ("@ + detail + ")"@,
                None => "LLM disambiguation: rejected ("@ + detail + ")"@,
            },
        ),
        issue.rule_type != IssueType::Translationese ==> judged(
            issue,
            matched,
            detail,
        ).suggested_rewrite == issue.suggested_rewrite,
{
}

/// Every field of an issue is part of its model, as it is.
pub proof fn law_model_of_an_issue(issue: Issue, i: int)
    ensures
        issue@.offset == issue.offset,
        issue@.length == issue.length,
        issue@.line == issue.line,
        issue@.col == issue.col,
        issue@.found == issue.found@,
        issue@.suggestions.len() == issue.suggestions@.len(),
        0 <= i < issue.suggestions@.len() ==> issue@.suggestions[i] == issue.suggestions@[i]@,
        issue@.rule_type == issue.rule_type,
        issue@.severity == issue.severity,
        issue@.english is Some <==> issue.english is Some,
        issue.english matches Some(e) ==> issue@.english == Some(e@),
        issue@.context is Some <==> issue.context is Some,
        issue.context matches Some(c) ==> issue@.context == Some(c@),
        issue@.context_clues is Some <==> issue.context_clues is Some,
        issue.context_clues matches Some(c) ==> issue@.context_clues == Some(
            crate::text::texts(c@),
        ),
        issue@.anchor_match == issue.anchor_match,
        issue@.tier2_outcome == issue.tier2_outcome,
        issue@.llm_judged == issue.llm_judged,
        issue@.suggested_rewrite is Some <==> issue.suggested_rewrite is Some,
        issue.suggested_rewrite matches Some(r) ==> issue@.suggested_rewrite == Some(r@),
{
}

/// An optional text is there exactly where its model is, and is that text.
pub proof fn law_model_of_an_optional_text(a: Option<String>, b: Option<&str>)
    ensures
        text_view(a) is Some <==> a is Some,
        a matches Some(t) ==> text_view(a) == Some(t@),
        str_view(b) is Some <==> b is Some,
        b matches Some(t) ==> str_view(b) == Some(t@),
{
}

} // verus!
