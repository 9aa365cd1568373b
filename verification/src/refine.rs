//! Refining the issues of a scan: each that is worth a question is put to the
//! client, as far as the budget goes, unless it was judged before.

use crate::cache::{CachedDisambiguation, DisambiguationCache};
use crate::issue::{apply_disambiguation, copy_text, Issue, IssueView};
use crate::judgment::{
    JudgmentCache, JudgmentKey, JudgmentKeyView, JudgmentValue, JudgmentValueView,
};
use crate::matching::{find_matching_suggestion, is_sampling_eligible};
use crate::sampling::{BridgeView, Exchange, PeerSampler, SamplingBridge, SentRecord};
use crate::text::{chars_of, string_of};
use vstd::prelude::*;

verus! {

/// The text around an issue.
#[derive(Debug)]
pub struct ContextWindow {
    /// The text as a question shows it.
    pub text: String,
    /// The text as judgments are kept under it.
    pub cache_text: String,
}

/// The model of a [`ContextWindow`].
pub struct WindowView {
    pub text: Seq<char>,
    pub cache_text: Seq<char>,
}

impl View for ContextWindow {
    type V = WindowView;

    open spec fn view(&self) -> WindowView {
        WindowView { text: self.text@, cache_text: self.cache_text@ }
    }
}

/// Judgments of former calls, and what they rest on besides the issue.
pub struct SamplingCacheCtx<'a> {
    pub cache: &'a mut JudgmentCache,
    pub ruleset_hash: &'a str,
    pub profile: &'a str,
    pub content_type: &'a str,
    pub judgment_prompt_version: u32,
    pub local_disambig_version: u32,
}

/// The model of a [`SamplingCacheCtx`].
pub struct CtxView {
    pub made: Map<JudgmentKeyView, JudgmentValueView>,
    pub ruleset_hash: Seq<char>,
    pub profile: Seq<char>,
    pub content_type: Seq<char>,
    pub judgment_prompt_version: u32,
    pub local_disambig_version: u32,
}

impl<'a> View for SamplingCacheCtx<'a> {
    type V = CtxView;

    open spec fn view(&self) -> CtxView {
        CtxView {
            made: self.cache@,
            ruleset_hash: self.ruleset_hash@,
            profile: self.profile@,
            content_type: self.content_type@,
            judgment_prompt_version: self.judgment_prompt_version,
            local_disambig_version: self.local_disambig_version,
        }
    }
}

impl CtxView {
    /// The key of a judgment on an issue.
    pub open spec fn key(self, window: WindowView, issue: IssueView) -> JudgmentKeyView {
        JudgmentKeyView {
            ruleset_hash: self.ruleset_hash,
            judgment_prompt_version: self.judgment_prompt_version,
            local_disambig_version: self.local_disambig_version,
            profile: self.profile,
            content_type: self.content_type,
            normalized_context: window.cache_text,
            ambiguous_term: issue.found,
            candidate_set: crate::judgment::text_set(issue.suggestions),
            english_anchor: crate::cache::anchor(issue.english),
        }
    }

    /// The judgments with one more.
    pub open spec fn with(self, key: JudgmentKeyView, value: JudgmentValueView) -> CtxView {
        CtxView { made: self.made.insert(key, value), ..self }
    }
}

/// The judgment that an answer makes.
pub open spec fn judgment_of(matched: Option<Seq<char>>, text: Seq<char>) -> JudgmentValueView {
    JudgmentValueView {
        chosen_replacement: matched,
        confidence_percent: if matched is Some {
            90
        } else {
            10
        },
        explanation: text,
        source: "mcp-host"@,
    }
}

/// How an issue refers to a judgment of a former call.
pub open spec fn judgment_detail(value: JudgmentValueView) -> Seq<char> {
    if value.explanation.len() == 0 {
        "judgment-cache"@
    } else {
        "judgment-cache: "@ + value.explanation
    }
}

/// The first thirty characters of a text.
pub open spec fn shortened(text: Seq<char>) -> Seq<char> {
    if text.len() <= 30 {
        text
    } else {
        text.take(30)
    }
}

/// How an issue refers to an answer.
pub open spec fn answer_detail(matched: Option<Seq<char>>, text: Seq<char>) -> Seq<char> {
    if matched is Some {
        "sampling confirmed"@
    } else {
        "response: '"@ + shortened(text) + "'"@
    }
}

/// An issue after an answer about it.
pub open spec fn answered(issue: IssueView, text: Seq<char>) -> IssueView {
    let matched = crate::matching::matching(text, issue.suggestions);
    crate::issue::judged(issue, matched, answer_detail(matched, text))
}

/// An issue after a question to which no answer came: it says so, and is what
/// it was.
pub open spec fn unanswered(issue: IssueView) -> IssueView {
    let before = crate::cache::anchor(issue.context);
    let separator = if before.len() == 0 {
        Seq::<char>::empty()
    } else {
        "; "@
    };
    IssueView {
        context: Some(before + separator + "sampling timeout/unavailable"@),
        ..issue
    }
}

/// Where a run stands.
pub struct RunView {
    pub issues: Seq<IssueView>,
    pub judgments: Option<CtxView>,
    /// The answers of this run, by the key of the question.
    pub answers: Map<Seq<char>, Option<Seq<char>>>,
    pub bridge: BridgeView,
    /// How many issues found the budget spent.
    pub skipped: nat,
}

/// The key of a question in a run.
pub open spec fn answer_key(window: WindowView, issue: IssueView) -> Seq<char> {
    crate::cache::key_of(issue.found, crate::cache::anchor(issue.english), window.text)
}

/// What is known about an issue without asking: the term that was judged right,
/// if one was, and where that is known from. Judgments of former calls come
/// before answers of this run.
pub open spec fn recalled(
    judgments: Option<CtxView>,
    answers: Map<Seq<char>, Option<Seq<char>>>,
    window: WindowView,
    issue: IssueView,
) -> Option<(Option<Seq<char>>, Seq<char>)> {
    if judgments matches Some(ctx) && ctx.made.contains_key(ctx.key(window, issue)) {
        let value = judgments->0.made[judgments->0.key(window, issue)];
        Some((value.chosen_replacement, judgment_detail(value)))
    } else if answers.contains_key(answer_key(window, issue)) {
        Some((answers[answer_key(window, issue)], "cached"@))
    } else {
        None
    }
}

impl RunView {
    /// The exchange about an issue, with the tag and the reply of `x`.
    pub open spec fn exchange(window: WindowView, issue: IssueView, x: Exchange) -> Exchange {
        Exchange {
            tag: x.tag,
            request: crate::sampling::disambiguation_request(x.tag, issue, window.text),
            reply: x.reply,
        }
    }

    /// The run after the issue at `place` was put to the client, with what the
    /// client replied.
    pub open spec fn asked(self, place: int, window: WindowView, x: Exchange) -> RunView {
        let issue = self.issues[place];
        let bridge = self.bridge.asked(
            crate::sampling::disambiguation_question(x.tag, issue, window.text),
            RunView::exchange(window, issue, x),
        );
        match x.reply {
            Some(text) => {
                let after = answered(issue, text);
                let matched = crate::matching::matching(text, issue.suggestions);
                RunView {
                    issues: self.issues.update(place, after),
                    judgments: match self.judgments {
                        Some(ctx) => Some(
                            ctx.with(ctx.key(window, after), judgment_of(matched, text)),
                        ),
                        None => None,
                    },
                    answers: self.answers.insert(answer_key(window, issue), matched),
                    bridge,
                    skipped: self.skipped,
                }
            },
            None => RunView {
                issues: self.issues.update(place, unanswered(issue)),
                bridge,
                ..self
            },
        }
    }

    /// The run after the issue at `place`. What the client does is taken from
    /// `log`, the exchanges of the whole run.
    pub open spec fn step(self, place: int, window: WindowView, log: Seq<Exchange>) -> RunView {
        let issue = self.issues[place];
        if !self.bridge.has_budget() {
            RunView { skipped: self.skipped + 1, ..self }
        } else {
            match recalled(self.judgments, self.answers, window, issue) {
                Some((matched, detail)) => RunView {
                    issues: self.issues.update(
                        place,
                        crate::issue::judged(issue, matched, detail),
                    ),
                    ..self
                },
                None => self.asked(place, window, log[self.bridge.log.len() as int]),
            }
        }
    }

    /// The run after the issues at `places`, in that order.
    pub open spec fn run(
        self,
        places: Seq<int>,
        windows: Seq<WindowView>,
        log: Seq<Exchange>,
    ) -> RunView
        decreases places.len(),
    {
        if places.len() == 0 {
            self
        } else {
            self.run(places.drop_last(), windows, log).step(
                places.last(),
                windows[places.last()],
                log,
            )
        }
    }
}

/// What the client knows of some exchanges.
pub open spec fn records(log: Seq<Exchange>) -> SentRecord {
    log.map_values(|x: Exchange| x.on_record())
}

/// The models of a list of issues.
pub open spec fn issue_views(v: Seq<Issue>) -> Seq<IssueView> {
    v.map_values(|i: Issue| i@)
}

/// The models of a list of windows.
pub open spec fn window_views(v: Seq<ContextWindow>) -> Seq<WindowView> {
    v.map_values(|w: ContextWindow| w@)
}

/// The places of the issues that are worth a question.
pub open spec fn eligible_places(issues: Seq<IssueView>) -> Seq<int>
    decreases issues.len(),
{
    if issues.len() == 0 {
        Seq::empty()
    } else {
        let front = eligible_places(issues.drop_last());
        if crate::matching::eligible(issues.last()) {
            front.push(issues.len() - 1)
        } else {
            front
        }
    }
}

/// How many issues a run takes up at most: ten for each question it may ask.
pub open spec fn cap(bridge: BridgeView) -> nat {
    let most = (bridge.budget - bridge.used) * 10;
    if most < 0 {
        0
    } else if most > usize::MAX {
        usize::MAX as nat
    } else {
        most as nat
    }
}

/// The places of the issues that a run takes up.
pub open spec fn taken_up(issues: Seq<IssueView>, bridge: BridgeView) -> Seq<int> {
    let places = eligible_places(issues);
    if places.len() <= cap(bridge) {
        places
    } else {
        places.take(cap(bridge) as int)
    }
}

/// The model of what an optional context holds.
pub open spec fn ctx_view(ctx: Option<&SamplingCacheCtx<'_>>) -> Option<CtxView> {
    match ctx {
        Some(c) => Some(c@),
        None => None,
    }
}

/// The model of what an optional context holds that is to be written to.
pub open spec fn ctx_mut_view(ctx: Option<&mut SamplingCacheCtx<'_>>) -> Option<CtxView> {
    match ctx {
        Some(c) => Some((*c)@),
        None => None,
    }
}

/// What became of the budget.
#[derive(Debug, Clone, Copy, PartialEq, Eq, Structural)]
pub struct SamplingStats {
    /// How many questions were asked.
    pub used: usize,
    /// How many issues were worth a question and found the budget spent.
    pub skipped: usize,
}

impl Default for SamplingStats {
    /// Nothing asked and nothing skipped.
    fn default() -> (r: SamplingStats)
        ensures
            r == (SamplingStats { used: 0, skipped: 0 }),
    {
        SamplingStats { used: 0, skipped: 0 }
    }
}

/// Builds the key of a judgment on an issue.
pub fn build_judgment_key(
    ctx: &SamplingCacheCtx<'_>,
    window: &ContextWindow,
    issue: &Issue,
) -> (r: JudgmentKey)
    ensures
        r@ == ctx@.key(window@, issue@),
{
    let mut candidate_set: Vec<String> = Vec::new();
    for i in 0..issue.suggestions.len()
        invariant
            candidate_set@.len() == i,
            forall|k: int|
                0 <= k < i ==> (#[trigger] candidate_set@[k])@ == issue.suggestions@[k]@,
    {
        candidate_set.push(issue.suggestions[i].clone());
    }
    assert(crate::text::texts(candidate_set@) =~= crate::text::texts(issue.suggestions@));
    let english_anchor: String = match &issue.english {
        Some(e) => e.clone(),
        None => String::new(),
    };
    JudgmentKey {
        ruleset_hash: ctx.ruleset_hash.to_owned(),
        judgment_prompt_version: ctx.judgment_prompt_version,
        local_disambig_version: ctx.local_disambig_version,
        profile: ctx.profile.to_owned(),
        content_type: ctx.content_type.to_owned(),
        normalized_context: window.cache_text.clone(),
        ambiguous_term: issue.found.clone(),
        candidate_set,
        english_anchor,
    }
}

/// Finds what is known about an issue without asking.
fn recall(
    ctx: Option<&SamplingCacheCtx<'_>>,
    answers: &DisambiguationCache,
    window: &ContextWindow,
    issue: &Issue,
) -> (r: Option<(Option<String>, String)>)
    ensures
        match r {
            Some((matched, detail)) => recalled(ctx_view(ctx), answers@, window@, issue@) == Some(
                (crate::issue::text_view(matched), detail@),
            ),
            None => recalled(ctx_view(ctx), answers@, window@, issue@) is None,
        },
{
    if let Some(c) = ctx {
        let key = build_judgment_key(c, window, issue);
        if let Some(value) = c.cache.get(&key) {
            let said = chars_of(value.explanation.as_str());
            let detail: String = if said.len() == 0 {
                "judgment-cache".to_owned()
            } else {
                let mut d: String = "judgment-cache: ".to_owned();
                d.append(value.explanation.as_str());
                d
            };
            return Some((copy_text(&value.chosen_replacement), detail));
        }
    }
    let english: Option<&str> = match &issue.english {
        Some(e) => Some(e.as_str()),
        None => None,
    };
    match answers.get(issue.found.as_str(), english, window.text.as_str()) {
        Some(known) => Some((copy_text(&known.matched_term), "cached".to_owned())),
        None => None,
    }
}

/// Keeps a judgment for later calls.
fn keep_judgment(
    ctx: &mut SamplingCacheCtx<'_>,
    window: &ContextWindow,
    issue: &Issue,
    matched: &Option<String>,
    text: &str,
)
    ensures
        final(ctx)@ == old(ctx)@.with(
            old(ctx)@.key(window@, issue@),
            judgment_of(crate::issue::text_view(*matched), text@),
        ),
        *final(final(ctx).cache) == *final(old(ctx).cache),
{
    let key = build_judgment_key(ctx, window, issue);
    let confidence_percent: u8 = if matched.is_some() {
        90
    } else {
        10
    };
    ctx.cache.insert(
        key,
        JudgmentValue {
            chosen_replacement: copy_text(matched),
            confidence_percent,
            explanation: text.to_owned(),
            source: "mcp-host".to_owned(),
        },
    );
}

/// Applies an answer to an issue. Returns the term that it names.
pub fn apply_answer(issue: &mut Issue, text: &str) -> (r: Option<String>)
    ensures
        final(issue)@ == answered(old(issue)@, text@),
        crate::issue::text_view(r) == crate::matching::matching(text@, old(issue)@.suggestions),
{
    let matched = find_matching_suggestion(text, &issue.suggestions);
    let detail: String = if matched.is_some() {
        "sampling confirmed".to_owned()
    } else {
        let all = chars_of(text);
        let short: String = if all.len() <= 30 {
            string_of(all.as_slice())
        } else {
            assert(all@.subrange(0, 30) =~= text@.take(30));
            string_of(vstd::slice::slice_subrange(all.as_slice(), 0, 30))
        };
        let mut d: String = "response: '".to_owned();
        d.append(short.as_str());
        d.append("'");
        d
    };
    apply_disambiguation(issue, &matched, detail.as_str());
    matched
}

/// Notes on an issue that no answer came.
pub fn note_unanswered(issue: &mut Issue)
    ensures
        final(issue)@ == unanswered(old(issue)@),
{
    let mut note: String = match &issue.context {
        Some(c) => c.clone(),
        None => String::new(),
    };
    let ghost before = note@;
    let said = chars_of(note.as_str());
    if said.len() > 0 {
        note.append("; ");
    }
    assert(note@ =~= before + (if before.len() == 0 {
        Seq::<char>::empty()
    } else {
        "; "@
    }));
    note.append("sampling timeout/unavailable");
    issue.context = Some(note);
}

/// A run only looks at the exchanges that it made itself.
proof fn lemma_run_log(
    s: RunView,
    places: Seq<int>,
    windows: Seq<WindowView>,
    log: Seq<Exchange>,
    longer: Seq<Exchange>,
)
    requires
        s.run(places, windows, log).bridge.log.len() <= log.len(),
        log.is_prefix_of(longer),
    ensures
        s.run(places, windows, log) == s.run(places, windows, longer),
    decreases places.len(),
{
    if places.len() > 0 {
        let before = s.run(places.drop_last(), windows, log);
        assert(s.run(places, windows, log).bridge.log.len() >= before.bridge.log.len());
        lemma_run_log(s, places.drop_last(), windows, log, longer);
        let n = before.bridge.log.len() as int;
        if n < log.len() {
            assert(log[n] == longer[n]);
        }
    }
}

/// One more exchange is one more that the client knows of.
proof fn lemma_records_push(before: SentRecord, log: Seq<Exchange>, from: int, x: Exchange)
    requires
        0 <= from <= log.len(),
    ensures
        before + records(log.push(x).skip(from)) == (before + records(log.skip(from))).push(
            x.on_record(),
        ),
{
    assert(log.push(x).skip(from) =~= log.skip(from).push(x));
    assert(records(log.skip(from).push(x)) =~= records(log.skip(from)).push(x.on_record()));
    assert(before + records(log.push(x).skip(from)) =~= (before + records(log.skip(from))).push(
        x.on_record(),
    ));
}

/// The places of eligible issues are places of issues, at most as many as
/// there are.
proof fn lemma_eligible_places(issues: Seq<IssueView>)
    ensures
        eligible_places(issues).len() <= issues.len(),
        forall|k: int|
            0 <= k < eligible_places(issues).len() ==> 0 <= #[trigger] eligible_places(issues)[k]
                < issues.len(),
    decreases issues.len(),
{
    if issues.len() > 0 {
        lemma_eligible_places(issues.drop_last());
    }
}

/// The places of a list of places.
spec fn as_places(v: Seq<usize>) -> Seq<int> {
    v.map_values(|i: usize| i as int)
}

/// Finds the places of the issues that a run takes up, and how many more are
/// worth a question.
fn take_up(issues: &Vec<Issue>, most: usize) -> (r: (Vec<usize>, usize))
    ensures
        ({
            let places = eligible_places(issue_views(issues@));
            &&& as_places(r.0@) == (if places.len() <= most {
                places
            } else {
                places.take(most as int)
            })
            &&& r.0@.len() + r.1 == places.len()
        }),
{
    let ghost all = issue_views(issues@);
    let mut taken: Vec<usize> = Vec::new();
    let mut left: usize = 0;
    assert(all.take(0) =~= Seq::<IssueView>::empty());
    assert(as_places(taken@) =~= eligible_places(all.take(0)));
    for i in 0..issues.len()
        invariant
            all == issue_views(issues@),
            ({
                let places = eligible_places(all.take(i as int));
                &&& as_places(taken@) == (if places.len() <= most {
                    places
                } else {
                    places.take(most as int)
                })
                &&& taken@.len() + left == places.len()
            }),
    {
        let ghost places = eligible_places(all.take(i as int));
        let ghost before = taken@;
        proof {
            lemma_eligible_places(all.take(i as int));
            assert(all.take(i + 1).drop_last() =~= all.take(i as int));
            assert(all.take(i + 1).last() == issues@[i as int]@);
            assert(as_places(before).len() == before.len());
        }
        if is_sampling_eligible(&issues[i]) {
            if taken.len() >= most {
                assert(places.push(i as int).take(most as int) =~= as_places(taken@));
                left = left + 1;
            } else {
                taken.push(i);
                assert(as_places(taken@) =~= as_places(before).push(i as int));
            }
        }
    }
    assert(all.take(all.len() as int) =~= all);
    (taken, left)
}

/// Refines the issues of a scan. Each issue that is worth a question is settled
/// by a judgment of a former call, by an answer of this run to the same
/// question, or by asking. A term that is confirmed is promoted to the front of
/// the suggestions; an issue that is rejected becomes informational; one
/// without an answer keeps its severity. What the client does is what the
/// bridge logs, and the outcome is the run that the log determines.
#[verifier::rlimit(40)]
pub fn refine_issues_with_sampling<P: PeerSampler>(
    issues: &mut Vec<Issue>,
    bridge: &mut SamplingBridge<'_, P>,
    windows: &Vec<ContextWindow>,
    cache_ctx: Option<&mut SamplingCacheCtx<'_>>,
) -> (r: SamplingStats)
    requires
        windows@.len() == old(issues)@.len(),
    ensures
        ({
            let start = RunView {
                issues: issue_views(old(issues)@),
                judgments: ctx_mut_view(cache_ctx),
                answers: Map::empty(),
                bridge: old(bridge)@,
                skipped: 0,
            };
            let places = taken_up(start.issues, start.bridge);
            let log = final(bridge)@.log;
            let end = start.run(places, window_views(windows@), log);
            &&& issue_views(final(issues)@) == end.issues
            &&& final(bridge)@ == end.bridge
            &&& cache_ctx matches Some(c) ==> end.judgments == Some((*final(c))@)
            &&& r.used == end.bridge.used - start.bridge.used
            &&& r.skipped == eligible_places(start.issues).len() - places.len() + end.skipped
            &&& forall|n: int|
                old(bridge)@.log.len() <= n < log.len() ==> crate::prompt::is_tag(
                    (#[trigger] log[n]).tag,
                )
            &&& final(bridge).peer_sent() == old(bridge).peer_sent() + records(
                log.skip(old(bridge)@.log.len() as int),
            )
        }),
        cache_ctx matches Some(c) ==> *final((*final(c)).cache) == *final((*c).cache),
{
    let ghost start = RunView {
        issues: issue_views(issues@),
        judgments: ctx_mut_view(cache_ctx),
        answers: Map::empty(),
        bridge: bridge@,
        skipped: 0,
    };
    let ghost w = window_views(windows@);
    let ghost before_run = bridge.peer_sent();
    assert(before_run + records(bridge@.log.skip(bridge@.log.len() as int)) =~= before_run);
    let used_before: usize = bridge.used();
    let most: usize = match bridge.remaining().checked_mul(10) {
        Some(m) => m,
        None => usize::MAX,
    };
    let (todo, uncollected) = take_up(issues, most);
    let ghost places = taken_up(start.issues, start.bridge);
    proof {
        assert(as_places(todo@) == places);
        assert(places.len() == todo@.len());
        lemma_eligible_places(start.issues);
        assert(start.issues.len() == issues.len());
    }
    let mut skipped: usize = uncollected;
    let mut answers = DisambiguationCache::new();
    let mut cache_ctx = cache_ctx;
    let ghost given = cache_ctx;
    assert(places.take(0) =~= Seq::<int>::empty());
    for n in 0..todo.len()
        invariant
            w == window_views(windows@),
            as_places(todo@) == places,
            places.len() == todo@.len(),
            start.issues.len() == windows@.len(),
            todo@.len() + uncollected <= usize::MAX,
            forall|k: int| 0 <= k < places.len() ==> 0 <= #[trigger] places[k] < windows@.len(),
            ({
                let now = start.run(places.take(n as int), w, bridge@.log);
                &&& issue_views(issues@) == now.issues
                &&& now.bridge == bridge@
                &&& now.answers == answers@
                &&& now.judgments == ctx_mut_view(cache_ctx)
                &&& skipped == uncollected + now.skipped
                &&& now.skipped <= n
            }),
            issues@.len() == windows@.len(),
            start.bridge.used <= bridge@.used,
            start.bridge.log.len() <= bridge@.log.len(),
            forall|k: int|
                start.bridge.log.len() <= k < bridge@.log.len() ==> crate::prompt::is_tag(
                    (#[trigger] bridge@.log[k]).tag,
                ),
            bridge.peer_sent() == before_run + records(
                bridge@.log.skip(start.bridge.log.len() as int),
            ),
            given is Some <==> cache_ctx is Some,
            given is Some ==> *final(cache_ctx->0) == *final(given->0),
            given is Some ==> *final((*(cache_ctx->0)).cache) == *final((*(given->0)).cache),
    {
        let place: usize = todo[n];
        let ghost log = bridge@.log;
        let ghost now = start.run(places.take(n as int), w, log);
        let ghost before = issues@;
        proof {
            assert(places.take(n + 1).drop_last() =~= places.take(n as int));
            assert(places.take(n + 1).last() == places[n as int]);
            assert(places[n as int] == place);
            assert(issue_views(before)[place as int] == before[place as int]@);
            assert(w[place as int] == windows@[place as int]@);
        }
        let window = &windows[place];
        if !bridge.has_budget() {
            skipped = skipped + 1;
        } else {
            let ctx: Option<&SamplingCacheCtx<'_>> = match &cache_ctx {
                Some(c) => Some(&**c),
                None => None,
            };
            match recall(ctx, &answers, window, &issues[place]) {
                Some((matched, detail)) => {
                    apply_disambiguation(&mut issues[place], &matched, detail.as_str());
                },
                None => match bridge.sample_disambiguation(&issues[place], window.text.as_str()) {
                    Some(result) => {
                        let matched = apply_answer(&mut issues[place], result.text.as_str());
                        if let Some(c) = &mut cache_ctx {
                            keep_judgment(
                                *c,
                                window,
                                &issues[place],
                                &matched,
                                result.text.as_str(),
                            );
                        }
                        let english: Option<&str> = match &issues[place].english {
                            Some(e) => Some(e.as_str()),
                            None => None,
                        };
                        answers.insert(
                            issues[place].found.as_str(),
                            english,
                            window.text.as_str(),
                            CachedDisambiguation { matched_term: matched },
                        );
                    },
                    None => {
                        note_unanswered(&mut issues[place]);
                    },
                },
            }
        }
        proof {
            let issue = before[place as int]@;
            lemma_run_log(start, places.take(n as int), w, log, bridge@.log);
            if bridge@.log.len() > log.len() {
                let x = bridge@.log.last();
                assert(RunView::exchange(windows@[place as int]@, issue, x) == x);
                assert(bridge@.log[log.len() as int] == x);
                lemma_records_push(before_run, log, start.bridge.log.len() as int, x);
            }
            assert(issue_views(issues@) =~= issue_views(before).update(
                place as int,
                issues@[place as int]@,
            ));
            assert(issue_views(before).update(place as int, issue) =~= issue_views(before));
        }
    }
    assert(places.take(places.len() as int) =~= places);
    assert(has_resolved(cache_ctx));
    assert(cache_ctx is Some ==> has_resolved(cache_ctx->0));
    SamplingStats { used: bridge.used() - used_before, skipped }
}

/// A run never goes over its budget, asks exactly as many questions as it pays
/// for, and leaves what was asked before as it was.
pub proof fn law_budget_is_kept(
    start: RunView,
    places: Seq<int>,
    windows: Seq<WindowView>,
    log: Seq<Exchange>,
)
    requires
        start.bridge.used <= start.bridge.budget,
    ensures
        ({
            let end = start.run(places, windows, log);
            &&& end.bridge.budget == start.bridge.budget
            &&& start.bridge.used <= end.bridge.used <= end.bridge.budget
            &&& end.bridge.log.len() - start.bridge.log.len() == end.bridge.used
                - start.bridge.used
            &&& start.bridge.log.is_prefix_of(end.bridge.log)
        }),
    decreases places.len(),
{
    if places.len() > 0 {
        law_budget_is_kept(start, places.drop_last(), windows, log);
    }
}

/// No issue that is taken up costs more than one question, and none that is
/// skipped costs any. Only a budget that is spent makes a run skip an issue.
pub proof fn law_skipped_issues_cost_nothing(
    start: RunView,
    places: Seq<int>,
    windows: Seq<WindowView>,
    log: Seq<Exchange>,
)
    requires
        start.bridge.used <= start.bridge.budget,
        start.skipped == 0,
    ensures
        ({
            let end = start.run(places, windows, log);
            &&& end.bridge.used - start.bridge.used + end.skipped <= places.len()
            &&& end.skipped > 0 ==> end.bridge.used == end.bridge.budget
        }),
    decreases places.len(),
{
    if places.len() > 0 {
        law_skipped_issues_cost_nothing(start, places.drop_last(), windows, log);
        law_budget_is_kept(start, places.drop_last(), windows, log);
        law_budget_is_kept(start, places, windows, log);
    }
}

/// Without budget nothing is taken up: every issue that is worth a question
/// counts as skipped, and nothing changes.
pub proof fn law_no_budget_no_change(
    start: RunView,
    windows: Seq<WindowView>,
    log: Seq<Exchange>,
)
    requires
        !start.bridge.has_budget(),
    ensures
        taken_up(start.issues, start.bridge).len() == 0,
        start.run(taken_up(start.issues, start.bridge), windows, log) == start,
{
}

/// Whether all of the places are places of issues.
pub open spec fn are_places(places: Seq<int>, issues: Seq<IssueView>) -> bool {
    forall|k: int| 0 <= k < places.len() ==> 0 <= #[trigger] places[k] < issues.len()
}

/// What a run takes up are places of issues.
proof fn lemma_taken_up(issues: Seq<IssueView>, bridge: BridgeView)
    ensures
        are_places(taken_up(issues, bridge), issues),
{
    lemma_eligible_places(issues);
}

/// An issue at a place that a run does not take up is not touched.
proof fn lemma_other_places(
    start: RunView,
    places: Seq<int>,
    windows: Seq<WindowView>,
    log: Seq<Exchange>,
    i: int,
)
    requires
        0 <= i < start.issues.len(),
        are_places(places, start.issues),
        !places.contains(i),
    ensures
        start.run(places, windows, log).issues.len() == start.issues.len(),
        start.run(places, windows, log).issues[i] == start.issues[i],
    decreases places.len(),
{
    if places.len() > 0 {
        let front = places.drop_last();
        assert(!front.contains(i)) by {
            if front.contains(i) {
                let k = choose|k: int| 0 <= k < front.len() && front[k] == i;
                assert(places[k] == i);
            }
        }
        assert(0 <= places[places.len() - 1] < start.issues.len());
        assert(places[places.len() - 1] != i);
        assert forall|k: int| 0 <= k < front.len() implies 0 <= #[trigger] front[k]
            < start.issues.len() by {
            assert(front[k] == places[k]);
        }
        lemma_other_places(start, front, windows, log, i);
    }
}

/// The place of an issue is taken for eligible exactly when the issue is worth
/// a question.
proof fn lemma_eligible_at(issues: Seq<IssueView>, i: int)
    requires
        0 <= i < issues.len(),
    ensures
        eligible_places(issues).contains(i) <==> crate::matching::eligible(issues[i]),
    decreases issues.len(),
{
    let front = issues.drop_last();
    let places = eligible_places(front);
    lemma_eligible_places(front);
    if i < issues.len() - 1 {
        lemma_eligible_at(front, i);
        let all = eligible_places(issues);
        if places.contains(i) {
            let k = choose|k: int| 0 <= k < places.len() && places[k] == i;
            assert(all[k] == i);
        }
        if all.contains(i) {
            let k = choose|k: int| 0 <= k < all.len() && all[k] == i;
            assert(places[k] == i);
        }
    } else {
        if crate::matching::eligible(issues[i]) {
            assert(eligible_places(issues)[places.len() as int] == i);
        } else if eligible_places(issues).contains(i) {
            let k = choose|k: int| 0 <= k < places.len() && places[k] == i;
            assert(false);
        }
    }
}

/// A run takes up issues that are worth a question, and leaves every other one
/// as it was.
pub proof fn law_ineligible_issues_are_untouched(
    start: RunView,
    windows: Seq<WindowView>,
    log: Seq<Exchange>,
    i: int,
)
    requires
        0 <= i < start.issues.len(),
        !crate::matching::eligible(start.issues[i]),
    ensures
        start.run(taken_up(start.issues, start.bridge), windows, log).issues[i]
            == start.issues[i],
{
    let all = eligible_places(start.issues);
    let places = taken_up(start.issues, start.bridge);
    lemma_eligible_at(start.issues, i);
    if places.contains(i) {
        let k = choose|k: int| 0 <= k < places.len() && places[k] == i;
        assert(all[k] == i);
    }
    lemma_taken_up(start.issues, start.bridge);
    lemma_other_places(start, places, windows, log, i);
}

/// What stays the same in an issue, whatever a run does to it.
pub open spec fn same_issue(a: IssueView, b: IssueView) -> bool {
    &&& a.offset == b.offset
    &&& a.length == b.length
    &&& a.line == b.line
    &&& a.col == b.col
    &&& a.found == b.found
    &&& a.english == b.english
    &&& a.rule_type == b.rule_type
    &&& a.context_clues == b.context_clues
    &&& a.anchor_match == b.anchor_match
    &&& a.tier2_outcome == b.tier2_outcome
    &&& a.suggestions.to_multiset() == b.suggestions.to_multiset()
}

/// A run leaves what an issue is about alone: where it stands, what was found
/// there and which suggestions there are, whatever their order. It keeps the
/// severity or makes the issue informational, and does the latter to judged
/// issues only.
pub proof fn law_a_run_keeps_the_issues(
    start: RunView,
    places: Seq<int>,
    windows: Seq<WindowView>,
    log: Seq<Exchange>,
    i: int,
)
    requires
        0 <= i < start.issues.len(),
        are_places(places, start.issues),
    ensures
        ({
            let end = start.run(places, windows, log);
            &&& end.issues.len() == start.issues.len()
            &&& same_issue(end.issues[i], start.issues[i])
            &&& end.issues[i].severity == start.issues[i].severity || (end.issues[i].severity
                == crate::issue::Severity::Info && end.issues[i].llm_judged)
            &&& start.issues[i].llm_judged ==> end.issues[i].llm_judged
        }),
    decreases places.len(),
{
    if places.len() > 0 {
        let front = places.drop_last();
        assert(0 <= places[places.len() - 1] < start.issues.len());
        assert forall|k: int| 0 <= k < front.len() implies 0 <= #[trigger] front[k]
            < start.issues.len() by {
            assert(front[k] == places[k]);
        }
        law_a_run_keeps_the_issues(start, front, windows, log, i);
        let now = start.run(front, windows, log);
        let place = places.last();
        let issue = now.issues[place];
        let window = windows[place];
        if place == i && now.bridge.has_budget() {
            match recalled(now.judgments, now.answers, window, issue) {
                Some((matched, detail)) => {
                    crate::issue::law_judgment_keeps_the_suggestions(issue, matched, detail);
                    crate::issue::law_judgment_and_severity(issue, matched, detail);
                },
                None => {
                    if let Some(text) = log[now.bridge.log.len() as int].reply {
                        let matched = crate::matching::matching(text, issue.suggestions);
                        let detail = answer_detail(matched, text);
                        crate::issue::law_judgment_keeps_the_suggestions(issue, matched, detail);
                        crate::issue::law_judgment_and_severity(issue, matched, detail);
                    }
                },
            }
        }
    }
}

/// A run without replies learns nothing, and changes no severity.
proof fn lemma_silent_run(
    start: RunView,
    places: Seq<int>,
    windows: Seq<WindowView>,
    log: Seq<Exchange>,
    i: int,
)
    requires
        0 <= i < start.issues.len(),
        are_places(places, start.issues),
        start.judgments is None,
        start.answers == Map::<Seq<char>, Option<Seq<char>>>::empty(),
        start.run(places, windows, log).bridge.log.len() <= log.len(),
        forall|n: int|
            start.bridge.log.len() <= n < log.len() ==> (#[trigger] log[n]).reply is None,
    ensures
        ({
            let end = start.run(places, windows, log);
            &&& end.judgments is None
            &&& end.answers == Map::<Seq<char>, Option<Seq<char>>>::empty()
            &&& end.bridge.log.len() >= start.bridge.log.len()
            &&& end.issues.len() == start.issues.len()
            &&& end.issues[i].severity == start.issues[i].severity
            &&& end.issues[i].suggestions == start.issues[i].suggestions
            &&& end.issues[i].llm_judged == start.issues[i].llm_judged
        }),
    decreases places.len(),
{
    if places.len() > 0 {
        let front = places.drop_last();
        assert(0 <= places[places.len() - 1] < start.issues.len());
        assert forall|k: int| 0 <= k < front.len() implies 0 <= #[trigger] front[k]
            < start.issues.len() by {
            assert(front[k] == places[k]);
        }
        let now = start.run(front, windows, log);
        assert(now.bridge.log.len() <= start.run(places, windows, log).bridge.log.len());
        lemma_silent_run(start, front, windows, log, i);
        let n = now.bridge.log.len() as int;
        if n < log.len() {
            assert(log[n].reply is None);
        }
    }
}

/// A client that does not answer changes no severity: where no reply came and
/// no judgments of former calls are at hand, every issue keeps its severity,
/// its suggestions and their order, and is not taken for judged.
pub proof fn law_silence_changes_no_severity(
    start: RunView,
    windows: Seq<WindowView>,
    log: Seq<Exchange>,
    i: int,
)
    requires
        0 <= i < start.issues.len(),
        start.judgments is None,
        start.answers == Map::<Seq<char>, Option<Seq<char>>>::empty(),
        start.run(taken_up(start.issues, start.bridge), windows, log).bridge.log == log,
        forall|n: int|
            start.bridge.log.len() <= n < log.len() ==> (#[trigger] log[n]).reply is None,
    ensures
        ({
            let end = start.run(taken_up(start.issues, start.bridge), windows, log);
            &&& end.issues[i].severity == start.issues[i].severity
            &&& end.issues[i].suggestions == start.issues[i].suggestions
            &&& end.issues[i].llm_judged == start.issues[i].llm_judged
        }),
{
    lemma_taken_up(start.issues, start.bridge);
    lemma_silent_run(start, taken_up(start.issues, start.bridge), windows, log, i);
}

/// What is known costs nothing: an issue that is settled without asking leaves
/// the bridge as it was.
pub proof fn law_what_is_known_is_not_asked(
    s: RunView,
    place: int,
    window: WindowView,
    log: Seq<Exchange>,
)
    requires
        recalled(s.judgments, s.answers, window, s.issues[place]) is Some,
    ensures
        s.step(place, window, log).bridge == s.bridge,
{
}

/// A question that was answered is not asked again: an issue with the same term
/// and anchor, in a context that is the same but for white space and what lies
/// far from its middle, is settled without asking.
pub proof fn law_same_question_is_asked_once(
    s: RunView,
    place: int,
    window: WindowView,
    x: Exchange,
    other_window: WindowView,
    other: IssueView,
)
    requires
        x.reply is Some,
        other.found == s.issues[place].found,
        crate::cache::anchor(other.english) == crate::cache::anchor(s.issues[place].english),
        crate::cache::normalized(other_window.text) == crate::cache::normalized(window.text),
    ensures
        ({
            let after = s.asked(place, window, x);
            recalled(after.judgments, after.answers, other_window, other) is Some
        }),
{
}

/// A judgment is found again: in a later call, the same issue in the same
/// context is settled by the judgment that the answer made, whatever was judged
/// or answered before.
pub proof fn law_judgment_is_found_again(
    s: RunView,
    place: int,
    window: WindowView,
    x: Exchange,
    later_answers: Map<Seq<char>, Option<Seq<char>>>,
)
    requires
        s.judgments is Some,
        x.reply is Some,
    ensures
        ({
            let issue = s.issues[place];
            let matched = crate::matching::matching(x.reply->0, issue.suggestions);
            recalled(s.asked(place, window, x).judgments, later_answers, window, issue) == Some(
                (matched, judgment_detail(judgment_of(matched, x.reply->0))),
            )
        }),
{
    let issue = s.issues[place];
    let text = x.reply->0;
    let matched = crate::matching::matching(text, issue.suggestions);
    let after = answered(issue, text);
    crate::issue::law_judgment_keeps_the_suggestions(issue, matched, answer_detail(matched, text));
    crate::issue::law_judgment_and_severity(issue, matched, answer_detail(matched, text));
    assert(crate::judgment::text_set(after.suggestions) =~= crate::judgment::text_set(
        issue.suggestions,
    ));
    assert(s.judgments->0.key(window, after) == s.judgments->0.key(window, issue));
}

/// An answer that names no suggestion rejects the issue, which becomes
/// informational; one that names a suggestion promotes it and keeps the
/// severity.
pub proof fn law_answer_decides(issue: IssueView, text: Seq<char>)
    ensures
        match crate::matching::matching(text, issue.suggestions) {
            Some(term) => answered(issue, text).severity == issue.severity && answered(
                issue,
                text,
            ).suggestions[0] == term,
            None => answered(issue, text).severity == crate::issue::Severity::Info && answered(
                issue,
                text,
            ).suggestions == issue.suggestions,
        },
{
    let matched = crate::matching::matching(text, issue.suggestions);
    crate::matching::law_match_is_a_suggestion(text, issue.suggestions);
    crate::issue::law_judgment_and_severity(issue, matched, answer_detail(matched, text));
    if let Some(term) = matched {
        crate::issue::law_confirmed_term_is_first(issue, term, answer_detail(matched, text));
    }
}

impl RunView {
    /// The places at which a run finds the budget spent.
    pub open spec fn passed_over(
        self,
        places: Seq<int>,
        windows: Seq<WindowView>,
        log: Seq<Exchange>,
    ) -> Set<int>
        decreases places.len(),
    {
        if places.len() == 0 {
            Set::empty()
        } else {
            let front = places.drop_last();
            let before = self.passed_over(front, windows, log);
            if self.run(front, windows, log).bridge.has_budget() {
                before
            } else {
                before.insert(places.last())
            }
        }
    }

    /// The places of the issues that are worth a question and are skipped: the
    /// run does not take them up, or finds the budget spent.
    pub open spec fn skipped_places(
        self,
        windows: Seq<WindowView>,
        log: Seq<Exchange>,
    ) -> Set<int> {
        let places = taken_up(self.issues, self.bridge);
        self.passed_over(places, windows, log).union(
            eligible_places(self.issues).skip(places.len() as int).to_set(),
        )
    }
}

/// Whether an issue was judged.
pub open spec fn was_judged(before: IssueView, after: IssueView) -> bool {
    exists|matched: Option<Seq<char>>, detail: Seq<char>|
        after == #[trigger] crate::issue::judged(before, matched, detail)
}

/// Whether an issue is what it was, but for the note that no answer came at
/// the end of its context.
pub open spec fn is_noted(before: IssueView, after: IssueView) -> bool {
    &&& after == unanswered(before)
    &&& after.severity == before.severity
    &&& after.context matches Some(c) && "sampling timeout/unavailable"@.is_suffix_of(c)
}

/// What asking or recalling does to an issue.
proof fn lemma_step_settles(s: RunView, place: int, window: WindowView, log: Seq<Exchange>)
    requires
        0 <= place < s.issues.len(),
        s.bridge.has_budget(),
    ensures
        ({
            let after = s.step(place, window, log);
            &&& after.skipped == s.skipped
            &&& after.issues == s.issues.update(place, after.issues[place])
            &&& was_judged(s.issues[place], after.issues[place]) || is_noted(
                s.issues[place],
                after.issues[place],
            )
        }),
{
    let issue = s.issues[place];
    let after = s.step(place, window, log);
    match recalled(s.judgments, s.answers, window, issue) {
        Some((matched, detail)) => {
            assert(after.issues[place] == crate::issue::judged(issue, matched, detail));
        },
        None => {
            match log[s.bridge.log.len() as int].reply {
                Some(text) => {
                    let matched = crate::matching::matching(text, issue.suggestions);
                    assert(after.issues[place] == crate::issue::judged(
                        issue,
                        matched,
                        answer_detail(matched, text),
                    ));
                },
                None => {
                    let note = "sampling timeout/unavailable"@;
                    let c = unanswered(issue).context->0;
                    assert(c.subrange(c.len() - note.len(), c.len() as int) =~= note);
                    assert(after.issues[place] == unanswered(issue));
                },
            }
        },
    }
}

/// What a run over distinct places does to each issue.
proof fn lemma_run_accounts(
    start: RunView,
    places: Seq<int>,
    windows: Seq<WindowView>,
    log: Seq<Exchange>,
)
    requires
        are_places(places, start.issues),
        places.no_duplicates(),
    ensures
        ({
            let end = start.run(places, windows, log);
            let passed = start.passed_over(places, windows, log);
            &&& passed.finite()
            &&& passed.len() == end.skipped - start.skipped
            &&& forall|i: int| #[trigger] passed.contains(i) ==> places.contains(i)
            &&& end.issues.len() == start.issues.len()
            &&& forall|i: int|
                0 <= i < start.issues.len() && (!places.contains(i) || passed.contains(i))
                    ==> #[trigger] end.issues[i] == start.issues[i]
            &&& forall|i: int|
                0 <= i < start.issues.len() && places.contains(i) && !passed.contains(i) ==> (
                was_judged(start.issues[i], #[trigger] end.issues[i]) || is_noted(
                    start.issues[i],
                    end.issues[i],
                ))
        }),
    decreases places.len(),
{
    if places.len() > 0 {
        let front = places.drop_last();
        let place = places.last();
        assert(places[places.len() - 1] == place);
        assert(0 <= place < start.issues.len());
        assert forall|k: int| 0 <= k < front.len() implies 0 <= #[trigger] front[k]
            < start.issues.len() by {
            assert(front[k] == places[k]);
        }
        assert(front.no_duplicates()) by {
            assert forall|i: int, j: int| 0 <= i < front.len() && 0 <= j < front.len() && i
                != j implies front[i] != front[j] by {
                assert(front[i] == places[i] && front[j] == places[j]);
            }
        }
        lemma_run_accounts(start, front, windows, log);
        let now = start.run(front, windows, log);
        let passed = start.passed_over(front, windows, log);
        assert(!front.contains(place)) by {
            if front.contains(place) {
                let k = choose|k: int| 0 <= k < front.len() && front[k] == place;
                assert(places[k] == place);
            }
        }
        assert forall|i: int| places.contains(i) <==> i == place || front.contains(i) by {
            if front.contains(i) {
                let k = choose|k: int| 0 <= k < front.len() && front[k] == i;
                assert(places[k] == i);
            }
            if places.contains(i) && i != place {
                let k = choose|k: int| 0 <= k < places.len() && places[k] == i;
                assert(front[k] == i);
            }
        }
        assert(!passed.contains(place));
        assert(now.issues[place] == start.issues[place]);
        if now.bridge.has_budget() {
            lemma_step_settles(now, place, windows[place], log);
        }
    }
}

/// The places of eligible issues come in rising order, so none comes twice.
proof fn lemma_eligible_places_distinct(issues: Seq<IssueView>)
    ensures
        eligible_places(issues).no_duplicates(),
    decreases issues.len(),
{
    if issues.len() > 0 {
        let front = issues.drop_last();
        lemma_eligible_places_distinct(front);
        lemma_eligible_places(front);
    }
}

/// The whole account of a run. Every issue that is worth a question is skipped,
/// judged, or noted as unanswered. The skipped ones are as many as the run
/// reports, and they are left as they were, like the issues that are not worth
/// a question. A judged one is marked as judged; a noted one keeps its severity
/// and ends its context with the note. The budget is kept, each question that
/// is paid for is in the log, and where nothing is worth a question nothing is
/// asked or skipped.
pub proof fn law_every_eligible_issue_is_accounted_for(
    start: RunView,
    windows: Seq<WindowView>,
    log: Seq<Exchange>,
)
    requires
        start.bridge.used <= start.bridge.budget,
        start.skipped == 0,
    ensures
        ({
            let places = taken_up(start.issues, start.bridge);
            let end = start.run(places, windows, log);
            let skipped = start.skipped_places(windows, log);
            &&& end.issues.len() == start.issues.len()
            &&& skipped.finite()
            &&& skipped.len() == eligible_places(start.issues).len() - places.len() + end.skipped
            &&& forall|i: int| #[trigger]
                skipped.contains(i) ==> 0 <= i < start.issues.len() && crate::matching::eligible(
                    start.issues[i],
                )
            &&& forall|i: int|
                0 <= i < start.issues.len() && (skipped.contains(i) || !crate::matching::eligible(
                    start.issues[i],
                )) ==> #[trigger] end.issues[i] == start.issues[i]
            &&& forall|i: int|
                0 <= i < start.issues.len() && crate::matching::eligible(start.issues[i])
                    && !skipped.contains(i) ==> (was_judged(
                    start.issues[i],
                    #[trigger] end.issues[i],
                ) && end.issues[i].llm_judged) || is_noted(start.issues[i], end.issues[i])
            &&& start.bridge.used <= end.bridge.used <= end.bridge.budget
            &&& end.bridge.log.len() - start.bridge.log.len() == end.bridge.used
                - start.bridge.used
            &&& eligible_places(start.issues).len() == 0 ==> end == start && skipped.len() == 0
        }),
{
    let all = eligible_places(start.issues);
    let places = taken_up(start.issues, start.bridge);
    let rest = all.skip(places.len() as int);
    let end = start.run(places, windows, log);
    let passed = start.passed_over(places, windows, log);
    let skipped = start.skipped_places(windows, log);
    lemma_eligible_places(start.issues);
    lemma_eligible_places_distinct(start.issues);
    lemma_taken_up(start.issues, start.bridge);
    law_budget_is_kept(start, places, windows, log);
    assert(places =~= all.take(places.len() as int));
    assert(places.no_duplicates());
    assert(rest.no_duplicates());
    lemma_run_accounts(start, places, windows, log);
    rest.unique_seq_to_set();
    assert forall|i: int| all.contains(i) <==> places.contains(i) || rest.contains(i) by {
        if all.contains(i) {
            let k = choose|k: int| 0 <= k < all.len() && all[k] == i;
            if k < places.len() {
                assert(places[k] == i);
            } else {
                assert(rest[k - places.len()] == i);
            }
        }
        if places.contains(i) {
            let k = choose|k: int| 0 <= k < places.len() && places[k] == i;
            assert(all[k] == i);
        }
        if rest.contains(i) {
            let k = choose|k: int| 0 <= k < rest.len() && rest[k] == i;
            assert(all[places.len() + k] == i);
        }
    }
    assert forall|i: int| !(places.contains(i) && rest.contains(i)) by {
        if places.contains(i) && rest.contains(i) {
            let a = choose|a: int| 0 <= a < places.len() && places[a] == i;
            let b = choose|b: int| 0 <= b < rest.len() && rest[b] == i;
            assert(all[a] == i && all[places.len() + b] == i);
        }
    }
    assert(passed.disjoint(rest.to_set()));
    vstd::set_lib::lemma_set_disjoint_lens(passed, rest.to_set());
    assert forall|i: int| 0 <= i < start.issues.len() implies (all.contains(i)
        <==> crate::matching::eligible(#[trigger] start.issues[i])) by {
        lemma_eligible_at(start.issues, i);
    }
    assert forall|i: int| #[trigger] skipped.contains(i) implies 0 <= i < start.issues.len()
        && crate::matching::eligible(start.issues[i]) by {
        assert(all.contains(i));
        let k = choose|k: int| 0 <= k < all.len() && all[k] == i;
        assert(0 <= all[k] < start.issues.len());
    }
}

/// Judgments are kept under one key exactly where all that they rest on is the
/// same: the ruleset, the two versions, the profile, the type of content, the
/// context, the term, the anchor, and the suggestions whatever their order.
pub proof fn law_what_a_judgment_rests_on(
    a: CtxView,
    window_a: WindowView,
    issue_a: IssueView,
    b: CtxView,
    window_b: WindowView,
    issue_b: IssueView,
)
    ensures
        a.key(window_a, issue_a) == b.key(window_b, issue_b) <==> {
            &&& a.ruleset_hash == b.ruleset_hash
            &&& a.judgment_prompt_version == b.judgment_prompt_version
            &&& a.local_disambig_version == b.local_disambig_version
            &&& a.profile == b.profile
            &&& a.content_type == b.content_type
            &&& window_a.cache_text == window_b.cache_text
            &&& issue_a.found == issue_b.found
            &&& crate::cache::anchor(issue_a.english) == crate::cache::anchor(issue_b.english)
            &&& forall|t: Seq<char>| #[trigger]
                issue_a.suggestions.contains(t) <==> issue_b.suggestions.contains(t)
        },
{
    let x = crate::judgment::text_set(issue_a.suggestions);
    let y = crate::judgment::text_set(issue_b.suggestions);
    if a.key(window_a, issue_a) == b.key(window_b, issue_b) {
        assert(x == y);
        assert forall|t: Seq<char>| #[trigger] issue_a.suggestions.contains(t)
            <==> issue_b.suggestions.contains(t) by {
            assert(x.contains(t) == issue_a.suggestions.contains(t));
            assert(y.contains(t) == issue_b.suggestions.contains(t));
        }
    }
    if forall|t: Seq<char>| #[trigger] issue_a.suggestions.contains(t)
        <==> issue_b.suggestions.contains(t) {
        assert forall|t: Seq<char>| x.contains(t) == y.contains(t) by {
            assert(issue_a.suggestions.contains(t) <==> issue_b.suggestions.contains(t));
        }
        assert(x =~= y);
    }
}

/// Whether a judgment of a former call is at hand for an issue.
pub open spec fn is_judged_before(s: RunView, window: WindowView, issue: IssueView) -> bool {
    s.judgments matches Some(ctx) && ctx.made.contains_key(ctx.key(window, issue))
}

/// Whether the question about an issue was answered before in a run.
pub open spec fn is_answered_before(s: RunView, window: WindowView, issue: IssueView) -> bool {
    s.answers.contains_key(
        crate::cache::key_of(issue.found, crate::cache::anchor(issue.english), window.text),
    )
}

/// The client is asked about an issue exactly where there is budget and neither
/// a judgment of a former call nor an answer of this run is at hand. It is asked
/// one question, about that issue in its own window, and that is paid for. Where
/// it is not asked nothing is paid, and only a spent budget makes the run skip
/// the issue.
pub proof fn law_when_the_client_is_asked(
    s: RunView,
    place: int,
    window: WindowView,
    log: Seq<Exchange>,
)
    requires
        0 <= place < s.issues.len(),
    ensures
        ({
            let issue = s.issues[place];
            let after = s.step(place, window, log);
            let n = s.bridge.log.len() as int;
            let asks = s.bridge.used < s.bridge.budget && !is_judged_before(s, window, issue)
                && !is_answered_before(s, window, issue);
            &&& asks ==> {
                &&& after.bridge.log.len() == n + 1
                &&& after.bridge.log.take(n) == s.bridge.log
                &&& after.bridge.log[n].tag == log[n].tag
                &&& after.bridge.log[n].reply == log[n].reply
                &&& after.bridge.log[n].request == crate::sampling::disambiguation_request(
                    log[n].tag,
                    issue,
                    window.text,
                )
                &&& after.bridge.used == s.bridge.used + 1
                &&& after.bridge.budget == s.bridge.budget
            }
            &&& !asks ==> after.bridge == s.bridge
            &&& after.skipped == if s.bridge.used < s.bridge.budget {
                s.skipped
            } else {
                s.skipped + 1
            }
        }),
{
    let n = s.bridge.log.len() as int;
    let after = s.step(place, window, log);
    if after.bridge.log.len() == n + 1 {
        assert(after.bridge.log.take(n) =~= s.bridge.log);
    }
}

/// What an issue is after the client was asked about it, by what the client
/// replied. A reply judges the issue: where it names a suggestion, that one
/// comes first and the severity stays; where it names none, the issue becomes
/// informational and keeps its suggestions as they were; either way the issue
/// says so, with the beginning of a reply that names none. Without a reply the
/// issue is what it was, but for the note at the end of what it said before. The
/// note is made nowhere else.
pub open spec fn decided_by_reply(
    before: IssueView,
    reply: Option<Seq<char>>,
    after: IssueView,
) -> bool {
    let note = "sampling timeout/unavailable"@;
    match reply {
        Some(text) => {
            &&& after.llm_judged
            &&& after.severity == if crate::matching::names_one(text, before.suggestions) {
                before.severity
            } else {
                crate::issue::Severity::Info
            }
            &&& crate::matching::names_one(text, before.suggestions) ==> {
                &&& after.suggestions.len() == before.suggestions.len()
                &&& crate::matching::says_something(after.suggestions[0])
                &&& crate::matching::stands_in(after.suggestions[0], text)
                &&& before.suggestions.contains(after.suggestions[0])
                &&& after.context == Some(
                    "LLM disambiguation: '"@ + after.suggestions[0] + "' ("@
                        + "sampling confirmed"@ + ")"@,
                )
            }
            &&& !crate::matching::names_one(text, before.suggestions) ==> {
                &&& after.suggestions == before.suggestions
                &&& after.suggested_rewrite == before.suggested_rewrite
                &&& after.context == Some(
                    "LLM disambiguation: rejected ("@ + ("response: '"@ + (if text.len() <= 30 {
                        text
                    } else {
                        text.take(30)
                    }) + "'"@) + ")"@,
                )
            }
            &&& !note.is_suffix_of(after.context->0)
        },
        None => {
            &&& after == IssueView { context: after.context, ..before }
            &&& before.context is None ==> after.context == Some(note)
            &&& before.context matches Some(c) ==> after.context == Some(
                if c.len() == 0 {
                    note
                } else {
                    c + "; "@ + note
                },
            )
        },
    }
}

/// A text that ends in a bracket does not end in the note.
proof fn lemma_no_note(s: Seq<char>)
    requires
        s.len() > 0,
        s.last() == ')',
    ensures
        !"sampling timeout/unavailable"@.is_suffix_of(s),
{
    reveal_strlit("sampling timeout/unavailable");
    let note = "sampling timeout/unavailable"@;
    assert(note[note.len() - 1] == 'e');
    if note.is_suffix_of(s) {
        let end = s.subrange(s.len() - note.len(), s.len() as int);
        assert(end[note.len() - 1] == s.last());
    }
}

/// The reply decides what becomes of the issue that was asked about, and no
/// other issue is touched.
pub proof fn law_reply_decides_the_issue(
    s: RunView,
    place: int,
    window: WindowView,
    log: Seq<Exchange>,
)
    requires
        0 <= place < s.issues.len(),
        s.bridge.used < s.bridge.budget,
        !is_judged_before(s, window, s.issues[place]),
        !is_answered_before(s, window, s.issues[place]),
    ensures
        ({
            let after = s.step(place, window, log);
            let reply = log[s.bridge.log.len() as int].reply;
            &&& decided_by_reply(s.issues[place], reply, after.issues[place])
            &&& same_issue(after.issues[place], s.issues[place])
            &&& after.issues.len() == s.issues.len()
            &&& forall|i: int|
                0 <= i < s.issues.len() && i != place ==> #[trigger] after.issues[i] == s.issues[i]
        }),
{
    let issue = s.issues[place];
    let after = s.step(place, window, log);
    let now = after.issues[place];
    match log[s.bridge.log.len() as int].reply {
        Some(text) => {
            assert(now == answered(issue, text));
            law_an_answer_decides_by_itself(issue, text);
        },
        None => {
            assert(now == unanswered(issue));
            law_an_answer_decides_by_itself(issue, Seq::empty());
        },
    }
}

/// What is known decides where it is known: a judgment of a former call, else an
/// answer of this run. A term that was confirmed is confirmed again, promoted
/// where it is a suggestion, and the severity stays; a rejection rejects again.
/// The issue says which of the two it was, and quotes what a judgment said.
pub proof fn law_what_is_known_decides(
    s: RunView,
    place: int,
    window: WindowView,
    log: Seq<Exchange>,
)
    requires
        0 <= place < s.issues.len(),
        s.bridge.used < s.bridge.budget,
        is_judged_before(s, window, s.issues[place]) || is_answered_before(
            s,
            window,
            s.issues[place],
        ),
    ensures
        ({
            let issue = s.issues[place];
            let after = s.step(place, window, log);
            let now = after.issues[place];
            let judgment = s.judgments->0.made[s.judgments->0.key(window, issue)];
            let first = is_judged_before(s, window, issue);
            let term = if first {
                judgment.chosen_replacement
            } else {
                s.answers[crate::cache::key_of(
                    issue.found,
                    crate::cache::anchor(issue.english),
                    window.text,
                )]
            };
            let detail = if !first {
                "cached"@
            } else if judgment.explanation.len() == 0 {
                "judgment-cache"@
            } else {
                "judgment-cache: "@ + judgment.explanation
            };
            &&& now.llm_judged
            &&& now.severity == if term is Some {
                issue.severity
            } else {
                crate::issue::Severity::Info
            }
            &&& term matches Some(t) ==> now.context == Some(
                "LLM disambiguation: '"@ + t + "' ("@ + detail + ")"@,
            )
            &&& term is None ==> now.context == Some(
                "LLM disambiguation: rejected ("@ + detail + ")"@,
            )
            &&& term matches Some(t) ==> (issue.suggestions.contains(t) ==> now.suggestions[0] == t)
            &&& (term matches Some(t) ==> !issue.suggestions.contains(t)) ==> now.suggestions
                == issue.suggestions
            &&& same_issue(now, issue)
            &&& after == RunView { issues: s.issues.update(place, now), ..s }
        }),
{
    let issue = s.issues[place];
    let after = s.step(place, window, log);
    let now = after.issues[place];
    let (term, detail) = recalled(s.judgments, s.answers, window, issue)->0;
    assert(now == crate::issue::judged(issue, term, detail));
    crate::issue::law_judgment_and_severity(issue, term, detail);
    crate::issue::law_judgment_keeps_the_suggestions(issue, term, detail);
    crate::issue::law_judgment_is_told(issue, term, detail);
    if let Some(t) = term {
        if issue.suggestions.contains(t) {
            crate::issue::law_confirmed_term_is_first(issue, t, detail);
        }
    }
    if term matches Some(t) ==> !issue.suggestions.contains(t) {
        crate::issue::law_nothing_else_moves_a_suggestion(issue, term, detail);
    }
}

/// A reply is remembered, for this run and for later calls, under the question
/// and under all that the judgment rests on: the suggestion that it names, how
/// sure that is, what the client said and that it was the client. What was known
/// of other questions stays. Silence is not remembered.
pub proof fn law_what_is_remembered(
    s: RunView,
    place: int,
    window: WindowView,
    log: Seq<Exchange>,
)
    requires
        0 <= place < s.issues.len(),
    ensures
        ({
            let issue = s.issues[place];
            let after = s.step(place, window, log);
            let asked = s.bridge.used < s.bridge.budget && !is_judged_before(s, window, issue)
                && !is_answered_before(s, window, issue);
            let reply = log[s.bridge.log.len() as int].reply;
            &&& !asked || reply is None ==> after.answers == s.answers && after.judgments
                == s.judgments
            &&& asked ==> (reply matches Some(text) ==> {
                let term = crate::matching::matching(text, issue.suggestions);
                &&& after.answers == s.answers.insert(
                    crate::cache::key_of(
                        issue.found,
                        crate::cache::anchor(issue.english),
                        window.text,
                    ),
                    term,
                )
                &&& s.judgments is None ==> after.judgments is None
                &&& s.judgments matches Some(ctx) ==> after.judgments == Some(
                    CtxView {
                        made: ctx.made.insert(
                            ctx.key(window, issue),
                            JudgmentValueView {
                                chosen_replacement: term,
                                confidence_percent: if term is Some {
                                    90
                                } else {
                                    10
                                },
                                explanation: text,
                                source: "mcp-host"@,
                            },
                        ),
                        ..ctx
                    },
                )
            })
        }),
{
    let issue = s.issues[place];
    if let Some(text) = log[s.bridge.log.len() as int].reply {
        let matched = crate::matching::matching(text, issue.suggestions);
        let detail = answer_detail(matched, text);
        let after = crate::issue::judged(issue, matched, detail);
        crate::issue::law_judgment_keeps_the_suggestions(issue, matched, detail);
        crate::issue::law_judgment_and_severity(issue, matched, detail);
        if let Some(ctx) = s.judgments {
            law_what_a_judgment_rests_on(ctx, window, after, ctx, window, issue);
        }
    }
}

/// What is worth a question is taken up in the order of the issues, each once,
/// up to ten issues for every question that may still be asked; the rest is left.
pub proof fn law_what_is_taken_up(issues: Seq<IssueView>, bridge: BridgeView, i: int)
    requires
        0 <= i < issues.len(),
        issues.len() <= usize::MAX,
        bridge.used <= bridge.budget,
    ensures
        ({
            let all = eligible_places(issues);
            let taken = taken_up(issues, bridge);
            let most = 10 * (bridge.budget - bridge.used);
            &&& all.contains(i) <==> crate::matching::eligible(issues[i])
            &&& forall|a: int, b: int| 0 <= a < b < all.len() ==> #[trigger] all[a] < #[trigger] all[b]
            &&& taken.len() == if all.len() <= most {
                all.len() as int
            } else {
                most
            }
            &&& taken == all.take(taken.len() as int)
        }),
{
    lemma_eligible_at(issues, i);
    lemma_eligible_places(issues);
    lemma_eligible_places_rise(issues);
    let all = eligible_places(issues);
    assert(taken_up(issues, bridge) =~= all.take(taken_up(issues, bridge).len() as int));
}

/// The places of eligible issues rise.
proof fn lemma_eligible_places_rise(issues: Seq<IssueView>)
    ensures
        forall|a: int, b: int|
            0 <= a < b < eligible_places(issues).len() ==> #[trigger] eligible_places(issues)[a]
                < #[trigger] eligible_places(issues)[b],
    decreases issues.len(),
{
    if issues.len() > 0 {
        lemma_eligible_places_rise(issues.drop_last());
        lemma_eligible_places(issues.drop_last());
    }
}

/// What a run did at a place stays as it is, and so do the exchanges it noted.
proof fn lemma_later_steps(
    start: RunView,
    places: Seq<int>,
    windows: Seq<WindowView>,
    log: Seq<Exchange>,
    n: int,
)
    requires
        are_places(places, start.issues),
        places.no_duplicates(),
        0 <= n < places.len(),
    ensures
        ({
            let next = start.run(places.take(n + 1), windows, log);
            let end = start.run(places, windows, log);
            &&& end.issues.len() == start.issues.len()
            &&& end.issues[places[n]] == next.issues[places[n]]
            &&& next.bridge.log.is_prefix_of(end.bridge.log)
        }),
    decreases places.len(),
{
    let front = places.drop_last();
    assert forall|k: int| 0 <= k < front.len() implies 0 <= #[trigger] front[k]
        < start.issues.len() by {
        assert(front[k] == places[k]);
    }
    assert(0 <= places[places.len() - 1] < start.issues.len());
    assert(front.no_duplicates());
    lemma_run_accounts(start, places, windows, log);
    let end = start.run(places, windows, log);
    if n == places.len() - 1 {
        assert(places.take(n + 1) =~= places);
        assert(end.bridge.log =~= end.bridge.log.subrange(0, end.bridge.log.len() as int));
    } else {
        lemma_later_steps(start, front, windows, log, n);
        lemma_run_accounts(start, front, windows, log);
        assert(front.take(n + 1) =~= places.take(n + 1));
        assert(front[n] == places[n]);
        let now = start.run(front, windows, log);
        let last = places.last();
        assert(last == places[places.len() - 1]);
        assert(places[n] != last);
        law_when_the_client_is_asked(now, last, windows[last], log);
        let next = start.run(places.take(n + 1), windows, log);
        assert(next.bridge.log =~= end.bridge.log.subrange(0, next.bridge.log.len() as int)) by {
            assert(next.bridge.log =~= now.bridge.log.subrange(
                0,
                next.bridge.log.len() as int,
            ));
            if end.bridge.log.len() > now.bridge.log.len() {
                assert(end.bridge.log.take(now.bridge.log.len() as int) == now.bridge.log);
                assert forall|k: int| 0 <= k < now.bridge.log.len() implies end.bridge.log[k]
                    == now.bridge.log[k] by {
                    assert(end.bridge.log.take(now.bridge.log.len() as int)[k]
                        == end.bridge.log[k]);
                }
            }
        }
    }
}

/// In a whole run, each issue is what its own reply made of it. At its turn the
/// issue is still as it was at the start. If the run finds the budget spent, it
/// stays so. If the client is asked about it, the exchange is in the log of the
/// run with the question about this issue in its own window, and what the issue
/// is in the end is decided by that reply. If something is known already, the
/// issue is judged. What comes later does not touch it.
pub proof fn law_each_issue_by_its_own_reply(
    start: RunView,
    places: Seq<int>,
    windows: Seq<WindowView>,
    log: Seq<Exchange>,
    n: int,
)
    requires
        are_places(places, start.issues),
        places.no_duplicates(),
        0 <= n < places.len(),
    ensures
        ({
            let p = places[n];
            let turn = start.run(places.take(n), windows, log);
            let end = start.run(places, windows, log);
            let before = start.issues[p];
            let after = end.issues[p];
            let k = turn.bridge.log.len() as int;
            let known = is_judged_before(turn, windows[p], before) || is_answered_before(
                turn,
                windows[p],
                before,
            );
            &&& turn.issues[p] == before
            &&& turn.bridge.used >= turn.bridge.budget ==> after == before
            &&& turn.bridge.used < turn.bridge.budget && known ==> after.llm_judged && same_issue(
                after,
                before,
            )
            &&& turn.bridge.used < turn.bridge.budget && !known ==> {
                &&& decided_by_reply(before, log[k].reply, after)
                &&& same_issue(after, before)
                &&& k < end.bridge.log.len()
                &&& end.bridge.log[k].reply == log[k].reply
                &&& end.bridge.log[k].tag == log[k].tag
                &&& end.bridge.log[k].request == crate::sampling::disambiguation_request(
                    log[k].tag,
                    before,
                    windows[p].text,
                )
            }
        }),
{
    let p = places[n];
    let front = places.take(n);
    let upto = places.take(n + 1);
    let turn = start.run(front, windows, log);
    let next = start.run(upto, windows, log);
    let end = start.run(places, windows, log);
    assert(upto.drop_last() =~= front);
    assert(upto.last() == p);
    assert forall|k: int| 0 <= k < front.len() implies 0 <= #[trigger] front[k]
        < start.issues.len() by {
        assert(front[k] == places[k]);
    }
    assert(front.no_duplicates());
    assert(!front.contains(p)) by {
        if front.contains(p) {
            let k = choose|k: int| 0 <= k < front.len() && front[k] == p;
            assert(places[k] == p);
        }
    }
    lemma_run_accounts(start, front, windows, log);
    assert(turn.issues[p] == start.issues[p]);
    lemma_later_steps(start, places, windows, log, n);
    law_when_the_client_is_asked(turn, p, windows[p], log);
    let k = turn.bridge.log.len() as int;
    if turn.bridge.used < turn.bridge.budget {
        if is_judged_before(turn, windows[p], start.issues[p]) || is_answered_before(
            turn,
            windows[p],
            start.issues[p],
        ) {
            law_what_is_known_decides(turn, p, windows[p], log);
        } else {
            law_reply_decides_the_issue(turn, p, windows[p], log);
            assert(end.bridge.log.subrange(0, next.bridge.log.len() as int)[k]
                == end.bridge.log[k]);
        }
    }
}

/// A run goes through its places in order, one step each, with the window of
/// each place.
pub proof fn law_a_run_is_its_steps(
    start: RunView,
    places: Seq<int>,
    place: int,
    windows: Seq<WindowView>,
    log: Seq<Exchange>,
)
    ensures
        start.run(places.push(place), windows, log) == start.run(places, windows, log).step(
            place,
            windows[place],
            log,
        ),
        start.run(Seq::empty(), windows, log) == start,
{
    assert(places.push(place).drop_last() =~= places);
}

/// Every field of a window and of a context is part of its model, as it is, and
/// so is every issue and every window of a list, in its place.
pub proof fn law_models_of_a_run(
    window: ContextWindow,
    ctx: SamplingCacheCtx<'_>,
    issues: Seq<Issue>,
    windows: Seq<ContextWindow>,
    i: int,
)
    ensures
        window@.text == window.text@,
        window@.cache_text == window.cache_text@,
        ctx@.made == old(ctx.cache)@,
        ctx@.ruleset_hash == ctx.ruleset_hash@,
        ctx@.profile == ctx.profile@,
        ctx@.content_type == ctx.content_type@,
        ctx@.judgment_prompt_version == ctx.judgment_prompt_version,
        ctx@.local_disambig_version == ctx.local_disambig_version,
        issue_views(issues).len() == issues.len(),
        0 <= i < issues.len() ==> issue_views(issues)[i] == issues[i]@,
        window_views(windows).len() == windows.len(),
        0 <= i < windows.len() ==> window_views(windows)[i] == windows[i]@,
{
}

/// What an answer, or the want of one, makes of an issue by itself is what it
/// makes of it in a run.
pub proof fn law_an_answer_decides_by_itself(issue: IssueView, text: Seq<char>)
    ensures
        decided_by_reply(issue, Some(text), answered(issue, text)),
        decided_by_reply(issue, None, unanswered(issue)),
        same_issue(answered(issue, text), issue),
        same_issue(unanswered(issue), issue),
{
    let matched = crate::matching::matching(text, issue.suggestions);
    let detail = answer_detail(matched, text);
    let now = answered(issue, text);
    crate::matching::law_when_a_suggestion_is_named(text, issue.suggestions);
    crate::issue::law_judgment_and_severity(issue, matched, detail);
    crate::issue::law_judgment_keeps_the_suggestions(issue, matched, detail);
    crate::issue::law_judgment_is_told(issue, matched, detail);
    if let Some(term) = matched {
        crate::issue::law_confirmed_term_is_first(issue, term, detail);
    } else {
        crate::issue::law_nothing_else_moves_a_suggestion(issue, matched, detail);
    }
    reveal_strlit(")");
    assert(now.context->0.last() == ')');
    lemma_no_note(now.context->0);
    let note = "sampling timeout/unavailable"@;
    let none = Seq::<char>::empty();
    assert(none + none + note =~= note);
    if let Some(c) = issue.context {
        if c.len() == 0 {
            assert(c + none + note =~= note);
        }
    }
}

} // verus!
