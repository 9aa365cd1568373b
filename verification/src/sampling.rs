//! Questions to the client's language model, under a budget: what is asked, how
//! often, and what an answer means. Where a question goes is the business of a
//! [`PeerSampler`].

use crate::bulk::{read_bulk_reply, write_bulk_question, BulkConfirmTerm};
use crate::issue::{copy_text, Issue, IssueView};
use crate::json::{push_member, Json, JsonView};
use crate::matching::find_matching_suggestion;
use crate::prompt::{
    generate_nonce, nfc_normalize_context, sampling_system_prompt, tag_name, wrap_in,
    wrap_inert_text,
};
use crate::text::{bytes_in, joined};
use std::collections::HashMap;
use vstd::prelude::*;

verus! {

/// How many questions one call may ask, unless told otherwise.
pub const DEFAULT_SAMPLING_BUDGET: usize = 5;

/// How many seconds a client has for an answer, unless told otherwise.
pub const DEFAULT_SAMPLING_TIMEOUT_SECS: u64 = 5;

/// The most tokens an answer that is one term may take.
pub const TERM_TOKENS: i64 = 32;

/// The most tokens an answer that is a list of verdicts may take.
pub const VERDICT_TOKENS: i64 = 128;

/// What a client was sent, each request with the text of the answer if one
/// came.
pub type SentRecord = Seq<(JsonView, Option<Seq<char>>)>;

/// The client, as far as questions go.
pub trait PeerSampler: Send {
    /// Everything the client was sent so far, and what it replied. This is a
    /// record for contracts to speak of: it is never called, and says nothing
    /// of what a client answers.
    spec fn sent(&self) -> SentRecord;

    /// Sends the parameters of a `sampling/createMessage` request and blocks
    /// for the text of the answer. There is none where the client took too
    /// long or failed.
    fn create_message(&mut self, params: Json) -> (r: Option<String>)
        ensures
            final(self).sent() == old(self).sent().push(
                (params.view(), crate::issue::text_view(r)),
            ),
    ;
}

/// The parameters of a request.
pub open spec fn request_json(
    question: Seq<char>,
    system_prompt: Seq<char>,
    max_tokens: int,
) -> JsonView {
    let content = Map::<Seq<char>, JsonView>::empty().insert(
        "type"@,
        JsonView::Str("text"@),
    ).insert("text"@, JsonView::Str(question));
    let message = Map::<Seq<char>, JsonView>::empty().insert(
        "role"@,
        JsonView::Str("user"@),
    ).insert("content"@, JsonView::Object(content));
    JsonView::Object(
        Map::<Seq<char>, JsonView>::empty().insert(
            "messages"@,
            JsonView::Array(seq![JsonView::Object(message)]),
        ).insert("systemPrompt"@, JsonView::Str(system_prompt)).insert(
            "maxTokens"@,
            JsonView::Int(max_tokens),
        ).insert("includeContext"@, JsonView::Str("thisServer"@)),
    )
}

/// Writes the parameters of a request.
pub fn write_request(question: &str, system_prompt: &str, max_tokens: i64) -> (r: Json)
    ensures
        r.view() == request_json(question@, system_prompt@, max_tokens as int),
{
    let mut content: Vec<(String, Json)> = Vec::new();
    push_member(&mut content, "type", Json::Str("text".to_owned()));
    push_member(&mut content, "text", Json::Str(question.to_owned()));
    let mut message: Vec<(String, Json)> = Vec::new();
    push_member(&mut message, "role", Json::Str("user".to_owned()));
    push_member(&mut message, "content", Json::Object(content));
    let mut messages: Vec<Json> = Vec::new();
    messages.push(Json::Object(message));
    assert(crate::json::values(messages@) =~= seq![
        JsonView::Object(crate::json::members(message@)),
    ]);
    let mut params: Vec<(String, Json)> = Vec::new();
    push_member(&mut params, "messages", Json::Array(messages));
    push_member(&mut params, "systemPrompt", Json::Str(system_prompt.to_owned()));
    push_member(&mut params, "maxTokens", Json::Int(max_tokens));
    push_member(&mut params, "includeContext", Json::Str("thisServer".to_owned()));
    Json::Object(params)
}

/// One question and what came of it.
pub struct Exchange {
    /// The name of the delimiters in the question.
    pub tag: Seq<char>,
    /// The parameters that were sent.
    pub request: JsonView,
    /// The text of the answer, if one came.
    pub reply: Option<Seq<char>>,
}

impl Exchange {
    /// What the client knows of the exchange.
    pub open spec fn on_record(self) -> (JsonView, Option<Seq<char>>) {
        (self.request, self.reply)
    }
}

/// The model of a [`SamplingBridge`].
pub struct BridgeView {
    pub budget: usize,
    pub used: usize,
    pub est_prompt_tokens: u64,
    pub est_completion_tokens: u64,
    /// Everything that was asked, in order.
    pub log: Seq<Exchange>,
}

/// Asks questions under a budget.
pub struct SamplingBridge<'a, P: PeerSampler> {
    peer: &'a mut P,
    budget: usize,
    used: usize,
    /// About how many tokens all questions took.
    pub est_prompt_tokens: u64,
    /// About how many tokens all answers took.
    pub est_completion_tokens: u64,
    log: Ghost<Seq<Exchange>>,
}

impl<'a, P: PeerSampler> View for SamplingBridge<'a, P> {
    type V = BridgeView;

    closed spec fn view(&self) -> BridgeView {
        BridgeView {
            budget: self.budget,
            used: self.used,
            est_prompt_tokens: self.est_prompt_tokens,
            est_completion_tokens: self.est_completion_tokens,
            log: self.log@,
        }
    }
}

/// The sum of two numbers, or the greatest number there is.
pub open spec fn saturating_sum(a: int, b: int) -> u64 {
    if a + b <= u64::MAX {
        (a + b) as u64
    } else {
        u64::MAX
    }
}

/// About how many tokens a text takes: one for every three bytes or part of
/// three.
pub open spec fn tokens(s: Seq<char>) -> u64 {
    saturating_sum(crate::text::byte_len(s) as int, 2) / 3
}

/// About how many tokens a text takes.
fn estimate_tokens(s: &str) -> (r: u64)
    ensures
        r == tokens(s@),
{
    (bytes_in(s) as u64).saturating_add(2) / 3
}

impl BridgeView {
    /// Whether another question may be asked.
    pub open spec fn has_budget(self) -> bool {
        self.used < self.budget
    }

    /// The bridge after one more question. An answer adds to the estimate; the
    /// question is paid for whether one comes or not.
    pub open spec fn asked(self, question: Seq<char>, x: Exchange) -> BridgeView {
        BridgeView {
            budget: self.budget,
            used: (self.used + 1) as usize,
            est_prompt_tokens: saturating_sum(
                self.est_prompt_tokens as int,
                tokens(question) as int,
            ),
            est_completion_tokens: match x.reply {
                Some(text) => saturating_sum(
                    self.est_completion_tokens as int,
                    tokens(text) as int,
                ),
                None => self.est_completion_tokens,
            },
            log: self.log.push(x),
        }
    }
}

/// What an answer says about an issue.
#[derive(Debug)]
pub struct SamplingResult {
    /// The text of the answer.
    pub text: String,
    /// The suggestion that it names.
    pub suggested_term: Option<String>,
}

impl Clone for SamplingResult {
    fn clone(&self) -> (r: SamplingResult)
        ensures
            r.text@ == self.text@,
            crate::issue::text_view(r.suggested_term) == crate::issue::text_view(
                self.suggested_term,
            ),
    {
        SamplingResult {
            text: self.text.clone(),
            suggested_term: copy_text(&self.suggested_term),
        }
    }
}

/// The English anchor as a question shows it.
pub open spec fn shown_anchor(english: Option<Seq<char>>) -> Seq<char> {
    match english {
        Some(e) => e,
        None => "(unknown)"@,
    }
}

/// The question about an issue whose context is delimited already.
pub open spec fn question_text(
    tag: Seq<char>,
    issue: IssueView,
    wrapped_context: Seq<char>,
) -> Seq<char> {
    wrapped_context + "\n"@ + crate::prompt::wrapped(tag, issue.found) + "(en:"@ + shown_anchor(
        issue.english,
    ) + ") zh-TW:"@ + crate::text::join(issue.suggestions, ", "@)
        + "\nCorrect term? If unsure:UNKNOWN"@
}

/// The question about an issue. The context and what was found come from the
/// text and stand between delimiters.
pub open spec fn disambiguation_question(
    tag: Seq<char>,
    issue: IssueView,
    window: Seq<char>,
) -> Seq<char> {
    question_text(tag, issue, crate::prompt::wrapped(tag, crate::prompt::nfc(window)))
}

/// The request for an issue.
pub open spec fn disambiguation_request(
    tag: Seq<char>,
    issue: IssueView,
    window: Seq<char>,
) -> JsonView {
    request_json(
        disambiguation_question(tag, issue, window),
        crate::prompt::system_prompt(tag, "Respond with ONLY the correct term or UNKNOWN."@),
        TERM_TOKENS as int,
    )
}

/// The request for many terms.
pub open spec fn bulk_request(tag: Seq<char>, terms: Seq<BulkConfirmTerm>) -> JsonView {
    request_json(
        crate::bulk::bulk_question(tag, terms),
        crate::prompt::system_prompt(
            tag,
            "Respond with ONLY a JSON object mapping term index to boolean."@,
        ),
        VERDICT_TOKENS as int,
    )
}

/// Writes the question about an issue whose context is delimited already.
pub fn write_disambiguation_question(
    tag: &str,
    issue: &Issue,
    wrapped_context: &str,
) -> (r: String)
    ensures
        r@ == question_text(tag@, issue@, wrapped_context@),
{
    let wrapped_found = wrap_in(tag, issue.found.as_str());
    let listed = joined(&issue.suggestions, ", ");
    let english: &str = match &issue.english {
        Some(e) => e.as_str(),
        None => "(unknown)",
    };
    let mut r: String = wrapped_context.to_owned();
    r.append("\n");
    r.append(wrapped_found.as_str());
    r.append("(en:");
    r.append(english);
    r.append(") zh-TW:");
    r.append(listed.as_str());
    r.append("\nCorrect term? If unsure:UNKNOWN");
    r
}

impl<'a, P: PeerSampler> SamplingBridge<'a, P> {
    /// What the client was sent, by this bridge and before.
    pub closed spec fn peer_sent(&self) -> SentRecord {
        self.peer.sent()
    }

    /// A bridge to a client that may be asked `budget` questions.
    pub fn new(peer: &'a mut P, budget: usize) -> (r: SamplingBridge<'a, P>)
        ensures
            r@ == (BridgeView {
                budget,
                used: 0,
                est_prompt_tokens: 0,
                est_completion_tokens: 0,
                log: Seq::empty(),
            }),
            r.peer_sent() == old(peer).sent(),
    {
        SamplingBridge {
            peer,
            budget,
            used: 0,
            est_prompt_tokens: 0,
            est_completion_tokens: 0,
            log: Ghost(Seq::empty()),
        }
    }

    /// Whether another question may be asked.
    pub fn has_budget(&self) -> (r: bool)
        ensures
            r == self@.has_budget(),
    {
        self.used < self.budget
    }

    /// How many questions were asked.
    pub fn used(&self) -> (r: usize)
        ensures
            r == self@.used,
    {
        self.used
    }

    /// How many questions may still be asked.
    pub fn remaining(&self) -> (r: usize)
        ensures
            r == if self@.used <= self@.budget {
                self@.budget - self@.used
            } else {
                0
            },
    {
        self.budget.saturating_sub(self.used)
    }

    /// Asks one question.
    fn ask(&mut self, tag: &str, question: &str, instruction: &str, max_tokens: i64) -> (r: Option<
        String,
    >)
        requires
            old(self)@.has_budget(),
        ensures
            ({
                let x = Exchange {
                    tag: tag@,
                    request: request_json(
                        question@,
                        crate::prompt::system_prompt(tag@, instruction@),
                        max_tokens as int,
                    ),
                    reply: crate::issue::text_view(r),
                };
                &&& final(self)@ == old(self)@.asked(question@, x)
                &&& final(self).peer_sent() == old(self).peer_sent().push(x.on_record())
            }),
    {
        let prompt = sampling_system_prompt(tag, instruction);
        let params = write_request(question, prompt.as_str(), max_tokens);
        let ghost request = params.view();
        self.used = self.used + 1;
        let est_prompt: u64 = estimate_tokens(question);
        self.est_prompt_tokens = self.est_prompt_tokens.saturating_add(est_prompt);
        let r = self.peer.create_message(params);
        if let Some(text) = &r {
            let est_completion: u64 = estimate_tokens(text.as_str());
            self.est_completion_tokens = self.est_completion_tokens.saturating_add(est_completion);
        }
        proof {
            self.log@ = self.log@.push(
                Exchange { tag: tag@, request, reply: crate::issue::text_view(r) },
            );
        }
        r
    }

    /// Asks which suggestion is right for an issue. Without budget nothing is
    /// asked. Else one question is spent, and what it says is returned if an
    /// answer came.
    pub fn sample_disambiguation(&mut self, issue: &Issue, context_window: &str) -> (r: Option<
        SamplingResult,
    >)
        ensures
            !old(self)@.has_budget() ==> {
                &&& r is None
                &&& final(self)@ == old(self)@
                &&& final(self).peer_sent() == old(self).peer_sent()
            },
            old(self)@.has_budget() ==> {
                let x = final(self)@.log.last();
                &&& crate::prompt::is_tag(x.tag)
                &&& x.request == disambiguation_request(x.tag, issue@, context_window@)
                &&& final(self)@ == old(self)@.asked(
                    disambiguation_question(x.tag, issue@, context_window@),
                    x,
                )
                &&& final(self).peer_sent() == old(self).peer_sent().push(x.on_record())
                &&& match r {
                    Some(result) => x.reply == Some(result.text@) && crate::issue::text_view(
                        result.suggested_term,
                    ) == crate::matching::matching(result.text@, issue@.suggestions),
                    None => x.reply is None,
                }
            },
    {
        if !self.has_budget() {
            return None;
        }
        let normalized = nfc_normalize_context(context_window);
        let (wrapped_context, tag) = wrap_inert_text(normalized.as_str());
        let question = write_disambiguation_question(
            tag.as_str(),
            issue,
            wrapped_context.as_str(),
        );
        match self.ask(
            tag.as_str(),
            question.as_str(),
            "Respond with ONLY the correct term or UNKNOWN.",
            TERM_TOKENS,
        ) {
            Some(text) => {
                let suggested_term = find_matching_suggestion(text.as_str(), &issue.suggestions);
                Some(SamplingResult { text, suggested_term })
            },
            None => None,
        }
    }

    /// Asks about many terms at once. Without budget or without terms nothing
    /// is asked. Else one question is spent, however many terms there are, and
    /// the verdicts are returned if an answer came that is a JSON object.
    pub fn sample_bulk_confirm(&mut self, terms: &[BulkConfirmTerm]) -> (r: Option<
        HashMap<usize, bool>,
    >)
        ensures
            !old(self)@.has_budget() || terms@.len() == 0 ==> {
                &&& r is None
                &&& final(self)@ == old(self)@
                &&& final(self).peer_sent() == old(self).peer_sent()
            },
            old(self)@.has_budget() && terms@.len() > 0 ==> {
                let x = final(self)@.log.last();
                &&& crate::prompt::is_tag(x.tag)
                &&& x.request == bulk_request(x.tag, terms@)
                &&& final(self)@ == old(self)@.asked(
                    crate::bulk::bulk_question(x.tag, terms@),
                    x,
                )
                &&& final(self).peer_sent() == old(self).peer_sent().push(x.on_record())
                &&& match r {
                    Some(v) => x.reply is Some && crate::bulk::bulk_verdicts(x.reply->0) == Some(
                        v@,
                    ),
                    None => x.reply matches Some(text) ==> crate::bulk::bulk_verdicts(
                        text,
                    ) is None,
                }
            },
    {
        if !self.has_budget() || terms.len() == 0 {
            return None;
        }
        let nonce = generate_nonce();
        let tag = tag_name(nonce.as_str());
        assert(crate::prompt::is_tag(crate::prompt::tag_of(nonce@)));
        let question = write_bulk_question(tag.as_str(), terms);
        match self.ask(
            tag.as_str(),
            question.as_str(),
            "Respond with ONLY a JSON object mapping term index to boolean.",
            VERDICT_TOKENS,
        ) {
            Some(text) => read_bulk_reply(text.as_str()),
            None => None,
        }
    }
}

/// The names in a request are different.
proof fn lemma_request_names()
    ensures
        "messages"@ != "systemPrompt"@,
        "messages"@ != "maxTokens"@,
        "messages"@ != "includeContext"@,
        "systemPrompt"@ != "maxTokens"@,
        "systemPrompt"@ != "includeContext"@,
        "maxTokens"@ != "includeContext"@,
        "role"@ != "content"@,
        "type"@ != "text"@,
{
    reveal_strlit("messages");
    reveal_strlit("systemPrompt");
    reveal_strlit("maxTokens");
    reveal_strlit("includeContext");
    reveal_strlit("role");
    reveal_strlit("content");
    reveal_strlit("type");
    reveal_strlit("text");
    assert("messages"@.len() == 8 && "systemPrompt"@.len() == 12 && "maxTokens"@.len() == 9
        && "includeContext"@.len() == 14);
    assert("role"@.len() == 4 && "content"@.len() == 7);
    assert("type"@[1] == 'y' && "text"@[1] == 'e');
}

/// The one message in a request.
pub open spec fn message_of(request: JsonView) -> Map<Seq<char>, JsonView> {
    request->Object_0["messages"@]->Array_0[0]->Object_0
}

/// What a request holds: one message of the user with the question as its text,
/// the system prompt, the limit of tokens, and that the context of this server
/// goes with it; and no other member.
pub proof fn law_what_a_request_holds(
    question: Seq<char>,
    system_prompt: Seq<char>,
    max_tokens: int,
    name: Seq<char>,
)
    ensures
        ({
            let request = request_json(question, system_prompt, max_tokens);
            let m = request->Object_0;
            let message = message_of(request);
            let content = message["content"@]->Object_0;
            &&& request is Object
            &&& m.contains_key(name) <==> name == "messages"@ || name == "systemPrompt"@ || name
                == "maxTokens"@ || name == "includeContext"@
            &&& m["systemPrompt"@] == JsonView::Str(system_prompt)
            &&& m["maxTokens"@] == JsonView::Int(max_tokens)
            &&& m["includeContext"@] == JsonView::Str("thisServer"@)
            &&& m["messages"@] is Array
            &&& m["messages"@]->Array_0.len() == 1
            &&& m["messages"@]->Array_0[0] is Object
            &&& message.contains_key(name) <==> name == "role"@ || name == "content"@
            &&& message["role"@] == JsonView::Str("user"@)
            &&& message["content"@] is Object
            &&& content.contains_key(name) <==> name == "type"@ || name == "text"@
            &&& content["type"@] == JsonView::Str("text"@)
            &&& content["text"@] == JsonView::Str(question)
        }),
{
    lemma_request_names();
}

/// The request about an issue asks for one term of at most 32 tokens. Its
/// question shows the context, composed, and what was found, each between the
/// delimiters that the system prompt names; behind them the English anchor, or
/// that it is unknown, and every suggestion in order.
pub proof fn law_what_is_asked_about_an_issue(
    tag: Seq<char>,
    issue: IssueView,
    window: Seq<char>,
)
    ensures
        ({
            let request = disambiguation_request(tag, issue, window);
            let english = match issue.english {
                Some(e) => e,
                None => "(unknown)"@,
            };
            let question = seq!['<'] + tag + seq!['>'] + crate::prompt::nfc(window) + seq!['<', '/']
                + tag + seq!['>'] + "\n"@ + seq!['<'] + tag + seq!['>'] + issue.found + seq![
                '<',
                '/',
            ] + tag + seq!['>'] + "(en:"@ + english + ") zh-TW:"@ + crate::text::join(
                issue.suggestions,
                ", "@,
            ) + "\nCorrect term? If unsure:UNKNOWN"@;
            &&& request->Object_0["maxTokens"@] == JsonView::Int(32)
            &&& request->Object_0["systemPrompt"@] == JsonView::Str(
                crate::prompt::system_prompt(
                    tag,
                    "Respond with ONLY the correct term or UNKNOWN."@,
                ),
            )
            &&& message_of(request)["content"@]->Object_0["text"@] == JsonView::Str(question)
            &&& disambiguation_question(tag, issue, window) == question
        }),
{
    let english = match issue.english {
        Some(e) => e,
        None => "(unknown)"@,
    };
    let question = seq!['<'] + tag + seq!['>'] + crate::prompt::nfc(window) + seq!['<', '/'] + tag
        + seq!['>'] + "\n"@ + seq!['<'] + tag + seq!['>'] + issue.found + seq!['<', '/'] + tag
        + seq!['>'] + "(en:"@ + english + ") zh-TW:"@ + crate::text::join(issue.suggestions, ", "@)
        + "\nCorrect term? If unsure:UNKNOWN"@;
    let w = crate::prompt::wrapped(tag, crate::prompt::nfc(window));
    let f = crate::prompt::wrapped(tag, issue.found);
    crate::prompt::law_how_text_is_delimited(tag, crate::prompt::nfc(window));
    crate::prompt::law_how_text_is_delimited(tag, issue.found);
    let listed = crate::text::join(issue.suggestions, ", "@);
    assert(disambiguation_question(tag, issue, window) == w + "\n"@ + f + "(en:"@ + english
        + ") zh-TW:"@ + listed + "\nCorrect term? If unsure:UNKNOWN"@);
    assert(w + "\n"@ + f =~= seq!['<'] + tag + seq!['>'] + crate::prompt::nfc(window) + seq![
        '<',
        '/',
    ] + tag + seq!['>'] + "\n"@ + seq!['<'] + tag + seq!['>'] + issue.found + seq!['<', '/'] + tag
        + seq!['>']);
    law_what_a_request_holds(
        disambiguation_question(tag, issue, window),
        crate::prompt::system_prompt(tag, "Respond with ONLY the correct term or UNKNOWN."@),
        32,
        "text"@,
    );
}

/// The request about many terms asks for a JSON object of at most 128 tokens,
/// with the question that lists them.
pub proof fn law_what_is_asked_about_many_terms(tag: Seq<char>, terms: Seq<BulkConfirmTerm>)
    ensures
        ({
            let request = bulk_request(tag, terms);
            &&& request->Object_0["maxTokens"@] == JsonView::Int(128)
            &&& request->Object_0["systemPrompt"@] == JsonView::Str(
                crate::prompt::system_prompt(
                    tag,
                    "Respond with ONLY a JSON object mapping term index to boolean."@,
                ),
            )
            &&& message_of(request)["content"@]->Object_0["text"@] == JsonView::Str(
                crate::bulk::bulk_question(tag, terms),
            )
        }),
{
    law_what_a_request_holds(
        crate::bulk::bulk_question(tag, terms),
        crate::prompt::system_prompt(
            tag,
            "Respond with ONLY a JSON object mapping term index to boolean."@,
        ),
        128,
        "text"@,
    );
}

/// A text is taken for a token for every three bytes, rounded up.
pub proof fn law_tokens_are_a_third_of_the_bytes(s: Seq<char>)
    requires
        crate::text::byte_len(s) + 2 <= u64::MAX,
    ensures
        3 * tokens(s) >= crate::text::byte_len(s),
        3 * tokens(s) < crate::text::byte_len(s) + 3,
{
}

/// A question costs one of the budget and its tokens, whether an answer comes or
/// not; an answer adds its tokens, and silence adds none. The exchange is noted
/// behind those before it, and nothing else changes. No estimate goes down or
/// beyond what it can hold.
pub proof fn law_what_a_question_costs(b: BridgeView, question: Seq<char>, x: Exchange)
    requires
        b.used < b.budget,
    ensures
        ({
            let after = b.asked(question, x);
            &&& after.budget == b.budget
            &&& after.used == b.used + 1
            &&& after.log == b.log.push(x)
            &&& b.est_prompt_tokens + tokens(question) <= u64::MAX ==> after.est_prompt_tokens
                == b.est_prompt_tokens + tokens(question)
            &&& b.est_prompt_tokens + tokens(question) > u64::MAX ==> after.est_prompt_tokens
                == u64::MAX
            &&& x.reply is None ==> after.est_completion_tokens == b.est_completion_tokens
            &&& x.reply matches Some(text) ==> {
                &&& b.est_completion_tokens + tokens(text) <= u64::MAX
                    ==> after.est_completion_tokens == b.est_completion_tokens + tokens(text)
                &&& b.est_completion_tokens + tokens(text) > u64::MAX
                    ==> after.est_completion_tokens == u64::MAX
            }
        }),
        b.has_budget(),
{
}

/// There is budget exactly where fewer questions were asked than may be.
pub proof fn law_when_there_is_budget(b: BridgeView)
    ensures
        b.has_budget() <==> b.used < b.budget,
{
}

/// A sum is what it is as far as it can be held, and the greatest number beyond
/// that.
pub proof fn law_sums_saturate(a: u64, b: u64)
    ensures
        a + b <= u64::MAX ==> saturating_sum(a as int, b as int) == a + b,
        a + b > u64::MAX ==> saturating_sum(a as int, b as int) == u64::MAX,
{
}

} // verus!
