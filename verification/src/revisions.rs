//! Which protocol revisions the server serves, and how a request names one.

use crate::json::{find_member, Json, JsonView};
use crate::text::same_text;
use vstd::prelude::*;

verus! {

/// The `_meta` key under which a request names its protocol revision.
pub const PROTOCOL_VERSION: &'static str = "io.modelcontextprotocol/protocolVersion";

/// The `_meta` key under which a request carries the client's capabilities.
pub const CLIENT_CAPABILITIES: &'static str = "io.modelcontextprotocol/clientCapabilities";

/// One protocol revision that the server serves.
///
/// Whether a revision has a handshake is a fact about that revision, so it is
/// recorded next to it rather than derived from its place in the table.
#[derive(Debug)]
pub struct Revision {
    pub version: String,
    /// Whether `initialize` can negotiate it. A revision without a handshake
    /// is reached through `server/discover`.
    pub handshake: bool,
}

/// The model of a [`Revision`].
pub struct RevisionView {
    pub version: Seq<char>,
    pub handshake: bool,
}

impl View for Revision {
    type V = RevisionView;

    open spec fn view(&self) -> RevisionView {
        RevisionView { version: self.version@, handshake: self.handshake }
    }
}

/// The revisions the server serves, newest first.
pub open spec fn served() -> Seq<RevisionView> {
    seq![
        RevisionView { version: "2026-07-28"@, handshake: false },
        RevisionView { version: "2025-11-25"@, handshake: true },
        RevisionView { version: "2025-06-18"@, handshake: true },
        RevisionView { version: "2025-03-26"@, handshake: true },
        RevisionView { version: "2024-11-05"@, handshake: true },
    ]
}

/// The text of `rmcp::model::ProtocolVersion::V_2026_07_28`.
#[verifier::external_body]
fn v_2026_07_28() -> (r: String)
    ensures
        r@ == "2026-07-28"@,
{
    rmcp::model::ProtocolVersion::V_2026_07_28.as_str().to_owned()
}

/// The text of `rmcp::model::ProtocolVersion::V_2025_11_25`.
#[verifier::external_body]
fn v_2025_11_25() -> (r: String)
    ensures
        r@ == "2025-11-25"@,
{
    rmcp::model::ProtocolVersion::V_2025_11_25.as_str().to_owned()
}

/// The text of `rmcp::model::ProtocolVersion::V_2025_06_18`.
#[verifier::external_body]
fn v_2025_06_18() -> (r: String)
    ensures
        r@ == "2025-06-18"@,
{
    rmcp::model::ProtocolVersion::V_2025_06_18.as_str().to_owned()
}

/// The text of `rmcp::model::ProtocolVersion::V_2025_03_26`.
#[verifier::external_body]
fn v_2025_03_26() -> (r: String)
    ensures
        r@ == "2025-03-26"@,
{
    rmcp::model::ProtocolVersion::V_2025_03_26.as_str().to_owned()
}

/// The text of `rmcp::model::ProtocolVersion::V_2024_11_05`.
#[verifier::external_body]
fn v_2024_11_05() -> (r: String)
    ensures
        r@ == "2024-11-05"@,
{
    rmcp::model::ProtocolVersion::V_2024_11_05.as_str().to_owned()
}

/// The revisions the server serves, newest first.
pub fn revisions() -> (r: Vec<Revision>)
    ensures
        r@.map_values(|x: Revision| x@) == served(),
{
    let mut r: Vec<Revision> = Vec::new();
    r.push(Revision { version: v_2026_07_28(), handshake: false });
    r.push(Revision { version: v_2025_11_25(), handshake: true });
    r.push(Revision { version: v_2025_06_18(), handshake: true });
    r.push(Revision { version: v_2025_03_26(), handshake: true });
    r.push(Revision { version: v_2024_11_05(), handshake: true });
    assert(r@.map_values(|x: Revision| x@) =~= served());
    r
}

/// The versions of the given revisions.
pub open spec fn versions(s: Seq<RevisionView>) -> Seq<Seq<char>> {
    s.map_values(|x: RevisionView| x.version)
}

/// Everything served: what `server/discover` advertises.
pub fn supported_protocol_versions() -> (r: Vec<String>)
    ensures
        r@.map_values(|s: String| s@) == versions(served()),
{
    let table = revisions();
    let mut r: Vec<String> = Vec::new();
    for i in 0..table.len()
        invariant
            table@.map_values(|x: Revision| x@) == served(),
            r@.len() == i,
            forall|k: int| 0 <= k < i ==> (#[trigger] r@[k])@ == table@[k].version@,
    {
        r.push(table[i].version.clone());
    }
    assert forall|k: int| 0 <= k < r@.len() implies (#[trigger] r@[k])@ == versions(
        served(),
    )[k] by {
        assert(table@.map_values(|x: Revision| x@)[k] == table@[k]@);
    }
    assert(served().len() == table@.len());
    assert(r@.map_values(|s: String| s@) =~= versions(served()));
    r
}

/// The revisions that `initialize` can reach.
pub open spec fn negotiable() -> Seq<RevisionView> {
    served().filter(|x: RevisionView| x.handshake)
}

/// What `initialize` can reach: what a client is offered whose `initialize`
/// was refused.
pub fn negotiable_protocol_versions() -> (r: Vec<String>)
    ensures
        r@.map_values(|s: String| s@) == versions(negotiable()),
{
    let table = revisions();
    let ghost f = |x: RevisionView| x.handshake;
    let ghost all = table@.map_values(|x: Revision| x@);
    let mut r: Vec<String> = Vec::new();
    assert(versions(all.take(0).filter(f)) =~= Seq::<Seq<char>>::empty()) by {
        reveal(Seq::filter);
    }
    for i in 0..table.len()
        invariant
            all == table@.map_values(|x: Revision| x@),
            f == |x: RevisionView| x.handshake,
            r@.map_values(|s: String| s@) == versions(all.take(i as int).filter(f)),
    {
        proof {
            let next = all.take(i + 1);
            assert(next.drop_last() =~= all.take(i as int));
            assert(next.last() == table@[i as int]@);
            assert(next.filter(f) == if f(next.last()) {
                all.take(i as int).filter(f).push(next.last())
            } else {
                all.take(i as int).filter(f)
            }) by {
                reveal(Seq::filter);
            }
        }
        if table[i].handshake {
            let ghost before = r@;
            r.push(table[i].version.clone());
            assert(r@.map_values(|s: String| s@) =~= before.map_values(|s: String| s@).push(
                table@[i as int].version@,
            ));
            assert(versions(all.take(i as int).filter(f).push(table@[i as int]@)) =~= versions(
                all.take(i as int).filter(f),
            ).push(table@[i as int].version@));
        }
    }
    assert(all.take(table@.len() as int) =~= all);
    r
}

/// Whether a version is that of a served revision without a handshake.
pub open spec fn handshake_free(version: Seq<char>) -> bool {
    exists|i: int|
        0 <= i < served().len() && !(#[trigger] served()[i]).handshake && served()[i].version
            == version
}

/// Whether a revision stands without a handshake. For every other one the
/// version does not live in `_meta`, so a request that carries it there has no
/// standing to skip the handshake.
pub fn is_handshake_free(version: &str) -> (r: bool)
    ensures
        r == handshake_free(version@),
{
    let table = revisions();
    for i in 0..table.len()
        invariant
            table@.map_values(|x: Revision| x@) == served(),
            forall|k: int|
                0 <= k < i ==> (#[trigger] served()[k]).handshake || served()[k].version
                    != version@,
    {
        assert(table@.map_values(|x: Revision| x@)[i as int] == table@[i as int]@);
        if !table[i].handshake && same_text(table[i].version.as_str(), version) {
            assert(served()[i as int].version == version@);
            return true;
        }
    }
    assert(served().len() == table@.len());
    false
}

/// The `_meta` object that the parameters of a request carry.
pub open spec fn meta_of(params: JsonView) -> Option<Map<Seq<char>, JsonView>> {
    match params.get("_meta"@) {
        Some(JsonView::Object(m)) => Some(m),
        _ => None,
    }
}

/// The `_meta` object that a request carries, if it carries one.
pub fn declaration(params: &Json) -> (r: Option<&Vec<(String, Json)>>)
    ensures
        match r {
            Some(meta) => meta_of(params.view()) == Some(crate::json::members(meta@)),
            None => meta_of(params.view()) is None,
        },
{
    match params.get("_meta") {
        Some(Json::Object(entries)) => Some(entries),
        _ => None,
    }
}

/// Whether `_meta` declares its request complete enough to be served with no
/// handshake behind it: it names a handshake-free revision and carries a
/// capabilities object.
pub open spec fn self_declaring(meta: Map<Seq<char>, JsonView>) -> bool {
    &&& meta.contains_key(PROTOCOL_VERSION@)
    &&& meta[PROTOCOL_VERSION@] matches JsonView::Str(version) && handshake_free(version)
    &&& meta.contains_key(CLIENT_CAPABILITIES@)
    &&& meta[CLIENT_CAPABILITIES@] is Object
}

/// Whether a request's own `_meta` declares it complete enough to be served
/// with no handshake behind it.
pub fn is_self_declaring(meta: &Vec<(String, Json)>) -> (r: bool)
    ensures
        r == self_declaring(crate::json::members(meta@)),
{
    let free: bool = match find_member(meta, PROTOCOL_VERSION) {
        Some(Json::Str(version)) => is_handshake_free(version.as_str()),
        _ => false,
    };
    if !free {
        return false;
    }
    match find_member(meta, CLIENT_CAPABILITIES) {
        Some(Json::Object(_)) => true,
        _ => false,
    }
}

/// Whether `_meta` carries a capabilities object with a `logging` member.
pub open spec fn opts_into_logging(meta: Map<Seq<char>, JsonView>) -> bool {
    &&& meta.contains_key(CLIENT_CAPABILITIES@)
    &&& meta[CLIENT_CAPABILITIES@].has("logging"@)
}

/// Whether a request's own `_meta` opts into the server's `logging` extension.
pub fn logging_opt_in(meta: &Vec<(String, Json)>) -> (r: bool)
    ensures
        r == opts_into_logging(crate::json::members(meta@)),
{
    match find_member(meta, CLIENT_CAPABILITIES) {
        Some(capabilities) => capabilities.get("logging").is_some(),
        None => false,
    }
}

/// No two served revisions have the same version.
proof fn lemma_served_distinct()
    ensures
        forall|i: int, j: int|
            0 <= i < j < served().len() ==> (#[trigger] served()[i]).version != (
            #[trigger] served()[j]).version,
{
    reveal_strlit("2026-07-28");
    reveal_strlit("2025-11-25");
    reveal_strlit("2025-06-18");
    reveal_strlit("2025-03-26");
    reveal_strlit("2024-11-05");
    assert("2026-07-28"@[3] == '6');
    assert("2024-11-05"@[3] == '4');
    assert("2025-11-25"@[3] == '5' && "2025-11-25"@[5] == '1');
    assert("2025-06-18"@[3] == '5' && "2025-06-18"@[5] == '0' && "2025-06-18"@[6] == '6');
    assert("2025-03-26"@[3] == '5' && "2025-03-26"@[5] == '0' && "2025-03-26"@[6] == '3');
}

/// A served revision is negotiable exactly where it has a handshake.
proof fn lemma_negotiable_versions(version: Seq<char>)
    ensures
        versions(negotiable()).contains(version) <==> exists|i: int|
            0 <= i < served().len() && (#[trigger] served()[i]).handshake && served()[i].version
                == version,
{
    let f = |x: RevisionView| x.handshake;
    broadcast use vstd::seq_lib::group_filter_ensures;

    if versions(negotiable()).contains(version) {
        let k = choose|k: int|
            0 <= k < versions(negotiable()).len() && versions(negotiable())[k] == version;
        let x = negotiable()[k];
        assert(negotiable().contains(x));
        served().lemma_filter_pred(f, k);
        served().lemma_filter_contains_rev(f, x);
        let i = choose|i: int| 0 <= i < served().len() && served()[i] == x;
        assert(served()[i].handshake && served()[i].version == version);
    }
    if exists|i: int|
        0 <= i < served().len() && (#[trigger] served()[i]).handshake && served()[i].version
            == version {
        let i = choose|i: int|
            0 <= i < served().len() && (#[trigger] served()[i]).handshake && served()[i].version
                == version;
        assert(f(served()[i]));
        assert(negotiable().contains(served()[i]));
        let k = choose|k: int| 0 <= k < negotiable().len() && negotiable()[k] == served()[i];
        assert(versions(negotiable())[k] == version);
    }
}

/// Every served revision is reached in exactly one way: it is offered by
/// `initialize`, or it stands without a handshake.
pub proof fn law_one_way_to_each_revision(version: Seq<char>)
    ensures
        versions(served()).contains(version) <==> (versions(negotiable()).contains(version)
            || handshake_free(version)),
        !(versions(negotiable()).contains(version) && handshake_free(version)),
{
    lemma_negotiable_versions(version);
    lemma_served_distinct();
    if versions(served()).contains(version) {
        let k = choose|k: int|
            0 <= k < versions(served()).len() && versions(served())[k] == version;
        assert(served()[k].version == version);
    }
    if versions(negotiable()).contains(version) {
        let i = choose|i: int|
            0 <= i < served().len() && (#[trigger] served()[i]).handshake && served()[i].version
                == version;
        assert(versions(served())[i] == version);
    }
    if handshake_free(version) {
        let i = choose|i: int|
            0 <= i < served().len() && !(#[trigger] served()[i]).handshake && served()[i].version
                == version;
        assert(versions(served())[i] == version);
    }
}

/// A request that declares itself names a served revision that `initialize`
/// does not offer.
pub proof fn law_self_declaring_names_a_handshake_free_revision(meta: Map<Seq<char>, JsonView>)
    requires
        self_declaring(meta),
    ensures
        meta[PROTOCOL_VERSION@] matches JsonView::Str(version) && versions(served()).contains(
            version,
        ) && !versions(negotiable()).contains(version),
{
    law_one_way_to_each_revision(meta[PROTOCOL_VERSION@]->Str_0);
}

/// Some revision is reachable through `initialize`.
pub proof fn law_something_is_negotiable()
    ensures
        versions(negotiable()).len() > 0,
{
    lemma_negotiable_versions("2025-11-25"@);
    assert(served()[1].handshake && served()[1].version == "2025-11-25"@);
}

/// A request may skip the handshake exactly where its `_meta` names, as a
/// string, a served revision that `initialize` does not offer, and carries an
/// object of capabilities, whatever is in it. No other member matters.
pub proof fn law_what_declares_itself(meta: Map<Seq<char>, JsonView>)
    ensures
        self_declaring(meta) <==> {
            &&& meta.contains_key("io.modelcontextprotocol/protocolVersion"@)
            &&& meta["io.modelcontextprotocol/protocolVersion"@] matches JsonView::Str(version)
                && versions(served()).contains(version) && !versions(negotiable()).contains(version)
            &&& meta.contains_key("io.modelcontextprotocol/clientCapabilities"@)
            &&& meta["io.modelcontextprotocol/clientCapabilities"@] is Object
        },
{
    if meta.contains_key("io.modelcontextprotocol/protocolVersion"@) {
        if let JsonView::Str(version) = meta["io.modelcontextprotocol/protocolVersion"@] {
            law_one_way_to_each_revision(version);
        }
    }
}

/// Every request with a handshake-free version and an object of capabilities
/// declares itself, whatever the capabilities are.
pub proof fn law_any_capabilities_will_do(
    meta: Map<Seq<char>, JsonView>,
    version: Seq<char>,
    capabilities: Map<Seq<char>, JsonView>,
)
    requires
        handshake_free(version),
    ensures
        self_declaring(
            meta.insert(
                "io.modelcontextprotocol/protocolVersion"@,
                JsonView::Str(version),
            ).insert(
                "io.modelcontextprotocol/clientCapabilities"@,
                JsonView::Object(capabilities),
            ),
        ),
{
    reveal_strlit("io.modelcontextprotocol/protocolVersion");
    reveal_strlit("io.modelcontextprotocol/clientCapabilities");
    assert("io.modelcontextprotocol/protocolVersion"@.len()
        != "io.modelcontextprotocol/clientCapabilities"@.len());
}

/// The one revision without a handshake is that of 2026-07-28.
pub proof fn law_which_revision_is_handshake_free(version: Seq<char>)
    ensures
        handshake_free(version) <==> version == "2026-07-28"@,
{
    assert(!served()[0].handshake && served()[0].version == "2026-07-28"@);
}

/// What passes a test everywhere is kept whole.
proof fn lemma_all_kept(s: Seq<RevisionView>, f: spec_fn(RevisionView) -> bool)
    requires
        forall|i: int| 0 <= i < s.len() ==> f(#[trigger] s[i]),
    ensures
        s.filter(f) == s,
    decreases s.len(),
{
    reveal(Seq::filter);
    if s.len() > 0 {
        let front = s.drop_last();
        assert forall|i: int| 0 <= i < front.len() implies f(#[trigger] front[i]) by {
            assert(front[i] == s[i]);
        }
        lemma_all_kept(front, f);
        assert(f(s[s.len() - 1]));
        assert(front.push(s.last()) =~= s);
    }
}

/// What is served are the five revisions, and what is offered to negotiate are
/// all of them but the one without a handshake, in the same order.
pub proof fn law_which_revisions_are_served()
    ensures
        versions(served()) == seq![
            "2026-07-28"@,
            "2025-11-25"@,
            "2025-06-18"@,
            "2025-03-26"@,
            "2024-11-05"@,
        ],
        versions(negotiable()) == seq!["2025-11-25"@, "2025-06-18"@, "2025-03-26"@, "2024-11-05"@],
{
    let f = |x: RevisionView| x.handshake;
    let all = served();
    assert(versions(all) =~= seq![
        "2026-07-28"@,
        "2025-11-25"@,
        "2025-06-18"@,
        "2025-03-26"@,
        "2024-11-05"@,
    ]);
    let kept = all.drop_first();
    assert(all =~= seq![all[0]] + kept);
    Seq::filter_distributes_over_add(seq![all[0]], kept, f);
    assert(seq![all[0]].filter(f) =~= Seq::<RevisionView>::empty()) by {
        reveal_with_fuel(Seq::filter, 2);
    }
    lemma_all_kept(kept, f);
    assert(all.filter(f) =~= kept);
    assert(versions(kept) =~= seq!["2025-11-25"@, "2025-06-18"@, "2025-03-26"@, "2024-11-05"@]);
}

/// A request opts into logging exactly where its capabilities are an object
/// with a `logging` member, whatever its value is.
pub proof fn law_what_opts_into_logging(meta: Map<Seq<char>, JsonView>)
    ensures
        opts_into_logging(meta) <==> {
            &&& meta.contains_key("io.modelcontextprotocol/clientCapabilities"@)
            &&& meta["io.modelcontextprotocol/clientCapabilities"@] matches JsonView::Object(m)
                && m.contains_key("logging"@)
        },
{
}

/// What a request declares is the object under `_meta` in the object of its
/// parameters; anything else declares nothing.
pub proof fn law_what_is_declared(params: JsonView)
    ensures
        meta_of(params) is Some <==> (params matches JsonView::Object(m) && m.contains_key(
            "_meta"@,
        ) && m["_meta"@] is Object),
        meta_of(params) matches Some(meta) ==> params->Object_0["_meta"@] == JsonView::Object(meta),
{
}

/// Every field of a revision is part of its model, as it is.
pub proof fn law_model_of_a_revision(r: Revision)
    ensures
        r@.version == r.version@,
        r@.handshake == r.handshake,
{
}

} // verus!
