use rmcp::model::{ProtocolVersion, RequestMetaObject};
use zhtw_mcp::json::{parse_json, Json};
use zhtw_mcp::revisions::{
    declaration, is_handshake_free, is_self_declaring, logging_opt_in,
    negotiable_protocol_versions, revisions, supported_protocol_versions, CLIENT_CAPABILITIES,
    PROTOCOL_VERSION,
};

fn json(text: &str) -> Json {
    parse_json(text).unwrap()
}

fn meta(version: &str, capabilities: &str) -> Vec<(String, Json)> {
    let params = json(&format!(
        "{{\"_meta\": {{\"io.modelcontextprotocol/protocolVersion\": \"{version}\", \
         \"io.modelcontextprotocol/clientCapabilities\": {capabilities}}}}}"
    ));
    match declaration(&params) {
        Some(entries) => entries.iter().map(|(k, v)| (k.clone(), v.clone())).collect(),
        None => panic!("params carry a `_meta`"),
    }
}

#[test]
fn the_keys_are_the_ones_rmcp_requires() {
    assert_eq!(
        [PROTOCOL_VERSION, CLIENT_CAPABILITIES],
        RequestMetaObject::DRAFT_REQUIRED_KEYS,
        "SEP-2575 required-key spelling drifted from RMCP's"
    );
}

#[test]
fn only_a_handshake_free_revision_declares_itself() {
    assert!(is_self_declaring(&meta("2026-07-28", "{}")));
    assert!(!is_self_declaring(&meta("2025-06-18", "{}")));
    assert!(!is_self_declaring(&meta("2099-01-01", "{}")));
}

#[test]
fn capabilities_are_part_of_the_declaration() {
    // Present but not an object is not a declaration: the revision puts a
    // capabilities object in every request, and half of one says nothing.
    assert!(!is_self_declaring(&meta("2026-07-28", "\"nope\"")));
    let no_capabilities =
        json("{\"_meta\": {\"io.modelcontextprotocol/protocolVersion\": \"2026-07-28\"}}");
    assert!(!is_self_declaring(
        declaration(&no_capabilities).expect("params carry a `_meta`")
    ));
}

#[test]
fn the_logging_extension_is_read_off_the_capabilities() {
    assert!(logging_opt_in(&meta("2026-07-28", "{\"logging\": {}}")));
    assert!(!logging_opt_in(&meta("2026-07-28", "{\"roots\": {}}")));
}

#[test]
fn params_without_a_meta_declare_nothing() {
    assert!(declaration(&json("{}")).is_none());

    // Array params are looked at too, and indexing one by a string key is
    // not a lookup that can succeed.
    assert!(declaration(&json("[1, 2]")).is_none());
}

#[test]
fn a_revision_without_a_handshake_is_never_offered_by_one() {
    // 2026-07-28 is named outright rather than left to the loop below, which
    // passes for free if nothing is marked as lacking a handshake.
    let negotiable = negotiable_protocol_versions();
    assert!(
        supported_protocol_versions()
            .contains(&ProtocolVersion::V_2026_07_28.as_str().to_owned()),
        "2026-07-28 is served, through server/discover"
    );
    assert!(
        !negotiable.contains(&ProtocolVersion::V_2026_07_28.as_str().to_owned()),
        "2026-07-28 has no initialize, so it cannot be negotiated by one"
    );
    for revision in revisions().iter().filter(|r| !r.handshake) {
        assert!(
            !negotiable.contains(&revision.version),
            "{} has no handshake but is offered as one to negotiate",
            revision.version
        );
    }
    assert!(
        !negotiable.is_empty(),
        "some revision has to be reachable through initialize"
    );
}

#[test]
fn every_served_revision_is_advertised() {
    // server/discover is the only place a client can learn about a revision
    // it cannot negotiate, so the advertised list is all of them.
    let supported = supported_protocol_versions();
    assert_eq!(supported.len(), revisions().len());
    for revision in &revisions() {
        assert!(supported.contains(&revision.version));
    }
}

#[test]
fn the_table_is_newest_first_and_spelled_as_rmcp_spells_it() {
    assert_eq!(
        supported_protocol_versions(),
        vec!["2026-07-28", "2025-11-25", "2025-06-18", "2025-03-26", "2024-11-05"]
    );
    assert_eq!(
        negotiable_protocol_versions(),
        vec!["2025-11-25", "2025-06-18", "2025-03-26", "2024-11-05"]
    );
}

#[test]
fn a_revision_is_reached_in_one_way_only() {
    for revision in &revisions() {
        assert_eq!(is_handshake_free(&revision.version), !revision.handshake);
    }
    assert!(!is_handshake_free(""));
    assert!(!is_handshake_free("2026-07-2"));
}

#[test]
fn a_version_that_is_no_string_declares_nothing() {
    let params = json(
        "{\"_meta\": {\"io.modelcontextprotocol/protocolVersion\": 20260728, \
         \"io.modelcontextprotocol/clientCapabilities\": {}}}",
    );
    assert!(!is_self_declaring(declaration(&params).unwrap()));
    assert!(!logging_opt_in(&meta("2026-07-28", "[\"logging\"]")));
    assert!(declaration(&json("{\"_meta\": \"x\"}")).is_none());
}
