use nodelite::registry::{
    check_registry_mode, load_registry_state_from_file, registry_lock_path,
    temporary_registry_path, temporary_registry_path_with_suffix, validate_install_session,
    validate_registered_node, validate_registry_file, validate_runtime_identity, InstallSession,
    NodeIdentity, RegisteredNode, RegistryError, RegistryFile,
};

fn node(id: &str) -> RegisteredNode {
    RegisteredNode {
        node_id: id.to_string(),
        node_label: format!("label {id}"),
        token_hash: "hash".to_string(),
        token: String::new(),
        tags: vec!["edge".to_string()],
    }
}

fn session(token: &str, node_id: &str) -> InstallSession {
    InstallSession { token: token.to_string(), node_id: node_id.to_string() }
}

fn identity() -> NodeIdentity {
    NodeIdentity {
        node_id: "hk-01".to_string(),
        node_label: "Hong Kong".to_string(),
        agent_version: "1.0.0".to_string(),
        hostname: "hk".to_string(),
        os: "linux".to_string(),
        tags: vec![],
    }
}

#[test]
fn well_formed_registry_passes() {
    let file = RegistryFile {
        nodes: vec![node("hk-01"), node("sg-01")],
        install_sessions: vec![session("t1", "hk-01"), session("t2", "sg-01")],
    };
    assert!(validate_registry_file("/etc/server.json", &file).is_ok());
    let empty = RegistryFile { nodes: vec![], install_sessions: vec![] };
    assert!(validate_registry_file("/etc/server.json", &empty).is_ok());
}

#[test]
fn duplicate_node_id_is_refused() {
    let file = RegistryFile { nodes: vec![node("hk-01"), node("hk-01")], install_sessions: vec![] };
    assert_eq!(
        validate_registry_file("/etc/server.json", &file).unwrap_err().message(),
        "duplicate node_id hk-01 in /etc/server.json"
    );
}

#[test]
fn first_failing_node_decides_the_error() {
    let mut bad = node("sg 01");
    bad.node_label = String::new();
    let file = RegistryFile {
        nodes: vec![node("hk-01"), bad, node("hk-01")],
        install_sessions: vec![],
    };
    assert_eq!(
        validate_registry_file("p", &file).unwrap_err().message(),
        "node.node_id must use only ASCII letters, numbers, '-', '_' or '.'"
    );
}

#[test]
fn session_for_unknown_node_is_refused() {
    let file = RegistryFile {
        nodes: vec![node("hk-01")],
        install_sessions: vec![session("t1", "sg-01")],
    };
    assert_eq!(
        validate_registry_file("p", &file).unwrap_err().message(),
        "install token for unknown node_id sg-01 in p"
    );
}

#[test]
fn duplicate_install_token_is_refused() {
    let file = RegistryFile {
        nodes: vec![node("hk-01")],
        install_sessions: vec![session("t1", "hk-01"), session("t1", "hk-01")],
    };
    assert_eq!(
        validate_registry_file("p", &file).unwrap_err().message(),
        "duplicate install token in p"
    );
}

#[test]
fn registered_node_checks() {
    assert!(validate_registered_node(&node("hk-01")).is_ok());
    let mut legacy = node("hk-01");
    legacy.token_hash = String::new();
    legacy.token = "plain".to_string();
    assert!(validate_registered_node(&legacy).is_ok());
    let mut no_token = node("hk-01");
    no_token.token_hash = String::new();
    assert_eq!(
        validate_registered_node(&no_token).unwrap_err().message(),
        "node.token_hash is empty"
    );
    let mut blank_label = node("hk-01");
    blank_label.node_label = " ".to_string();
    assert_eq!(
        validate_registered_node(&blank_label).unwrap_err().message(),
        "node.node_label must not be empty"
    );
    let mut long_tag = node("hk-01");
    long_tag.tags = vec!["x".repeat(65)];
    assert_eq!(
        validate_registered_node(&long_tag).unwrap_err().message(),
        "node.tags[0] must be <= 64 bytes"
    );
}

#[test]
fn install_session_checks() {
    assert!(validate_install_session(&session("t", "hk-01")).is_ok());
    assert_eq!(
        validate_install_session(&session(" ", "hk-01")).unwrap_err().message(),
        "install_session.token must not be empty"
    );
    assert_eq!(
        validate_install_session(&session("t", "")).unwrap_err().message(),
        "install_session.node_id must not be empty"
    );
}

#[test]
fn runtime_identity_checks() {
    assert!(validate_runtime_identity(&identity()).is_ok());
    let mut no_os = identity();
    no_os.os = String::new();
    assert_eq!(validate_runtime_identity(&no_os).unwrap_err().message(), "identity.os must not be empty");
    let mut bad_id = identity();
    bad_id.node_id = "hk/01".to_string();
    bad_id.hostname = String::new();
    assert_eq!(
        validate_runtime_identity(&bad_id).unwrap_err().message(),
        "identity.node_id must use only ASCII letters, numbers, '-', '_' or '.'"
    );
    let mut many_tags = identity();
    many_tags.tags = (0..17).map(|i| format!("t{i}")).collect();
    assert_eq!(
        validate_runtime_identity(&many_tags).unwrap_err().message(),
        "identity.tags must contain at most 16 tags"
    );
}

#[test]
fn loaded_state_finds_each_node_and_session() {
    let file = RegistryFile {
        nodes: vec![node("hk-01"), node("sg-01")],
        install_sessions: vec![session("t1", "hk-01")],
    };
    let state = load_registry_state_from_file("p", file).unwrap();
    assert_eq!(state.node_count(), 2);
    assert_eq!(state.install_session_count(), 1);
    assert_eq!(state.node("sg-01").unwrap().node_label, "label sg-01");
    assert_eq!(state.node("hk-01").unwrap().node_id, "hk-01");
    assert!(state.node("jp-01").is_none());
    assert_eq!(state.install_session("t1").unwrap().node_id, "hk-01");
    assert!(state.install_session("t2").is_none());
}

#[test]
fn loading_refuses_duplicates() {
    let dup_nodes = RegistryFile { nodes: vec![node("a"), node("b"), node("a")], install_sessions: vec![] };
    assert_eq!(
        load_registry_state_from_file("/r.json", dup_nodes).err().unwrap().message(),
        "duplicate node_id found in /r.json"
    );
    let dup_tokens = RegistryFile {
        nodes: vec![node("a")],
        install_sessions: vec![session("t", "a"), session("t", "a")],
    };
    assert_eq!(
        load_registry_state_from_file("/r.json", dup_tokens).err().unwrap().message(),
        "duplicate install token found in /r.json"
    );
}

#[test]
fn lock_path_sits_beside_the_registry() {
    assert_eq!(registry_lock_path("/opt/ximonitor/config/server.json"), "/opt/ximonitor/config/server.json.lock");
    assert_eq!(registry_lock_path("nodes.json"), "nodes.json.lock");
    assert_eq!(registry_lock_path("/"), "/server.json.lock");
}

#[test]
fn temporary_path_carries_the_suffix_in_hex() {
    let suffix = [0x00, 0x01, 0x0a, 0x10, 0x7f, 0x80, 0xab, 0xff];
    assert_eq!(
        temporary_registry_path_with_suffix("/data/server.json", &suffix),
        "/data/server.json.tmp.00010a107f80abff"
    );
    let path = temporary_registry_path("/data/server.json").unwrap();
    assert!(path.starts_with("/data/server.json.tmp."));
    assert_eq!(path.len(), "/data/server.json.tmp.".len() + 16);
    assert!(path["/data/server.json.tmp.".len()..].chars().all(|c| c.is_ascii_hexdigit() && !c.is_ascii_uppercase()));
}

#[test]
fn registry_mode_must_be_0600() {
    assert!(check_registry_mode("/r.json", 0o100600).is_ok());
    assert_eq!(
        check_registry_mode("/r.json", 0o100644).unwrap_err().message(),
        "/r.json must be mode 0600, got 644"
    );
    assert_eq!(check_registry_mode("/r.json", 0o100000).unwrap_err().message(), "/r.json must be mode 0600, got 0");
    assert_eq!(check_registry_mode("/r.json", 0o4777).unwrap_err().message(), "/r.json must be mode 0600, got 777");
}

#[test]
fn registry_error_keeps_its_cause() {
    let plain = RegistryError::new("bad".to_string());
    assert_eq!(plain.message(), "bad");
    assert_eq!(plain.cause(), None);
    let caused = RegistryError::with_cause("outer".to_string(), "inner".to_string());
    assert_eq!(caused.message(), "outer");
    assert_eq!(caused.cause(), Some("inner"));
    // Check failures carry no cause.
    let file = RegistryFile { nodes: vec![node("a"), node("a")], install_sessions: vec![] };
    assert_eq!(validate_registry_file("p", &file).unwrap_err().cause(), None);
}
