//! The node registry: the checks that a registry file must pass, the
//! in-memory state built from it, and the names of the files kept beside it.
use vstd::prelude::*;
use vstd::string::StringExecFns;

use crate::config::{MAX_NODE_TAG_BYTES, MAX_NODE_TAGS};
use crate::config::opt_view;
use crate::text::{all_whitespace, chars_eq, chars_of, format_octal, hex_encode, hex_string, octal, owned, utf8_len};
use crate::validation::{
    identifier_error, law_tag_list_accepted, non_empty_error, string_views, tag_list_error, validate_identifier,
    validate_non_empty, validate_tag_list, ValidationError,
};

verus! {

/// A node as the registry file records it.
#[derive(Debug, Clone)]
pub struct RegisteredNode {
    pub node_id: String,
    pub node_label: String,
    pub token_hash: String,
    pub token: String,
    pub tags: Vec<String>,
}

/// A one-time install session as the registry file records it.
#[derive(Debug, Clone)]
pub struct InstallSession {
    pub token: String,
    pub node_id: String,
}

/// The contents of the registry file.
#[derive(Debug, Clone)]
pub struct RegistryFile {
    pub nodes: Vec<RegisteredNode>,
    pub install_sessions: Vec<InstallSession>,
}

/// The identity that an agent reports for itself.
#[derive(Debug, Clone)]
pub struct NodeIdentity {
    pub node_id: String,
    pub node_label: String,
    pub agent_version: String,
    pub hostname: String,
    pub os: String,
    pub tags: Vec<String>,
}

/// A registry that was refused, or a registry operation that failed: the
/// message that says why, and, where a lower-level failure caused it, that
/// failure's message.
#[derive(Debug, Clone)]
pub struct RegistryError {
    message: String,
    cause: Option<String>,
}

impl View for RegistryError {
    type V = (Seq<char>, Option<Seq<char>>);

    closed spec fn view(&self) -> (Seq<char>, Option<Seq<char>>) {
        (
            self.message@,
            match self.cause {
                Some(c) => Some(c@),
                None => None,
            },
        )
    }
}

impl RegistryError {
    /// An error with no cause behind it.
    pub fn new(message: String) -> (e: Self)
        ensures
            e@ == (message@, None::<Seq<char>>),
    {
        RegistryError { message, cause: None }
    }

    /// An error that `cause` led to.
    pub fn with_cause(message: String, cause: String) -> (e: Self)
        ensures
            e@ == (message@, Some(cause@)),
    {
        RegistryError { message, cause: Some(cause) }
    }

    /// The message, as `Display` writes it.
    pub fn message(&self) -> (m: &str)
        ensures
            m@ == self@.0,
    {
        self.message.as_str()
    }

    /// The message of the failure that led to this error, if any.
    pub fn cause(&self) -> (c: Option<&str>)
        ensures
            c is None <==> self@.1 is None,
            c matches Some(m) ==> self@.1 == Some(m@),
    {
        match &self.cause {
            Some(c) => Some(c.as_str()),
            None => None,
        }
    }

    fn from_validation(error: ValidationError) -> (e: Self)
        ensures
            e@ == (error@, None::<Seq<char>>),
    {
        RegistryError { message: error.to_message_string(), cause: None }
    }
}

/// The view of an error with `message` and no cause, where there is one.
pub open spec fn uncaused(message: Option<Seq<char>>) -> Option<(Seq<char>, Option<Seq<char>>)> {
    match message {
        Some(m) => Some((m, None)),
        None => None,
    }
}

/// `a`, or else `b`.
pub open spec fn or_else(a: Option<Seq<char>>, b: Option<Seq<char>>) -> Option<Seq<char>> {
    if a is Some {
        a
    } else {
        b
    }
}

// ---------------------------------------------------------------------------
// Single records
// ---------------------------------------------------------------------------

/// The error of `validate_registered_node`, if any.
pub open spec fn registered_node_error(n: RegisteredNode) -> Option<Seq<char>> {
    or_else(
        identifier_error("node.node_id"@, n.node_id@),
        or_else(
            non_empty_error("node.node_label"@, n.node_label@),
            if n.token_hash@.len() == 0 && n.token@.len() == 0 {
                Some("node.token_hash is empty"@)
            } else {
                tag_list_error(
                    "node.tags"@,
                    string_views(n.tags@),
                    MAX_NODE_TAGS as nat,
                    MAX_NODE_TAG_BYTES as nat,
                )
            },
        ),
    )
}

/// The error of `validate_install_session`, if any.
pub open spec fn install_session_error(s: InstallSession) -> Option<Seq<char>> {
    or_else(
        non_empty_error("install_session.token"@, s.token@),
        identifier_error("install_session.node_id"@, s.node_id@),
    )
}

/// The error of `validate_runtime_identity`, if any.
pub open spec fn runtime_identity_error(id: NodeIdentity) -> Option<Seq<char>> {
    or_else(
        identifier_error("identity.node_id"@, id.node_id@),
        or_else(
            non_empty_error("identity.node_label"@, id.node_label@),
            or_else(
                non_empty_error("identity.agent_version"@, id.agent_version@),
                or_else(
                    non_empty_error("identity.hostname"@, id.hostname@),
                    or_else(
                        non_empty_error("identity.os"@, id.os@),
                        tag_list_error(
                            "identity.tags"@,
                            string_views(id.tags@),
                            MAX_NODE_TAGS as nat,
                            MAX_NODE_TAG_BYTES as nat,
                        ),
                    ),
                ),
            ),
        ),
    )
}

fn lift<T>(r: Result<T, ValidationError>) -> (out: Result<T, RegistryError>)
    ensures
        r is Ok <==> out is Ok,
        r matches Err(e) ==> out matches Err(f) && f@ == (e@, None::<Seq<char>>),
{
    match r {
        Ok(v) => Ok(v),
        Err(e) => Err(RegistryError::from_validation(e)),
    }
}

/// Refuses a node whose id is not an identifier, whose label is blank,
/// that has neither a token hash nor a token, or whose tags are refused.
pub fn validate_registered_node(node: &RegisteredNode) -> (r: Result<(), RegistryError>)
    ensures
        r is Err <==> registered_node_error(*node) is Some,
        r matches Err(e) ==> Some(e@) == uncaused(registered_node_error(*node)),
{
    lift(validate_identifier("node.node_id", node.node_id.as_str()))?;
    lift(validate_non_empty("node.node_label", node.node_label.as_str()))?;
    if node.token_hash.as_str().is_empty() && node.token.as_str().is_empty() {
        return Err(RegistryError::new(owned("node.token_hash is empty")));
    }
    lift(
        validate_tag_list(
            "node.tags",
            node.tags.as_slice(),
            MAX_NODE_TAGS,
            MAX_NODE_TAG_BYTES,
        ),
    )?;
    Ok(())
}

/// Refuses an install session whose token is blank or whose node id is not
/// an identifier.
pub fn validate_install_session(session: &InstallSession) -> (r: Result<(), RegistryError>)
    ensures
        r is Err <==> install_session_error(*session) is Some,
        r matches Err(e) ==> Some(e@) == uncaused(install_session_error(*session)),
{
    lift(validate_non_empty("install_session.token", session.token.as_str()))?;
    lift(validate_identifier("install_session.node_id", session.node_id.as_str()))?;
    Ok(())
}

/// Refuses an agent identity whose node id is not an identifier, whose
/// label, agent version, host name or OS is blank, or whose tags are refused.
pub fn validate_runtime_identity(identity: &NodeIdentity) -> (r: Result<(), RegistryError>)
    ensures
        r is Err <==> runtime_identity_error(*identity) is Some,
        r matches Err(e) ==> Some(e@) == uncaused(runtime_identity_error(*identity)),
{
    lift(validate_identifier("identity.node_id", identity.node_id.as_str()))?;
    lift(validate_non_empty("identity.node_label", identity.node_label.as_str()))?;
    lift(validate_non_empty("identity.agent_version", identity.agent_version.as_str()))?;
    lift(validate_non_empty("identity.hostname", identity.hostname.as_str()))?;
    lift(validate_non_empty("identity.os", identity.os.as_str()))?;
    lift(
        validate_tag_list(
            "identity.tags",
            identity.tags.as_slice(),
            MAX_NODE_TAGS,
            MAX_NODE_TAG_BYTES,
        ),
    )?;
    Ok(())
}

// ---------------------------------------------------------------------------
// The registry file
// ---------------------------------------------------------------------------

/// An earlier node has the same id as the node at `i`.
pub open spec fn node_id_taken(nodes: Seq<RegisteredNode>, i: int) -> bool {
    exists|j: int| 0 <= j < i && #[trigger] nodes[j].node_id@ == nodes[i].node_id@
}

/// Some node has the id `id`.
pub open spec fn knows_node(nodes: Seq<RegisteredNode>, id: Seq<char>) -> bool {
    exists|j: int| 0 <= j < nodes.len() && #[trigger] nodes[j].node_id@ == id
}

/// An earlier install session has the same token as the session at `i`.
pub open spec fn token_taken(sessions: Seq<InstallSession>, i: int) -> bool {
    exists|j: int| 0 <= j < i && #[trigger] sessions[j].token@ == sessions[i].token@
}

/// What checking the node at `i` reports, once the nodes before it passed.
pub open spec fn node_step_error(path: Seq<char>, nodes: Seq<RegisteredNode>, i: int) -> Option<
    Seq<char>,
> {
    or_else(
        registered_node_error(nodes[i]),
        if node_id_taken(nodes, i) {
            Some("duplicate node_id "@ + nodes[i].node_id@ + " in "@ + path)
        } else {
            None
        },
    )
}

/// The first error that checking the first `n` nodes in order reports.
pub open spec fn nodes_scan_error(path: Seq<char>, nodes: Seq<RegisteredNode>, n: nat) -> Option<
    Seq<char>,
>
    decreases n,
{
    if n == 0 {
        None
    } else {
        or_else(nodes_scan_error(path, nodes, (n - 1) as nat), node_step_error(path, nodes, n - 1))
    }
}

/// What checking the install session at `i` reports, once the sessions before
/// it passed.
pub open spec fn session_step_error(
    path: Seq<char>,
    nodes: Seq<RegisteredNode>,
    sessions: Seq<InstallSession>,
    i: int,
) -> Option<Seq<char>> {
    or_else(
        install_session_error(sessions[i]),
        if !knows_node(nodes, sessions[i].node_id@) {
            Some("install token for unknown node_id "@ + sessions[i].node_id@ + " in "@ + path)
        } else if token_taken(sessions, i) {
            Some("duplicate install token in "@ + path)
        } else {
            None
        },
    )
}

/// The first error that checking the first `n` install sessions in order
/// reports.
pub open spec fn sessions_scan_error(
    path: Seq<char>,
    nodes: Seq<RegisteredNode>,
    sessions: Seq<InstallSession>,
    n: nat,
) -> Option<Seq<char>>
    decreases n,
{
    if n == 0 {
        None
    } else {
        or_else(
            sessions_scan_error(path, nodes, sessions, (n - 1) as nat),
            session_step_error(path, nodes, sessions, n - 1),
        )
    }
}

/// The error of `validate_registry_file`, if any: the first that checking
/// the nodes and then the install sessions, in order, reports.
pub open spec fn registry_file_error(path: Seq<char>, file: RegistryFile) -> Option<Seq<char>> {
    or_else(
        nodes_scan_error(path, file.nodes@, file.nodes@.len()),
        sessions_scan_error(path, file.nodes@, file.install_sessions@, file.install_sessions@.len()),
    )
}

/// A registry file that every registry keeps: each node passes its checks,
/// no two nodes share an id, each install session passes its checks and
/// names a known node, and no two sessions share a token.
pub open spec fn registry_file_well_formed(file: RegistryFile) -> bool {
    let nodes = file.nodes@;
    let sessions = file.install_sessions@;
    &&& forall|i: int| 0 <= i < nodes.len() ==> registered_node_error(#[trigger] nodes[i]) is None
    &&& forall|i: int, j: int|
        0 <= i < j < nodes.len() ==> (#[trigger] nodes[i]).node_id@ != (#[trigger] nodes[j]).node_id@
    &&& forall|i: int|
        0 <= i < sessions.len() ==> install_session_error(#[trigger] sessions[i]) is None
            && knows_node(nodes, sessions[i].node_id@)
    &&& forall|i: int, j: int|
        0 <= i < j < sessions.len() ==> (#[trigger] sessions[i]).token@ != (#[trigger] sessions[j]).token@
}

proof fn lemma_nodes_scan(path: Seq<char>, nodes: Seq<RegisteredNode>, n: nat)
    requires
        n <= nodes.len(),
    ensures
        nodes_scan_error(path, nodes, n) is None <==> forall|i: int|
            0 <= i < n ==> (#[trigger] node_step_error(path, nodes, i)) is None,
    decreases n,
{
    if n > 0 {
        lemma_nodes_scan(path, nodes, (n - 1) as nat);
    }
}

proof fn lemma_sessions_scan(
    path: Seq<char>,
    nodes: Seq<RegisteredNode>,
    sessions: Seq<InstallSession>,
    n: nat,
)
    requires
        n <= sessions.len(),
    ensures
        sessions_scan_error(path, nodes, sessions, n) is None <==> forall|i: int|
            0 <= i < n ==> (#[trigger] session_step_error(path, nodes, sessions, i)) is None,
    decreases n,
{
    if n > 0 {
        lemma_sessions_scan(path, nodes, sessions, (n - 1) as nat);
    }
}

/// A registry file passes `validate_registry_file` exactly when it is well
/// formed, whatever its path.
pub proof fn law_registry_file_error_iff_ill_formed(path: Seq<char>, file: RegistryFile)
    ensures
        registry_file_error(path, file) is None <==> registry_file_well_formed(file),
{
    let nodes = file.nodes@;
    let sessions = file.install_sessions@;
    lemma_nodes_scan(path, nodes, nodes.len());
    lemma_sessions_scan(path, nodes, sessions, sessions.len());
    if registry_file_error(path, file) is None {
        assert forall|i: int, j: int|
            0 <= i < j < nodes.len() implies (#[trigger] nodes[i]).node_id@ != (#[trigger] nodes[j]).node_id@ by {
            assert(node_step_error(path, nodes, j) is None);
            if nodes[i].node_id@ == nodes[j].node_id@ {
                assert(node_id_taken(nodes, j));
            }
        }
        assert forall|i: int| 0 <= i < nodes.len() implies registered_node_error(#[trigger] nodes[i]) is None by {
            assert(node_step_error(path, nodes, i) is None);
        }
        assert forall|i: int|
            0 <= i < sessions.len() implies install_session_error(#[trigger] sessions[i]) is None
                && knows_node(nodes, sessions[i].node_id@) by {
            assert(session_step_error(path, nodes, sessions, i) is None);
        }
        assert forall|i: int, j: int|
            0 <= i < j < sessions.len() implies (#[trigger] sessions[i]).token@ != (#[trigger] sessions[j]).token@ by {
            assert(session_step_error(path, nodes, sessions, j) is None);
            if sessions[i].token@ == sessions[j].token@ {
                assert(token_taken(sessions, j));
            }
        }
    }
    if registry_file_well_formed(file) {
        assert forall|i: int| 0 <= i < nodes.len() implies (#[trigger] node_step_error(path, nodes, i)) is None by {
            assert(registered_node_error(nodes[i]) is None);
            if node_id_taken(nodes, i) {
                let j = choose|j: int| 0 <= j < i && #[trigger] nodes[j].node_id@ == nodes[i].node_id@;
                assert(nodes[j].node_id@ != nodes[i].node_id@);
            }
        }
        assert forall|i: int| 0 <= i < sessions.len() implies (#[trigger] session_step_error(path, nodes, sessions, i)) is None by {
            assert(install_session_error(sessions[i]) is None);
            if token_taken(sessions, i) {
                let j = choose|j: int| 0 <= j < i && #[trigger] sessions[j].token@ == sessions[i].token@;
                assert(sessions[j].token@ != sessions[i].token@);
            }
        }
    }
}

fn node_id_taken_before(nodes: &Vec<RegisteredNode>, i: usize) -> (b: bool)
    requires
        i < nodes.len(),
    ensures
        b == node_id_taken(nodes@, i as int),
{
    let mut j: usize = 0;
    while j < i
        invariant
            i < nodes.len(),
            j <= i,
            forall|k: int| 0 <= k < j ==> (#[trigger] nodes@[k]).node_id@ != nodes@[i as int].node_id@,
        decreases i - j,
    {
        if nodes[j].node_id == nodes[i].node_id {
            return true;
        }
        j = j + 1;
    }
    false
}

fn knows_node_id(nodes: &Vec<RegisteredNode>, id: &String) -> (b: bool)
    ensures
        b == knows_node(nodes@, id@),
{
    let mut j: usize = 0;
    while j < nodes.len()
        invariant
            j <= nodes.len(),
            forall|k: int| 0 <= k < j ==> (#[trigger] nodes@[k]).node_id@ != id@,
        decreases nodes.len() - j,
    {
        if nodes[j].node_id == *id {
            return true;
        }
        j = j + 1;
    }
    false
}

fn token_taken_before(sessions: &Vec<InstallSession>, i: usize) -> (b: bool)
    requires
        i < sessions.len(),
    ensures
        b == token_taken(sessions@, i as int),
{
    let mut j: usize = 0;
    while j < i
        invariant
            i < sessions.len(),
            j <= i,
            forall|k: int| 0 <= k < j ==> (#[trigger] sessions@[k]).token@ != sessions@[i as int].token@,
        decreases i - j,
    {
        if sessions[j].token == sessions[i].token {
            return true;
        }
        j = j + 1;
    }
    false
}

/// Checks every node and then every install session in order, and refuses the
/// file at the first failure: a record that fails its own checks, a node id
/// seen before, a session for an unknown node, or a token seen before.
pub fn validate_registry_file(path: &str, file: &RegistryFile) -> (r: Result<(), RegistryError>)
    ensures
        r is Err <==> registry_file_error(path@, *file) is Some,
        r matches Err(e) ==> Some(e@) == uncaused(registry_file_error(path@, *file)),
        r is Ok <==> registry_file_well_formed(*file),
{
    proof {
        law_registry_file_error_iff_ill_formed(path@, *file);
    }
    let nodes = &file.nodes;
    let sessions = &file.install_sessions;
    let mut i: usize = 0;
    while i < nodes.len()
        invariant
            i <= nodes.len(),
            nodes@ == file.nodes@,
            nodes_scan_error(path@, nodes@, i as nat) is None,
        decreases nodes.len() - i,
    {
        match validate_registered_node(&nodes[i]) {
            Err(e) => {
                assert(nodes_scan_error(path@, nodes@, (i + 1) as nat) == Some(e@.0));
                proof {
                    lemma_scan_stays_nodes(path@, nodes@, (i + 1) as nat, nodes@.len());
                }
                return Err(e);
            },
            Ok(()) => {},
        }
        if node_id_taken_before(nodes, i) {
            let mut message = owned("duplicate node_id ");
            message.append(nodes[i].node_id.as_str());
            message.append(" in ");
            message.append(path);
            proof {
                lemma_scan_stays_nodes(path@, nodes@, (i + 1) as nat, nodes@.len());
            }
            return Err(RegistryError::new(message));
        }
        i = i + 1;
    }
    let mut i: usize = 0;
    while i < sessions.len()
        invariant
            i <= sessions.len(),
            nodes@ == file.nodes@,
            sessions@ == file.install_sessions@,
            nodes_scan_error(path@, nodes@, nodes@.len()) is None,
            sessions_scan_error(path@, nodes@, sessions@, i as nat) is None,
        decreases sessions.len() - i,
    {
        match validate_install_session(&sessions[i]) {
            Err(e) => {
                proof {
                    lemma_scan_stays_sessions(path@, nodes@, sessions@, (i + 1) as nat, sessions@.len());
                }
                return Err(e);
            },
            Ok(()) => {},
        }
        if !knows_node_id(nodes, &sessions[i].node_id) {
            let mut message = owned("install token for unknown node_id ");
            message.append(sessions[i].node_id.as_str());
            message.append(" in ");
            message.append(path);
            proof {
                lemma_scan_stays_sessions(path@, nodes@, sessions@, (i + 1) as nat, sessions@.len());
            }
            return Err(RegistryError::new(message));
        }
        if token_taken_before(sessions, i) {
            let mut message = owned("duplicate install token in ");
            message.append(path);
            proof {
                lemma_scan_stays_sessions(path@, nodes@, sessions@, (i + 1) as nat, sessions@.len());
            }
            return Err(RegistryError::new(message));
        }
        i = i + 1;
    }
    Ok(())
}

/// Once a scan reports an error, a longer scan reports the same one.
proof fn lemma_scan_stays_nodes(path: Seq<char>, nodes: Seq<RegisteredNode>, n: nat, m: nat)
    requires
        n <= m,
        nodes_scan_error(path, nodes, n) is Some,
    ensures
        nodes_scan_error(path, nodes, m) == nodes_scan_error(path, nodes, n),
    decreases m - n,
{
    if m > n {
        lemma_scan_stays_nodes(path, nodes, n, (m - 1) as nat);
    }
}

proof fn lemma_scan_stays_sessions(
    path: Seq<char>,
    nodes: Seq<RegisteredNode>,
    sessions: Seq<InstallSession>,
    n: nat,
    m: nat,
)
    requires
        n <= m,
        sessions_scan_error(path, nodes, sessions, n) is Some,
    ensures
        sessions_scan_error(path, nodes, sessions, m) == sessions_scan_error(path, nodes, sessions, n),
    decreases m - n,
{
    if m > n {
        lemma_scan_stays_sessions(path, nodes, sessions, n, (m - 1) as nat);
    }
}

// ---------------------------------------------------------------------------
// The registry state
// ---------------------------------------------------------------------------

/// The nodes keyed by id, as inserting them in order into a map gives them.
pub open spec fn node_map_of(nodes: Seq<RegisteredNode>) -> Map<Seq<char>, RegisteredNode>
    decreases nodes.len(),
{
    if nodes.len() == 0 {
        Map::empty()
    } else {
        node_map_of(nodes.drop_last()).insert(nodes.last().node_id@, nodes.last())
    }
}

/// The install sessions keyed by token, as inserting them in order into a map
/// gives them.
pub open spec fn session_map_of(sessions: Seq<InstallSession>) -> Map<Seq<char>, InstallSession>
    decreases sessions.len(),
{
    if sessions.len() == 0 {
        Map::empty()
    } else {
        session_map_of(sessions.drop_last()).insert(sessions.last().token@, sessions.last())
    }
}

pub open spec fn node_ids_distinct(nodes: Seq<RegisteredNode>) -> bool {
    forall|i: int, j: int|
        0 <= i < j < nodes.len() ==> (#[trigger] nodes[i]).node_id@ != (#[trigger] nodes[j]).node_id@
}

pub open spec fn session_tokens_distinct(sessions: Seq<InstallSession>) -> bool {
    forall|i: int, j: int|
        0 <= i < j < sessions.len() ==> (#[trigger] sessions[i]).token@ != (#[trigger] sessions[j]).token@
}

proof fn lemma_node_map_of(nodes: Seq<RegisteredNode>)
    requires
        node_ids_distinct(nodes),
    ensures
        forall|k: Seq<char>| #[trigger]
            node_map_of(nodes).dom().contains(k) <==> knows_node(nodes, k),
        forall|i: int|
            0 <= i < nodes.len() ==> node_map_of(nodes)[(#[trigger] nodes[i]).node_id@] == nodes[i],
    decreases nodes.len(),
{
    if nodes.len() > 0 {
        let init = nodes.drop_last();
        assert(node_ids_distinct(init)) by {
            assert forall|i: int, j: int| 0 <= i < j < init.len() implies (#[trigger] init[i]).node_id@
                != (#[trigger] init[j]).node_id@ by {
                assert(init[i] == nodes[i] && init[j] == nodes[j]);
            }
        }
        lemma_node_map_of(init);
        assert(node_map_of(nodes) == node_map_of(init).insert(nodes.last().node_id@, nodes.last()));
        assert forall|k: Seq<char>| #[trigger]
            node_map_of(nodes).dom().contains(k) <==> knows_node(nodes, k) by {
            if knows_node(nodes, k) {
                let j = choose|j: int| 0 <= j < nodes.len() && #[trigger] nodes[j].node_id@ == k;
                if j < nodes.len() - 1 {
                    assert(init[j].node_id@ == k);
                    assert(knows_node(init, k));
                }
            }
            if knows_node(init, k) {
                let j = choose|j: int| 0 <= j < init.len() && #[trigger] init[j].node_id@ == k;
                assert(nodes[j].node_id@ == k);
            }
            if k == nodes.last().node_id@ {
                assert(nodes[nodes.len() - 1].node_id@ == k);
            }
        }
        assert forall|i: int| 0 <= i < nodes.len() implies node_map_of(nodes)[(
        #[trigger] nodes[i]).node_id@] == nodes[i] by {
            if i < nodes.len() - 1 {
                assert(init[i] == nodes[i]);
                assert(nodes[i].node_id@ != nodes[nodes.len() - 1].node_id@);
            }
        }
    }
}

proof fn lemma_session_map_of(sessions: Seq<InstallSession>)
    requires
        session_tokens_distinct(sessions),
    ensures
        forall|k: Seq<char>| #[trigger]
            session_map_of(sessions).dom().contains(k) <==> exists|j: int|
                0 <= j < sessions.len() && #[trigger] sessions[j].token@ == k,
        forall|i: int|
            0 <= i < sessions.len() ==> session_map_of(sessions)[(#[trigger] sessions[i]).token@]
                == sessions[i],
    decreases sessions.len(),
{
    if sessions.len() > 0 {
        let init = sessions.drop_last();
        assert(session_tokens_distinct(init)) by {
            assert forall|i: int, j: int| 0 <= i < j < init.len() implies (#[trigger] init[i]).token@
                != (#[trigger] init[j]).token@ by {
                assert(init[i] == sessions[i] && init[j] == sessions[j]);
            }
        }
        lemma_session_map_of(init);
        assert(session_map_of(sessions) == session_map_of(init).insert(
            sessions.last().token@,
            sessions.last(),
        ));
        assert forall|k: Seq<char>| #[trigger]
            session_map_of(sessions).dom().contains(k) <==> exists|j: int|
                0 <= j < sessions.len() && #[trigger] sessions[j].token@ == k by {
            if exists|j: int| 0 <= j < sessions.len() && #[trigger] sessions[j].token@ == k {
                let j = choose|j: int| 0 <= j < sessions.len() && #[trigger] sessions[j].token@ == k;
                if j < sessions.len() - 1 {
                    assert(init[j].token@ == k);
                    assert(exists|j: int| 0 <= j < init.len() && #[trigger] init[j].token@ == k);
                }
            }
            if exists|j: int| 0 <= j < init.len() && #[trigger] init[j].token@ == k {
                let j = choose|j: int| 0 <= j < init.len() && #[trigger] init[j].token@ == k;
                assert(sessions[j].token@ == k);
            }
            if k == sessions.last().token@ {
                assert(sessions[sessions.len() - 1].token@ == k);
            }
        }
        assert forall|i: int| 0 <= i < sessions.len() implies session_map_of(sessions)[(
        #[trigger] sessions[i]).token@] == sessions[i] by {
            if i < sessions.len() - 1 {
                assert(init[i] == sessions[i]);
                assert(sessions[i].token@ != sessions[sessions.len() - 1].token@);
            }
        }
    }
}

/// The nodes and install sessions of a loaded registry, each findable by its
/// key: no two nodes share an id and no two sessions share a token.
///
/// The entries are kept in vectors with distinct keys rather than in a
/// `HashMap` keyed by `String`: vstd's model of hash-map keys covers
/// integers, `bool` and boxes of them, not `String`, so lookups by a string
/// key would come with no usable contract.
pub struct RegistryState {
    entries: Vec<RegisteredNode>,
    install_sessions: Vec<InstallSession>,
}

impl RegistryState {
    #[verifier::type_invariant]
    spec fn keys_distinct(self) -> bool {
        node_ids_distinct(self.entries@) && session_tokens_distinct(self.install_sessions@)
    }

    /// The nodes, in the order the file listed them.
    pub closed spec fn node_entries(self) -> Seq<RegisteredNode> {
        self.entries@
    }

    /// The install sessions, in the order the file listed them.
    pub closed spec fn session_entries(self) -> Seq<InstallSession> {
        self.install_sessions@
    }

    /// The nodes by id.
    pub open spec fn nodes(self) -> Map<Seq<char>, RegisteredNode> {
        node_map_of(self.node_entries())
    }

    /// The install sessions by token.
    pub open spec fn sessions(self) -> Map<Seq<char>, InstallSession> {
        session_map_of(self.session_entries())
    }

    /// The node with id `node_id`, if there is one.
    pub fn node(&self, node_id: &str) -> (r: Option<&RegisteredNode>)
        ensures
            r is Some <==> self.nodes().dom().contains(node_id@),
            r matches Some(n) ==> *n == self.nodes()[node_id@],
    {
        proof {
            use_type_invariant(self);
            lemma_node_map_of(self.entries@);
        }
        let key = chars_of(node_id);
        let mut i: usize = 0;
        while i < self.entries.len()
            invariant
                i <= self.entries.len(),
                key@ == node_id@,
                forall|k: int| 0 <= k < i ==> (#[trigger] self.entries@[k]).node_id@ != node_id@,
            decreases self.entries.len() - i,
        {
            let id = chars_of(self.entries[i].node_id.as_str());
            if chars_eq(&id, &key) {
                proof {
                    use_type_invariant(self);
                    lemma_node_map_of(self.entries@);
                }
                return Some(&self.entries[i]);
            }
            i = i + 1;
        }
        proof {
            use_type_invariant(self);
            lemma_node_map_of(self.entries@);
        }
        None
    }

    /// The install session with token `token`, if there is one.
    pub fn install_session(&self, token: &str) -> (r: Option<&InstallSession>)
        ensures
            r is Some <==> self.sessions().dom().contains(token@),
            r matches Some(s) ==> *s == self.sessions()[token@],
    {
        proof {
            use_type_invariant(self);
            lemma_session_map_of(self.install_sessions@);
        }
        let key = chars_of(token);
        let mut i: usize = 0;
        while i < self.install_sessions.len()
            invariant
                i <= self.install_sessions.len(),
                key@ == token@,
                forall|k: int|
                    0 <= k < i ==> (#[trigger] self.install_sessions@[k]).token@ != token@,
            decreases self.install_sessions.len() - i,
        {
            let t = chars_of(self.install_sessions[i].token.as_str());
            if chars_eq(&t, &key) {
                proof {
                    use_type_invariant(self);
                    lemma_session_map_of(self.install_sessions@);
                }
                return Some(&self.install_sessions[i]);
            }
            i = i + 1;
        }
        proof {
            use_type_invariant(self);
            lemma_session_map_of(self.install_sessions@);
        }
        None
    }

    /// The number of nodes.
    pub fn node_count(&self) -> (n: usize)
        ensures
            n == self.node_entries().len(),
    {
        self.entries.len()
    }

    /// The number of install sessions.
    pub fn install_session_count(&self) -> (n: usize)
        ensures
            n == self.session_entries().len(),
    {
        self.install_sessions.len()
    }
}

/// The error of `load_registry_state_from_file`, if any.
pub open spec fn registry_state_error(path: Seq<char>, file: RegistryFile) -> Option<Seq<char>> {
    if !node_ids_distinct(file.nodes@) {
        Some("duplicate node_id found in "@ + path)
    } else if !session_tokens_distinct(file.install_sessions@) {
        Some("duplicate install token found in "@ + path)
    } else {
        None
    }
}

/// Builds the registry state from a registry file, refusing a node id or an
/// install token that occurs twice.
pub fn load_registry_state_from_file(path: &str, file: RegistryFile) -> (r: Result<
    RegistryState,
    RegistryError,
>)
    ensures
        r is Err <==> registry_state_error(path@, file) is Some,
        r matches Err(e) ==> Some(e@) == uncaused(registry_state_error(path@, file)),
        r matches Ok(state) ==> state.node_entries() == file.nodes@ && state.session_entries()
            == file.install_sessions@,
{
    let mut i: usize = 0;
    while i < file.nodes.len()
        invariant
            i <= file.nodes.len(),
            forall|a: int, b: int|
                0 <= a < b < i ==> (#[trigger] file.nodes@[a]).node_id@ != (
                #[trigger] file.nodes@[b]).node_id@,
        decreases file.nodes.len() - i,
    {
        if node_id_taken_before(&file.nodes, i) {
            let mut message = owned("duplicate node_id found in ");
            message.append(path);
            let ghost j = choose|j: int|
                0 <= j < i && #[trigger] file.nodes@[j].node_id@ == file.nodes@[i as int].node_id@;
            assert(!node_ids_distinct(file.nodes@)) by {
                assert(file.nodes@[j].node_id@ == file.nodes@[i as int].node_id@);
            }
            return Err(RegistryError::new(message));
        }
        i = i + 1;
    }
    let mut i: usize = 0;
    while i < file.install_sessions.len()
        invariant
            i <= file.install_sessions.len(),
            node_ids_distinct(file.nodes@),
            forall|a: int, b: int|
                0 <= a < b < i ==> (#[trigger] file.install_sessions@[a]).token@ != (
                #[trigger] file.install_sessions@[b]).token@,
        decreases file.install_sessions.len() - i,
    {
        if token_taken_before(&file.install_sessions, i) {
            let mut message = owned("duplicate install token found in ");
            message.append(path);
            let ghost j = choose|j: int|
                0 <= j < i && #[trigger] file.install_sessions@[j].token@
                    == file.install_sessions@[i as int].token@;
            assert(!session_tokens_distinct(file.install_sessions@)) by {
                assert(file.install_sessions@[j].token@ == file.install_sessions@[i as int].token@);
            }
            return Err(RegistryError::new(message));
        }
        i = i + 1;
    }
    Ok(RegistryState { entries: file.nodes, install_sessions: file.install_sessions })
}

/// A read of a loaded registry gives back what the file held: each node of
/// the file is found under its id, and only ids of the file are found; the
/// same holds of install sessions and their tokens.
pub proof fn law_loaded_registry_lookup(path: Seq<char>, file: RegistryFile, state: RegistryState)
    requires
        state.node_entries() == file.nodes@,
        state.session_entries() == file.install_sessions@,
        registry_state_error(path, file) is None,
    ensures
        forall|i: int|
            0 <= i < file.nodes@.len() ==> state.nodes().dom().contains(
                (#[trigger] file.nodes@[i]).node_id@,
            ) && state.nodes()[file.nodes@[i].node_id@] == file.nodes@[i],
        forall|k: Seq<char>| #[trigger]
            state.nodes().dom().contains(k) ==> knows_node(file.nodes@, k),
        forall|i: int|
            0 <= i < file.install_sessions@.len() ==> state.sessions().dom().contains(
                (#[trigger] file.install_sessions@[i]).token@,
            ) && state.sessions()[file.install_sessions@[i].token@] == file.install_sessions@[i],
        forall|k: Seq<char>| #[trigger]
            state.sessions().dom().contains(k) ==> exists|j: int|
                0 <= j < file.install_sessions@.len() && #[trigger] file.install_sessions@[j].token@
                    == k,
{
    lemma_node_map_of(file.nodes@);
    lemma_session_map_of(file.install_sessions@);
    assert forall|i: int| 0 <= i < file.nodes@.len() implies state.nodes().dom().contains(
        (#[trigger] file.nodes@[i]).node_id@,
    ) by {
        assert(knows_node(file.nodes@, file.nodes@[i].node_id@));
    }
    assert forall|i: int| 0 <= i < file.install_sessions@.len() implies state.sessions().dom().contains(
        (#[trigger] file.install_sessions@[i]).token@,
    ) by {
        let t = file.install_sessions@[i].token@;
        assert(file.install_sessions@[i].token@ == t);
    }
}

/// A registry file that passes `validate_registry_file` also loads.
pub proof fn law_valid_registry_file_loads(path: Seq<char>, file: RegistryFile)
    requires
        registry_file_error(path, file) is None,
    ensures
        registry_state_error(path, file) is None,
{
    law_registry_file_error_iff_ill_formed(path, file);
}

// ---------------------------------------------------------------------------
// Files kept beside the registry
// ---------------------------------------------------------------------------

/// What `Path::file_name` gives for `path` (on the Unix targets the server
/// runs on), as a string.
pub uninterp spec fn path_file_name(path: Seq<char>) -> Option<Seq<char>>;

/// What `Path::with_file_name` gives for `path` and `name` (on the Unix
/// targets the server runs on), as a string.
pub uninterp spec fn path_with_file_name(path: Seq<char>, name: Seq<char>) -> Seq<char>;

/// Calls `std::path::Path::file_name` on `path`. The contract claims only
/// that the result is a function of `path`.
#[verifier::external_body]
fn file_name_of(path: &str) -> (r: Option<String>)
    ensures
        opt_view(r) == path_file_name(path@),
{
    std::path::Path::new(path).file_name().and_then(|name| name.to_str()).map(|name| name.to_string())
}

/// Calls `std::path::Path::with_file_name` on `path` and `name`. The contract
/// claims only that the result is a function of `path` and `name`.
#[verifier::external_body]
fn with_file_name(path: &str, name: &str) -> (r: String)
    ensures
        r@ == path_with_file_name(path@, name@),
{
    std::path::Path::new(path).with_file_name(name).to_string_lossy().into_owned()
}

/// Fills eight bytes from the system's random source with `getrandom::fill`,
/// or gives the message of its error. Nothing is claimed of the bytes, of
/// when it fails or of the message.
#[verifier::external_body]
fn random_suffix_bytes() -> (r: Result<[u8; 8], String>) {
    let mut suffix = [0u8; 8];
    match getrandom::fill(&mut suffix) {
        Ok(()) => Ok(suffix),
        Err(error) => Err(error.to_string()),
    }
}

/// The file name of `path`, or `server.json` where it has none.
pub open spec fn registry_file_name(path: Seq<char>) -> Seq<char> {
    match path_file_name(path) {
        Some(name) => name,
        None => "server.json"@,
    }
}

fn registry_file_name_of(path: &str) -> (r: String)
    ensures
        r@ == registry_file_name(path@),
{
    match file_name_of(path) {
        Some(name) => name,
        None => owned("server.json"),
    }
}

/// The path of the lock file of the registry at `path`: its file name with
/// `.lock` appended, in the same directory.
pub fn registry_lock_path(path: &str) -> (r: String)
    ensures
        r@ == path_with_file_name(path@, registry_file_name(path@) + ".lock"@),
{
    let mut name = registry_file_name_of(path);
    name.append(".lock");
    with_file_name(path, name.as_str())
}

/// The path of a temporary file for the registry at `path`, for the random
/// bytes `suffix`: its file name, `.tmp.` and the bytes in hexadecimal, in the
/// same directory.
pub fn temporary_registry_path_with_suffix(path: &str, suffix: &[u8; 8]) -> (r: String)
    ensures
        r@ == path_with_file_name(
            path@,
            registry_file_name(path@) + ".tmp."@ + hex_string(suffix@),
        ),
{
    let mut name = registry_file_name_of(path);
    name.append(".tmp.");
    let hex = hex_encode(suffix);
    name.append(hex.as_str());
    with_file_name(path, name.as_str())
}

/// A fresh path for a temporary copy of the registry at `path`, so that two
/// writers never share one; fails only where the system has no random bytes,
/// and then keeps the system's error as the cause.
pub fn temporary_registry_path(path: &str) -> (r: Result<String, RegistryError>)
    ensures
        r matches Ok(p) ==> exists|suffix: Seq<u8>|
            suffix.len() == 8 && p@ == path_with_file_name(
                path@,
                registry_file_name(path@) + ".tmp."@ + hex_string(suffix),
            ),
        r matches Err(e) ==> e@.0 == "failed to generate registry temp-file suffix"@ && e@.1 is Some,
{
    match random_suffix_bytes() {
        Ok(suffix) => {
            let p = temporary_registry_path_with_suffix(path, &suffix);
            assert(suffix@.len() == 8);
            Ok(p)
        },
        Err(cause) => Err(
            RegistryError::with_cause(owned("failed to generate registry temp-file suffix"), cause),
        ),
    }
}

/// The permission bits of a mode, as `mode & 0o777` keeps them.
pub open spec fn permission_bits(mode: u32) -> u32 {
    mode & 0o777u32
}

/// The error of `check_registry_mode`, if any.
pub open spec fn registry_mode_error(path: Seq<char>, mode: u32) -> Option<Seq<char>> {
    if permission_bits(mode) != 0o600u32 {
        Some(path + " must be mode 0600, got "@ + octal(permission_bits(mode) as nat))
    } else {
        None
    }
}

/// Refuses a registry file whose permission bits are not exactly `0600`,
/// given the mode that its metadata reports.
pub fn check_registry_mode(path: &str, mode: u32) -> (r: Result<(), RegistryError>)
    ensures
        r is Err <==> registry_mode_error(path@, mode) is Some,
        r matches Err(e) ==> Some(e@) == uncaused(registry_mode_error(path@, mode)),
{
    let bits = mode & 0o777u32;
    if bits != 0o600u32 {
        let mut message = owned(path);
        message.append(" must be mode 0600, got ");
        message.append(format_octal(bits as u64).as_str());
        return Err(RegistryError::new(message));
    }
    Ok(())
}

/// The identity an agent reports is accepted exactly when its node id is an
/// identifier, its label, agent version, hostname and OS are each not blank,
/// and it has at most 16 tags of at most 64 bytes each.
pub proof fn law_runtime_identity_accepted(id: NodeIdentity)
    ensures
        runtime_identity_error(id) is None <==> {
            &&& identifier_error("identity.node_id"@, id.node_id@) is None
            &&& !all_whitespace(id.node_label@)
            &&& !all_whitespace(id.agent_version@)
            &&& !all_whitespace(id.hostname@)
            &&& !all_whitespace(id.os@)
            &&& id.tags@.len() <= 16
            &&& forall|i: int| 0 <= i < id.tags@.len() ==> utf8_len((#[trigger] id.tags@[i])@) <= 64
        },
{
    let views = string_views(id.tags@);
    law_tag_list_accepted("identity.tags"@, views, MAX_NODE_TAGS as nat, MAX_NODE_TAG_BYTES as nat);
    assert(views.len() == id.tags@.len());
    if forall|i: int| 0 <= i < views.len() ==> utf8_len(#[trigger] views[i]) <= 64 {
        assert forall|i: int| 0 <= i < id.tags@.len() implies utf8_len((#[trigger] id.tags@[i])@) <= 64 by {
            assert(views[i] == id.tags@[i]@);
        }
    }
    if forall|i: int| 0 <= i < id.tags@.len() ==> utf8_len((#[trigger] id.tags@[i])@) <= 64 {
        assert forall|i: int| 0 <= i < views.len() implies utf8_len(#[trigger] views[i]) <= 64 by {
            assert(views[i] == id.tags@[i]@);
        }
    }
}

/// A registered node is accepted exactly when its node id is an identifier,
/// its label is not blank, it has a token hash or a token, and it has at most
/// 16 tags of at most 64 bytes each.
pub proof fn law_registered_node_accepted(n: RegisteredNode)
    ensures
        registered_node_error(n) is None <==> {
            &&& identifier_error("node.node_id"@, n.node_id@) is None
            &&& !all_whitespace(n.node_label@)
            &&& (n.token_hash@.len() > 0 || n.token@.len() > 0)
            &&& n.tags@.len() <= 16
            &&& forall|i: int| 0 <= i < n.tags@.len() ==> utf8_len((#[trigger] n.tags@[i])@) <= 64
        },
{
    let views = string_views(n.tags@);
    law_tag_list_accepted("node.tags"@, views, MAX_NODE_TAGS as nat, MAX_NODE_TAG_BYTES as nat);
    assert(views.len() == n.tags@.len());
    if forall|i: int| 0 <= i < views.len() ==> utf8_len(#[trigger] views[i]) <= 64 {
        assert forall|i: int| 0 <= i < n.tags@.len() implies utf8_len((#[trigger] n.tags@[i])@) <= 64 by {
            assert(views[i] == n.tags@[i]@);
        }
    }
    if forall|i: int| 0 <= i < n.tags@.len() ==> utf8_len((#[trigger] n.tags@[i])@) <= 64 {
        assert forall|i: int| 0 <= i < views.len() implies utf8_len(#[trigger] views[i]) <= 64 by {
            assert(views[i] == n.tags@[i]@);
        }
    }
}

/// Every node of a well-formed registry file has at most 16 tags, none of
/// them longer than 64 bytes.
pub proof fn law_well_formed_registry_node_tags(file: RegistryFile)
    requires
        registry_file_well_formed(file),
    ensures
        forall|i: int|
            0 <= i < file.nodes@.len() ==> {
                &&& (#[trigger] file.nodes@[i]).tags@.len() <= 16
                &&& forall|j: int|
                    0 <= j < file.nodes@[i].tags@.len() ==> utf8_len((#[trigger] file.nodes@[i].tags@[j])@) <= 64
            },
{
    assert forall|i: int| 0 <= i < file.nodes@.len() implies {
        &&& (#[trigger] file.nodes@[i]).tags@.len() <= 16
        &&& forall|j: int|
            0 <= j < file.nodes@[i].tags@.len() ==> utf8_len((#[trigger] file.nodes@[i].tags@[j])@) <= 64
    } by {
        law_registered_node_accepted(file.nodes@[i]);
    }
}

} // verus!
