//! The decisions of a WebSocket session with an agent: how each frame is
//! classified, what each message leads to, and the bookkeeping of the pings
//! that wait for an answer.
use std::collections::HashMap;

use vstd::prelude::*;
use vstd::std_specs::hash::group_hash_axioms;
use vstd::std_specs::iter::IteratorSpec;
use vstd::string::StringExecFns;

use crate::text::{chars_of, contains_chars, contains_seq, owned};

verus! {

broadcast use group_hash_axioms;

/// Pings that may wait for an answer at once; past it the oldest is dropped.
pub const MAX_OUTSTANDING_PINGS: usize = 32;

/// How long a ping has waited at `now`, if it was sent at `sent_at` (no
/// less than zero, as `Instant::elapsed` saturates).
pub open spec fn waited(sent_at: u64, now: u64) -> u64 {
    if now >= sent_at {
        (now - sent_at) as u64
    } else {
        0
    }
}

/// The pings that have waited less than `max_age` at `now`.
pub open spec fn unexpired_pings(pings: Map<u64, u64>, now: u64, max_age: u64) -> Map<u64, u64> {
    Map::new(|k: u64| pings.contains_key(k) && waited(pings[k], now) < max_age, |k: u64| pings[k])
}

/// `k` is a ping of `pings` sent no later than any other.
pub open spec fn is_oldest_ping(pings: Map<u64, u64>, k: u64) -> bool {
    &&& pings.contains_key(k)
    &&& forall|j: u64| #[trigger] pings.contains_key(j) ==> pings[k] <= pings[j]
}

/// What `prune_outstanding_pings` leaves: the unexpired pings, and, where
/// there are still `MAX_OUTSTANDING_PINGS` or more of them, one oldest ping
/// fewer.
pub open spec fn pruned_pings(before: Map<u64, u64>, after: Map<u64, u64>, now: u64, max_age: u64) -> bool {
    let kept = unexpired_pings(before, now, max_age);
    if kept.dom().len() < MAX_OUTSTANDING_PINGS {
        after == kept
    } else {
        exists|k: u64| #[trigger] is_oldest_ping(kept, k) && after == kept.remove(k)
    }
}

/// Pruning leaves fewer than `MAX_OUTSTANDING_PINGS` pings when there were
/// no more than that before.
proof fn lemma_pruned_size(before: Map<u64, u64>, after: Map<u64, u64>, now: u64, max_age: u64)
    requires
        before.dom().finite(),
        before.dom().len() <= MAX_OUTSTANDING_PINGS,
        pruned_pings(before, after, now, max_age),
    ensures
        after.dom().len() < MAX_OUTSTANDING_PINGS,
        after.dom().finite(),
{
    let kept = unexpired_pings(before, now, max_age);
    assert(kept.dom().subset_of(before.dom()));
    vstd::set_lib::lemma_len_subset(kept.dom(), before.dom());
    if kept.dom().len() >= MAX_OUTSTANDING_PINGS {
        let r = choose|r: u64| #[trigger] is_oldest_ping(kept, r) && after == kept.remove(r);
        assert(after.dom() == kept.dom().remove(r));
    }
}

/// The keys of `m`, each once.
fn map_keys(m: &HashMap<u64, u64>) -> (keys: Vec<u64>)
    ensures
        keys@.to_set() == m@.dom(),
        keys@.no_duplicates(),
{
    let mut keys: Vec<u64> = Vec::new();
    let ghost all = vstd::std_specs::hash::spec_keys_iter(m).remaining();
    for k in it: m.keys()
        invariant
            it.seq() == all,
            keys@ == all.take(it.index() as int).map_values(|r: &u64| *r),
    {
        assert(all.take(it.index() + 1).map_values(|r: &u64| *r) == keys@.push(*k));
        keys.push(*k);
    }
    assert(all.take(all.len() as int) == all);
    assert(keys@ == all.unref());
    keys
}

/// The keys already looked at are the first `i` of `keys`.
spec fn looked_at(keys: Seq<u64>, i: int, k: u64) -> bool {
    keys.take(i).contains(k)
}

/// Drops the pings that have waited `max_age` or longer at `now`; then, if
/// `MAX_OUTSTANDING_PINGS` or more remain, drops one that was sent first.
/// Pings map their nonce to the time they were sent.
pub fn prune_outstanding_pings(outstanding_pings: &mut HashMap<u64, u64>, now: u64, max_age: u64)
    ensures
        pruned_pings(old(outstanding_pings)@, final(outstanding_pings)@, now, max_age),
{
    let ghost before = outstanding_pings@;
    let keys = map_keys(outstanding_pings);
    let mut i: usize = 0;
    while i < keys.len()
        invariant
            i <= keys.len(),
            keys@.to_set() == before.dom(),
            keys@.no_duplicates(),
            outstanding_pings@ == Map::new(
                |k: u64|
                    before.contains_key(k) && (!looked_at(keys@, i as int, k) || waited(
                        before[k],
                        now,
                    ) < max_age),
                |k: u64| before[k],
            ),
        decreases keys.len() - i,
    {
        let k = keys[i];
        proof {
            assert(keys@.to_set().contains(k));
            assert(!looked_at(keys@, i as int, k)) by {
                if keys@.take(i as int).contains(k) {
                    let j = choose|j: int| 0 <= j < i && #[trigger] keys@.take(i as int)[j] == k;
                    assert(keys@[j] == keys@[i as int]);
                }
            }
            assert forall|x: u64| #[trigger] looked_at(keys@, i + 1, x) <==> (looked_at(keys@, i as int, x) || x == k) by {
                if looked_at(keys@, i + 1, x) {
                    let j = choose|j: int| 0 <= j < i + 1 && #[trigger] keys@.take(i + 1)[j] == x;
                    if j < i {
                        assert(keys@.take(i as int)[j] == x);
                    }
                }
                if looked_at(keys@, i as int, x) {
                    let j = choose|j: int| 0 <= j < i && #[trigger] keys@.take(i as int)[j] == x;
                    assert(keys@.take(i + 1)[j] == x);
                }
                if x == k {
                    assert(keys@.take(i + 1)[i as int] == x);
                }
            }
        }
        let sent = match outstanding_pings.get(&k) {
            Some(v) => *v,
            None => now,
        };
        let waited_for = if now >= sent {
            now - sent
        } else {
            0
        };
        if waited_for >= max_age {
            outstanding_pings.remove(&k);
        }
        i = i + 1;
        proof {
            assert(outstanding_pings@ =~= Map::new(
                |x: u64|
                    before.contains_key(x) && (!looked_at(keys@, i as int, x) || waited(
                        before[x],
                        now,
                    ) < max_age),
                |x: u64| before[x],
            ));
        }
    }
    let ghost kept = unexpired_pings(before, now, max_age);
    proof {
        assert forall|x: u64| #[trigger] looked_at(keys@, keys@.len() as int, x) <==> before.contains_key(x) by {
            assert(keys@.take(keys@.len() as int) == keys@);
            if before.contains_key(x) {
                assert(keys@.to_set().contains(x));
            }
        }
        assert(outstanding_pings@ =~= kept);
    }
    if outstanding_pings.len() < MAX_OUTSTANDING_PINGS {
        return;
    }
    let rest = map_keys(outstanding_pings);
    proof {
        assert(rest@.len() > 0) by {
            rest@.unique_seq_to_set();
        }
    }
    let mut best = rest[0];
    let mut best_sent: u64 = match outstanding_pings.get(&best) {
        Some(v) => *v,
        None => 0,
    };
    proof {
        assert(rest@.to_set().contains(best));
    }
    let mut j: usize = 1;
    while j < rest.len()
        invariant
            1 <= j <= rest.len(),
            rest@.to_set() == kept.dom(),
            outstanding_pings@ == kept,
            kept.contains_key(best),
            best_sent == kept[best],
            forall|t: int| 0 <= t < j ==> best_sent <= kept[#[trigger] rest@[t]],
        decreases rest.len() - j,
    {
        let k = rest[j];
        proof {
            assert(rest@.to_set().contains(k));
        }
        let sent = match outstanding_pings.get(&k) {
            Some(v) => *v,
            None => best_sent,
        };
        if sent < best_sent {
            best = k;
            best_sent = sent;
        }
        j = j + 1;
    }
    proof {
        assert forall|x: u64| #[trigger] kept.contains_key(x) implies kept[best] <= kept[x] by {
            assert(rest@.to_set().contains(x));
            let t = choose|t: int| 0 <= t < rest@.len() && #[trigger] rest@[t] == x;
        }
        assert(is_oldest_ping(kept, best));
    }
    outstanding_pings.remove(&best);
}

// ---------------------------------------------------------------------------
// Frames and messages
// ---------------------------------------------------------------------------

/// Why a session ended in failure: `Client` for what the agent did wrong (a
/// protocol error, a failed authentication), `Server` for a fault on this
/// side.
#[derive(Debug)]
pub enum ProtocolError {
    Client(String),
    Server(String),
}

/// The kind of a message of the agent protocol, with what the session logic
/// reads of it.
#[derive(Debug)]
pub enum WireKind {
    Hello,
    Metrics,
    Ping,
    Pong(u64),
    ServerNotice,
    RefreshTokenRequest(String),
    RefreshTokenResponse,
}

/// A WebSocket frame as received; a text frame carries the outcome of
/// decoding its JSON (the message, or the decoder's error message).
#[derive(Debug)]
pub enum Frame {
    Text(Result<WireKind, String>),
    Binary,
    Close,
    Ping,
    Pong,
}

/// A frame sorted by what it means to the session.
#[derive(Debug)]
pub enum ParsedFrame {
    /// A protocol message.
    Wire(WireKind),
    /// A WebSocket ping or pong, which the session does not act on.
    Control,
    /// The agent closes the connection.
    Close,
}

/// Sorts a frame: a text frame is a protocol message if its JSON decoded,
/// binary frames are refused, and pings and pongs are control frames.
pub fn parse_wire_message(frame: Frame) -> (r: Result<ParsedFrame, ProtocolError>)
    ensures
        match frame {
            Frame::Text(Ok(k)) => r == Ok::<ParsedFrame, ProtocolError>(ParsedFrame::Wire(k)),
            Frame::Text(Err(e)) => r matches Err(ProtocolError::Client(m)) && m@
                == "invalid websocket json: "@ + e@,
            Frame::Binary => r matches Err(ProtocolError::Client(m)) && m@
                == "binary websocket messages are not supported"@,
            Frame::Close => r matches Ok(ParsedFrame::Close),
            Frame::Ping | Frame::Pong => r matches Ok(ParsedFrame::Control),
        },
{
    match frame {
        Frame::Text(Ok(k)) => Ok(ParsedFrame::Wire(k)),
        Frame::Text(Err(e)) => {
            let mut m = owned("invalid websocket json: ");
            m.append(e.as_str());
            Err(ProtocolError::Client(m))
        },
        Frame::Binary => Err(
            ProtocolError::Client(owned("binary websocket messages are not supported")),
        ),
        Frame::Close => Ok(ParsedFrame::Close),
        Frame::Ping | Frame::Pong => Ok(ParsedFrame::Control),
    }
}

/// What waiting for the agent's first message brought.
#[derive(Debug)]
pub enum HelloEvent {
    /// The connection ended.
    Closed,
    /// Receiving failed, with the error's message.
    ReceiveFailed(String),
    /// A frame arrived.
    Frame(Frame),
}

/// What to do next while waiting for the hello message.
#[derive(Debug)]
pub enum HelloStep {
    /// Keep waiting.
    Continue,
    /// The hello message arrived.
    Hello,
    /// Give up.
    Fail(ProtocolError),
}

/// One step of waiting for the hello message: control frames are skipped,
/// the hello message ends the wait, and anything else fails it.
pub fn recv_hello_step(event: HelloEvent) -> (r: HelloStep)
    ensures
        match event {
            HelloEvent::Closed => r matches HelloStep::Fail(ProtocolError::Client(m)) && m@
                == "connection closed before hello message"@,
            HelloEvent::ReceiveFailed(e) => r matches HelloStep::Fail(ProtocolError::Server(m))
                && m@ == "failed to receive hello: "@ + e@,
            HelloEvent::Frame(Frame::Text(Ok(WireKind::Hello))) => r matches HelloStep::Hello,
            HelloEvent::Frame(Frame::Text(Ok(_))) => r matches HelloStep::Fail(
                ProtocolError::Client(m),
            ) && m@ == "first websocket message must be hello"@,
            HelloEvent::Frame(Frame::Text(Err(e))) => r matches HelloStep::Fail(
                ProtocolError::Client(m),
            ) && m@ == "invalid websocket json: "@ + e@,
            HelloEvent::Frame(Frame::Binary) => r matches HelloStep::Fail(ProtocolError::Client(m))
                && m@ == "binary websocket messages are not supported"@,
            HelloEvent::Frame(Frame::Close) => r matches HelloStep::Fail(ProtocolError::Client(m))
                && m@ == "connection closed before hello message"@,
            HelloEvent::Frame(Frame::Ping) | HelloEvent::Frame(Frame::Pong) => r matches HelloStep::Continue,
        },
{
    match event {
        HelloEvent::Closed => HelloStep::Fail(
            ProtocolError::Client(owned("connection closed before hello message")),
        ),
        HelloEvent::ReceiveFailed(e) => {
            let mut m = owned("failed to receive hello: ");
            m.append(e.as_str());
            HelloStep::Fail(ProtocolError::Server(m))
        },
        HelloEvent::Frame(frame) => match parse_wire_message(frame) {
            Err(e) => HelloStep::Fail(e),
            Ok(ParsedFrame::Control) => HelloStep::Continue,
            Ok(ParsedFrame::Wire(WireKind::Hello)) => HelloStep::Hello,
            Ok(ParsedFrame::Wire(_)) => HelloStep::Fail(
                ProtocolError::Client(owned("first websocket message must be hello")),
            ),
            Ok(ParsedFrame::Close) => HelloStep::Fail(
                ProtocolError::Client(owned("connection closed before hello message")),
            ),
        },
    }
}

/// What the authenticated session received.
#[derive(Debug)]
pub enum SessionEvent {
    /// The connection ended.
    Ended,
    /// Receiving failed, with the error's message.
    ReceiveFailed(String),
    /// A frame arrived.
    Frame(Frame),
}

/// What the session does with what it received.
#[derive(Debug)]
pub enum SessionStep {
    /// End the session normally.
    Close,
    /// End the session with this error.
    Fail(ProtocolError),
    /// Nothing to do.
    Continue,
    /// Store the metrics, once the token is checked to be current.
    Metrics,
    /// Account for the answer to ping `nonce`, once the token is checked to
    /// be current.
    Pong(u64),
    /// Issue a new token for the session's node; `foreign_node_id` tells
    /// that the request named another node, which is ignored.
    RefreshToken { foreign_node_id: bool },
}

/// The session's answer to what it received from the agent of `node_id`.
pub fn session_step(node_id: &str, event: SessionEvent) -> (r: SessionStep)
    ensures
        match event {
            SessionEvent::Ended => r matches SessionStep::Close,
            SessionEvent::ReceiveFailed(e) => r matches SessionStep::Fail(ProtocolError::Server(m))
                && m@ == "websocket receive failed: "@ + e@,
            SessionEvent::Frame(Frame::Text(Ok(k))) => match k {
                WireKind::Metrics => r matches SessionStep::Metrics,
                WireKind::Pong(n) => r matches SessionStep::Pong(m) && m == n,
                WireKind::Hello => r matches SessionStep::Fail(ProtocolError::Client(m)) && m@
                    == "duplicate hello message"@,
                WireKind::Ping => r matches SessionStep::Fail(ProtocolError::Client(m)) && m@
                    == "agent must not send ping messages"@,
                WireKind::ServerNotice => r matches SessionStep::Fail(ProtocolError::Client(m))
                    && m@ == "agent must not send server_notice messages"@,
                WireKind::RefreshTokenRequest(id) => r matches SessionStep::RefreshToken {
                    foreign_node_id,
                } && foreign_node_id == (id@ != node_id@),
                WireKind::RefreshTokenResponse => r matches SessionStep::Fail(
                    ProtocolError::Client(m),
                ) && m@ == "agent must not send refresh_token_response messages"@,
            },
            SessionEvent::Frame(Frame::Text(Err(e))) => r matches SessionStep::Fail(
                ProtocolError::Client(m),
            ) && m@ == "invalid websocket json: "@ + e@,
            SessionEvent::Frame(Frame::Binary) => r matches SessionStep::Fail(
                ProtocolError::Client(m),
            ) && m@ == "binary websocket messages are not supported"@,
            SessionEvent::Frame(Frame::Close) => r matches SessionStep::Close,
            SessionEvent::Frame(Frame::Ping) | SessionEvent::Frame(Frame::Pong) => r matches SessionStep::Continue,
        },
{
    match event {
        SessionEvent::Ended => SessionStep::Close,
        SessionEvent::ReceiveFailed(e) => {
            let mut m = owned("websocket receive failed: ");
            m.append(e.as_str());
            SessionStep::Fail(ProtocolError::Server(m))
        },
        SessionEvent::Frame(frame) => match parse_wire_message(frame) {
            Err(e) => SessionStep::Fail(e),
            Ok(ParsedFrame::Close) => SessionStep::Close,
            Ok(ParsedFrame::Control) => SessionStep::Continue,
            Ok(ParsedFrame::Wire(k)) => match k {
                WireKind::Metrics => SessionStep::Metrics,
                WireKind::Pong(n) => SessionStep::Pong(n),
                WireKind::Hello => SessionStep::Fail(
                    ProtocolError::Client(owned("duplicate hello message")),
                ),
                WireKind::Ping => SessionStep::Fail(
                    ProtocolError::Client(owned("agent must not send ping messages")),
                ),
                WireKind::ServerNotice => SessionStep::Fail(
                    ProtocolError::Client(owned("agent must not send server_notice messages")),
                ),
                WireKind::RefreshTokenRequest(id) => {
                    let a = chars_of(id.as_str());
                    let b = chars_of(node_id);
                    let same = crate::text::chars_eq(&a, &b);
                    SessionStep::RefreshToken { foreign_node_id: !same }
                },
                WireKind::RefreshTokenResponse => SessionStep::Fail(
                    ProtocolError::Client(
                        owned("agent must not send refresh_token_response messages"),
                    ),
                ),
            },
        },
    }
}

/// What the session does once the checks that a step asks for are made.
#[derive(Debug)]
pub enum SessionAction {
    /// End the session normally.
    Close,
    /// End the session with this error.
    Fail(ProtocolError),
    /// Nothing to do.
    Continue,
    /// Store the metrics in the shared state.
    StoreMetrics,
    /// Account for the answer to ping `nonce` (see `WsSession::on_pong`).
    RecordPong(u64),
    /// Issue a new token for the session's node.
    RefreshToken { foreign_node_id: bool },
}

/// Applies the token check to a step: metrics and pongs are taken only
/// while the registry still holds the session's token, and otherwise the
/// session closes. `token_current` is what the registry answered; the other
/// steps do not depend on it.
pub fn gate_session_step(step: SessionStep, token_current: bool) -> (r: SessionAction)
    ensures
        match step {
            SessionStep::Close => r matches SessionAction::Close,
            SessionStep::Fail(e) => r == SessionAction::Fail(e),
            SessionStep::Continue => r matches SessionAction::Continue,
            SessionStep::Metrics => if token_current {
                r matches SessionAction::StoreMetrics
            } else {
                r matches SessionAction::Close
            },
            SessionStep::Pong(n) => if token_current {
                r matches SessionAction::RecordPong(m) && m == n
            } else {
                r matches SessionAction::Close
            },
            SessionStep::RefreshToken { foreign_node_id } => r matches SessionAction::RefreshToken {
                foreign_node_id: f,
            } && f == foreign_node_id,
        },
{
    match step {
        SessionStep::Close => SessionAction::Close,
        SessionStep::Fail(e) => SessionAction::Fail(e),
        SessionStep::Continue => SessionAction::Continue,
        SessionStep::Metrics => if token_current {
            SessionAction::StoreMetrics
        } else {
            SessionAction::Close
        },
        SessionStep::Pong(n) => if token_current {
            SessionAction::RecordPong(n)
        } else {
            SessionAction::Close
        },
        SessionStep::RefreshToken { foreign_node_id } => SessionAction::RefreshToken {
            foreign_node_id,
        },
    }
}

/// After the shared state was asked to take a snapshot or a latency: the
/// session goes on if it took it, and closes if a newer session of the same
/// node superseded this one.
pub fn after_shared_update(accepted: bool) -> (r: SessionAction)
    ensures
        accepted ==> r matches SessionAction::Continue,
        !accepted ==> r matches SessionAction::Close,
{
    if accepted {
        SessionAction::Continue
    } else {
        SessionAction::Close
    }
}

/// What a ping tick leads to.
#[derive(Debug, PartialEq, Eq)]
pub enum TickAction {
    /// End the session normally.
    Close,
    /// Refresh the token if due, prune the pings and send the next one.
    Ping,
}

/// A ping tick closes the session once a newer session of the node
/// superseded it, or once the registry no longer holds its token; otherwise
/// it pings.
pub fn tick_step(session_current: bool, token_current: bool) -> (r: TickAction)
    ensures
        r == (if session_current && token_current {
            TickAction::Ping
        } else {
            TickAction::Close
        }),
{
    if !session_current {
        return TickAction::Close;
    }
    if !token_current {
        return TickAction::Close;
    }
    TickAction::Ping
}

// ---------------------------------------------------------------------------
// Authentication and token refresh
// ---------------------------------------------------------------------------

pub open spec fn expired_token_notice() -> Seq<char> {
    "token expired; run `ximonitor-server install-agent --rotate-token` and reinstall this node"@
}

/// The notice sent to an agent whose authentication failed with
/// `error_message`, and the label of the failure: an expired token is told
/// apart from any other refusal.
pub fn auth_rejection_notice(error_message: &str) -> (r: (String, String))
    ensures
        contains_seq(error_message@, "token expired"@) ==> r.0@ == expired_token_notice() && r.1@
            == "token expired"@,
        !contains_seq(error_message@, "token expired"@) ==> r.0@ == "unauthorized"@ && r.1@
            == "unauthorized"@,
{
    let hay = chars_of(error_message);
    let needle = chars_of("token expired");
    if contains_chars(&hay, &needle) {
        (
            owned(
                "token expired; run `ximonitor-server install-agent --rotate-token` and reinstall this node",
            ),
            owned("token expired"),
        )
    } else {
        (owned("unauthorized"), owned("unauthorized"))
    }
}

/// Where a token refresh started: a ping tick that found the token close to
/// expiry, or a request of the agent.
#[derive(Debug, Clone, Copy)]
pub enum RefreshOrigin {
    Tick,
    Request,
}

/// The start of the message of a failed send of a refreshed token.
pub open spec fn refresh_send_failure_prefix(origin: RefreshOrigin) -> Seq<char> {
    match origin {
        RefreshOrigin::Tick => "failed to send token refresh response: "@,
        RefreshOrigin::Request => "failed to send refresh response: "@,
    }
}

/// How long before a token expires the server issues a new one: seven days,
/// in nanoseconds.
pub const TOKEN_REFRESH_WINDOW_NANOS: i128 = 604_800_000_000_000;

/// Whether the token of a node should be refreshed at `now`: it has no
/// expiry on record, or it expires within seven days. Times are nanoseconds
/// since the Unix epoch.
pub fn should_refresh_token(expires_at: Option<i128>, now: i128) -> (r: bool)
    requires
        now <= i128::MAX - TOKEN_REFRESH_WINDOW_NANOS,
    ensures
        r == match expires_at {
            None => true,
            Some(e) => e <= now + TOKEN_REFRESH_WINDOW_NANOS,
        },
{
    let refresh_after = now + TOKEN_REFRESH_WINDOW_NANOS;
    match expires_at {
        None => true,
        Some(e) => e <= refresh_after,
    }
}

// ---------------------------------------------------------------------------
// Session state
// ---------------------------------------------------------------------------

/// `a.saturating_add(1)`.
pub open spec fn next_nonce(a: u64) -> u64 {
    if a < u64::MAX {
        (a + 1) as u64
    } else {
        a
    }
}

/// The state of an authenticated session: the token it holds, the pings
/// that wait for an answer (nonce to the time they were sent, in
/// nanoseconds), and the nonce of the next ping.
pub struct WsSession {
    session_token: String,
    outstanding_pings: HashMap<u64, u64>,
    next_ping_nonce: u64,
}

impl WsSession {
    /// Every waiting ping has a nonce below the next one, unless nonces ran
    /// out. No more than `MAX_OUTSTANDING_PINGS` pings wait at once.
    #[verifier::type_invariant]
    spec fn well_formed(self) -> bool {
        &&& forall|k: u64| #[trigger]
            self.outstanding_pings@.contains_key(k) ==> k < self.next_ping_nonce
                || self.next_ping_nonce == u64::MAX
        &&& self.outstanding_pings@.dom().len() <= MAX_OUTSTANDING_PINGS
    }

    pub closed spec fn token(self) -> Seq<char> {
        self.session_token@
    }

    pub closed spec fn pings(self) -> Map<u64, u64> {
        self.outstanding_pings@
    }

    pub closed spec fn next_nonce(self) -> u64 {
        self.next_ping_nonce
    }

    /// A session that holds `token`, with no ping sent yet.
    pub fn new(token: String) -> (s: Self)
        ensures
            s.token() == token@,
            s.pings() == Map::<u64, u64>::empty(),
            s.next_nonce() == 1,
    {
        let pings: HashMap<u64, u64> = HashMap::new();
        WsSession { session_token: token, outstanding_pings: pings, next_ping_nonce: 1 }
    }

    /// The token the session holds.
    pub fn session_token(&self) -> (t: &str)
        ensures
            t@ == self.token(),
    {
        self.session_token.as_str()
    }

    /// The number of pings that wait for an answer.
    pub fn outstanding_ping_count(&self) -> (n: usize)
        ensures
            n == self.pings().dom().len(),
            n <= MAX_OUTSTANDING_PINGS,
    {
        proof {
            use_type_invariant(self);
        }
        self.outstanding_pings.len()
    }

    /// Takes `new_token` as the session's token.
    fn adopt_token(&mut self, new_token: String)
        ensures
            final(self).token() == new_token@,
            final(self).pings() == old(self).pings(),
            final(self).next_nonce() == old(self).next_nonce(),
    {
        proof {
            use_type_invariant(&*self);
        }
        self.session_token = new_token;
    }

    /// Ends a token refresh once the frame that carries `new_token` was
    /// sent, with `sent` the outcome of sending it. The session takes the new
    /// token only after a successful send; a failed send keeps the old token
    /// and ends the session with a server error, so that the agent and the
    /// session never hold different tokens unnoticed.
    pub fn finish_token_refresh(
        &mut self,
        origin: RefreshOrigin,
        new_token: String,
        sent: Result<(), String>,
    ) -> (r: Result<(), ProtocolError>)
        ensures
            sent is Ok ==> r is Ok && final(self).token() == new_token@,
            sent matches Err(e) ==> final(self).token() == old(self).token() && (r matches Err(
                ProtocolError::Server(m),
            ) && m@ == refresh_send_failure_prefix(origin) + e@),
            final(self).pings() == old(self).pings(),
            final(self).next_nonce() == old(self).next_nonce(),
    {
        match sent {
            Ok(()) => {
                self.adopt_token(new_token);
                Ok(())
            },
            Err(e) => {
                let mut m = match origin {
                    RefreshOrigin::Tick => owned("failed to send token refresh response: "),
                    RefreshOrigin::Request => owned("failed to send refresh response: "),
                };
                m.append(e.as_str());
                Err(ProtocolError::Server(m))
            },
        }
    }

    /// Accounts for the answer to ping `nonce` at `now`: a waiting ping is
    /// removed and its round-trip time returned in whole milliseconds; an
    /// unknown nonce changes nothing.
    pub fn on_pong(&mut self, nonce: u64, now: u64) -> (latency_ms: Option<u64>)
        ensures
            old(self).pings().contains_key(nonce) ==> latency_ms == Some(
                (waited(old(self).pings()[nonce], now) / 1_000_000) as u64,
            ) && final(self).pings() == old(self).pings().remove(nonce),
            !old(self).pings().contains_key(nonce) ==> latency_ms is None && final(self).pings()
                == old(self).pings(),
            final(self).token() == old(self).token(),
            final(self).next_nonce() == old(self).next_nonce(),
    {
        proof {
            use_type_invariant(&*self);
        }
        let mut pings = HashMap::new();
        std::mem::swap(&mut pings, &mut self.outstanding_pings);
        let removed = pings.remove(&nonce);
        self.outstanding_pings = pings;
        match removed {
            Some(sent_at) => {
                let waited_for = if now >= sent_at {
                    now - sent_at
                } else {
                    0
                };
                Some(waited_for / 1_000_000)
            },
            None => None,
        }
    }

    /// A ping tick at `now`: prunes the waiting pings (see
    /// `prune_outstanding_pings`), records a ping with the next nonce sent
    /// at `now`, and returns that nonce.
    pub fn on_ping_tick(&mut self, now: u64, max_age: u64) -> (nonce: u64)
        ensures
            nonce == old(self).next_nonce(),
            final(self).next_nonce() == next_nonce(old(self).next_nonce()),
            exists|pruned: Map<u64, u64>|
                pruned_pings(old(self).pings(), pruned, now, max_age) && final(self).pings()
                    == pruned.insert(nonce, now),
            final(self).token() == old(self).token(),
            old(self).next_nonce() < u64::MAX ==> !old(self).pings().contains_key(nonce),
            final(self).pings().dom().len() <= MAX_OUTSTANDING_PINGS,
    {
        proof {
            use_type_invariant(&*self);
        }
        let ghost before = self.outstanding_pings@;
        let mut pings = HashMap::new();
        std::mem::swap(&mut pings, &mut self.outstanding_pings);
        prune_outstanding_pings(&mut pings, now, max_age);
        let ghost pruned = pings@;
        let nonce = self.next_ping_nonce;
        let next = if nonce < u64::MAX {
            nonce + 1
        } else {
            nonce
        };
        proof {
            lemma_pruned_size(before, pruned, now, max_age);
        }
        pings.insert(nonce, now);
        proof {
            assert(pings@.dom() == pruned.dom().insert(nonce));
            vstd::set_lib::lemma_len_subset(pruned.dom(), pruned.dom().insert(nonce));
            if !pruned.dom().contains(nonce) {
                assert(pings@.dom().len() == pruned.dom().len() + 1);
            } else {
                assert(pruned.dom().insert(nonce) == pruned.dom());
            }
            assert forall|k: u64| #[trigger] pings@.contains_key(k) implies k < next || next
                == u64::MAX by {
                if k != nonce {
                    assert(pruned.contains_key(k));
                    assert(before.contains_key(k)) by {
                        let kept = unexpired_pings(before, now, max_age);
                        if kept.dom().len() >= MAX_OUTSTANDING_PINGS {
                            let r = choose|r: u64| #[trigger] is_oldest_ping(kept, r) && pruned
                                == kept.remove(r);
                            assert(kept.contains_key(k));
                        } else {
                            assert(kept.contains_key(k));
                        }
                    }
                }
            }
        }
        self.next_ping_nonce = next;
        self.outstanding_pings = pings;
        nonce
    }
}

} // verus!
