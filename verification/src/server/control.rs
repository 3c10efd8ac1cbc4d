//! The control plane: what an agent's frames do, and what it is answered.
//!
//! ```text
//!   Hello ──▶ authenticate ──▶ Welcome
//!                                │
//!            ┌───────────────────┼───────────────────┐
//!            ▼                   ▼                   ▼
//!      read loop            heartbeat            (ingress opens
//!   (agent -> edge)      (Ping + renew TTL)       streams here)
//!            │
//!            ▼
//!     disconnect or lost claim ──▶ release routing-table claims, drop streams
//! ```

use vstd::prelude::*;
use vstd::string::*;

use crate::auth::{AuthProvider, Principal, PrincipalView};
use crate::error::{Error, ErrorView};
use crate::ids;
use crate::payload;
use crate::proto::{
    ClientFrame, ClientPayload, ClientView, HealthResponse, Hello, HttpResponseHead, HttpSpecView,
    HttpTunnelSpec, LimitsNotice, OpenTunnel, OpenTunnelView, Ping, ResetCode, ResponseHeadView,
    ServerFrame, ServerPayload, ServerView, SpecView, StatusView, TcpTunnelSpec, TunnelSpec,
    TunnelStatus, Welcome, WelcomeView, WindowUpdate, PROTOCOL_VERSION,
};
use crate::registry::{
    Claim, ClaimView, MemoryRegistry, Registry, RouteRecord, RouteView, Row,
};
use crate::registry;
use crate::routing::RoutingKey;
use crate::routing;
use crate::server::session::{
    Chunk, ChunkView, Session, SessionManager, SessionView, Tunnel, TunnelView,
};
use crate::server::session;
use crate::server::state::AppState;
use crate::server::state;
use crate::server::tables;
use crate::text;

verus! {

/// How a refused call is classified.
#[derive(Debug, Clone, Copy, PartialEq, Eq, Structural)]
pub enum RefusalCode {
    /// The agent broke the protocol.
    FailedPrecondition,
    /// The agent's token was not accepted.
    Unauthenticated,
    /// The agent is gone.
    Unavailable,
}

/// Why an agent gets no session.
#[derive(Debug)]
pub struct Refusal {
    pub code: RefusalCode,
    pub message: String,
}

/// A refusal by its text.
#[verifier::ext_equal]
pub struct RefusalView {
    pub code: RefusalCode,
    pub message: Seq<char>,
}

impl View for Refusal {
    type V = RefusalView;

    open spec fn view(&self) -> RefusalView {
        RefusalView { code: self.code, message: self.message@ }
    }
}

/// Why a first frame opens no session; `None` where it is a hello of the right
/// version.
pub open spec fn handshake_fault(first: Option<ClientView>) -> Option<RefusalView> {
    match first {
        None => Some(
            RefusalView {
                code: RefusalCode::FailedPrecondition,
                message: "stream closed before Hello"@,
            },
        ),
        Some(ClientView::Hello(hello)) => if hello.protocol_version != PROTOCOL_VERSION {
            Some(
                RefusalView {
                    code: RefusalCode::FailedPrecondition,
                    message: "unsupported protocol version "@ + text::decimal(
                        hello.protocol_version as nat,
                    ) + " (server speaks 1); upgrade the norupo CLI"@,
                },
            )
        } else {
            None
        },
        Some(_) => Some(
            RefusalView {
                code: RefusalCode::FailedPrecondition,
                message: "first frame must be Hello"@,
            },
        ),
    }
}

/// A frame by its view, where there is one.
pub open spec fn frame_view(frame: Option<ClientFrame>) -> Option<ClientView> {
    match frame {
        Some(f) => Some(f@),
        None => None,
    }
}

/// Reads the first frame of an agent, which has to be a hello of the right
/// version.
///
/// Checking it before anything is allocated keeps a peer that has not
/// authenticated from costing more than one read.
pub fn handshake(first: Option<ClientFrame>) -> (r: Result<Hello, Refusal>)
    ensures
        match handshake_fault(frame_view(first)) {
            Some(fault) => r matches Err(refusal) && refusal@ == fault,
            None => r matches Ok(hello) && frame_view(first) == Some(ClientView::Hello(hello@)),
        },
{
    match first {
        None => Err(
            Refusal {
                code: RefusalCode::FailedPrecondition,
                message: "stream closed before Hello".to_owned(),
            },
        ),
        Some(frame) => match frame.payload {
            Some(ClientPayload::Hello(hello)) => {
                if hello.protocol_version != PROTOCOL_VERSION {
                    return Err(
                        Refusal {
                            code: RefusalCode::FailedPrecondition,
                            message: text::join3(
                                "unsupported protocol version ",
                                text::to_decimal(hello.protocol_version as u64).as_str(),
                                " (server speaks 1); upgrade the norupo CLI",
                            ),
                        },
                    );
                }
                Ok(hello)
            },
            _ => Err(
                Refusal {
                    code: RefusalCode::FailedPrecondition,
                    message: "first frame must be Hello".to_owned(),
                },
            ),
        },
    }
}

/// A heartbeat interval as it is told to agents: in 32 bits, the longest where
/// it does not fit.
pub open spec fn told_interval(heartbeat_ms: u64) -> u32 {
    if heartbeat_ms <= u32::MAX {
        heartbeat_ms as u32
    } else {
        u32::MAX
    }
}

/// The welcome of a session.
pub open spec fn welcome_of(
    node: AppState,
    session_id: Seq<char>,
    principal: PrincipalView,
) -> ServerView {
    ServerView::Welcome(
        WelcomeView {
            session_id,
            server_version: state::VERSION@,
            node_id: node.node_id@,
            heartbeat_interval_ms: told_interval(node.config.heartbeat_ms),
            initial_window: node.config.window_bytes,
            limits: Some(
                LimitsNotice {
                    max_tunnels: principal.limits.max_tunnels,
                    max_concurrent_streams: principal.limits.max_concurrent_streams,
                    max_bytes_per_second: principal.limits.max_bytes_per_second,
                },
            ),
        },
    )
}

/// A session as it begins.
pub open spec fn fresh_session(
    node: AppState,
    session_id: Seq<char>,
    principal: PrincipalView,
) -> SessionView {
    SessionView {
        id: session_id,
        node_id: node.node_id@,
        principal,
        streams: Map::empty(),
        tunnels: Map::empty(),
        next_stream_id: 1,
        initial_window: node.config.window_bytes,
    }
}

/// Whether an admission came out as the answer of the authentication demands.
pub open spec fn welcomed(
    r: Result<(Session, ServerFrame), Refusal>,
    node: AppState,
    session_id: Seq<char>,
    answer: Result<Principal, Error>,
) -> bool {
    match answer {
        Ok(principal) => r matches Ok((s, welcome)) && s.wf() && s@ == fresh_session(
            node,
            session_id,
            principal@,
        ) && welcome@ == welcome_of(node, session_id, principal@),
        Err(e) => r matches Err(refusal) && refusal@ == (RefusalView {
            code: RefusalCode::Unauthenticated,
            message: e@.sentence(),
        }),
    }
}

/// Opens a session for an agent that was let in, or tells it why it was not.
pub fn welcome_agent(node: &AppState, session_id: String, answer: Result<Principal, Error>) -> (r: Result<
    (Session, ServerFrame),
    Refusal,
>)
    ensures
        welcomed(r, *node, session_id@, answer),
{
    let principal = match answer {
        Ok(principal) => principal,
        Err(e) => {
            return Err(
                Refusal { code: RefusalCode::Unauthenticated, message: e.to_string() },
            );
        },
    };
    let limits = principal.limits;
    let heartbeat_ms: u64 = node.config.heartbeat_ms;
    let welcome = Welcome {
        session_id: session_id.clone(),
        server_version: node.version().to_owned(),
        node_id: node.node_id.clone(),
        heartbeat_interval_ms: if heartbeat_ms <= u32::MAX as u64 {
            heartbeat_ms as u32
        } else {
            u32::MAX
        },
        initial_window: node.config.window_bytes,
        limits: Some(
            LimitsNotice {
                max_tunnels: limits.max_tunnels,
                max_concurrent_streams: limits.max_concurrent_streams,
                max_bytes_per_second: limits.max_bytes_per_second,
            },
        ),
    };
    let session = Session::new(
        session_id,
        node.node_id.clone(),
        principal,
        node.config.window_bytes,
    );
    Ok((session, ServerFrame { payload: Some(ServerPayload::Welcome(welcome)) }))
}

/// Opens a session on the first frame of an agent: hello, version,
/// authentication, welcome.
///
/// The welcome has to reach the agent before the session is put among the
/// others; where it does not, [`hung_up`] is the answer.
pub fn session<A: AuthProvider>(node: &AppState, auth: &A, first: Option<ClientFrame>) -> (r:
    Result<(Session, ServerFrame), Refusal>)
    ensures
        match handshake_fault(frame_view(first)) {
            Some(fault) => r matches Err(refusal) && refusal@ == fault,
            None => exists|token: &str, answer: Result<Principal, Error>, id: Seq<char>|
                #![trigger call_ensures(A::authenticate, (auth, token), answer), welcomed(r, *node, id, answer)]
                frame_view(first)->Some_0->Hello_0.token == token@ && call_ensures(
                    A::authenticate,
                    (auth, token),
                    answer,
                ) && ids::is_id("sess_"@, id) && welcomed(r, *node, id, answer),
        },
{
    let hello = match handshake(first) {
        Ok(hello) => hello,
        Err(refusal) => return Err(refusal),
    };
    let token = hello.token.as_str();
    let answer = auth.authenticate(token);
    let ghost given = answer;
    let id = ids::session_id();
    let ghost name = id@;
    let r = welcome_agent(node, id, answer);
    assert(call_ensures(A::authenticate, (auth, token), given));
    assert(welcomed(r, *node, name, given));
    r
}

/// The refusal of an agent that went away before it was welcomed.
pub fn hung_up() -> (r: Refusal)
    ensures
        r@ == (RefusalView {
            code: RefusalCode::Unavailable,
            message: "agent hung up during handshake"@,
        }),
{
    Refusal {
        code: RefusalCode::Unavailable,
        message: "agent hung up during handshake".to_owned(),
    }
}

/// The health of a node.
pub fn health(node: &AppState, sessions: &SessionManager) -> (r: HealthResponse)
    requires
        sessions.wf(),
    ensures
        r.ok,
        r.node_id@ == node.node_id@,
        r.server_version@ == state::VERSION@,
        r.active_sessions == sessions@.dom().len(),
        session::tunnels_in(sessions@) <= usize::MAX ==> r.active_tunnels == session::tunnels_in(
            sessions@,
        ),
        session::tunnels_in(sessions@) > usize::MAX ==> r.active_tunnels == usize::MAX,
{
    HealthResponse {
        ok: true,
        node_id: node.node_id.clone(),
        server_version: node.version().to_owned(),
        active_sessions: sessions.len() as u64,
        active_tunnels: sessions.tunnel_count() as u64,
    }
}

/// The frame that probes an agent.
pub fn ping(nonce: u64, server_time_ms: i64) -> (r: ServerFrame)
    ensures
        r@ == ServerView::Ping(Ping { nonce, server_time_ms }),
{
    ServerFrame { payload: Some(ServerPayload::Ping(Ping { nonce, server_time_ms })) }
}

/// A reading of the wall clock, in milliseconds since the epoch: zero before it,
/// and the last representable moment after that.
pub open spec fn epoch_millis(since_epoch: Option<u128>) -> i64 {
    match since_epoch {
        None => 0,
        Some(ms) => if ms <= i64::MAX {
            ms as i64
        } else {
            i64::MAX
        },
    }
}

/// Turns a reading of the wall clock, `None` before the epoch, into the number
/// that frames carry.
#[must_use]
pub fn now_ms(since_epoch: Option<u128>) -> (r: i64)
    ensures
        r == epoch_millis(since_epoch),
{
    match since_epoch {
        None => 0,
        Some(ms) => {
            if ms <= i64::MAX as u128 {
                ms as i64
            } else {
                i64::MAX
            }
        },
    }
}

/// What an agent is told about a tunnel whose claim was lost.
pub open spec fn lost_notice(tunnel: TunnelView) -> StatusView {
    StatusView {
        request_id: Seq::empty(),
        tunnel_id: tunnel.tunnel_id,
        accepted: false,
        error: "routing claim lost; reconnect to re-register"@,
        public_url: tunnel.public_url,
        routing_key: tunnel.routing_key,
    }
}

/// The frame that tells an agent that a tunnel's claim was lost.
pub fn notify_tunnel_lost(tunnel: &Tunnel) -> (r: ServerFrame)
    ensures
        r@ == ServerView::TunnelStatus(lost_notice(tunnel@)),
{
    let status = TunnelStatus {
        request_id: String::new(),
        tunnel_id: tunnel.tunnel_id.clone(),
        accepted: false,
        error: "routing claim lost; reconnect to re-register".to_owned(),
        public_url: tunnel.public_url.clone(),
        routing_key: tunnel.routing_key.clone(),
    };
    assert(status@ =~= lost_notice(tunnel@));
    ServerFrame { payload: Some(ServerPayload::TunnelStatus(status)) }
}

/// What the answer to the renewal of a claim means for its session.
#[derive(Debug)]
pub enum Renewal {
    /// The session goes on.
    Kept,
    /// The claim was lost. The agent gets this frame, and the session is torn down:
    /// see [`wind_up`].
    Lost(ServerFrame),
}

/// A session without one of its tunnels.
pub open spec fn without_tunnel(s: SessionView, tunnel: TunnelView) -> SessionView {
    SessionView { tunnels: s.tunnels.remove(tunnel.tunnel_id), ..s }
}

/// Takes the answer of the routing table to the renewal of a tunnel's claim.
///
/// A claim that the session does not own any more ends it, and the tunnel leaves it
/// at once: going on would mean silently serving nothing. A table that did not answer
/// ends nothing: the time to live gives slack.
pub fn on_renewal(session: &mut Session, tunnel: &Tunnel, answer: Result<bool, Error>) -> (r: Renewal)
    requires
        old(session).wf(),
    ensures
        final(session).wf(),
        if answer matches Ok(false) {
            &&& r matches Renewal::Lost(frame)
            &&& frame@ == ServerView::TunnelStatus(lost_notice(tunnel@))
            &&& final(session)@ == without_tunnel(old(session)@, tunnel@)
        } else {
            &&& r is Kept
            &&& final(session)@ == old(session)@
        },
{
    match answer {
        Ok(false) => {
            let _ = session.remove_tunnel(tunnel.tunnel_id.as_str());
            Renewal::Lost(notify_tunnel_lost(tunnel))
        },
        _ => Renewal::Kept,
    }
}

/// What is left to do when a session has ended: claims to release, for which the
/// table checks the owner, and streams to let go of.
#[derive(Debug)]
pub struct Leftovers {
    pub releases: Vec<Tunnel>,
    pub streams: Vec<u64>,
}

/// Drops the streams of a session that has ended and lists its claims.
pub fn wind_up(session: &mut Session) -> (r: Leftovers)
    requires
        old(session).wf(),
    ensures
        final(session).wf(),
        final(session)@ == (SessionView { streams: Map::empty(), ..old(session)@ }),
        session::lists_tunnels(session::tunnel_views(r.releases@), old(session)@.tunnels),
        tables::enumerates(r.streams@, old(session)@.streams.dom()),
{
    let releases = session.tunnels();
    let streams = session.close_all_streams();
    Leftovers { releases, streams }
}

/// Whether a routing table went through these states when it was asked to release
/// the claim of each tunnel of a list, in order.
pub open spec fn asked_to_release<R: Registry>(
    tables: Seq<R>,
    list: Seq<TunnelView>,
    session_id: Seq<char>,
    answers: Seq<Result<(), ErrorView>>,
) -> bool {
    &&& tables.len() == answers.len() + 1
    &&& answers.len() <= list.len()
    &&& forall|i: int|
        0 <= i < answers.len() ==> R::frees(
            tables[i],
            list[i].routing_key,
            session_id,
            tables[i + 1],
            #[trigger] answers[i],
        )
}

/// Whether every claim of a session was released, from one state of a routing
/// table to another.
pub open spec fn released<R: Registry>(
    table: R,
    table_after: R,
    session: SessionView,
    tables: Seq<R>,
    list: Seq<TunnelView>,
    answers: Seq<Result<(), ErrorView>>,
) -> bool {
    &&& session::lists_tunnels(list, session.tunnels)
    &&& answers.len() == list.len()
    &&& asked_to_release(tables, list, session.id, answers)
    &&& tables[0] == table
    &&& tables.last() == table_after
}

/// Whether a session was torn down, from one state of a routing table to another:
/// its claims were released and its streams dropped.
pub open spec fn torn_down<R: Registry>(
    table: R,
    table_after: R,
    before: SessionView,
    after: SessionView,
) -> bool {
    &&& after == (SessionView { streams: Map::empty(), ..before })
    &&& exists|tables: Seq<R>, list: Seq<TunnelView>, answers: Seq<Result<(), ErrorView>>| #[trigger]
        released(table, table_after, before, tables, list, answers)
}

/// Releases the claims of a session that has ended and drops its streams. Returns
/// the ids of the streams that were open.
///
/// The table checks the owner: where a newer session has taken a key over, the
/// release does nothing. A table that cannot be reached stops nothing: the time
/// to live reaps what is left.
pub fn teardown<R: Registry>(table: &mut R, session: &mut Session) -> (r: Vec<u64>)
    requires
        old(session).wf(),
    ensures
        final(session).wf(),
        torn_down(*old(table), *final(table), old(session)@, final(session)@),
        tables::enumerates(r@, old(session)@.streams.dom()),
{
    let ghost before = session@;
    let owner = session.id().to_owned();
    let left = wind_up(session);
    let tunnels = left.releases;
    let ghost list = session::tunnel_views(tunnels@);
    let ghost mut answers: Seq<Result<(), ErrorView>> = Seq::empty();
    let ghost mut tables: Seq<R> = seq![*table];
    let mut i: usize = 0;
    while i < tunnels.len()
        invariant
            i <= tunnels@.len(),
            owner@ == before.id,
            list == session::tunnel_views(tunnels@),
            answers.len() == i,
            asked_to_release(tables, list, before.id, answers),
            tables[0] == *old(table),
            tables.last() == *table,
        decreases tunnels@.len() - i,
    {
        let answer = table.release(tunnels[i].routing_key.as_str(), owner.as_str());
        proof {
            let earlier = tables;
            let known = answers;
            answers = answers.push(registry::release_view(answer));
            tables = tables.push(*table);
            assert forall|k: int| 0 <= k < answers.len() implies R::frees(
                tables[k],
                list[k].routing_key,
                before.id,
                tables[k + 1],
                #[trigger] answers[k],
            ) by {
                if k < known.len() {
                    assert(answers[k] == known[k]);
                    assert(tables[k] == earlier[k] && tables[k + 1] == earlier[k + 1]);
                }
            }
        }
        i = i + 1;
    }
    assert(released(*old(table), *table, before, tables, list, answers));
    left.streams
}

/// A session that was torn down holds none of its keys in the table any more, and
/// no row of another session was touched.
pub proof fn a_torn_down_session_holds_nothing(
    tables: Seq<MemoryRegistry>,
    list: Seq<TunnelView>,
    session_id: Seq<char>,
    answers: Seq<Result<(), ErrorView>>,
    i: int,
    key: Seq<char>,
)
    requires
        asked_to_release(tables, list, session_id, answers),
        0 <= i < answers.len(),
    ensures
        !registry::held_by(tables.last()@, list[i].routing_key, session_id),
        registry::held_by_another(tables[0]@, key, session_id) ==> registry::held_by_another(
            tables.last()@,
            key,
            session_id,
        ) && tables.last()@[key] == tables[0]@[key],
    decreases answers.len(),
{
    let last = answers.len() - 1;
    assert(MemoryRegistry::frees(
        tables[last],
        list[last].routing_key,
        session_id,
        tables[last + 1],
        answers[last],
    ));
    if last > 0 {
        let fewer = answers.drop_last();
        let shorter = tables.drop_last();
        assert forall|k: int| 0 <= k < fewer.len() implies MemoryRegistry::frees(
            shorter[k],
            list[k].routing_key,
            session_id,
            shorter[k + 1],
            #[trigger] fewer[k],
        ) by {
            assert(answers[k] == fewer[k]);
        }
        let at = if i < last {
            i
        } else {
            0
        };
        a_torn_down_session_holds_nothing(shorter, list, session_id, fewer, at, key);
        assert(shorter.last() == tables[last]);
        assert(shorter[0] == tables[0]);
    }
}

/// Whether the answer to a renewal says that the claim was lost.
pub open spec fn is_lost(answer: Result<bool, ErrorView>) -> bool {
    answer == Ok::<bool, ErrorView>(false)
}

/// Whether a routing table went through these states and gave these answers when
/// it was asked to renew the claims of the first tunnels of a list, in order.
pub open spec fn asked_to_renew<R: Registry>(
    tables: Seq<R>,
    list: Seq<TunnelView>,
    session_id: Seq<char>,
    ttl_ms: u128,
    answers: Seq<Result<bool, ErrorView>>,
) -> bool {
    &&& tables.len() == answers.len() + 1
    &&& answers.len() <= list.len()
    &&& forall|i: int|
        0 <= i < answers.len() ==> R::renews(
            tables[i],
            list[i].routing_key,
            session_id,
            ttl_ms,
            tables[i + 1],
            #[trigger] answers[i],
        )
}

/// Whether a round of renewals, from one state of a routing table to another, came
/// out as that table's answers demand. Where no claim was lost, all were renewed
/// and the session goes on unchanged. The first lost claim ends the round: it is
/// announced, and the session is torn down without the tunnel.
pub open spec fn renewal_round<R: Registry>(
    table: R,
    table_after: R,
    notice: Option<ServerView>,
    before: SessionView,
    after: SessionView,
    ttl_ms: u128,
    tables: Seq<R>,
    list: Seq<TunnelView>,
    answers: Seq<Result<bool, ErrorView>>,
) -> bool {
    let last = answers.len() - 1;
    &&& session::lists_tunnels(list, before.tunnels)
    &&& asked_to_renew(tables, list, before.id, ttl_ms, answers)
    &&& tables[0] == table
    &&& forall|i: int| 0 <= i < last ==> !is_lost(#[trigger] answers[i])
    &&& if last >= 0 && is_lost(answers[last]) {
        &&& notice == Some(ServerView::TunnelStatus(lost_notice(list[last])))
        &&& torn_down(tables.last(), table_after, without_tunnel(before, list[last]), after)
    } else {
        &&& answers.len() == list.len()
        &&& notice is None
        &&& after == before
        &&& table_after == tables.last()
    }
}

/// Whether some round of renewals leads from one state of a routing table and of a
/// session to another.
pub open spec fn renewed<R: Registry>(
    table: R,
    table_after: R,
    notice: Option<ServerView>,
    before: SessionView,
    after: SessionView,
    ttl_ms: u128,
) -> bool {
    exists|tables: Seq<R>, list: Seq<TunnelView>, answers: Seq<Result<bool, ErrorView>>| #[trigger]
        renewal_round(table, table_after, notice, before, after, ttl_ms, tables, list, answers)
}

/// Whether a round of renewals ends a session with this notice.
pub open spec fn ends<R: Registry>(
    table: R,
    table_after: R,
    notice: ServerView,
    before: SessionView,
    ttl_ms: u128,
) -> bool {
    exists|after: SessionView| #[trigger]
        renewed(table, table_after, Some(notice), before, after, ttl_ms)
}

/// What is left of a session that a lost claim has ended: the frame that tells the
/// agent, and the streams that were open.
#[derive(Debug)]
pub struct Ending {
    pub notice: ServerFrame,
    pub streams: Vec<u64>,
}

/// The frame that tells the agent that its session has ended, where it has.
pub open spec fn ending_notice(r: Option<Ending>) -> Option<ServerView> {
    match r {
        Some(ending) => Some(ending.notice@),
        None => None,
    }
}

/// Renews every claim of a session. The first one that was lost ends the session:
/// the rest of its claims are released and its streams dropped.
///
/// Renewal makes the routing table heal itself: if this node dies, nobody renews,
/// and the time to live reaps its routes.
pub fn renew_claims<R: Registry>(node: &AppState, table: &mut R, session: &mut Session) -> (r: Option<
    Ending,
>)
    requires
        old(session).wf(),
    ensures
        final(session).wf(),
        renewed(
            *old(table),
            *final(table),
            ending_notice(r),
            old(session)@,
            final(session)@,
            (3 * node.config.heartbeat_ms) as u128,
        ),
        r matches Some(ending) ==> tables::enumerates(
            ending.streams@,
            old(session)@.streams.dom(),
        ),
{
    let tunnels = session.tunnels();
    let ttl: u128 = node.config.route_ttl();
    let owner = session.id().to_owned();
    let ghost before = session@;
    let ghost list = session::tunnel_views(tunnels@);
    let ghost mut answers: Seq<Result<bool, ErrorView>> = Seq::empty();
    let ghost mut tables: Seq<R> = seq![*table];
    let mut i: usize = 0;
    while i < tunnels.len()
        invariant
            i <= tunnels@.len(),
            ttl == 3 * node.config.heartbeat_ms,
            session.wf(),
            session@ == before,
            before == old(session)@,
            owner@ == before.id,
            list == session::tunnel_views(tunnels@),
            session::lists_tunnels(list, before.tunnels),
            answers.len() == i,
            asked_to_renew(tables, list, before.id, ttl, answers),
            tables[0] == *old(table),
            tables.last() == *table,
            forall|k: int| 0 <= k < i ==> !is_lost(#[trigger] answers[k]),
        decreases tunnels@.len() - i,
    {
        let answer = table.renew(tunnels[i].routing_key.as_str(), owner.as_str(), ttl);
        proof {
            let earlier = tables;
            let known = answers;
            answers = answers.push(registry::renew_view(answer));
            tables = tables.push(*table);
            assert forall|k: int| 0 <= k < answers.len() implies R::renews(
                tables[k],
                list[k].routing_key,
                before.id,
                ttl,
                tables[k + 1],
                #[trigger] answers[k],
            ) by {
                if k < known.len() {
                    assert(answers[k] == known[k]);
                    assert(tables[k] == earlier[k] && tables[k + 1] == earlier[k + 1]);
                }
            }
            assert forall|k: int| 0 <= k < i implies !is_lost(#[trigger] answers[k]) by {
                assert(answers[k] == known[k]);
            }
        }
        match on_renewal(session, &tunnels[i], answer) {
            Renewal::Kept => {},
            Renewal::Lost(notice) => {
                let streams = teardown(table, session);
                let ending = Ending { notice, streams };
                assert(renewal_round(
                    *old(table),
                    *table,
                    ending_notice(Some(ending)),
                    before,
                    session@,
                    ttl,
                    tables,
                    list,
                    answers,
                ));
                return Some(ending);
            },
        }
        i = i + 1;
    }
    assert(renewal_round(*old(table), *table, None, before, session@, ttl, tables, list, answers));
    None
}

/// A session ends only where one of its claims was lost: a table that could not be
/// reached ends nothing and drops no tunnel.
pub proof fn only_a_lost_claim_ends_a_session<R: Registry>(
    table: R,
    table_after: R,
    notice: Option<ServerView>,
    before: SessionView,
    after: SessionView,
    ttl_ms: u128,
    tables: Seq<R>,
    list: Seq<TunnelView>,
    answers: Seq<Result<bool, ErrorView>>,
)
    requires
        renewal_round(table, table_after, notice, before, after, ttl_ms, tables, list, answers),
        forall|i: int| 0 <= i < answers.len() ==> !is_lost(#[trigger] answers[i]),
    ensures
        notice is None,
        after == before,
        answers.len() == list.len(),
{
}

/// A lost claim ends its session: it is announced, it is not renewed again nor is
/// any other, and the session keeps neither the tunnel nor a stream.
pub proof fn a_lost_claim_ends_its_session<R: Registry>(
    table: R,
    table_after: R,
    notice: Option<ServerView>,
    before: SessionView,
    after: SessionView,
    ttl_ms: u128,
    tables: Seq<R>,
    list: Seq<TunnelView>,
    answers: Seq<Result<bool, ErrorView>>,
    i: int,
)
    requires
        renewal_round(table, table_after, notice, before, after, ttl_ms, tables, list, answers),
        0 <= i < answers.len(),
        is_lost(answers[i]),
    ensures
        notice == Some(ServerView::TunnelStatus(lost_notice(list[i]))),
        i == answers.len() - 1,
        torn_down(tables.last(), table_after, without_tunnel(before, list[i]), after),
        !after.tunnels.dom().contains(list[i].tunnel_id),
        after.streams.dom().is_empty(),
{
    if i < answers.len() - 1 {
        assert(!is_lost(answers[i]));
    }
}

/// A key that a session does not hold, it does not hold after releases either.
proof fn lemma_releases_claim_nothing(
    tables: Seq<MemoryRegistry>,
    list: Seq<TunnelView>,
    session_id: Seq<char>,
    answers: Seq<Result<(), ErrorView>>,
    key: Seq<char>,
)
    requires
        asked_to_release(tables, list, session_id, answers),
        !registry::held_by(tables[0]@, key, session_id),
    ensures
        !registry::held_by(tables.last()@, key, session_id),
    decreases answers.len(),
{
    if answers.len() > 0 {
        let last = answers.len() - 1;
        assert(MemoryRegistry::frees(
            tables[last],
            list[last].routing_key,
            session_id,
            tables[last + 1],
            answers[last],
        ));
        let fewer = answers.drop_last();
        let shorter = tables.drop_last();
        assert forall|k: int| 0 <= k < fewer.len() implies MemoryRegistry::frees(
            shorter[k],
            list[k].routing_key,
            session_id,
            shorter[k + 1],
            #[trigger] fewer[k],
        ) by {
            assert(answers[k] == fewer[k]);
        }
        lemma_releases_claim_nothing(shorter, list, session_id, fewer, key);
    }
}

/// A session that a lost claim has ended holds none of its tunnels' keys in the
/// table any more.
pub proof fn an_ended_session_holds_nothing(
    table: MemoryRegistry,
    table_after: MemoryRegistry,
    notice: ServerView,
    before: SessionView,
    after: SessionView,
    ttl_ms: u128,
    id: Seq<char>,
)
    requires
        renewed(table, table_after, Some(notice), before, after, ttl_ms),
        forall|k: Seq<char>| #[trigger]
            before.tunnels.dom().contains(k) ==> before.tunnels[k].tunnel_id == k,
        before.tunnels.dom().contains(id),
    ensures
        !registry::held_by(table_after@, before.tunnels[id].routing_key, before.id),
{
    let (tables, list, answers) = choose|
        tables: Seq<MemoryRegistry>,
        list: Seq<TunnelView>,
        answers: Seq<Result<bool, ErrorView>>,
    | #[trigger]
        renewal_round(
            table,
            table_after,
            Some(notice),
            before,
            after,
            ttl_ms,
            tables,
            list,
            answers,
        );
    let last = answers.len() - 1;
    let lost = list[last];
    let names = choose|names: Seq<Seq<char>>| #[trigger]
        tables::enumerates_names(names, before.tunnels.dom()) && names.len() == list.len()
            && forall|i: int| 0 <= i < list.len() ==> #[trigger] list[i] == before.tunnels[names[i]];
    assert(names.contains(names[last]));
    assert(lost == before.tunnels[lost.tunnel_id]);
    let rest = without_tunnel(before, lost);
    let (states, left, replies) = choose|
        states: Seq<MemoryRegistry>,
        left: Seq<TunnelView>,
        replies: Seq<Result<(), ErrorView>>,
    | #[trigger]
        released(tables.last(), table_after, rest, states, left, replies);
    if id == lost.tunnel_id {
        assert(MemoryRegistry::renews(
            tables[last],
            lost.routing_key,
            before.id,
            ttl_ms,
            tables[last + 1],
            answers[last],
        ));
        lemma_releases_claim_nothing(states, left, before.id, replies, lost.routing_key);
    } else {
        let others = choose|others: Seq<Seq<char>>| #[trigger]
            tables::enumerates_names(others, rest.tunnels.dom()) && others.len() == left.len()
                && forall|i: int|
                0 <= i < left.len() ==> #[trigger] left[i] == rest.tunnels[others[i]];
        assert(others.contains(id));
        let at = choose|at: int| 0 <= at < others.len() && others[at] == id;
        assert(left[at] == rest.tunnels[others[at]]);
        a_torn_down_session_holds_nothing(states, left, before.id, replies, at, id);
    }
}

/// What a heartbeat did to a session.
#[derive(Debug)]
pub enum Beat {
    /// This node has no such session.
    Gone,
    /// Its claims were renewed.
    Kept,
    /// A lost claim ended it.
    Ended(Ending),
}

/// Renews the claims of a session that this node terminates. Where one of them was
/// lost, the session leaves the node.
pub fn heartbeat<R: Registry>(
    node: &AppState,
    table: &mut R,
    sessions: &mut SessionManager,
    session_id: &str,
) -> (r: Beat)
    requires
        old(sessions).wf(),
    ensures
        final(sessions).wf(),
        r is Gone <==> !old(sessions)@.dom().contains(session_id@),
        match r {
            Beat::Gone => final(sessions)@ == old(sessions)@ && *final(table) == *old(table),
            Beat::Kept => {
                let after = final(sessions)@[session_id@];
                &&& final(sessions)@ == old(sessions)@.insert(session_id@, after)
                &&& after@ == old(sessions)@[session_id@]@
                &&& renewed(
                    *old(table),
                    *final(table),
                    None,
                    after@,
                    after@,
                    (3 * node.config.heartbeat_ms) as u128,
                )
            },
            Beat::Ended(ending) => {
                let before = old(sessions)@[session_id@]@;
                &&& final(sessions)@ == old(sessions)@.remove(session_id@)
                &&& tables::enumerates(ending.streams@, before.streams.dom())
                &&& ends(
                    *old(table),
                    *final(table),
                    ending.notice@,
                    before,
                    (3 * node.config.heartbeat_ms) as u128,
                )
            },
        },
{
    match sessions.remove(session_id) {
        None => {
            assert(old(sessions)@.remove(session_id@) =~= old(sessions)@);
            Beat::Gone
        },
        Some(session) => {
            let mut session = session;
            let ghost before = session@;
            match renew_claims(node, table, &mut session) {
                None => {
                    let ghost after = session;
                    sessions.insert(session);
                    assert(sessions@ =~= old(sessions)@.insert(session_id@, after));
                    Beat::Kept
                },
                Some(ending) => {
                    assert(ends(
                        *old(table),
                        *table,
                        ending.notice@,
                        before,
                        (3 * node.config.heartbeat_ms) as u128,
                    )) by {
                        assert(renewed(
                            *old(table),
                            *table,
                            Some(ending.notice@),
                            before,
                            session@,
                            (3 * node.config.heartbeat_ms) as u128,
                        ));
                    }
                    Beat::Ended(ending)
                },
            }
        },
    }
}

/// What the edge is to do about a frame of an agent.
#[derive(Debug)]
pub enum Action {
    /// Nothing.
    Nothing,
    /// Register a tunnel and answer with its status.
    Register(OpenTunnel),
    /// Release the claim of a tunnel that was closed.
    Release(Tunnel),
    /// Hand a response head to the request that waits for it.
    Head(HttpResponseHead),
    /// Hand body bytes to the public client, then call [`after_delivery`].
    Body { stream_id: u64, len: usize, chunk: Chunk },
    /// Hand the last chunk to the public client and let go of the stream.
    Last { stream_id: u64, chunk: Chunk },
    /// Wake a writer that waits for credit.
    Wake { stream_id: u64 },
}

/// An action by its text and bytes.
#[verifier::ext_equal]
pub enum ActionView {
    Nothing,
    Register(OpenTunnelView),
    Release(TunnelView),
    Head(ResponseHeadView),
    Body { stream_id: u64, len: nat, chunk: ChunkView },
    Last { stream_id: u64, chunk: ChunkView },
    Wake { stream_id: u64 },
}

impl View for Action {
    type V = ActionView;

    open spec fn view(&self) -> ActionView {
        match self {
            Action::Nothing => ActionView::Nothing,
            Action::Register(open) => ActionView::Register(open@),
            Action::Release(tunnel) => ActionView::Release(tunnel@),
            Action::Head(head) => ActionView::Head(head@),
            Action::Body { stream_id, len, chunk } => ActionView::Body {
                stream_id: *stream_id,
                len: *len as nat,
                chunk: chunk@,
            },
            Action::Last { stream_id, chunk } => ActionView::Last {
                stream_id: *stream_id,
                chunk: chunk@,
            },
            Action::Wake { stream_id } => ActionView::Wake { stream_id: *stream_id },
        }
    }
}

/// The code that a reset carries; an unknown one counts as unspecified.
pub open spec fn known_code(code: Option<ResetCode>) -> ResetCode {
    match code {
        Some(code) => code,
        None => ResetCode::Unspecified,
    }
}

/// What the edge is to do about a frame of an agent.
pub open spec fn frame_action(s: SessionView, frame: ClientView) -> ActionView {
    match frame {
        ClientView::OpenTunnel(open) => ActionView::Register(open),
        ClientView::CloseTunnel { tunnel_id } => if s.tunnels.dom().contains(tunnel_id) {
            ActionView::Release(s.tunnels[tunnel_id])
        } else {
            ActionView::Nothing
        },
        ClientView::ResponseHead(head) => if s.has_stream(head.stream_id)
            && s.streams[head.stream_id].head_waiting {
            ActionView::Head(head)
        } else {
            ActionView::Nothing
        },
        ClientView::Data { stream_id, payload } => if s.has_stream(stream_id) {
            ActionView::Body {
                stream_id,
                len: payload.len(),
                chunk: ChunkView::Data(payload),
            }
        } else {
            ActionView::Nothing
        },
        ClientView::End { stream_id, trailers } => if s.has_stream(stream_id) {
            ActionView::Last { stream_id, chunk: ChunkView::End(trailers) }
        } else {
            ActionView::Nothing
        },
        ClientView::Reset { stream_id, code, message } => if s.has_stream(stream_id) {
            ActionView::Last { stream_id, chunk: ChunkView::Reset(known_code(code), message) }
        } else {
            ActionView::Nothing
        },
        ClientView::WindowUpdate(update) => ActionView::Wake { stream_id: update.stream_id },
        // A second hello breaks the protocol, but is not worth a live session.
        ClientView::Hello(_) => ActionView::Nothing,
        ClientView::Pong(_) => ActionView::Nothing,
        ClientView::Empty => ActionView::Nothing,
    }
}

/// The session after a frame of an agent.
pub open spec fn after_frame(s: SessionView, frame: ClientView) -> SessionView {
    match frame {
        ClientView::CloseTunnel { tunnel_id } => SessionView {
            tunnels: s.tunnels.remove(tunnel_id),
            ..s
        },
        ClientView::ResponseHead(head) => if s.has_stream(head.stream_id)
            && s.streams[head.stream_id].head_waiting {
            s.with_stream(
                head.stream_id,
                session::Stream { head_waiting: false, ..s.streams[head.stream_id] },
            )
        } else {
            s
        },
        ClientView::End { stream_id, .. } => s.without_stream(stream_id),
        ClientView::Reset { stream_id, .. } => s.without_stream(stream_id),
        ClientView::WindowUpdate(update) => s.credited(update.stream_id, update.increment),
        _ => s,
    }
}

/// Whether a frame can be taken: a window update must not exceed what a
/// semaphore counts.
pub open spec fn takes_frame(s: SessionView, frame: ClientView) -> bool {
    match frame {
        ClientView::WindowUpdate(update) => s.takes_credit(update.stream_id, update.increment),
        _ => true,
    }
}

/// Whether a frame can be taken.
pub fn accepts(session: &Session, frame: &ClientFrame) -> (r: bool)
    requires
        session.wf(),
    ensures
        r == takes_frame(session@, frame@),
{
    match &frame.payload {
        Some(ClientPayload::WindowUpdate(update)) => session.takes_credit(
            update.stream_id,
            update.increment,
        ),
        _ => true,
    }
}

/// Takes a frame of an agent into its session's books.
pub fn handle_client_frame(session: &mut Session, frame: ClientFrame) -> (r: Action)
    requires
        old(session).wf(),
        takes_frame(old(session)@, frame@),
    ensures
        final(session).wf(),
        final(session)@ == after_frame(old(session)@, frame@),
        r@ == frame_action(old(session)@, frame@),
{
    let ghost before = session@;
    let payload = match frame.payload {
        Some(payload) => payload,
        None => return Action::Nothing,
    };
    match payload {
        ClientPayload::Hello(_) => Action::Nothing,
        ClientPayload::OpenTunnel(open) => Action::Register(open),
        ClientPayload::CloseTunnel(close) => match session.remove_tunnel(close.tunnel_id.as_str()) {
            Some(tunnel) => Action::Release(tunnel),
            None => Action::Nothing,
        },
        ClientPayload::ResponseHead(head) => match session.on_response_head(head) {
            Some(head) => Action::Head(head),
            None => Action::Nothing,
        },
        ClientPayload::Data(data) => {
            let stream_id: u64 = data.stream_id;
            let len: usize = payload::length(&data.payload);
            match session.on_stream_data(stream_id, data.payload) {
                Some(chunk) => Action::Body { stream_id, len, chunk },
                None => Action::Nothing,
            }
        },
        ClientPayload::End(end) => {
            let stream_id: u64 = end.stream_id;
            match session.on_stream_end(stream_id, end.trailers) {
                Some(chunk) => Action::Last { stream_id, chunk },
                None => Action::Nothing,
            }
        },
        ClientPayload::Reset(reset) => {
            let stream_id: u64 = reset.stream_id;
            let code = match reset.code {
                Some(code) => code,
                None => ResetCode::Unspecified,
            };
            match session.on_stream_reset(stream_id, code, reset.message) {
                Some(chunk) => Action::Last { stream_id, chunk },
                None => Action::Nothing,
            }
        },
        ClientPayload::WindowUpdate(update) => {
            session.on_window_update(update.stream_id, update.increment);
            Action::Wake { stream_id: update.stream_id }
        },
        ClientPayload::Pong(_) => Action::Nothing,
    }
}

/// Credit for a number of bytes: in 32 bits, the most where it does not fit.
pub open spec fn credit_for(len: usize) -> u32 {
    if len <= u32::MAX {
        len as u32
    } else {
        u32::MAX
    }
}

/// Records whether body bytes reached the public client. The frame returned, if
/// any, grants the agent credit for them: only for bytes that were handed on.
pub fn after_delivery(session: &mut Session, stream_id: u64, len: usize, delivered: bool) -> (r:
    Option<ServerFrame>)
    requires
        old(session).wf(),
    ensures
        final(session).wf(),
        final(session)@ == if delivered {
            old(session)@
        } else {
            old(session)@.without_stream(stream_id)
        },
        if delivered && len > 0 {
            r matches Some(frame) && frame@ == ServerView::WindowUpdate(
                WindowUpdate { stream_id, increment: credit_for(len) },
            )
        } else {
            r is None
        },
{
    let accepted: usize = session.on_delivered(stream_id, len, delivered);
    if accepted > 0 {
        let increment: u32 = if accepted <= u32::MAX as usize {
            accepted as u32
        } else {
            u32::MAX
        };
        session.grant_window(stream_id, increment)
    } else {
        None
    }
}

/// The host that an HTTP tunnel request asks for, or why it gets none.
///
/// A custom domain has to be verified for the account. An empty subdomain is
/// given the fresh label. A reserved label needs a grant; everything else goes to
/// the first to claim it.
pub open spec fn requested_host(
    base_domain: Seq<char>,
    principal: PrincipalView,
    spec: HttpSpecView,
    fresh_label: Seq<char>,
) -> Result<Seq<char>, ErrorView> {
    if spec.custom_domain.len() > 0 {
        match routing::canonical_host(spec.custom_domain) {
            Err(m) => Err(ErrorView::InvalidRoute(m)),
            Ok(domain) => if principal.may_serve(domain) {
                Ok(domain)
            } else {
                Err(
                    ErrorView::Unauthorized(
                        "custom domain `"@ + domain + "` is not verified for this account"@,
                    ),
                )
            },
        }
    } else if spec.subdomain.len() == 0 {
        match routing::host_under(fresh_label, base_domain) {
            Err(m) => Err(ErrorView::InvalidRoute(m)),
            Ok(host) => Ok(host),
        }
    } else {
        match routing::label_syntax(spec.subdomain) {
            Err(m) => Err(ErrorView::InvalidRoute(m)),
            Ok(label) => if routing::reserved_word(label) && !principal.may_claim(label) {
                Err(ErrorView::Unauthorized("subdomain `"@ + label + "` is reserved"@))
            } else {
                match routing::host_under(label, base_domain) {
                    Err(m) => Err(ErrorView::InvalidRoute(m)),
                    Ok(host) => Ok(host),
                }
            },
        }
    }
}

/// Where a tunnel is to be found: its routing key and the URL shown to the user.
#[verifier::ext_equal]
pub struct TargetView {
    pub key: Seq<char>,
    pub url: Seq<char>,
}

/// Whether a target was resolved as described.
pub open spec fn resolves_to(
    r: Result<(RoutingKey, String), Error>,
    expected: Result<TargetView, ErrorView>,
) -> bool {
    match expected {
        Ok(target) => r matches Ok((key, url)) && key@ == target.key && url@ == target.url,
        Err(v) => r matches Err(e) && e@ == v,
    }
}

/// The target of an HTTP tunnel request.
pub open spec fn http_target(
    node: AppState,
    principal: PrincipalView,
    spec: HttpSpecView,
    fresh_label: Seq<char>,
) -> Result<TargetView, ErrorView> {
    match requested_host(node.config.base_domain@, principal, spec, fresh_label) {
        Err(e) => Err(e),
        Ok(host) => Ok(
            TargetView { key: host, url: node.config.public_scheme@ + "://"@ + host },
        ),
    }
}

/// Turns an HTTP tunnel request into a routing key and the URL shown to the
/// user. The fresh label is used where the agent has no preference.
pub fn resolve_http_target(
    node: &AppState,
    principal: &Principal,
    spec: &HttpTunnelSpec,
    fresh_label: &str,
) -> (r: Result<(RoutingKey, String), Error>)
    ensures
        resolves_to(r, http_target(*node, principal@, spec@, fresh_label@)),
        r matches Ok((key, _)) ==> key is Host,
{
    let host = if spec.custom_domain.as_str().unicode_len() > 0 {
        let domain = match routing::normalize_host(spec.custom_domain.as_str()) {
            Ok(domain) => domain,
            Err(e) => return Err(e),
        };
        if !principal.may_use_custom_domain(domain.as_str()) {
            return Err(
                Error::Unauthorized(
                    text::join3(
                        "custom domain `",
                        domain.as_str(),
                        "` is not verified for this account",
                    ),
                ),
            );
        }
        domain
    } else if spec.subdomain.as_str().unicode_len() == 0 {
        match routing::public_host(fresh_label, node.config.base_domain.as_str()) {
            Ok(host) => host,
            Err(e) => return Err(e),
        }
    } else {
        let label = match routing::validate_subdomain_syntax(spec.subdomain.as_str()) {
            Ok(label) => label,
            Err(e) => return Err(e),
        };
        proof {
            routing::lemma_lower_twice(text::trim(spec@.subdomain));
        }
        if routing::is_reserved_subdomain(label.as_str()) && !principal.may_claim_subdomain(
            label.as_str(),
        ) {
            return Err(
                Error::Unauthorized(text::join3("subdomain `", label.as_str(), "` is reserved")),
            );
        }
        match routing::public_host(label.as_str(), node.config.base_domain.as_str()) {
            Ok(host) => host,
            Err(e) => return Err(e),
        }
    };
    let url = node.config.public_url(host.as_str());
    Ok((RoutingKey::Host(host), url))
}

/// The target of a TCP tunnel request.
pub open spec fn tcp_target(node: AppState, spec: TcpTunnelSpec) -> Result<TargetView, ErrorView> {
    if spec.remote_port > 65535 {
        Err(
            ErrorView::InvalidRoute(
                "port "@ + text::decimal(spec.remote_port as nat) + " is out of range"@,
            ),
        )
    } else if spec.remote_port == 0 {
        Err(
            ErrorView::InvalidRoute(
                "automatic TCP port assignment is not implemented yet; pass --remote-port"@,
            ),
        )
    } else {
        Ok(
            TargetView {
                key: routing::port_key(spec.remote_port as u16),
                url: "tcp://"@ + node.config.base_domain@ + ":"@ + text::decimal(
                    spec.remote_port as nat,
                ),
            },
        )
    }
}

/// Turns a TCP tunnel request into a routing key and the URL shown to the user.
pub fn resolve_tcp_target(node: &AppState, spec: &TcpTunnelSpec) -> (r: Result<
    (RoutingKey, String),
    Error,
>)
    ensures
        resolves_to(r, tcp_target(*node, *spec)),
        r matches Ok((key, _)) ==> key == RoutingKey::TcpPort(spec.remote_port as u16),
{
    let port: u32 = spec.remote_port;
    let digits = text::to_decimal(port as u64);
    if port > 65535 {
        return Err(
            Error::InvalidRoute(text::join3("port ", digits.as_str(), " is out of range")),
        );
    }
    if port == 0 {
        return Err(
            Error::InvalidRoute(
                "automatic TCP port assignment is not implemented yet; pass --remote-port".to_owned(),
            ),
        );
    }
    let mut url = text::join3("tcp://", node.config.base_domain.as_str(), ":");
    url.append(digits.as_str());
    Ok((RoutingKey::TcpPort(port as u16), url))
}

/// A tunnel that may be claimed.
#[derive(Debug)]
pub struct PlannedTunnel {
    pub request_id: String,
    pub record: RouteRecord,
    pub public_url: String,
}

/// A planned tunnel by its text.
#[verifier::ext_equal]
pub struct PlanView {
    pub request_id: Seq<char>,
    pub record: RouteView,
    pub public_url: Seq<char>,
}

impl View for PlannedTunnel {
    type V = PlanView;

    open spec fn view(&self) -> PlanView {
        PlanView {
            request_id: self.request_id@,
            record: self.record@,
            public_url: self.public_url@,
        }
    }
}

/// What a rejected request is answered.
pub open spec fn rejected(request_id: Seq<char>, error: Seq<char>) -> StatusView {
    StatusView {
        request_id,
        tunnel_id: Seq::empty(),
        accepted: false,
        error,
        public_url: Seq::empty(),
        routing_key: Seq::empty(),
    }
}

/// Rejects a tunnel request.
fn reject(request_id: String, error: String) -> (r: TunnelStatus)
    ensures
        r@ == rejected(request_id@, error@),
{
    let status = TunnelStatus {
        request_id,
        tunnel_id: String::new(),
        accepted: false,
        error,
        public_url: String::new(),
        routing_key: String::new(),
    };
    assert(status@ =~= rejected(request_id@, error@));
    status
}

/// Whether the account's ceiling on tunnels is reached. Zero means that there is
/// none.
pub open spec fn at_tunnel_limit(s: SessionView) -> bool {
    s.principal.limits.max_tunnels > 0 && s.tunnels.dom().len() >= s.principal.limits.max_tunnels
}

/// The target that a tunnel request asks for, or why it gets none.
pub open spec fn requested_target(
    node: AppState,
    s: SessionView,
    open: OpenTunnelView,
    fresh_label: Seq<char>,
) -> Result<TargetView, Seq<char>> {
    if at_tunnel_limit(s) {
        Err(
            "account is limited to "@ + text::decimal(s.principal.limits.max_tunnels as nat)
                + " concurrent tunnels"@,
        )
    } else {
        match open.spec {
            None => Err("OpenTunnel is missing a spec"@),
            Some(SpecView::Http(spec)) => match http_target(node, s.principal, spec, fresh_label) {
                Ok(target) => Ok(target),
                Err(e) => Err(e.sentence()),
            },
            Some(SpecView::Tcp(spec)) => match tcp_target(node, spec) {
                Ok(target) => Ok(target),
                Err(e) => Err(e.sentence()),
            },
        }
    }
}

/// The tunnel that a request asks for, or its rejection.
pub open spec fn planned(
    node: AppState,
    s: SessionView,
    open: OpenTunnelView,
    fresh_label: Seq<char>,
    tunnel_id: Seq<char>,
) -> Result<PlanView, StatusView> {
    match requested_target(node, s, open, fresh_label) {
        Err(error) => Err(rejected(open.request_id, error)),
        Ok(target) => Ok(
            PlanView {
                request_id: open.request_id,
                record: RouteView {
                    routing_key: target.key,
                    node_id: node.node_id@,
                    node_addr: node.node_addr@,
                    session_id: s.id,
                    tunnel_id,
                    account_id: s.principal.account_id,
                },
                public_url: target.url,
            },
        ),
    }
}

/// Validates a tunnel request and says what to claim for it. The fresh label is
/// used where the agent has no preference; the tunnel id names the new tunnel.
pub fn plan_tunnel(
    node: &AppState,
    session: &Session,
    open: OpenTunnel,
    fresh_label: &str,
    tunnel_id: String,
) -> (r: Result<PlannedTunnel, TunnelStatus>)
    ensures
        match planned(*node, session@, open@, fresh_label@, tunnel_id@) {
            Ok(plan) => r matches Ok(p) && p@ == plan,
            Err(status) => r matches Err(t) && t@ == status,
        },
{
    let request_id = open.request_id;
    let principal = session.principal();
    let max_tunnels: u32 = principal.limits.max_tunnels;
    if max_tunnels > 0 && session.tunnel_count() >= max_tunnels as usize {
        let error = text::join3(
            "account is limited to ",
            text::to_decimal(max_tunnels as u64).as_str(),
            " concurrent tunnels",
        );
        return Err(reject(request_id, error));
    }
    let target = match &open.spec {
        Some(TunnelSpec::Http(spec)) => resolve_http_target(
            node,
            principal,
            spec,
            fresh_label,
        ),
        Some(TunnelSpec::Tcp(spec)) => resolve_tcp_target(node, spec),
        None => return Err(reject(request_id, "OpenTunnel is missing a spec".to_owned())),
    };
    let (routing_key, public_url) = match target {
        Ok(pair) => pair,
        Err(e) => return Err(reject(request_id, e.to_string())),
    };
    let record = RouteRecord {
        routing_key: routing_key.as_storage_key(),
        node_id: node.node_id.clone(),
        node_addr: node.node_addr.clone(),
        session_id: session.id().to_owned(),
        tunnel_id,
        account_id: principal.account_id.clone(),
    };
    Ok(PlannedTunnel { request_id, record, public_url })
}

/// What a request is answered once the routing table has spoken.
pub open spec fn settled(plan: PlanView, answer: Result<ClaimView, ErrorView>) -> StatusView {
    match answer {
        Ok(ClaimView::Acquired) => StatusView {
            request_id: plan.request_id,
            tunnel_id: plan.record.tunnel_id,
            accepted: true,
            error: Seq::empty(),
            public_url: plan.public_url,
            routing_key: plan.record.routing_key,
        },
        Ok(ClaimView::Taken(owner)) => rejected(
            plan.request_id,
            ErrorView::RouteTaken(
                plan.record.routing_key + " (held by session "@ + owner.session_id + " on node "@
                    + owner.node_id + ")"@,
            ).sentence(),
        ),
        Err(e) => rejected(plan.request_id, e.sentence()),
    }
}

/// The session once the routing table has spoken: with the tunnel where it was
/// claimed.
pub open spec fn after_settling(
    s: SessionView,
    plan: PlanView,
    answer: Result<ClaimView, ErrorView>,
) -> SessionView {
    match answer {
        Ok(ClaimView::Acquired) => SessionView {
            tunnels: s.tunnels.insert(
                plan.record.tunnel_id,
                TunnelView {
                    tunnel_id: plan.record.tunnel_id,
                    routing_key: plan.record.routing_key,
                    public_url: plan.public_url,
                },
            ),
            ..s
        },
        _ => s,
    }
}

/// Takes the answer of the routing table to the claim of a planned tunnel.
pub fn settle_tunnel(
    session: &mut Session,
    plan: PlannedTunnel,
    answer: Result<Claim, Error>,
) -> (r: TunnelStatus)
    requires
        old(session).wf(),
    ensures
        final(session).wf(),
        final(session)@ == after_settling(old(session)@, plan@, registry::claim_view(answer)),
        r@ == settled(plan@, registry::claim_view(answer)),
{
    match answer {
        Ok(Claim::Acquired) => {
            session.insert_tunnel(
                Tunnel {
                    tunnel_id: plan.record.tunnel_id.clone(),
                    routing_key: plan.record.routing_key.clone(),
                    public_url: plan.public_url.clone(),
                },
            );
            let status = TunnelStatus {
                request_id: plan.request_id,
                tunnel_id: plan.record.tunnel_id,
                accepted: true,
                error: String::new(),
                public_url: plan.public_url,
                routing_key: plan.record.routing_key,
            };
            assert(status@ =~= settled(plan@, registry::claim_view(answer)));
            status
        },
        Ok(Claim::Taken(owner)) => {
            let mut held = text::join3(
                plan.record.routing_key.as_str(),
                " (held by session ",
                owner.session_id.as_str(),
            );
            held.append(" on node ");
            held.append(owner.node_id.as_str());
            held.append(")");
            let error = Error::RouteTaken(held);
            reject(plan.request_id, error.to_string())
        },
        Err(e) => reject(plan.request_id, e.to_string()),
    }
}

/// Whether a registration came out as its plan and the routing table's answer
/// demand; without a plan, the table is not asked and nothing changes.
pub open spec fn registered(
    r: StatusView,
    before: SessionView,
    after: SessionView,
    plan: Result<PlanView, StatusView>,
    answer: Result<ClaimView, ErrorView>,
) -> bool {
    match plan {
        Err(status) => r == status && after == before,
        Ok(plan) => r == settled(plan, answer) && after == after_settling(before, plan, answer),
    }
}

/// Whether a routing table was asked for what a plan claims, and for nothing
/// where there is no plan.
pub open spec fn asked_to_claim<R: Registry>(
    table: R,
    table_after: R,
    plan: Result<PlanView, StatusView>,
    ttl_ms: u128,
    answer: Result<ClaimView, ErrorView>,
) -> bool {
    match plan {
        Err(_) => table_after == table,
        Ok(plan) => R::claims(table, plan.record, ttl_ms, table_after, answer),
    }
}

/// Validates a tunnel request, claims what it asks for and says what became of
/// it.
pub fn register_tunnel<R: Registry>(
    node: &AppState,
    table: &mut R,
    session: &mut Session,
    open: OpenTunnel,
) -> (r: TunnelStatus)
    requires
        old(session).wf(),
    ensures
        final(session).wf(),
        exists|label: Seq<char>, id: Seq<char>, answer: Result<ClaimView, ErrorView>|
            routing::is_generated_label(label) && ids::is_id("tun_"@, id) && #[trigger] registered(
                r@,
                old(session)@,
                final(session)@,
                planned(*node, old(session)@, open@, label, id),
                answer,
            ) && asked_to_claim(
                *old(table),
                *final(table),
                planned(*node, old(session)@, open@, label, id),
                (3 * node.config.heartbeat_ms) as u128,
                answer,
            ),
{
    let label = routing::random_subdomain();
    let tunnel_id = ids::tunnel_id();
    let ghost id = tunnel_id@;
    let ghost before = session@;
    let ghost wanted = open@;
    let plan = match plan_tunnel(node, session, open, label.as_str(), tunnel_id) {
        Ok(plan) => plan,
        Err(status) => {
            let ghost none: Result<ClaimView, ErrorView> = Ok(ClaimView::Acquired);
            assert(registered(
                status@,
                before,
                session@,
                planned(*node, before, wanted, label@, id),
                none,
            ));
            return status;
        },
    };
    let answer = table.claim(&plan.record, node.config.route_ttl());
    let ghost said = registry::claim_view(answer);
    let status = settle_tunnel(session, plan, answer);
    assert(registered(
        status@,
        before,
        session@,
        planned(*node, before, wanted, label@, id),
        said,
    ));
    status
}

/// An accepted tunnel stands in the table under its key, for as long as its claim
/// lives; a rejected one left no row there.
pub proof fn accepted_tunnels_stand_in_the_table(
    table: MemoryRegistry,
    table_after: MemoryRegistry,
    plan: PlanView,
    ttl_ms: u128,
    answer: Result<ClaimView, ErrorView>,
) -> (now: int)
    requires
        MemoryRegistry::claims(table, plan.record, ttl_ms, table_after, answer),
    ensures
        0 <= now <= registry::MAX_CLOCK,
        table.reads(now as u128),
        settled(plan, answer).accepted ==> forall|later: int|
            later < registry::expiry(now, ttl_ms as int) ==> #[trigger] registry::lookup_answer(
                table_after@,
                later,
                plan.record.routing_key,
            ) == Some(plan.record),
        !settled(plan, answer).accepted ==> table_after@ == registry::live(table@, now),
{
    let now = choose|now: int|
        0 <= now <= registry::MAX_CLOCK && table.reads(now as u128) && table_after@
            == #[trigger] registry::after_claim(
            table@,
            now,
            plan.record,
            ttl_ms as int,
        ) && answer == Ok::<ClaimView, ErrorView>(
            registry::claim_answer(table@, now, plan.record),
        );
    now
}

/// Time to live that goes with a heartbeat interval, both in milliseconds.
#[must_use]
pub fn default_route_ttl(heartbeat_ms: u64) -> (r: u128)
    ensures
        r == 3 * heartbeat_ms,
{
    heartbeat_ms as u128 * 3
}

/// Of two sessions that ask for the same key, the second is told that the first
/// holds it and gets no tunnel, for as long as the first claim lives.
pub proof fn contested_keys_have_one_winner(
    rows: Map<Seq<char>, Row>,
    first: PlanView,
    second: PlanView,
    s: SessionView,
    ttl_ms: int,
    now: int,
    later: int,
)
    requires
        first.record.routing_key == second.record.routing_key,
        first.record.session_id != second.record.session_id,
        registry::claim_answer(rows, now, first.record) is Acquired,
        later < registry::expiry(now, ttl_ms),
    ensures
        ({
            let answer = Ok::<ClaimView, ErrorView>(
                registry::claim_answer(
                    registry::after_claim(rows, now, first.record, ttl_ms),
                    later,
                    second.record,
                ),
            );
            &&& !settled(second, answer).accepted
            &&& settled(second, answer).error == ErrorView::RouteTaken(
                second.record.routing_key + " (held by session "@ + first.record.session_id
                    + " on node "@ + first.record.node_id + ")"@,
            ).sentence()
            &&& after_settling(s, second, answer) == s
        }),
{
    registry::first_claimer_wins(rows, first.record, second.record, ttl_ms, ttl_ms, now, later);
}

/// What registration claims is what a request looks up: a tunnel that was
/// claimed under the key of a host name is found through every form in which
/// that host arrives, for as long as the claim lives.
pub proof fn registered_tunnels_are_found(
    rows: Map<Seq<char>, Row>,
    plan: PlanView,
    ttl_ms: int,
    now: int,
    later: int,
    before: Seq<char>,
    name: Seq<char>,
    root: Seq<char>,
    port: Seq<char>,
    after: Seq<char>,
)
    requires
        registry::claim_answer(rows, now, plan.record) is Acquired,
        later < registry::expiry(now, ttl_ms),
        routing::is_name_key(plan.record.routing_key),
        text::lower(name) == plan.record.routing_key,
        routing::blank(before),
        routing::blank(after),
        routing::dots(root),
        routing::port_suffix(port),
    ensures
        ({
            let header = before + name + root + port + after;
            &&& routing::canonical_host(header) is Ok
            &&& registry::lookup_answer(
                registry::after_claim(rows, now, plan.record, ttl_ms),
                later,
                routing::canonical_host(header)->Ok_0,
            ) == Some(plan.record)
        }),
{
    routing::equivalent_forms_share_a_key(
        plan.record.routing_key,
        before,
        name,
        root,
        port,
        after,
    );
    registry::granted_claims_are_found(rows, plan.record, ttl_ms, now, later);
}

/// Every HTTP tunnel that is not on a custom domain is claimed under the key of a
/// host name, unless the base domain cannot carry one.
pub proof fn subdomains_are_claimed_under_name_keys(
    node: AppState,
    s: SessionView,
    open: OpenTunnelView,
    fresh_label: Seq<char>,
    tunnel_id: Seq<char>,
)
    requires
        planned(node, s, open, fresh_label, tunnel_id) is Ok,
        open.spec matches Some(SpecView::Http(spec)) && spec.custom_domain.len() == 0,
        routing::carries_hosts(node.config.base_domain@),
    ensures
        routing::is_name_key(
            planned(node, s, open, fresh_label, tunnel_id)->Ok_0.record.routing_key,
        ),
{
    let spec = open.spec->Some_0->Http_0;
    if spec.subdomain.len() == 0 {
        routing::registered_hosts_are_keys(fresh_label, node.config.base_domain@);
    } else {
        routing::registered_hosts_are_keys(
            routing::label_syntax(spec.subdomain)->Ok_0,
            node.config.base_domain@,
        );
    }
}

/// A reserved label is claimed only by an account that was granted it: a tunnel
/// that is not on a custom domain stands under the label asked for, or under the
/// fresh one, and that label is either free to all or granted.
pub proof fn reserved_labels_need_a_grant(
    node: AppState,
    s: SessionView,
    open: OpenTunnelView,
    fresh_label: Seq<char>,
    tunnel_id: Seq<char>,
) -> (label: Seq<char>)
    requires
        planned(node, s, open, fresh_label, tunnel_id) is Ok,
        open.spec matches Some(SpecView::Http(spec)) && spec.custom_domain.len() == 0,
        routing::is_generated_label(fresh_label),
    ensures
        routing::host_under(label, node.config.base_domain@) == Ok::<Seq<char>, Seq<char>>(
            planned(node, s, open, fresh_label, tunnel_id)->Ok_0.record.routing_key,
        ),
        routing::reserved_word(label) ==> s.principal.may_claim(label),
{
    let spec = open.spec->Some_0->Http_0;
    if spec.subdomain.len() == 0 {
        routing::generated_subdomains_are_claimable(fresh_label);
        fresh_label
    } else {
        routing::label_syntax(spec.subdomain)->Ok_0
    }
}

/// A custom domain is claimed only by an account for which it was verified.
pub proof fn custom_domains_need_verification(
    node: AppState,
    s: SessionView,
    open: OpenTunnelView,
    fresh_label: Seq<char>,
    tunnel_id: Seq<char>,
)
    requires
        planned(node, s, open, fresh_label, tunnel_id) is Ok,
        open.spec matches Some(SpecView::Http(spec)) && spec.custom_domain.len() > 0,
    ensures
        s.principal.may_serve(
            planned(node, s, open, fresh_label, tunnel_id)->Ok_0.record.routing_key,
        ),
{
}

/// A session never registers more tunnels than its account may have.
pub proof fn the_tunnel_ceiling_holds(
    node: AppState,
    s: SessionView,
    open: OpenTunnelView,
    fresh_label: Seq<char>,
    tunnel_id: Seq<char>,
    answer: Result<ClaimView, ErrorView>,
)
    requires
        s.principal.limits.max_tunnels > 0,
        s.tunnels.dom().finite(),
        planned(node, s, open, fresh_label, tunnel_id) is Ok,
    ensures
        after_settling(s, planned(node, s, open, fresh_label, tunnel_id)->Ok_0, answer).tunnels.dom().len()
            <= s.principal.limits.max_tunnels,
{
}

/// Frames for a stream that is gone change nothing and reach nobody.
pub proof fn late_frames_do_not_revive_a_stream(s: SessionView, frame: ClientView, id: u64)
    requires
        !s.has_stream(id),
        match frame {
            ClientView::ResponseHead(head) => head.stream_id == id,
            ClientView::Data { stream_id, .. } => stream_id == id,
            ClientView::End { stream_id, .. } => stream_id == id,
            ClientView::Reset { stream_id, .. } => stream_id == id,
            _ => false,
        },
    ensures
        after_frame(s, frame) == s,
        frame_action(s, frame) is Nothing,
{
    assert(s.streams.remove(id) =~= s.streams);
}

/// A frame for one stream leaves the others alone.
pub proof fn frames_touch_only_their_stream(s: SessionView, frame: ClientView, other: u64)
    requires
        s.has_stream(other),
        match frame {
            ClientView::ResponseHead(head) => head.stream_id != other,
            ClientView::Data { stream_id, .. } => stream_id != other,
            ClientView::End { stream_id, .. } => stream_id != other,
            ClientView::Reset { stream_id, .. } => stream_id != other,
            ClientView::WindowUpdate(update) => update.stream_id != other,
            _ => true,
        },
    ensures
        after_frame(s, frame).has_stream(other),
        after_frame(s, frame).streams[other] == s.streams[other],
{
}

/// The end of a stream, clean or not, leaves nothing of it behind.
pub proof fn ended_streams_are_gone(s: SessionView, frame: ClientView, id: u64)
    requires
        match frame {
            ClientView::End { stream_id, .. } => stream_id == id,
            ClientView::Reset { stream_id, .. } => stream_id == id,
            _ => false,
        },
    ensures
        !after_frame(s, frame).has_stream(id),
{
}

/// A session begins exactly with a hello of protocol version 1. Anything else, and an
/// agent that says nothing, breaks the protocol.
pub proof fn only_a_hello_of_version_one_is_let_in(first: Option<ClientView>)
    ensures
        handshake_fault(first) is None <==> (first matches Some(ClientView::Hello(hello))
            && hello.protocol_version == 1),
        handshake_fault(first) matches Some(fault) ==> fault.code == RefusalCode::FailedPrecondition,
        first is None ==> handshake_fault(first)->0.message == "stream closed before Hello"@,
        first matches Some(ClientView::Hello(hello)) ==> (hello.protocol_version != 1
            ==> handshake_fault(first)->0.message == "unsupported protocol version "@
            + text::decimal(hello.protocol_version as nat)
            + " (server speaks 1); upgrade the norupo CLI"@),
        first is Some && !(first matches Some(ClientView::Hello(_))) ==> handshake_fault(
            first,
        )->0.message == "first frame must be Hello"@,
{
}

/// An agent that was let in gets an empty session of its own account on this node,
/// with the configured window, and is told its id, the node, the heartbeat, the
/// window and its limits. One that was not is told why.
pub proof fn agents_are_welcomed_as_the_authentication_says(
    r: Result<(Session, ServerFrame), Refusal>,
    node: AppState,
    session_id: Seq<char>,
    answer: Result<Principal, Error>,
)
    requires
        welcomed(r, node, session_id, answer),
    ensures
        answer matches Err(e) ==> (r matches Err(refusal) && refusal.code
            == RefusalCode::Unauthenticated && refusal.message@ == e@.sentence()),
        answer matches Ok(principal) ==> {
            &&& r matches Ok((s, frame))
            &&& s.wf()
            &&& s@.id == session_id
            &&& s@.node_id == node.node_id@
            &&& s@.principal == principal@
            &&& s@.streams.dom().is_empty()
            &&& s@.tunnels.dom().is_empty()
            &&& s@.next_stream_id == 1
            &&& s@.initial_window == node.config.window_bytes
            &&& frame@ matches ServerView::Welcome(welcome)
            &&& welcome.session_id == session_id
            &&& welcome.server_version == state::VERSION@
            &&& welcome.node_id == node.node_id@
            &&& welcome.initial_window == node.config.window_bytes
            &&& node.config.heartbeat_ms <= u32::MAX ==> welcome.heartbeat_interval_ms
                == node.config.heartbeat_ms
            &&& node.config.heartbeat_ms > u32::MAX ==> welcome.heartbeat_interval_ms == u32::MAX
            &&& welcome.limits matches Some(limits)
            &&& limits.max_tunnels == principal.limits.max_tunnels
            &&& limits.max_concurrent_streams == principal.limits.max_concurrent_streams
            &&& limits.max_bytes_per_second == principal.limits.max_bytes_per_second
        },
{
}

/// The wall clock is told in milliseconds as it is read, as far as the number goes.
pub proof fn clocks_are_told_as_read(ms: u128)
    ensures
        ms <= 9_223_372_036_854_775_807 ==> epoch_millis(Some(ms)) == ms,
        ms > 9_223_372_036_854_775_807 ==> epoch_millis(Some(ms)) == i64::MAX,
        epoch_millis(None) == 0,
{
}

/// The notice of a lost claim names the tunnel, is no acceptance, and asks the agent
/// to register again.
pub proof fn lost_notices_name_their_tunnel(tunnel: TunnelView)
    ensures
        lost_notice(tunnel).tunnel_id == tunnel.tunnel_id,
        lost_notice(tunnel).routing_key == tunnel.routing_key,
        lost_notice(tunnel).public_url == tunnel.public_url,
        lost_notice(tunnel).request_id.len() == 0,
        !lost_notice(tunnel).accepted,
        lost_notice(tunnel).error == "routing claim lost; reconnect to re-register"@,
{
}

/// Losing a tunnel takes that one out of its session and nothing else.
pub proof fn losing_a_tunnel_takes_only_that(s: SessionView, tunnel: TunnelView, id: Seq<char>)
    ensures
        without_tunnel(s, tunnel).tunnels.dom().contains(id) <==> s.tunnels.dom().contains(id) && id
            != tunnel.tunnel_id,
        s.tunnels.dom().contains(id) && id != tunnel.tunnel_id ==> without_tunnel(
            s,
            tunnel,
        ).tunnels[id] == s.tunnels[id],
        without_tunnel(s, tunnel).streams == s.streams,
        without_tunnel(s, tunnel).id == s.id,
        without_tunnel(s, tunnel).principal == s.principal,
        without_tunnel(s, tunnel).next_stream_id == s.next_stream_id,
        without_tunnel(s, tunnel).initial_window == s.initial_window,
        without_tunnel(s, tunnel).node_id == s.node_id,
{
}

/// Tearing a session down releases every claim that it holds at a local table,
/// leaves the rows of every other session as they are, and drops every stream. The
/// session keeps nothing else than it had.
pub proof fn teardown_releases_every_claim(
    table: MemoryRegistry,
    table_after: MemoryRegistry,
    before: SessionView,
    after: SessionView,
    id: Seq<char>,
    key: Seq<char>,
)
    requires
        torn_down(table, table_after, before, after),
    ensures
        before.tunnels.dom().contains(id) ==> !(table_after@.dom().contains(
            before.tunnels[id].routing_key,
        ) && table_after@[before.tunnels[id].routing_key].record.session_id == before.id),
        table@.dom().contains(key) && table@[key].record.session_id != before.id
            ==> table_after@.dom().contains(key) && table_after@[key] == table@[key],
        table_after@.dom().contains(key) ==> table@.dom().contains(key) && table_after@[key]
            == table@[key],
        after.streams.dom().is_empty(),
        after.tunnels == before.tunnels,
        after.id == before.id,
        after.principal == before.principal,
        after.next_stream_id == before.next_stream_id,
{
    let (tables, list, answers) = choose|
        tables: Seq<MemoryRegistry>,
        list: Seq<TunnelView>,
        answers: Seq<Result<(), ErrorView>>,
    | #[trigger]
        released(table, table_after, before, tables, list, answers);
    lemma_releases_only_remove(tables, list, before.id, answers, key);
    if before.tunnels.dom().contains(id) {
        let names = choose|names: Seq<Seq<char>>| #[trigger]
            tables::enumerates_names(names, before.tunnels.dom()) && names.len() == list.len()
                && forall|i: int|
                0 <= i < list.len() ==> #[trigger] list[i] == before.tunnels[names[i]];
        assert(names.contains(id));
        let at = choose|at: int| 0 <= at < names.len() && names[at] == id;
        assert(list[at] == before.tunnels[names[at]]);
        a_torn_down_session_holds_nothing(tables, list, before.id, answers, at, key);
    }
}

/// Releases take rows of the session away and do nothing else.
proof fn lemma_releases_only_remove(
    tables: Seq<MemoryRegistry>,
    list: Seq<TunnelView>,
    session_id: Seq<char>,
    answers: Seq<Result<(), ErrorView>>,
    key: Seq<char>,
)
    requires
        asked_to_release(tables, list, session_id, answers),
    ensures
        tables.last()@.dom().contains(key) ==> tables[0]@.dom().contains(key) && tables.last()@[key]
            == tables[0]@[key],
        tables[0]@.dom().contains(key) && tables[0]@[key].record.session_id != session_id
            ==> tables.last()@.dom().contains(key) && tables.last()@[key] == tables[0]@[key],
    decreases answers.len(),
{
    if answers.len() > 0 {
        let last = answers.len() - 1;
        assert(MemoryRegistry::frees(
            tables[last],
            list[last].routing_key,
            session_id,
            tables[last + 1],
            answers[last],
        ));
        let fewer = answers.drop_last();
        let shorter = tables.drop_last();
        assert forall|k: int| 0 <= k < fewer.len() implies MemoryRegistry::frees(
            shorter[k],
            list[k].routing_key,
            session_id,
            shorter[k + 1],
            #[trigger] fewer[k],
        ) by {
            assert(answers[k] == fewer[k]);
        }
        lemma_releases_only_remove(shorter, list, session_id, fewer, key);
        assert(shorter.last() == tables[last]);
    }
}

/// Every claim of a torn down session is released at whatever table it is: for each
/// of its tunnels the table was asked to release that key for that session.
pub proof fn teardown_asks_for_every_release<R: Registry>(
    table: R,
    table_after: R,
    before: SessionView,
    after: SessionView,
    id: Seq<char>,
) -> (step: (R, R, Result<(), ErrorView>))
    requires
        torn_down(table, table_after, before, after),
        before.tunnels.dom().contains(id),
    ensures
        R::frees(step.0, before.tunnels[id].routing_key, before.id, step.1, step.2),
{
    let (tables, list, answers) = choose|
        tables: Seq<R>,
        list: Seq<TunnelView>,
        answers: Seq<Result<(), ErrorView>>,
    | #[trigger]
        released(table, table_after, before, tables, list, answers);
    let names = choose|names: Seq<Seq<char>>| #[trigger]
        tables::enumerates_names(names, before.tunnels.dom()) && names.len() == list.len()
            && forall|i: int| 0 <= i < list.len() ==> #[trigger] list[i] == before.tunnels[names[i]];
    assert(names.contains(id));
    let at = choose|at: int| 0 <= at < names.len() && names[at] == id;
    assert(list[at] == before.tunnels[names[at]]);
    assert(R::frees(
        tables[at],
        list[at].routing_key,
        before.id,
        tables[at + 1],
        answers[at],
    ));
    (tables[at], tables[at + 1], answers[at])
}

/// In a round that keeps the session, every claim is renewed, for that session and
/// the time to live asked for, and none is reported lost.
pub proof fn a_round_renews_every_claim<R: Registry>(
    table: R,
    table_after: R,
    before: SessionView,
    after: SessionView,
    ttl_ms: u128,
    id: Seq<char>,
) -> (step: (R, R, Result<bool, ErrorView>))
    requires
        renewed(table, table_after, None, before, after, ttl_ms),
        before.tunnels.dom().contains(id),
    ensures
        after == before,
        R::renews(step.0, before.tunnels[id].routing_key, before.id, ttl_ms, step.1, step.2),
        step.2 != Ok::<bool, ErrorView>(false),
{
    let (tables, list, answers) = choose|
        tables: Seq<R>,
        list: Seq<TunnelView>,
        answers: Seq<Result<bool, ErrorView>>,
    | #[trigger]
        renewal_round(table, table_after, None, before, after, ttl_ms, tables, list, answers);
    let names = choose|names: Seq<Seq<char>>| #[trigger]
        tables::enumerates_names(names, before.tunnels.dom()) && names.len() == list.len()
            && forall|i: int| 0 <= i < list.len() ==> #[trigger] list[i] == before.tunnels[names[i]];
    assert(names.contains(id));
    let at = choose|at: int| 0 <= at < names.len() && names[at] == id;
    assert(list[at] == before.tunnels[names[at]]);
    let last = answers.len() - 1;
    assert(!(last >= 0 && is_lost(answers[last])));
    if at < last {
        assert(!is_lost(answers[at]));
    }
    assert(R::renews(
        tables[at],
        list[at].routing_key,
        before.id,
        ttl_ms,
        tables[at + 1],
        answers[at],
    ));
    (tables[at], tables[at + 1], answers[at])
}

/// A round that ends the session does so because one of its claims was reported lost:
/// that tunnel is the one announced.
pub proof fn a_session_ends_for_a_lost_claim<R: Registry>(
    table: R,
    table_after: R,
    notice: ServerView,
    before: SessionView,
    ttl_ms: u128,
) -> (lost: (Seq<char>, R, R))
    requires
        ends(table, table_after, notice, before, ttl_ms),
    ensures
        before.tunnels.dom().contains(lost.0),
        notice matches ServerView::TunnelStatus(status) && !status.accepted && status.routing_key
            == before.tunnels[lost.0].routing_key && status.error
            == "routing claim lost; reconnect to re-register"@,
        R::renews(
            lost.1,
            before.tunnels[lost.0].routing_key,
            before.id,
            ttl_ms,
            lost.2,
            Ok(false),
        ),
{
    let after = choose|after: SessionView| #[trigger]
        renewed(table, table_after, Some(notice), before, after, ttl_ms);
    let (tables, list, answers) = choose|
        tables: Seq<R>,
        list: Seq<TunnelView>,
        answers: Seq<Result<bool, ErrorView>>,
    | #[trigger]
        renewal_round(
            table,
            table_after,
            Some(notice),
            before,
            after,
            ttl_ms,
            tables,
            list,
            answers,
        );
    let last = answers.len() - 1;
    let names = choose|names: Seq<Seq<char>>| #[trigger]
        tables::enumerates_names(names, before.tunnels.dom()) && names.len() == list.len()
            && forall|i: int| 0 <= i < list.len() ==> #[trigger] list[i] == before.tunnels[names[i]];
    assert(names.contains(names[last]));
    assert(list[last] == before.tunnels[names[last]]);
    assert(R::renews(
        tables[last],
        list[last].routing_key,
        before.id,
        ttl_ms,
        tables[last + 1],
        answers[last],
    ));
    (names[last], tables[last], tables[last + 1])
}

/// A frame of an agent does what it says: it registers or closes a tunnel, or serves
/// the stream it names, where that is open, with exactly what it carries.
pub proof fn frames_do_what_they_say(s: SessionView, frame: ClientView)
    ensures
        ({
            let open = |id: u64| s.streams.dom().contains(id);
            let action = frame_action(s, frame);
            &&& frame matches ClientView::OpenTunnel(wanted) ==> action == ActionView::Register(
                wanted,
            )
            &&& frame matches ClientView::CloseTunnel { tunnel_id } ==> if s.tunnels.dom().contains(
                tunnel_id,
            ) {
                action == ActionView::Release(s.tunnels[tunnel_id])
            } else {
                action is Nothing
            }
            &&& frame matches ClientView::ResponseHead(head) ==> if open(head.stream_id)
                && s.streams[head.stream_id].head_waiting {
                action == ActionView::Head(head)
            } else {
                action is Nothing
            }
            &&& frame matches ClientView::Data { stream_id, payload } ==> if open(stream_id) {
                action == (ActionView::Body {
                    stream_id,
                    len: payload.len(),
                    chunk: ChunkView::Data(payload),
                })
            } else {
                action is Nothing
            }
            &&& frame matches ClientView::End { stream_id, trailers } ==> if open(stream_id) {
                action == (ActionView::Last { stream_id, chunk: ChunkView::End(trailers) })
            } else {
                action is Nothing
            }
            &&& frame matches ClientView::Reset { stream_id, code, message } ==> if open(
                stream_id,
            ) {
                &&& action matches ActionView::Last { stream_id: id, chunk }
                &&& id == stream_id
                &&& chunk matches ChunkView::Reset(told, words)
                &&& words == message
                &&& code matches Some(c) ==> told == c
                &&& code is None ==> told == ResetCode::Unspecified
            } else {
                action is Nothing
            }
            &&& frame matches ClientView::WindowUpdate(update) ==> action == (ActionView::Wake {
                stream_id: update.stream_id,
            })
            &&& frame is Hello || frame is Pong || frame is Empty ==> action is Nothing
        }),
{
}

/// A frame of an agent changes in the session's books only what it is about: a closed
/// tunnel leaves, a head is awaited once, an ended stream leaves, and a grant adds up.
/// Whose session it is, its number of streams so far and its window stay.
pub proof fn frames_change_only_what_they_are_about(
    s: SessionView,
    frame: ClientView,
    id: u64,
    tunnel: Seq<char>,
)
    requires
        takes_frame(s, frame),
    ensures
        ({
            let after = after_frame(s, frame);
            let ends = (frame matches ClientView::End { stream_id, .. } && stream_id == id) || (
            frame matches ClientView::Reset { stream_id, .. } && stream_id == id);
            let closes = frame matches ClientView::CloseTunnel { tunnel_id } && tunnel_id == tunnel;
            let answers = frame matches ClientView::ResponseHead(head) && head.stream_id == id;
            let granted: int = match frame {
                ClientView::WindowUpdate(update) => if update.stream_id == id {
                    update.increment as int
                } else {
                    0
                },
                _ => 0,
            };
            &&& after.streams.dom().contains(id) <==> s.streams.dom().contains(id) && !ends
            &&& after.streams.dom().contains(id) ==> {
                &&& after.streams[id].credit == s.streams[id].credit + granted
                &&& after.streams[id].head_waiting <==> s.streams[id].head_waiting && !answers
            }
            &&& after.tunnels.dom().contains(tunnel) <==> s.tunnels.dom().contains(tunnel) && !closes
            &&& after.tunnels.dom().contains(tunnel) ==> after.tunnels[tunnel] == s.tunnels[tunnel]
            &&& after.id == s.id
            &&& after.node_id == s.node_id
            &&& after.principal == s.principal
            &&& after.next_stream_id == s.next_stream_id
            &&& after.initial_window == s.initial_window
        }),
{
}

/// Only a grant beyond what a semaphore counts is too much to take.
pub proof fn only_excessive_grants_are_not_taken(s: SessionView, frame: ClientView)
    ensures
        takes_frame(s, frame) <==> (frame matches ClientView::WindowUpdate(update)
            ==> s.streams.dom().contains(update.stream_id) ==> s.streams[update.stream_id].credit
            + update.increment <= 2_305_843_009_213_693_951),
{
}

/// Credit is returned byte for byte, up to the most that a frame can grant.
pub proof fn credit_is_returned_byte_for_byte(len: usize)
    ensures
        len <= 4_294_967_295 ==> credit_for(len) == len,
        len > 4_294_967_295 ==> credit_for(len) == 4_294_967_295,
{
}

/// A custom domain that the account may serve is granted under its key. A subdomain
/// that is a DNS label is granted under the base domain unless it is reserved and not
/// the account's. Without either, the fresh label is.
pub proof fn what_an_account_may_have_is_granted(
    base_domain: Seq<char>,
    principal: PrincipalView,
    spec: HttpSpecView,
    fresh_label: Seq<char>,
)
    ensures
        ({
            let granted = requested_host(base_domain, principal, spec, fresh_label);
            let label = text::lower(text::trim(spec.subdomain));
            let fresh = text::lower(text::trim(fresh_label));
            let base = routing::canonical_host(base_domain);
            &&& spec.custom_domain.len() > 0 ==> {
                let domain = routing::canonical_host(spec.custom_domain);
                &&& granted is Ok <==> domain is Ok && principal.may_serve(domain->Ok_0)
                &&& granted is Ok ==> granted->Ok_0 == domain->Ok_0
                &&& domain is Ok && granted is Err ==> granted->Err_0 == ErrorView::Unauthorized(
                    "custom domain `"@ + domain->Ok_0 + "` is not verified for this account"@,
                )
                &&& domain is Err ==> granted == Err::<Seq<char>, ErrorView>(
                    ErrorView::InvalidRoute(domain->Err_0),
                )
            }
            &&& spec.custom_domain.len() == 0 && spec.subdomain.len() > 0 ==> {
                let valid = routing::label_syntax(spec.subdomain) is Ok;
                let allowed = !routing::reserved_word(label) || principal.may_claim(label);
                &&& granted is Ok <==> valid && allowed && base is Ok && label.len() + 1
                    + base->Ok_0.len() <= 253
                &&& !valid ==> granted == Err::<Seq<char>, ErrorView>(
                    ErrorView::InvalidRoute(routing::label_syntax(spec.subdomain)->Err_0),
                )
                &&& valid && allowed && granted is Err ==> granted == Err::<Seq<char>, ErrorView>(
                    ErrorView::InvalidRoute(
                        routing::host_under(spec.subdomain, base_domain)->Err_0,
                    ),
                )
                &&& granted is Ok ==> granted->Ok_0 == label + seq!['.'] + base->Ok_0
                &&& valid && !allowed ==> granted == Err::<Seq<char>, ErrorView>(
                    ErrorView::Unauthorized("subdomain `"@ + label + "` is reserved"@),
                )
            }
            &&& spec.custom_domain.len() == 0 && spec.subdomain.len() == 0 ==> {
                &&& granted is Ok <==> routing::label_syntax(fresh_label) is Ok && base is Ok
                    && fresh.len() + 1 + base->Ok_0.len() <= 253
                &&& granted is Ok ==> granted->Ok_0 == fresh + seq!['.'] + base->Ok_0
                &&& granted is Err ==> granted == Err::<Seq<char>, ErrorView>(
                    ErrorView::InvalidRoute(routing::host_under(fresh_label, base_domain)->Err_0),
                )
            }
        }),
{
    routing::dns_labels_are_accepted(spec.subdomain);
    routing::public_hosts_are_label_dot_base(fresh_label, base_domain);
    if routing::label_syntax(spec.subdomain) is Ok {
        let label = text::lower(text::trim(spec.subdomain));
        lemma_label_is_canonical(spec.subdomain);
        routing::public_hosts_are_label_dot_base(label, base_domain);
    }
}

/// A label in canonical form is its own canonical form.
proof fn lemma_label_is_canonical(label: Seq<char>)
    requires
        routing::label_syntax(label) is Ok,
    ensures
        ({
            let l = text::lower(text::trim(label));
            &&& text::trim(l) == l
            &&& text::lower(l) == l
            &&& routing::label_syntax(l) == Ok::<Seq<char>, Seq<char>>(l)
        }),
{
    let l = text::lower(text::trim(label));
    routing::dns_labels_are_accepted(label);
    assert(routing::label_char(l[0]));
    assert(routing::label_char(l[l.len() - 1]));
    routing::lemma_trim_nothing(l);
    routing::lemma_lower_twice(text::trim(label));
    routing::dns_labels_are_accepted(l);
}

/// A TCP tunnel is planned under the very port asked for, from 1 to 65535, and under
/// no other.
pub proof fn tcp_tunnels_get_the_port_asked_for(node: AppState, spec: TcpTunnelSpec)
    ensures
        tcp_target(node, spec) is Ok <==> 1 <= spec.remote_port <= 65535,
        tcp_target(node, spec) matches Ok(target) ==> target.key == "tcp:"@ + text::decimal(
            spec.remote_port as nat,
        ) && target.url == "tcp://"@ + node.config.base_domain@ + ":"@ + text::decimal(
            spec.remote_port as nat,
        ),
        spec.remote_port > 65535 ==> tcp_target(node, spec) == Err::<TargetView, ErrorView>(
            ErrorView::InvalidRoute(
                "port "@ + text::decimal(spec.remote_port as nat) + " is out of range"@,
            ),
        ),
        spec.remote_port == 0 ==> tcp_target(node, spec) == Err::<TargetView, ErrorView>(
            ErrorView::InvalidRoute(
                "automatic TCP port assignment is not implemented yet; pass --remote-port"@,
            ),
        ),
{
}

/// An HTTP tunnel is planned under its host, and shown under that host with the
/// configured scheme.
pub proof fn http_tunnels_are_shown_under_their_host(
    node: AppState,
    principal: PrincipalView,
    spec: HttpSpecView,
    fresh_label: Seq<char>,
)
    ensures
        ({
            let target = http_target(node, principal, spec, fresh_label);
            let host = requested_host(node.config.base_domain@, principal, spec, fresh_label);
            &&& target is Ok <==> host is Ok
            &&& target is Ok ==> target->Ok_0.key == host->Ok_0 && target->Ok_0.url
                == node.config.public_scheme@ + "://"@ + host->Ok_0
            &&& target is Err ==> target->Err_0 == host->Err_0
        }),
{
}

/// A request is planned exactly where the account has room for another tunnel and may
/// have what it asks for. What is claimed is that target, for this session, tunnel,
/// account and node; a request that is not planned is rejected with a reason.
pub proof fn requests_within_the_limits_are_planned(
    node: AppState,
    s: SessionView,
    open: OpenTunnelView,
    fresh_label: Seq<char>,
    tunnel_id: Seq<char>,
)
    ensures
        ({
            let plan = planned(node, s, open, fresh_label, tunnel_id);
            let max = s.principal.limits.max_tunnels;
            let full = max > 0 && max <= s.tunnels.dom().len();
            let target = match open.spec {
                Some(SpecView::Http(spec)) => http_target(node, s.principal, spec, fresh_label),
                Some(SpecView::Tcp(spec)) => tcp_target(node, spec),
                None => Err(ErrorView::Internal("OpenTunnel is missing a spec"@)),
            };
            &&& plan is Ok <==> !full && target is Ok
            &&& plan matches Ok(p) ==> {
                &&& p.request_id == open.request_id
                &&& p.public_url == target->Ok_0.url
                &&& p.record.routing_key == target->Ok_0.key
                &&& p.record.node_id == node.node_id@
                &&& p.record.node_addr == node.node_addr@
                &&& p.record.session_id == s.id
                &&& p.record.tunnel_id == tunnel_id
                &&& p.record.account_id == s.principal.account_id
            }
            &&& plan matches Err(status) ==> {
                &&& !status.accepted
                &&& status.request_id == open.request_id
                &&& status.tunnel_id.len() == 0
                &&& status.public_url.len() == 0
                &&& status.routing_key.len() == 0
                &&& full ==> status.error == "account is limited to "@ + text::decimal(max as nat)
                    + " concurrent tunnels"@
                &&& !full && open.spec is Some ==> status.error == target->Err_0.sentence()
                &&& !full && open.spec is None ==> status.error == "OpenTunnel is missing a spec"@
            }
        }),
{
}

/// A tunnel is accepted exactly where the table granted its claim. It then stands in
/// the session under its id, and the agent is told its key and URL; otherwise the
/// session stays as it is, and the agent is told the reason.
pub proof fn tunnels_are_accepted_as_the_table_says(
    s: SessionView,
    plan: PlanView,
    answer: Result<ClaimView, ErrorView>,
    other: Seq<char>,
)
    requires
        other != plan.record.tunnel_id,
    ensures
        ({
            let status = settled(plan, answer);
            let after = after_settling(s, plan, answer);
            let granted = answer matches Ok(ClaimView::Acquired);
            &&& status.request_id == plan.request_id
            &&& status.accepted <==> granted
            &&& granted ==> {
                &&& status.tunnel_id == plan.record.tunnel_id
                &&& status.public_url == plan.public_url
                &&& status.routing_key == plan.record.routing_key
                &&& status.error.len() == 0
                &&& after.tunnels.dom().contains(plan.record.tunnel_id)
                &&& after.tunnels[plan.record.tunnel_id].tunnel_id == plan.record.tunnel_id
                &&& after.tunnels[plan.record.tunnel_id].routing_key == plan.record.routing_key
                &&& after.tunnels[plan.record.tunnel_id].public_url == plan.public_url
                &&& after.tunnels.dom().contains(other) <==> s.tunnels.dom().contains(other)
                &&& s.tunnels.dom().contains(other) ==> after.tunnels[other] == s.tunnels[other]
                &&& after.streams == s.streams
                &&& after.id == s.id
                &&& after.principal == s.principal
                &&& after.next_stream_id == s.next_stream_id
                &&& after.node_id == s.node_id
                &&& after.initial_window == s.initial_window
            }
            &&& !granted ==> after == s
            &&& answer matches Ok(ClaimView::Taken(owner)) ==> status.error == "routing key `"@ + (
            plan.record.routing_key + " (held by session "@ + owner.session_id + " on node "@
                + owner.node_id + ")"@) + "` is already claimed"@
            &&& answer matches Err(e) ==> status.error == e.sentence()
        }),
{
}

/// A registration asks the table for exactly what was planned, and for nothing where
/// nothing was; the answer decides what the agent is told and what the session keeps.
pub proof fn registrations_follow_plan_and_answer<R: Registry>(
    r: StatusView,
    before: SessionView,
    after: SessionView,
    plan: Result<PlanView, StatusView>,
    answer: Result<ClaimView, ErrorView>,
    table: R,
    table_after: R,
    ttl_ms: u128,
)
    requires
        registered(r, before, after, plan, answer),
        asked_to_claim(table, table_after, plan, ttl_ms, answer),
    ensures
        plan matches Err(status) ==> r == status && after == before && table_after == table,
        plan matches Ok(p) ==> {
            &&& R::claims(table, p.record, ttl_ms, table_after, answer)
            &&& r == settled(p, answer)
            &&& after == after_settling(before, p, answer)
        },
{
}

/// A resolved target is handed back as described, and a refusal with its reason.
pub proof fn targets_are_handed_back(
    r: Result<(RoutingKey, String), Error>,
    expected: Result<TargetView, ErrorView>,
)
    requires
        resolves_to(r, expected),
    ensures
        r is Ok <==> expected is Ok,
        r matches Ok((key, url)) ==> key@ == expected->Ok_0.key && url@ == expected->Ok_0.url,
        r matches Err(e) ==> e@ == expected->Err_0,
{
}

/// Refusals, actions, plans, frames and endings are read as they are.
pub proof fn control_values_are_read_as_they_are(
    refusal: Refusal,
    action: Action,
    plan: PlannedTunnel,
    frame: Option<ClientFrame>,
    ending: Option<Ending>,
    code: Option<ResetCode>,
)
    ensures
        refusal@.code == refusal.code,
        refusal@.message == refusal.message@,
        action is Nothing <==> action@ is Nothing,
        action matches Action::Register(open) ==> action@ == ActionView::Register(open@),
        action matches Action::Release(tunnel) ==> action@ == ActionView::Release(tunnel@),
        action matches Action::Head(head) ==> action@ == ActionView::Head(head@),
        action matches Action::Body { stream_id, len, chunk } ==> action@ == (ActionView::Body {
            stream_id,
            len: len as nat,
            chunk: chunk@,
        }),
        action matches Action::Last { stream_id, chunk } ==> action@ == (ActionView::Last {
            stream_id,
            chunk: chunk@,
        }),
        action matches Action::Wake { stream_id } ==> action@ == (ActionView::Wake { stream_id }),
        plan@.request_id == plan.request_id@,
        plan@.record == plan.record@,
        plan@.public_url == plan.public_url@,
        frame is None ==> frame_view(frame) is None,
        frame matches Some(f) ==> frame_view(frame) == Some(f@),
        ending is None ==> ending_notice(ending) is None,
        ending matches Some(e) ==> ending_notice(ending) == Some(e.notice@),
        code matches Some(c) ==> known_code(code) == c,
        code is None ==> known_code(code) == ResetCode::Unspecified,
{
}

/// Tearing a session down asks the table for nothing but the release of the session's
/// own claims, one after the other: as many steps as there are tunnels lead from the
/// table before to the table after.
pub proof fn teardown_asks_for_nothing_else<R: Registry>(
    table: R,
    table_after: R,
    before: SessionView,
    after: SessionView,
    i: int,
) -> (course: (Seq<R>, Seq<TunnelView>, Seq<Result<(), ErrorView>>))
    requires
        torn_down(table, table_after, before, after),
        before.tunnels.dom().finite(),
    ensures
        course.0.len() == before.tunnels.dom().len() + 1,
        course.0[0] == table,
        course.0.last() == table_after,
        0 <= i < before.tunnels.dom().len() ==> R::frees(
            course.0[i],
            course.1[i].routing_key,
            before.id,
            course.0[i + 1],
            course.2[i],
        ) && exists|id: Seq<char>|
            before.tunnels.dom().contains(id) && course.1[i] == #[trigger] before.tunnels[id],
{
    let (tables, list, answers) = choose|
        tables: Seq<R>,
        list: Seq<TunnelView>,
        answers: Seq<Result<(), ErrorView>>,
    | #[trigger]
        released(table, table_after, before, tables, list, answers);
    session::listed_tunnels_are_the_tables(list, before.tunnels, before.id, i);
    if 0 <= i < list.len() {
        assert(R::frees(
            tables[i],
            list[i].routing_key,
            before.id,
            tables[i + 1],
            answers[i],
        ));
    }
    (tables, list, answers)
}

} // verus!
