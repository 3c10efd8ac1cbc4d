//! Public ingress: turns an inbound HTTP request into a multiplexed tunnel
//! stream on the right agent session.
//!
//! The hot path is four steps:
//!
//! 1. Canonicalise the `Host` header into a routing key.
//! 2. Look the key up in the routing table.
//! 3. If this node owns the session, open a stream on it.
//! 4. Otherwise hand the request to the node that does.
//!
//! The last step lets a plain load balancer sit in front of the fleet: any node
//! can accept any request, because any node can reach the owner.

use bytes::Bytes;
use http::HeaderMap;
use vstd::prelude::*;
use vstd::string::*;
use vstd::utf8::*;

use crate::error::{Error, ErrorView};
use crate::fields;
use crate::payload;
use crate::proto::{
    HttpRequestHead, HttpResponseHead, ResetCode, ResponseHeadView, ServerFrame, ServerView,
};
use crate::proto;
use crate::registry::{MemoryRegistry, Registry, RouteRecord, RouteView, Row};
use crate::registry;
use crate::routing;
use crate::server::session::{
    Chunk, OpenError, Session, SessionInfo, SessionManager, StreamWriter, WriterView,
};
use crate::server::session;
use crate::server::state::AppState;
use crate::server::state;
use crate::server::tables;
use crate::server::web::{EdgeResponse, ResponseView};
use crate::server::web;
use crate::text;

verus! {

/// Path reserved for the edge's own endpoints, never forwarded to a tunnel.
pub const INTERNAL_PREFIX: &'static str = "/__norupo/";

/// A reasonable size of a body chunk, in bytes.
pub const INGRESS_CHUNK_HINT: usize = 65536;

/// Whether a listener may hand a request to a sibling node.
///
/// The peer listener must not: a request that already crossed a hop has reached
/// the node the routing table named, and bouncing it again would loop.
#[derive(Debug, Clone, Copy, PartialEq, Eq, Structural)]
pub enum Role {
    /// The internet-facing listener.
    Public,
    /// The internal listener that sibling nodes hand off to.
    Peer,
}

/// The head of a public request as it arrives.
#[derive(Debug)]
pub struct RequestHead {
    pub method: String,
    /// The `:authority` of an HTTP/2 request.
    pub authority: Option<String>,
    pub path: String,
    /// Path and query.
    pub target: Option<String>,
    /// Protocol version, such as `HTTP/1.1`.
    pub version: String,
    pub headers: HeaderMap,
}

/// The text of a header's first value, where the header is present and its value
/// is visible ASCII.
pub open spec fn header_text(message: Map<Seq<char>, Seq<Seq<u8>>>, name: Seq<char>) -> Option<
    Seq<char>,
> {
    if message.dom().contains(name) && fields::is_visible(message[name][0]) {
        Some(fields::ascii_text(message[name][0]))
    } else {
        None
    }
}

/// Reads the text of a header's first value.
fn read_header(headers: &HeaderMap, name: &str) -> (r: Option<String>)
    requires
        fields::is_stored_name(name@),
    ensures
        text::optional(r) == header_text(fields::fields_of(*headers), name@),
{
    match fields::get(headers, name) {
        Some(value) => fields::visible_text(value.as_slice()),
        None => None,
    }
}

/// The effective host of a request.
pub open spec fn effective_host(req: RequestHead) -> Option<Seq<char>> {
    match req.authority {
        Some(authority) => Some(authority@),
        None => header_text(fields::fields_of(req.headers), "host"@),
    }
}

/// Extracts the effective host: the `:authority` pseudo-header on HTTP/2, the
/// `Host` header on HTTP/1.1.
pub fn request_host(req: &RequestHead) -> (r: Option<String>)
    ensures
        text::optional(r) == effective_host(*req),
{
    match &req.authority {
        Some(authority) => Some(authority.clone()),
        None => {
            proof {
                reveal_strlit("host");
                assert(text::lower("host"@) =~= "host"@);
            }
            read_header(&req.headers, "host")
        },
    }
}

/// The page for a host nobody has claimed. Its extra header tells clients that
/// this is a routing miss, not a 404 of the user's own service.
pub open spec fn not_found_page(routing_key: Seq<char>) -> ResponseView {
    let page = web::page(
        404,
        "Tunnel not found"@,
        "No agent is serving <code>"@ + web::escaped(routing_key)
            + "</code>. Start one with <code>norupo http 3000 --subdomain &lt;name&gt;</code>."@,
    );
    ResponseView {
        headers: page.headers.insert(
            "x-norupo-error"@,
            seq![encode_utf8("tunnel_not_found"@)],
        ),
        ..page
    }
}

/// Renders the page for a host nobody has claimed.
pub fn tunnel_not_found(routing_key: &str) -> (r: EdgeResponse)
    ensures
        r@ == not_found_page(routing_key@),
{
    let detail = text::join3(
        "No agent is serving <code>",
        web::html_escape(routing_key).as_str(),
        "</code>. Start one with <code>norupo http 3000 --subdomain &lt;name&gt;</code>.",
    );
    let mut response = web::error_page(404, "Tunnel not found", detail.as_str());
    proof {
        reveal_strlit("x-norupo-error");
        reveal_strlit("tunnel_not_found");
        assert(text::lower("x-norupo-error"@) =~= "x-norupo-error"@);
        fields::lemma_printable_value("tunnel_not_found"@);
    }
    let _ = fields::insert(&mut response.headers, "x-norupo-error", "tunnel_not_found".as_bytes());
    response
}

/// What the edge does first with a request.
#[derive(Debug)]
pub enum Entry {
    /// Serve one of the edge's own endpoints.
    Internal,
    /// Answer at once.
    Respond(EdgeResponse),
    /// Look a key up in the routing table, then call [`route`].
    Lookup(String),
}

/// A first step by its contents.
#[verifier::ext_equal]
pub enum EntryView {
    Internal,
    Respond(ResponseView),
    Lookup(Seq<char>),
}

impl View for Entry {
    type V = EntryView;

    open spec fn view(&self) -> EntryView {
        match self {
            Entry::Internal => EntryView::Internal,
            Entry::Respond(response) => EntryView::Respond(response@),
            Entry::Lookup(key) => EntryView::Lookup(key@),
        }
    }
}

/// The page for a request without a host.
pub open spec fn missing_host_page() -> ResponseView {
    web::page(
        400,
        "Missing host"@,
        "The request did not carry a <code>Host</code> header, so the edge cannot tell which tunnel it belongs to."@,
    )
}

/// What the edge does first with a request.
pub open spec fn entry_of(req: RequestHead) -> EntryView {
    if text::begins_with(req.path@, INTERNAL_PREFIX@) {
        EntryView::Internal
    } else {
        match effective_host(req) {
            None => EntryView::Respond(missing_host_page()),
            Some(host) => match routing::canonical_host(host) {
                Err(m) => EntryView::Respond(
                    web::page(
                        400,
                        "Invalid host"@,
                        web::escaped(ErrorView::InvalidRoute(m).sentence()),
                    ),
                ),
                Ok(key) => EntryView::Lookup(key),
            },
        }
    }
}

/// Decides what to do first with a request.
pub fn enter(req: &RequestHead) -> (r: Entry)
    ensures
        r@ == entry_of(*req),
{
    if text::after_prefix(req.path.as_str(), INTERNAL_PREFIX).is_some() {
        return Entry::Internal;
    }
    let host = match request_host(req) {
        Some(host) => host,
        None => {
            return Entry::Respond(
                web::error_page(
                    400,
                    "Missing host",
                    "The request did not carry a <code>Host</code> header, so the edge cannot tell which tunnel it belongs to.",
                ),
            );
        },
    };
    match routing::normalize_host(host.as_str()) {
        Ok(key) => Entry::Lookup(key),
        Err(e) => Entry::Respond(
            web::error_page(
                400,
                "Invalid host",
                web::html_escape(e.to_string().as_str()).as_str(),
            ),
        ),
    }
}

/// What the edge does with a request once the routing table has spoken.
#[derive(Debug)]
pub enum Route {
    /// Answer at once.
    Respond(EdgeResponse),
    /// Release a claim of this node's whose session is gone, then answer.
    Release { session_id: String, response: EdgeResponse },
    /// Forward over a session of this node.
    Local(RouteRecord),
    /// Hand over to the node that owns the tunnel.
    HandOff(RouteRecord),
}

/// A route by its contents.
#[verifier::ext_equal]
pub enum DecisionView {
    Respond(ResponseView),
    Release { session_id: Seq<char>, response: ResponseView },
    Local(RouteView),
    HandOff(RouteView),
}

impl View for Route {
    type V = DecisionView;

    open spec fn view(&self) -> DecisionView {
        match self {
            Route::Respond(response) => DecisionView::Respond(response@),
            Route::Release { session_id, response } => DecisionView::Release {
                session_id: session_id@,
                response: response@,
            },
            Route::Local(record) => DecisionView::Local(record@),
            Route::HandOff(record) => DecisionView::HandOff(record@),
        }
    }
}

/// The page for a routing table that did not answer.
pub open spec fn no_table_page() -> ResponseView {
    web::page(
        502,
        "Routing unavailable"@,
        "The edge could not reach its routing table. This is a server-side problem; retry shortly."@,
    )
}

/// The page for a request that would cross a second hop.
pub open spec fn loop_page() -> ResponseView {
    web::page(
        508,
        "Routing loop"@,
        "The edge cluster disagreed about which node owns this tunnel. Retry in a moment."@,
    )
}

/// What the edge does with a request once the routing table has spoken.
///
/// A record of this node leads to its session. Where that is gone, the claim is
/// this node's to clean up. A record of another node leads there, once: a
/// request that already crossed a hop is refused.
pub open spec fn decision(
    node_id: Seq<char>,
    role: Role,
    message: Map<Seq<char>, Seq<Seq<u8>>>,
    routing_key: Seq<char>,
    answer: Result<Option<RouteView>, ErrorView>,
    sessions: Set<Seq<char>>,
) -> DecisionView {
    match answer {
        Err(_) => DecisionView::Respond(no_table_page()),
        Ok(None) => DecisionView::Respond(not_found_page(routing_key)),
        Ok(Some(record)) => if record.node_id == node_id {
            if sessions.contains(record.session_id) {
                DecisionView::Local(record)
            } else {
                DecisionView::Release {
                    session_id: record.session_id,
                    response: not_found_page(routing_key),
                }
            }
        } else if role == Role::Peer || message.dom().contains(web::HOP_HEADER@) {
            DecisionView::Respond(loop_page())
        } else {
            DecisionView::HandOff(record)
        },
    }
}

/// Decides what to do with a request once the routing table has spoken.
pub fn route(
    node: &AppState,
    role: Role,
    req: &RequestHead,
    routing_key: &str,
    answer: Result<Option<RouteRecord>, Error>,
    sessions: &SessionManager,
) -> (r: Route)
    requires
        sessions.wf(),
    ensures
        r@ == decision(
            node.node_id@,
            role,
            fields::fields_of(req.headers),
            routing_key@,
            registry::lookup_view(answer),
            sessions@.dom(),
        ),
{
    let record = match answer {
        Ok(Some(record)) => record,
        Ok(None) => return Route::Respond(tunnel_not_found(routing_key)),
        Err(_) => {
            return Route::Respond(
                web::error_page(
                    502,
                    "Routing unavailable",
                    "The edge could not reach its routing table. This is a server-side problem; retry shortly.",
                ),
            );
        },
    };
    // The common case: this node holds the agent session of the tunnel.
    if text::same(record.node_id.as_str(), node.node_id.as_str()) {
        if sessions.get(record.session_id.as_str()).is_some() {
            return Route::Local(record);
        }
        return Route::Release {
            session_id: record.session_id,
            response: tunnel_not_found(routing_key),
        };
    }
    proof {
        reveal_strlit("x-norupo-hop");
        assert(text::lower("x-norupo-hop"@) =~= "x-norupo-hop"@);
    }
    if role == Role::Peer || fields::contains(&req.headers, web::HOP_HEADER) {
        return Route::Respond(
            web::error_page(
                508,
                "Routing loop",
                "The edge cluster disagreed about which node owns this tunnel. Retry in a moment.",
            ),
        );
    }
    Route::HandOff(record)
}

/// A request crosses at most one hop: one that arrives from a sibling, or that
/// carries the hop header, is never handed on.
pub proof fn one_hop_only(
    node_id: Seq<char>,
    role: Role,
    message: Map<Seq<char>, Seq<Seq<u8>>>,
    routing_key: Seq<char>,
    answer: Result<Option<RouteView>, ErrorView>,
    sessions: Set<Seq<char>>,
)
    requires
        role == Role::Peer || message.dom().contains(web::HOP_HEADER@),
    ensures
        !(decision(node_id, role, message, routing_key, answer, sessions) is HandOff),
{
}

/// What an endpoint of the edge answers.
#[derive(Debug)]
pub enum Internal {
    /// A finished answer.
    Respond(EdgeResponse),
    /// The health of the node, as JSON.
    Health { node_id: String, node_addr: String, version: String, sessions: usize, tunnels: usize },
    /// The sessions of the node, as JSON.
    Tunnels(Vec<(String, SessionInfo)>),
}

/// The answer to a load balancer's probe on the public listener.
pub open spec fn probe_answer() -> ResponseView {
    ResponseView {
        status: 200,
        headers: fields::nothing().insert(
            "content-type"@,
            seq![encode_utf8("text/plain; charset=utf-8"@)],
        ),
        body: "ok\n"@,
    }
}

/// Serves the edge's own endpoints.
///
/// The public listener answers a probe with a bare success; only the internal
/// listener reveals topology.
pub fn internal_endpoint(
    node: &AppState,
    role: Role,
    path: &str,
    sessions: &SessionManager,
) -> (r: Internal)
    requires
        sessions.wf(),
    ensures
        ({
            let endpoint = text::without_trailing(path@, '/');
            if endpoint == "/__norupo/healthz"@ && role == Role::Public {
                r matches Internal::Respond(response) && response@ == probe_answer()
            } else if endpoint == "/__norupo/healthz"@ {
                &&& r matches Internal::Health { node_id, node_addr, version, sessions: s, tunnels }
                &&& node_id@ == node.node_id@
                &&& node_addr@ == node.node_addr@
                &&& version@ == state::VERSION@
                &&& s == sessions@.dom().len()
                &&& session::tunnels_in(sessions@) <= usize::MAX ==> tunnels == session::tunnels_in(
                    sessions@,
                )
                &&& session::tunnels_in(sessions@) > usize::MAX ==> tunnels == usize::MAX
            } else if endpoint == "/__norupo/tunnels"@ && role == Role::Peer {
                &&& r matches Internal::Tunnels(list)
                &&& tables::enumerates_names(tables::names(list@), sessions@.dom())
                &&& forall|i: int|
                    0 <= i < list@.len() ==> session::sums_up(
                        (#[trigger] list@[i]).1@,
                        sessions@[list@[i].0@],
                    )
            } else {
                r matches Internal::Respond(response) && response@ == web::page(
                    404,
                    "Not found"@,
                    "Unknown edge endpoint."@,
                )
            }
        }),
{
    let endpoint = text::trim_trailing(path, '/');
    let health = text::same(endpoint, "/__norupo/healthz");
    if health && role == Role::Public {
        let mut headers = fields::no_fields();
        proof {
            reveal_strlit("content-type");
            reveal_strlit("text/plain; charset=utf-8");
            assert(text::lower("content-type"@) =~= "content-type"@);
            fields::lemma_printable_value("text/plain; charset=utf-8"@);
        }
        let _ = fields::insert(
            &mut headers,
            "content-type",
            "text/plain; charset=utf-8".as_bytes(),
        );
        return Internal::Respond(EdgeResponse { status: 200, headers, body: "ok\n".to_owned() });
    }
    if health {
        return Internal::Health {
            node_id: node.node_id.clone(),
            node_addr: node.node_addr.clone(),
            version: node.version().to_owned(),
            sessions: sessions.len(),
            tunnels: sessions.tunnel_count(),
        };
    }
    if text::same(endpoint, "/__norupo/tunnels") && role == Role::Peer {
        return Internal::Tunnels(sessions.snapshot());
    }
    Internal::Respond(web::error_page(404, "Not found", "Unknown edge endpoint."))
}

/// What becomes of a request.
#[derive(Debug)]
pub enum Handled {
    /// One of the edge's own endpoints.
    Internal,
    /// An answer of the edge.
    Respond(EdgeResponse),
    /// To be forwarded over a session of this node.
    Local(RouteRecord),
    /// To be handed over to the node that owns the tunnel.
    HandOff(RouteRecord),
}

/// A request's fate by its contents.
#[verifier::ext_equal]
pub enum HandledView {
    Internal,
    Respond(ResponseView),
    Local(RouteView),
    HandOff(RouteView),
}

impl View for Handled {
    type V = HandledView;

    open spec fn view(&self) -> HandledView {
        match self {
            Handled::Internal => HandledView::Internal,
            Handled::Respond(response) => HandledView::Respond(response@),
            Handled::Local(record) => HandledView::Local(record@),
            Handled::HandOff(record) => HandledView::HandOff(record@),
        }
    }
}

/// What becomes of a request by a decision.
pub open spec fn fate(decision: DecisionView) -> HandledView {
    match decision {
        DecisionView::Respond(response) => HandledView::Respond(response),
        DecisionView::Release { response, .. } => HandledView::Respond(response),
        DecisionView::Local(record) => HandledView::Local(record),
        DecisionView::HandOff(record) => HandledView::HandOff(record),
    }
}

/// Whether a request was routed by the answer of the routing table: the table was
/// asked for the key, the answer decided, and a claim that the decision gives up
/// was released.
pub open spec fn routed_by<R: Registry>(
    table: R,
    table_after: R,
    handled: HandledView,
    node_id: Seq<char>,
    role: Role,
    message: Map<Seq<char>, Seq<Seq<u8>>>,
    routing_key: Seq<char>,
    sessions: Set<Seq<char>>,
    looked: R,
    answer: Result<Option<RouteView>, ErrorView>,
    released: Result<(), ErrorView>,
) -> bool {
    let decided = decision(node_id, role, message, routing_key, answer, sessions);
    &&& R::finds(table, routing_key, looked, answer)
    &&& handled == fate(decided)
    &&& match decided {
        DecisionView::Release { session_id, .. } => R::frees(
            looked,
            routing_key,
            session_id,
            table_after,
            released,
        ),
        _ => table_after == looked,
    }
}

/// Whether a request was routed by what the routing table says of a key.
pub open spec fn looked_up<R: Registry>(
    table: R,
    table_after: R,
    handled: HandledView,
    node_id: Seq<char>,
    role: Role,
    message: Map<Seq<char>, Seq<Seq<u8>>>,
    routing_key: Seq<char>,
    sessions: Set<Seq<char>>,
) -> bool {
    exists|
        looked: R,
        answer: Result<Option<RouteView>, ErrorView>,
        released: Result<(), ErrorView>,
    | #[trigger]
        routed_by(
            table,
            table_after,
            handled,
            node_id,
            role,
            message,
            routing_key,
            sessions,
            looked,
            answer,
            released,
        )
}

/// Routes one request: to one of the edge's own endpoints, to an answer, to a
/// session of this node, or to a sibling. A claim of this node's whose session is
/// gone is released on the way.
pub fn handle<R: Registry>(
    node: &AppState,
    role: Role,
    req: &RequestHead,
    table: &mut R,
    sessions: &SessionManager,
) -> (r: Handled)
    requires
        sessions.wf(),
    ensures
        r is Internal <==> text::begins_with(req.path@, "/__norupo/"@),
        !text::begins_with(req.path@, "/__norupo/"@) ==> match effective_host(*req) {
            Some(host) => match routing::canonical_host(host) {
                Ok(key) => looked_up(
                    *old(table),
                    *final(table),
                    r@,
                    node.node_id@,
                    role,
                    fields::fields_of(req.headers),
                    key,
                    sessions@.dom(),
                ),
                Err(_) => r@ matches HandledView::Respond(page) && page.status == 400
                    && *final(table) == *old(table),
            },
            None => r@ matches HandledView::Respond(page) && page.status == 400 && *final(table)
                == *old(table),
        },
        entry_of(*req) is Internal ==> r is Internal && *final(table) == *old(table),
        entry_of(*req) is Respond ==> r@ == HandledView::Respond(entry_of(*req)->Respond_0)
            && *final(table) == *old(table),
        entry_of(*req) is Lookup ==> exists|
            looked: R,
            answer: Result<Option<RouteView>, ErrorView>,
            released: Result<(), ErrorView>,
        | #[trigger]
            routed_by(
                *old(table),
                *final(table),
                r@,
                node.node_id@,
                role,
                fields::fields_of(req.headers),
                entry_of(*req)->Lookup_0,
                sessions@.dom(),
                looked,
                answer,
                released,
            ),
{
    let key = match enter(req) {
        Entry::Internal => return Handled::Internal,
        Entry::Respond(response) => return Handled::Respond(response),
        Entry::Lookup(key) => key,
    };
    let answer = table.lookup(key.as_str());
    let ghost looked = *table;
    let ghost said = registry::lookup_view(answer);
    let routed = route(node, role, req, key.as_str(), answer, sessions);
    let ghost mut released: Result<(), ErrorView> = Ok(());
    let handled = match routed {
        Route::Respond(response) => Handled::Respond(response),
        Route::Release { session_id, response } => {
            let outcome = table.release(key.as_str(), session_id.as_str());
            proof {
                released = registry::release_view(outcome);
            }
            Handled::Respond(response)
        },
        Route::Local(record) => Handled::Local(record),
        Route::HandOff(record) => Handled::HandOff(record),
    };
    assert(routed_by(
        *old(table),
        *table,
        handled@,
        node.node_id@,
        role,
        fields::fields_of(req.headers),
        entry_of(*req)->Lookup_0,
        sessions@.dom(),
        looked,
        said,
        released,
    ));
    assert(looked_up(
        *old(table),
        *table,
        handled@,
        node.node_id@,
        role,
        fields::fields_of(req.headers),
        key@,
        sessions@.dom(),
    ));
    handled
}

/// What was registered is what a request reaches. While the claim lives, a request
/// for the host goes to the session that registered it on the node that has the
/// session, and is handed to that node by every other one that is not asked by a
/// sibling.
pub proof fn requests_reach_the_registered_tunnel(
    rows: Map<Seq<char>, Row>,
    record: RouteView,
    ttl_ms: int,
    now: int,
    later: int,
    req: RequestHead,
    node_id: Seq<char>,
    role: Role,
    sessions: Set<Seq<char>>,
)
    requires
        registry::claim_answer(rows, now, record) is Acquired,
        later < registry::expiry(now, ttl_ms),
        entry_of(req) == EntryView::Lookup(record.routing_key),
        record.node_id == node_id ==> sessions.contains(record.session_id),
        record.node_id != node_id ==> role == Role::Public && !fields::fields_of(
            req.headers,
        ).dom().contains(web::HOP_HEADER@),
    ensures
        decision(
            node_id,
            role,
            fields::fields_of(req.headers),
            record.routing_key,
            Ok(
                registry::lookup_answer(
                    registry::after_claim(rows, now, record, ttl_ms),
                    later,
                    record.routing_key,
                ),
            ),
            sessions,
        ) == if record.node_id == node_id {
            DecisionView::Local(record)
        } else {
            DecisionView::HandOff(record)
        },
{
    registry::granted_claims_are_found(rows, record, ttl_ms, now, later);
}

/// No request reaches the tunnel of another key: what a table whose rows stand
/// under their keys answers leads to a tunnel of the key that was asked for.
pub proof fn requests_stay_with_their_key(
    rows: Map<Seq<char>, Row>,
    now: int,
    node_id: Seq<char>,
    role: Role,
    message: Map<Seq<char>, Seq<Seq<u8>>>,
    routing_key: Seq<char>,
    sessions: Set<Seq<char>>,
)
    requires
        registry::well_keyed(rows),
    ensures
        match decision(
            node_id,
            role,
            message,
            routing_key,
            Ok(registry::lookup_answer(rows, now, routing_key)),
            sessions,
        ) {
            DecisionView::Local(record) => record.routing_key == routing_key && record.node_id
                == node_id && sessions.contains(record.session_id),
            DecisionView::HandOff(record) => record.routing_key == routing_key && record.node_id
                != node_id,
            _ => true,
        },
{
    if registry::live(rows, now).dom().contains(routing_key) {
        assert(rows.dom().contains(routing_key));
    }
}

/// A claim whose session is gone is cleaned up: the request is told that there is
/// no tunnel, and the next one finds no row.
pub proof fn stale_claims_are_cleaned_up(
    table: MemoryRegistry,
    table_after: MemoryRegistry,
    handled: HandledView,
    node_id: Seq<char>,
    role: Role,
    message: Map<Seq<char>, Seq<Seq<u8>>>,
    routing_key: Seq<char>,
    sessions: Set<Seq<char>>,
    looked: MemoryRegistry,
    record: RouteView,
    released: Result<(), ErrorView>,
    later: int,
)
    requires
        routed_by(
            table,
            table_after,
            handled,
            node_id,
            role,
            message,
            routing_key,
            sessions,
            looked,
            Ok(Some(record)),
            released,
        ),
        record.node_id == node_id,
        !sessions.contains(record.session_id),
    ensures
        handled == HandledView::Respond(not_found_page(routing_key)),
        registry::lookup_answer(table_after@, later, routing_key) is None,
{
    let now = choose|now: int|
        0 <= now <= registry::MAX_CLOCK && looked@ == registry::live(table@, now) && Ok::<
            Option<RouteView>,
            ErrorView,
        >(Some(record)) == Ok::<Option<RouteView>, ErrorView>(
            #[trigger] registry::lookup_answer(table@, now, routing_key),
        );
    assert(registry::held_by(looked@, routing_key, record.session_id));
}

/// A text, or the empty one where there is none.
pub open spec fn or_empty(s: Option<Seq<char>>) -> Seq<char> {
    match s {
        Some(s) => s,
        None => Seq::empty(),
    }
}

/// The target of a request: its path and query, or the root.
pub open spec fn target_of(req: RequestHead) -> Seq<char> {
    match req.target {
        Some(target) => target@,
        None => "/"@,
    }
}

/// Whether a head is that of a request on its way to the agent: everything of the
/// request but the headers that are for this hop only.
pub open spec fn head_of(head: HttpRequestHead, req: RequestHead) -> bool {
    &&& head.method@ == req.method@
    &&& head.path@ == target_of(req)
    &&& head.authority@ == or_empty(effective_host(req))
    &&& head.version@ == req.version@
    &&& head.upgrade@ == or_empty(header_text(fields::fields_of(req.headers), "upgrade"@))
    &&& head@.headers == web::passed_on(
        fields::listing_of(req.headers),
        fields::fields_of(req.headers),
    )
    &&& forall|name: Seq<char>| #[trigger]
        fields::values_for(head@.headers, name) == if web::for_this_hop(
            fields::fields_of(req.headers),
            text::lower(name),
        ) {
            Seq::empty()
        } else {
            fields::values_under(fields::fields_of(req.headers), name)
        }
}

/// Builds the head that travels to the agent: everything of the request but the
/// headers that are for this hop only.
pub fn tunnel_head(req: &RequestHead) -> (r: HttpRequestHead)
    ensures
        head_of(r, *req),
{
    let path = match &req.target {
        Some(target) => target.clone(),
        None => "/".to_owned(),
    };
    let authority = match request_host(req) {
        Some(host) => host,
        None => String::new(),
    };
    proof {
        reveal_strlit("upgrade");
        assert(text::lower("upgrade"@) =~= "upgrade"@);
    }
    let upgrade = match read_header(&req.headers, "upgrade") {
        Some(value) => value,
        None => String::new(),
    };
    assert(authority@ =~= or_empty(effective_host(*req)));
    assert(upgrade@ =~= or_empty(header_text(fields::fields_of(req.headers), "upgrade"@)));
    HttpRequestHead {
        method: req.method.clone(),
        path,
        authority,
        headers: web::sanitize_headers(&req.headers),
        version: req.version.clone(),
        upgrade,
    }
}

/// The answer to a request for which no stream could be opened.
pub fn open_refused(record: &RouteRecord, error: OpenError) -> (r: EdgeResponse)
    ensures
        r@ == match error {
            OpenError::SessionGone => not_found_page(record@.routing_key),
            OpenError::TooManyStreams(limit) => web::page(
                503,
                "Too many concurrent requests"@,
                "This tunnel is limited to "@ + text::decimal(limit as nat)
                    + " concurrent requests."@,
            ),
        },
{
    match error {
        OpenError::SessionGone => tunnel_not_found(record.routing_key.as_str()),
        OpenError::TooManyStreams(limit) => {
            let detail = text::join3(
                "This tunnel is limited to ",
                text::to_decimal(limit as u64).as_str(),
                " concurrent requests.",
            );
            web::error_page(503, "Too many concurrent requests", detail.as_str())
        },
    }
}

/// Opens a stream for a request on the session that serves it. Where the frame
/// cannot be sent, [`Session::abandon_stream`] and [`open_refused`] follow.
pub fn forward_local(
    session: &mut Session,
    record: &RouteRecord,
    req: &RequestHead,
    remote_addr: String,
) -> (r: Result<session::StreamResponse, EdgeResponse>)
    requires
        old(session).wf(),
        old(session)@.next_stream_id < u64::MAX,
    ensures
        final(session).wf(),
        if old(session)@.at_stream_limit() {
            &&& r matches Err(response)
            &&& response@ == web::page(
                503,
                "Too many concurrent requests"@,
                "This tunnel is limited to "@ + text::decimal(
                    old(session)@.principal.limits.max_concurrent_streams as nat,
                ) + " concurrent requests."@,
            )
            &&& final(session)@ == old(session)@
        } else {
            &&& r matches Ok(opened)
            &&& opened.stream_id == old(session)@.next_stream_id
            &&& final(session)@ == old(session)@.with_new_stream()
            &&& exists|head: HttpRequestHead|
                head_of(head, *req) && opened.frame@ == #[trigger] old(session)@.open_frame(
                    record@.tunnel_id,
                    head@,
                    remote_addr@,
                )
        },
{
    let head = tunnel_head(req);
    let ghost before = session@;
    let ghost sent = head;
    match session.open_http_stream(record.tunnel_id.as_str(), head, remote_addr) {
        Ok(opened) => {
            assert(opened.frame@ == before.open_frame(record@.tunnel_id, sent@, remote_addr@));
            Ok(opened)
        },
        Err(error) => Err(open_refused(record, error)),
    }
}

/// What the body of a public request gives next.
#[derive(Debug)]
pub enum BodyEvent {
    /// Bytes.
    Data(Bytes),
    /// A frame that carries no bytes.
    Other,
    /// The client failed.
    Failed,
    /// The end.
    End,
}

/// What to do about it.
#[derive(Debug)]
pub enum PumpStep {
    /// Send these bytes as the window allows, then go on.
    Write(StreamWriter),
    /// Go on.
    Skip,
    /// Stop: the stream is gone.
    Stop,
    /// Send this frame and stop.
    Last(ServerFrame),
}

/// Pumps the body of a public request towards the agent, event by event.
pub fn pump(session: &mut Session, stream_id: u64, event: BodyEvent) -> (r: PumpStep)
    requires
        old(session).wf(),
    ensures
        final(session).wf(),
        match event {
            BodyEvent::Data(bytes) => final(session)@ == old(session)@ && if payload::bytes_of(
                bytes,
            ).len() == 0 {
                r is Skip
            } else if old(session)@.has_stream(stream_id) {
                r matches PumpStep::Write(writer) && writer.wf() && writer@ == (WriterView {
                    stream_id,
                    rest: session::chunked(payload::bytes_of(bytes)),
                })
            } else {
                r is Stop
            },
            BodyEvent::Other => r is Skip && final(session)@ == old(session)@,
            BodyEvent::Failed => final(session)@ == old(session)@.without_stream(stream_id) && (
            r matches PumpStep::Last(frame) && frame@ == (ServerView::Reset {
                stream_id,
                code: Some(ResetCode::PeerClosed),
                message: "client body error"@,
            })),
            BodyEvent::End => final(session)@ == old(session)@ && (r matches PumpStep::Last(frame)
                && frame@ == (ServerView::End { stream_id, trailers: Seq::empty() })),
        },
{
    match event {
        BodyEvent::Data(bytes) => {
            if payload::length(&bytes) == 0 {
                return PumpStep::Skip;
            }
            match session.send_stream_data(stream_id, bytes) {
                Some(writer) => PumpStep::Write(writer),
                None => PumpStep::Stop,
            }
        },
        BodyEvent::Other => PumpStep::Skip,
        BodyEvent::Failed => PumpStep::Last(
            session.reset_stream(stream_id, ResetCode::PeerClosed, "client body error"),
        ),
        BodyEvent::End => PumpStep::Last(session.send_stream_end(stream_id)),
    }
}

/// The last digits of a number of milliseconds below a second, without trailing
/// zeros.
pub open spec fn fraction(ms: nat) -> Seq<char> {
    if ms % 100 == 0 {
        seq![text::digit(ms / 100)]
    } else if ms % 10 == 0 {
        seq![text::digit(ms / 100), text::digit(ms / 10 % 10)]
    } else {
        seq![text::digit(ms / 100), text::digit(ms / 10 % 10), text::digit(ms % 10)]
    }
}

/// A time in milliseconds as it is shown to people: `30s`, `1.5s`, `250ms`.
pub open spec fn shown_time(ms: u64) -> Seq<char> {
    if ms == 0 {
        "0ns"@
    } else if ms < 1000 {
        text::decimal(ms as nat) + "ms"@
    } else if ms % 1000 == 0 {
        text::decimal((ms / 1000) as nat) + "s"@
    } else {
        text::decimal((ms / 1000) as nat) + "."@ + fraction((ms % 1000) as nat) + "s"@
    }
}

/// Writes a time in milliseconds as it is shown to people.
pub fn show_time(ms: u64) -> (r: String)
    ensures
        r@ == shown_time(ms),
{
    if ms == 0 {
        return "0ns".to_owned();
    }
    if ms < 1000 {
        return text::join2(text::to_decimal(ms).as_str(), "ms");
    }
    let seconds = text::to_decimal(ms / 1000);
    let rest: u64 = ms % 1000;
    if rest == 0 {
        return text::join2(seconds.as_str(), "s");
    }
    let mut out = text::join2(seconds.as_str(), ".");
    let ghost head = out@;
    out.push(((rest / 100) as u8 + 48) as char);
    if rest % 100 != 0 {
        out.push(((rest / 10 % 10) as u8 + 48) as char);
        if rest % 10 != 0 {
            out.push(((rest % 10) as u8 + 48) as char);
        }
    }
    assert(out@ =~= head + fraction(rest as nat));
    out.append("s");
    out
}

/// How the wait for an agent's response head ended.
#[derive(Debug)]
pub enum HeadOutcome {
    /// The head came.
    Head(HttpResponseHead),
    /// The agent reset the stream instead of answering.
    Dropped,
    /// The time was up.
    TimedOut,
}

/// An answer in place of the tunnel's, and what the agent is told.
#[derive(Debug)]
pub struct HeadFailure {
    pub response: EdgeResponse,
    pub frame: Option<ServerFrame>,
}

/// The page for an agent that could not reach the local service.
pub open spec fn unreachable_page() -> ResponseView {
    web::page(
        502,
        "Local service unreachable"@,
        "The agent could not reach the local service it is forwarding to."@,
    )
}

/// The page for a local service that did not respond in time.
pub open spec fn timeout_page(timeout_ms: u64) -> ResponseView {
    web::page(
        504,
        "Tunnel timed out"@,
        "The local service did not respond within "@ + shown_time(timeout_ms) + "."@,
    )
}

/// The answer for an agent that could not reach the local service.
pub fn local_unreachable() -> (r: EdgeResponse)
    ensures
        r@ == unreachable_page(),
{
    web::error_page(
        502,
        "Local service unreachable",
        "The agent could not reach the local service it is forwarding to.",
    )
}

/// The answer for a local service that did not respond in time.
pub fn timed_out(node: &AppState) -> (r: EdgeResponse)
    ensures
        r@ == timeout_page(node.config.response_timeout_ms),
{
    let detail = text::join3(
        "The local service did not respond within ",
        show_time(node.config.response_timeout()).as_str(),
        ".",
    );
    web::error_page(504, "Tunnel timed out", detail.as_str())
}

/// Takes the end of the wait for a response head.
pub fn on_head_outcome(
    node: &AppState,
    session: &mut Session,
    stream_id: u64,
    outcome: HeadOutcome,
) -> (r: Result<HttpResponseHead, HeadFailure>)
    requires
        old(session).wf(),
    ensures
        final(session).wf(),
        match outcome {
            HeadOutcome::Head(head) => (r matches Ok(h) && h == head) && final(session)@ == old(
                session,
            )@,
            HeadOutcome::Dropped => {
                &&& r matches Err(failure)
                &&& failure.response@ == unreachable_page()
                &&& failure.frame is None
                &&& final(session)@ == old(session)@.without_stream(stream_id)
            },
            HeadOutcome::TimedOut => {
                &&& r matches Err(failure)
                &&& failure.response@ == timeout_page(node.config.response_timeout_ms)
                &&& failure.frame matches Some(frame)
                &&& frame@ == (ServerView::Reset {
                    stream_id,
                    code: Some(ResetCode::Timeout),
                    message: "edge response timeout"@,
                })
                &&& final(session)@ == old(session)@.without_stream(stream_id)
            },
        },
{
    match outcome {
        HeadOutcome::Head(head) => Ok(head),
        HeadOutcome::Dropped => {
            let _ = session.close_stream(stream_id);
            Err(HeadFailure { response: local_unreachable(), frame: None })
        },
        HeadOutcome::TimedOut => {
            let frame = session.reset_stream(
                stream_id,
                ResetCode::Timeout,
                "edge response timeout",
            );
            Err(HeadFailure { response: timed_out(node), frame: Some(frame) })
        },
    }
}

/// The head of a response to a public client.
#[derive(Debug)]
pub struct ResponseHead {
    pub status: u16,
    pub headers: HeaderMap,
}

/// The status of a response: the agent's where it is one, else a bad gateway.
pub open spec fn public_status(status: u32) -> u16 {
    if 100 <= status <= 999 {
        status as u16
    } else {
        502
    }
}

/// The headers of a response: the acceptable ones of the agent's, and the number
/// of the stream.
pub open spec fn public_fields(stream_id: u64, head: ResponseHeadView) -> Map<
    Seq<char>,
    Seq<Seq<u8>>,
> {
    web::rebuilt(head.headers).insert(
        "x-norupo-stream"@,
        seq![encode_utf8(text::decimal(stream_id as nat))],
    )
}

/// Decimal notation is printable.
proof fn lemma_decimal_is_printable(n: nat)
    ensures
        forall|i: int|
            0 <= i < text::decimal(n).len() ==> ' ' <= #[trigger] text::decimal(n)[i] <= '~',
    decreases n,
{
    if n >= 10 {
        lemma_decimal_is_printable(n / 10);
        let head = text::decimal(n / 10);
        assert forall|i: int| 0 <= i < text::decimal(n).len() implies ' ' <= #[trigger] text::decimal(
            n,
        )[i] <= '~' by {
            if i < head.len() {
                assert(text::decimal(n)[i] == head[i]);
            } else {
                assert(text::decimal(n)[i] == text::digit(n % 10));
            }
        }
    }
}

/// Turns the agent's response head into that of the public response. `None`
/// means that the agent sent headers of more names than a response can carry.
pub fn build_response(stream_id: u64, head: &HttpResponseHead) -> (r: Option<ResponseHead>)
    ensures
        fields::fits(web::rebuilt(head@.headers)) ==> r is Some,
        r matches Some(response) ==> (100 <= head.status <= 999 ==> response.status == head.status),
        r matches Some(response) ==> (!(100 <= head.status <= 999) ==> response.status == 502),
        r matches Some(response) ==> response.status == public_status(head.status)
            && fields::fields_of(response.headers) == public_fields(stream_id, head@),
{
    let status: u16 = if 100 <= head.status && head.status <= 999 {
        head.status as u16
    } else {
        502
    };
    let mut headers = match web::to_header_map(&head.headers) {
        Some(headers) => headers,
        None => return None,
    };
    let number = text::to_decimal(stream_id);
    proof {
        reveal_strlit("x-norupo-stream");
        assert(text::lower("x-norupo-stream"@) =~= "x-norupo-stream"@);
        lemma_decimal_is_printable(stream_id as nat);
        fields::lemma_printable_value(number@);
    }
    if !fields::insert(&mut headers, "x-norupo-stream", number.as_str().as_bytes()) {
        return None;
    }
    Some(ResponseHead { status, headers })
}

/// What a chunk becomes in the body of a public response.
#[derive(Debug)]
pub enum BodyFrame {
    /// Bytes.
    Data(Bytes),
    /// Trailers.
    Trailers(HeaderMap),
    /// The body fails with this reason.
    Failed(String),
}

/// Turns a chunk into what the body of a public response gives next. `None`
/// means that the agent sent trailers of more names than a response can carry.
pub fn body_frame(chunk: Chunk) -> (r: Option<BodyFrame>)
    ensures
        match chunk {
            Chunk::Data(bytes) => r == Some(BodyFrame::Data(bytes)),
            Chunk::End(trailers) => (fields::fits(web::rebuilt(proto::header_views(trailers@)))
                ==> r is Some) && (r matches Some(frame) ==> (frame matches BodyFrame::Trailers(map)
                && fields::fields_of(map) == web::rebuilt(proto::header_views(trailers@)))),
            Chunk::Reset(code, message) => r matches Some(BodyFrame::Failed(reason)) && reason@
                == "tunnel stream reset: "@ + code.label() + ": "@ + message@,
        },
{
    match chunk {
        Chunk::Data(bytes) => Some(BodyFrame::Data(bytes)),
        Chunk::End(trailers) => match web::to_header_map(&trailers) {
            Some(map) => Some(BodyFrame::Trailers(map)),
            None => None,
        },
        Chunk::Reset(code, message) => {
            let mut reason = text::join3("tunnel stream reset: ", code.name(), ": ");
            reason.append(message.as_str());
            Some(BodyFrame::Failed(reason))
        },
    }
}

/// Releases a stream when the response body is dropped, because the client hung
/// up or everything was sent. The frame tells the agent, if there is room for it.
pub fn on_response_dropped(session: &mut Session, stream_id: u64) -> (r: ServerFrame)
    requires
        old(session).wf(),
    ensures
        final(session).wf(),
        final(session)@ == old(session)@.without_stream(stream_id),
        r@ == (ServerView::Reset {
            stream_id,
            code: Some(ResetCode::PeerClosed),
            message: "public client finished"@,
        }),
{
    session.reset_stream(stream_id, ResetCode::PeerClosed, "public client finished")
}

/// How long a response head is waited for where nothing else is configured, in
/// milliseconds.
#[must_use]
pub fn default_response_timeout() -> (r: u64)
    ensures
        r == 30_000,
{
    30_000
}

/// Only the paths under `/__norupo/` are the edge's own. Any other request is looked
/// up under the key of its host; one without a host, or with one that is none, is a
/// bad request.
pub proof fn requests_are_looked_up_by_their_host(req: RequestHead)
    ensures
        entry_of(req) is Internal <==> text::begins_with(req.path@, "/__norupo/"@),
        !text::begins_with(req.path@, "/__norupo/"@) ==> match effective_host(req) {
            Some(host) => match routing::canonical_host(host) {
                Ok(key) => entry_of(req) == EntryView::Lookup(key),
                Err(m) => entry_of(req) == EntryView::Respond(
                    web::page(
                        400,
                        "Invalid host"@,
                        web::escaped("invalid routing target: "@ + m),
                    ),
                ),
            },
            None => entry_of(req) == EntryView::Respond(missing_host_page()),
        },
{
}

/// The host of a request is its authority, where it has one, else the first value of
/// its `Host` header, where that is printable text.
pub proof fn the_authority_goes_before_the_host_header(req: RequestHead)
    ensures
        req.authority matches Some(authority) ==> effective_host(req) == Some(authority@),
        req.authority is None ==> {
            let message = fields::fields_of(req.headers);
            &&& !message.dom().contains("host"@) ==> effective_host(req) is None
            &&& message.dom().contains("host"@) ==> {
                let value = message["host"@][0];
                let text = forall|i: int|
                    0 <= i < value.len() ==> 32 <= #[trigger] value[i] <= 126 || value[i] == 9;
                &&& text ==> effective_host(req) == Some(
                    Seq::new(value.len(), |i: int| value[i] as char),
                )
                &&& !text ==> effective_host(req) is None
            }
        },
{
    let message = fields::fields_of(req.headers);
    if message.dom().contains("host"@) {
        let value = message["host"@][0];
        assert(fields::ascii_text(value) =~= Seq::new(value.len(), |i: int| value[i] as char));
    }
}

/// What the table says decides: nothing known is not found, no answer is a bad
/// gateway, a record of this node leads to its session or is given up with it, and a
/// record of another node leads there unless the request came from a sibling or
/// carries the hop header.
pub proof fn the_record_decides(
    node_id: Seq<char>,
    role: Role,
    message: Map<Seq<char>, Seq<Seq<u8>>>,
    routing_key: Seq<char>,
    answer: Result<Option<RouteView>, ErrorView>,
    sessions: Set<Seq<char>>,
)
    ensures
        ({
            let decided = decision(node_id, role, message, routing_key, answer, sessions);
            &&& answer is Err ==> decided == DecisionView::Respond(no_table_page())
            &&& answer matches Ok(None) ==> decided == DecisionView::Respond(
                not_found_page(routing_key),
            )
            &&& answer matches Ok(Some(record)) ==> {
                let here = record.node_id == node_id;
                let bounced = role == Role::Peer || message.dom().contains("x-norupo-hop"@);
                &&& here && sessions.contains(record.session_id) ==> decided == DecisionView::Local(
                    record,
                )
                &&& here && !sessions.contains(record.session_id) ==> decided == (
                DecisionView::Release {
                    session_id: record.session_id,
                    response: not_found_page(routing_key),
                })
                &&& !here && bounced ==> decided == DecisionView::Respond(loop_page())
                &&& !here && !bounced ==> decided == DecisionView::HandOff(record)
            }
        }),
{
}

/// A request that was looked up got what the table's answer to its key demands, and
/// the table was asked for nothing else but to give up a claim of this node's whose
/// session is gone.
pub proof fn requests_are_routed_by_the_answer<R: Registry>(
    table: R,
    table_after: R,
    handled: HandledView,
    node_id: Seq<char>,
    role: Role,
    message: Map<Seq<char>, Seq<Seq<u8>>>,
    routing_key: Seq<char>,
    sessions: Set<Seq<char>>,
    looked: R,
    answer: Result<Option<RouteView>, ErrorView>,
    released: Result<(), ErrorView>,
)
    requires
        routed_by(
            table,
            table_after,
            handled,
            node_id,
            role,
            message,
            routing_key,
            sessions,
            looked,
            answer,
            released,
        ),
    ensures
        R::finds(table, routing_key, looked, answer),
        answer is Err ==> handled == HandledView::Respond(no_table_page()) && table_after
            == looked,
        answer matches Ok(None) ==> handled == HandledView::Respond(not_found_page(routing_key))
            && table_after == looked,
        answer matches Ok(Some(record)) ==> {
            let here = record.node_id == node_id;
            let bounced = role == Role::Peer || message.dom().contains("x-norupo-hop"@);
            &&& here && sessions.contains(record.session_id) ==> handled == HandledView::Local(record)
                && table_after == looked
            &&& here && !sessions.contains(record.session_id) ==> handled == HandledView::Respond(
                not_found_page(routing_key),
            ) && R::frees(looked, routing_key, record.session_id, table_after, released)
            &&& !here && bounced ==> handled == HandledView::Respond(loop_page()) && table_after
                == looked
            &&& !here && !bounced ==> handled == HandledView::HandOff(record) && table_after
                == looked
        },
{
}

/// Every way a request can fail has a status of its own, and a missing tunnel is told
/// apart from a missing page of the user's own service by a header.
pub proof fn failures_have_their_status(routing_key: Seq<char>, timeout_ms: u64)
    ensures
        missing_host_page().status == 400,
        not_found_page(routing_key).status == 404,
        not_found_page(routing_key).headers.dom().contains("x-norupo-error"@),
        not_found_page(routing_key).headers["x-norupo-error"@] == seq![
            encode_utf8("tunnel_not_found"@),
        ],
        no_table_page().status == 502,
        unreachable_page().status == 502,
        timeout_page(timeout_ms).status == 504,
        loop_page().status == 508,
        probe_answer().status == 200,
        probe_answer().body == "ok\n"@,
        missing_host_page() == web::page(
            400,
            "Missing host"@,
            "The request did not carry a <code>Host</code> header, so the edge cannot tell which tunnel it belongs to."@,
        ),
        no_table_page() == web::page(
            502,
            "Routing unavailable"@,
            "The edge could not reach its routing table. This is a server-side problem; retry shortly."@,
        ),
        loop_page() == web::page(
            508,
            "Routing loop"@,
            "The edge cluster disagreed about which node owns this tunnel. Retry in a moment."@,
        ),
        ({
            let page = web::page(
                404,
                "Tunnel not found"@,
                "No agent is serving <code>"@ + web::escaped(routing_key)
                    + "</code>. Start one with <code>norupo http 3000 --subdomain &lt;name&gt;</code>."@,
            );
            let told = not_found_page(routing_key);
            &&& told.body == page.body
            &&& forall|name: Seq<char>|
                name != "x-norupo-error"@ ==> (told.headers.dom().contains(name)
                    <==> #[trigger] page.headers.dom().contains(name)) && told.headers[name]
                    == page.headers[name]
        }),
        forall|name: Seq<char>|
            #[trigger] probe_answer().headers.dom().contains(name) <==> name == "content-type"@,
        probe_answer().headers["content-type"@] == seq![encode_utf8("text/plain; charset=utf-8"@)],
        unreachable_page() == web::page(
            502,
            "Local service unreachable"@,
            "The agent could not reach the local service it is forwarding to."@,
        ),
        timeout_page(timeout_ms) == web::page(
            504,
            "Tunnel timed out"@,
            "The local service did not respond within "@ + shown_time(timeout_ms) + "."@,
        ),
{
}

/// The head that travels to the agent is the request's: its method, its path and
/// query, its host, its version, what it wants to upgrade to, and every header that
/// is not for this hop only.
pub proof fn heads_travel_as_they_came(head: HttpRequestHead, req: RequestHead, name: Seq<char>)
    requires
        head_of(head, req),
    ensures
        head.method@ == req.method@,
        head.version@ == req.version@,
        req.target matches Some(target) ==> head.path@ == target@,
        req.target is None ==> head.path@ == "/"@,
        head@.headers == web::passed_on(
            fields::listing_of(req.headers),
            fields::fields_of(req.headers),
        ),
        effective_host(req) matches Some(host) ==> head.authority@ == host,
        effective_host(req) is None ==> head.authority@.len() == 0,
        ({
            let message = fields::fields_of(req.headers);
            &&& message.dom().contains("upgrade"@) && fields::is_visible(message["upgrade"@][0])
                ==> head.upgrade@ == fields::ascii_text(message["upgrade"@][0])
            &&& !(message.dom().contains("upgrade"@) && fields::is_visible(message["upgrade"@][0]))
                ==> head.upgrade@.len() == 0
        }),
        ({
            let message = fields::fields_of(req.headers);
            let lower = text::lower(name);
            let stripped = seq![
                "connection"@,
                "keep-alive"@,
                "proxy-authenticate"@,
                "proxy-authorization"@,
                "te"@,
                "trailer"@,
                "transfer-encoding"@,
                "upgrade"@,
            ].contains(lower) || (message.dom().contains("connection"@) && web::lists(
                message["connection"@],
                lower,
            ));
            &&& stripped ==> fields::values_for(head@.headers, name).len() == 0
            &&& !stripped ==> fields::values_for(head@.headers, name) == fields::values_under(
                message,
                name,
            )
        }),
{
    let message = fields::fields_of(req.headers);
    web::end_to_end_headers_are_passed_on(
        Seq::empty(),
        proto::HeaderView { name, value: Seq::empty() },
        message,
    );
}

/// The status of a public response is the agent's own wherever that is a status, and
/// a bad gateway's elsewhere.
pub proof fn statuses_are_passed_through(status: u32)
    ensures
        100 <= status <= 999 ==> public_status(status) as int == status as int,
        status < 100 || 999 < status ==> public_status(status) == 502,
{
}

/// The headers of a public response are the rebuilt ones of the agent's, except that
/// the one that numbers the stream is the edge's own.
pub proof fn responses_carry_the_stream_number(
    stream_id: u64,
    head: ResponseHeadView,
    name: Seq<char>,
)
    ensures
        public_fields(stream_id, head).dom().contains("x-norupo-stream"@),
        public_fields(stream_id, head)["x-norupo-stream"@] == seq![
            encode_utf8(text::decimal(stream_id as nat)),
        ],
        name != "x-norupo-stream"@ ==> {
            &&& public_fields(stream_id, head).dom().contains(name) <==> web::rebuilt(
                head.headers,
            ).dom().contains(name)
            &&& fields::values_under(public_fields(stream_id, head), name) == fields::values_under(
                web::rebuilt(head.headers),
                name,
            )
        },
{
}

/// Whole seconds are shown in seconds, less than one in milliseconds, and anything
/// else as seconds with up to three decimals that say exactly how many milliseconds
/// there are.
pub proof fn times_are_shown_exactly(ms: u64) -> (decimals: Seq<char>)
    ensures
        ms == 0 ==> shown_time(ms) == "0ns"@,
        0 < ms < 1000 ==> shown_time(ms) == text::decimal(ms as nat) + "ms"@,
        ms >= 1000 && ms % 1000 == 0 ==> shown_time(ms) == text::decimal((ms / 1000) as nat) + "s"@,
        ms >= 1000 && ms % 1000 != 0 ==> {
            &&& shown_time(ms) == text::decimal((ms / 1000) as nat) + "."@ + decimals + "s"@
            &&& 1 <= decimals.len() <= 3
            &&& text::all_digits(decimals)
            &&& decimals.last() != '0'
            &&& decimals.len() == 1 ==> 100 * text::digits_value(decimals) == ms % 1000
            &&& decimals.len() == 2 ==> 10 * text::digits_value(decimals) == ms % 1000
            &&& decimals.len() == 3 ==> text::digits_value(decimals) == ms % 1000
        },
{
    let rest = (ms % 1000) as nat;
    let shown = fraction(rest);
    if ms >= 1000 && ms % 1000 != 0 {
        let a = rest / 100;
        let b = rest / 10 % 10;
        let c = rest % 10;
        let none = Seq::<char>::empty();
        text::digits_count_in_tens(none, a);
        text::digits_count_in_tens(none.push(text::digit(a)), b);
        text::digits_count_in_tens(none.push(text::digit(a)).push(text::digit(b)), c);
        assert(seq![text::digit(a)] =~= none.push(text::digit(a)));
        assert(seq![text::digit(a), text::digit(b)] =~= none.push(text::digit(a)).push(
            text::digit(b),
        ));
        assert(seq![text::digit(a), text::digit(b), text::digit(c)] =~= none.push(
            text::digit(a),
        ).push(text::digit(b)).push(text::digit(c)));
        assert(text::all_digits(none));
        assert(48 + a == a + 48 && 48 + b == b + 48 && 48 + c == c + 48);
    }
    shown
}

/// What is done with a request is read as it is.
pub proof fn outcomes_are_read_as_they_are(entry: Entry, route: Route, handled: Handled)
    ensures
        entry is Internal <==> entry@ is Internal,
        entry matches Entry::Respond(page) ==> entry@ == EntryView::Respond(page@),
        entry matches Entry::Lookup(key) ==> entry@ == EntryView::Lookup(key@),
        route matches Route::Respond(page) ==> route@ == DecisionView::Respond(page@),
        route matches Route::Release { session_id, response } ==> route@ == (
        DecisionView::Release { session_id: session_id@, response: response@ }),
        route matches Route::Local(record) ==> route@ == DecisionView::Local(record@),
        route matches Route::HandOff(record) ==> route@ == DecisionView::HandOff(record@),
        handled is Internal <==> handled@ is Internal,
        handled matches Handled::Respond(page) ==> handled@ == HandledView::Respond(page@),
        handled matches Handled::Local(record) ==> handled@ == HandledView::Local(record@),
        handled matches Handled::HandOff(record) ==> handled@ == HandledView::HandOff(record@),
{
}

/// A request that was looked up was routed by some answer of the table for its key.
pub proof fn looked_up_requests_got_an_answer<R: Registry>(
    table: R,
    table_after: R,
    handled: HandledView,
    node_id: Seq<char>,
    role: Role,
    message: Map<Seq<char>, Seq<Seq<u8>>>,
    routing_key: Seq<char>,
    sessions: Set<Seq<char>>,
) -> (found: (R, Result<Option<RouteView>, ErrorView>))
    requires
        looked_up(
            table,
            table_after,
            handled,
            node_id,
            role,
            message,
            routing_key,
            sessions,
        ),
    ensures
        R::finds(table, routing_key, found.0, found.1),
        found.1 is Err ==> handled == HandledView::Respond(no_table_page()),
        found.1 matches Ok(None) ==> handled == HandledView::Respond(not_found_page(routing_key)),
        found.1 matches Ok(Some(record)) ==> {
            let here = record.node_id == node_id;
            let bounced = role == Role::Peer || message.dom().contains("x-norupo-hop"@);
            &&& here && sessions.contains(record.session_id) ==> handled == HandledView::Local(
                record,
            )
            &&& here && !sessions.contains(record.session_id) ==> handled == HandledView::Respond(
                not_found_page(routing_key),
            )
            &&& !here && bounced ==> handled == HandledView::Respond(loop_page())
            &&& !here && !bounced ==> handled == HandledView::HandOff(record)
            &&& !here || sessions.contains(record.session_id) ==> table_after == found.0
        },
{
    let (looked, answer, released) = choose|
        looked: R,
        answer: Result<Option<RouteView>, ErrorView>,
        released: Result<(), ErrorView>,
    | #[trigger]
        routed_by(
            table,
            table_after,
            handled,
            node_id,
            role,
            message,
            routing_key,
            sessions,
            looked,
            answer,
            released,
        );
    (looked, answer)
}

} // verus!
