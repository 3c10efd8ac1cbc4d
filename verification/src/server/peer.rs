//! Node-to-node request hand-off.
//!
//! When the routing table says that a tunnel belongs to a sibling node, the
//! request is proxied there over the internal network: the receiving node sees
//! an ordinary request with the original `Host`, looks it up in its own session
//! table and serves it. A redirect would show the cluster's topology to the
//! public client and break every request that is not idempotent.

use http::HeaderMap;
use vstd::prelude::*;
use vstd::string::*;
use vstd::utf8::*;

use crate::error::ErrorView;
use crate::fields;
use crate::registry::{RouteRecord, RouteView};
use crate::server::ingress::RequestHead;
use crate::server::ingress;
use crate::server::web::{EdgeResponse, ResponseView};
use crate::server::web;
use crate::text;

verus! {

/// A request as it goes to a sibling: its target and its headers. Method and body
/// stay as they are.
#[derive(Debug)]
pub struct HandOff {
    pub uri: String,
    pub headers: HeaderMap,
}

/// The target of a request on the node that owns its tunnel.
pub open spec fn peer_uri(record: RouteView, req: RequestHead) -> Seq<char> {
    "http://"@ + record.node_addr + ingress::target_of(req)
}

/// The value of the hop header: the id of this node, where it can stand in a
/// header.
pub open spec fn hop_value(node_id: Seq<char>) -> Seq<u8> {
    if fields::is_field_value(encode_utf8(node_id)) {
        encode_utf8(node_id)
    } else {
        encode_utf8("unknown"@)
    }
}

/// The fields of a request with its host among them: where the host came as the
/// authority, it takes the place of the `Host` header, since the target will name
/// the sibling.
pub open spec fn hosted(
    message: Map<Seq<char>, Seq<Seq<u8>>>,
    authority: Option<Seq<char>>,
) -> Map<Seq<char>, Seq<Seq<u8>>> {
    match authority {
        Some(host) => if fields::is_field_value(encode_utf8(host)) {
            message.insert("host"@, seq![encode_utf8(host)])
        } else {
            message
        },
        None => message,
    }
}

/// The fields of a request on its way to a sibling.
pub open spec fn handed_over(req: RequestHead, node_id: Seq<char>) -> Map<
    Seq<char>,
    Seq<Seq<u8>>,
> {
    marked(hosted(fields::fields_of(req.headers), text::optional(req.authority)), node_id)
}

/// The fields of a request that carries this node's mark.
pub open spec fn marked(message: Map<Seq<char>, Seq<Seq<u8>>>, node_id: Seq<char>) -> Map<
    Seq<char>,
    Seq<Seq<u8>>,
> {
    message.insert(web::HOP_HEADER@, seq![hop_value(node_id)])
}

/// The page for a peer address that cannot be dialled.
pub open spec fn bad_address_page() -> ResponseView {
    web::page(
        502,
        "Bad peer address"@,
        "The routing table names an edge node the cluster cannot address."@,
    )
}

/// Hands requests to sibling edge nodes.
#[derive(Debug)]
pub struct PeerClient {
    /// This node's id, sent so that the receiving side can log the hand-off.
    pub node_id: String,
}

impl PeerClient {
    /// A client that speaks for this node.
    #[must_use]
    pub fn new(node_id: String) -> (r: Self)
        ensures
            r.node_id == node_id,
    {
        PeerClient { node_id }
    }

    /// Prepares a request for the node named in `record`, which gets to see the
    /// original host. `None` means that the request carries so many headers that
    /// there is no room for the host or the mark; that cannot be so up to
    /// [`fields::SAFE_FIELDS`] names, the host among them.
    pub fn forward(&self, record: &RouteRecord, req: RequestHead) -> (r: Option<
        Result<HandOff, EdgeResponse>,
    >)
        ensures
            match fields::uri_fault(peer_uri(record@, req)) {
                Some(_) => r matches Some(Err(response)) && response@ == bad_address_page(),
                None => {
                    &&& fields::fits(
                        hosted(fields::fields_of(req.headers), text::optional(req.authority)),
                    ) ==> r is Some
                    &&& r matches Some(outcome) ==> {
                        &&& outcome matches Ok(hand_off)
                        &&& hand_off.uri@ == peer_uri(record@, req)
                        &&& fields::fields_of(hand_off.headers) == handed_over(req, self.node_id@)
                    }
                },
            },
    {
        let target = match &req.target {
            Some(target) => target.clone(),
            None => "/".to_owned(),
        };
        let uri = text::join3("http://", record.node_addr.as_str(), target.as_str());
        let fault = fields::check_uri(uri.as_str());
        self.hand_off(uri, fault.is_some(), req)
    }

    /// Marks a request for a sibling, so that the receiving node refuses to
    /// bounce it onward, and keeps its host. The target is of no use where it is not
    /// a URI.
    pub fn hand_off(&self, uri: String, faulty: bool, req: RequestHead) -> (r: Option<
        Result<HandOff, EdgeResponse>,
    >)
        ensures
            faulty ==> (r matches Some(Err(response)) && response@ == bad_address_page()),
            !faulty && fields::fits(
                hosted(fields::fields_of(req.headers), text::optional(req.authority)),
            ) ==> r is Some,
            !faulty ==> (r matches Some(outcome) ==> {
                &&& outcome matches Ok(hand_off)
                &&& hand_off.uri == uri
                &&& fields::fields_of(hand_off.headers) == handed_over(req, self.node_id@)
            }),
    {
        if faulty {
            return Some(
                Err(
                    web::error_page(
                        502,
                        "Bad peer address",
                        "The routing table names an edge node the cluster cannot address.",
                    ),
                ),
            );
        }
        let mut headers = req.headers;
        let ghost message = fields::fields_of(headers);
        proof {
            reveal_strlit("host");
            assert(text::lower("host"@) =~= "host"@);
            let kept = hosted(message, text::optional(req.authority));
            if fields::fits(kept) {
                fields::lemma_fits_with_fewer(message, kept);
            }
            reveal_strlit("x-norupo-hop");
            reveal_strlit("unknown");
            assert(text::lower("x-norupo-hop"@) =~= "x-norupo-hop"@);
            fields::lemma_printable_value("unknown"@);
        }
        if let Some(host) = &req.authority {
            let mut trial = fields::no_fields();
            if fields::insert(&mut trial, "host", host.as_str().as_bytes()) && !fields::insert(
                &mut headers,
                "host",
                host.as_str().as_bytes(),
            ) {
                return None;
            }
        }
        let mut probe = fields::no_fields();
        let mark = if fields::insert(&mut probe, web::HOP_HEADER, self.node_id.as_str().as_bytes()) {
            self.node_id.as_str()
        } else {
            "unknown"
        };
        if !fields::insert(&mut headers, web::HOP_HEADER, mark.as_bytes()) {
            return None;
        }
        Some(Ok(HandOff { uri, headers }))
    }

    /// The answer for a sibling that did not.
    pub fn unreachable(&self) -> (r: EdgeResponse)
        ensures
            r@ == web::page(
                502,
                "Edge node unreachable"@,
                "The edge node holding this tunnel did not answer. It may have just restarted; retry shortly."@,
            ),
    {
        web::error_page(
            502,
            "Edge node unreachable",
            "The edge node holding this tunnel did not answer. It may have just restarted; retry shortly.",
        )
    }
}

/// A request that was handed over is not handed over again: the mark it carries
/// makes the receiving node answer, serve it locally, or report a loop.
pub proof fn a_hand_off_is_the_last(
    node_id: Seq<char>,
    sender: Seq<char>,
    message: Map<Seq<char>, Seq<Seq<u8>>>,
    role: ingress::Role,
    routing_key: Seq<char>,
    answer: Result<Option<RouteView>, ErrorView>,
    sessions: Set<Seq<char>>,
)
    ensures
        !(ingress::decision(
            node_id,
            role,
            marked(message, sender),
            routing_key,
            answer,
            sessions,
        ) is HandOff),
{
    ingress::one_hop_only(
        node_id,
        role,
        marked(message, sender),
        routing_key,
        answer,
        sessions,
    );
}

/// The receiving node derives the same routing key from what arrives as this node
/// did, whether the host came in a header or as the authority, of which only the
/// header goes on.
pub proof fn a_hand_off_keeps_the_host(
    req: RequestHead,
    received: RequestHead,
    node_id: Seq<char>,
)
    requires
        received.path@ == req.path@,
        received.authority is None,
        fields::fields_of(received.headers) == handed_over(req, node_id),
        req.authority matches Some(host) ==> forall|i: int|
            0 <= i < host@.len() ==> ' ' <= #[trigger] host@[i] <= '~' || host@[i] == '\t',
    ensures
        ingress::effective_host(received) == ingress::effective_host(req),
        ingress::entry_of(received) == ingress::entry_of(req),
{
    reveal_strlit("x-norupo-hop");
    reveal_strlit("host");
    assert("host"@.len() != web::HOP_HEADER@.len());
    if let Some(host) = req.authority {
        fields::lemma_printable_value(host@);
    }
}

/// A request goes to the address of the node that owns its tunnel, with its own path
/// and query, and keeps every header but the host and the mark, which are set.
pub proof fn hand_offs_go_to_the_owner(
    record: RouteView,
    req: RequestHead,
    node_id: Seq<char>,
    name: Seq<char>,
)
    ensures
        req.target matches Some(target) ==> peer_uri(record, req) == "http://"@ + record.node_addr
            + target@,
        req.target is None ==> peer_uri(record, req) == "http://"@ + record.node_addr + "/"@,
        ({
            let message = fields::fields_of(req.headers);
            let sent = handed_over(req, node_id);
            let valid = |s: Seq<char>| fields::is_field_value(encode_utf8(s));
            &&& sent.dom().contains("x-norupo-hop"@)
            &&& valid(node_id) ==> sent["x-norupo-hop"@] == seq![encode_utf8(node_id)]
            &&& !valid(node_id) ==> sent["x-norupo-hop"@] == seq![encode_utf8("unknown"@)]
            &&& name != "x-norupo-hop"@ && (name != "host"@ || req.authority is None) ==> {
                &&& sent.dom().contains(name) <==> message.dom().contains(name)
                &&& message.dom().contains(name) ==> sent[name] == message[name]
            }
            &&& req.authority matches Some(host) ==> (valid(host@) ==> sent.dom().contains("host"@)
                && sent["host"@] == seq![encode_utf8(host@)])
            &&& req.authority matches Some(host) ==> (!valid(host@) ==> {
                &&& sent.dom().contains("host"@) <==> message.dom().contains("host"@)
                &&& message.dom().contains("host"@) ==> sent["host"@] == message["host"@]
            })
        }),
        bad_address_page() == web::page(
            502,
            "Bad peer address"@,
            "The routing table names an edge node the cluster cannot address."@,
        ),
{
    reveal_strlit("x-norupo-hop");
    reveal_strlit("host");
    assert("host"@.len() != "x-norupo-hop"@.len());
}

} // verus!
