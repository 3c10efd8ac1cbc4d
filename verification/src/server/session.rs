//! Agent sessions and the streams multiplexed over them.
//!
//! One [`Session`] is one connected agent and one long-lived bidirectional
//! stream. Inside it, every public request becomes a logical stream identified
//! by a stream id. This module owns the bookkeeping for both: an operation
//! changes the books and hands back the frame or chunk that is to be sent.

use bytes::Bytes;
use dashmap::DashMap;
use vstd::prelude::*;
use vstd::string::*;

use crate::auth::{Principal, PrincipalView};
use crate::payload;
use crate::proto::{
    Header, HeaderView, HttpRequestHead, HttpResponseHead, OpenView, RequestHeadView, ResetCode,
    ServerFrame, ServerPayload, ServerView, StreamData, StreamEnd, StreamKind, StreamOpen,
    StreamReset, WindowUpdate,
};
use crate::proto;
use crate::server::tables;
use crate::text;

verus! {

/// Largest payload put in a single data frame.
///
/// 64 KiB keeps a frame well under the default message limit while amortising
/// its overhead over a useful amount of data.
pub const MAX_CHUNK: usize = 65536;

/// The most credit a stream can have: as much as its semaphore counts.
pub const MAX_CREDIT: u64 = 2_305_843_009_213_693_951;

/// A chunk travelling from the agent back towards the public client.
#[derive(Debug)]
pub enum Chunk {
    /// Payload bytes.
    Data(Bytes),
    /// Clean end of body, with optional trailers.
    End(Vec<Header>),
    /// Abortive termination.
    Reset(ResetCode, String),
}

/// A chunk by its text and bytes.
#[verifier::ext_equal]
pub enum ChunkView {
    Data(Seq<u8>),
    End(Seq<HeaderView>),
    Reset(ResetCode, Seq<char>),
}

impl View for Chunk {
    type V = ChunkView;

    open spec fn view(&self) -> ChunkView {
        match self {
            Chunk::Data(bytes) => ChunkView::Data(payload::bytes_of(*bytes)),
            Chunk::End(trailers) => ChunkView::End(proto::header_views(trailers@)),
            Chunk::Reset(code, message) => ChunkView::Reset(*code, message@),
        }
    }
}

/// Edge-side state of one multiplexed stream.
#[derive(Debug, Clone, Copy, PartialEq, Eq, Structural)]
pub struct Stream {
    /// Whether the agent's response head is still awaited.
    pub head_waiting: bool,
    /// Bytes that may still be sent to the agent before it grants more.
    pub credit: u64,
}

/// A tunnel currently registered by a session.
#[derive(Debug)]
pub struct Tunnel {
    pub tunnel_id: String,
    pub routing_key: String,
    pub public_url: String,
}

/// A tunnel by its text.
#[verifier::ext_equal]
pub struct TunnelView {
    pub tunnel_id: Seq<char>,
    pub routing_key: Seq<char>,
    pub public_url: Seq<char>,
}

impl View for Tunnel {
    type V = TunnelView;

    open spec fn view(&self) -> TunnelView {
        TunnelView {
            tunnel_id: self.tunnel_id@,
            routing_key: self.routing_key@,
            public_url: self.public_url@,
        }
    }
}

impl Clone for Tunnel {
    fn clone(&self) -> (r: Self)
        ensures
            r@ == self@,
    {
        Tunnel {
            tunnel_id: self.tunnel_id.clone(),
            routing_key: self.routing_key.clone(),
            public_url: self.public_url.clone(),
        }
    }
}

/// Tunnels by their text.
pub open spec fn tunnel_views(v: Seq<Tunnel>) -> Seq<TunnelView> {
    Seq::new(v.len(), |i: int| v[i]@)
}

/// One connected agent.
pub struct Session {
    id: String,
    node_id: String,
    principal: Principal,
    streams: DashMap<u64, Stream>,
    /// Tunnels this session owns, by tunnel id.
    tunnels: DashMap<String, Tunnel>,
    next_stream_id: u64,
    /// Credit that a new stream starts with.
    initial_window: u32,
    open_streams: u64,
}

/// A session by its contents.
#[verifier::ext_equal]
pub struct SessionView {
    pub id: Seq<char>,
    pub node_id: Seq<char>,
    pub principal: PrincipalView,
    pub streams: Map<u64, Stream>,
    pub tunnels: Map<Seq<char>, TunnelView>,
    pub next_stream_id: int,
    pub initial_window: u32,
}

impl View for Session {
    type V = SessionView;

    closed spec fn view(&self) -> SessionView {
        SessionView {
            id: self.id@,
            node_id: self.node_id@,
            principal: self.principal@,
            streams: tables::streams_of(self.streams),
            tunnels: tables::tunnels_of(self.tunnels),
            next_stream_id: self.next_stream_id as int,
            initial_window: self.initial_window,
        }
    }
}

/// A summary of a session, for the admin endpoint.
#[derive(Debug)]
pub struct SessionInfo {
    pub session_id: String,
    pub account_id: String,
    pub open_streams: u64,
    pub tunnels: Vec<Tunnel>,
}

/// A summary by its text.
#[verifier::ext_equal]
pub struct InfoView {
    pub session_id: Seq<char>,
    pub account_id: Seq<char>,
    pub open_streams: u64,
    pub tunnels: Seq<TunnelView>,
}

impl View for SessionInfo {
    type V = InfoView;

    open spec fn view(&self) -> InfoView {
        InfoView {
            session_id: self.session_id@,
            account_id: self.account_id@,
            open_streams: self.open_streams,
            tunnels: tunnel_views(self.tunnels@),
        }
    }
}

/// Whether a list holds each tunnel of a table once and nothing else.
pub open spec fn lists_tunnels(list: Seq<TunnelView>, table: Map<Seq<char>, TunnelView>) -> bool {
    exists|ids: Seq<Seq<char>>| #[trigger]
        tables::enumerates_names(ids, table.dom()) && ids.len() == list.len() && forall|i: int|
            0 <= i < list.len() ==> #[trigger] list[i] == table[ids[i]]
}

/// Whether a summary is that of a session.
pub open spec fn sums_up(info: InfoView, session: Session) -> bool {
    &&& info.session_id == session@.id
    &&& info.account_id == session@.principal.account_id
    &&& lists_tunnels(info.tunnels, session@.tunnels)
    &&& session.wf() ==> info.open_streams == session@.streams.dom().len()
}

impl Session {
    /// The open streams are counted and within the account's ceiling, their ids
    /// lie below the next one, none has more credit than a semaphore counts, and
    /// each tunnel stands under its id.
    pub closed spec fn wf(&self) -> bool {
        &&& self.principal.limits.max_concurrent_streams > 0 ==> self.open_streams
            <= self.principal.limits.max_concurrent_streams
        &&& 0 < self.next_stream_id
        &&& self.open_streams < self.next_stream_id
        &&& self@.streams.dom().finite()
        &&& self.open_streams == self@.streams.dom().len()
        &&& forall|id: u64| #[trigger]
            self@.streams.dom().contains(id) ==> 0 < id < self.next_stream_id
                && self@.streams[id].credit <= MAX_CREDIT
        &&& self@.tunnels.dom().finite()
        &&& forall|id: Seq<char>| #[trigger]
            self@.tunnels.dom().contains(id) ==> self@.tunnels[id].tunnel_id == id
    }

    /// Creates a session without streams or tunnels.
    ///
    /// Stream ids start at 1, so that 0 stays available as unset.
    pub fn new(id: String, node_id: String, principal: Principal, initial_window: u32) -> (r: Self)
        ensures
            r.wf(),
            r@ == (SessionView {
                id: id@,
                node_id: node_id@,
                principal: principal@,
                streams: Map::empty(),
                tunnels: Map::empty(),
                next_stream_id: 1,
                initial_window,
            }),
    {
        let r = Session {
            id,
            node_id,
            principal,
            streams: tables::no_streams(),
            tunnels: tables::no_tunnels(),
            next_stream_id: 1,
            initial_window,
            open_streams: 0,
        };
        assert(r@.streams =~= Map::empty());
        assert(r@.tunnels =~= Map::empty());
        r
    }

    /// Identity of the session.
    pub fn id(&self) -> (r: &str)
        ensures
            r@ == self@.id,
    {
        self.id.as_str()
    }

    /// Node that terminates the session.
    pub fn node_id(&self) -> (r: &str)
        ensures
            r@ == self@.node_id,
    {
        self.node_id.as_str()
    }

    /// Whom the session belongs to.
    pub fn principal(&self) -> (r: &Principal)
        ensures
            r@ == self@.principal,
    {
        &self.principal
    }

    /// The tunnels of the session, in no particular order.
    pub fn tunnels(&self) -> (r: Vec<Tunnel>)
        ensures
            lists_tunnels(tunnel_views(r@), self@.tunnels),
    {
        let pairs = tables::all_tunnels(&self.tunnels);
        let mut out: Vec<Tunnel> = Vec::new();
        let mut i: usize = 0;
        while i < pairs.len()
            invariant
                i <= pairs@.len(),
                out@.len() == i,
                forall|k: int| 0 <= k < i ==> (#[trigger] out@[k])@ == pairs@[k].1@,
            decreases pairs@.len() - i,
        {
            out.push(pairs[i].1.clone());
            i = i + 1;
        }
        proof {
            let ids = tables::names(pairs@);
            assert forall|k: int| 0 <= k < tunnel_views(out@).len() implies #[trigger] tunnel_views(
                out@,
            )[k] == self@.tunnels[ids[k]] by {
                assert(out@[k]@ == pairs@[k].1@);
            }
            assert(tables::enumerates_names(ids, self@.tunnels.dom()));
        }
        out
    }

    /// Number of tunnels.
    pub fn tunnel_count(&self) -> (r: usize)
        ensures
            r == self@.tunnels.dom().len(),
    {
        tables::count_tunnels(&self.tunnels)
    }

    /// Adds a tunnel under its id.
    pub fn insert_tunnel(&mut self, tunnel: Tunnel)
        requires
            old(self).wf(),
        ensures
            final(self).wf(),
            final(self)@ == (SessionView {
                tunnels: old(self)@.tunnels.insert(tunnel@.tunnel_id, tunnel@),
                ..old(self)@
            }),
    {
        tables::put_tunnel(&mut self.tunnels, tunnel.tunnel_id.clone(), tunnel);
    }

    /// Takes a tunnel out.
    pub fn remove_tunnel(&mut self, tunnel_id: &str) -> (r: Option<Tunnel>)
        requires
            old(self).wf(),
        ensures
            final(self).wf(),
            final(self)@ == (SessionView {
                tunnels: old(self)@.tunnels.remove(tunnel_id@),
                ..old(self)@
            }),
            match r {
                Some(tunnel) => old(self)@.tunnels.dom().contains(tunnel_id@) && tunnel@ == old(
                    self,
                )@.tunnels[tunnel_id@],
                None => !old(self)@.tunnels.dom().contains(tunnel_id@),
            },
    {
        tables::take_tunnel(&mut self.tunnels, tunnel_id)
    }

    /// Number of streams in flight.
    pub fn open_stream_count(&self) -> (r: u64)
        requires
            self.wf(),
        ensures
            r == self@.streams.dom().len(),
    {
        self.open_streams
    }

    /// A summary for the admin endpoint.
    pub fn info(&self) -> (r: SessionInfo)
        ensures
            sums_up(r@, *self),
    {
        SessionInfo {
            session_id: self.id.clone(),
            account_id: self.principal.account_id.clone(),
            open_streams: self.open_streams,
            tunnels: self.tunnels(),
        }
    }
}

/// What opening a stream gives: its id, and the frame that tells the agent.
#[derive(Debug)]
pub struct StreamResponse {
    pub stream_id: u64,
    pub frame: ServerFrame,
}

/// Why opening a stream failed.
#[derive(Debug, Clone, Copy, PartialEq, Eq, Structural)]
pub enum OpenError {
    /// The agent disconnected between route lookup and stream open.
    SessionGone,
    /// The session is already at its concurrent-stream ceiling.
    TooManyStreams(u32),
}

impl OpenError {
    /// The sentence shown for the error.
    pub open spec fn sentence(self) -> Seq<char> {
        match self {
            OpenError::SessionGone => "agent session is gone"@,
            OpenError::TooManyStreams(limit) => "session exceeded its concurrent stream limit ("@
                + text::decimal(limit as nat) + ")"@,
        }
    }

    /// The sentence shown for the error.
    #[must_use]
    pub fn to_string(&self) -> (r: String)
        ensures
            r@ == self.sentence(),
    {
        match self {
            OpenError::SessionGone => "agent session is gone".to_owned(),
            OpenError::TooManyStreams(limit) => text::join3(
                "session exceeded its concurrent stream limit (",
                text::to_decimal(*limit as u64).as_str(),
                ")",
            ),
        }
    }
}

impl SessionView {
    /// Whether the account's ceiling on concurrent streams is reached. Zero means
    /// that there is none.
    pub open spec fn at_stream_limit(self) -> bool {
        self.principal.limits.max_concurrent_streams > 0 && self.streams.dom().len()
            >= self.principal.limits.max_concurrent_streams
    }

    /// The session with a fresh stream.
    pub open spec fn with_new_stream(self) -> SessionView {
        SessionView {
            streams: self.streams.insert(
                self.next_stream_id as u64,
                Stream { head_waiting: true, credit: self.initial_window as u64 },
            ),
            next_stream_id: self.next_stream_id + 1,
            ..self
        }
    }

    /// The session with one stream changed.
    pub open spec fn with_stream(self, id: u64, stream: Stream) -> SessionView {
        SessionView { streams: self.streams.insert(id, stream), ..self }
    }

    /// The session without a stream.
    pub open spec fn without_stream(self, id: u64) -> SessionView {
        SessionView { streams: self.streams.remove(id), ..self }
    }

    /// The frame that tells the agent about the next stream.
    pub open spec fn open_frame(
        self,
        tunnel_id: Seq<char>,
        head: RequestHeadView,
        remote_addr: Seq<char>,
    ) -> ServerView {
        ServerView::Open(
            OpenView {
                stream_id: self.next_stream_id as u64,
                tunnel_id,
                kind: StreamKind::Http,
                http: Some(head),
                remote_addr,
                initial_window: self.initial_window,
            },
        )
    }

    /// Whether a stream is open.
    pub open spec fn has_stream(self, id: u64) -> bool {
        self.streams.dom().contains(id)
    }

    /// Whether credit can be added to a stream without exceeding what its
    /// semaphore counts; of a stream that is gone, nothing is asked.
    pub open spec fn takes_credit(self, id: u64, increment: u32) -> bool {
        self.has_stream(id) ==> self.streams[id].credit + increment <= MAX_CREDIT
    }

    /// The session after credit was granted for a stream.
    pub open spec fn credited(self, id: u64, increment: u32) -> SessionView {
        if self.has_stream(id) {
            self.with_stream(
                id,
                Stream {
                    credit: (self.streams[id].credit + increment) as u64,
                    ..self.streams[id]
                },
            )
        } else {
            self
        }
    }
}

impl Session {
    /// Whether every stream id has been used up.
    pub fn ids_exhausted(&self) -> (r: bool)
        ensures
            r == (self@.next_stream_id >= u64::MAX),
    {
        self.next_stream_id == u64::MAX
    }

    /// Opens a new multiplexed stream. The frame returned tells the agent about
    /// it; where it cannot be sent, [`Session::abandon_stream`] undoes the opening.
    pub fn open_http_stream(
        &mut self,
        tunnel_id: &str,
        head: HttpRequestHead,
        remote_addr: String,
    ) -> (r: Result<StreamResponse, OpenError>)
        requires
            old(self).wf(),
            old(self)@.next_stream_id < u64::MAX,
        ensures
            final(self).wf(),
            if old(self)@.at_stream_limit() {
                &&& r matches Err(e)
                &&& e == OpenError::TooManyStreams(
                    old(self)@.principal.limits.max_concurrent_streams,
                )
                &&& final(self)@ == old(self)@
            } else {
                &&& r matches Ok(opened)
                &&& opened.stream_id == old(self)@.next_stream_id
                &&& opened.frame@ == old(self)@.open_frame(tunnel_id@, head@, remote_addr@)
                &&& final(self)@ == old(self)@.with_new_stream()
            },
    {
        let limit: u32 = self.principal.limits.max_concurrent_streams;
        if limit > 0 && self.open_streams >= limit as u64 {
            return Err(OpenError::TooManyStreams(limit));
        }
        let stream_id: u64 = self.next_stream_id;
        self.next_stream_id = stream_id + 1;
        tables::put_stream(
            &mut self.streams,
            stream_id,
            Stream { head_waiting: true, credit: self.initial_window as u64 },
        );
        self.open_streams = self.open_streams + 1;
        let frame = ServerFrame {
            payload: Some(
                ServerPayload::Open(
                    StreamOpen {
                        stream_id,
                        tunnel_id: tunnel_id.to_owned(),
                        kind: StreamKind::Http,
                        http: Some(head),
                        remote_addr,
                        initial_window: self.initial_window,
                    },
                ),
            ),
        };
        Ok(StreamResponse { stream_id, frame })
    }

    /// Undoes the opening of a stream of which the agent could not be told.
    pub fn abandon_stream(&mut self, stream_id: u64) -> (r: OpenError)
        requires
            old(self).wf(),
        ensures
            final(self).wf(),
            final(self)@ == old(self)@.without_stream(stream_id),
            r == OpenError::SessionGone,
    {
        let _ = self.close_stream(stream_id);
        OpenError::SessionGone
    }

    /// The frame that ends the body in the direction of the agent.
    pub fn send_stream_end(&self, stream_id: u64) -> (r: ServerFrame)
        ensures
            r@ == (ServerView::End { stream_id, trailers: Seq::empty() }),
    {
        let end = StreamEnd { stream_id, trailers: Vec::new() };
        assert(proto::header_views(end.trailers@) =~= Seq::empty());
        ServerFrame { payload: Some(ServerPayload::End(end)) }
    }

    /// The frame that grants the agent more send credit; there is none for no
    /// credit.
    pub fn grant_window(&self, stream_id: u64, increment: u32) -> (r: Option<ServerFrame>)
        ensures
            increment == 0 ==> r is None,
            increment > 0 ==> (r matches Some(frame) && frame@ == ServerView::WindowUpdate(
                WindowUpdate { stream_id, increment },
            )),
    {
        if increment == 0 {
            return None;
        }
        Some(
            ServerFrame {
                payload: Some(ServerPayload::WindowUpdate(WindowUpdate { stream_id, increment })),
            },
        )
    }

    /// Aborts a stream. The frame returned tells the agent.
    pub fn reset_stream(&mut self, stream_id: u64, code: ResetCode, message: &str) -> (r:
        ServerFrame)
        requires
            old(self).wf(),
        ensures
            final(self).wf(),
            final(self)@ == old(self)@.without_stream(stream_id),
            r@ == (ServerView::Reset { stream_id, code: Some(code), message: message@ }),
    {
        let _ = self.close_stream(stream_id);
        ServerFrame {
            payload: Some(
                ServerPayload::Reset(
                    StreamReset { stream_id, code: Some(code), message: message.to_owned() },
                ),
            ),
        }
    }

    /// Takes the agent's response head. It is handed on to the waiting request,
    /// once per stream; a head for a stream that is gone is dropped.
    pub fn on_response_head(&mut self, head: HttpResponseHead) -> (r: Option<HttpResponseHead>)
        requires
            old(self).wf(),
        ensures
            final(self).wf(),
            if old(self)@.has_stream(head.stream_id) && old(
                self,
            )@.streams[head.stream_id].head_waiting {
                &&& r matches Some(h)
                &&& h@ == head@
                &&& final(self)@ == old(self)@.with_stream(
                    head.stream_id,
                    Stream { head_waiting: false, ..old(self)@.streams[head.stream_id] },
                )
            } else {
                &&& r is None
                &&& final(self)@ == old(self)@
            },
    {
        match tables::find_stream(&self.streams, head.stream_id) {
            Some(stream) => {
                if !stream.head_waiting {
                    return None;
                }
                self.replace_stream(
                    head.stream_id,
                    Stream { head_waiting: false, credit: stream.credit },
                );
                Some(head)
            },
            None => None,
        }
    }

    /// Puts another state in the place of an open stream's.
    fn replace_stream(&mut self, stream_id: u64, stream: Stream)
        requires
            old(self).wf(),
            old(self)@.has_stream(stream_id),
            stream.credit <= MAX_CREDIT,
        ensures
            final(self).wf(),
            final(self)@ == old(self)@.with_stream(stream_id, stream),
    {
        tables::put_stream(&mut self.streams, stream_id, stream);
        assert(self@.streams.dom() =~= old(self)@.streams.dom());
    }

    /// Takes body bytes of the agent. The chunk is to be handed to the public
    /// client; then [`Session::on_delivered`] says how much window to grant back.
    /// Bytes for a stream that is gone are dropped.
    pub fn on_stream_data(&self, stream_id: u64, payload: Bytes) -> (r: Option<Chunk>)
        ensures
            if self@.has_stream(stream_id) {
                r matches Some(chunk) && chunk@ == ChunkView::Data(payload::bytes_of(payload))
            } else {
                r is None
            },
    {
        match tables::find_stream(&self.streams, stream_id) {
            Some(_) => Some(Chunk::Data(payload)),
            None => None,
        }
    }

    /// Records whether a chunk of `len` bytes reached the public client. Returns
    /// the number of bytes accepted; a client that is gone closes the stream.
    pub fn on_delivered(&mut self, stream_id: u64, len: usize, delivered: bool) -> (r: usize)
        requires
            old(self).wf(),
        ensures
            final(self).wf(),
            delivered ==> r == len && final(self)@ == old(self)@,
            !delivered ==> r == 0 && final(self)@ == old(self)@.without_stream(stream_id),
    {
        if delivered {
            len
        } else {
            let _ = self.close_stream(stream_id);
            0
        }
    }

    /// Takes a clean end of body. The chunk, if any, is the last one to be handed
    /// to the public client.
    pub fn on_stream_end(&mut self, stream_id: u64, trailers: Vec<Header>) -> (r: Option<Chunk>)
        requires
            old(self).wf(),
        ensures
            final(self).wf(),
            final(self)@ == old(self)@.without_stream(stream_id),
            if old(self)@.has_stream(stream_id) {
                r matches Some(chunk) && chunk@ == ChunkView::End(proto::header_views(trailers@))
            } else {
                r is None
            },
    {
        if self.close_stream(stream_id) {
            Some(Chunk::End(trailers))
        } else {
            None
        }
    }

    /// Takes an abortive reset by the agent. The chunk, if any, is the last one to
    /// be handed to the public client.
    pub fn on_stream_reset(&mut self, stream_id: u64, code: ResetCode, message: String) -> (r:
        Option<Chunk>)
        requires
            old(self).wf(),
        ensures
            final(self).wf(),
            final(self)@ == old(self)@.without_stream(stream_id),
            if old(self)@.has_stream(stream_id) {
                r matches Some(chunk) && chunk@ == ChunkView::Reset(code, message@)
            } else {
                r is None
            },
    {
        if self.close_stream(stream_id) {
            Some(Chunk::Reset(code, message))
        } else {
            None
        }
    }

    /// Whether a window update can be applied.
    pub fn takes_credit(&self, stream_id: u64, increment: u32) -> (r: bool)
        requires
            self.wf(),
        ensures
            r == self@.takes_credit(stream_id, increment),
    {
        match tables::find_stream(&self.streams, stream_id) {
            Some(stream) => stream.credit + increment as u64 <= MAX_CREDIT,
            None => true,
        }
    }

    /// Applies credit granted by the agent for the direction towards it.
    pub fn on_window_update(&mut self, stream_id: u64, increment: u32)
        requires
            old(self).wf(),
            old(self)@.takes_credit(stream_id, increment),
        ensures
            final(self).wf(),
            final(self)@ == old(self)@.credited(stream_id, increment),
    {
        match tables::find_stream(&self.streams, stream_id) {
            Some(stream) => {
                self.replace_stream(
                    stream_id,
                    Stream {
                        head_waiting: stream.head_waiting,
                        credit: stream.credit + increment as u64,
                    },
                );
            },
            None => {},
        }
    }

    /// Removes a stream. Returns whether it was open; a writer parked on its
    /// window is then told that the stream is gone.
    pub fn close_stream(&mut self, stream_id: u64) -> (r: bool)
        requires
            old(self).wf(),
        ensures
            final(self).wf(),
            final(self)@ == old(self)@.without_stream(stream_id),
            r == old(self)@.has_stream(stream_id),
    {
        match tables::take_stream(&mut self.streams, stream_id) {
            Some(_) => {
                self.open_streams = self.open_streams - 1;
                true
            },
            None => {
                assert(self@.streams =~= old(self)@.streams);
                false
            },
        }
    }

    /// Tears every stream down; called when the agent disconnects. Returns the
    /// ids of the streams that were open.
    pub fn close_all_streams(&mut self) -> (r: Vec<u64>)
        requires
            old(self).wf(),
        ensures
            final(self).wf(),
            final(self)@ == (SessionView { streams: Map::empty(), ..old(self)@ }),
            tables::enumerates(r@, old(self)@.streams.dom()),
    {
        let ids = tables::stream_ids(&self.streams);
        let ghost before = self@;
        let mut i: usize = 0;
        assert(ids@.skip(0) =~= ids@);
        while i < ids.len()
            invariant
                i <= ids@.len(),
                self.wf(),
                self@ == (SessionView { streams: self@.streams, ..before }),
                forall|id: u64| #[trigger]
                    self@.streams.dom().contains(id) ==> ids@.skip(i as int).contains(id),
            decreases ids@.len() - i,
        {
            let ghost earlier = self@.streams;
            let _ = self.close_stream(ids[i]);
            proof {
                assert forall|id: u64| #[trigger] self@.streams.dom().contains(id) implies ids@.skip(
                    i as int + 1,
                ).contains(id) by {
                    assert(earlier.dom().contains(id));
                    let k = choose|k: int|
                        0 <= k < ids@.skip(i as int).len() && ids@.skip(i as int)[k] == id;
                    assert(k != 0);
                    assert(ids@.skip(i as int + 1)[k - 1] == id);
                }
            }
            i = i + 1;
        }
        assert(self@.streams.dom() =~= Set::empty());
        assert(self@.streams =~= Map::empty());
        ids
    }
}

/// A payload cut into pieces of at most [`MAX_CHUNK`] bytes, each but the last
/// exactly that long.
pub open spec fn chunked(payload: Seq<u8>) -> Seq<Seq<u8>>
    decreases payload.len(),
{
    if payload.len() <= MAX_CHUNK {
        seq![payload]
    } else {
        seq![payload.take(MAX_CHUNK as int)] + chunked(payload.skip(MAX_CHUNK as int))
    }
}

/// Buffers by their bytes.
pub open spec fn chunk_bytes(chunks: Seq<Bytes>) -> Seq<Seq<u8>> {
    Seq::new(chunks.len(), |i: int| payload::bytes_of(chunks[i]))
}

/// Splits a payload into frame-sized chunks without copying.
#[must_use]
pub fn split_chunks(payload: Bytes) -> (r: Vec<Bytes>)
    ensures
        chunk_bytes(r@) == chunked(payload::bytes_of(payload)),
        r@.len() > 0,
{
    let ghost all = payload::bytes_of(payload);
    let mut rest = payload;
    let mut chunks: Vec<Bytes> = Vec::new();
    assert(chunk_bytes(chunks@) + chunked(payload::bytes_of(rest)) =~= chunked(all));
    while payload::length(&rest) > MAX_CHUNK
        invariant
            chunk_bytes(chunks@) + chunked(payload::bytes_of(rest)) == chunked(all),
        decreases payload::bytes_of(rest).len(),
    {
        let ghost before = chunk_bytes(chunks@);
        let ghost left = payload::bytes_of(rest);
        let chunk = payload::split_to(&mut rest, MAX_CHUNK);
        chunks.push(chunk);
        proof {
            assert(chunk_bytes(chunks@) =~= before.push(left.take(MAX_CHUNK as int)));
            assert(chunk_bytes(chunks@) + chunked(payload::bytes_of(rest)) =~= before + chunked(
                left,
            ));
        }
    }
    let ghost before = chunk_bytes(chunks@);
    chunks.push(rest);
    assert(chunk_bytes(chunks@) =~= before + seq![payload::bytes_of(rest)]);
    chunks
}

/// Pieces of bytes put together.
pub open spec fn joined(pieces: Seq<Seq<u8>>) -> Seq<u8>
    decreases pieces.len(),
{
    if pieces.len() == 0 {
        Seq::empty()
    } else {
        pieces[0] + joined(pieces.skip(1))
    }
}

/// Chunking loses no byte, keeps their order, makes no frame longer than
/// [`MAX_CHUNK`], and makes as few frames as that allows.
pub proof fn chunking_keeps_every_byte(payload: Seq<u8>)
    ensures
        joined(chunked(payload)) == payload,
        chunked(payload).len() > 0,
        forall|i: int|
            0 <= i < chunked(payload).len() ==> (#[trigger] chunked(payload)[i]).len() <= MAX_CHUNK,
        forall|i: int|
            0 <= i < chunked(payload).len() - 1 ==> (#[trigger] chunked(payload)[i]).len()
                == MAX_CHUNK,
        payload.len() > 0 ==> chunked(payload).last().len() > 0,
    decreases payload.len(),
{
    let pieces = chunked(payload);
    if payload.len() <= MAX_CHUNK {
        assert(pieces.skip(1) =~= Seq::empty());
        assert(joined(pieces.skip(1)) =~= Seq::empty());
        assert(pieces[0] == payload);
        assert(joined(pieces) =~= payload);
    } else {
        let rest = payload.skip(MAX_CHUNK as int);
        chunking_keeps_every_byte(rest);
        assert(pieces.skip(1) =~= chunked(rest));
        assert(joined(pieces) =~= payload);
        assert forall|i: int| 0 <= i < pieces.len() implies (#[trigger] pieces[i]).len() <= MAX_CHUNK
            && (i < pieces.len() - 1 ==> pieces[i].len() == MAX_CHUNK) by {
            if i > 0 {
                assert(pieces[i] == chunked(rest)[i - 1]);
            }
        }
        assert(pieces.last() == chunked(rest).last());
    }
}

/// A payload on its way to an agent, chunk by chunk, as its credit allows.
#[derive(Debug)]
pub struct StreamWriter {
    stream_id: u64,
    chunks: Vec<Bytes>,
    next: usize,
}

/// A writer by what it has left to send.
#[verifier::ext_equal]
pub struct WriterView {
    pub stream_id: u64,
    pub rest: Seq<Seq<u8>>,
}

impl View for StreamWriter {
    type V = WriterView;

    closed spec fn view(&self) -> WriterView {
        WriterView {
            stream_id: self.stream_id,
            rest: chunk_bytes(self.chunks@).skip(self.next as int),
        }
    }
}

/// What a writer is to do next.
#[derive(Debug)]
pub enum WriteStep {
    /// Send this frame, then ask again.
    Frame(ServerFrame),
    /// Wait until the agent grants credit or the stream is closed, then ask again.
    Blocked,
    /// The stream went away before everything was sent.
    Gone,
    /// Everything was sent.
    Done,
}

/// A step by its frame.
#[verifier::ext_equal]
pub enum StepView {
    Frame(ServerView),
    Blocked,
    Gone,
    Done,
}

impl View for WriteStep {
    type V = StepView;

    open spec fn view(&self) -> StepView {
        match self {
            WriteStep::Frame(frame) => StepView::Frame(frame@),
            WriteStep::Blocked => StepView::Blocked,
            WriteStep::Gone => StepView::Gone,
            WriteStep::Done => StepView::Done,
        }
    }
}

impl WriterView {
    /// What this writer is to do next on a session.
    pub open spec fn step(self, session: SessionView) -> StepView {
        if self.rest.len() == 0 {
            StepView::Done
        } else if !session.has_stream(self.stream_id) {
            StepView::Gone
        } else if session.streams[self.stream_id].credit < self.rest[0].len() {
            StepView::Blocked
        } else {
            StepView::Frame(
                ServerView::Data { stream_id: self.stream_id, payload: self.rest[0] },
            )
        }
    }

    /// The writer after its next step.
    pub open spec fn stepped(self, session: SessionView) -> WriterView {
        if self.step(session) is Frame {
            WriterView { rest: self.rest.skip(1), ..self }
        } else {
            self
        }
    }

    /// The session after the writer's next step: a frame costs as much credit as
    /// it has bytes.
    pub open spec fn charged(self, session: SessionView) -> SessionView {
        if self.step(session) is Frame {
            let stream = session.streams[self.stream_id];
            session.with_stream(
                self.stream_id,
                Stream { credit: (stream.credit - self.rest[0].len()) as u64, ..stream },
            )
        } else {
            session
        }
    }
}

impl Session {
    /// Starts sending body bytes to the agent, respecting the stream's window.
    /// `None` means that the stream is gone.
    pub fn send_stream_data(&self, stream_id: u64, payload: Bytes) -> (r: Option<StreamWriter>)
        ensures
            if self@.has_stream(stream_id) {
                &&& r matches Some(writer)
                &&& writer.wf()
                &&& writer@ == (WriterView {
                    stream_id,
                    rest: chunked(payload::bytes_of(payload)),
                })
            } else {
                r is None
            },
    {
        match tables::find_stream(&self.streams, stream_id) {
            Some(_) => {
                let chunks = split_chunks(payload);
                let writer = StreamWriter { stream_id, chunks, next: 0 };
                assert(writer@.rest =~= chunk_bytes(chunks@));
                Some(writer)
            },
            None => None,
        }
    }
}

impl StreamWriter {
    /// The next chunk is one of the writer's.
    pub closed spec fn wf(&self) -> bool {
        self.next <= self.chunks@.len()
    }

    /// Sends the next chunk, where the agent has advertised room for it.
    ///
    /// This is the whole point of flow control: a slow local service slows the
    /// public upload down instead of filling the edge's memory.
    pub fn step(&mut self, session: &mut Session) -> (r: WriteStep)
        requires
            old(self).wf(),
            old(session).wf(),
        ensures
            final(self).wf(),
            final(session).wf(),
            r@ == old(self)@.step(old(session)@),
            final(self)@ == old(self)@.stepped(old(session)@),
            final(session)@ == old(self)@.charged(old(session)@),
    {
        if self.next >= self.chunks.len() {
            return WriteStep::Done;
        }
        let chunk = payload::copy(&self.chunks[self.next]);
        assert(self@.rest[0] == payload::bytes_of(chunk));
        match tables::find_stream(&session.streams, self.stream_id) {
            None => WriteStep::Gone,
            Some(stream) => {
                let cost: u64 = payload::length(&chunk) as u64;
                if stream.credit < cost {
                    return WriteStep::Blocked;
                }
                session.replace_stream(
                    self.stream_id,
                    Stream { head_waiting: stream.head_waiting, credit: stream.credit - cost },
                );
                let ghost before = self@.rest;
                self.next = self.next + 1;
                assert(self@.rest =~= before.skip(1));
                WriteStep::Frame(
                    ServerFrame {
                        payload: Some(
                            ServerPayload::Data(
                                StreamData { stream_id: self.stream_id, payload: chunk },
                            ),
                        ),
                    },
                )
            },
        }
    }
}

/// What is done to the sending side of a stream: the agent grants credit, or a
/// writer takes its next step.
pub enum SendOp {
    Grant(u32),
    Step(WriterView),
}

/// The session after a series of operations on a stream.
pub open spec fn after_ops(session: SessionView, id: u64, ops: Seq<SendOp>) -> SessionView
    decreases ops.len(),
{
    if ops.len() == 0 {
        session
    } else {
        let before = after_ops(session, id, ops.drop_last());
        match ops.last() {
            SendOp::Grant(increment) => before.credited(id, increment),
            SendOp::Step(writer) => writer.charged(before),
        }
    }
}

/// Whether a series of operations can happen to a stream: its writers write to
/// it, and no grant exceeds what its semaphore counts.
pub open spec fn possible_ops(session: SessionView, id: u64, ops: Seq<SendOp>) -> bool
    decreases ops.len(),
{
    ops.len() == 0 || {
        &&& possible_ops(session, id, ops.drop_last())
        &&& match ops.last() {
            SendOp::Grant(increment) => after_ops(session, id, ops.drop_last()).takes_credit(
                id,
                increment,
            ),
            SendOp::Step(writer) => writer.stream_id == id,
        }
    }
}

/// Body bytes that leave for the agent in a series of operations.
pub open spec fn sent_by(session: SessionView, id: u64, ops: Seq<SendOp>) -> nat
    decreases ops.len(),
{
    if ops.len() == 0 {
        0
    } else {
        let before = after_ops(session, id, ops.drop_last());
        sent_by(session, id, ops.drop_last()) + match ops.last() {
            SendOp::Grant(_) => 0,
            SendOp::Step(writer) => if writer.step(before) is Frame {
                writer.rest[0].len()
            } else {
                0
            },
        }
    }
}

/// Credit that the agent grants in a series of operations.
pub open spec fn granted_by(ops: Seq<SendOp>) -> nat
    decreases ops.len(),
{
    if ops.len() == 0 {
        0
    } else {
        granted_by(ops.drop_last()) + match ops.last() {
            SendOp::Grant(increment) => increment as nat,
            SendOp::Step(_) => 0,
        }
    }
}

/// Whatever happens to a stream, no more bytes leave for the agent than its
/// window and its grants allow, and what is left of them is the credit.
pub proof fn senders_stay_within_the_window(session: SessionView, id: u64, ops: Seq<SendOp>)
    requires
        session.has_stream(id),
        session.streams[id].credit <= MAX_CREDIT,
        possible_ops(session, id, ops),
    ensures
        after_ops(session, id, ops).has_stream(id),
        after_ops(session, id, ops).streams[id].credit <= MAX_CREDIT,
        sent_by(session, id, ops) + after_ops(session, id, ops).streams[id].credit
            == session.streams[id].credit + granted_by(ops),
        sent_by(session, id, ops) <= session.streams[id].credit + granted_by(ops),
    decreases ops.len(),
{
    if ops.len() > 0 {
        senders_stay_within_the_window(session, id, ops.drop_last());
    }
}

/// A new stream starts with the window that the agent is told of.
pub proof fn a_new_stream_has_the_window(
    session: SessionView,
    tunnel_id: Seq<char>,
    head: RequestHeadView,
    remote_addr: Seq<char>,
)
    ensures
        session.open_frame(tunnel_id, head, remote_addr) matches ServerView::Open(open)
            && session.with_new_stream().has_stream(open.stream_id)
            && session.with_new_stream().streams[open.stream_id].credit == open.initial_window,
{
}

/// A writer's step leaves every other stream alone.
pub proof fn writers_touch_only_their_stream(writer: WriterView, session: SessionView, other: u64)
    requires
        other != writer.stream_id,
    ensures
        writer.charged(session).has_stream(other) == session.has_stream(other),
        session.has_stream(other) ==> writer.charged(session).streams[other]
            == session.streams[other],
{
}

/// A parked writer goes on once enough credit has been granted.
pub proof fn credit_unparks_a_writer(writer: WriterView, session: SessionView, increment: u32)
    requires
        writer.step(session) is Blocked,
        session.takes_credit(writer.stream_id, increment),
        session.streams[writer.stream_id].credit + increment >= writer.rest[0].len(),
    ensures
        writer.step(session.credited(writer.stream_id, increment)) == StepView::Frame(
            ServerView::Data { stream_id: writer.stream_id, payload: writer.rest[0] },
        ),
{
}

/// Closing a stream unparks its writer: it is told that the stream is gone, and
/// never waits for credit that will not come.
pub proof fn closing_unparks_a_writer(writer: WriterView, session: SessionView)
    requires
        writer.rest.len() > 0,
    ensures
        writer.step(session.without_stream(writer.stream_id)) is Gone,
{
}

/// No session ever has more streams in flight than its account's ceiling allows.
/// Zero means that there is no ceiling.
pub proof fn the_stream_ceiling_holds(session: Session)
    requires
        session.wf(),
        session@.principal.limits.max_concurrent_streams > 0,
    ensures
        session@.streams.dom().len() <= session@.principal.limits.max_concurrent_streams,
{
}

/// A new stream gets an id that no stream has had: ids only go up, and the
/// streams that are open keep theirs.
pub proof fn stream_ids_are_not_reused(session: Session, id: u64)
    requires
        session.wf(),
        session@.next_stream_id < u64::MAX,
    ensures
        !session@.has_stream(session@.next_stream_id as u64),
        session@.with_new_stream().next_stream_id > session@.next_stream_id,
        session@.has_stream(id) ==> {
            &&& 0 < id < session@.next_stream_id
            &&& session@.with_new_stream().has_stream(id)
            &&& session@.with_new_stream().streams[id] == session@.streams[id]
        },
{
}

/// All sessions terminated by this node, by session id.
pub struct SessionManager {
    sessions: DashMap<String, Session>,
}

impl View for SessionManager {
    type V = Map<Seq<char>, Session>;

    closed spec fn view(&self) -> Map<Seq<char>, Session> {
        tables::sessions_of(self.sessions)
    }
}

/// The sum of a count over the members of a finite set.
pub open spec fn sum_over(set: Set<Seq<char>>, count: spec_fn(Seq<char>) -> nat) -> nat
    decreases set.len(),
    when set.finite()
{
    if set.len() == 0 {
        0
    } else {
        let k = set.choose();
        count(k) + sum_over(set.remove(k), count)
    }
}

/// The tunnels of all sessions, counted.
pub open spec fn tunnels_in(sessions: Map<Seq<char>, Session>) -> nat {
    sum_over(sessions.dom(), |k: Seq<char>| sessions[k]@.tunnels.dom().len())
}

/// Any member may be counted first.
proof fn lemma_sum_over_remove(
    set: Set<Seq<char>>,
    count: spec_fn(Seq<char>) -> nat,
    k: Seq<char>,
)
    requires
        set.finite(),
        set.contains(k),
    ensures
        sum_over(set, count) == count(k) + sum_over(set.remove(k), count),
    decreases set.len(),
{
    let first = set.choose();
    if first != k {
        let rest = set.remove(first);
        lemma_sum_over_remove(rest, count, k);
        lemma_sum_over_remove(set.remove(k), count, first);
        assert(rest.remove(k) =~= set.remove(k).remove(first));
    }
}

/// The sum of a count over a list.
spec fn sum_along(names: Seq<Seq<char>>, count: spec_fn(Seq<char>) -> nat) -> nat
    decreases names.len(),
{
    if names.len() == 0 {
        0
    } else {
        sum_along(names.drop_last(), count) + count(names.last())
    }
}

/// A list that holds each member once has the set's sum.
proof fn lemma_sum_along(
    names: Seq<Seq<char>>,
    set: Set<Seq<char>>,
    count: spec_fn(Seq<char>) -> nat,
)
    requires
        set.finite(),
        tables::enumerates_names(names, set),
    ensures
        sum_along(names, count) == sum_over(set, count),
    decreases names.len(),
{
    if names.len() == 0 {
        assert forall|k: Seq<char>| !set.contains(k) by {
            if set.contains(k) {
                assert(names.contains(k));
            }
        }
        assert(set =~= Set::empty());
    } else {
        let last = names.last();
        assert(names.contains(last));
        let rest = names.drop_last();
        assert forall|k: Seq<char>| #[trigger] rest.contains(k) <==> set.remove(last).contains(k) by {
            if rest.contains(k) {
                let i = choose|i: int| 0 <= i < rest.len() && rest[i] == k;
                assert(names[i] == k);
                assert(names.contains(k));
                assert(names[i] != names[names.len() - 1]);
            }
            if set.remove(last).contains(k) {
                assert(names.contains(k));
                let i = choose|i: int| 0 <= i < names.len() && names[i] == k;
                assert(rest[i] == k);
            }
        }
        assert(rest.no_duplicates()) by {
            assert forall|i: int, j: int| 0 <= i < rest.len() && 0 <= j < rest.len() && i != j implies rest[i]
                != rest[j] by {
                assert(names[i] != names[j]);
            }
        }
        lemma_sum_along(rest, set.remove(last), count);
        lemma_sum_over_remove(set, count, last);
    }
}

/// The sum of a shorter list is no larger.
proof fn lemma_sum_along_grows(
    names: Seq<Seq<char>>,
    count: spec_fn(Seq<char>) -> nat,
    n: int,
)
    requires
        0 <= n <= names.len(),
    ensures
        sum_along(names.take(n), count) <= sum_along(names, count),
    decreases names.len(),
{
    if n < names.len() {
        lemma_sum_along_grows(names.drop_last(), count, n);
        assert(names.drop_last().take(n) =~= names.take(n));
    } else {
        assert(names.take(n) =~= names);
    }
}

/// A list of a table's tunnels is as long as the table.
proof fn lemma_listed_length(list: Seq<TunnelView>, table: Map<Seq<char>, TunnelView>)
    requires
        lists_tunnels(list, table),
    ensures
        list.len() == table.dom().len(),
{
    let ids = choose|ids: Seq<Seq<char>>| #[trigger]
        tables::enumerates_names(ids, table.dom()) && ids.len() == list.len() && forall|i: int|
            0 <= i < list.len() ==> #[trigger] list[i] == table[ids[i]];
    ids.unique_seq_to_set();
    assert(ids.to_set() =~= table.dom());
}

impl Default for SessionManager {
    fn default() -> (r: Self)
        ensures
            r.wf(),
            r@ == Map::<Seq<char>, Session>::empty(),
    {
        SessionManager::new()
    }
}

impl SessionManager {
    /// Every session is well formed and stands under its own id.
    pub closed spec fn wf(&self) -> bool {
        &&& self@.dom().finite()
        &&& forall|id: Seq<char>| #[trigger]
            self@.dom().contains(id) ==> self@[id].wf() && self@[id]@.id == id
    }

    /// A manager without sessions.
    #[must_use]
    pub fn new() -> (r: Self)
        ensures
            r.wf(),
            r@ == Map::<Seq<char>, Session>::empty(),
    {
        let r = SessionManager { sessions: tables::no_sessions() };
        assert(r@ =~= Map::<Seq<char>, Session>::empty());
        r
    }

    /// Puts a session under its id.
    pub fn insert(&mut self, session: Session)
        requires
            old(self).wf(),
            session.wf(),
        ensures
            final(self).wf(),
            final(self)@ == old(self)@.insert(session@.id, session),
    {
        tables::put_session(&mut self.sessions, session.id.clone(), session);
    }

    /// A summary of a session, where this node terminates it.
    #[must_use]
    pub fn get(&self, session_id: &str) -> (r: Option<SessionInfo>)
        requires
            self.wf(),
        ensures
            match r {
                Some(info) => self@.dom().contains(session_id@) && sums_up(
                    info@,
                    self@[session_id@],
                ),
                None => !self@.dom().contains(session_id@),
            },
    {
        tables::view_session(&self.sessions, session_id)
    }

    /// Takes a session out, for good or to work on it.
    pub fn remove(&mut self, session_id: &str) -> (r: Option<Session>)
        requires
            old(self).wf(),
        ensures
            final(self).wf(),
            final(self)@ == old(self)@.remove(session_id@),
            match r {
                Some(session) => old(self)@.dom().contains(session_id@) && session == old(
                    self,
                )@[session_id@] && session.wf() && session@.id == session_id@,
                None => !old(self)@.dom().contains(session_id@),
            },
    {
        tables::take_session(&mut self.sessions, session_id)
    }

    /// Number of sessions.
    #[must_use]
    pub fn len(&self) -> (r: usize)
        ensures
            r == self@.dom().len(),
    {
        tables::count_sessions(&self.sessions)
    }

    /// Whether there is no session.
    #[must_use]
    pub fn is_empty(&self) -> (r: bool)
        ensures
            r == self@.dom().is_empty(),
    {
        tables::is_without_sessions(&self.sessions)
    }

    /// Total tunnels across every local session; at most what a `usize` counts.
    #[must_use]
    pub fn tunnel_count(&self) -> (r: usize)
        requires
            self.wf(),
        ensures
            tunnels_in(self@) <= usize::MAX ==> r == tunnels_in(self@),
            tunnels_in(self@) > usize::MAX ==> r == usize::MAX,
    {
        let all = tables::all_sessions(&self.sessions);
        let ghost names = tables::names(all@);
        let ghost count = |k: Seq<char>| self@[k]@.tunnels.dom().len();
        proof {
            lemma_sum_along(names, self@.dom(), count);
        }
        let mut total: usize = 0;
        let mut i: usize = 0;
        while i < all.len()
            invariant
                i <= all@.len(),
                names == tables::names(all@),
                sum_along(names, count) == tunnels_in(self@),
                count == (|k: Seq<char>| self@[k]@.tunnels.dom().len()),
                forall|k: int|
                    0 <= k < all@.len() ==> sums_up((#[trigger] all@[k]).1@, self@[all@[k].0@]),
                total == sum_along(names.take(i as int), count),
            decreases all@.len() - i,
        {
            proof {
                lemma_listed_length(all@[i as int].1@.tunnels, self@[all@[i as int].0@]@.tunnels);
                assert(names.take(i as int + 1).drop_last() =~= names.take(i as int));
                assert(names.take(i as int + 1).last() == all@[i as int].0@);
                lemma_sum_along_grows(names, count, i as int + 1);
            }
            let n: usize = all[i].1.tunnels.len();
            match total.checked_add(n) {
                Some(sum) => {
                    total = sum;
                },
                None => {
                    return usize::MAX;
                },
            }
            i = i + 1;
        }
        assert(names.take(all@.len() as int) =~= names);
        total
    }

    /// Every local session under its id, summed up for the admin endpoint, in no
    /// particular order.
    #[must_use]
    pub fn snapshot(&self) -> (r: Vec<(String, SessionInfo)>)
        requires
            self.wf(),
        ensures
            tables::enumerates_names(tables::names(r@), self@.dom()),
            forall|i: int|
                0 <= i < r@.len() ==> sums_up((#[trigger] r@[i]).1@, self@[r@[i].0@]),
    {
        tables::all_sessions(&self.sessions)
    }
}

/// A session is at its ceiling exactly where the account has one and as many streams
/// are open as it allows. Below it, opening adds one stream: the next number, waiting
/// for its head, with the whole window; every other stream, and everything else of
/// the session, stays as it is.
pub proof fn opening_adds_one_stream(
    s: SessionView,
    tunnel_id: Seq<char>,
    head: RequestHeadView,
    remote_addr: Seq<char>,
    other: u64,
)
    requires
        0 < s.next_stream_id < u64::MAX,
        other != s.next_stream_id,
    ensures
        s.at_stream_limit() <==> 0 < s.principal.limits.max_concurrent_streams
            <= s.streams.dom().len(),
        ({
            let after = s.with_new_stream();
            let id = s.next_stream_id as u64;
            &&& after.streams.dom().contains(id)
            &&& after.streams[id].head_waiting
            &&& after.streams[id].credit == s.initial_window
            &&& after.streams.dom().contains(other) <==> s.streams.dom().contains(other)
            &&& s.streams.dom().contains(other) ==> after.streams[other] == s.streams[other]
            &&& after.next_stream_id == s.next_stream_id + 1
            &&& after.id == s.id
            &&& after.node_id == s.node_id
            &&& after.principal == s.principal
            &&& after.tunnels == s.tunnels
            &&& after.initial_window == s.initial_window
        }),
        ({
            &&& s.open_frame(tunnel_id, head, remote_addr) matches ServerView::Open(open)
            &&& open.stream_id == s.next_stream_id
            &&& open.tunnel_id == tunnel_id
            &&& open.kind == StreamKind::Http
            &&& open.http == Some(head)
            &&& open.remote_addr == remote_addr
            &&& open.initial_window == s.initial_window
        }),
{
}

/// Closing a stream takes that one and nothing else.
pub proof fn closing_takes_one_stream(s: SessionView, id: u64, other: u64)
    ensures
        s.without_stream(id).streams.dom().contains(other) <==> s.streams.dom().contains(other)
            && other != id,
        s.streams.dom().contains(other) && other != id ==> s.without_stream(id).streams[other]
            == s.streams[other],
        s.without_stream(id).next_stream_id == s.next_stream_id,
        s.without_stream(id).id == s.id,
        s.without_stream(id).node_id == s.node_id,
        s.without_stream(id).principal == s.principal,
        s.without_stream(id).tunnels == s.tunnels,
        s.without_stream(id).initial_window == s.initial_window,
        s.has_stream(other) <==> s.streams.dom().contains(other),
{
}

/// Granting credit adds exactly that much to an open stream's and changes nothing
/// else; for a stream that is gone, it changes nothing at all. It is possible up to
/// what a semaphore counts.
pub proof fn grants_add_up(s: SessionView, id: u64, increment: u32, other: u64)
    ensures
        s.takes_credit(id, increment) <==> (s.streams.dom().contains(id) ==> s.streams[id].credit
            + increment <= 2_305_843_009_213_693_951),
        !s.streams.dom().contains(id) ==> s.credited(id, increment) == s,
        s.streams.dom().contains(id) && s.takes_credit(id, increment) ==> {
            let after = s.credited(id, increment);
            &&& after.streams.dom() =~= s.streams.dom()
            &&& after.streams[id].credit == s.streams[id].credit + increment
            &&& after.streams[id].head_waiting == s.streams[id].head_waiting
            &&& other != id && s.streams.dom().contains(other) ==> after.streams[other]
                == s.streams[other]
            &&& after.next_stream_id == s.next_stream_id
            &&& after.id == s.id
            &&& after.node_id == s.node_id
            &&& after.principal == s.principal
            &&& after.tunnels == s.tunnels
            &&& after.initial_window == s.initial_window
        },
{
}

/// A writer sends its next chunk exactly where its stream is open and has credit for
/// all of it. That costs as much credit as the chunk has bytes, leaves the chunks
/// behind it in order, and touches nothing else. Otherwise nothing changes: the
/// writer is done, its stream is gone, or it waits.
pub proof fn writers_send_what_the_credit_allows(
    writer: WriterView,
    s: SessionView,
    other: u64,
    i: int,
)
    ensures
        ({
            let open = s.streams.dom().contains(writer.stream_id);
            let credit = s.streams[writer.stream_id].credit;
            let left = writer.rest.len();
            let goes = left > 0 && open && writer.rest[0].len() <= credit;
            let after = writer.charged(s);
            &&& left == 0 ==> writer.step(s) is Done
            &&& left > 0 && !open ==> writer.step(s) is Gone
            &&& left > 0 && open && !goes ==> writer.step(s) is Blocked
            &&& goes ==> writer.step(s) == StepView::Frame(
                ServerView::Data { stream_id: writer.stream_id, payload: writer.rest[0] },
            )
            &&& goes ==> {
                &&& writer.stepped(s).stream_id == writer.stream_id
                &&& writer.stepped(s).rest.len() == left - 1
                &&& 0 <= i < left - 1 ==> writer.stepped(s).rest[i] == writer.rest[i + 1]
                &&& after.streams.dom() =~= s.streams.dom()
                &&& after.streams[writer.stream_id].credit == credit - writer.rest[0].len()
                &&& after.streams[writer.stream_id].head_waiting
                    == s.streams[writer.stream_id].head_waiting
                &&& other != writer.stream_id && s.streams.dom().contains(other)
                    ==> after.streams[other] == s.streams[other]
                &&& after.tunnels == s.tunnels
                &&& after.next_stream_id == s.next_stream_id
                &&& after.id == s.id
                &&& after.node_id == s.node_id
                &&& after.principal == s.principal
                &&& after.initial_window == s.initial_window
            }
            &&& !goes ==> writer.stepped(s) == writer && after == s
        }),
{
}

/// A frame carries at most 65536 bytes, and a payload of that many travels in one.
pub proof fn frames_carry_up_to_64_kib(payload: Seq<u8>, i: int)
    ensures
        payload.len() <= 65536 ==> chunked(payload) == seq![payload],
        0 <= i < chunked(payload).len() ==> chunked(payload)[i].len() <= 65536,
        0 <= i < chunked(payload).len() - 1 ==> chunked(payload)[i].len() == 65536,
{
    chunking_keeps_every_byte(payload);
}

/// An opening that failed is told why in a sentence.
pub proof fn open_errors_are_told(limit: u32)
    ensures
        OpenError::SessionGone.sentence() == "agent session is gone"@,
        OpenError::TooManyStreams(limit).sentence()
            == "session exceeded its concurrent stream limit ("@ + text::decimal(limit as nat)
            + ")"@,
{
}

/// A list of a table's tunnels has as many entries as the table, each of them the
/// tunnel of some id, and misses none.
pub proof fn listed_tunnels_are_the_tables(
    list: Seq<TunnelView>,
    table: Map<Seq<char>, TunnelView>,
    id: Seq<char>,
    i: int,
)
    requires
        lists_tunnels(list, table),
        table.dom().finite(),
    ensures
        list.len() == table.dom().len(),
        table.dom().contains(id) ==> list.contains(table[id]),
        0 <= i < list.len() ==> exists|k: Seq<char>|
            table.dom().contains(k) && list[i] == #[trigger] table[k],
{
    let names = choose|names: Seq<Seq<char>>| #[trigger]
        tables::enumerates_names(names, table.dom()) && names.len() == list.len() && forall|i: int|
            0 <= i < list.len() ==> #[trigger] list[i] == table[names[i]];
    assert(names.to_set() =~= table.dom()) by {
        assert forall|k: Seq<char>| names.to_set().contains(k) == table.dom().contains(k) by {
            assert(names.contains(k) == table.dom().contains(k));
        }
    }
    names.unique_seq_to_set();
    if table.dom().contains(id) {
        assert(names.contains(id));
        let k = choose|k: int| 0 <= k < names.len() && names[k] == id;
        assert(list[k] == table[names[k]]);
    }
    if 0 <= i < list.len() {
        assert(names.contains(names[i]));
        assert(list[i] == table[names[i]]);
    }
}

/// A summary is that of its session: its id, its account, its tunnels and how many
/// streams are open.
pub proof fn summaries_tell_of_their_session(info: InfoView, session: Session)
    requires
        sums_up(info, session),
        session.wf(),
    ensures
        info.session_id == session@.id,
        info.account_id == session@.principal.account_id,
        info.open_streams == session@.streams.dom().len(),
        lists_tunnels(info.tunnels, session@.tunnels),
{
}

/// The tunnels of a node are those of its sessions, counted: none without a session,
/// and each further session adds its own.
pub proof fn tunnels_are_counted_over_sessions(
    sessions: Map<Seq<char>, Session>,
    id: Seq<char>,
    session: Session,
)
    requires
        sessions.dom().finite(),
        !sessions.dom().contains(id),
    ensures
        tunnels_in(Map::empty()) == 0,
        tunnels_in(sessions.insert(id, session)) == tunnels_in(sessions)
            + session@.tunnels.dom().len(),
{
    let more = sessions.insert(id, session);
    let count = |k: Seq<char>| more[k]@.tunnels.dom().len();
    let fewer = |k: Seq<char>| sessions[k]@.tunnels.dom().len();
    lemma_sum_over_remove(more.dom(), count, id);
    assert(more.dom().remove(id) =~= sessions.dom());
    lemma_sums_agree(sessions.dom(), count, fewer);
    assert(Map::<Seq<char>, Session>::empty().dom() =~= Set::empty());
}

/// Counts that agree on every member of a set have the same sum over it.
proof fn lemma_sums_agree(
    set: Set<Seq<char>>,
    a: spec_fn(Seq<char>) -> nat,
    b: spec_fn(Seq<char>) -> nat,
)
    requires
        set.finite(),
        forall|k: Seq<char>| set.contains(k) ==> #[trigger] a(k) == b(k),
    ensures
        sum_over(set, a) == sum_over(set, b),
    decreases set.len(),
{
    if set.len() > 0 {
        let k = set.choose();
        assert(a(k) == b(k));
        assert forall|j: Seq<char>| set.remove(k).contains(j) implies #[trigger] a(j) == b(j) by {
            assert(set.contains(j));
        }
        lemma_sums_agree(set.remove(k), a, b);
    }
}

/// Chunks, tunnels, summaries and steps are read as they are.
pub proof fn session_values_are_read_as_they_are(
    chunk: Chunk,
    tunnel: Tunnel,
    info: SessionInfo,
    step: WriteStep,
    tunnels: Seq<Tunnel>,
    buffers: Seq<Bytes>,
    i: int,
)
    ensures
        chunk matches Chunk::Data(bytes) ==> chunk@ == ChunkView::Data(payload::bytes_of(bytes)),
        chunk matches Chunk::End(trailers) ==> chunk@ == ChunkView::End(
            proto::header_views(trailers@),
        ),
        chunk matches Chunk::Reset(code, message) ==> chunk@ == ChunkView::Reset(code, message@),
        tunnel@.tunnel_id == tunnel.tunnel_id@,
        tunnel@.routing_key == tunnel.routing_key@,
        tunnel@.public_url == tunnel.public_url@,
        info@.session_id == info.session_id@,
        info@.account_id == info.account_id@,
        info@.open_streams == info.open_streams,
        info@.tunnels == tunnel_views(info.tunnels@),
        step matches WriteStep::Frame(frame) ==> step@ == StepView::Frame(frame@),
        step is Blocked <==> step@ is Blocked,
        step is Gone <==> step@ is Gone,
        step is Done <==> step@ is Done,
        tunnel_views(tunnels).len() == tunnels.len(),
        0 <= i < tunnels.len() ==> tunnel_views(tunnels)[i] == tunnels[i]@,
        chunk_bytes(buffers).len() == buffers.len(),
        0 <= i < buffers.len() ==> chunk_bytes(buffers)[i] == payload::bytes_of(buffers[i]),
{
}

/// Pieces are put together one behind the other.
pub proof fn pieces_are_put_in_order(piece: Seq<u8>, pieces: Seq<Seq<u8>>)
    ensures
        joined(Seq::empty()).len() == 0,
        joined(seq![piece] + pieces) == piece + joined(pieces),
{
    assert((seq![piece] + pieces).skip(1) =~= pieces);
}

/// A well-formed session keeps to its account's ceiling on streams, its streams have
/// ids below the next one and no more credit than a semaphore counts, and its tunnels
/// stand under their ids.
pub proof fn sessions_keep_their_bounds(session: Session, id: u64, tunnel_id: Seq<char>)
    requires
        session.wf(),
    ensures
        session@.streams.dom().finite(),
        session@.tunnels.dom().finite(),
        session@.principal.limits.max_concurrent_streams > 0 ==> session@.streams.dom().len()
            <= session@.principal.limits.max_concurrent_streams,
        session@.streams.dom().contains(id) ==> 0 < id < session@.next_stream_id
            && session@.streams[id].credit <= 2_305_843_009_213_693_951,
        session@.tunnels.dom().contains(tunnel_id) ==> session@.tunnels[tunnel_id].tunnel_id
            == tunnel_id,
{
}

/// The sessions of a node are finitely many, well formed, and stand under their ids.
pub proof fn sessions_stand_under_their_ids(manager: SessionManager, id: Seq<char>)
    ensures
        manager.wf() ==> manager@.dom().finite(),
        manager.wf() && manager@.dom().contains(id) ==> manager@[id].wf() && manager@[id]@.id
            == id,
{
}

} // verus!
