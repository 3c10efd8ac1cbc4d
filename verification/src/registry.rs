//! The routing table: which edge node currently owns a given routing key.
//!
//! Three properties matter.
//!
//! 1. Claims are atomic: of two agents that race for a key, exactly one wins.
//! 2. Releases are owner-checked: a node that comes back from a network
//!    partition must not delete a claim that another session has since taken.
//! 3. Entries expire: a killed node cannot clean up, so every row carries a time
//!    to live that the owning node renews.
//!
//! Each is stated as a law at the end of this module.

use std::time::{Duration, Instant};
use vstd::prelude::*;
use vstd::string::*;

use crate::error::{Error, ErrorView};
use crate::text;

verus! {

/// One row of the routing table.
#[derive(Debug, PartialEq, Eq)]
pub struct RouteRecord {
    /// Canonical key, from [`crate::routing::RoutingKey`].
    pub routing_key: String,
    /// Edge node that currently terminates the agent session.
    pub node_id: String,
    /// Address a sibling edge node dials to hand a request over, such as
    /// `10.0.3.14:7100`. An internal address; it is never exposed.
    pub node_addr: String,
    /// Agent session that owns the claim. Every mutation compares it.
    pub session_id: String,
    /// Tunnel within that session.
    pub tunnel_id: String,
    /// Owning account, carried so that traffic can be attributed without a
    /// second lookup.
    pub account_id: String,
}

/// A row by the text of its fields.
#[verifier::ext_equal]
pub struct RouteView {
    pub routing_key: Seq<char>,
    pub node_id: Seq<char>,
    pub node_addr: Seq<char>,
    pub session_id: Seq<char>,
    pub tunnel_id: Seq<char>,
    pub account_id: Seq<char>,
}

impl View for RouteRecord {
    type V = RouteView;

    open spec fn view(&self) -> RouteView {
        RouteView {
            routing_key: self.routing_key@,
            node_id: self.node_id@,
            node_addr: self.node_addr@,
            session_id: self.session_id@,
            tunnel_id: self.tunnel_id@,
            account_id: self.account_id@,
        }
    }
}

impl Clone for RouteRecord {
    fn clone(&self) -> (r: Self)
        ensures
            r@ == self@,
    {
        RouteRecord {
            routing_key: self.routing_key.clone(),
            node_id: self.node_id.clone(),
            node_addr: self.node_addr.clone(),
            session_id: self.session_id.clone(),
            tunnel_id: self.tunnel_id.clone(),
            account_id: self.account_id.clone(),
        }
    }
}

impl RouteView {
    /// The stored form: the six fields, separated by tabs.
    pub open spec fn encoded(self) -> Seq<char> {
        self.routing_key + seq!['\t'] + (self.node_id + seq!['\t'] + (self.node_addr + seq!['\t'] + (
        self.session_id + seq!['\t'] + (self.tunnel_id + seq!['\t'] + self.account_id))))
    }

    /// Whether no field holds a tab: ids are alphanumeric, hosts are names and
    /// addresses are `host:port`.
    pub open spec fn tab_free(self) -> bool {
        &&& !self.routing_key.contains('\t')
        &&& !self.node_id.contains('\t')
        &&& !self.node_addr.contains('\t')
        &&& !self.session_id.contains('\t')
        &&& !self.tunnel_id.contains('\t')
        &&& !self.account_id.contains('\t')
    }
}

/// The name of the field at an index of the stored form.
pub open spec fn field_name(i: int) -> Seq<char> {
    if i == 1 {
        "node_id"@
    } else if i == 2 {
        "node_addr"@
    } else if i == 3 {
        "session_id"@
    } else if i == 4 {
        "tunnel_id"@
    } else {
        "account_id"@
    }
}

/// The row that a stored text holds in its first six fields, or which field it
/// lacks.
pub open spec fn decoded(raw: Seq<char>) -> Result<RouteView, ErrorView> {
    let parts = text::split(raw, '\t');
    if parts.len() >= 6 {
        Ok(
            RouteView {
                routing_key: parts[0],
                node_id: parts[1],
                node_addr: parts[2],
                session_id: parts[3],
                tunnel_id: parts[4],
                account_id: parts[5],
            },
        )
    } else {
        Err(
            ErrorView::RegistryUnavailable(
                "record missing field `"@ + field_name(parts.len() as int) + "`"@,
            ),
        )
    }
}

/// Whether decoding came out as described.
pub open spec fn decodes_to(
    r: Result<RouteRecord, Error>,
    expected: Result<RouteView, ErrorView>,
) -> bool {
    match expected {
        Ok(v) => r matches Ok(record) && record@ == v,
        Err(v) => r matches Err(e) && e@ == v,
    }
}

/// Appends a tab and a field.
fn tabbed(head: &str, tail: &str) -> (r: String)
    ensures
        r@ == head@ + seq!['\t'] + tail@,
{
    let mut out: String = head.to_owned();
    out.push('\t');
    out.append(tail);
    assert(out@ =~= head@ + seq!['\t'] + tail@);
    out
}

impl RouteRecord {
    /// Writes the compact form that a shared table stores.
    ///
    /// A tab-separated record: it is a hot path, the schema is fixed, and none
    /// of these fields may hold a tab.
    #[must_use]
    pub fn encode(&self) -> (r: String)
        ensures
            r@ == self@.encoded(),
    {
        let ids = tabbed(self.tunnel_id.as_str(), self.account_id.as_str());
        let owner = tabbed(self.session_id.as_str(), ids.as_str());
        let place = tabbed(self.node_addr.as_str(), owner.as_str());
        let node = tabbed(self.node_id.as_str(), place.as_str());
        tabbed(self.routing_key.as_str(), node.as_str())
    }

    /// Parses the form written by [`RouteRecord::encode`].
    ///
    /// A malformed record is a transient backend fault, not a routing decision.
    pub fn decode(raw: &str) -> (r: Result<RouteRecord, Error>)
        ensures
            decodes_to(r, decoded(raw@)),
    {
        let parts = text::split_at_char(raw, '\t');
        let n: usize = parts.len();
        if n < 6 {
            let field = if n == 1 {
                "node_id"
            } else if n == 2 {
                "node_addr"
            } else if n == 3 {
                "session_id"
            } else if n == 4 {
                "tunnel_id"
            } else {
                "account_id"
            };
            return Err(
                Error::RegistryUnavailable(text::join3("record missing field `", field, "`")),
            );
        }
        assert forall|i: int| 0 <= i < n implies #[trigger] parts@[i]@ == text::split(raw@, '\t')[i] by {
            assert(text::texts(parts@)[i] == parts@[i]@);
        }
        Ok(
            RouteRecord {
                routing_key: parts[0].clone(),
                node_id: parts[1].clone(),
                node_addr: parts[2].clone(),
                session_id: parts[3].clone(),
                tunnel_id: parts[4].clone(),
                account_id: parts[5].clone(),
            },
        )
    }
}

/// The tab-separated fields of a stored row are its fields, in order.
proof fn lemma_encoded_fields(v: RouteView)
    requires
        v.tab_free(),
    ensures
        text::split(v.encoded(), '\t') == seq![
            v.routing_key,
            v.node_id,
            v.node_addr,
            v.session_id,
            v.tunnel_id,
            v.account_id,
        ],
{
    let ids = v.tunnel_id + seq!['\t'] + v.account_id;
    let owner = v.session_id + seq!['\t'] + ids;
    let place = v.node_addr + seq!['\t'] + owner;
    let node = v.node_id + seq!['\t'] + place;
    text::lemma_split_single(v.account_id, '\t');
    text::lemma_split_first(v.tunnel_id, '\t', v.account_id);
    text::lemma_split_first(v.session_id, '\t', ids);
    text::lemma_split_first(v.node_addr, '\t', owner);
    text::lemma_split_first(v.node_id, '\t', place);
    text::lemma_split_first(v.routing_key, '\t', node);
    assert(text::split(v.encoded(), '\t') =~= seq![
        v.routing_key,
        v.node_id,
        v.node_addr,
        v.session_id,
        v.tunnel_id,
        v.account_id,
    ]);
}

/// What [`RouteRecord::encode`] writes, [`RouteRecord::decode`] reads back.
pub proof fn records_survive_the_round_trip(v: RouteView)
    requires
        v.tab_free(),
    ensures
        decoded(v.encoded()) == Ok::<RouteView, ErrorView>(v),
{
    lemma_encoded_fields(v);
}

/// The owner is the fourth tab-separated field of a stored row, where scripts
/// that run inside the shared table look for it without decoding the rest.
pub proof fn owner_is_the_fourth_field(v: RouteView)
    requires
        v.tab_free(),
    ensures
        text::split(v.encoded(), '\t').len() == 6,
        text::split(v.encoded(), '\t')[3] == v.session_id,
{
    lemma_encoded_fields(v);
}

/// Outcome of a claim attempt.
#[derive(Debug, PartialEq, Eq)]
pub enum Claim {
    /// The caller now owns the routing key.
    Acquired,
    /// Someone else owns it; the current owner is returned so that the edge can
    /// produce a useful error.
    Taken(Box<RouteRecord>),
}

/// A claim outcome by the text of its fields.
#[verifier::ext_equal]
pub enum ClaimView {
    Acquired,
    Taken(RouteView),
}

impl View for Claim {
    type V = ClaimView;

    open spec fn view(&self) -> ClaimView {
        match self {
            Claim::Acquired => ClaimView::Acquired,
            Claim::Taken(owner) => ClaimView::Taken((*owner)@),
        }
    }
}

impl Clone for Claim {
    fn clone(&self) -> (r: Self)
        ensures
            r@ == self@,
    {
        match self {
            Claim::Acquired => Claim::Acquired,
            Claim::Taken(owner) => {
                let record: &RouteRecord = owner;
                Claim::Taken(Box::new(record.clone()))
            },
        }
    }
}

/// The longest time to live, in milliseconds: that of the longest `Duration`.
pub const MAX_TTL_MS: u128 = 18_446_744_073_709_551_615_999;

/// The last moment of a table's clock, in nanoseconds: a `Duration` counts
/// `u64::MAX` seconds and 999 999 999 nanoseconds at most.
pub const MAX_CLOCK: u128 = 18_446_744_073_709_551_615_999_999_999;

/// The answer of a routing table to a claim, by its text.
pub open spec fn claim_view(answer: Result<Claim, Error>) -> Result<ClaimView, ErrorView> {
    match answer {
        Ok(claim) => Ok(claim@),
        Err(e) => Err(e@),
    }
}

/// The answer of a routing table to a lookup, by its text.
pub open spec fn lookup_view(answer: Result<Option<RouteRecord>, Error>) -> Result<
    Option<RouteView>,
    ErrorView,
> {
    match answer {
        Ok(Some(record)) => Ok(Some(record@)),
        Ok(None) => Ok(None),
        Err(e) => Err(e@),
    }
}

/// The answer of a routing table to a renewal, by its text.
pub open spec fn renew_view(answer: Result<bool, Error>) -> Result<bool, ErrorView> {
    match answer {
        Ok(renewed) => Ok(renewed),
        Err(e) => Err(e@),
    }
}

/// The answer of a routing table to a release, by its text.
pub open spec fn release_view(answer: Result<(), Error>) -> Result<(), ErrorView> {
    match answer {
        Ok(_) => Ok(()),
        Err(e) => Err(e@),
    }
}

/// The shared routing table. Times to live are in milliseconds.
///
/// Each operation reports [`Error::RegistryUnavailable`] if the backend cannot
/// be reached. What a backend does is its own to say: in four relations between
/// the table before an operation, the table after it, and the answer.
pub trait Registry: Sized {
    /// Whether a claim can turn `before` into `after` with this answer.
    spec fn claims(
        before: Self,
        record: RouteView,
        ttl_ms: u128,
        after: Self,
        answer: Result<ClaimView, ErrorView>,
    ) -> bool;

    /// Whether a lookup can turn `before` into `after` with this answer.
    spec fn finds(
        before: Self,
        key: Seq<char>,
        after: Self,
        answer: Result<Option<RouteView>, ErrorView>,
    ) -> bool;

    /// Whether a renewal can turn `before` into `after` with this answer.
    spec fn renews(
        before: Self,
        key: Seq<char>,
        session_id: Seq<char>,
        ttl_ms: u128,
        after: Self,
        answer: Result<bool, ErrorView>,
    ) -> bool;

    /// Whether a release can turn `before` into `after` with this answer.
    spec fn frees(
        before: Self,
        key: Seq<char>,
        session_id: Seq<char>,
        after: Self,
        answer: Result<(), ErrorView>,
    ) -> bool;

    /// Atomically claims `record.routing_key` for `record.session_id`.
    ///
    /// Re-claiming a key that the session already owns succeeds and refreshes
    /// its time to live, which makes agent reconnects idempotent.
    fn claim(&mut self, record: &RouteRecord, ttl_ms: u128) -> (r: Result<Claim, Error>)
        requires
            ttl_ms <= MAX_TTL_MS,
        ensures
            Self::claims(*old(self), record@, ttl_ms, *final(self), claim_view(r)),
    ;

    /// Resolves a routing key to its current owner.
    fn lookup(&mut self, routing_key: &str) -> (r: Result<Option<RouteRecord>, Error>)
        ensures
            Self::finds(*old(self), routing_key@, *final(self), lookup_view(r)),
    ;

    /// Extends the time to live, but only if `session_id` still owns the key.
    ///
    /// `false` means that ownership was lost. Callers must take that as "my
    /// tunnel is gone, tear the session down", and not retry.
    fn renew(&mut self, routing_key: &str, session_id: &str, ttl_ms: u128) -> (r: Result<
        bool,
        Error,
    >)
        requires
            ttl_ms <= MAX_TTL_MS,
        ensures
            Self::renews(
                *old(self),
                routing_key@,
                session_id@,
                ttl_ms,
                *final(self),
                renew_view(r),
            ),
    ;

    /// Releases a key, but only if `session_id` still owns it.
    fn release(&mut self, routing_key: &str, session_id: &str) -> (r: Result<(), Error>)
        ensures
            Self::frees(*old(self), routing_key@, session_id@, *final(self), release_view(r)),
    ;
}

/// A row together with the moment at which it dies, in nanoseconds.
#[verifier::ext_equal]
pub struct Row {
    pub record: RouteView,
    pub expires_at: int,
}

/// The moment at which a row written at `now` dies.
pub open spec fn expiry(now: int, ttl_ms: int) -> int {
    now + ttl_ms * 1_000_000
}

/// The rows that have not expired at `now`.
pub open spec fn live(rows: Map<Seq<char>, Row>, now: int) -> Map<Seq<char>, Row> {
    rows.restrict(Set::new(|k: Seq<char>| rows.dom().contains(k) && rows[k].expires_at > now))
}

/// Whether a key is held by another session than this one.
pub open spec fn held_by_another(
    rows: Map<Seq<char>, Row>,
    key: Seq<char>,
    session_id: Seq<char>,
) -> bool {
    rows.dom().contains(key) && rows[key].record.session_id != session_id
}

/// Whether a key is held by this session.
pub open spec fn held_by(
    rows: Map<Seq<char>, Row>,
    key: Seq<char>,
    session_id: Seq<char>,
) -> bool {
    rows.dom().contains(key) && rows[key].record.session_id == session_id
}

/// The table after a claim at `now`.
pub open spec fn after_claim(
    rows: Map<Seq<char>, Row>,
    now: int,
    record: RouteView,
    ttl_ms: int,
) -> Map<Seq<char>, Row> {
    let rows = live(rows, now);
    if held_by_another(rows, record.routing_key, record.session_id) {
        rows
    } else {
        rows.insert(record.routing_key, Row { record, expires_at: expiry(now, ttl_ms) })
    }
}

/// What a claim at `now` is answered.
pub open spec fn claim_answer(
    rows: Map<Seq<char>, Row>,
    now: int,
    record: RouteView,
) -> ClaimView {
    let rows = live(rows, now);
    if held_by_another(rows, record.routing_key, record.session_id) {
        ClaimView::Taken(rows[record.routing_key].record)
    } else {
        ClaimView::Acquired
    }
}

/// What a lookup at `now` is answered.
pub open spec fn lookup_answer(rows: Map<Seq<char>, Row>, now: int, key: Seq<char>) -> Option<
    RouteView,
> {
    let rows = live(rows, now);
    if rows.dom().contains(key) {
        Some(rows[key].record)
    } else {
        None
    }
}

/// What a renewal at `now` is answered.
pub open spec fn renew_answer(
    rows: Map<Seq<char>, Row>,
    now: int,
    key: Seq<char>,
    session_id: Seq<char>,
) -> bool {
    held_by(live(rows, now), key, session_id)
}

/// The table after a renewal at `now`.
pub open spec fn after_renew(
    rows: Map<Seq<char>, Row>,
    now: int,
    key: Seq<char>,
    session_id: Seq<char>,
    ttl_ms: int,
) -> Map<Seq<char>, Row> {
    let rows = live(rows, now);
    if held_by(rows, key, session_id) {
        rows.insert(key, Row { record: rows[key].record, expires_at: expiry(now, ttl_ms) })
    } else {
        rows
    }
}

/// The table after a release.
pub open spec fn after_release(
    rows: Map<Seq<char>, Row>,
    key: Seq<char>,
    session_id: Seq<char>,
) -> Map<Seq<char>, Row> {
    if held_by(rows, key, session_id) {
        rows.remove(key)
    } else {
        rows
    }
}

/// A point of the monotonic clock.
#[verifier::external_type_specification]
#[verifier::external_body]
pub struct ExInstant(std::time::Instant);

/// Specifies `Instant::now`. Which moment it is, is left open.
pub assume_specification[ Instant::now ]() -> (r: Instant)
;

/// Specifies `Instant::elapsed`. How much time has passed, is left open.
pub assume_specification[ Instant::elapsed ](since: &Instant) -> (r: Duration)
;

/// Specifies `Duration::as_nanos`. Trusted: the longest duration is
/// `u64::MAX` seconds and 999 999 999 nanoseconds. Which number it is, is left
/// open, as is the reading of the clock that it is applied to.
pub assume_specification[ Duration::as_nanos ](d: &Duration) -> (r: u128)
    ensures
        r <= MAX_CLOCK,
;

/// A row of the process-local table.
#[derive(Debug)]
struct Entry {
    record: RouteRecord,
    expires_at: u128,
}

/// The value of one entry.
closed spec fn row_of(e: Entry) -> Row {
    Row { record: e.record@, expires_at: e.expires_at as int }
}

/// The table that a list of entries stands for.
closed spec fn rows_of(entries: Seq<Entry>) -> Map<Seq<char>, Row> {
    Map::new(
        |k: Seq<char>| exists|i: int| 0 <= i < entries.len() && row_of(#[trigger] entries[i]).record.routing_key == k,
        |k: Seq<char>|
            row_of(
                entries[choose|i: int|
                    0 <= i < entries.len() && row_of(#[trigger] entries[i]).record.routing_key == k],
            ),
    )
}

/// Whether no key occurs twice.
closed spec fn distinct(entries: Seq<Entry>) -> bool {
    forall|i: int, j: int|
        0 <= i < j < entries.len() ==> (#[trigger] entries[i]).record.routing_key@ != (
        #[trigger] entries[j]).record.routing_key@
}

/// Each entry is the row of its key.
proof fn lemma_entry_is_row(entries: Seq<Entry>, i: int)
    requires
        distinct(entries),
        0 <= i < entries.len(),
    ensures
        rows_of(entries).dom().contains(entries[i].record.routing_key@),
        rows_of(entries)[entries[i].record.routing_key@] == row_of(entries[i]),
{
    let k = entries[i].record.routing_key@;
    assert(row_of(entries[i]).record.routing_key == k);
    let j = choose|j: int|
        0 <= j < entries.len() && row_of(#[trigger] entries[j]).record.routing_key == k;
    assert(entries[j].record.routing_key@ == k);
    assert(i == j);
}

/// Process-local routing table.
///
/// Right for a single-node deployment; two replicas would each have their own
/// view.
#[derive(Debug)]
pub struct MemoryRegistry {
    entries: Vec<Entry>,
    /// The moment from which this table counts time.
    origin: Instant,
}

impl View for MemoryRegistry {
    type V = Map<Seq<char>, Row>;

    closed spec fn view(&self) -> Map<Seq<char>, Row> {
        rows_of(self.entries@)
    }
}

impl MemoryRegistry {
    /// No key occurs twice.
    #[verifier::type_invariant]
    closed spec fn keys_are_distinct(&self) -> bool {
        distinct(self.entries@)
    }

    /// An empty table.
    #[must_use]
    pub fn new() -> (r: Self)
        ensures
            r@ == Map::<Seq<char>, Row>::empty(),
    {
        let r = MemoryRegistry { entries: Vec::new(), origin: Instant::now() };
        assert(r@ =~= Map::<Seq<char>, Row>::empty());
        r
    }

    /// Whether a number of nanoseconds is a reading of this table's clock: the
    /// time that has elapsed since the moment from which the table counts.
    pub closed spec fn reads(&self, now: u128) -> bool {
        exists|passed: Duration|
            call_ensures(Instant::elapsed, (&self.origin,), passed) && #[trigger] call_ensures(
                Duration::as_nanos,
                (&passed,),
                now,
            )
    }

    /// Nanoseconds on this table's clock.
    pub fn clock(&self) -> (r: u128)
        ensures
            self.reads(r),
            r <= MAX_CLOCK,
    {
        self.origin.elapsed().as_nanos()
    }

    /// Takes the entries out, to be put back before the end of the operation.
    fn take(&mut self) -> (r: Vec<Entry>)
        ensures
            r@ == old(self).entries@,
            distinct(r@),
    {
        proof {
            use_type_invariant(&*self);
        }
        let mut entries: Vec<Entry> = Vec::new();
        std::mem::swap(&mut entries, &mut self.entries);
        entries
    }

    /// Drops the rows that have expired at `now`.
    pub fn evict_expired(&mut self, now: u128)
        ensures
            final(self)@ == live(old(self)@, now as int),
    {
        let mut entries = self.take();
        evict(&mut entries, now);
        self.entries = entries;
    }

    /// Claims a key at the moment `now`.
    pub fn claim_at(&mut self, now: u128, record: &RouteRecord, ttl_ms: u128) -> (r: Claim)
        requires
            now <= MAX_CLOCK,
            ttl_ms <= MAX_TTL_MS,
        ensures
            final(self)@ == after_claim(old(self)@, now as int, record@, ttl_ms as int),
            r@ == claim_answer(old(self)@, now as int, record@),
    {
        let mut entries = self.take();
        evict(&mut entries, now);
        let entry = Entry { record: record.clone(), expires_at: now + ttl_ms * 1_000_000 };
        let ghost before = entries@;
        let outcome = match position(&entries, record.routing_key.as_str()) {
            Some(i) => {
                if text::same(
                    entries[i].record.session_id.as_str(),
                    record.session_id.as_str(),
                ) {
                    // Already ours: refresh it.
                    entries.set(i, entry);
                    proof {
                        lemma_replaced(before, i as int, entry);
                    }
                    Claim::Acquired
                } else {
                    Claim::Taken(Box::new(entries[i].record.clone()))
                }
            },
            None => {
                entries.push(entry);
                proof {
                    lemma_added(before, entry);
                }
                Claim::Acquired
            },
        };
        self.entries = entries;
        outcome
    }

    /// Looks a key up at the moment `now`.
    pub fn lookup_at(&mut self, now: u128, routing_key: &str) -> (r: Option<RouteRecord>)
        ensures
            final(self)@ == live(old(self)@, now as int),
            match lookup_answer(old(self)@, now as int, routing_key@) {
                Some(v) => r matches Some(record) && record@ == v,
                None => r is None,
            },
    {
        let mut entries = self.take();
        evict(&mut entries, now);
        let found = match position(&entries, routing_key) {
            Some(i) => Some(entries[i].record.clone()),
            None => None,
        };
        self.entries = entries;
        found
    }

    /// Renews a claim at the moment `now`.
    pub fn renew_at(
        &mut self,
        now: u128,
        routing_key: &str,
        session_id: &str,
        ttl_ms: u128,
    ) -> (r: bool)
        requires
            now <= MAX_CLOCK,
            ttl_ms <= MAX_TTL_MS,
        ensures
            final(self)@ == after_renew(
                old(self)@,
                now as int,
                routing_key@,
                session_id@,
                ttl_ms as int,
            ),
            r == renew_answer(old(self)@, now as int, routing_key@, session_id@),
    {
        let mut entries = self.take();
        evict(&mut entries, now);
        let ghost before = entries@;
        let mut renewed = false;
        match position(&entries, routing_key) {
            Some(i) => {
                if text::same(entries[i].record.session_id.as_str(), session_id) {
                    let entry = Entry {
                        record: entries[i].record.clone(),
                        expires_at: now + ttl_ms * 1_000_000,
                    };
                    entries.set(i, entry);
                    proof {
                        lemma_replaced(before, i as int, entry);
                    }
                    renewed = true;
                }
            },
            None => {},
        }
        self.entries = entries;
        renewed
    }

    /// Releases a claim that the session still owns.
    pub fn release_owned(&mut self, routing_key: &str, session_id: &str)
        ensures
            final(self)@ == after_release(old(self)@, routing_key@, session_id@),
    {
        let mut entries = self.take();
        let ghost before = entries@;
        match position(&entries, routing_key) {
            Some(i) => {
                if text::same(entries[i].record.session_id.as_str(), session_id) {
                    let _ = entries.remove(i);
                    proof {
                        lemma_removed(before, i as int);
                    }
                }
            },
            None => {},
        }
        self.entries = entries;
    }
}

impl Default for MemoryRegistry {
    fn default() -> (r: Self)
        ensures
            r@ == Map::<Seq<char>, Row>::empty(),
    {
        MemoryRegistry::new()
    }
}

impl Registry for MemoryRegistry {
    /// A claim at a moment that the table's clock reads.
    open spec fn claims(
        before: Self,
        record: RouteView,
        ttl_ms: u128,
        after: Self,
        answer: Result<ClaimView, ErrorView>,
    ) -> bool {
        exists|now: int|
            0 <= now <= MAX_CLOCK && before.reads(now as u128) && after@ == #[trigger] after_claim(
                before@,
                now,
                record,
                ttl_ms as int,
            ) && answer == Ok::<ClaimView, ErrorView>(claim_answer(before@, now, record))
    }

    /// A lookup at a moment that the table's clock reads.
    open spec fn finds(
        before: Self,
        key: Seq<char>,
        after: Self,
        answer: Result<Option<RouteView>, ErrorView>,
    ) -> bool {
        exists|now: int|
            0 <= now <= MAX_CLOCK && before.reads(now as u128) && after@ == live(before@, now)
                && answer == Ok::<
                Option<RouteView>,
                ErrorView,
            >(#[trigger] lookup_answer(before@, now, key))
    }

    /// A renewal at a moment that the table's clock reads.
    open spec fn renews(
        before: Self,
        key: Seq<char>,
        session_id: Seq<char>,
        ttl_ms: u128,
        after: Self,
        answer: Result<bool, ErrorView>,
    ) -> bool {
        exists|now: int|
            0 <= now <= MAX_CLOCK && before.reads(now as u128) && after@ == #[trigger] after_renew(
                before@,
                now,
                key,
                session_id,
                ttl_ms as int,
            ) && answer == Ok::<bool, ErrorView>(renew_answer(before@, now, key, session_id))
    }

    /// A release, which needs no clock.
    open spec fn frees(
        before: Self,
        key: Seq<char>,
        session_id: Seq<char>,
        after: Self,
        answer: Result<(), ErrorView>,
    ) -> bool {
        after@ == after_release(before@, key, session_id) && answer == Ok::<(), ErrorView>(())
    }

    /// Claims a key at the moment of the call.
    fn claim(&mut self, record: &RouteRecord, ttl_ms: u128) -> (r: Result<Claim, Error>) {
        let now: u128 = self.clock();
        Ok(self.claim_at(now, record, ttl_ms))
    }

    /// Looks a key up at the moment of the call.
    fn lookup(&mut self, routing_key: &str) -> (r: Result<Option<RouteRecord>, Error>) {
        let now: u128 = self.clock();
        let ghost before = self@;
        let found = self.lookup_at(now, routing_key);
        assert(lookup_answer(before, now as int, routing_key@) is Some == found is Some);
        Ok(found)
    }

    /// Renews a claim at the moment of the call.
    fn renew(&mut self, routing_key: &str, session_id: &str, ttl_ms: u128) -> (r: Result<
        bool,
        Error,
    >) {
        let now: u128 = self.clock();
        Ok(self.renew_at(now, routing_key, session_id, ttl_ms))
    }

    /// Releases a claim that the session still owns.
    fn release(&mut self, routing_key: &str, session_id: &str) -> (r: Result<(), Error>) {
        self.release_owned(routing_key, session_id);
        Ok(())
    }
}

/// Where the entry of a key stands.
fn position(entries: &Vec<Entry>, routing_key: &str) -> (r: Option<usize>)
    requires
        distinct(entries@),
    ensures
        match r {
            Some(i) => i < entries@.len() && entries@[i as int].record.routing_key@ == routing_key@
                && rows_of(entries@).dom().contains(routing_key@) && rows_of(
                entries@,
            )[routing_key@] == row_of(entries@[i as int]),
            None => !rows_of(entries@).dom().contains(routing_key@),
        },
{
    let mut i: usize = 0;
    while i < entries.len()
        invariant
            distinct(entries@),
            i <= entries@.len(),
            forall|k: int|
                0 <= k < i ==> (#[trigger] entries@[k]).record.routing_key@ != routing_key@,
        decreases entries@.len() - i,
    {
        if text::same(entries[i].record.routing_key.as_str(), routing_key) {
            proof {
                lemma_entry_is_row(entries@, i as int);
            }
            return Some(i);
        }
        i = i + 1;
    }
    None
}

/// Drops the entries that have expired at `now`.
fn evict(entries: &mut Vec<Entry>, now: u128)
    requires
        distinct(old(entries)@),
    ensures
        distinct(final(entries)@),
        rows_of(final(entries)@) == live(rows_of(old(entries)@), now as int),
{
    let ghost before = entries@;
    let mut i: usize = 0;
    while i < entries.len()
        invariant
            distinct(before),
            distinct(entries@),
            i <= entries@.len(),
            live(rows_of(entries@), now as int) == live(rows_of(before), now as int),
            forall|k: int| 0 <= k < i ==> (#[trigger] entries@[k]).expires_at > now,
        decreases entries@.len() - i,
    {
        if entries[i].expires_at > now {
            i = i + 1;
        } else {
            let ghost was = entries@;
            let _ = entries.remove(i);
            proof {
                lemma_removed(was, i as int);
                let k = was[i as int].record.routing_key@;
                lemma_entry_is_row(was, i as int);
                assert(live(rows_of(was).remove(k), now as int) =~= live(
                    rows_of(was),
                    now as int,
                ));
            }
        }
    }
    proof {
        let rows = rows_of(entries@);
        assert forall|k: Seq<char>| rows.dom().contains(k) implies rows[k].expires_at > now by {
            let j = choose|j: int|
                0 <= j < entries@.len() && row_of(#[trigger] entries@[j]).record.routing_key == k;
            lemma_entry_is_row(entries@, j);
        }
        assert(live(rows, now as int) =~= rows);
    }
}

/// Removing an entry removes its row.
proof fn lemma_removed(entries: Seq<Entry>, i: int)
    requires
        distinct(entries),
        0 <= i < entries.len(),
    ensures
        distinct(entries.remove(i)),
        rows_of(entries.remove(i)) == rows_of(entries).remove(entries[i].record.routing_key@),
{
    let after = entries.remove(i);
    let gone = entries[i].record.routing_key@;
    assert forall|a: int, b: int| 0 <= a < b < after.len() implies (
    #[trigger] after[a]).record.routing_key@ != (#[trigger] after[b]).record.routing_key@ by {
        let a0 = if a < i { a } else { a + 1 };
        let b0 = if b < i { b } else { b + 1 };
        assert(after[a] == entries[a0] && after[b] == entries[b0]);
    }
    let was = rows_of(entries).remove(gone);
    let is = rows_of(after);
    assert forall|k: Seq<char>|
        #![trigger is.dom().contains(k)]
        #![trigger was.dom().contains(k)]
        #![trigger is[k]]
        is.dom().contains(k) == was.dom().contains(k) && (is.dom().contains(k) ==> is[k]
            == was[k]) by {
        if is.dom().contains(k) {
            let a = choose|a: int|
                0 <= a < after.len() && row_of(#[trigger] after[a]).record.routing_key == k;
            let a0 = if a < i { a } else { a + 1 };
            assert(after[a] == entries[a0]);
            lemma_entry_is_row(after, a);
            lemma_entry_is_row(entries, a0);
            assert(entries[a0].record.routing_key@ != entries[i].record.routing_key@);
        }
        if was.dom().contains(k) {
            let a = choose|a: int|
                0 <= a < entries.len() && row_of(#[trigger] entries[a]).record.routing_key == k;
            assert(a != i);
            let a1 = if a < i { a } else { a - 1 };
            assert(after[a1] == entries[a]);
            assert(row_of(after[a1]).record.routing_key == k);
        }
    }
    assert(is.dom() =~= was.dom());
    assert(is =~= was);
}

/// Replacing an entry by one of the same key replaces its row.
proof fn lemma_replaced(entries: Seq<Entry>, i: int, entry: Entry)
    requires
        distinct(entries),
        0 <= i < entries.len(),
        entry.record.routing_key@ == entries[i].record.routing_key@,
    ensures
        distinct(entries.update(i, entry)),
        rows_of(entries.update(i, entry)) == rows_of(entries).insert(
            entry.record.routing_key@,
            row_of(entry),
        ),
{
    let after = entries.update(i, entry);
    let key = entry.record.routing_key@;
    assert forall|a: int| 0 <= a < after.len() implies (#[trigger] after[a]).record.routing_key@
        == entries[a].record.routing_key@ by {}
    assert forall|a: int, b: int| 0 <= a < b < after.len() implies (
    #[trigger] after[a]).record.routing_key@ != (#[trigger] after[b]).record.routing_key@ by {
        assert(entries[a].record.routing_key@ != entries[b].record.routing_key@);
    }
    let was = rows_of(entries).insert(key, row_of(entry));
    let is = rows_of(after);
    assert forall|k: Seq<char>|
        #![trigger is.dom().contains(k)]
        #![trigger was.dom().contains(k)]
        #![trigger is[k]]
        is.dom().contains(k) == was.dom().contains(k) && (is.dom().contains(k) ==> is[k]
            == was[k]) by {
        if is.dom().contains(k) {
            let a = choose|a: int|
                0 <= a < after.len() && row_of(#[trigger] after[a]).record.routing_key == k;
            lemma_entry_is_row(after, a);
            lemma_entry_is_row(entries, a);
            if k == key {
                lemma_entry_is_row(entries, i);
                assert(after[i].record.routing_key@ == key);
                assert(a == i);
            }
        }
        if was.dom().contains(k) {
            if k == key {
                assert(row_of(after[i]).record.routing_key == k);
            } else {
                let a = choose|a: int|
                    0 <= a < entries.len() && row_of(#[trigger] entries[a]).record.routing_key == k;
                assert(after[a].record.routing_key@ == k);
                assert(row_of(after[a]).record.routing_key == k);
            }
        }
    }
    assert(is.dom() =~= was.dom());
    assert(is =~= was);
}

/// Adding an entry under a new key adds its row.
proof fn lemma_added(entries: Seq<Entry>, entry: Entry)
    requires
        distinct(entries),
        !rows_of(entries).dom().contains(entry.record.routing_key@),
    ensures
        distinct(entries.push(entry)),
        rows_of(entries.push(entry)) == rows_of(entries).insert(
            entry.record.routing_key@,
            row_of(entry),
        ),
{
    let after = entries.push(entry);
    let key = entry.record.routing_key@;
    assert forall|a: int| 0 <= a < entries.len() implies (#[trigger] entries[a]).record.routing_key@
        != key by {
        lemma_entry_is_row(entries, a);
    }
    assert forall|a: int, b: int| 0 <= a < b < after.len() implies (
    #[trigger] after[a]).record.routing_key@ != (#[trigger] after[b]).record.routing_key@ by {
        assert(after[a] == entries[a]);
        if b < entries.len() {
            assert(after[b] == entries[b]);
        }
    }
    let was = rows_of(entries).insert(key, row_of(entry));
    let is = rows_of(after);
    assert forall|k: Seq<char>|
        #![trigger is.dom().contains(k)]
        #![trigger was.dom().contains(k)]
        #![trigger is[k]]
        is.dom().contains(k) == was.dom().contains(k) && (is.dom().contains(k) ==> is[k]
            == was[k]) by {
        if is.dom().contains(k) {
            let a = choose|a: int|
                0 <= a < after.len() && row_of(#[trigger] after[a]).record.routing_key == k;
            lemma_entry_is_row(after, a);
            if a < entries.len() {
                assert(after[a] == entries[a]);
                lemma_entry_is_row(entries, a);
            }
        }
        if was.dom().contains(k) {
            if k == key {
                assert(after[entries.len() as int] == entry);
                assert(row_of(after[entries.len() as int]).record.routing_key == k);
            } else {
                let a = choose|a: int|
                    0 <= a < entries.len() && row_of(#[trigger] entries[a]).record.routing_key == k;
                assert(after[a] == entries[a]);
                assert(row_of(after[a]).record.routing_key == k);
            }
        }
    }
    assert(is.dom() =~= was.dom());
    assert(is =~= was);
}

/// The name under which a shared table stores a routing key.
pub open spec fn stored_name(prefix: Seq<char>, routing_key: Seq<char>) -> Seq<char> {
    prefix + "route:"@ + routing_key
}

/// Builds the name under which a shared table stores a routing key.
#[must_use]
pub fn storage_name(prefix: &str, routing_key: &str) -> (r: String)
    ensures
        r@ == stored_name(prefix@, routing_key@),
{
    text::join3(prefix, "route:", routing_key)
}

/// A time to live as a shared table takes it: whole milliseconds in 64 bits, the
/// longest where it does not fit.
#[must_use]
pub fn storage_ttl(ttl_ms: u128) -> (r: u64)
    ensures
        ttl_ms <= u64::MAX ==> r == ttl_ms,
        ttl_ms > u64::MAX ==> r == u64::MAX,
{
    if ttl_ms <= u64::MAX as u128 {
        ttl_ms as u64
    } else {
        u64::MAX
    }
}

/// Reads the reply of a shared table to a claim: empty where the claim was
/// granted, else the stored row of the current owner.
pub fn claim_reply(current: &str) -> (r: Result<Claim, Error>)
    ensures
        current@.len() == 0 ==> (r matches Ok(c) && c@ == ClaimView::Acquired),
        current@.len() > 0 ==> match decoded(current@) {
            Ok(v) => r matches Ok(c) && c@ == ClaimView::Taken(v),
            Err(v) => r matches Err(e) && e@ == v,
        },
{
    if current.unicode_len() == 0 {
        return Ok(Claim::Acquired);
    }
    match RouteRecord::decode(current) {
        Ok(owner) => Ok(Claim::Taken(Box::new(owner))),
        Err(e) => Err(e),
    }
}

/// Reads the reply of a shared table to a lookup.
pub fn lookup_reply(raw: Option<String>) -> (r: Result<Option<RouteRecord>, Error>)
    ensures
        match raw {
            None => r matches Ok(None),
            Some(text) => match decoded(text@) {
                Ok(v) => r matches Ok(Some(record)) && record@ == v,
                Err(v) => r matches Err(e) && e@ == v,
            },
        },
{
    match raw {
        None => Ok(None),
        Some(text) => match RouteRecord::decode(text.as_str()) {
            Ok(record) => Ok(Some(record)),
            Err(e) => Err(e),
        },
    }
}

/// Reads the reply of a shared table to a renewal.
#[must_use]
pub fn renew_reply(renewed: i64) -> (r: bool)
    ensures
        r == (renewed == 1),
{
    renewed == 1
}

/// The error for a shared table that failed during an operation.
#[must_use]
pub fn unavailable(op: &str, detail: &str) -> (r: Error)
    ensures
        r@ == ErrorView::RegistryUnavailable("redis "@ + op@ + " failed: "@ + detail@),
{
    let head = text::join3("redis ", op, " failed: ");
    Error::RegistryUnavailable(text::join2(head.as_str(), detail))
}

/// The first claim of a key wins: until it expires, a claim by any other session
/// is refused, names the winner and leaves the winner's row in place.
pub proof fn first_claimer_wins(
    rows: Map<Seq<char>, Row>,
    first: RouteView,
    second: RouteView,
    ttl_ms: int,
    second_ttl_ms: int,
    now: int,
    later: int,
)
    requires
        first.routing_key == second.routing_key,
        first.session_id != second.session_id,
        claim_answer(rows, now, first) is Acquired,
        later < expiry(now, ttl_ms),
    ensures
        claim_answer(after_claim(rows, now, first, ttl_ms), later, second) == ClaimView::Taken(
            first,
        ),
        after_claim(after_claim(rows, now, first, ttl_ms), later, second, second_ttl_ms)[
            first.routing_key] == (Row { record: first, expires_at: expiry(now, ttl_ms) }),
{
}

/// Claiming a key again for the session that owns it succeeds and refreshes its
/// time to live.
pub proof fn reclaiming_is_idempotent(
    rows: Map<Seq<char>, Row>,
    record: RouteView,
    ttl_ms: int,
    now: int,
    later: int,
)
    requires
        claim_answer(rows, now, record) is Acquired,
        now <= later,
    ensures
        claim_answer(after_claim(rows, now, record, ttl_ms), later, record) is Acquired,
        after_claim(after_claim(rows, now, record, ttl_ms), later, record, ttl_ms)
            == after_claim(rows, later, record, ttl_ms),
{
    let once = after_claim(rows, now, record, ttl_ms);
    let twice = after_claim(once, later, record, ttl_ms);
    let key = record.routing_key;
    if live(rows, later).dom().contains(key) {
        assert(live(rows, now).dom().contains(key));
    }
    let direct = after_claim(rows, later, record, ttl_ms);
    assert forall|k: Seq<char>| twice.dom().contains(k) == direct.dom().contains(k) by {
        assert(live(rows, now).dom().contains(k) == (rows.dom().contains(k) && rows[k].expires_at
            > now));
        assert(live(once, later).dom().contains(k) == (once.dom().contains(k)
            && once[k].expires_at > later));
    }
    assert(twice.dom() =~= direct.dom());
    assert(twice =~= direct);
}

/// An expired claim frees itself: nobody is found under the key, and the next
/// session to ask gets it.
pub proof fn expired_claims_free_themselves(
    rows: Map<Seq<char>, Row>,
    first: RouteView,
    second: RouteView,
    ttl_ms: int,
    now: int,
    later: int,
)
    requires
        claim_answer(rows, now, first) is Acquired,
        first.routing_key == second.routing_key,
        later >= expiry(now, ttl_ms),
    ensures
        lookup_answer(after_claim(rows, now, first, ttl_ms), later, first.routing_key) is None,
        claim_answer(after_claim(rows, now, first, ttl_ms), later, second) is Acquired,
{
}

/// A claim that was granted is found until it expires.
pub proof fn granted_claims_are_found(
    rows: Map<Seq<char>, Row>,
    record: RouteView,
    ttl_ms: int,
    now: int,
    later: int,
)
    requires
        claim_answer(rows, now, record) is Acquired,
        later < expiry(now, ttl_ms),
    ensures
        lookup_answer(after_claim(rows, now, record, ttl_ms), later, record.routing_key) == Some(
            record,
        ),
{
}

/// Only the owner renews: for anyone else the answer is no and nothing but the
/// passing of time changes the table.
pub proof fn renewal_needs_ownership(
    rows: Map<Seq<char>, Row>,
    key: Seq<char>,
    session_id: Seq<char>,
    ttl_ms: int,
    now: int,
)
    ensures
        renew_answer(rows, now, key, session_id) <==> (lookup_answer(rows, now, key) matches Some(
            v,
        ) && v.session_id == session_id),
        !renew_answer(rows, now, key, session_id) ==> after_renew(
            rows,
            now,
            key,
            session_id,
            ttl_ms,
        ) == live(rows, now),
{
}

/// A renewed claim lives on under the same record for the new time to live.
pub proof fn renewal_extends_the_claim(
    rows: Map<Seq<char>, Row>,
    key: Seq<char>,
    session_id: Seq<char>,
    ttl_ms: int,
    now: int,
    later: int,
)
    requires
        renew_answer(rows, now, key, session_id),
        later < expiry(now, ttl_ms),
    ensures
        lookup_answer(after_renew(rows, now, key, session_id, ttl_ms), later, key)
            == lookup_answer(rows, now, key),
{
}

/// A release by a session that is not the owner changes nothing.
pub proof fn stale_release_is_harmless(
    rows: Map<Seq<char>, Row>,
    key: Seq<char>,
    session_id: Seq<char>,
)
    requires
        !held_by(rows, key, session_id),
    ensures
        after_release(rows, key, session_id) == rows,
{
}

/// A release by the owner frees the key and no other.
pub proof fn release_by_the_owner_frees_the_key(
    rows: Map<Seq<char>, Row>,
    key: Seq<char>,
    other: Seq<char>,
    session_id: Seq<char>,
    now: int,
)
    requires
        held_by(rows, key, session_id),
        other != key,
    ensures
        lookup_answer(after_release(rows, key, session_id), now, key) is None,
        lookup_answer(after_release(rows, key, session_id), now, other) == lookup_answer(
            rows,
            now,
            other,
        ),
{
}

/// Whether every row stands under its own key.
pub open spec fn well_keyed(rows: Map<Seq<char>, Row>) -> bool {
    forall|k: Seq<char>| #[trigger] rows.dom().contains(k) ==> rows[k].record.routing_key == k
}

/// In a process-local table every row stands under its own key.
pub proof fn local_tables_are_well_keyed(table: MemoryRegistry)
    ensures
        well_keyed(table@),
{
}

/// Every operation keeps rows under their own keys, so a lookup never leads to
/// the tunnel of another key.
pub proof fn rows_stay_under_their_keys(
    rows: Map<Seq<char>, Row>,
    record: RouteView,
    key: Seq<char>,
    session_id: Seq<char>,
    ttl_ms: int,
    now: int,
)
    requires
        well_keyed(rows),
    ensures
        well_keyed(live(rows, now)),
        well_keyed(after_claim(rows, now, record, ttl_ms)),
        well_keyed(after_renew(rows, now, key, session_id, ttl_ms)),
        well_keyed(after_release(rows, key, session_id)),
        lookup_answer(rows, now, key) matches Some(found) ==> found.routing_key == key,
{
    assert forall|k: Seq<char>| #[trigger] live(rows, now).dom().contains(k) implies live(
        rows,
        now,
    )[k].record.routing_key == k by {
        assert(rows.dom().contains(k));
    }
    let claimed = after_claim(rows, now, record, ttl_ms);
    assert forall|k: Seq<char>| #[trigger] claimed.dom().contains(k) implies claimed[k].record.routing_key
        == k by {
        if k != record.routing_key {
            assert(live(rows, now).dom().contains(k));
        }
    }
    let again = after_renew(rows, now, key, session_id, ttl_ms);
    assert forall|k: Seq<char>| #[trigger] again.dom().contains(k) implies again[k].record.routing_key
        == k by {
        assert(live(rows, now).dom().contains(k));
    }
    let released = after_release(rows, key, session_id);
    assert forall|k: Seq<char>| #[trigger] released.dom().contains(k) implies released[k].record.routing_key
        == k by {
        assert(rows.dom().contains(k));
    }
    if live(rows, now).dom().contains(key) {
        assert(live(rows, now)[key].record.routing_key == key);
    }
}

/// A row is alive until the moment written in it, whatever else the table holds: a
/// lookup finds exactly the rows that have not reached theirs.
pub proof fn rows_live_until_their_moment(rows: Map<Seq<char>, Row>, now: int, key: Seq<char>)
    ensures
        lookup_answer(rows, now, key) == if rows.dom().contains(key) && now < rows[key].expires_at {
            Some(rows[key].record)
        } else {
            None
        },
        live(rows, now).dom().contains(key) <==> rows.dom().contains(key) && now
            < rows[key].expires_at,
        live(rows, now).dom().contains(key) ==> live(rows, now)[key] == rows[key],
{
}

/// A claim is refused exactly where a living row of another session stands under
/// the key. That row then stays as it is. A granted claim stands under its key until
/// as many milliseconds have passed as it asked for, on a clock that counts
/// nanoseconds.
pub proof fn claims_follow_the_row_under_their_key(
    rows: Map<Seq<char>, Row>,
    now: int,
    record: RouteView,
    ttl_ms: int,
)
    ensures
        ({
            let key = record.routing_key;
            let after = after_claim(rows, now, record, ttl_ms);
            let taken = rows.dom().contains(key) && now < rows[key].expires_at
                && rows[key].record.session_id != record.session_id;
            &&& after.dom().contains(key)
            &&& taken ==> claim_answer(rows, now, record) == ClaimView::Taken(rows[key].record)
                && after[key] == rows[key]
            &&& !taken ==> claim_answer(rows, now, record) == ClaimView::Acquired && after[key].record
                == record && after[key].expires_at == now + 1_000_000 * ttl_ms
        }),
{
}

/// A renewal is granted exactly where a living row of the session stands under the
/// key. It moves that row's moment and nothing else of it.
pub proof fn renewals_follow_the_row_under_their_key(
    rows: Map<Seq<char>, Row>,
    now: int,
    key: Seq<char>,
    session_id: Seq<char>,
    ttl_ms: int,
)
    ensures
        ({
            let after = after_renew(rows, now, key, session_id, ttl_ms);
            let alive = rows.dom().contains(key) && now < rows[key].expires_at;
            let owned = alive && rows[key].record.session_id == session_id;
            &&& renew_answer(rows, now, key, session_id) <==> owned
            &&& after.dom().contains(key) <==> alive
            &&& owned ==> after[key].record == rows[key].record && after[key].expires_at == now
                + 1_000_000 * ttl_ms
            &&& alive && !owned ==> after[key] == rows[key]
        }),
{
}

/// A claim leaves every other key alone: its row stays, with its record and its
/// moment, and no row appears, so that every later lookup of it is answered as if
/// the claim had not been made.
pub proof fn claims_touch_only_their_key(
    rows: Map<Seq<char>, Row>,
    now: int,
    record: RouteView,
    ttl_ms: int,
    other: Seq<char>,
    later: int,
)
    requires
        other != record.routing_key,
        now <= later,
    ensures
        rows.dom().contains(other) && now < rows[other].expires_at ==> after_claim(
            rows,
            now,
            record,
            ttl_ms,
        ).dom().contains(other),
        after_claim(rows, now, record, ttl_ms).dom().contains(other) ==> rows.dom().contains(other)
            && after_claim(rows, now, record, ttl_ms)[other] == rows[other],
        lookup_answer(after_claim(rows, now, record, ttl_ms), later, other) == lookup_answer(
            rows,
            later,
            other,
        ),
{
}

/// A renewal leaves every other key alone: its row stays, with its record and its
/// moment, and no row appears, so that every later lookup or renewal of it is
/// answered as if this one had not been made.
pub proof fn renewals_touch_only_their_key(
    rows: Map<Seq<char>, Row>,
    now: int,
    key: Seq<char>,
    session_id: Seq<char>,
    ttl_ms: int,
    other: Seq<char>,
    another_session: Seq<char>,
    later: int,
)
    requires
        other != key,
        now <= later,
    ensures
        rows.dom().contains(other) && now < rows[other].expires_at ==> after_renew(
            rows,
            now,
            key,
            session_id,
            ttl_ms,
        ).dom().contains(other),
        after_renew(rows, now, key, session_id, ttl_ms).dom().contains(other) ==> rows.dom().contains(
            other,
        ) && after_renew(rows, now, key, session_id, ttl_ms)[other] == rows[other],
        lookup_answer(after_renew(rows, now, key, session_id, ttl_ms), later, other)
            == lookup_answer(rows, later, other),
        renew_answer(
            after_renew(rows, now, key, session_id, ttl_ms),
            later,
            other,
            another_session,
        ) == renew_answer(rows, later, other, another_session),
{
}

/// A release takes the row of its key where the session owns it, and leaves every
/// other row, with its record and its moment, in place.
pub proof fn releases_touch_only_their_key(
    rows: Map<Seq<char>, Row>,
    key: Seq<char>,
    session_id: Seq<char>,
    other: Seq<char>,
)
    ensures
        after_release(rows, key, session_id).dom().contains(other) <==> rows.dom().contains(other)
            && !(other == key && rows[key].record.session_id == session_id),
        after_release(rows, key, session_id).dom().contains(other) ==> after_release(
            rows,
            key,
            session_id,
        )[other] == rows[other],
{
}

/// A claim at a local table is made at a moment that its clock reads, for exactly
/// the record and the time to live asked for: the row under the key, and no other,
/// is the new one afterwards, unless another session's was alive there.
pub proof fn local_claims_are_made_at_the_clock(
    before: MemoryRegistry,
    record: RouteView,
    ttl_ms: u128,
    after: MemoryRegistry,
    answer: Result<ClaimView, ErrorView>,
    other: Seq<char>,
) -> (now: u128)
    requires
        MemoryRegistry::claims(before, record, ttl_ms, after, answer),
        other != record.routing_key,
    ensures
        before.reads(now),
        ({
            let key = record.routing_key;
            let taken = before@.dom().contains(key) && now < before@[key].expires_at
                && before@[key].record.session_id != record.session_id;
            &&& taken ==> answer == Ok::<ClaimView, ErrorView>(
                ClaimView::Taken(before@[key].record),
            ) && after@.dom().contains(key) && after@[key] == before@[key]
            &&& !taken ==> answer == Ok::<ClaimView, ErrorView>(ClaimView::Acquired)
                && after@.dom().contains(key) && after@[key].record == record && after@[key].expires_at
                == now + 1_000_000 * ttl_ms
            &&& after@.dom().contains(other) <==> before@.dom().contains(other) && now
                < before@[other].expires_at
            &&& after@.dom().contains(other) ==> after@[other] == before@[other]
        }),
{
    let at = choose|at: int|
        0 <= at <= MAX_CLOCK && before.reads(at as u128) && after@ == #[trigger] after_claim(
            before@,
            at,
            record,
            ttl_ms as int,
        ) && answer == Ok::<ClaimView, ErrorView>(claim_answer(before@, at, record));
    at as u128
}

/// A lookup at a local table is made at a moment that its clock reads: it finds the
/// living row of the key and leaves every living row as it is.
pub proof fn local_lookups_are_made_at_the_clock(
    before: MemoryRegistry,
    key: Seq<char>,
    after: MemoryRegistry,
    answer: Result<Option<RouteView>, ErrorView>,
    other: Seq<char>,
) -> (now: u128)
    requires
        MemoryRegistry::finds(before, key, after, answer),
    ensures
        before.reads(now),
        answer == Ok::<Option<RouteView>, ErrorView>(
            if before@.dom().contains(key) && now < before@[key].expires_at {
                Some(before@[key].record)
            } else {
                None
            },
        ),
        after@.dom().contains(other) <==> before@.dom().contains(other) && now
            < before@[other].expires_at,
        after@.dom().contains(other) ==> after@[other] == before@[other],
{
    let at = choose|at: int|
        0 <= at <= MAX_CLOCK && before.reads(at as u128) && after@ == live(before@, at) && answer
            == Ok::<Option<RouteView>, ErrorView>(#[trigger] lookup_answer(before@, at, key));
    at as u128
}

/// A renewal at a local table is made at a moment that its clock reads: it moves the
/// moment of the session's own living row, and leaves every other row as it is.
pub proof fn local_renewals_are_made_at_the_clock(
    before: MemoryRegistry,
    key: Seq<char>,
    session_id: Seq<char>,
    ttl_ms: u128,
    after: MemoryRegistry,
    answer: Result<bool, ErrorView>,
    other: Seq<char>,
) -> (now: u128)
    requires
        MemoryRegistry::renews(before, key, session_id, ttl_ms, after, answer),
        other != key,
    ensures
        before.reads(now),
        ({
            let alive = before@.dom().contains(key) && now < before@[key].expires_at;
            let owned = alive && before@[key].record.session_id == session_id;
            &&& answer == Ok::<bool, ErrorView>(owned)
            &&& after@.dom().contains(key) <==> alive
            &&& owned ==> after@[key].record == before@[key].record && after@[key].expires_at == now
                + 1_000_000 * ttl_ms
            &&& alive && !owned ==> after@[key] == before@[key]
            &&& after@.dom().contains(other) <==> before@.dom().contains(other) && now
                < before@[other].expires_at
            &&& after@.dom().contains(other) ==> after@[other] == before@[other]
        }),
{
    let at = choose|at: int|
        0 <= at <= MAX_CLOCK && before.reads(at as u128) && after@ == #[trigger] after_renew(
            before@,
            at,
            key,
            session_id,
            ttl_ms as int,
        ) && answer == Ok::<bool, ErrorView>(renew_answer(before@, at, key, session_id));
    at as u128
}

/// A release at a local table always succeeds, takes the session's own row and
/// leaves every other one.
pub proof fn local_releases_are_owner_checked(
    before: MemoryRegistry,
    key: Seq<char>,
    session_id: Seq<char>,
    after: MemoryRegistry,
    answer: Result<(), ErrorView>,
    other: Seq<char>,
)
    requires
        MemoryRegistry::frees(before, key, session_id, after, answer),
    ensures
        answer == Ok::<(), ErrorView>(()),
        after@.dom().contains(other) <==> before@.dom().contains(other) && !(other == key
            && before@[key].record.session_id == session_id),
        after@.dom().contains(other) ==> after@[other] == before@[other],
{
}

/// Answers of a table keep their meaning when they are read by their text.
pub proof fn answers_are_read_as_they_are(
    claim: Result<Claim, Error>,
    lookup: Result<Option<RouteRecord>, Error>,
    renewal: Result<bool, Error>,
    release: Result<(), Error>,
)
    ensures
        claim matches Ok(Claim::Acquired) ==> claim_view(claim) == Ok::<ClaimView, ErrorView>(
            ClaimView::Acquired,
        ),
        claim matches Ok(Claim::Taken(owner)) ==> claim_view(claim) == Ok::<ClaimView, ErrorView>(
            ClaimView::Taken(owner@),
        ),
        claim matches Err(e) ==> claim_view(claim) == Err::<ClaimView, ErrorView>(e@),
        lookup matches Ok(Some(record)) ==> lookup_view(lookup) == Ok::<
            Option<RouteView>,
            ErrorView,
        >(Some(record@)),
        lookup matches Ok(None) ==> lookup_view(lookup) == Ok::<Option<RouteView>, ErrorView>(None),
        lookup matches Err(e) ==> lookup_view(lookup) == Err::<Option<RouteView>, ErrorView>(e@),
        renewal matches Ok(yes) ==> renew_view(renewal) == Ok::<bool, ErrorView>(yes),
        renewal matches Err(e) ==> renew_view(renewal) == Err::<bool, ErrorView>(e@),
        release is Ok ==> release_view(release) == Ok::<(), ErrorView>(()),
        release matches Err(e) ==> release_view(release) == Err::<(), ErrorView>(e@),
{
}

/// A stored row holds its fields in a fixed order with a tab between any two; what
/// follows the sixth is not read, and where one is missing the first missing one is
/// named.
pub proof fn stored_rows_are_tab_separated(parts: Seq<Seq<char>>)
    requires
        parts.len() >= 1,
        forall|i: int| 0 <= i < parts.len() ==> !(#[trigger] parts[i]).contains('\t'),
    ensures
        ({
            let raw = text::joined(parts, '\t');
            let missing = |name: Seq<char>|
                Err::<RouteView, ErrorView>(
                    ErrorView::RegistryUnavailable("record missing field `"@ + name + "`"@),
                );
            &&& parts.len() == 1 ==> decoded(raw) == missing("node_id"@)
            &&& parts.len() == 2 ==> decoded(raw) == missing("node_addr"@)
            &&& parts.len() == 3 ==> decoded(raw) == missing("session_id"@)
            &&& parts.len() == 4 ==> decoded(raw) == missing("tunnel_id"@)
            &&& parts.len() == 5 ==> decoded(raw) == missing("account_id"@)
            &&& parts.len() >= 6 ==> {
                &&& decoded(raw) matches Ok(v)
                &&& v.routing_key == parts[0]
                &&& v.node_id == parts[1]
                &&& v.node_addr == parts[2]
                &&& v.session_id == parts[3]
                &&& v.tunnel_id == parts[4]
                &&& v.account_id == parts[5]
            }
        }),
{
    text::joining_undoes_splitting(parts, '\t');
}

/// A row is stored as its six fields in a fixed order, with a tab between any two.
pub proof fn rows_are_stored_in_order(v: RouteView)
    ensures
        v.encoded() == text::joined(
            seq![
                v.routing_key,
                v.node_id,
                v.node_addr,
                v.session_id,
                v.tunnel_id,
                v.account_id,
            ],
            '\t',
        ),
{
    let all = seq![
        v.routing_key,
        v.node_id,
        v.node_addr,
        v.session_id,
        v.tunnel_id,
        v.account_id,
    ];
    assert(all.skip(1) =~= seq![
        v.node_id,
        v.node_addr,
        v.session_id,
        v.tunnel_id,
        v.account_id,
    ]);
    assert(all.skip(1).skip(1) =~= seq![v.node_addr, v.session_id, v.tunnel_id, v.account_id]);
    assert(all.skip(1).skip(1).skip(1) =~= seq![v.session_id, v.tunnel_id, v.account_id]);
    assert(all.skip(1).skip(1).skip(1).skip(1) =~= seq![v.tunnel_id, v.account_id]);
    assert(all.skip(1).skip(1).skip(1).skip(1).skip(1) =~= seq![v.account_id]);
    reveal_with_fuel(text::joined, 7);
}

/// Two keys are never stored under one name, and a prefix keeps environments apart:
/// the name is the prefix, a fixed middle and the key.
pub proof fn stored_names_are_distinct(prefix: Seq<char>, a: Seq<char>, b: Seq<char>)
    ensures
        stored_name(prefix, a) == stored_name(prefix, b) ==> a == b,
        stored_name(prefix, a) == prefix + "route:"@ + a,
{
    if stored_name(prefix, a) == stored_name(prefix, b) {
        let at = prefix.len() as int + "route:"@.len();
        assert(stored_name(prefix, a).skip(at) =~= a);
        assert(stored_name(prefix, b).skip(at) =~= b);
    }
}

/// A stored row is decoded into the expected record, or refused with the expected
/// error.
pub proof fn rows_decode_as_expected(
    r: Result<RouteRecord, Error>,
    expected: Result<RouteView, ErrorView>,
)
    requires
        decodes_to(r, expected),
    ensures
        r is Ok <==> expected is Ok,
        r matches Ok(record) ==> {
            let v = expected->Ok_0;
            &&& record.routing_key@ == v.routing_key
            &&& record.node_id@ == v.node_id
            &&& record.node_addr@ == v.node_addr
            &&& record.session_id@ == v.session_id
            &&& record.tunnel_id@ == v.tunnel_id
            &&& record.account_id@ == v.account_id
        },
        r matches Err(e) ==> e@ == expected->Err_0,
{
}

} // verus!
