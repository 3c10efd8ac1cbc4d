//! The concurrent tables of an edge node: the operations of `dashmap::DashMap`
//! that the sessions use, stated over what each table holds.

use dashmap::DashMap;
use vstd::prelude::*;

use crate::server::session::{Session, SessionInfo, Stream, Tunnel, TunnelView};
use crate::server::session;

verus! {

/// A concurrent hash map.
#[verifier::external_type_specification]
#[verifier::external_body]
#[verifier::reject_recursive_types(K)]
#[verifier::reject_recursive_types(V)]
#[verifier::reject_recursive_types(S)]
pub struct ExDashMap<K, V, S>(dashmap::DashMap<K, V, S>);

/// The streams that a table holds, by id.
pub uninterp spec fn streams_of(m: DashMap<u64, Stream>) -> Map<u64, Stream>;

/// The tunnels that a table holds, by id.
pub uninterp spec fn tunnels_of(m: DashMap<String, Tunnel>) -> Map<Seq<char>, TunnelView>;

/// The sessions that a table holds, by id.
pub uninterp spec fn sessions_of(m: DashMap<String, Session>) -> Map<Seq<char>, Session>;

/// Whether a list of ids holds each id of a set once and nothing else.
pub open spec fn enumerates(ids: Seq<u64>, set: Set<u64>) -> bool {
    &&& ids.no_duplicates()
    &&& forall|id: u64| #[trigger] ids.contains(id) <==> set.contains(id)
}

/// The names in a list of pairs.
pub open spec fn names<T>(pairs: Seq<(String, T)>) -> Seq<Seq<char>> {
    Seq::new(pairs.len(), |i: int| pairs[i].0@)
}

/// Whether a list of names holds each name of a set once and nothing else.
pub open spec fn enumerates_names(names: Seq<Seq<char>>, set: Set<Seq<char>>) -> bool {
    &&& names.no_duplicates()
    &&& forall|name: Seq<char>| #[trigger] names.contains(name) <==> set.contains(name)
}

/// Calls `DashMap::new`. Trusted: the table is empty.
#[verifier::external_body]
pub(crate) fn no_streams() -> (r: DashMap<u64, Stream>)
    ensures
        streams_of(r).dom().is_empty(),
        streams_of(r).dom().finite(),
{
    DashMap::new()
}

/// Calls `DashMap::insert`. Trusted: the stream stands under the id, in place of
/// any that stood there.
#[verifier::external_body]
pub(crate) fn put_stream(m: &mut DashMap<u64, Stream>, id: u64, stream: Stream)
    ensures
        streams_of(*final(m)) == streams_of(*old(m)).insert(id, stream),
{
    let _ = m.insert(id, stream);
}

/// Calls `DashMap::remove`. Trusted: the stream under the id is taken out and
/// returned, if there is one.
#[verifier::external_body]
pub(crate) fn take_stream(m: &mut DashMap<u64, Stream>, id: u64) -> (r: Option<Stream>)
    ensures
        streams_of(*final(m)) == streams_of(*old(m)).remove(id),
        match r {
            Some(stream) => streams_of(*old(m)).dom().contains(id) && stream == streams_of(
                *old(m),
            )[id],
            None => !streams_of(*old(m)).dom().contains(id),
        },
{
    m.remove(&id).map(|pair| pair.1)
}

/// Calls `DashMap::get`. Trusted: the stream under the id, if there is one.
#[verifier::external_body]
pub(crate) fn find_stream(m: &DashMap<u64, Stream>, id: u64) -> (r: Option<Stream>)
    ensures
        match r {
            Some(stream) => streams_of(*m).dom().contains(id) && stream == streams_of(*m)[id],
            None => !streams_of(*m).dom().contains(id),
        },
{
    m.get(&id).map(|entry| *entry.value())
}

/// Calls `DashMap::iter`. Trusted: every id is visited once. In which order, is
/// left open.
#[verifier::external_body]
pub(crate) fn stream_ids(m: &DashMap<u64, Stream>) -> (r: Vec<u64>)
    ensures
        enumerates(r@, streams_of(*m).dom()),
{
    m.iter().map(|entry| *entry.key()).collect()
}

/// Calls `DashMap::new`. Trusted: the table is empty.
#[verifier::external_body]
pub(crate) fn no_tunnels() -> (r: DashMap<String, Tunnel>)
    ensures
        tunnels_of(r).dom().is_empty(),
        tunnels_of(r).dom().finite(),
{
    DashMap::new()
}

/// Calls `DashMap::insert`. Trusted: the tunnel stands under the name, in place
/// of any that stood there.
#[verifier::external_body]
pub(crate) fn put_tunnel(m: &mut DashMap<String, Tunnel>, name: String, tunnel: Tunnel)
    ensures
        tunnels_of(*final(m)) == tunnels_of(*old(m)).insert(name@, tunnel@),
{
    let _ = m.insert(name, tunnel);
}

/// Calls `DashMap::remove`. Trusted: the tunnel under the name is taken out and
/// returned, if there is one.
#[verifier::external_body]
pub(crate) fn take_tunnel(m: &mut DashMap<String, Tunnel>, name: &str) -> (r: Option<Tunnel>)
    ensures
        tunnels_of(*final(m)) == tunnels_of(*old(m)).remove(name@),
        match r {
            Some(tunnel) => tunnels_of(*old(m)).dom().contains(name@) && tunnel@ == tunnels_of(
                *old(m),
            )[name@],
            None => !tunnels_of(*old(m)).dom().contains(name@),
        },
{
    m.remove(name).map(|pair| pair.1)
}

/// Calls `DashMap::len`. Trusted: the number of tunnels.
#[verifier::external_body]
pub(crate) fn count_tunnels(m: &DashMap<String, Tunnel>) -> (r: usize)
    ensures
        r == tunnels_of(*m).dom().len(),
{
    m.len()
}

/// Calls `DashMap::iter`. Trusted: every name is visited once, with its tunnel.
/// In which order, is left open.
#[verifier::external_body]
pub(crate) fn all_tunnels(m: &DashMap<String, Tunnel>) -> (r: Vec<(String, Tunnel)>)
    ensures
        enumerates_names(names(r@), tunnels_of(*m).dom()),
        forall|i: int|
            0 <= i < r@.len() ==> (#[trigger] r@[i]).1@ == tunnels_of(*m)[r@[i].0@],
{
    m.iter().map(|entry| (entry.key().clone(), entry.value().clone())).collect()
}

/// Calls `DashMap::new`. Trusted: the table is empty.
#[verifier::external_body]
pub(crate) fn no_sessions() -> (r: DashMap<String, Session>)
    ensures
        sessions_of(r).dom().is_empty(),
        sessions_of(r).dom().finite(),
{
    DashMap::new()
}

/// Calls `DashMap::insert`. Trusted: the session stands under the name, in place
/// of any that stood there.
#[verifier::external_body]
pub(crate) fn put_session(m: &mut DashMap<String, Session>, name: String, session: Session)
    ensures
        sessions_of(*final(m)) == sessions_of(*old(m)).insert(name@, session),
{
    let _ = m.insert(name, session);
}

/// Calls `DashMap::remove`. Trusted: the session under the name is taken out and
/// returned, if there is one.
#[verifier::external_body]
pub(crate) fn take_session(m: &mut DashMap<String, Session>, name: &str) -> (r: Option<Session>)
    ensures
        sessions_of(*final(m)) == sessions_of(*old(m)).remove(name@),
        match r {
            Some(session) => sessions_of(*old(m)).dom().contains(name@) && session == sessions_of(
                *old(m),
            )[name@],
            None => !sessions_of(*old(m)).dom().contains(name@),
        },
{
    m.remove(name).map(|pair| pair.1)
}

/// Calls `DashMap::len`. Trusted: the number of sessions.
#[verifier::external_body]
pub(crate) fn count_sessions(m: &DashMap<String, Session>) -> (r: usize)
    ensures
        r == sessions_of(*m).dom().len(),
{
    m.len()
}

/// Calls `DashMap::is_empty`. Trusted: whether the table holds no session.
#[verifier::external_body]
pub(crate) fn is_without_sessions(m: &DashMap<String, Session>) -> (r: bool)
    ensures
        r == sessions_of(*m).dom().is_empty(),
{
    m.is_empty()
}

/// Calls `DashMap::view`. Trusted: the session under the name, if there is one,
/// is summed up by [`Session::info`].
#[verifier::external_body]
pub(crate) fn view_session(m: &DashMap<String, Session>, name: &str) -> (r: Option<SessionInfo>)
    ensures
        match r {
            Some(info) => sessions_of(*m).dom().contains(name@) && session::sums_up(
                info@,
                sessions_of(*m)[name@],
            ),
            None => !sessions_of(*m).dom().contains(name@),
        },
{
    m.view(name, |_, session| session.info())
}

/// Calls `DashMap::iter`. Trusted: every name is visited once, and its session
/// is summed up by [`Session::info`]. In which order, is left open.
#[verifier::external_body]
pub(crate) fn all_sessions(m: &DashMap<String, Session>) -> (r: Vec<(String, SessionInfo)>)
    ensures
        enumerates_names(names(r@), sessions_of(*m).dom()),
        forall|i: int|
            0 <= i < r@.len() ==> session::sums_up(
                (#[trigger] r@[i]).1@,
                sessions_of(*m)[r@[i].0@],
            ),
{
    m.iter().map(|entry| (entry.key().clone(), entry.value().info())).collect()
}

/// An enumeration names every member of a set once, and nothing else.
pub proof fn enumerations_name_every_member(ids: Seq<u64>, set: Set<u64>, id: u64, i: int, j: int)
    requires
        enumerates(ids, set),
    ensures
        set.contains(id) <==> ids.contains(id),
        0 <= i < j < ids.len() ==> ids[i] != ids[j],
        0 <= i < ids.len() ==> set.contains(ids[i]),
{
    if 0 <= i < ids.len() {
        assert(ids.contains(ids[i]));
    }
}

/// An enumeration of names names every member of a set once, and nothing else.
pub proof fn name_lists_name_every_member(
    list: Seq<Seq<char>>,
    set: Set<Seq<char>>,
    name: Seq<char>,
    i: int,
    j: int,
)
    requires
        enumerates_names(list, set),
    ensures
        set.contains(name) <==> list.contains(name),
        0 <= i < j < list.len() ==> list[i] != list[j],
        0 <= i < list.len() ==> set.contains(list[i]),
{
    if 0 <= i < list.len() {
        assert(list.contains(list[i]));
    }
}

/// The names of a list's entries are read one by one.
pub proof fn names_are_read_one_by_one<T>(pairs: Seq<(String, T)>, i: int)
    ensures
        names(pairs).len() == pairs.len(),
        0 <= i < pairs.len() ==> names(pairs)[i] == pairs[i].0@,
{
}

} // verus!
