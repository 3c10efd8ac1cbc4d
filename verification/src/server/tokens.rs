//! Static agent credentials as they stand in a token file.
//!
//! Everything but the account id is optional.

use vstd::prelude::*;

use crate::auth::{Limits, Principal, PrincipalView};
use crate::auth;
use crate::text;

verus! {

/// The ceilings in an entry.
#[derive(Debug, Clone, Copy, PartialEq, Eq, Structural)]
pub struct LimitsFile {
    pub max_tunnels: Option<u32>,
    pub max_concurrent_streams: Option<u32>,
    pub max_bytes_per_second: Option<u64>,
}

/// An entry of a token file.
#[derive(Debug)]
pub struct PrincipalFile {
    pub account_id: String,
    pub display_name: Option<String>,
    pub reserved_subdomains: Vec<String>,
    pub custom_domains: Vec<String>,
    pub limits: Option<LimitsFile>,
}

/// The ceilings that an entry gives: each where it is written, else the default.
pub open spec fn limits_given(limits: Option<LimitsFile>) -> Limits {
    let defaults = auth::default_limits();
    match limits {
        None => defaults,
        Some(l) => Limits {
            max_tunnels: match l.max_tunnels {
                Some(n) => n,
                None => defaults.max_tunnels,
            },
            max_concurrent_streams: match l.max_concurrent_streams {
                Some(n) => n,
                None => defaults.max_concurrent_streams,
            },
            max_bytes_per_second: match l.max_bytes_per_second {
                Some(n) => n,
                None => defaults.max_bytes_per_second,
            },
        },
    }
}

impl PrincipalFile {
    /// The principal that an entry describes: without a display name, the account
    /// id is shown.
    pub open spec fn describes(&self) -> PrincipalView {
        PrincipalView {
            account_id: self.account_id@,
            display_name: match self.display_name {
                Some(name) => name@,
                None => self.account_id@,
            },
            reserved_subdomains: text::texts(self.reserved_subdomains@),
            custom_domains: text::texts(self.custom_domains@),
            limits: limits_given(self.limits),
        }
    }

    /// Turns an entry into the principal that it describes.
    pub fn to_principal(&self) -> (r: Principal)
        ensures
            r@ == self.describes(),
    {
        let defaults = Limits::default();
        let limits = match self.limits {
            None => defaults,
            Some(l) => Limits {
                max_tunnels: match l.max_tunnels {
                    Some(n) => n,
                    None => defaults.max_tunnels,
                },
                max_concurrent_streams: match l.max_concurrent_streams {
                    Some(n) => n,
                    None => defaults.max_concurrent_streams,
                },
                max_bytes_per_second: match l.max_bytes_per_second {
                    Some(n) => n,
                    None => defaults.max_bytes_per_second,
                },
            },
        };
        let display_name = match &self.display_name {
            Some(name) => name.clone(),
            None => self.account_id.clone(),
        };
        Principal {
            account_id: self.account_id.clone(),
            display_name,
            reserved_subdomains: auth::copy_texts(&self.reserved_subdomains),
            custom_domains: auth::copy_texts(&self.custom_domains),
            limits,
        }
    }
}

/// Entries as principals, token by token.
pub open spec fn described(entries: Seq<(String, PrincipalFile)>) -> Seq<
    (Seq<char>, PrincipalView),
> {
    Seq::new(entries.len(), |i: int| (entries[i].0@, entries[i].1.describes()))
}

/// Tokens with their principals, by their text.
pub open spec fn token_views(entries: Seq<(String, Principal)>) -> Seq<
    (Seq<char>, PrincipalView),
> {
    Seq::new(entries.len(), |i: int| (entries[i].0@, entries[i].1@))
}

/// Turns the entries of a token file into principals, in order.
pub fn principals(entries: &Vec<(String, PrincipalFile)>) -> (r: Vec<(String, Principal)>)
    ensures
        token_views(r@) == described(entries@),
{
    let mut out: Vec<(String, Principal)> = Vec::new();
    for i in 0..entries.len()
        invariant
            token_views(out@) == described(entries@).take(i as int),
    {
        let ghost before = token_views(out@);
        out.push((entries[i].0.clone(), entries[i].1.to_principal()));
        assert(token_views(out@) =~= before.push(described(entries@)[i as int]));
        assert(described(entries@).take(i as int + 1) =~= before.push(
            described(entries@)[i as int],
        ));
    }
    assert(described(entries@).take(entries@.len() as int) =~= described(entries@));
    out
}

/// An entry gives what it writes: each ceiling that it names counts, each other one is
/// the default, and without a display name the account id is shown.
pub proof fn entries_give_what_they_write(entry: PrincipalFile, i: int)
    ensures
        entry.describes().account_id == entry.account_id@,
        entry.display_name matches Some(name) ==> entry.describes().display_name == name@,
        entry.display_name is None ==> entry.describes().display_name == entry.account_id@,
        entry.describes().reserved_subdomains.len() == entry.reserved_subdomains@.len(),
        entry.describes().custom_domains.len() == entry.custom_domains@.len(),
        0 <= i < entry.reserved_subdomains@.len() ==> entry.describes().reserved_subdomains[i]
            == entry.reserved_subdomains@[i]@,
        0 <= i < entry.custom_domains@.len() ==> entry.describes().custom_domains[i]
            == entry.custom_domains@[i]@,
        entry.limits is None ==> entry.describes().limits == auth::default_limits(),
        entry.limits matches Some(given) ==> {
            let limits = entry.describes().limits;
            &&& given.max_tunnels matches Some(n) ==> limits.max_tunnels == n
            &&& given.max_tunnels is None ==> limits.max_tunnels == 8
            &&& given.max_concurrent_streams matches Some(n) ==> limits.max_concurrent_streams == n
            &&& given.max_concurrent_streams is None ==> limits.max_concurrent_streams == 512
            &&& given.max_bytes_per_second matches Some(n) ==> limits.max_bytes_per_second == n
            &&& given.max_bytes_per_second is None ==> limits.max_bytes_per_second == 0
        },
{
}

/// Every entry of a token file becomes the principal of its token, in its place.
pub proof fn entries_become_principals_in_order(
    entries: Seq<(String, PrincipalFile)>,
    made: Seq<(String, Principal)>,
    i: int,
)
    requires
        token_views(made) == described(entries),
        0 <= i < entries.len(),
    ensures
        made.len() == entries.len(),
        made[i].0@ == entries[i].0@,
        made[i].1@ == entries[i].1.describes(),
{
    assert(token_views(made).len() == made.len());
    assert(token_views(made)[i] == described(entries)[i]);
}

} // verus!
