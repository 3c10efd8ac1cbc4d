//! Agent authentication.
//!
//! The edge only ever sees a bearer token. Where that token comes from (a
//! static file for self-hosters, a control-plane database for a hosted
//! deployment) is behind [`AuthProvider`].

use vstd::prelude::*;
use vstd::string::*;

use crate::error::{Error, ErrorView};
use crate::text;

verus! {

/// Per-account ceilings enforced at the edge.
#[derive(Debug, Clone, Copy, PartialEq, Eq, Structural)]
pub struct Limits {
    /// Tunnels that may be open at the same time.
    pub max_tunnels: u32,
    /// Requests that may be in flight at the same time.
    pub max_concurrent_streams: u32,
    /// Bandwidth ceiling; zero means unmetered.
    pub max_bytes_per_second: u64,
}

/// The ceilings of an account for which none were configured: generous ones,
/// suited to a deployment whose operator and users are the same people.
pub open spec fn default_limits() -> Limits {
    Limits { max_tunnels: 8, max_concurrent_streams: 512, max_bytes_per_second: 0 }
}

impl Default for Limits {
    fn default() -> (r: Self)
        ensures
            r == default_limits(),
    {
        Limits { max_tunnels: 8, max_concurrent_streams: 512, max_bytes_per_second: 0 }
    }
}

/// Who a validated token belongs to, plus what they are allowed to do.
#[derive(Debug, PartialEq, Eq)]
pub struct Principal {
    /// Stable account identifier, used as the metrics and quota dimension.
    pub account_id: String,
    /// Human-facing label for logs and the dashboard.
    pub display_name: String,
    /// Reserved subdomains that this principal was granted. Any other subdomain
    /// goes to the first to claim it.
    pub reserved_subdomains: Vec<String>,
    /// Custom domains whose ownership has been verified for this account.
    pub custom_domains: Vec<String>,
    /// Quotas applied to this principal.
    pub limits: Limits,
}

/// A principal by the text of its fields.
#[verifier::ext_equal]
pub struct PrincipalView {
    pub account_id: Seq<char>,
    pub display_name: Seq<char>,
    pub reserved_subdomains: Seq<Seq<char>>,
    pub custom_domains: Seq<Seq<char>>,
    pub limits: Limits,
}

impl View for Principal {
    type V = PrincipalView;

    open spec fn view(&self) -> PrincipalView {
        PrincipalView {
            account_id: self.account_id@,
            display_name: self.display_name@,
            reserved_subdomains: text::texts(self.reserved_subdomains@),
            custom_domains: text::texts(self.custom_domains@),
            limits: self.limits,
        }
    }
}

impl PrincipalView {
    /// Whether the account was granted this subdomain, in any case.
    pub open spec fn may_claim(self, subdomain: Seq<char>) -> bool {
        exists|i: int|
            0 <= i < self.reserved_subdomains.len() && text::lower(
                #[trigger] self.reserved_subdomains[i],
            ) == text::lower(subdomain)
    }

    /// Whether one of the account's verified domains covers this one.
    pub open spec fn may_serve(self, domain: Seq<char>) -> bool {
        exists|i: int|
            0 <= i < self.custom_domains.len() && covers(
                #[trigger] self.custom_domains[i],
                domain,
            )
    }
}

/// Whether an entry of the verified domains covers a domain: as a wildcard where
/// it begins with `*.`, else exactly, in any case.
pub open spec fn covers(entry: Seq<char>, domain: Seq<char>) -> bool {
    if text::begins_with(entry, "*."@) {
        let suffix = entry.skip(2);
        domain.len() > suffix.len() + 1 && text::finishes_with(domain, "."@ + suffix)
    } else {
        text::lower(entry) == text::lower(domain)
    }
}

/// Copies a list of strings.
pub fn copy_texts(v: &Vec<String>) -> (r: Vec<String>)
    ensures
        text::texts(r@) == text::texts(v@),
{
    let mut out: Vec<String> = Vec::new();
    for i in 0..v.len()
        invariant
            text::texts(out@) == text::texts(v@.take(i as int)),
    {
        let ghost before = text::texts(out@);
        out.push(v[i].clone());
        assert(text::texts(out@) =~= before.push(v@[i as int]@));
        assert(text::texts(v@.take(i as int + 1)) =~= before.push(v@[i as int]@));
    }
    assert(v@.take(v@.len() as int) == v@);
    out
}

impl Clone for Principal {
    fn clone(&self) -> (r: Self)
        ensures
            r@ == self@,
    {
        Principal {
            account_id: self.account_id.clone(),
            display_name: self.display_name.clone(),
            reserved_subdomains: copy_texts(&self.reserved_subdomains),
            custom_domains: copy_texts(&self.custom_domains),
            limits: self.limits,
        }
    }
}

/// Whether an entry of the verified domains covers a domain.
fn entry_covers(entry: &str, domain: &str) -> (r: bool)
    ensures
        r == covers(entry@, domain@),
{
    proof {
        reveal_strlit("*.");
        reveal_strlit(".");
    }
    match text::after_prefix(entry, "*.") {
        Some(suffix) => {
            // `*.example.com` covers `a.example.com` but not `example.com`
            // itself, and not `evilexample.com`.
            match text::before_suffix(domain, text::join2(".", suffix).as_str()) {
                Some(head) => head.unicode_len() > 0,
                None => false,
            }
        },
        None => text::same_ignoring_case(entry, domain),
    }
}

impl Principal {
    /// Whether this principal may claim `subdomain`.
    #[must_use]
    pub fn may_claim_subdomain(&self, subdomain: &str) -> (r: bool)
        ensures
            r == self@.may_claim(subdomain@),
    {
        let mut i: usize = 0;
        while i < self.reserved_subdomains.len()
            invariant
                i <= self.reserved_subdomains@.len(),
                forall|k: int|
                    0 <= k < i ==> text::lower(#[trigger] self@.reserved_subdomains[k])
                        != text::lower(subdomain@),
            decreases self.reserved_subdomains@.len() - i,
        {
            assert(self@.reserved_subdomains[i as int] == self.reserved_subdomains@[i as int]@);
            if text::same_ignoring_case(self.reserved_subdomains[i].as_str(), subdomain) {
                return true;
            }
            i = i + 1;
        }
        false
    }

    /// Whether this principal may serve `domain` as a custom domain.
    ///
    /// Matches exactly, or as a wildcard when the entry starts with `*.`.
    #[must_use]
    pub fn may_use_custom_domain(&self, domain: &str) -> (r: bool)
        ensures
            r == self@.may_serve(domain@),
    {
        let mut i: usize = 0;
        while i < self.custom_domains.len()
            invariant
                i <= self.custom_domains@.len(),
                forall|k: int|
                    0 <= k < i ==> !covers(#[trigger] self@.custom_domains[k], domain@),
            decreases self.custom_domains@.len() - i,
        {
            assert(self@.custom_domains[i as int] == self.custom_domains@[i as int]@);
            if entry_covers(self.custom_domains[i].as_str(), domain) {
                return true;
            }
            i = i + 1;
        }
        false
    }
}

/// Validates agent credentials.
pub trait AuthProvider {
    /// Resolves a bearer token to a [`Principal`].
    ///
    /// Returns [`Error::Unauthorized`] when the token is unknown, revoked or
    /// malformed. An implementation must not distinguish these to the caller:
    /// doing so turns the endpoint into a token oracle.
    fn authenticate(&self, token: &str) -> (r: Result<Principal, Error>);
}

/// An in-memory token table, loaded from configuration.
///
/// This is the default for self-hosted single-operator deployments. A later
/// entry for the same token replaces an earlier one.
#[derive(Debug)]
pub struct StaticTokenAuth {
    tokens: Vec<(String, Principal)>,
    /// When true, any token (an empty one too) is accepted as an anonymous
    /// principal. Intended for local development only.
    anonymous: bool,
}

/// What a token table says: whom each token belongs to, and whether an unknown
/// token is admitted.
#[verifier::ext_equal]
pub struct TokenTable {
    pub tokens: Map<Seq<char>, PrincipalView>,
    pub anonymous: bool,
}

/// The entries of a token table, a later one before an earlier one.
pub open spec fn token_entries(entries: Seq<(String, Principal)>) -> Map<Seq<char>, PrincipalView>
    decreases entries.len(),
{
    if entries.len() == 0 {
        Map::empty()
    } else {
        token_entries(entries.drop_last()).insert(entries.last().0@, entries.last().1@)
    }
}

/// The principal as whom an unknown token is admitted in anonymous mode.
pub open spec fn anonymous_principal() -> PrincipalView {
    PrincipalView {
        account_id: "anonymous"@,
        display_name: "anonymous"@,
        reserved_subdomains: Seq::empty(),
        custom_domains: Seq::empty(),
        limits: default_limits(),
    }
}

impl TokenTable {
    /// What a token is answered.
    pub open spec fn answer(self, token: Seq<char>) -> Result<PrincipalView, ErrorView> {
        if self.tokens.dom().contains(token) {
            Ok(self.tokens[token])
        } else if self.anonymous {
            Ok(anonymous_principal())
        } else {
            Err(ErrorView::Unauthorized("unknown or revoked token"@))
        }
    }
}

impl View for StaticTokenAuth {
    type V = TokenTable;

    closed spec fn view(&self) -> TokenTable {
        TokenTable { tokens: token_entries(self.tokens@), anonymous: self.anonymous }
    }
}

impl StaticTokenAuth {
    /// A table of known tokens; every other token is refused.
    #[must_use]
    pub fn new(tokens: Vec<(String, Principal)>) -> (r: Self)
        ensures
            r@ == (TokenTable { tokens: token_entries(tokens@), anonymous: false }),
    {
        StaticTokenAuth { tokens, anonymous: false }
    }

    /// Accepts every connection as an anonymous principal.
    ///
    /// Never enable this on a publicly reachable edge: it lets anyone on the
    /// internet publish tunnels through the server.
    #[must_use]
    pub fn allow_anonymous() -> (r: Self)
        ensures
            r@ == (TokenTable { tokens: Map::empty(), anonymous: true }),
    {
        StaticTokenAuth { tokens: Vec::new(), anonymous: true }
    }
}

impl Default for StaticTokenAuth {
    /// A table without tokens, which refuses every one.
    fn default() -> (r: Self)
        ensures
            r@ == (TokenTable { tokens: Map::empty(), anonymous: false }),
    {
        StaticTokenAuth { tokens: Vec::new(), anonymous: false }
    }
}

impl AuthProvider for StaticTokenAuth {
    fn authenticate(&self, token: &str) -> (r: Result<Principal, Error>)
        ensures
            match self@.answer(token@) {
                Ok(p) => r matches Ok(found) && found@ == p,
                Err(e) => r matches Err(refusal) && refusal@ == e,
            },
    {
        let mut i: usize = self.tokens.len();
        assert(self.tokens@.take(i as int) == self.tokens@);
        while 0 < i
            invariant
                i <= self.tokens@.len(),
                token_entries(self.tokens@).dom().contains(token@) == token_entries(
                    self.tokens@.take(i as int),
                ).dom().contains(token@),
                token_entries(self.tokens@)[token@] == token_entries(
                    self.tokens@.take(i as int),
                )[token@],
            decreases i,
        {
            if text::same(self.tokens[i - 1].0.as_str(), token) {
                return Ok(self.tokens[i - 1].1.clone());
            }
            assert(self.tokens@.take(i as int).drop_last() == self.tokens@.take(i - 1));
            i = i - 1;
        }
        if self.anonymous {
            let nobody = Principal {
                account_id: "anonymous".to_owned(),
                display_name: "anonymous".to_owned(),
                reserved_subdomains: Vec::new(),
                custom_domains: Vec::new(),
                limits: Limits::default(),
            };
            assert(nobody@ =~= anonymous_principal());
            return Ok(nobody);
        }
        Err(Error::Unauthorized("unknown or revoked token".to_owned()))
    }
}

/// Every refused token is refused in the same words, so a refusal tells nothing
/// about why.
pub proof fn refusals_are_alike(table: TokenTable, first: Seq<char>, second: Seq<char>)
    requires
        table.answer(first) is Err,
        table.answer(second) is Err,
    ensures
        table.answer(first) == table.answer(second),
{
}

/// `*.X` covers exactly the texts that put something and a dot in front of `X`.
pub proof fn wildcards_cover_what_lies_below(suffix: Seq<char>, domain: Seq<char>)
    ensures
        covers("*."@ + suffix, domain) <==> exists|head: Seq<char>|
            head.len() > 0 && domain == #[trigger] (head + "."@ + suffix),
{
    reveal_strlit("*.");
    reveal_strlit(".");
    let entry = "*."@ + suffix;
    assert(entry.take(2) =~= "*."@);
    assert(entry.skip(2) =~= suffix);
    if covers(entry, domain) {
        let head = domain.take(domain.len() - suffix.len() - 1);
        assert(domain =~= head + domain.skip(domain.len() - suffix.len() - 1));
        assert(domain =~= head + "."@ + suffix);
    }
    if exists|head: Seq<char>| head.len() > 0 && domain == #[trigger] (head + "."@ + suffix) {
        let head = choose|head: Seq<char>|
            head.len() > 0 && domain == #[trigger] (head + "."@ + suffix);
        assert(domain.skip(head.len() as int) =~= "."@ + suffix);
    }
}

/// `*.X` covers neither `X` itself nor a text that merely ends with `X`.
pub proof fn wildcards_do_not_leak(suffix: Seq<char>, head: Seq<char>)
    requires
        head.len() == 0 || head.last() != '.',
    ensures
        !covers("*."@ + suffix, head + suffix),
{
    reveal_strlit("*.");
    reveal_strlit(".");
    let entry = "*."@ + suffix;
    let domain = head + suffix;
    assert(entry.take(2) =~= "*."@);
    assert(entry.skip(2) =~= suffix);
    if covers(entry, domain) {
        let at = domain.len() - suffix.len() - 1;
        assert(domain.skip(at)[0] == ("."@ + suffix)[0]);
        assert(domain[at] == head.last());
    }
}

/// A subdomain is granted exactly where it is among the account's, in any case.
pub proof fn grants_are_the_accounts_subdomains(p: PrincipalView, subdomain: Seq<char>, i: int)
    ensures
        0 <= i < p.reserved_subdomains.len() && text::lower(p.reserved_subdomains[i])
            == text::lower(subdomain) ==> p.may_claim(subdomain),
        (forall|k: int|
            0 <= k < p.reserved_subdomains.len() ==> text::lower(#[trigger] p.reserved_subdomains[k])
                != text::lower(subdomain)) ==> !p.may_claim(subdomain),
{
}

/// A domain may be served exactly where one of the account's verified domains is it,
/// in any case, or is a wildcard that it lies below.
pub proof fn domains_are_served_where_an_entry_covers_them(
    p: PrincipalView,
    domain: Seq<char>,
    i: int,
)
    ensures
        0 <= i < p.custom_domains.len() && covers(p.custom_domains[i], domain) ==> p.may_serve(
            domain,
        ),
        (forall|k: int|
            0 <= k < p.custom_domains.len() ==> !covers(#[trigger] p.custom_domains[k], domain))
            ==> !p.may_serve(domain),
{
}

/// An entry without a wildcard covers the domain that it names, in any case, and no
/// other.
pub proof fn plain_entries_cover_only_themselves(entry: Seq<char>, domain: Seq<char>)
    requires
        !text::begins_with(entry, "*."@),
    ensures
        covers(entry, domain) <==> text::lower(entry) == text::lower(domain),
        covers(entry, entry),
{
}

/// Every name directly or deeper below a wildcard's suffix is covered.
pub proof fn children_are_covered(suffix: Seq<char>, head: Seq<char>)
    requires
        head.len() > 0,
    ensures
        covers("*."@ + suffix, head + "."@ + suffix),
{
    wildcards_cover_what_lies_below(suffix, head + "."@ + suffix);
}

/// Of the entries for a token the last one counts, and a token without an entry is
/// not in the table.
pub proof fn the_last_entry_for_a_token_counts(
    entries: Seq<(String, Principal)>,
    token: Seq<char>,
    i: int,
)
    ensures
        (forall|k: int| 0 <= k < entries.len() ==> (#[trigger] entries[k]).0@ != token)
            ==> !token_entries(entries).dom().contains(token),
        0 <= i < entries.len() && entries[i].0@ == token && (forall|k: int|
            i < k < entries.len() ==> (#[trigger] entries[k]).0@ != token) ==> token_entries(
            entries,
        ).dom().contains(token) && token_entries(entries)[token] == entries[i].1@,
    decreases entries.len(),
{
    if entries.len() > 0 {
        let fewer = entries.drop_last();
        the_last_entry_for_a_token_counts(fewer, token, i);
        let last = entries.len() - 1;
        if forall|k: int| 0 <= k < entries.len() ==> (#[trigger] entries[k]).0@ != token {
            assert(entries[last].0@ != token);
            assert forall|k: int| 0 <= k < fewer.len() implies (#[trigger] fewer[k]).0@ != token by {
                assert(entries[k].0@ != token);
            }
        }
        if 0 <= i < last && entries[i].0@ == token && (forall|k: int|
            i < k < entries.len() ==> (#[trigger] entries[k]).0@ != token) {
            assert(entries[last].0@ != token);
            assert forall|k: int| i < k < fewer.len() implies (#[trigger] fewer[k]).0@ != token by {
                assert(entries[k].0@ != token);
            }
        }
    }
}

/// A known token is answered with its principal. An unknown one is refused, unless
/// the table takes everyone: then it gets an account that was granted nothing.
pub proof fn tokens_are_answered_by_the_table(table: TokenTable, token: Seq<char>)
    ensures
        table.tokens.dom().contains(token) ==> table.answer(token) == Ok::<
            PrincipalView,
            ErrorView,
        >(table.tokens[token]),
        !table.tokens.dom().contains(token) && !table.anonymous ==> table.answer(token) == Err::<
            PrincipalView,
            ErrorView,
        >(ErrorView::Unauthorized("unknown or revoked token"@)),
        !table.tokens.dom().contains(token) && table.anonymous ==> {
            &&& table.answer(token) matches Ok(p)
            &&& p.account_id == "anonymous"@
            &&& p.display_name == "anonymous"@
            &&& p.reserved_subdomains.len() == 0
            &&& p.custom_domains.len() == 0
            &&& p.limits == default_limits()
        },
        default_limits().max_tunnels == 8,
        default_limits().max_concurrent_streams == 512,
        default_limits().max_bytes_per_second == 0,
{
}

/// A principal is read field by field.
pub proof fn principals_are_read_as_they_are(p: Principal, i: int)
    ensures
        p@.account_id == p.account_id@,
        p@.display_name == p.display_name@,
        p@.limits == p.limits,
        p@.reserved_subdomains.len() == p.reserved_subdomains@.len(),
        p@.custom_domains.len() == p.custom_domains@.len(),
        0 <= i < p.reserved_subdomains@.len() ==> p@.reserved_subdomains[i]
            == p.reserved_subdomains@[i]@,
        0 <= i < p.custom_domains@.len() ==> p@.custom_domains[i] == p.custom_domains@[i]@,
{
}

} // verus!
