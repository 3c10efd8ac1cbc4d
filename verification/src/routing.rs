//! Routing keys: the canonical identity a public request is matched against.
//!
//! Every tunnel is reachable by exactly one routing key. The key produced when a
//! tunnel is registered has to be identical to the key derived from a request's
//! `Host` header, or a live tunnel is not found; the laws at the end of this
//! module state when it is.

use vstd::prelude::*;
use vstd::string::*;
use vstd::utf8::*;

use crate::address;
use crate::error::{Error, ErrorView};
use crate::ids;
use crate::text;

verus! {

/// Maximum length of a single DNS label (RFC 1035).
pub const MAX_LABEL_LEN: usize = 63;

/// Maximum length of a hostname.
pub const MAX_HOST_LEN: usize = 253;

/// Length of a generated subdomain.
///
/// Twelve characters of a 32-symbol alphabet are 60 bits, so guessing a live
/// tunnel is not practical.
pub const GENERATED_SUBDOMAIN_LEN: usize = 12;

/// Whether an operation that may refuse a routing target came out as described:
/// with this text, or refused with this reason.
pub open spec fn comes_to(r: Result<String, Error>, expected: Result<Seq<char>, Seq<char>>) -> bool {
    match expected {
        Ok(s) => r matches Ok(h) && h@ == s,
        Err(m) => r matches Err(e) && e@ == ErrorView::InvalidRoute(m),
    }
}

/// The canonical identity of a tunnel within the routing table.
#[derive(Debug, PartialEq, Eq, Hash, PartialOrd, Ord)]
pub enum RoutingKey {
    /// An HTTP(S) tunnel addressed by hostname.
    Host(String),
    /// A raw TCP tunnel addressed by the edge's public port.
    TcpPort(u16),
}

/// How a TCP port is written in the routing table.
pub open spec fn port_key(port: u16) -> Seq<char> {
    "tcp:"@ + text::decimal(port as nat)
}

impl View for RoutingKey {
    type V = Seq<char>;

    /// The string form stored in the routing table.
    open spec fn view(&self) -> Seq<char> {
        match self {
            RoutingKey::Host(host) => host@,
            RoutingKey::TcpPort(port) => port_key(*port),
        }
    }
}

impl Clone for RoutingKey {
    fn clone(&self) -> (r: Self)
        ensures
            r@ == self@,
            match *self {
                RoutingKey::Host(host) => r matches RoutingKey::Host(h) && h@ == host@,
                RoutingKey::TcpPort(port) => r == RoutingKey::TcpPort(port),
            },
    {
        match self {
            RoutingKey::Host(host) => RoutingKey::Host(host.clone()),
            RoutingKey::TcpPort(port) => RoutingKey::TcpPort(*port),
        }
    }
}

impl RoutingKey {
    /// Builds a host key, canonicalising the input.
    ///
    /// # Errors
    /// Returns [`Error::InvalidRoute`] if the host is not a usable DNS name or a
    /// bracketed IPv6 address.
    pub fn host(raw: &str) -> (r: Result<RoutingKey, Error>)
        ensures
            match canonical_host(raw@) {
                Ok(s) => r matches Ok(RoutingKey::Host(h)) && h@ == s,
                Err(m) => r matches Err(e) && e@ == ErrorView::InvalidRoute(m),
            },
    {
        match normalize_host(raw) {
            Ok(host) => Ok(RoutingKey::Host(host)),
            Err(e) => Err(e),
        }
    }

    /// The string form of the key.
    #[must_use]
    pub fn to_string(&self) -> (r: String)
        ensures
            r@ == self@,
    {
        match self {
            RoutingKey::Host(host) => host.clone(),
            RoutingKey::TcpPort(port) => text::join2(
                "tcp:",
                text::to_decimal(*port as u64).as_str(),
            ),
        }
    }

    /// The string form stored in the routing table and compared against inbound
    /// requests.
    #[must_use]
    pub fn as_storage_key(&self) -> (r: String)
        ensures
            r@ == self@,
    {
        self.to_string()
    }
}

/// The host in a `Host` header, with its port dropped.
///
/// In a bracketed IPv6 literal the colons belong to the address, and whatever
/// follows the closing bracket is dropped.
pub open spec fn without_port(raw: Seq<char>) -> Result<Seq<char>, Seq<char>> {
    let t = text::trim(raw);
    if t.len() == 0 {
        Err("empty host"@)
    } else if t[0] == '[' {
        let end = text::position(t, ']');
        if end < t.len() {
            Ok(t.take(end as int + 1))
        } else {
            Err("unterminated IPv6 host: "@ + raw)
        }
    } else {
        let colon = text::position(t, ':');
        if colon >= t.len() {
            Ok(t)
        } else if text::all_digits(t.skip(colon as int + 1)) {
            Ok(t.take(colon as int))
        } else {
            Err("invalid port in host: "@ + raw)
        }
    }
}

/// Whether a character may stand in a DNS label.
pub open spec fn label_char(c: char) -> bool {
    'a' <= c <= 'z' || text::is_digit(c) || c == '-'
}

/// Whether every character may stand in a DNS label.
pub open spec fn label_chars(s: Seq<char>) -> bool {
    forall|i: int| 0 <= i < s.len() ==> label_char(#[trigger] s[i])
}

/// Whether a text is a DNS label in lower case: letters, digits and hyphens, at
/// most 63 of them, with no hyphen at either end.
pub open spec fn is_label(l: Seq<char>) -> bool {
    &&& 1 <= l.len() <= MAX_LABEL_LEN
    &&& label_chars(l)
    &&& l[0] != '-'
    &&& l.last() != '-'
}

/// Whether a text is a DNS name in lower case: labels with dots between them.
pub open spec fn is_hostname(s: Seq<char>) -> bool {
    let labels = text::split(s, '.');
    forall|i: int| 0 <= i < labels.len() ==> is_label(#[trigger] labels[i])
}

/// Whether a text is an IPv6 address in brackets.
pub open spec fn is_literal(s: Seq<char>) -> bool {
    &&& s.len() >= 2
    &&& s[0] == '['
    &&& s.last() == ']'
    &&& address::is_address(s.subrange(1, s.len() - 1))
}

/// The lookup key of a `Host` header or a configured domain: a DNS name of at
/// most 253 characters or a bracketed IPv6 address, in lower case, without port
/// and trailing root dot.
pub open spec fn canonical_host(raw: Seq<char>) -> Result<Seq<char>, Seq<char>> {
    match without_port(raw) {
        Err(m) => Err(m),
        Ok(host) => {
            let key = text::lower(text::without_trailing(host, '.'));
            if key.len() == 0 {
                Err("empty host"@)
            } else if !is_ascii_chars(key) {
                Err("non-ASCII host (punycode it first): "@ + raw)
            } else if key.len() > MAX_HOST_LEN {
                Err("host exceeds 253 characters"@)
            } else if !is_hostname(key) && !is_literal(key) {
                Err("not a valid hostname: "@ + raw)
            } else {
                Ok(key)
            }
        },
    }
}

/// Refuses a routing target for the given reason.
fn invalid(reason: String) -> (r: Result<String, Error>)
    ensures
        r matches Err(e) && e@ == ErrorView::InvalidRoute(reason@),
{
    Err(Error::InvalidRoute(reason))
}

/// Drops the port of a trimmed, non-empty host.
fn strip_port(raw: &str) -> (r: Result<String, Error>)
    ensures
        comes_to(r, without_port(raw@)),
{
    let trimmed = text::trimmed(raw);
    let chars = text::chars_of(trimmed);
    let n: usize = chars.len();
    if n == 0 {
        return invalid("empty host".to_owned());
    }
    if chars[0] == '[' {
        let end = text::find(&chars, ']');
        if end < n {
            Ok(trimmed.substring_char(0, end + 1).to_owned())
        } else {
            invalid(text::join2("unterminated IPv6 host: ", raw))
        }
    } else {
        let colon = text::find(&chars, ':');
        if colon >= n {
            return Ok(trimmed.to_owned());
        }
        let port = trimmed.substring_char(colon + 1, n);
        assert(port@ == trimmed@.skip(colon + 1));
        if text::only_digits(port) {
            Ok(trimmed.substring_char(0, colon).to_owned())
        } else {
            invalid(text::join2("invalid port in host: ", raw))
        }
    }
}

/// Whether every character of a string may stand in a DNS label.
fn only_label_chars(s: &str) -> (r: bool)
    ensures
        r == label_chars(s@),
{
    let chars = text::chars_of(s);
    let mut i: usize = 0;
    while i < chars.len()
        invariant
            i <= chars@.len(),
            chars@ == s@,
            forall|k: int| 0 <= k < i ==> label_char(#[trigger] s@[k]),
        decreases chars@.len() - i,
    {
        let c = chars[i];
        if !(('a' <= c && c <= 'z') || ('0' <= c && c <= '9') || c == '-') {
            assert(!label_char(s@[i as int]));
            return false;
        }
        i = i + 1;
    }
    true
}

/// Whether a string is a DNS label in lower case.
fn check_label(s: &str) -> (r: bool)
    ensures
        r == is_label(s@),
{
    let chars = text::chars_of(s);
    let n: usize = chars.len();
    1 <= n && n <= MAX_LABEL_LEN && only_label_chars(s) && chars[0] != '-' && chars[n - 1] != '-'
}

/// Whether a string is a DNS name in lower case.
fn check_hostname(s: &str) -> (r: bool)
    ensures
        r == is_hostname(s@),
{
    let labels = text::split_at_char(s, '.');
    let ghost seen = text::split(s@, '.');
    let mut i: usize = 0;
    while i < labels.len()
        invariant
            i <= labels@.len(),
            text::texts(labels@) == seen,
            seen == text::split(s@, '.'),
            forall|k: int| 0 <= k < i ==> is_label(#[trigger] seen[k]),
        decreases labels@.len() - i,
    {
        assert(seen[i as int] == labels@[i as int]@);
        if !check_label(labels[i].as_str()) {
            return false;
        }
        i = i + 1;
    }
    true
}

/// Whether a string is an IPv6 address in brackets.
fn check_literal(s: &str) -> (r: bool)
    ensures
        r == is_literal(s@),
{
    let chars = text::chars_of(s);
    let n: usize = chars.len();
    n >= 2 && chars[0] == '[' && chars[n - 1] == ']' && address::check_address(
        s.substring_char(1, n - 1),
    )
}

/// Canonicalises a `Host` header (or a configured domain) into a lookup key.
///
/// Handles the four ways the same host arrives in practice: with a port, with
/// mixed case, fully qualified with a trailing dot, and in IPv6 literal form.
///
/// # Errors
/// Returns [`Error::InvalidRoute`] when the result is not a valid hostname.
pub fn normalize_host(raw: &str) -> (r: Result<String, Error>)
    ensures
        comes_to(r, canonical_host(raw@)),
{
    let host = match strip_port(raw) {
        Ok(host) => host,
        Err(e) => return Err(e),
    };
    let rootless = text::trim_trailing(host.as_str(), '.');
    let lowered = text::to_lower(rootless);
    if lowered.as_str().unicode_len() == 0 {
        return invalid("empty host".to_owned());
    }
    if !lowered.is_ascii() {
        return invalid(text::join2("non-ASCII host (punycode it first): ", raw));
    }
    if lowered.as_str().unicode_len() > MAX_HOST_LEN {
        return invalid("host exceeds 253 characters".to_owned());
    }
    if !check_hostname(lowered.as_str()) && !check_literal(lowered.as_str()) {
        return invalid(text::join2("not a valid hostname: ", raw));
    }
    Ok(lowered)
}

/// The labels that are never handed out by default, because they collide with
/// infrastructure or let a user impersonate it to their own visitors.
pub open spec fn reserved_word(l: Seq<char>) -> bool {
    ||| l == "www"@ || l == "api"@ || l == "admin"@ || l == "dashboard"@ || l == "app"@
    ||| l == "status"@ || l == "docs"@ || l == "mail"@ || l == "smtp"@ || l == "ns"@
    ||| l == "ns1"@ || l == "ns2"@ || l == "mx"@ || l == "cdn"@ || l == "static"@
    ||| l == "assets"@ || l == "edge"@ || l == "control"@ || l == "grpc"@ || l == "internal"@
    ||| l == "metrics"@ || l == "health"@ || l == "localhost"@ || l == "test"@
    ||| l == "support"@ || l == "billing"@ || l == "account"@ || l == "login"@ || l == "auth"@
    ||| l == "security"@ || l == "norupo"@
}

/// Whether a label is on the reserved list, in any case.
///
/// Reserved labels are not claimable by default, but an account that was granted
/// one may still take it, which is why this stands apart from
/// [`validate_subdomain`].
#[must_use]
pub fn is_reserved_subdomain(label: &str) -> (r: bool)
    ensures
        r == reserved_word(text::lower(label@)),
{
    let lowered = text::to_lower(label);
    let l = lowered.as_str();
    text::same(l, "www") || text::same(l, "api") || text::same(l, "admin") || text::same(
        l,
        "dashboard",
    ) || text::same(l, "app") || text::same(l, "status") || text::same(l, "docs") || text::same(
        l,
        "mail",
    ) || text::same(l, "smtp") || text::same(l, "ns") || text::same(l, "ns1") || text::same(
        l,
        "ns2",
    ) || text::same(l, "mx") || text::same(l, "cdn") || text::same(l, "static") || text::same(
        l,
        "assets",
    ) || text::same(l, "edge") || text::same(l, "control") || text::same(l, "grpc") || text::same(
        l,
        "internal",
    ) || text::same(l, "metrics") || text::same(l, "health") || text::same(l, "localhost")
        || text::same(l, "test") || text::same(l, "support") || text::same(l, "billing")
        || text::same(l, "account") || text::same(l, "login") || text::same(l, "auth")
        || text::same(l, "security") || text::same(l, "norupo")
}

/// A requested label in canonical form, or why it is not a DNS label. The
/// reserved list plays no part here.
pub open spec fn label_syntax(label: Seq<char>) -> Result<Seq<char>, Seq<char>> {
    let l = text::lower(text::trim(label));
    if l.len() == 0 {
        Err("subdomain must not be empty"@)
    } else if encode_utf8(l).len() > MAX_LABEL_LEN {
        Err("subdomain must be at most 63 characters"@)
    } else if !label_chars(l) {
        Err("subdomain may only contain a-z, 0-9 and hyphen"@)
    } else if l[0] == '-' || l.last() == '-' {
        Err("subdomain must not start or end with a hyphen"@)
    } else if text::begins_with(l, "xn--"@) {
        Err("subdomain must not use the punycode prefix"@)
    } else {
        Ok(l)
    }
}

/// A requested label in canonical form, or why it may not be claimed by default.
pub open spec fn claimable_label(label: Seq<char>) -> Result<Seq<char>, Seq<char>> {
    match label_syntax(label) {
        Err(m) => Err(m),
        Ok(l) => if reserved_word(l) {
            Err("subdomain `"@ + l + "` is reserved"@)
        } else {
            Ok(l)
        },
    }
}

/// Validates the DNS-label syntax of a subdomain, ignoring the reserved list.
pub fn validate_subdomain_syntax(label: &str) -> (r: Result<String, Error>)
    ensures
        comes_to(r, label_syntax(label@)),
{
    let lowered = text::to_lower(text::trimmed(label));
    let chars = text::chars_of(lowered.as_str());
    if chars.len() == 0 {
        return invalid("subdomain must not be empty".to_owned());
    }
    if text::byte_len(lowered.as_str()) > MAX_LABEL_LEN {
        return invalid("subdomain must be at most 63 characters".to_owned());
    }
    if !only_label_chars(lowered.as_str()) {
        return invalid("subdomain may only contain a-z, 0-9 and hyphen".to_owned());
    }
    if chars[0] == '-' || chars[chars.len() - 1] == '-' {
        return invalid("subdomain must not start or end with a hyphen".to_owned());
    }
    // `xn--` marks punycode: a label that uses it can render as another name.
    if text::after_prefix(lowered.as_str(), "xn--").is_some() {
        return invalid("subdomain must not use the punycode prefix".to_owned());
    }
    Ok(lowered)
}

/// Lower-casing twice changes nothing more.
pub proof fn lemma_lower_twice(s: Seq<char>)
    ensures
        text::lower(text::lower(s)) == text::lower(s),
{
    assert(text::lower(text::lower(s)) =~= text::lower(s));
}

/// Validates a user-requested subdomain label, including the reserved list.
pub fn validate_subdomain(label: &str) -> (r: Result<String, Error>)
    ensures
        comes_to(r, claimable_label(label@)),
{
    let lowered = match validate_subdomain_syntax(label) {
        Ok(lowered) => lowered,
        Err(e) => return Err(e),
    };
    proof {
        lemma_lower_twice(text::trim(label@));
    }
    if is_reserved_subdomain(lowered.as_str()) {
        return invalid(text::join3("subdomain `", lowered.as_str(), "` is reserved"));
    }
    Ok(lowered)
}

/// The alphabet of generated subdomains: no hyphens, and none of `0`, `o`, `1`
/// and `l`, since labels get read aloud and typed by hand.
pub open spec fn subdomain_alphabet() -> Seq<char> {
    "abcdefghijkmnpqrstuvwxyz23456789"@
}

/// Whether a label is one that the generator can produce: what twelve draws pick
/// from the alphabet.
pub open spec fn is_generated_label(label: Seq<char>) -> bool {
    exists|draws: Seq<usize>|
        #![trigger ids::picked(subdomain_alphabet(), draws)]
        draws.len() == GENERATED_SUBDOMAIN_LEN && (forall|i: int|
            0 <= i < draws.len() ==> #[trigger] draws[i] < 32 && ids::is_draw(32, draws[i]))
            && label == ids::picked(
            subdomain_alphabet(),
            draws,
        )
}

/// Trimming changes nothing where neither end is white space.
pub proof fn lemma_trim_nothing(s: Seq<char>)
    requires
        s.len() > 0,
        !text::is_space(s[0]),
        !text::is_space(s.last()),
    ensures
        text::trim(s) == s,
{
}

/// A label of twelve characters is on no reserved list.
proof fn lemma_reserved_words_are_short(l: Seq<char>)
    requires
        l.len() == GENERATED_SUBDOMAIN_LEN,
    ensures
        !reserved_word(l),
{
    reveal_strlit("www");
    reveal_strlit("api");
    reveal_strlit("admin");
    reveal_strlit("dashboard");
    reveal_strlit("app");
    reveal_strlit("status");
    reveal_strlit("docs");
    reveal_strlit("mail");
    reveal_strlit("smtp");
    reveal_strlit("ns");
    reveal_strlit("ns1");
    reveal_strlit("ns2");
    reveal_strlit("mx");
    reveal_strlit("cdn");
    reveal_strlit("static");
    reveal_strlit("assets");
    reveal_strlit("edge");
    reveal_strlit("control");
    reveal_strlit("grpc");
    reveal_strlit("internal");
    reveal_strlit("metrics");
    reveal_strlit("health");
    reveal_strlit("localhost");
    reveal_strlit("test");
    reveal_strlit("support");
    reveal_strlit("billing");
    reveal_strlit("account");
    reveal_strlit("login");
    reveal_strlit("auth");
    reveal_strlit("security");
    reveal_strlit("norupo");
}

/// Characters of a DNS label are ASCII, in lower case and no white space.
proof fn lemma_label_chars(l: Seq<char>)
    requires
        label_chars(l),
    ensures
        is_ascii_chars(l),
        text::lower(l) == l,
        forall|i: int| 0 <= i < l.len() ==> !text::is_space(#[trigger] l[i]),
        encode_utf8(l).len() == l.len(),
{
    assert forall|i: int| 0 <= i < l.len() implies #[trigger] text::lower(l)[i] == l[i] by {
        assert(label_char(l[i]));
    }
    assert(text::lower(l) =~= l);
    assert forall|i: int| 0 <= i < l.len() implies (#[trigger] l[i] as nat) < 128 by {
        assert(label_char(l[i]));
    }
    text::lemma_ascii_byte_len(l);
}

/// A generated subdomain always passes [`validate_subdomain`], unchanged.
pub proof fn generated_subdomains_are_claimable(label: Seq<char>)
    requires
        is_generated_label(label),
    ensures
        claimable_label(label) == Ok::<Seq<char>, Seq<char>>(label),
        label.len() == GENERATED_SUBDOMAIN_LEN,
{
    reveal_strlit("abcdefghijkmnpqrstuvwxyz23456789");
    reveal_strlit("xn--");
    let draws = choose|draws: Seq<usize>|
        #![trigger ids::picked(subdomain_alphabet(), draws)]
        draws.len() == GENERATED_SUBDOMAIN_LEN && (forall|i: int|
            0 <= i < draws.len() ==> #[trigger] draws[i] < 32 && ids::is_draw(32, draws[i]))
            && label == ids::picked(
            subdomain_alphabet(),
            draws,
        );
    assert forall|i: int| 0 <= i < label.len() implies label_char(#[trigger] label[i]) && label[i]
        != '-' by {
        let k = draws[i];
        assert(k < 32);
        assert(label[i] == subdomain_alphabet()[k as int]);
    }
    lemma_label_chars(label);
    lemma_trim_nothing(label);
    lemma_reserved_words_are_short(label);
    if text::begins_with(label, "xn--"@) {
        assert(label.take(4)[2] == label[2]);
        assert("xn--"@[2] == '-');
    }
}

/// Puts a generated subdomain together from its draws.
pub fn subdomain_from_draws(draws: &Vec<usize>) -> (r: String)
    requires
        forall|i: int| 0 <= i < draws@.len() ==> #[trigger] draws@[i] < 32,
    ensures
        r@ == ids::picked(subdomain_alphabet(), draws@),
{
    proof {
        reveal_strlit("abcdefghijkmnpqrstuvwxyz23456789");
    }
    ids::pick("abcdefghijkmnpqrstuvwxyz23456789", draws)
}

/// Generates a random subdomain that passes [`validate_subdomain`].
#[must_use]
pub fn random_subdomain() -> (r: String)
    ensures
        is_generated_label(r@),
        claimable_label(r@) == Ok::<Seq<char>, Seq<char>>(r@),
{
    let draws = ids::random_indices(GENERATED_SUBDOMAIN_LEN, 32);
    let label = subdomain_from_draws(&draws);
    proof {
        generated_subdomains_are_claimable(label@);
    }
    label
}

/// The public hostname of a label under a base domain, or why there is none.
pub open spec fn host_under(subdomain: Seq<char>, base_domain: Seq<char>) -> Result<
    Seq<char>,
    Seq<char>,
> {
    match label_syntax(subdomain) {
        Err(m) => Err(m),
        Ok(label) => match canonical_host(base_domain) {
            Err(m) => Err(m),
            Ok(base) => {
                let host = label + "."@ + base;
                if host.len() > MAX_HOST_LEN {
                    Err("resulting host is too long"@)
                } else {
                    Ok(host)
                }
            },
        },
    }
}

/// Joins a subdomain and the edge's base domain into a public hostname.
///
/// Only the label syntax is checked here. Whether the caller may claim a
/// reserved label is an authorization question, answered by the control plane.
pub fn public_host(subdomain: &str, base_domain: &str) -> (r: Result<String, Error>)
    ensures
        comes_to(r, host_under(subdomain@, base_domain@)),
{
    let label = match validate_subdomain_syntax(subdomain) {
        Ok(label) => label,
        Err(e) => return Err(e),
    };
    let base = match normalize_host(base_domain) {
        Ok(base) => base,
        Err(e) => return Err(e),
    };
    let host = text::join3(label.as_str(), ".", base.as_str());
    if host.as_str().unicode_len() > MAX_HOST_LEN {
        return invalid("resulting host is too long".to_owned());
    }
    Ok(host)
}

/// The label of a host that is a direct child of a base domain: the host is
/// that label, a dot and the base, and the label is not empty and holds no dot.
pub open spec fn child_label(host: Seq<char>, base: Seq<char>) -> Option<Seq<char>> {
    let n = host.len() - base.len() - 1;
    if n >= 1 && text::finishes_with(host, "."@ + base) && !host.take(n).contains('.') {
        Some(host.take(n))
    } else {
        None
    }
}

/// The label of a host header under a base domain, both in any equivalent form.
pub open spec fn label_under(host: Seq<char>, base_domain: Seq<char>) -> Option<Seq<char>> {
    match (canonical_host(host), canonical_host(base_domain)) {
        (Ok(h), Ok(b)) => child_label(h, b),
        _ => None,
    }
}

/// Extracts the subdomain label from a host, given the edge's base domain.
///
/// Returns `None` when `host` is not a direct child of `base_domain`, which
/// tells the edge's own tunnels apart from custom domains.
#[must_use]
pub fn subdomain_of(host: &str, base_domain: &str) -> (r: Option<String>)
    ensures
        match label_under(host@, base_domain@) {
            Some(label) => r matches Some(l) && l@ == label,
            None => r is None,
        },
{
    let host = match normalize_host(host) {
        Ok(host) => host,
        Err(_) => return None,
    };
    let base = match normalize_host(base_domain) {
        Ok(base) => base,
        Err(_) => return None,
    };
    let tail = text::join2(".", base.as_str());
    proof {
        reveal_strlit(".");
    }
    match text::before_suffix(host.as_str(), tail.as_str()) {
        Some(label) => {
            assert(label@ == host@.take(host@.len() - base@.len() - 1));
            // Only direct children: `a.b.tunnel.com` is not the subdomain `a.b`.
            if label.unicode_len() == 0 || text::has_char(label, '.') {
                None
            } else {
                Some(label.to_owned())
            }
        },
        None => None,
    }
}

/// Whether a lookup key is that of a host name, rather than of an address
/// literal.
pub open spec fn is_name_key(key: Seq<char>) -> bool {
    key.len() <= MAX_HOST_LEN && is_hostname(key)
}

/// A DNS name is ASCII, in lower case, made of label characters and dots, and
/// neither begins nor ends with a dot.
proof fn lemma_hostname(s: Seq<char>)
    requires
        is_hostname(s),
    ensures
        s.len() > 0,
        forall|i: int| 0 <= i < s.len() ==> label_char(#[trigger] s[i]) || s[i] == '.',
        label_char(s[0]),
        label_char(s.last()),
        is_ascii_chars(s),
        text::lower(s) == s,
{
    let labels = text::split(s, '.');
    assert forall|i: int, j: int| 0 <= i < labels.len() && 0 <= j < labels[i].len() implies label_char(
        #[trigger] labels[i][j],
    ) by {
        assert(is_label(labels[i]));
    }
    assert forall|i: int| 0 <= i < labels.len() implies (#[trigger] labels[i]).len() > 0 by {
        assert(is_label(labels[i]));
    }
    text::lemma_split_chars(s, '.', |c: char| label_char(c));
    text::lemma_split_ends(s, '.');
    let last = labels.last();
    assert(label_char(labels[0][0]));
    assert(label_char(labels[labels.len() - 1][last.len() - 1]));
    assert forall|i: int| 0 <= i < s.len() implies (#[trigger] s[i] as nat) < 128 && text::lower_char(
        s[i],
    ) == s[i] by {
        assert(label_char(s[i]) || s[i] == '.');
    }
    assert(text::lower(s) =~= s);
}

/// Whether every character is white space.
pub open spec fn blank(s: Seq<char>) -> bool {
    forall|i: int| 0 <= i < s.len() ==> text::is_space(#[trigger] s[i])
}

/// Whether every character is a dot.
pub open spec fn dots(s: Seq<char>) -> bool {
    forall|i: int| 0 <= i < s.len() ==> #[trigger] s[i] == '.'
}

/// Whether a text is empty or a colon followed by digits.
pub open spec fn port_suffix(s: Seq<char>) -> bool {
    s.len() == 0 || (s[0] == ':' && text::all_digits(s.skip(1)))
}

/// Leading white space is trimmed away.
proof fn lemma_trim_start_blank(pre: Seq<char>, s: Seq<char>)
    requires
        blank(pre),
        s.len() > 0,
        !text::is_space(s[0]),
    ensures
        text::trim_start(pre + s) == s,
    decreases pre.len(),
{
    if pre.len() > 0 {
        let rest = pre.skip(1);
        assert(text::is_space(pre[0]));
        assert((pre + s)[0] == pre[0]);
        assert((pre + s).skip(1) =~= rest + s);
        assert forall|i: int| 0 <= i < rest.len() implies text::is_space(#[trigger] rest[i]) by {
            assert(text::is_space(pre[i + 1]));
        }
        lemma_trim_start_blank(rest, s);
    } else {
        assert(pre + s =~= s);
    }
}

/// Trailing white space is trimmed away.
proof fn lemma_trim_end_blank(s: Seq<char>, post: Seq<char>)
    requires
        blank(post),
        s.len() > 0,
        !text::is_space(s.last()),
    ensures
        text::trim_end(s + post) == s,
    decreases post.len(),
{
    if post.len() > 0 {
        let rest = post.drop_last();
        assert(text::is_space(post[post.len() - 1]));
        assert((s + post).last() == post.last());
        assert((s + post).drop_last() =~= s + rest);
        assert forall|i: int| 0 <= i < rest.len() implies text::is_space(#[trigger] rest[i]) by {
            assert(text::is_space(post[i]));
        }
        lemma_trim_end_blank(s, rest);
    } else {
        assert(s + post =~= s);
    }
}

/// Trailing dots are stripped.
proof fn lemma_strip_dots(s: Seq<char>, d: Seq<char>)
    requires
        dots(d),
        s.len() > 0,
        s.last() != '.',
    ensures
        text::without_trailing(s + d, '.') == s,
    decreases d.len(),
{
    if d.len() > 0 {
        let rest = d.drop_last();
        assert(d[d.len() - 1] == '.');
        assert((s + d).last() == '.');
        assert((s + d).drop_last() =~= s + rest);
        assert forall|i: int| 0 <= i < rest.len() implies #[trigger] rest[i] == '.' by {
            assert(d[i] == '.');
        }
        lemma_strip_dots(s, rest);
    } else {
        assert(s + d =~= s);
    }
}

/// Every form in which a host arrives leads to the same key: with surrounding
/// white space, in any case, with a root dot, and with a port.
pub proof fn equivalent_forms_share_a_key(
    key: Seq<char>,
    before: Seq<char>,
    name: Seq<char>,
    root: Seq<char>,
    port: Seq<char>,
    after: Seq<char>,
)
    requires
        is_name_key(key),
        text::lower(name) == key,
        blank(before),
        blank(after),
        dots(root),
        port_suffix(port),
    ensures
        canonical_host(before + name + root + port + after) == Ok::<Seq<char>, Seq<char>>(key),
{
    let host = name + root;
    let t = host + port;
    let raw = before + name + root + port + after;
    lemma_hostname(key);
    assert(name.len() == key.len());
    assert forall|i: int| 0 <= i < name.len() implies text::lower_char(#[trigger] name[i]) == key[i] by {
        assert(text::lower(name)[i] == key[i]);
    }
    assert(text::lower_char(name[0]) == key[0]);
    assert(text::lower_char(name[name.len() - 1]) == key[key.len() - 1]);
    assert(!text::is_space(name[0]) && name[0] != '[');
    assert(!text::is_space(name.last()) && name.last() != '.');
    // What is left between the white space.
    assert(t[0] == name[0]);
    if port.len() > 0 {
        assert(t.last() == port.last());
        if port.len() > 1 {
            assert(text::is_digit(port.skip(1)[port.len() - 2]));
        }
    } else if root.len() > 0 {
        assert(t.last() == root[root.len() - 1]);
    } else {
        assert(t.last() == name.last());
    }
    assert(!text::is_space(t.last()));
    assert(raw =~= before + (t + after));
    assert((t + after)[0] == t[0]);
    lemma_trim_start_blank(before, t + after);
    lemma_trim_end_blank(t, after);
    assert(text::trim(raw) == t);
    // The first colon is that of the port.
    assert forall|i: int| 0 <= i < host.len() implies t[i] != ':' by {
        if i < name.len() {
            assert(t[i] == name[i]);
            if name[i] == ':' {
                assert(key[i] == ':');
            }
        } else {
            assert(t[i] == root[i - name.len()]);
        }
    }
    text::lemma_position_is(t, ':', host.len() as int);
    assert(t.take(host.len() as int) =~= host);
    if port.len() > 0 {
        assert(t.skip(host.len() as int + 1) =~= port.skip(1));
    } else {
        assert(t =~= host);
    }
    assert(without_port(raw) == Ok::<Seq<char>, Seq<char>>(host));
    lemma_strip_dots(name, root);
}

/// Trimming the end of a text leaves what comes before the last character that is
/// no white space.
proof fn lemma_trim_end_keeps(s: Seq<char>, post: Seq<char>)
    requires
        s.len() > 0,
        !text::is_space(s.last()),
    ensures
        text::begins_with(text::trim_end(s + post), s),
    decreases post.len(),
{
    let all = s + post;
    if post.len() == 0 {
        assert(all =~= s);
        assert(all.take(s.len() as int) =~= s);
    } else if text::is_space(all.last()) {
        assert(all.drop_last() =~= s + post.drop_last());
        lemma_trim_end_keeps(s, post.drop_last());
    } else {
        assert(all.take(s.len() as int) =~= s);
    }
}

/// An address literal keeps its colons: its key is the bracketed address in lower
/// case, whatever white space stands before it and whatever follows it.
pub proof fn literals_keep_their_colons(before: Seq<char>, inner: Seq<char>, rest: Seq<char>)
    requires
        blank(before),
        address::is_address(text::lower(inner)),
    ensures
        canonical_host(before + seq!['['] + inner + seq![']'] + rest) == Ok::<Seq<char>, Seq<char>>(
            seq!['['] + text::lower(inner) + seq![']'],
        ),
{
    let literal = seq!['['] + inner + seq![']'];
    let raw = before + seq!['['] + inner + seq![']'] + rest;
    let end = inner.len() as int + 1;
    address::lemma_address(text::lower(inner));
    assert forall|i: int| 0 <= i < inner.len() implies #[trigger] inner[i] != ']' && (
    inner[i] as nat) < 128 by {
        assert(address::address_char(text::lower(inner)[i]));
    }
    assert(raw =~= before + (literal + rest));
    assert((literal + rest)[0] == '[');
    lemma_trim_start_blank(before, literal + rest);
    lemma_trim_end_keeps(literal, rest);
    let t = text::trim(raw);
    assert(t.take(end + 1) == literal);
    assert forall|i: int| 0 <= i <= end implies t[i] == literal[i] by {
        assert(t.take(end + 1)[i] == t[i]);
    }
    assert forall|i: int| 0 <= i < end implies t[i] != ']' by {
        if i > 0 {
            assert(literal[i] == inner[i - 1]);
        }
    }
    text::lemma_position_is(t, ']', end);
    assert(without_port(raw) == Ok::<Seq<char>, Seq<char>>(literal));
    assert(text::without_trailing(literal, '.') == literal);
    let key = text::lower(literal);
    assert(key =~= seq!['['] + text::lower(inner) + seq![']']);
    assert forall|i: int| 0 <= i < key.len() implies (#[trigger] key[i] as nat) < 128 by {
        if 0 < i < end {
            assert(literal[i] == inner[i - 1]);
            assert((inner[i - 1] as nat) < 128);
        }
    }
    assert(key.subrange(1, key.len() - 1) =~= text::lower(inner));
    assert(is_literal(key));
}

/// A lookup key is a DNS name or a bracketed IPv6 address, in lower case, ASCII
/// and no longer than a hostname.
pub proof fn keys_are_valid_hosts(raw: Seq<char>, key: Seq<char>)
    requires
        canonical_host(raw) == Ok::<Seq<char>, Seq<char>>(key),
    ensures
        is_hostname(key) || is_literal(key),
        0 < key.len() <= MAX_HOST_LEN,
        is_ascii_chars(key),
        text::lower(key) == key,
{
    lemma_lower_twice(text::without_trailing(without_port(raw)->Ok_0, '.'));
}

/// Reducing a key once more changes nothing.
pub proof fn canonical_form_is_stable(raw: Seq<char>, key: Seq<char>)
    requires
        canonical_host(raw) == Ok::<Seq<char>, Seq<char>>(key),
    ensures
        canonical_host(key) == Ok::<Seq<char>, Seq<char>>(key),
{
    let none = Seq::<char>::empty();
    if is_hostname(key) {
        assert(none + key + none + none + none =~= key);
        lemma_hostname(key);
        equivalent_forms_share_a_key(key, none, key, none, none, none);
    } else {
        let inner = key.subrange(1, key.len() - 1);
        keys_are_valid_hosts(raw, key);
        assert forall|i: int| 0 <= i < inner.len() implies text::lower(inner)[i] == #[trigger] inner[i] by {
            assert(text::lower(key)[i + 1] == key[i + 1]);
        }
        assert(text::lower(inner) =~= inner);
        assert(none + seq!['['] + inner + seq![']'] + none =~= key);
        assert(seq!['['] + inner + seq![']'] =~= key);
        literals_keep_their_colons(none, inner, none);
    }
}

/// What stripping leaves is a prefix that does not end in the stripped character.
proof fn lemma_without_trailing(s: Seq<char>, c: char)
    ensures
        text::without_trailing(s, c).len() <= s.len(),
        text::without_trailing(s, c) == s.take(text::without_trailing(s, c).len() as int),
        text::without_trailing(s, c).len() > 0 ==> text::without_trailing(s, c).last() != c,
    decreases s.len(),
{
    if s.len() > 0 && s.last() == c {
        lemma_without_trailing(s.drop_last(), c);
        let r = text::without_trailing(s, c);
        assert(s.drop_last().take(r.len() as int) =~= s.take(r.len() as int));
    } else {
        assert(s.take(s.len() as int) =~= s);
    }
}

/// Whether hosts can be registered under a base: it is a DNS name, not an address
/// literal.
pub open spec fn carries_hosts(base_domain: Seq<char>) -> bool {
    canonical_host(base_domain) matches Ok(base) && is_hostname(base)
}

/// The host of a registered subdomain is itself a lookup key: what registration
/// stores is what a request looks up.
pub proof fn registered_hosts_are_keys(subdomain: Seq<char>, base_domain: Seq<char>)
    requires
        carries_hosts(base_domain),
        host_under(subdomain, base_domain) is Ok,
    ensures
        is_name_key(host_under(subdomain, base_domain)->Ok_0),
        canonical_host(host_under(subdomain, base_domain)->Ok_0) == host_under(
            subdomain,
            base_domain,
        ),
{
    let label = label_syntax(subdomain)->Ok_0;
    let base = canonical_host(base_domain)->Ok_0;
    let host = host_under(subdomain, base_domain)->Ok_0;
    reveal_strlit(".");
    lemma_label_chars(label);
    assert(is_label(label));
    assert(host =~= label + seq!['.'] + base);
    if label.contains('.') {
        let k = choose|k: int| 0 <= k < label.len() && label[k] == '.';
        assert(label_char(label[k]));
    }
    text::lemma_split_first(label, '.', base);
    let labels = text::split(host, '.');
    assert forall|i: int| 0 <= i < labels.len() implies is_label(#[trigger] labels[i]) by {
        if i > 0 {
            assert(labels[i] == text::split(base, '.')[i - 1]);
        }
    }
    lemma_hostname(host);
    let none = Seq::<char>::empty();
    assert(none + host + none + none + none =~= host);
    equivalent_forms_share_a_key(host, none, host, none, none, none);
}

/// [`public_host`] and [`subdomain_of`] undo each other: the label that built a
/// host is the label read out of it.
pub proof fn label_round_trip(subdomain: Seq<char>, base_domain: Seq<char>)
    requires
        carries_hosts(base_domain),
        host_under(subdomain, base_domain) is Ok,
    ensures
        label_under(host_under(subdomain, base_domain)->Ok_0, base_domain) == Some(
            label_syntax(subdomain)->Ok_0,
        ),
{
    registered_hosts_are_keys(subdomain, base_domain);
    reveal_strlit(".");
    let label = label_syntax(subdomain)->Ok_0;
    let base = canonical_host(base_domain)->Ok_0;
    let host = host_under(subdomain, base_domain)->Ok_0;
    let n = label.len() as int;
    assert(host.take(n) =~= label);
    assert(host.skip(n) =~= "."@ + base);
    if label.contains('.') {
        let k = choose|k: int| 0 <= k < label.len() && label[k] == '.';
        assert(label_char(label[k]));
    }
}

/// A host key and a port key are never the same, so a TCP tunnel and an HTTP
/// tunnel cannot shadow each other.
pub proof fn host_and_port_keys_differ(raw: Seq<char>, port: u16)
    ensures
        canonical_host(raw) != Ok::<Seq<char>, Seq<char>>(port_key(port)),
{
    reveal_strlit("tcp:");
    let t = text::trim(raw);
    if canonical_host(raw) == Ok::<Seq<char>, Seq<char>>(port_key(port)) {
        let key = port_key(port);
        let host = without_port(raw)->Ok_0;
        lemma_without_trailing(host, '.');
        let bare = text::without_trailing(host, '.');
        assert(key[0] == 't' && key[3] == ':');
        assert(text::decimal(port as nat).len() >= 1);
        assert(key[0] == text::lower_char(bare[0]));
        assert(key[3] == text::lower_char(bare[3]));
        text::lemma_position(t, ':');
        text::lemma_position(t, ']');
        assert(bare[0] == t[0] && bare[3] == t[3]);
    }
}

/// A DNS label is one to 63 letters, digits and hyphens, with no hyphen at an end.
pub proof fn labels_are_letters_digits_and_hyphens(l: Seq<char>)
    ensures
        is_label(l) <==> {
            &&& 1 <= l.len() <= 63
            &&& forall|i: int|
                0 <= i < l.len() ==> 'a' <= #[trigger] l[i] <= 'z' || '0' <= l[i] <= '9' || l[i] == '-'
            &&& l[0] != '-'
            &&& l[l.len() - 1] != '-'
        },
{
    if is_label(l) {
        assert forall|i: int| 0 <= i < l.len() implies 'a' <= #[trigger] l[i] <= 'z' || '0' <= l[i]
            <= '9' || l[i] == '-' by {
            assert(label_char(l[i]));
        }
    }
}

/// A DNS name is one label, or a label, a dot and a DNS name.
pub proof fn names_are_labels_with_dots_between(label: Seq<char>, rest: Seq<char>)
    requires
        !label.contains('.'),
    ensures
        is_hostname(label) <==> is_label(label),
        is_hostname(label + seq!['.'] + rest) <==> is_label(label) && is_hostname(rest),
{
    text::lemma_split_single(label, '.');
    text::lemma_split_first(label, '.', rest);
    let alone = text::split(label, '.');
    assert(alone[0] == label);
    let all = text::split(label + seq!['.'] + rest, '.');
    let more = text::split(rest, '.');
    assert(all[0] == label);
    if is_hostname(label + seq!['.'] + rest) {
        assert forall|i: int| 0 <= i < more.len() implies is_label(#[trigger] more[i]) by {
            assert(all[i + 1] == more[i]);
        }
    }
    if is_label(label) && is_hostname(rest) {
        assert forall|i: int| 0 <= i < all.len() implies is_label(#[trigger] all[i]) by {
            if i > 0 {
                assert(all[i] == more[i - 1]);
            }
        }
    }
}

/// An address literal is an address in brackets.
pub proof fn literals_are_bracketed_addresses(s: Seq<char>, inner: Seq<char>)
    ensures
        is_literal(seq!['['] + inner + seq![']']) <==> address::is_address(inner),
        is_literal(s) ==> s == seq!['['] + s.subrange(1, s.len() - 1) + seq![']'],
{
    let all = seq!['['] + inner + seq![']'];
    assert(all.subrange(1, all.len() - 1) =~= inner);
    if is_literal(s) {
        assert(s =~= seq!['['] + s.subrange(1, s.len() - 1) + seq![']']);
    }
}

/// Nothing but a host has a key: a header that leads to the key of a name is that
/// name, in any case, with white space around it, root dots and a port.
pub proof fn name_keys_come_from_names(raw: Seq<char>, key: Seq<char>) -> (parts: (
    Seq<char>,
    Seq<char>,
    Seq<char>,
    Seq<char>,
    Seq<char>,
))
    requires
        canonical_host(raw) == Ok::<Seq<char>, Seq<char>>(key),
        is_hostname(key),
    ensures
        raw == parts.0 + parts.1 + parts.2 + parts.3 + parts.4,
        blank(parts.0),
        text::lower(parts.1) == key,
        dots(parts.2),
        port_suffix(parts.3),
        blank(parts.4),
{
    let (before, after) = text::trimming_takes_only_white_space(raw);
    let t = text::trim(raw);
    let host = without_port(raw)->Ok_0;
    let name = text::without_trailing(host, '.');
    let root = text::stripping_takes_only_its_character(host, '.');
    lemma_hostname(key);
    assert(text::lower(name)[0] == key[0]);
    assert(host[0] == name[0]);
    assert(t[0] != '[') by {
        text::lemma_position(t, ']');
        text::lemma_position(t, ':');
        assert(host[0] == t[0]);
    }
    text::lemma_position(t, ':');
    let port = t.skip(host.len() as int);
    assert(t =~= host + port);
    if port.len() > 0 {
        assert(port.skip(1) =~= t.skip(host.len() as int + 1));
    }
    assert(raw =~= before + name + root + port + after);
    (before, name, root, port, after)
}

/// A header that leads to the key of a literal is that literal, in any case, with
/// white space before it and anything behind its bracket.
pub proof fn literal_keys_come_from_literals(raw: Seq<char>, key: Seq<char>) -> (parts: (
    Seq<char>,
    Seq<char>,
    Seq<char>,
))
    requires
        canonical_host(raw) == Ok::<Seq<char>, Seq<char>>(key),
        is_literal(key),
    ensures
        raw == parts.0 + parts.1 + parts.2,
        blank(parts.0),
        text::lower(parts.1) == key,
{
    let (before, after) = text::trimming_takes_only_white_space(raw);
    let t = text::trim(raw);
    let host = without_port(raw)->Ok_0;
    let name = text::without_trailing(host, '.');
    let root = text::stripping_takes_only_its_character(host, '.');
    assert(text::lower(name)[0] == key[0]);
    assert(host[0] == name[0]);
    text::lemma_position(t, ']');
    text::lemma_position(t, ':');
    let rest = root + t.skip(host.len() as int) + after;
    assert(t =~= host + t.skip(host.len() as int));
    assert(raw =~= before + name + rest);
    (before, name, rest)
}

/// A requested label is accepted exactly where it is a DNS label once it is trimmed
/// and in lower case, and does not begin with `xn--`. It comes out in that form.
pub proof fn dns_labels_are_accepted(label: Seq<char>)
    ensures
        ({
            let l = text::lower(text::trim(label));
            &&& label_syntax(label) is Ok <==> {
                &&& 1 <= l.len() <= 63
                &&& forall|i: int|
                    0 <= i < l.len() ==> 'a' <= #[trigger] l[i] <= 'z' || '0' <= l[i] <= '9' || l[i]
                        == '-'
                &&& l[0] != '-'
                &&& l[l.len() - 1] != '-'
                &&& !(l.len() >= 4 && l[0] == 'x' && l[1] == 'n' && l[2] == '-' && l[3] == '-')
            }
            &&& label_syntax(label) matches Ok(out) ==> out == l
            &&& is_label(l) && !text::begins_with(l, "xn--"@) ==> label_syntax(label) == Ok::<
                Seq<char>,
                Seq<char>,
            >(l)
        }),
{
    let l = text::lower(text::trim(label));
    reveal_strlit("xn--");
    labels_are_letters_digits_and_hyphens(l);
    if l.len() >= 4 {
        if l[0] == 'x' && l[1] == 'n' && l[2] == '-' && l[3] == '-' {
            assert(l.take(4) =~= "xn--"@);
        }
        if text::begins_with(l, "xn--"@) {
            assert(l.take(4)[0] == l[0] && l.take(4)[1] == l[1] && l.take(4)[2] == l[2] && l.take(
                4,
            )[3] == l[3]);
        }
    }
    if label_chars(l) {
        lemma_label_chars(l);
        assert forall|i: int| 0 <= i < l.len() implies 'a' <= #[trigger] l[i] <= 'z' || '0' <= l[i]
            <= '9' || l[i] == '-' by {
            assert(label_char(l[i]));
        }
    }
    if forall|i: int|
        0 <= i < l.len() ==> 'a' <= #[trigger] l[i] <= 'z' || '0' <= l[i] <= '9' || l[i] == '-' {
        assert forall|i: int| 0 <= i < l.len() implies label_char(#[trigger] l[i]) by {}
        assert(label_chars(l));
    }
}

/// A refused label is told the first thing that is wrong with it.
pub proof fn refused_labels_are_told_why(label: Seq<char>)
    ensures
        ({
            let l = text::lower(text::trim(label));
            let why = |m: Seq<char>| Err::<Seq<char>, Seq<char>>(m);
            let good = forall|i: int|
                0 <= i < l.len() ==> 'a' <= #[trigger] l[i] <= 'z' || '0' <= l[i] <= '9' || l[i]
                    == '-';
            &&& l.len() == 0 ==> label_syntax(label) == why("subdomain must not be empty"@)
            &&& l.len() > 0 && encode_utf8(l).len() > 63 ==> label_syntax(label) == why(
                "subdomain must be at most 63 characters"@,
            )
            &&& l.len() > 0 && encode_utf8(l).len() <= 63 && !good ==> label_syntax(label) == why(
                "subdomain may only contain a-z, 0-9 and hyphen"@,
            )
            &&& l.len() > 0 && encode_utf8(l).len() <= 63 && good && (l[0] == '-' || l[l.len() - 1]
                == '-') ==> label_syntax(label) == why(
                "subdomain must not start or end with a hyphen"@,
            )
            &&& is_label(l) && text::begins_with(l, "xn--"@) ==> label_syntax(label) == why(
                "subdomain must not use the punycode prefix"@,
            )
        }),
{
    let l = text::lower(text::trim(label));
    if label_chars(l) {
        lemma_label_chars(l);
        assert forall|i: int| 0 <= i < l.len() implies 'a' <= #[trigger] l[i] <= 'z' || '0' <= l[i]
            <= '9' || l[i] == '-' by {
            assert(label_char(l[i]));
        }
    }
    if forall|i: int|
        0 <= i < l.len() ==> 'a' <= #[trigger] l[i] <= 'z' || '0' <= l[i] <= '9' || l[i] == '-' {
        assert forall|i: int| 0 <= i < l.len() implies label_char(#[trigger] l[i]) by {}
        assert(label_chars(l));
    }
}

/// The reserved labels are these and no others.
pub proof fn reserved_labels_are_listed(l: Seq<char>)
    ensures
        reserved_word(l) <==> seq![
            "www"@, "api"@, "admin"@, "dashboard"@, "app"@, "status"@,
            "docs"@, "mail"@, "smtp"@, "ns"@, "ns1"@, "ns2"@,
            "mx"@, "cdn"@, "static"@, "assets"@, "edge"@, "control"@,
            "grpc"@, "internal"@, "metrics"@, "health"@, "localhost"@, "test"@,
            "support"@, "billing"@, "account"@, "login"@, "auth"@, "security"@,
            "norupo"@,
        ].contains(l),
{
    let all = seq![
        "www"@, "api"@, "admin"@, "dashboard"@, "app"@, "status"@,
        "docs"@, "mail"@, "smtp"@, "ns"@, "ns1"@, "ns2"@,
        "mx"@, "cdn"@, "static"@, "assets"@, "edge"@, "control"@,
        "grpc"@, "internal"@, "metrics"@, "health"@, "localhost"@, "test"@,
        "support"@, "billing"@, "account"@, "login"@, "auth"@, "security"@,
        "norupo"@,
    ];
    assert(all[0] == "www"@);
    assert(all[1] == "api"@);
    assert(all[2] == "admin"@);
    assert(all[3] == "dashboard"@);
    assert(all[4] == "app"@);
    assert(all[5] == "status"@);
    assert(all[6] == "docs"@);
    assert(all[7] == "mail"@);
    assert(all[8] == "smtp"@);
    assert(all[9] == "ns"@);
    assert(all[10] == "ns1"@);
    assert(all[11] == "ns2"@);
    assert(all[12] == "mx"@);
    assert(all[13] == "cdn"@);
    assert(all[14] == "static"@);
    assert(all[15] == "assets"@);
    assert(all[16] == "edge"@);
    assert(all[17] == "control"@);
    assert(all[18] == "grpc"@);
    assert(all[19] == "internal"@);
    assert(all[20] == "metrics"@);
    assert(all[21] == "health"@);
    assert(all[22] == "localhost"@);
    assert(all[23] == "test"@);
    assert(all[24] == "support"@);
    assert(all[25] == "billing"@);
    assert(all[26] == "account"@);
    assert(all[27] == "login"@);
    assert(all[28] == "auth"@);
    assert(all[29] == "security"@);
    assert(all[30] == "norupo"@);
}

/// A host that cannot be read is refused with the reason: it is empty, its bracket
/// is not closed, or what follows its first colon is no port.
pub proof fn unreadable_hosts_are_told_why(raw: Seq<char>, head: Seq<char>, tail: Seq<char>)
    ensures
        text::trim(raw).len() == 0 ==> canonical_host(raw) == Err::<Seq<char>, Seq<char>>(
            "empty host"@,
        ),
        text::trim(raw).len() > 0 && text::trim(raw)[0] == '[' && !text::trim(raw).contains(']')
            ==> canonical_host(raw) == Err::<Seq<char>, Seq<char>>(
            "unterminated IPv6 host: "@ + raw,
        ),
        text::trim(raw) == head + seq![':'] + tail && !head.contains(':') && !text::begins_with(
            head,
            seq!['['],
        ) && !text::all_digits(tail) ==> canonical_host(raw) == Err::<Seq<char>, Seq<char>>(
            "invalid port in host: "@ + raw,
        ),
{
    let t = text::trim(raw);
    text::lemma_position(t, ']');
    if t == head + seq![':'] + tail && !head.contains(':') {
        assert forall|i: int| 0 <= i < head.len() implies t[i] != ':' by {
            assert(t[i] == head[i]);
            assert(head.contains(head[i]));
        }
        text::lemma_position_is(t, ':', head.len() as int);
        assert(t.skip(head.len() as int + 1) =~= tail);
        if head.len() > 0 {
            assert(t[0] == head[0]);
            if head[0] == '[' {
                assert(head.take(1) =~= seq!['[']);
            }
        }
    }
}

/// A label may be claimed by default exactly where it is a DNS label and not
/// reserved; it comes out in canonical form.
pub proof fn unreserved_labels_are_claimable(label: Seq<char>)
    ensures
        claimable_label(label) is Ok <==> label_syntax(label) is Ok && !reserved_word(
            text::lower(text::trim(label)),
        ),
        claimable_label(label) matches Ok(l) ==> l == text::lower(text::trim(label)),
        label_syntax(label) is Err ==> claimable_label(label) == label_syntax(label),
        label_syntax(label) is Ok && claimable_label(label) is Err ==> claimable_label(label)
            == Err::<Seq<char>, Seq<char>>(
            "subdomain `"@ + text::lower(text::trim(label)) + "` is reserved"@,
        ),
{
    dns_labels_are_accepted(label);
}

/// The public host of a label is the label, a dot and the base domain's key, and
/// there is one exactly where both are valid and the whole is not too long.
pub proof fn public_hosts_are_label_dot_base(subdomain: Seq<char>, base_domain: Seq<char>)
    ensures
        host_under(subdomain, base_domain) is Ok <==> {
            &&& label_syntax(subdomain) matches Ok(label)
            &&& canonical_host(base_domain) matches Ok(base)
            &&& label.len() + 1 + base.len() <= 253
        },
        host_under(subdomain, base_domain) matches Ok(host) ==> host == text::lower(
            text::trim(subdomain),
        ) + seq!['.'] + canonical_host(base_domain)->Ok_0,
        label_syntax(subdomain) is Err ==> host_under(subdomain, base_domain) == label_syntax(
            subdomain,
        ),
        label_syntax(subdomain) is Ok && canonical_host(base_domain) is Err ==> host_under(
            subdomain,
            base_domain,
        ) == canonical_host(base_domain),
        label_syntax(subdomain) is Ok && canonical_host(base_domain) is Ok && host_under(
            subdomain,
            base_domain,
        ) is Err ==> host_under(subdomain, base_domain) == Err::<Seq<char>, Seq<char>>(
            "resulting host is too long"@,
        ),
{
    reveal_strlit(".");
    dns_labels_are_accepted(subdomain);
    if host_under(subdomain, base_domain) is Ok {
        assert(host_under(subdomain, base_domain)->Ok_0 =~= text::lower(text::trim(subdomain))
            + seq!['.'] + canonical_host(base_domain)->Ok_0);
    }
}

/// A host has a label under a base exactly where its key is that label, a dot and
/// the base's key; a label is not empty and holds no dot.
pub proof fn children_are_label_dot_base(
    host: Seq<char>,
    base_domain: Seq<char>,
    label: Seq<char>,
)
    ensures
        label_under(host, base_domain) == Some(label) <==> {
            &&& canonical_host(host) matches Ok(key)
            &&& canonical_host(base_domain) matches Ok(base)
            &&& key == label + seq!['.'] + base
            &&& label.len() > 0
            &&& !label.contains('.')
        },
{
    reveal_strlit(".");
    if canonical_host(host) is Ok && canonical_host(base_domain) is Ok {
        let key = canonical_host(host)->Ok_0;
        let base = canonical_host(base_domain)->Ok_0;
        let n = key.len() - base.len() - 1;
        if label_under(host, base_domain) is Some {
            assert(key =~= key.take(n) + key.skip(n));
            assert(key =~= key.take(n) + seq!['.'] + base);
            assert(label_under(host, base_domain) == Some(key.take(n)));
            if label_under(host, base_domain) == Some(label) {
                assert(key == label + seq!['.'] + base);
            }
        }
        if key == label + seq!['.'] + base && label.len() > 0 && !label.contains('.') {
            assert(key.skip(n) =~= "."@ + base);
            assert(key.take(n) =~= label);
        }
    }
}

/// The key of a port is `tcp:` and its number in decimal notation, so that no two
/// ports share one.
pub proof fn port_keys_are_distinct(a: u16, b: u16)
    ensures
        port_key(a) == "tcp:"@ + text::decimal(a as nat),
        port_key(a) == port_key(b) ==> a == b,
{
    if port_key(a) == port_key(b) {
        let at = "tcp:"@.len() as int;
        assert(port_key(a).skip(at) =~= text::decimal(a as nat));
        assert(port_key(b).skip(at) =~= text::decimal(b as nat));
        text::lemma_decimal(a as nat);
        text::lemma_decimal(b as nat);
    }
}

/// A generated label is twelve letters and digits, none of which looks like another
/// one, and different draws give different labels.
pub proof fn generated_labels_avoid_look_alikes(label: Seq<char>, i: int, j: int)
    requires
        is_generated_label(label),
    ensures
        label.len() == 12,
        forall|k: int|
            0 <= k < label.len() ==> {
                &&& 'a' <= #[trigger] label[k] <= 'z' || '2' <= label[k] <= '9'
                &&& label[k] != 'l'
                &&& label[k] != 'o'
            },
        subdomain_alphabet().len() == 32,
        0 <= i < j < 32 ==> subdomain_alphabet()[i] != subdomain_alphabet()[j],
{
    reveal_strlit("abcdefghijkmnpqrstuvwxyz23456789");
    let draws = choose|draws: Seq<usize>|
        #![trigger ids::picked(subdomain_alphabet(), draws)]
        draws.len() == GENERATED_SUBDOMAIN_LEN && (forall|i: int|
            0 <= i < draws.len() ==> #[trigger] draws[i] < 32 && ids::is_draw(32, draws[i]))
            && label == ids::picked(subdomain_alphabet(), draws);
    assert forall|k: int| 0 <= k < label.len() implies ('a' <= #[trigger] label[k] <= 'z' || '2'
        <= label[k] <= '9') && label[k] != 'l' && label[k] != 'o' by {
        let d = draws[k];
        assert(d < 32);
        assert(label[k] == subdomain_alphabet()[d as int]);
    }
}

/// Every DNS name of at most 253 characters, in lower case, is its own key.
pub proof fn names_are_their_own_keys(name: Seq<char>)
    requires
        is_hostname(name),
        name.len() <= 253,
    ensures
        canonical_host(name) == Ok::<Seq<char>, Seq<char>>(name),
        canonical_host(name + seq!['.']) == Ok::<Seq<char>, Seq<char>>(name),
        canonical_host(name + seq![':', '8', '0']) == Ok::<Seq<char>, Seq<char>>(name),
{
    let none = Seq::<char>::empty();
    lemma_hostname(name);
    assert(none + name + none + none + none =~= name);
    equivalent_forms_share_a_key(name, none, name, none, none, none);
    assert(none + name + seq!['.'] + none + none =~= name + seq!['.']);
    equivalent_forms_share_a_key(name, none, name, seq!['.'], none, none);
    let port = seq![':', '8', '0'];
    assert(port.skip(1) =~= seq!['8', '0']);
    assert(none + name + none + port + none =~= name + port);
    equivalent_forms_share_a_key(name, none, name, none, port, none);
}

/// A routing target comes out with the expected text, or is refused as invalid with
/// the expected reason.
pub proof fn targets_come_out_as_expected(
    r: Result<String, Error>,
    expected: Result<Seq<char>, Seq<char>>,
)
    requires
        comes_to(r, expected),
    ensures
        r is Ok <==> expected is Ok,
        r matches Ok(text) ==> text@ == expected->Ok_0,
        r matches Err(e) ==> (e matches Error::InvalidRoute(reason) && reason@ == expected->Err_0),
{
}

/// A key is shown as its host, or as its port.
pub proof fn keys_are_shown_as_what_they_stand_for(key: RoutingKey)
    ensures
        key matches RoutingKey::Host(host) ==> key@ == host@,
        key matches RoutingKey::TcpPort(port) ==> key@ == "tcp:"@ + text::decimal(port as nat),
{
}

/// A host that was read but is no key is told why: it is nothing but dots, holds
/// characters beyond ASCII, is too long, or is neither a name nor an address.
pub proof fn refused_hosts_are_told_why(raw: Seq<char>, host: Seq<char>)
    requires
        without_port(raw) == Ok::<Seq<char>, Seq<char>>(host),
    ensures
        ({
            let key = text::lower(text::without_trailing(host, '.'));
            let why = |m: Seq<char>| Err::<Seq<char>, Seq<char>>(m);
            let ascii = forall|i: int| 0 <= i < key.len() ==> (#[trigger] key[i]) as int <= 127;
            &&& key.len() == 0 ==> canonical_host(raw) == why("empty host"@)
            &&& key.len() > 0 && !ascii ==> canonical_host(raw) == why(
                "non-ASCII host (punycode it first): "@ + raw,
            )
            &&& ascii && key.len() > 253 ==> canonical_host(raw) == why(
                "host exceeds 253 characters"@,
            )
            &&& ascii && 0 < key.len() <= 253 && !is_hostname(key) && !is_literal(key)
                ==> canonical_host(raw) == why("not a valid hostname: "@ + raw)
            &&& ascii && 0 < key.len() <= 253 && (is_hostname(key) || is_literal(key))
                ==> canonical_host(raw) == Ok::<Seq<char>, Seq<char>>(key)
        }),
{
    let key = text::lower(text::without_trailing(host, '.'));
    if is_ascii_chars(key) {
        assert forall|i: int| 0 <= i < key.len() implies (#[trigger] key[i]) as int <= 127 by {}
    }
}

/// A port is what follows the first colon outside brackets, and nothing else is
/// dropped from a host.
pub proof fn only_ports_are_dropped(raw: Seq<char>, host: Seq<char>, rest: Seq<char>)
    requires
        text::trim(raw) == host + rest,
        host.len() > 0,
    ensures
        host[0] != '[' && !host.contains(':') && rest.len() == 0 ==> without_port(raw) == Ok::<
            Seq<char>,
            Seq<char>,
        >(host),
        host[0] != '[' && !host.contains(':') && rest.len() > 0 && rest[0] == ':'
            && text::all_digits(rest.skip(1)) ==> without_port(raw) == Ok::<Seq<char>, Seq<char>>(
            host,
        ),
        host[0] == '[' && host.last() == ']' && !host.drop_last().contains(']') ==> without_port(
            raw,
        ) == Ok::<Seq<char>, Seq<char>>(host),
{
    let t = text::trim(raw);
    assert(t[0] == host[0]);
    if host[0] != '[' && !host.contains(':') {
        assert forall|i: int| 0 <= i < host.len() implies t[i] != ':' by {
            assert(t[i] == host[i]);
            assert(host.contains(host[i]));
        }
        if rest.len() == 0 {
            assert(t =~= host);
            text::lemma_position(t, ':');
        } else if rest[0] == ':' {
            assert(t[host.len() as int] == ':');
            text::lemma_position_is(t, ':', host.len() as int);
            assert(t.take(host.len() as int) =~= host);
            assert(t.skip(host.len() as int + 1) =~= rest.skip(1));
        }
    }
    if host[0] == '[' && host.last() == ']' && !host.drop_last().contains(']') {
        let end = host.len() - 1;
        assert forall|i: int| 0 <= i < end implies t[i] != ']' by {
            assert(t[i] == host.drop_last()[i]);
            assert(host.drop_last().contains(host.drop_last()[i]));
        }
        assert(t[end] == ']');
        text::lemma_position_is(t, ']', end);
        assert(t.take(end + 1) =~= host);
    }
}

} // verus!
