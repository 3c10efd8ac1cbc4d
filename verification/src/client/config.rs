//! What the agent is told on its command line.

use vstd::prelude::*;
use vstd::string::*;

use crate::text;

verus! {

/// The command line of the agent.
#[derive(Debug)]
pub struct Cli {
    /// Endpoint of the edge, such as `http://edge.tunnel.com:7000`.
    pub server: String,
    /// Agent token issued by the edge operator.
    pub token: String,
    /// Log filter.
    pub log: String,
    pub command: Command,
}

/// What the agent is asked to do.
#[derive(Debug)]
pub enum Command {
    /// Forward public HTTP traffic to a local port or address.
    Http(HttpArgs),
    /// Check that the configured edge is reachable and speaks our protocol.
    Doctor,
}

/// How HTTP traffic is forwarded.
#[derive(Debug)]
pub struct HttpArgs {
    /// Local port (`3000`) or address (`127.0.0.1:3000`) to forward to.
    pub target: String,
    /// Request a specific subdomain instead of a randomly assigned one.
    pub subdomain: Option<String>,
    /// Serve a verified custom domain instead of a subdomain.
    pub domain: Option<String>,
    /// Rewrite the `Host` header to the forward target, for local servers that
    /// virtual-host on it.
    pub rewrite_host: bool,
    /// Give up after this many reconnect attempts. Zero means never.
    pub max_retries: u32,
}

impl Clone for HttpArgs {
    fn clone(&self) -> (r: Self)
        ensures
            r.target@ == self.target@,
            text::optional(r.subdomain) == text::optional(self.subdomain),
            text::optional(r.domain) == text::optional(self.domain),
            r.rewrite_host == self.rewrite_host,
            r.max_retries == self.max_retries,
    {
        HttpArgs {
            target: self.target.clone(),
            subdomain: text::copy_optional(&self.subdomain),
            domain: text::copy_optional(&self.domain),
            rewrite_host: self.rewrite_host,
            max_retries: self.max_retries,
        }
    }
}

impl HttpArgs {
    /// Resolves the forward target into a dialable `host:port`.
    ///
    /// Accepts a bare port (`3000`), a host and port (`127.0.0.1:3000`) or a URL
    /// (`http://localhost:3000`), because users type all three. Port 0 is none
    /// that can be dialed, in whichever form it is written.
    pub fn forward_addr(&self) -> (r: Result<String, String>)
        ensures
            match forward_target(self.target@) {
                Ok(addr) => r matches Ok(a) && a@ == addr,
                Err(reason) => r matches Err(m) && m@ == reason,
            },
    {
        parse_forward_target(self.target.as_str())
    }
}

/// A text without the scheme of a URL.
pub open spec fn without_scheme(s: Seq<char>) -> Seq<char> {
    if text::begins_with(s, "http://"@) {
        s.skip(7)
    } else if text::begins_with(s, "https://"@) {
        s.skip(8)
    } else {
        s
    }
}

/// The part of a URL without scheme that names the host and port.
pub open spec fn authority_of(s: Seq<char>) -> Seq<char> {
    s.take(text::position(s, '/') as int)
}

/// The address that a forward target stands for, or why it stands for none.
pub open spec fn forward_target(raw: Seq<char>) -> Result<Seq<char>, Seq<char>> {
    let t = text::trim(raw);
    if t.len() == 0 {
        Err("forward target must not be empty"@)
    } else if text::port_number(t) is Some {
        if text::port_number(t) == Some(0u16) {
            Err("port 0 is not a valid forward target"@)
        } else {
            Ok("127.0.0.1:"@ + text::decimal(text::port_number(t)->Some_0 as nat))
        }
    } else {
        let authority = authority_of(without_scheme(t));
        let colon = text::last_position(authority, ':');
        if colon < 0 {
            Err(
                "could not parse `"@ + raw
                    + "` as a forward target; use a port (3000) or host:port (127.0.0.1:3000)"@,
            )
        } else if colon == 0 {
            Err("forward target `"@ + raw + "` is missing a host"@)
        } else if text::port_number(authority.skip(colon + 1)) is None {
            Err("`"@ + authority.skip(colon + 1) + "` in `"@ + raw + "` is not a valid port"@)
        } else if text::port_number(authority.skip(colon + 1)) == Some(0u16) {
            Err("port 0 is not a valid forward target"@)
        } else {
            Ok(authority)
        }
    }
}

/// Drops the scheme of a URL.
fn drop_scheme(s: &str) -> (r: &str)
    ensures
        r@ == without_scheme(s@),
{
    proof {
        reveal_strlit("http://");
        reveal_strlit("https://");
    }
    match text::after_prefix(s, "http://") {
        Some(rest) => rest,
        None => match text::after_prefix(s, "https://") {
            Some(rest) => rest,
            None => s,
        },
    }
}

/// Parses a forward target. See [`HttpArgs::forward_addr`].
pub fn parse_forward_target(raw: &str) -> (r: Result<String, String>)
    ensures
        match forward_target(raw@) {
            Ok(addr) => r matches Ok(a) && a@ == addr,
            Err(reason) => r matches Err(m) && m@ == reason,
        },
{
    let trimmed = text::trimmed(raw);
    if trimmed.unicode_len() == 0 {
        return Err("forward target must not be empty".to_owned());
    }
    // A bare port is the most common form.
    if let Some(port) = text::parse_port(trimmed) {
        if port == 0 {
            return Err("port 0 is not a valid forward target".to_owned());
        }
        return Ok(text::join2("127.0.0.1:", text::to_decimal(port as u64).as_str()));
    }
    let bare = drop_scheme(trimmed);
    // Only the authority is needed: drop any path.
    let chars = text::chars_of(bare);
    let authority = bare.substring_char(0, text::find(&chars, '/'));
    let letters = text::chars_of(authority);
    let colon: usize = match text::find_last(&letters, ':') {
        Some(colon) => colon,
        None => {
            return Err(
                text::join3(
                    "could not parse `",
                    raw,
                    "` as a forward target; use a port (3000) or host:port (127.0.0.1:3000)",
                ),
            );
        },
    };
    if colon == 0 {
        return Err(text::join3("forward target `", raw, "` is missing a host"));
    }
    let port = authority.substring_char(colon + 1, letters.len());
    assert(port@ =~= authority@.skip(colon + 1));
    match text::parse_port(port) {
        Some(0) => Err("port 0 is not a valid forward target".to_owned()),
        Some(_) => Ok(authority.to_owned()),
        None => {
            let mut reason = text::join3("`", port, "` in `");
            reason.append(raw);
            reason.append("` is not a valid port");
            Err(reason)
        },
    }
}

/// A resolved forward target is a host, a colon and a port from 1 to 65535.
pub proof fn forward_targets_can_be_dialed(raw: Seq<char>, addr: Seq<char>)
    requires
        forward_target(raw) == Ok::<Seq<char>, Seq<char>>(addr),
    ensures
        0 < text::last_position(addr, ':') < addr.len(),
        text::port_number(addr.skip(text::last_position(addr, ':') + 1)) matches Some(port)
            && port > 0,
{
    let t = text::trim(raw);
    text::lemma_last_position(addr, ':');
    if text::port_number(t) is Some {
        let digits = text::decimal(text::port_number(t)->Some_0 as nat);
        reveal_strlit("127.0.0.1:");
        text::lemma_decimal(text::port_number(t)->Some_0 as nat);
        assert(addr[9] == ':');
        let at = text::last_position(addr, ':');
        if at > 9 {
            assert(addr[at] == digits[at - 10]);
            assert(text::is_digit(digits[at - 10]));
        }
        assert(addr.skip(10) =~= digits);
        assert(text::is_digit(digits[0]));
    }
}

/// The wait before a reconnect, in milliseconds: it doubles with each attempt up
/// to a ceiling.
pub open spec fn backoff(attempt: nat) -> nat
    decreases attempt,
{
    if attempt == 0 {
        250
    } else if 2 * backoff((attempt - 1) as nat) >= 30_000 {
        30_000
    } else {
        2 * backoff((attempt - 1) as nat)
    }
}

/// The wait before a reconnect grows with the attempts and is never longer than
/// half a minute, however long the outage lasts.
pub proof fn backoff_grows_to_a_ceiling(attempt: nat)
    ensures
        250 <= backoff(attempt) <= 30_000,
        backoff(attempt) <= backoff(attempt + 1),
        attempt >= 7 ==> backoff(attempt) == 30_000,
    decreases attempt,
{
    if attempt > 0 {
        backoff_grows_to_a_ceiling((attempt - 1) as nat);
    }
    if attempt == 7 {
        reveal_with_fuel(backoff, 8);
    }
}

/// Backoff schedule for reconnects, in milliseconds.
///
/// An edge that is briefly restarting should be picked up again in under a
/// second, but a fleet-wide outage must not have every agent hammering it.
#[must_use]
pub fn reconnect_delay(attempt: u32) -> (r: u64)
    ensures
        r == backoff(attempt as nat),
{
    if attempt >= 7 {
        proof {
            backoff_grows_to_a_ceiling(attempt as nat);
        }
        return 30_000;
    }
    let mut delay: u64 = 250;
    let mut i: u32 = 0;
    while i < attempt
        invariant
            i <= attempt < 7,
            delay == backoff(i as nat),
            delay <= 30_000,
        decreases attempt - i,
    {
        let doubled: u64 = delay * 2;
        delay = if doubled >= 30_000 {
            30_000
        } else {
            doubled
        };
        i = i + 1;
    }
    delay
}

/// A bare port from 1 to 65535 stands for that port of this machine, in any notation.
pub proof fn bare_ports_are_local(raw: Seq<char>)
    ensures
        text::port_number(text::trim(raw)) matches Some(port) ==> if port == 0 {
            forward_target(raw) == Err::<Seq<char>, Seq<char>>(
                "port 0 is not a valid forward target"@,
            )
        } else {
            forward_target(raw) == Ok::<Seq<char>, Seq<char>>(
                "127.0.0.1:"@ + text::decimal(port as nat),
            )
        },
        text::trim(raw).len() == 0 ==> forward_target(raw) == Err::<Seq<char>, Seq<char>>(
            "forward target must not be empty"@,
        ),
{
}

/// A host and port is taken as it stands, with or without a scheme before it and a
/// path behind it, exactly where there is a host and the port is one from 1 to 65535.
pub proof fn addresses_are_taken_as_they_stand(
    scheme: Seq<char>,
    host: Seq<char>,
    port: Seq<char>,
    path: Seq<char>,
)
    requires
        scheme.len() == 0 || scheme == "http://"@ || scheme == "https://"@,
        path.len() == 0 || path[0] == '/',
        !host.contains('/'),
        !port.contains('/'),
        !port.contains(':'),
        text::trim(scheme + host + seq![':'] + port + path) == scheme + host + seq![':'] + port
            + path,
        scheme.len() == 0 ==> !text::begins_with(host + seq![':'] + port + path, "http://"@)
            && !text::begins_with(host + seq![':'] + port + path, "https://"@),
    ensures
        ({
            let raw = scheme + host + seq![':'] + port + path;
            let addr = host + seq![':'] + port;
            let number = text::port_number(port);
            &&& forward_target(raw) is Ok <==> host.len() > 0 && number is Some && number->0 > 0
            &&& forward_target(raw) is Ok ==> forward_target(raw)->Ok_0 == addr
            &&& host.len() == 0 ==> forward_target(raw) == Err::<Seq<char>, Seq<char>>(
                "forward target `"@ + raw + "` is missing a host"@,
            )
            &&& host.len() > 0 && number is None ==> forward_target(raw) == Err::<
                Seq<char>,
                Seq<char>,
            >("`"@ + port + "` in `"@ + raw + "` is not a valid port"@)
            &&& host.len() > 0 && number == Some(0u16) ==> forward_target(raw) == Err::<
                Seq<char>,
                Seq<char>,
            >("port 0 is not a valid forward target"@)
        }),
{
    let raw = scheme + host + seq![':'] + port + path;
    let addr = host + seq![':'] + port;
    reveal_strlit("http://");
    reveal_strlit("https://");
    // A text with a colon is no bare port.
    let at = scheme.len() + host.len();
    assert(raw[at as int] == ':');
    assert(text::port_number(raw) is None) by {
        let digits = if raw[0] == '+' {
            raw.skip(1)
        } else {
            raw
        };
        if text::all_digits(digits) {
            if raw[0] == '+' {
                assert(at > 0);
                assert(text::is_digit(digits[at - 1]));
            } else {
                assert(text::is_digit(digits[at as int]));
            }
        }
    }
    let bare = without_scheme(raw);
    if scheme == "http://"@ {
        assert(raw.take(7) =~= "http://"@);
        assert(bare =~= addr + path);
    } else if scheme == "https://"@ {
        assert(raw.take(8) =~= "https://"@);
        if text::begins_with(raw, "http://"@) {
            assert(raw.take(7)[4] == raw[4]);
            assert("http://"@[4] == ':');
            assert("https://"@[4] == 's');
        }
        assert(bare =~= addr + path);
    } else {
        assert(raw =~= addr + path);
    }
    assert forall|i: int| 0 <= i < addr.len() implies bare[i] != '/' by {
        assert(bare[i] == addr[i]);
        if i < host.len() {
            assert(host.contains(host[i]));
        } else if i > host.len() {
            assert(addr[i] == port[i - host.len() - 1]);
            assert(port.contains(port[i - host.len() - 1]));
        }
    }
    text::lemma_position_is(bare, '/', addr.len() as int);
    assert(authority_of(bare) =~= addr);
    let colon = text::last_position(addr, ':');
    text::lemma_last_position(addr, ':');
    assert(addr[host.len() as int] == ':');
    if colon > host.len() {
        assert(addr[colon] == port[colon - host.len() - 1]);
        assert(port.contains(port[colon - host.len() - 1]));
    }
    assert(colon == host.len());
    assert(addr.skip(colon + 1) =~= port);
}

/// The wait doubles from a quarter of a second with each attempt, until it would be
/// longer than half a minute.
pub proof fn waits_double(attempt: nat)
    ensures
        backoff(0) == 250,
        2 * backoff(attempt) < 30_000 ==> backoff(attempt + 1) == 2 * backoff(attempt),
        2 * backoff(attempt) >= 30_000 ==> backoff(attempt + 1) == 30_000,
{
}

/// A target that names a host without a port stands for nothing.
pub proof fn a_host_alone_is_no_target(scheme: Seq<char>, host: Seq<char>, path: Seq<char>)
    requires
        scheme.len() == 0 || scheme == "http://"@ || scheme == "https://"@,
        path.len() == 0 || path[0] == '/',
        !host.contains('/'),
        !host.contains(':'),
        text::trim(scheme + host + path) == scheme + host + path,
        text::port_number(scheme + host + path) is None,
        scheme.len() == 0 ==> !text::begins_with(host + path, "http://"@) && !text::begins_with(
            host + path,
            "https://"@,
        ),
    ensures
        ({
            let raw = scheme + host + path;
            &&& raw.len() > 0 ==> forward_target(raw) == Err::<Seq<char>, Seq<char>>(
                "could not parse `"@ + raw
                    + "` as a forward target; use a port (3000) or host:port (127.0.0.1:3000)"@,
            )
            &&& raw.len() == 0 ==> forward_target(raw) is Err
        }),
{
    let raw = scheme + host + path;
    reveal_strlit("http://");
    reveal_strlit("https://");
    let bare = without_scheme(raw);
    if scheme == "http://"@ {
        assert(raw.take(7) =~= "http://"@);
    } else if scheme == "https://"@ {
        assert(raw.take(8) =~= "https://"@);
        if text::begins_with(raw, "http://"@) {
            assert(raw.take(7)[4] == raw[4]);
            assert("http://"@[4] == ':');
            assert("https://"@[4] == 's');
        }
    } else {
        assert(raw =~= host + path);
    }
    assert(bare =~= host + path);
    assert forall|i: int| 0 <= i < host.len() implies bare[i] != '/' by {
        assert(bare[i] == host[i]);
        assert(host.contains(host[i]));
    }
    text::lemma_position_is(bare, '/', host.len() as int);
    assert(authority_of(bare) =~= host);
    text::lemma_last_position(host, ':');
    if text::last_position(host, ':') >= 0 {
        assert(host.contains(host[text::last_position(host, ':')]));
    }
}

/// White space around a target does not change what it stands for.
pub proof fn targets_are_read_without_the_space_around_them(raw: Seq<char>)
    ensures
        forward_target(raw) is Ok <==> forward_target(text::trim(raw)) is Ok,
        forward_target(raw) is Ok ==> forward_target(raw) == forward_target(text::trim(raw)),
{
    text::trimming_takes_only_white_space(raw);
    if text::trim(raw).len() == 0 {
        assert(text::trim(text::trim(raw)) =~= text::trim(raw));
    } else {
        crate::routing::lemma_trim_nothing(text::trim(raw));
    }
}

} // verus!
