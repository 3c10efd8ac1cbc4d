//! The failures that the edge and the agent share, and how a secret is written
//! to a log.

use vstd::prelude::*;
use vstd::string::*;
use vstd::utf8::*;

use crate::text;

verus! {

/// Every failure mode of the shared logic.
///
/// Kept small on purpose: failures of a transport are mapped into these before
/// they reach a caller.
#[derive(Debug)]
pub enum Error {
    /// The requested hostname or port is already claimed by another session.
    RouteTaken(String),
    /// The requested subdomain or domain is syntactically invalid.
    InvalidRoute(String),
    /// Authentication failed or the credential was missing.
    Unauthorized(String),
    /// The account exceeded a configured limit.
    LimitExceeded(String),
    /// The routing table backend misbehaved.
    RegistryUnavailable(String),
    /// Anything genuinely unexpected, by its message.
    Internal(String),
}

/// An [`Error`] by its characters.
pub enum ErrorView {
    RouteTaken(Seq<char>),
    InvalidRoute(Seq<char>),
    Unauthorized(Seq<char>),
    LimitExceeded(Seq<char>),
    RegistryUnavailable(Seq<char>),
    Internal(Seq<char>),
}

impl View for Error {
    type V = ErrorView;

    open spec fn view(&self) -> ErrorView {
        match self {
            Error::RouteTaken(m) => ErrorView::RouteTaken(m@),
            Error::InvalidRoute(m) => ErrorView::InvalidRoute(m@),
            Error::Unauthorized(m) => ErrorView::Unauthorized(m@),
            Error::LimitExceeded(m) => ErrorView::LimitExceeded(m@),
            Error::RegistryUnavailable(m) => ErrorView::RegistryUnavailable(m@),
            Error::Internal(m) => ErrorView::Internal(m@),
        }
    }
}

impl ErrorView {
    /// The sentence shown for an error.
    pub open spec fn sentence(self) -> Seq<char> {
        match self {
            ErrorView::RouteTaken(m) => "routing key `"@ + m + "` is already claimed"@,
            ErrorView::InvalidRoute(m) => "invalid routing target: "@ + m,
            ErrorView::Unauthorized(m) => "unauthorized: "@ + m,
            ErrorView::LimitExceeded(m) => "limit exceeded: "@ + m,
            ErrorView::RegistryUnavailable(m) => "routing table unavailable: "@ + m,
            ErrorView::Internal(m) => m,
        }
    }

    /// The stable code of an error.
    pub open spec fn label(self) -> Seq<char> {
        match self {
            ErrorView::RouteTaken(_) => "route_taken"@,
            ErrorView::InvalidRoute(_) => "invalid_route"@,
            ErrorView::Unauthorized(_) => "unauthorized"@,
            ErrorView::LimitExceeded(_) => "limit_exceeded"@,
            ErrorView::RegistryUnavailable(_) => "registry_unavailable"@,
            ErrorView::Internal(_) => "internal"@,
        }
    }
}

impl Error {
    /// Whether the caller can reasonably retry the operation as it is: yes when
    /// the edge is having a bad minute, no when the request itself is wrong.
    #[must_use]
    pub fn is_retryable(&self) -> (r: bool)
        ensures
            r == (self@ is RegistryUnavailable || self@ is Internal),
    {
        match self {
            Error::RegistryUnavailable(_) => true,
            Error::Internal(_) => true,
            _ => false,
        }
    }

    /// Stable machine-readable code, for clients and metrics labels.
    #[must_use]
    pub fn code(&self) -> (r: &'static str)
        ensures
            r@ == self@.label(),
    {
        match self {
            Error::RouteTaken(_) => "route_taken",
            Error::InvalidRoute(_) => "invalid_route",
            Error::Unauthorized(_) => "unauthorized",
            Error::LimitExceeded(_) => "limit_exceeded",
            Error::RegistryUnavailable(_) => "registry_unavailable",
            Error::Internal(_) => "internal",
        }
    }

    /// The sentence shown to a person.
    #[must_use]
    pub fn to_string(&self) -> (r: String)
        ensures
            r@ == self@.sentence(),
    {
        match self {
            Error::RouteTaken(m) => text::join3("routing key `", m.as_str(), "` is already claimed"),
            Error::InvalidRoute(m) => text::join2("invalid routing target: ", m.as_str()),
            Error::Unauthorized(m) => text::join2("unauthorized: ", m.as_str()),
            Error::LimitExceeded(m) => text::join2("limit exceeded: ", m.as_str()),
            Error::RegistryUnavailable(m) => text::join2("routing table unavailable: ", m.as_str()),
            Error::Internal(m) => m.clone(),
        }
    }
}

/// The characters of a secret that its redacted form shows: the first four, but
/// never the last one.
pub open spec fn shown_of(secret: Seq<char>) -> Seq<char> {
    if secret.len() > 4 {
        secret.take(4)
    } else if secret.len() > 0 {
        secret.drop_last()
    } else {
        secret
    }
}

/// The redacted form of a secret: the characters that it shows, and its length in
/// bytes.
pub open spec fn redacted(secret: Seq<char>) -> Seq<char> {
    shown_of(secret) + "***("@ + text::decimal(encode_utf8(secret).len()) + " chars)"@
}

/// Redacts a secret for logging: keeps a short prefix so that operators can
/// still correlate, drops everything that would let a log reader authenticate.
#[must_use]
pub fn redact(secret: &str) -> (r: String)
    ensures
        r@ == redacted(secret@),
{
    let n: usize = secret.unicode_len();
    let k: usize = if n > 4 {
        4
    } else if n > 0 {
        n - 1
    } else {
        0
    };
    let mut out: String = secret.substring_char(0, k).to_owned();
    assert(out@ == shown_of(secret@));
    out.append("***(");
    out.append(text::to_decimal(text::byte_len(secret) as u64).as_str());
    out.append(" chars)");
    out
}

/// A redacted secret is never printed whole: what is shown of it is a proper
/// prefix, of at most four characters.
pub proof fn redaction_never_shows_the_whole(secret: Seq<char>)
    requires
        secret.len() > 0,
    ensures
        shown_of(secret).len() < secret.len(),
        shown_of(secret).len() <= 4,
        text::begins_with(secret, shown_of(secret)),
        text::begins_with(redacted(secret), shown_of(secret)),
{
    let shown = shown_of(secret);
    assert(secret.take(shown.len() as int) =~= shown);
    assert(redacted(secret).take(shown.len() as int) =~= shown);
}

/// A redacted secret reveals nothing past the characters that it shows but its
/// length: two secrets that agree on those are written alike.
pub proof fn redaction_hides_the_rest(a: Seq<char>, b: Seq<char>)
    requires
        shown_of(a) == shown_of(b),
        encode_utf8(a).len() == encode_utf8(b).len(),
    ensures
        redacted(a) == redacted(b),
{
}

/// Every error is shown with its cause, and under a code of its own.
pub proof fn errors_are_shown_with_their_cause(m: Seq<char>)
    ensures
        ErrorView::RouteTaken(m).sentence() == "routing key `"@ + m + "` is already claimed"@,
        ErrorView::InvalidRoute(m).sentence() == "invalid routing target: "@ + m,
        ErrorView::Unauthorized(m).sentence() == "unauthorized: "@ + m,
        ErrorView::LimitExceeded(m).sentence() == "limit exceeded: "@ + m,
        ErrorView::RegistryUnavailable(m).sentence() == "routing table unavailable: "@ + m,
        ErrorView::Internal(m).sentence() == m,
        ErrorView::RouteTaken(m).label() == "route_taken"@,
        ErrorView::InvalidRoute(m).label() == "invalid_route"@,
        ErrorView::Unauthorized(m).label() == "unauthorized"@,
        ErrorView::LimitExceeded(m).label() == "limit_exceeded"@,
        ErrorView::RegistryUnavailable(m).label() == "registry_unavailable"@,
        ErrorView::Internal(m).label() == "internal"@,
{
}

/// An error is read as what it is.
pub proof fn errors_are_read_as_they_are(e: Error)
    ensures
        e matches Error::RouteTaken(m) ==> e@ == ErrorView::RouteTaken(m@),
        e matches Error::InvalidRoute(m) ==> e@ == ErrorView::InvalidRoute(m@),
        e matches Error::Unauthorized(m) ==> e@ == ErrorView::Unauthorized(m@),
        e matches Error::LimitExceeded(m) ==> e@ == ErrorView::LimitExceeded(m@),
        e matches Error::RegistryUnavailable(m) ==> e@ == ErrorView::RegistryUnavailable(m@),
        e matches Error::Internal(m) ==> e@ == ErrorView::Internal(m@),
{
}

/// A redacted secret shows its first four characters, or all but the last of a
/// shorter one, and then its length in bytes.
pub proof fn redaction_shows_a_prefix_and_the_length(secret: Seq<char>)
    ensures
        secret.len() > 4 ==> shown_of(secret) == secret.take(4),
        0 < secret.len() <= 4 ==> shown_of(secret) == secret.take(secret.len() - 1),
        secret.len() == 0 ==> shown_of(secret).len() == 0,
        redacted(secret) == shown_of(secret) + "***("@ + text::decimal(encode_utf8(secret).len())
            + " chars)"@,
{
    if 0 < secret.len() <= 4 {
        assert(secret.drop_last() =~= secret.take(secret.len() - 1));
    }
}

} // verus!
