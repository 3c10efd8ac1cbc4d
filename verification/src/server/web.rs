//! HTTP plumbing shared by the public ingress and the peer listener.

use http::HeaderMap;
use vstd::prelude::*;
use vstd::string::*;
use vstd::utf8::*;

use crate::fields;
use crate::payload;
use crate::proto::{Header, HeaderView};
use crate::proto;
use crate::text;

verus! {

/// Header marking a request that has already been handed between edge nodes.
/// Its presence stops two nodes bouncing a request back and forth forever.
pub const HOP_HEADER: &'static str = "x-norupo-hop";

/// The headers that describe a single hop and must never be forwarded.
///
/// Passing `Transfer-Encoding` or `Connection` through a proxy lets two parties
/// disagree about where a message ends; passing `Upgrade` through breaks
/// WebSockets. See RFC 9110, section 7.6.1.
pub open spec fn hop_by_hop(name: Seq<char>) -> bool {
    ||| name == "connection"@ || name == "keep-alive"@ || name == "proxy-authenticate"@
    ||| name == "proxy-authorization"@ || name == "te"@ || name == "trailer"@
    ||| name == "transfer-encoding"@ || name == "upgrade"@
}

/// Whether a lower-case name is that of a hop-by-hop header.
fn is_hop_by_hop(name: &str) -> (r: bool)
    ensures
        r == hop_by_hop(name@),
{
    text::same(name, "connection") || text::same(name, "keep-alive") || text::same(
        name,
        "proxy-authenticate",
    ) || text::same(name, "proxy-authorization") || text::same(name, "te") || text::same(
        name,
        "trailer",
    ) || text::same(name, "transfer-encoding") || text::same(name, "upgrade")
}

/// The names that pieces of a `Connection` header stand for.
pub open spec fn tokens(pieces: Seq<Seq<char>>) -> Seq<Seq<char>> {
    Seq::new(pieces.len(), |i: int| text::lower(text::trim(pieces[i])))
}

/// The names that one `Connection` header lists; none where it is not text.
pub open spec fn listed_in(value: Seq<u8>) -> Seq<Seq<char>> {
    if fields::is_visible(value) {
        tokens(text::split(fields::ascii_text(value), ','))
    } else {
        Seq::empty()
    }
}

/// The names that the `Connection` headers of a message list.
pub open spec fn listed(values: Seq<Seq<u8>>) -> Seq<Seq<char>>
    decreases values.len(),
{
    if values.len() == 0 {
        Seq::empty()
    } else {
        listed(values.drop_last()) + listed_in(values.last())
    }
}

/// Whether a field of a message is for this hop only: hop-by-hop by itself, or
/// nominated by a `Connection` header.
pub open spec fn for_this_hop(message: Map<Seq<char>, Seq<Seq<u8>>>, name: Seq<char>) -> bool {
    hop_by_hop(name) || listed(fields::values_under(message, "connection"@)).contains(name)
}

/// Adds the names that one `Connection` header lists.
fn list_names(names: &mut Vec<String>, value: &[u8])
    ensures
        text::texts(final(names)@) == text::texts(old(names)@) + listed_in(value@),
{
    let ghost before = text::texts(names@);
    let line = match fields::visible_text(value) {
        Some(line) => line,
        None => {
            assert(before + Seq::<Seq<char>>::empty() =~= before);
            return;
        },
    };
    let pieces = text::split_at_char(line.as_str(), ',');
    let ghost new = tokens(text::texts(pieces@));
    let mut i: usize = 0;
    assert(before + new.take(0) =~= before);
    while i < pieces.len()
        invariant
            i <= pieces@.len(),
            new == tokens(text::texts(pieces@)),
            text::texts(names@) == before + new.take(i as int),
        decreases pieces@.len() - i,
    {
        let ghost so_far = text::texts(names@);
        names.push(text::to_lower(text::trimmed(pieces[i].as_str())));
        proof {
            assert(text::texts(pieces@)[i as int] == pieces@[i as int]@);
            assert(text::texts(names@) =~= so_far.push(new[i as int]));
            assert(new.take(i as int + 1) =~= new.take(i as int).push(new[i as int]));
        }
        i = i + 1;
    }
    assert(new.take(pieces@.len() as int) =~= new);
}

/// The names that the `Connection` headers of a message list.
fn connection_listed(headers: &HeaderMap) -> (r: Vec<String>)
    ensures
        text::texts(r@) == listed(fields::values_under(fields::fields_of(*headers), "connection"@)),
{
    proof {
        reveal_strlit("connection");
        assert(text::lower("connection"@) =~= "connection"@);
    }
    let values = fields::get_all(headers, "connection");
    let ghost all = fields::byte_lists(values@);
    let mut out: Vec<String> = Vec::new();
    let mut i: usize = 0;
    while i < values.len()
        invariant
            i <= values@.len(),
            all == fields::byte_lists(values@),
            text::texts(out@) == listed(all.take(i as int)),
        decreases values@.len() - i,
    {
        proof {
            assert(all.take(i as int + 1).drop_last() =~= all.take(i as int));
            assert(all.take(i as int + 1).last() == values@[i as int]@);
        }
        list_names(&mut out, values[i].as_slice());
        i = i + 1;
    }
    assert(all.take(values@.len() as int) =~= all);
    out
}

/// Whether a list of strings holds this one.
fn holds(list: &Vec<String>, s: &str) -> (r: bool)
    ensures
        r == text::texts(list@).contains(s@),
{
    let mut i: usize = 0;
    while i < list.len()
        invariant
            i <= list@.len(),
            forall|k: int| 0 <= k < i ==> (#[trigger] list@[k])@ != s@,
        decreases list@.len() - i,
    {
        if text::same(list[i].as_str(), s) {
            assert(text::texts(list@)[i as int] == s@);
            return true;
        }
        i = i + 1;
    }
    assert forall|k: int| 0 <= k < text::texts(list@).len() implies text::texts(list@)[k] != s@ by {
        assert(list@[k]@ != s@);
    }
    false
}

/// The headers of a list that are not for this hop only, in the order of the list.
pub open spec fn passed_on(
    headers: Seq<HeaderView>,
    message: Map<Seq<char>, Seq<Seq<u8>>>,
) -> Seq<HeaderView>
    decreases headers.len(),
{
    if headers.len() == 0 {
        Seq::empty()
    } else if for_this_hop(message, text::lower(headers.last().name)) {
        passed_on(headers.drop_last(), message)
    } else {
        passed_on(headers.drop_last(), message).push(headers.last())
    }
}

/// Strips the headers that are for this hop only, including any listed in
/// `Connection`. Every other header is kept as it is, with all of its values, in
/// the order in which the message lists them.
#[must_use]
pub fn sanitize_headers(headers: &HeaderMap) -> (r: Vec<Header>)
    ensures
        proto::header_views(r@) == passed_on(
            fields::listing_of(*headers),
            fields::fields_of(*headers),
        ),
        forall|name: Seq<char>| #[trigger]
            fields::values_for(proto::header_views(r@), name) == if for_this_hop(
                fields::fields_of(*headers),
                text::lower(name),
            ) {
                Seq::empty()
            } else {
                fields::values_under(fields::fields_of(*headers), name)
            },
{
    let nominated = connection_listed(headers);
    let all = fields::all(headers);
    let ghost message = fields::fields_of(*headers);
    let ghost views = proto::header_views(all@);
    let mut out: Vec<Header> = Vec::new();
    let mut i: usize = 0;
    assert(views.take(0) =~= Seq::<HeaderView>::empty());
    assert(proto::header_views(out@) =~= Seq::<HeaderView>::empty());
    while i < all.len()
        invariant
            i <= all@.len(),
            views == proto::header_views(all@),
            text::texts(nominated@) == listed(fields::values_under(message, "connection"@)),
            proto::header_views(out@) == passed_on(views.take(i as int), message),
            forall|name: Seq<char>| #[trigger]
                fields::values_for(proto::header_views(out@), name) == if for_this_hop(
                    message,
                    text::lower(name),
                ) {
                    Seq::empty()
                } else {
                    fields::values_for(views.take(i as int), name)
                },
        decreases all@.len() - i,
    {
        let lower = text::to_lower(all[i].name.as_str());
        let ghost before = proto::header_views(out@);
        let keep = !is_hop_by_hop(lower.as_str()) && !holds(&nominated, lower.as_str());
        if keep {
            out.push(all[i].clone());
            assert(proto::header_views(out@) =~= before.push(views[i as int]));
        }
        proof {
            assert(views.take(i as int + 1) =~= views.take(i as int).push(views[i as int]));
            assert(views.take(i as int + 1).drop_last() =~= views.take(i as int));
            assert forall|name: Seq<char>| #[trigger]
                fields::values_for(proto::header_views(out@), name) == if for_this_hop(
                    message,
                    text::lower(name),
                ) {
                    Seq::empty()
                } else {
                    fields::values_for(views.take(i as int + 1), name)
                } by {
                fields::lemma_values_for_push(before, views[i as int], name);
                fields::lemma_values_for_push(views.take(i as int), views[i as int], name);
                assert(fields::values_for(before, name) == if for_this_hop(
                    message,
                    text::lower(name),
                ) {
                    Seq::empty()
                } else {
                    fields::values_for(views.take(i as int), name)
                });
            }
        }
        i = i + 1;
    }
    assert(views.take(all@.len() as int) =~= views);
    out
}

/// The names that the `Connection` headers of an agent nominate as meant for its
/// hop only.
pub open spec fn nominated(headers: Seq<HeaderView>) -> Seq<Seq<char>>
    decreases headers.len(),
{
    if headers.len() == 0 {
        Seq::empty()
    } else if text::lower(headers.last().name) == "connection"@ {
        nominated(headers.drop_last()) + listed_in(headers.last().value)
    } else {
        nominated(headers.drop_last())
    }
}

/// The names that the `Connection` headers of an agent nominate.
fn nominated_names(headers: &Vec<Header>) -> (r: Vec<String>)
    ensures
        text::texts(r@) == nominated(proto::header_views(headers@)),
{
    let ghost views = proto::header_views(headers@);
    let mut out: Vec<String> = Vec::new();
    let mut i: usize = 0;
    assert(views.take(0) =~= Seq::<HeaderView>::empty());
    while i < headers.len()
        invariant
            i <= headers@.len(),
            views == proto::header_views(headers@),
            text::texts(out@) == nominated(views.take(i as int)),
        decreases headers@.len() - i,
    {
        proof {
            assert(views.take(i as int + 1).drop_last() =~= views.take(i as int));
            assert(views.take(i as int + 1).last() == headers@[i as int]@);
        }
        let lower = text::to_lower(headers[i].name.as_str());
        if text::same(lower.as_str(), "connection") {
            list_names(&mut out, payload::slice(&headers[i].value));
        }
        i = i + 1;
    }
    assert(views.take(headers@.len() as int) =~= views);
    out
}

/// Whether a header of an agent may go into a response: not for a single hop, by
/// itself or by nomination, and well formed.
pub open spec fn acceptable(h: HeaderView, nominated: Seq<Seq<char>>) -> bool {
    &&& !hop_by_hop(text::lower(h.name))
    &&& !nominated.contains(text::lower(h.name))
    &&& fields::is_field_name(h.name)
    &&& fields::is_field_value(h.value)
}

/// The fields that the acceptable ones among a list of headers make up.
pub open spec fn collected(headers: Seq<HeaderView>, nominated: Seq<Seq<char>>) -> Map<
    Seq<char>,
    Seq<Seq<u8>>,
>
    decreases headers.len(),
{
    if headers.len() == 0 {
        fields::nothing()
    } else if acceptable(headers.last(), nominated) {
        fields::with_appended(
            collected(headers.drop_last(), nominated),
            text::lower(headers.last().name),
            headers.last().value,
        )
    } else {
        collected(headers.drop_last(), nominated)
    }
}

/// The fields that the headers of an agent make up in a response.
pub open spec fn rebuilt(headers: Seq<HeaderView>) -> Map<Seq<char>, Seq<Seq<u8>>> {
    collected(headers, nominated(headers))
}

/// A list of headers makes up no more names than it has headers.
proof fn lemma_collected_size(headers: Seq<HeaderView>, nominated: Seq<Seq<char>>)
    ensures
        collected(headers, nominated).dom().finite(),
        collected(headers, nominated).dom().len() <= headers.len(),
    decreases headers.len(),
{
    if headers.len() > 0 {
        lemma_collected_size(headers.drop_last(), nominated);
    }
}

/// Headers of which there are few enough can always be rebuilt.
pub proof fn few_headers_fit(headers: Seq<HeaderView>)
    requires
        headers.len() <= fields::SAFE_FIELDS,
    ensures
        fields::fits(rebuilt(headers)),
{
    lemma_collected_size(headers, nominated(headers));
}

/// More headers never make up fewer names.
proof fn lemma_collected_grows(headers: Seq<HeaderView>, nominated: Seq<Seq<char>>, k: int)
    requires
        0 <= k <= headers.len(),
    ensures
        collected(headers.take(k), nominated).dom().subset_of(collected(headers, nominated).dom()),
    decreases headers.len(),
{
    if k == headers.len() {
        assert(headers.take(k) =~= headers);
    } else {
        lemma_collected_grows(headers.drop_last(), nominated, k);
        assert(headers.drop_last().take(k) =~= headers.take(k));
    }
}

/// Rebuilds a header map from protocol headers, dropping anything malformed and
/// whatever is for the agent's hop only.
///
/// A misbehaving agent must not be able to inject a header that crashes the edge
/// or splits the response, so invalid names and values are dropped.
///
/// `None` means that the headers have more names than a map can hold; that
/// cannot be so up to [`fields::SAFE_FIELDS`] names, however many values they have.
#[must_use]
pub fn to_header_map(headers: &Vec<Header>) -> (r: Option<HeaderMap>)
    ensures
        fields::fits(rebuilt(proto::header_views(headers@))) ==> r is Some,
        r matches Some(map) ==> fields::fields_of(map) == rebuilt(proto::header_views(headers@)),
{
    let ghost views = proto::header_views(headers@);
    let names = nominated_names(headers);
    let mut map = fields::no_fields();
    let mut i: usize = 0;
    assert(views.take(0) =~= Seq::<HeaderView>::empty());
    while i < headers.len()
        invariant
            i <= headers@.len(),
            views == proto::header_views(headers@),
            text::texts(names@) == nominated(views),
            fields::fields_of(map) == collected(views.take(i as int), nominated(views)),
        decreases headers@.len() - i,
    {
        let header = &headers[i];
        proof {
            lemma_collected_grows(views, nominated(views), i as int);
            if fields::fits(rebuilt(views)) {
                fields::lemma_fits_with_fewer(fields::fields_of(map), rebuilt(views));
            }
            assert(views.take(i as int + 1).drop_last() =~= views.take(i as int));
            assert(views.take(i as int + 1).last() == header@);
        }
        let lower = text::to_lower(header.name.as_str());
        if !is_hop_by_hop(lower.as_str()) && !holds(&names, lower.as_str()) {
            let value = payload::slice(&header.value);
            if !fields::append(&mut map, header.name.as_str(), value) {
                if is_well_formed(header) {
                    return None;
                }
            }
        }
        i = i + 1;
    }
    assert(views.take(headers@.len() as int) =~= views);
    Some(map)
}

/// Whether a header has a valid name and a valid value.
fn is_well_formed(header: &Header) -> (r: bool)
    ensures
        r == (fields::is_field_name(header@.name) && fields::is_field_value(header@.value)),
{
    let mut probe = fields::no_fields();
    fields::append(&mut probe, header.name.as_str(), payload::slice(&header.value))
}

/// The values that acceptable headers give under a lower-case name, in order.
pub open spec fn accepted_values(
    headers: Seq<HeaderView>,
    nominated: Seq<Seq<char>>,
    name: Seq<char>,
) -> Seq<Seq<u8>>
    decreases headers.len(),
{
    if headers.len() == 0 {
        Seq::empty()
    } else if acceptable(headers.last(), nominated) && text::lower(headers.last().name) == name {
        accepted_values(headers.drop_last(), nominated, name).push(headers.last().value)
    } else {
        accepted_values(headers.drop_last(), nominated, name)
    }
}

/// A repeated header keeps all of its values, in the order in which the agent
/// sent them.
pub proof fn repeated_headers_survive(headers: Seq<HeaderView>, name: Seq<char>)
    ensures
        fields::values_under(rebuilt(headers), name) == accepted_values(
            headers,
            nominated(headers),
            name,
        ),
        rebuilt(headers).dom().contains(name) <==> accepted_values(
            headers,
            nominated(headers),
            name,
        ).len() > 0,
{
    lemma_values_are_kept(headers, nominated(headers), name);
}

proof fn lemma_values_are_kept(
    headers: Seq<HeaderView>,
    nominated: Seq<Seq<char>>,
    name: Seq<char>,
)
    ensures
        fields::values_under(collected(headers, nominated), name) == accepted_values(
            headers,
            nominated,
            name,
        ),
        collected(headers, nominated).dom().contains(name) <==> accepted_values(
            headers,
            nominated,
            name,
        ).len() > 0,
    decreases headers.len(),
{
    if headers.len() > 0 {
        lemma_values_are_kept(headers.drop_last(), nominated, name);
        lemma_values_are_kept(headers.drop_last(), nominated, text::lower(headers.last().name));
        let h = headers.last();
        if acceptable(h, nominated) && text::lower(h.name) == name {
            let was = collected(headers.drop_last(), nominated);
            if !was.dom().contains(name) {
                assert(seq![h.value] =~= Seq::<Seq<u8>>::empty().push(h.value));
            }
        }
    }
}

/// What an agent sends cannot carry a header that is meant for its hop only, or a
/// line break, into a response.
pub proof fn rebuilt_headers_are_clean(headers: Seq<HeaderView>, name: Seq<char>, i: int, k: int)
    requires
        rebuilt(headers).dom().contains(name),
        0 <= i < rebuilt(headers)[name].len(),
        0 <= k < rebuilt(headers)[name][i].len(),
    ensures
        !hop_by_hop(name),
        !nominated(headers).contains(name),
        rebuilt(headers)[name][i][k] != 10,
        rebuilt(headers)[name][i][k] != 13,
{
    lemma_collected_is_clean(headers, nominated(headers), name, i, k);
}

proof fn lemma_collected_is_clean(
    headers: Seq<HeaderView>,
    nominated: Seq<Seq<char>>,
    name: Seq<char>,
    i: int,
    k: int,
)
    requires
        collected(headers, nominated).dom().contains(name),
        0 <= i < collected(headers, nominated)[name].len(),
        0 <= k < collected(headers, nominated)[name][i].len(),
    ensures
        !hop_by_hop(name),
        !nominated.contains(name),
        collected(headers, nominated)[name][i][k] != 10,
        collected(headers, nominated)[name][i][k] != 13,
    decreases headers.len(),
{
    let before = collected(headers.drop_last(), nominated);
    let h = headers.last();
    if acceptable(h, nominated) && text::lower(h.name) == name {
        if before.dom().contains(name) && i < before[name].len() {
            lemma_collected_is_clean(headers.drop_last(), nominated, name, i, k);
        } else {
            assert(collected(headers, nominated)[name][i] == h.value);
            assert(h.value[k] >= 32 || h.value[k] == 9);
        }
    } else {
        lemma_collected_is_clean(headers.drop_last(), nominated, name, i, k);
    }
}

/// A header list of a request that the edge passes on holds nothing that is meant
/// for the public client's hop only.
pub proof fn passed_on_headers_are_clean(
    message: Map<Seq<char>, Seq<Seq<u8>>>,
    headers: Seq<HeaderView>,
    i: int,
)
    requires
        forall|name: Seq<char>| #[trigger]
            fields::values_for(headers, name) == if for_this_hop(message, text::lower(name)) {
                Seq::empty()
            } else {
                fields::values_under(message, name)
            },
        0 <= i < headers.len(),
    ensures
        !for_this_hop(message, text::lower(headers[i].name)),
        fields::values_under(message, headers[i].name).contains(headers[i].value),
{
    lemma_listed_value(headers, i);
    assert(fields::values_for(headers, headers[i].name).contains(headers[i].value));
}

/// The value of a header is among those under its name.
proof fn lemma_listed_value(headers: Seq<HeaderView>, i: int)
    requires
        0 <= i < headers.len(),
    ensures
        fields::values_for(headers, headers[i].name).contains(headers[i].value),
    decreases headers.len(),
{
    let name = headers[i].name;
    let all = fields::values_for(headers, name);
    if i == headers.len() - 1 {
        assert(all[all.len() - 1] == headers[i].value);
    } else {
        let shorter = headers.drop_last();
        lemma_listed_value(shorter, i);
        let fewer = fields::values_for(shorter, name);
        let k = choose|k: int| 0 <= k < fewer.len() && fewer[k] == headers[i].value;
        assert(all[k] == fewer[k]);
    }
}

/// A response that the edge itself makes up.
#[derive(Debug)]
pub struct EdgeResponse {
    pub status: u16,
    pub headers: HeaderMap,
    pub body: String,
}

/// A response by its contents.
#[verifier::ext_equal]
pub struct ResponseView {
    pub status: u16,
    pub headers: Map<Seq<char>, Seq<Seq<u8>>>,
    pub body: Seq<char>,
}

impl View for EdgeResponse {
    type V = ResponseView;

    open spec fn view(&self) -> ResponseView {
        ResponseView {
            status: self.status,
            headers: fields::fields_of(self.headers),
            body: self.body@,
        }
    }
}

/// What one character becomes in HTML.
pub open spec fn escaped_char(c: char) -> Seq<char> {
    if c == '&' {
        "&amp;"@
    } else if c == '<' {
        "&lt;"@
    } else if c == '>' {
        "&gt;"@
    } else if c == '"' {
        "&quot;"@
    } else if c == '\'' {
        "&#x27;"@
    } else {
        seq![c]
    }
}

/// A text with the characters that mean something to HTML replaced.
pub open spec fn escaped(s: Seq<char>) -> Seq<char>
    decreases s.len(),
{
    if s.len() == 0 {
        Seq::empty()
    } else {
        escaped(s.drop_last()) + escaped_char(s.last())
    }
}

/// Minimal HTML escaping for values interpolated into error pages.
#[must_use]
pub fn html_escape(raw: &str) -> (r: String)
    ensures
        r@ == escaped(raw@),
{
    let mut out: String = String::new();
    for c in it: raw.chars()
        invariant
            it.seq() == raw@,
            out@ == escaped(raw@.take(it.index() as int)),
    {
        let ghost so_far = out@;
        if c == '&' {
            out.append("&amp;");
        } else if c == '<' {
            out.append("&lt;");
        } else if c == '>' {
            out.append("&gt;");
        } else if c == '"' {
            out.append("&quot;");
        } else if c == '\'' {
            out.append("&#x27;");
        } else {
            out.push(c);
            assert(out@ =~= so_far + seq![c]);
        }
        assert(raw@.take(it.index() as int + 1).drop_last() =~= raw@.take(it.index() as int));
    }
    assert(raw@.take(raw@.len() as int) =~= raw@);
    out
}

/// Escaped text holds no character that could open or close markup or an
/// attribute.
pub proof fn escaped_text_is_inert(s: Seq<char>, i: int)
    requires
        0 <= i < escaped(s).len(),
    ensures
        escaped(s)[i] != '<',
        escaped(s)[i] != '>',
        escaped(s)[i] != '"',
        escaped(s)[i] != '\'',
    decreases s.len(),
{
    reveal_strlit("&amp;");
    reveal_strlit("&lt;");
    reveal_strlit("&gt;");
    reveal_strlit("&quot;");
    reveal_strlit("&#x27;");
    let head = escaped(s.drop_last());
    if i < head.len() {
        escaped_text_is_inert(s.drop_last(), i);
    } else {
        assert(escaped(s)[i] == escaped_char(s.last())[i - head.len()]);
    }
}

/// Text that means nothing to HTML is left as it is.
pub proof fn plain_text_is_unchanged(s: Seq<char>)
    requires
        forall|i: int|
            0 <= i < s.len() ==> #[trigger] s[i] != '&' && s[i] != '<' && s[i] != '>' && s[i] != '"'
                && s[i] != '\'',
    ensures
        escaped(s) == s,
    decreases s.len(),
{
    if s.len() > 0 {
        assert(s[s.len() - 1] != '&');
        assert forall|i: int| 0 <= i < s.drop_last().len() implies #[trigger] s.drop_last()[i] != '&'
            && s.drop_last()[i] != '<' && s.drop_last()[i] != '>' && s.drop_last()[i] != '"'
            && s.drop_last()[i] != '\'' by {
            assert(s[i] != '&');
        }
        plain_text_is_unchanged(s.drop_last());
        assert(escaped(s) =~= s);
    }
}

/// The body of an error page. The title is escaped; the detail is markup.
pub open spec fn page_body(status: u16, title: Seq<char>, detail: Seq<char>) -> Seq<char> {
    "<!doctype html>\n<html><head><meta charset=\"utf-8\"><title>"@ + text::decimal(status as nat)
        + " "@ + escaped(title) + "</title><style>"@
        + "body{font:16px/1.6 system-ui,sans-serif;max-width:40rem;margin:6rem auto;padding:0 1.5rem;color:#1a1a1a}"@
        + "h1{font-size:1.4rem;margin:0 0 .5rem}code{background:#f4f4f5;padding:.1rem .3rem;border-radius:.2rem}"@
        + "footer{margin-top:2rem;color:#71717a;font-size:.85rem}"@ + "</style></head><body><h1>"@
        + text::decimal(status as nat) + " &middot; "@ + escaped(title) + "</h1><p>"@ + detail
        + "</p><footer>norupo edge</footer></body></html>\n"@
}

/// The headers of an error page.
pub open spec fn page_fields() -> Map<Seq<char>, Seq<Seq<u8>>> {
    fields::nothing().insert(
        "content-type"@,
        seq![encode_utf8("text/html; charset=utf-8"@)],
    ).insert("cache-control"@, seq![encode_utf8("no-store"@)])
}

/// An error page.
pub open spec fn page(status: u16, title: Seq<char>, detail: Seq<char>) -> ResponseView {
    ResponseView { status, headers: page_fields(), body: page_body(status, title, detail) }
}

/// Renders an edge-generated error page.
///
/// These are the pages a user sees when their tunnel is down, so they say what
/// happened and what to do about it. Callers pass a detail that is escaped or
/// trusted markup.
#[must_use]
pub fn error_page(status: u16, title: &str, detail: &str) -> (r: EdgeResponse)
    ensures
        r@ == page(status, title@, detail@),
{
    let code = text::to_decimal(status as u64);
    let heading = html_escape(title);
    let mut body: String =
        "<!doctype html>\n<html><head><meta charset=\"utf-8\"><title>".to_owned();
    body.append(code.as_str());
    body.append(" ");
    body.append(heading.as_str());
    body.append("</title><style>");
    body.append(
        "body{font:16px/1.6 system-ui,sans-serif;max-width:40rem;margin:6rem auto;padding:0 1.5rem;color:#1a1a1a}",
    );
    body.append(
        "h1{font-size:1.4rem;margin:0 0 .5rem}code{background:#f4f4f5;padding:.1rem .3rem;border-radius:.2rem}",
    );
    body.append("footer{margin-top:2rem;color:#71717a;font-size:.85rem}");
    body.append("</style></head><body><h1>");
    body.append(code.as_str());
    body.append(" &middot; ");
    body.append(heading.as_str());
    body.append("</h1><p>");
    body.append(detail);
    body.append("</p><footer>norupo edge</footer></body></html>\n");
    let mut headers = fields::no_fields();
    proof {
        lemma_page_fields_are_valid();
    }
    let _ = fields::insert(&mut headers, "content-type", "text/html; charset=utf-8".as_bytes());
    let _ = fields::insert(&mut headers, "cache-control", "no-store".as_bytes());
    EdgeResponse { status, headers, body }
}

/// The headers of an error page have valid names and values.
proof fn lemma_page_fields_are_valid()
    ensures
        fields::is_stored_name("content-type"@),
        fields::is_stored_name("cache-control"@),
        fields::is_field_value(encode_utf8("text/html; charset=utf-8"@)),
        fields::is_field_value(encode_utf8("no-store"@)),
{
    reveal_strlit("content-type");
    reveal_strlit("cache-control");
    reveal_strlit("text/html; charset=utf-8");
    reveal_strlit("no-store");
    assert(text::lower("content-type"@) =~= "content-type"@);
    assert(text::lower("cache-control"@) =~= "cache-control"@);
    fields::lemma_printable_value("text/html; charset=utf-8"@);
    fields::lemma_printable_value("no-store"@);
}

/// The hop-by-hop headers are these eight and no others.
pub proof fn hop_by_hop_headers_are_these(name: Seq<char>)
    ensures
        hop_by_hop(name) <==> seq![
            "connection"@,
            "keep-alive"@,
            "proxy-authenticate"@,
            "proxy-authorization"@,
            "te"@,
            "trailer"@,
            "transfer-encoding"@,
            "upgrade"@,
        ].contains(name),
{
    let all = seq![
        "connection"@,
        "keep-alive"@,
        "proxy-authenticate"@,
        "proxy-authorization"@,
        "te"@,
        "trailer"@,
        "transfer-encoding"@,
        "upgrade"@,
    ];
    assert(all[0] == "connection"@ && all[1] == "keep-alive"@ && all[2] == "proxy-authenticate"@);
    assert(all[3] == "proxy-authorization"@ && all[4] == "te"@ && all[5] == "trailer"@);
    assert(all[6] == "transfer-encoding"@ && all[7] == "upgrade"@);
}

/// Whether one of the values of a `Connection` header lists a name among its
/// comma-separated tokens, in any case and with white space around it.
pub open spec fn lists(values: Seq<Seq<u8>>, name: Seq<char>) -> bool {
    exists|i: int, k: int|
        0 <= i < values.len() && fields::is_visible(values[i]) && 0 <= k < text::split(
            fields::ascii_text(values[i]),
            ',',
        ).len() && text::lower(
            text::trim(#[trigger] text::split(fields::ascii_text(values[i]), ',')[k]),
        ) == name
}

/// A name is nominated exactly where a token of some `Connection` value is it.
pub proof fn nominations_are_connection_tokens(values: Seq<Seq<u8>>, name: Seq<char>)
    ensures
        listed(values).contains(name) <==> lists(values, name),
    decreases values.len(),
{
    if values.len() > 0 {
        let fewer = values.drop_last();
        let last = values.len() - 1;
        nominations_are_connection_tokens(fewer, name);
        let before = listed(fewer);
        let here = listed_in(values.last());
        let all = listed(values);
        if all.contains(name) {
            let k = choose|k: int| 0 <= k < all.len() && all[k] == name;
            if k < before.len() {
                assert(before[k] == name);
                let (i, j) = choose|i: int, j: int|
                    0 <= i < fewer.len() && fields::is_visible(fewer[i]) && 0 <= j < text::split(
                        fields::ascii_text(fewer[i]),
                        ',',
                    ).len() && text::lower(
                        text::trim(#[trigger] text::split(fields::ascii_text(fewer[i]), ',')[j]),
                    ) == name;
                assert(values[i] == fewer[i]);
                assert(text::lower(
                    text::trim(text::split(fields::ascii_text(values[i]), ',')[j]),
                ) == name);
            } else {
                let j = k - before.len();
                assert(here[j] == name);
                assert(values[last] == values.last());
                assert(text::lower(
                    text::trim(text::split(fields::ascii_text(values[last]), ',')[j]),
                ) == name);
            }
        }
        if lists(values, name) {
            let (i, j) = choose|i: int, j: int|
                0 <= i < values.len() && fields::is_visible(values[i]) && 0 <= j < text::split(
                    fields::ascii_text(values[i]),
                    ',',
                ).len() && text::lower(
                    text::trim(#[trigger] text::split(fields::ascii_text(values[i]), ',')[j]),
                ) == name;
            if i < last {
                assert(fewer[i] == values[i]);
                assert(text::lower(
                    text::trim(text::split(fields::ascii_text(fewer[i]), ',')[j]),
                ) == name);
                let k = choose|k: int| 0 <= k < before.len() && before[k] == name;
                assert(all[k] == name);
            } else {
                assert(here[j] == name);
                assert(all[before.len() + j] == name);
            }
        }
    }
}

/// A header of a request is passed on, as it is and in its place, exactly where it
/// is none of the eight hop-by-hop headers and no `Connection` value of the message
/// lists it.
pub proof fn end_to_end_headers_are_passed_on(
    headers: Seq<HeaderView>,
    h: HeaderView,
    message: Map<Seq<char>, Seq<Seq<u8>>>,
)
    ensures
        passed_on(Seq::empty(), message).len() == 0,
        ({
            let name = text::lower(h.name);
            let stripped = seq![
                "connection"@,
                "keep-alive"@,
                "proxy-authenticate"@,
                "proxy-authorization"@,
                "te"@,
                "trailer"@,
                "transfer-encoding"@,
                "upgrade"@,
            ].contains(name) || (message.dom().contains("connection"@) && lists(
                message["connection"@],
                name,
            ));
            &&& stripped ==> passed_on(headers.push(h), message) == passed_on(headers, message)
            &&& !stripped ==> passed_on(headers.push(h), message) == passed_on(
                headers,
                message,
            ).push(h)
            &&& for_this_hop(message, name) <==> stripped
        }),
{
    let name = text::lower(h.name);
    hop_by_hop_headers_are_these(name);
    let values = fields::values_under(message, "connection"@);
    nominations_are_connection_tokens(values, name);
    if !message.dom().contains("connection"@) {
        assert(!lists(values, name));
    }
    assert(headers.push(h).drop_last() =~= headers);
}

/// An end-to-end header is never stripped: where its name is none of the eight and
/// is not nominated, what is passed on has all of its values, in order. One of the
/// eight, or a nominated one, has none.
pub proof fn end_to_end_headers_keep_their_values(
    headers: Seq<HeaderView>,
    message: Map<Seq<char>, Seq<Seq<u8>>>,
    name: Seq<char>,
)
    ensures
        ({
            let lower = text::lower(name);
            let stripped = seq![
                "connection"@,
                "keep-alive"@,
                "proxy-authenticate"@,
                "proxy-authorization"@,
                "te"@,
                "trailer"@,
                "transfer-encoding"@,
                "upgrade"@,
            ].contains(lower) || (message.dom().contains("connection"@) && lists(
                message["connection"@],
                lower,
            ));
            &&& !stripped ==> fields::values_for(passed_on(headers, message), name)
                == fields::values_for(headers, name)
            &&& stripped ==> fields::values_for(passed_on(headers, message), name).len() == 0
        }),
    decreases headers.len(),
{
    if headers.len() > 0 {
        let fewer = headers.drop_last();
        let h = headers.last();
        end_to_end_headers_keep_their_values(fewer, message, name);
        end_to_end_headers_are_passed_on(fewer, h, message);
        assert(fewer.push(h) =~= headers);
        fields::lemma_values_for_push(fewer, h, name);
        fields::lemma_values_for_push(passed_on(fewer, message), h, name);
    }
}

/// What an agent nominates is what the tokens of its `Connection` headers name.
pub proof fn agents_nominate_by_connection_headers(
    headers: Seq<HeaderView>,
    h: HeaderView,
    name: Seq<char>,
)
    ensures
        !nominated(Seq::empty()).contains(name),
        text::lower(h.name) == "connection"@ ==> (nominated(headers.push(h)).contains(name) <==>
            nominated(headers).contains(name) || lists(seq![h.value], name)),
        text::lower(h.name) != "connection"@ ==> nominated(headers.push(h)) == nominated(headers),
{
    assert(headers.push(h).drop_last() =~= headers);
    let one = seq![h.value];
    nominations_are_connection_tokens(one, name);
    assert(one.drop_last() =~= Seq::empty());
    assert(listed(one.drop_last()) =~= Seq::empty());
    assert(listed(one) =~= listed_in(h.value));
    let before = nominated(headers);
    let here = listed_in(h.value);
    let all = before + here;
    if all.contains(name) {
        let k = choose|k: int| 0 <= k < all.len() && all[k] == name;
        if k < before.len() {
            assert(before[k] == name);
        } else {
            assert(here[k - before.len()] == name);
        }
    }
    if before.contains(name) {
        let k = choose|k: int| 0 <= k < before.len() && before[k] == name;
        assert(all[k] == name);
    }
    if here.contains(name) {
        let k = choose|k: int| 0 <= k < here.len() && here[k] == name;
        assert(all[before.len() + k] == name);
    }
}

/// A header of an agent goes into the response, behind the values that its name
/// already has, exactly where it is none of the eight hop-by-hop headers, the agent
/// did not nominate it, and its name and value are well formed.
pub proof fn well_formed_headers_are_rebuilt(
    headers: Seq<HeaderView>,
    h: HeaderView,
    nominated: Seq<Seq<char>>,
)
    ensures
        collected(Seq::empty(), nominated).dom().is_empty(),
        ({
            let name = text::lower(h.name);
            let kept = !seq![
                "connection"@,
                "keep-alive"@,
                "proxy-authenticate"@,
                "proxy-authorization"@,
                "te"@,
                "trailer"@,
                "transfer-encoding"@,
                "upgrade"@,
            ].contains(name) && !nominated.contains(name) && fields::is_field_name(h.name)
                && fields::is_field_value(h.value);
            &&& kept ==> collected(headers.push(h), nominated) == fields::with_appended(
                collected(headers, nominated),
                name,
                h.value,
            )
            &&& !kept ==> collected(headers.push(h), nominated) == collected(headers, nominated)
        }),
        rebuilt(headers) == collected(headers, self::nominated(headers)),
{
    hop_by_hop_headers_are_these(text::lower(h.name));
    assert(headers.push(h).drop_last() =~= headers);
}

/// Escaping replaces `&`, `<`, `>`, `"` and `'` by their entities, one by one, and
/// nothing else.
pub proof fn escaping_replaces_five_characters(s: Seq<char>, c: char)
    ensures
        escaped(Seq::empty()).len() == 0,
        c == '&' ==> escaped(s.push(c)) == escaped(s) + "&amp;"@,
        c == '<' ==> escaped(s.push(c)) == escaped(s) + "&lt;"@,
        c == '>' ==> escaped(s.push(c)) == escaped(s) + "&gt;"@,
        c == '"' ==> escaped(s.push(c)) == escaped(s) + "&quot;"@,
        c == '\'' ==> escaped(s.push(c)) == escaped(s) + "&#x27;"@,
        c != '&' && c != '<' && c != '>' && c != '"' && c != '\'' ==> escaped(s.push(c))
            == escaped(s).push(c),
{
    assert(s.push(c).drop_last() =~= s);
    if c != '&' && c != '<' && c != '>' && c != '"' && c != '\'' {
        assert(escaped(s) + seq![c] =~= escaped(s).push(c));
    }
}

/// An error page has the status asked for, is HTML that nobody stores, and shows the
/// status, the escaped title and the detail.
pub proof fn error_pages_show_what_they_are_given(
    status: u16,
    title: Seq<char>,
    detail: Seq<char>,
) -> (parts: (Seq<char>, Seq<char>, Seq<char>))
    ensures
        page(status, title, detail).status == status,
        page(status, title, detail).headers.dom() =~= set!["content-type"@, "cache-control"@],
        page(status, title, detail).headers["content-type"@] == seq![
            encode_utf8("text/html; charset=utf-8"@),
        ],
        page(status, title, detail).headers["cache-control"@] == seq![encode_utf8("no-store"@)],
        page(status, title, detail).body == parts.0 + "<title>"@ + text::decimal(status as nat)
            + " "@ + escaped(title) + "</title>"@ + parts.1 + "<h1>"@ + text::decimal(
            status as nat,
        ) + " &middot; "@ + escaped(title) + "</h1><p>"@ + detail + "</p>"@ + parts.2,
        parts.0 == "<!doctype html>\n<html><head><meta charset=\"utf-8\">"@,
        parts.1
            == "<style>body{font:16px/1.6 system-ui,sans-serif;max-width:40rem;margin:6rem auto;padding:0 1.5rem;color:#1a1a1a}"@
            + "h1{font-size:1.4rem;margin:0 0 .5rem}code{background:#f4f4f5;padding:.1rem .3rem;border-radius:.2rem}"@
            + "footer{margin-top:2rem;color:#71717a;font-size:.85rem}</style></head><body>"@,
        parts.2 == "<footer>norupo edge</footer></body></html>\n"@,
{
    reveal_strlit("content-type");
    reveal_strlit("cache-control");
    assert("content-type"@.len() != "cache-control"@.len());
    reveal_strlit("<!doctype html>\n<html><head><meta charset=\"utf-8\"><title>");
    reveal_strlit("<title>");
    reveal_strlit("</title><style>");
    reveal_strlit("</title>");
    reveal_strlit("</style></head><body><h1>");
    reveal_strlit("<h1>");
    reveal_strlit("</p><footer>norupo edge</footer></body></html>\n");
    reveal_strlit("</p>");
    let opening = "<!doctype html>\n<html><head><meta charset=\"utf-8\"><title>"@;
    let first = opening.take(opening.len() - 7);
    assert(opening =~= first + "<title>"@);
    let styled = "</title><style>"@;
    assert(styled =~= "</title>"@ + styled.skip(8));
    let heading = "</style></head><body><h1>"@;
    assert(heading =~= heading.take(heading.len() - 4) + "<h1>"@);
    let closing = "</p><footer>norupo edge</footer></body></html>\n"@;
    assert(closing =~= "</p>"@ + closing.skip(4));
    let css =
        "body{font:16px/1.6 system-ui,sans-serif;max-width:40rem;margin:6rem auto;padding:0 1.5rem;color:#1a1a1a}"@
        + "h1{font-size:1.4rem;margin:0 0 .5rem}code{background:#f4f4f5;padding:.1rem .3rem;border-radius:.2rem}"@
        + "footer{margin-top:2rem;color:#71717a;font-size:.85rem}"@;
    let second = styled.skip(8) + css + heading.take(heading.len() - 4);
    let third = closing.skip(4);
    reveal_strlit("<!doctype html>\n<html><head><meta charset=\"utf-8\">");
    assert(first =~= "<!doctype html>\n<html><head><meta charset=\"utf-8\">"@);
    reveal_strlit("<footer>norupo edge</footer></body></html>\n");
    assert(third =~= "<footer>norupo edge</footer></body></html>\n"@);
    lemma_style(second);
    assert(page_body(status, title, detail) =~= first + "<title>"@ + text::decimal(status as nat)
        + " "@ + escaped(title) + "</title>"@ + second + "<h1>"@ + text::decimal(status as nat)
        + " &middot; "@ + escaped(title) + "</h1><p>"@ + detail + "</p>"@ + third);
    (first, second, third)
}

/// A response is read as it is.
pub proof fn responses_are_read_as_they_are(response: EdgeResponse)
    ensures
        response@.status == response.status,
        response@.headers == fields::fields_of(response.headers),
        response@.body == response.body@,
{
}

/// The style sheet of an error page, put together from its rules.
proof fn lemma_style(styled: Seq<char>)
    requires
        styled == "</title><style>"@.skip(8) + (
        "body{font:16px/1.6 system-ui,sans-serif;max-width:40rem;margin:6rem auto;padding:0 1.5rem;color:#1a1a1a}"@
            + "h1{font-size:1.4rem;margin:0 0 .5rem}code{background:#f4f4f5;padding:.1rem .3rem;border-radius:.2rem}"@
            + "footer{margin-top:2rem;color:#71717a;font-size:.85rem}"@)
            + "</style></head><body><h1>"@.take("</style></head><body><h1>"@.len() - 4),
    ensures
        styled
            == "<style>body{font:16px/1.6 system-ui,sans-serif;max-width:40rem;margin:6rem auto;padding:0 1.5rem;color:#1a1a1a}"@
            + "h1{font-size:1.4rem;margin:0 0 .5rem}code{background:#f4f4f5;padding:.1rem .3rem;border-radius:.2rem}"@
            + "footer{margin-top:2rem;color:#71717a;font-size:.85rem}</style></head><body>"@,
{
    let rules =
        "h1{font-size:1.4rem;margin:0 0 .5rem}code{background:#f4f4f5;padding:.1rem .3rem;border-radius:.2rem}"@;
    let first =
        "body{font:16px/1.6 system-ui,sans-serif;max-width:40rem;margin:6rem auto;padding:0 1.5rem;color:#1a1a1a}"@;
    let last = "footer{margin-top:2rem;color:#71717a;font-size:.85rem}"@;
    let opening = "</title><style>"@.skip(8);
    let closing = "</style></head><body><h1>"@.take("</style></head><body><h1>"@.len() - 4);
    let opened =
        "<style>body{font:16px/1.6 system-ui,sans-serif;max-width:40rem;margin:6rem auto;padding:0 1.5rem;color:#1a1a1a}"@;
    let closed = "footer{margin-top:2rem;color:#71717a;font-size:.85rem}</style></head><body>"@;
    reveal_strlit("</title><style>");
    reveal_strlit("</style></head><body><h1>");
    assert(opened =~= opening + first) by {
        reveal_strlit(
            "body{font:16px/1.6 system-ui,sans-serif;max-width:40rem;margin:6rem auto;padding:0 1.5rem;color:#1a1a1a}",
        );
        reveal_strlit(
            "<style>body{font:16px/1.6 system-ui,sans-serif;max-width:40rem;margin:6rem auto;padding:0 1.5rem;color:#1a1a1a}",
        );
    }
    assert(closed =~= last + closing) by {
        reveal_strlit("footer{margin-top:2rem;color:#71717a;font-size:.85rem}");
        reveal_strlit("footer{margin-top:2rem;color:#71717a;font-size:.85rem}</style></head><body>");
    }
    assert(styled =~= opened + rules + closed);
}

} // verus!
