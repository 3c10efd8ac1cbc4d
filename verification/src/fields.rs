//! Header fields: the operations of the `http` crate's header map, stated over
//! the values that each field name carries.

use bytes::Bytes;
use http::{HeaderMap, HeaderName, HeaderValue};
use vstd::prelude::*;
use vstd::set_lib::lemma_len_subset;
use vstd::string::*;
use vstd::utf8::*;

use crate::proto::{Header, HeaderView};
use crate::proto;
use crate::text;

verus! {

/// A map from field names to one or more values each.
#[verifier::external_type_specification]
#[verifier::external_body]
#[verifier::reject_recursive_types(T)]
pub struct ExHeaderMap<T>(http::HeaderMap<T>);

/// A field value.
#[verifier::external_type_specification]
#[verifier::external_body]
pub struct ExHeaderValue(http::HeaderValue);

/// The values that each field name of a header map carries, in the order in
/// which they were added.
pub uninterp spec fn fields_of(m: HeaderMap) -> Map<Seq<char>, Seq<Seq<u8>>>;

/// The fields of a header map in the order in which they are walked, one for each
/// value. It is that of the map's own list of entries, whatever its hasher does.
pub uninterp spec fn listing_of(m: HeaderMap) -> Seq<HeaderView>;

/// Number of field names up to which a header map takes another field for
/// certain. Beyond it, the map may refuse to grow.
pub const SAFE_FIELDS: usize = 6553;

/// Whether a character may stand in a token, such as a field name or a method.
pub open spec fn token_char(c: char) -> bool {
    ||| 'a' <= c <= 'z'
    ||| 'A' <= c <= 'Z'
    ||| '0' <= c <= '9'
    ||| c == '!' || c == '#' || c == '$' || c == '%' || c == '&' || c == '\''
    ||| c == '*' || c == '+' || c == '-' || c == '.'
    ||| c == '^' || c == '_' || c == '`' || c == '|' || c == '~'
}

/// Whether a text is a token: not empty, and of token characters.
pub open spec fn is_token(s: Seq<char>) -> bool {
    s.len() > 0 && forall|i: int| 0 <= i < s.len() ==> token_char(#[trigger] s[i])
}

/// Whether a text may name a field: a token of at most 65535 characters.
pub open spec fn is_field_name(s: Seq<char>) -> bool {
    is_token(s) && s.len() <= 65535
}

/// Whether a name is written as header maps store it.
pub open spec fn is_stored_name(s: Seq<char>) -> bool {
    is_field_name(s) && text::lower(s) == s
}

/// Whether bytes may stand in a field value: no control character but the tab,
/// so neither a carriage return nor a line feed.
pub open spec fn is_field_value(v: Seq<u8>) -> bool {
    forall|i: int| 0 <= i < v.len() ==> (#[trigger] v[i] >= 32 && v[i] != 127) || v[i] == 9
}

/// No fields.
pub open spec fn nothing() -> Map<Seq<char>, Seq<Seq<u8>>> {
    Map::empty()
}

/// The fields of a map with one more value under a name.
pub open spec fn with_appended(
    fields: Map<Seq<char>, Seq<Seq<u8>>>,
    name: Seq<char>,
    value: Seq<u8>,
) -> Map<Seq<char>, Seq<Seq<u8>>> {
    if fields.dom().contains(name) {
        fields.insert(name, fields[name].push(value))
    } else {
        fields.insert(name, seq![value])
    }
}

/// The values under a name; none where the name is absent.
pub open spec fn values_under(fields: Map<Seq<char>, Seq<Seq<u8>>>, name: Seq<char>) -> Seq<
    Seq<u8>,
> {
    if fields.dom().contains(name) {
        fields[name]
    } else {
        Seq::empty()
    }
}

/// The values that a list of headers gives under exactly this name, in order.
pub open spec fn values_for(headers: Seq<HeaderView>, name: Seq<char>) -> Seq<Seq<u8>>
    decreases headers.len(),
{
    if headers.len() == 0 {
        Seq::empty()
    } else if headers.last().name == name {
        values_for(headers.drop_last(), name).push(headers.last().value)
    } else {
        values_for(headers.drop_last(), name)
    }
}

/// Lists of bytes by their contents.
pub open spec fn byte_lists(v: Seq<Vec<u8>>) -> Seq<Seq<u8>> {
    Seq::new(v.len(), |i: int| v[i]@)
}

/// Calls `HeaderMap::new`. Trusted: the map holds no field.
#[verifier::external_body]
pub(crate) fn no_fields() -> (r: HeaderMap)
    ensures
        fields_of(r) == nothing(),
{
    HeaderMap::new()
}

/// Calls `HeaderMap::try_append`, with the name read by `HeaderName::try_from`
/// and the value by `HeaderValue::from_bytes`. Trusted: an invalid name or value
/// is refused; a valid one is added behind the values that the lower-case name
/// already has, for certain while there are no more names than `SAFE_FIELDS`;
/// a refusal leaves the map as it was.
#[verifier::external_body]
pub(crate) fn append(map: &mut HeaderMap, name: &str, value: &[u8]) -> (r: bool)
    ensures
        r ==> is_field_name(name@) && is_field_value(value@),
        is_field_name(name@) && is_field_value(value@) && roomy(*old(map)) ==> r,
        r ==> fields_of(*final(map)) == with_appended(
            fields_of(*old(map)),
            text::lower(name@),
            value@,
        ),
        !r ==> fields_of(*final(map)) == fields_of(*old(map)),
{
    match (HeaderName::try_from(name), HeaderValue::from_bytes(value)) {
        (Ok(name), Ok(value)) => map.try_append(name, value).is_ok(),
        _ => false,
    }
}

/// Calls `HeaderMap::try_insert`, with the name read by `HeaderName::try_from`
/// and the value by `HeaderValue::from_bytes`. Trusted: as for `append`, but the
/// value replaces those that the name already has.
#[verifier::external_body]
pub(crate) fn insert(map: &mut HeaderMap, name: &str, value: &[u8]) -> (r: bool)
    ensures
        r ==> is_field_name(name@) && is_field_value(value@),
        is_field_name(name@) && is_field_value(value@) && roomy(*old(map)) ==> r,
        r ==> fields_of(*final(map)) == fields_of(*old(map)).insert(
            text::lower(name@),
            seq![value@],
        ),
        !r ==> fields_of(*final(map)) == fields_of(*old(map)),
{
    match (HeaderName::try_from(name), HeaderValue::from_bytes(value)) {
        (Ok(name), Ok(value)) => map.try_insert(name, value).is_ok(),
        _ => false,
    }
}

/// Calls `HeaderMap::get_all`. Trusted: the values under the name, in the order
/// in which they were added.
#[verifier::external_body]
pub(crate) fn get_all(map: &HeaderMap, name: &str) -> (r: Vec<Vec<u8>>)
    requires
        is_stored_name(name@),
    ensures
        byte_lists(r@) == values_under(fields_of(*map), name@),
{
    map.get_all(name).iter().map(|value| value.as_bytes().to_vec()).collect()
}

/// Calls `HeaderMap::get`. Trusted: the first value under the name, of which
/// there is one where the name is present.
#[verifier::external_body]
pub(crate) fn get(map: &HeaderMap, name: &str) -> (r: Option<Vec<u8>>)
    requires
        is_stored_name(name@),
    ensures
        match r {
            Some(value) => fields_of(*map).dom().contains(name@) && fields_of(*map)[name@].len() > 0
                && value@ == fields_of(*map)[name@][0],
            None => !fields_of(*map).dom().contains(name@),
        },
{
    map.get(name).map(|value| value.as_bytes().to_vec())
}

/// Calls `HeaderMap::contains_key`. Trusted: whether the name is present.
#[verifier::external_body]
pub(crate) fn contains(map: &HeaderMap, name: &str) -> (r: bool)
    requires
        is_stored_name(name@),
    ensures
        r == fields_of(*map).dom().contains(name@),
{
    map.contains_key(name)
}

/// Calls `HeaderMap::iter`. Trusted: walking a map gives its listing; in it every
/// name stands once for each of its values, in the order in which they were added.
/// In which order the names come, is left open.
#[verifier::external_body]
pub(crate) fn all(map: &HeaderMap) -> (r: Vec<Header>)
    ensures
        proto::header_views(r@) == listing_of(*map),
        forall|name: Seq<char>| #[trigger]
            values_for(proto::header_views(r@), name) == values_under(fields_of(*map), name),
{
    let pair = |(name, value): (&HeaderName, &HeaderValue)| Header {
        name: name.as_str().to_string(),
        value: Bytes::copy_from_slice(value.as_bytes()),
    };
    map.iter().map(pair).collect()
}

/// The values for a name after one more header.
pub proof fn lemma_values_for_push(headers: Seq<HeaderView>, h: HeaderView, name: Seq<char>)
    ensures
        values_for(headers.push(h), name) == if h.name == name {
            values_for(headers, name).push(h.value)
        } else {
            values_for(headers, name)
        },
{
    assert(headers.push(h).drop_last() =~= headers);
}

/// The text of visible bytes: printable ASCII and tabs.
pub open spec fn is_visible(v: Seq<u8>) -> bool {
    forall|i: int| 0 <= i < v.len() ==> 32 <= #[trigger] v[i] < 127 || v[i] == 9
}

/// ASCII bytes as characters.
pub open spec fn ascii_text(v: Seq<u8>) -> Seq<char> {
    Seq::new(v.len(), |i: int| v[i] as char)
}

/// The text of a field value, where all of it is visible ASCII.
pub fn visible_text(value: &[u8]) -> (r: Option<String>)
    ensures
        match r {
            Some(s) => is_visible(value@) && s@ == ascii_text(value@),
            None => !is_visible(value@),
        },
{
    let mut out: String = String::new();
    let mut i: usize = 0;
    while i < value.len()
        invariant
            i <= value@.len(),
            forall|k: int| 0 <= k < i ==> 32 <= #[trigger] value@[k] < 127 || value@[k] == 9,
            out@ == ascii_text(value@.take(i as int)),
        decreases value@.len() - i,
    {
        let b: u8 = value[i];
        if !((32 <= b && b < 127) || b == 9) {
            assert(!(32 <= value@[i as int] < 127 || value@[i as int] == 9));
            return None;
        }
        out.push(b as char);
        assert(ascii_text(value@.take(i as int + 1)) =~= ascii_text(value@.take(i as int)).push(
            value@[i as int] as char,
        ));
        i = i + 1;
    }
    assert(value@.take(value@.len() as int) =~= value@);
    Some(out)
}

/// Printable text is a valid field value, byte for character.
pub proof fn lemma_printable_value(s: Seq<char>)
    requires
        forall|i: int| 0 <= i < s.len() ==> ' ' <= #[trigger] s[i] <= '~' || s[i] == '\t',
    ensures
        is_field_value(encode_utf8(s)),
        is_visible(encode_utf8(s)),
        ascii_text(encode_utf8(s)) == s,
{
    assert(is_ascii_chars(s));
    is_ascii_chars_encode_utf8(s);
    let v = encode_utf8(s);
    assert forall|i: int| 0 <= i < v.len() implies 32 <= #[trigger] v[i] < 127 || v[i] == 9 by {
        assert(s[i] as u8 == v[i]);
        assert(' ' <= s[i] <= '~' || s[i] == '\t');
    }
    assert(ascii_text(v) =~= s);
}

/// Whether fields have so few names that a header map with them takes another
/// field for certain.
pub open spec fn fits(fields: Map<Seq<char>, Seq<Seq<u8>>>) -> bool {
    fields.dom().finite() && fields.dom().len() <= SAFE_FIELDS
}

/// Whether a header map takes another field for certain.
pub open spec fn roomy(map: HeaderMap) -> bool {
    fits(fields_of(map))
}

/// What fits, fits with fewer names.
pub proof fn lemma_fits_with_fewer(
    fewer: Map<Seq<char>, Seq<Seq<u8>>>,
    fields: Map<Seq<char>, Seq<Seq<u8>>>,
)
    requires
        fewer.dom().subset_of(fields.dom()),
        fits(fields),
    ensures
        fits(fewer),
{
    lemma_len_subset(fewer.dom(), fields.dom());
}

/// What is wrong with a text as a URI, in the words of the `http` crate; `None`
/// where nothing is.
pub uninterp spec fn uri_fault(text: Seq<char>) -> Option<Seq<char>>;

/// Calls `Uri::from_str`. Trusted: whether it fails, and in which words, is a
/// function of the text, which `uri_fault` names.
#[verifier::external_body]
pub(crate) fn check_uri(text: &str) -> (r: Option<String>)
    ensures
        text::optional(r) == uri_fault(text@),
{
    text.parse::<http::Uri>().err().map(|fault| fault.to_string())
}

/// A value that is added comes behind those its name already has, and no other name
/// notices.
pub proof fn added_values_come_last(
    fields: Map<Seq<char>, Seq<Seq<u8>>>,
    name: Seq<char>,
    value: Seq<u8>,
    other: Seq<char>,
)
    requires
        other != name,
    ensures
        with_appended(fields, name, value).dom().contains(name),
        values_under(with_appended(fields, name, value), name) == values_under(fields, name).push(
            value,
        ),
        with_appended(fields, name, value).dom().contains(other) <==> fields.dom().contains(other),
        values_under(with_appended(fields, name, value), other) == values_under(fields, other),
        fields.dom().contains(other) ==> values_under(fields, other) == fields[other],
        !fields.dom().contains(other) ==> values_under(fields, other).len() == 0,
        !nothing().dom().contains(name),
{
    if !fields.dom().contains(name) {
        assert(seq![value] =~= Seq::<Seq<u8>>::empty().push(value));
    }
}

/// The values that a list gives under a name are those of its headers of that name,
/// in order.
pub proof fn values_are_listed_in_order(headers: Seq<HeaderView>, h: HeaderView, name: Seq<char>)
    ensures
        values_for(Seq::empty(), name).len() == 0,
        h.name == name ==> values_for(headers.push(h), name) == values_for(headers, name).push(
            h.value,
        ),
        h.name != name ==> values_for(headers.push(h), name) == values_for(headers, name),
{
    lemma_values_for_push(headers, h, name);
}

/// A field name is made of letters, digits and fifteen other characters, and is not
/// empty.
pub proof fn field_names_are_tokens(s: Seq<char>)
    ensures
        is_field_name(s) <==> 1 <= s.len() <= 65535 && forall|i: int|
            0 <= i < s.len() ==> {
                ||| 'a' <= #[trigger] s[i] <= 'z' || 'A' <= s[i] <= 'Z' || '0' <= s[i] <= '9'
                ||| s[i] == '!' || s[i] == '#' || s[i] == '$' || s[i] == '%' || s[i] == '&'
                ||| s[i] == '\'' || s[i] == '*' || s[i] == '+' || s[i] == '-' || s[i] == '.'
                ||| s[i] == '^' || s[i] == '_' || s[i] == '`' || s[i] == '|' || s[i] == '~'
            },
        is_token(s) && s.len() <= 65535 <==> is_field_name(s),
{
    if is_field_name(s) {
        assert forall|i: int| 0 <= i < s.len() implies {
            ||| 'a' <= #[trigger] s[i] <= 'z' || 'A' <= s[i] <= 'Z' || '0' <= s[i] <= '9'
            ||| s[i] == '!' || s[i] == '#' || s[i] == '$' || s[i] == '%' || s[i] == '&'
            ||| s[i] == '\'' || s[i] == '*' || s[i] == '+' || s[i] == '-' || s[i] == '.'
            ||| s[i] == '^' || s[i] == '_' || s[i] == '`' || s[i] == '|' || s[i] == '~'
        } by {
            assert(token_char(s[i]));
        }
    }
}

/// A field value holds no control byte but the tab. It is text where all of it is
/// printable ASCII or tabs, and the text then has a character for each byte.
pub proof fn field_values_hold_no_control_bytes(v: Seq<u8>, i: int)
    requires
        0 <= i < v.len(),
    ensures
        is_field_value(v) ==> v[i] >= 32 && v[i] != 127 || v[i] == 9,
        (forall|k: int| 0 <= k < v.len() ==> #[trigger] v[k] >= 32 && v[k] != 127 || v[k] == 9)
            ==> is_field_value(v),
        is_visible(v) ==> 32 <= v[i] <= 126 || v[i] == 9,
        (forall|k: int| 0 <= k < v.len() ==> 32 <= #[trigger] v[k] <= 126 || v[k] == 9)
            ==> is_visible(v),
        ascii_text(v).len() == v.len(),
        v[i] < 128 ==> ascii_text(v)[i] as int == v[i] as int,
{
}

/// Header maps store a name in lower case, and only that is a stored name.
pub proof fn names_are_stored_in_lower_case(name: Seq<char>)
    ensures
        is_stored_name(name) <==> is_field_name(name) && forall|i: int|
            0 <= i < name.len() ==> !('A' <= #[trigger] name[i] <= 'Z'),
{
    if text::lower(name) == name {
        assert forall|i: int| 0 <= i < name.len() implies !('A' <= #[trigger] name[i] <= 'Z') by {
            text::lower_case_moves_only_letters(name, i);
        }
    }
    if forall|i: int| 0 <= i < name.len() ==> !('A' <= #[trigger] name[i] <= 'Z') {
        assert(text::lower(name) =~= name);
    }
}

/// Lists of bytes are read one by one.
pub proof fn byte_lists_are_read_one_by_one(v: Seq<Vec<u8>>, i: int)
    ensures
        byte_lists(v).len() == v.len(),
        0 <= i < v.len() ==> byte_lists(v)[i] == v[i]@,
{
}

} // verus!
