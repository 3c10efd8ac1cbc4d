//! IPv6 addresses in text form, in lower case (RFC 4291, section 2.2).

use vstd::prelude::*;
use vstd::string::*;

use crate::text;

verus! {

/// Number of groups in an address.
pub const GROUPS: usize = 8;

/// Whether a character is a hexadecimal digit in lower case.
pub open spec fn hex_digit(c: char) -> bool {
    text::is_digit(c) || 'a' <= c <= 'f'
}

/// Whether a text is one group: one to four hexadecimal digits.
pub open spec fn is_group(s: Seq<char>) -> bool {
    1 <= s.len() <= 4 && forall|i: int| 0 <= i < s.len() ==> hex_digit(#[trigger] s[i])
}

/// Whether a text is a decimal number of at most 255, without leading zeros.
pub open spec fn is_octet(s: Seq<char>) -> bool {
    &&& 1 <= s.len() <= 3
    &&& text::all_digits(s)
    &&& text::digits_value(s) <= 255
    &&& s.len() > 1 ==> s[0] != '0'
}

/// Whether a text is an IPv4 address: four numbers with dots between them.
pub open spec fn is_dotted(s: Seq<char>) -> bool {
    let numbers = text::split(s, '.');
    numbers.len() == 4 && forall|i: int| 0 <= i < numbers.len() ==> is_octet(#[trigger] numbers[i])
}

/// Whether every text in a list but the last is a group.
pub open spec fn leading_groups(parts: Seq<Seq<char>>) -> bool {
    forall|i: int| 0 <= i < parts.len() - 1 ==> is_group(#[trigger] parts[i])
}

/// How many groups a text stands for, with a colon between any two; `None` where
/// it is no such list, or too long a one for an address. At the end of an address
/// the last two groups may be written as an IPv4 address.
pub open spec fn width(s: Seq<char>, at_end: bool) -> Option<nat> {
    let parts = text::split(s, ':');
    if s.len() == 0 {
        Some(0)
    } else if parts.len() > GROUPS || !leading_groups(parts) {
        None
    } else if is_group(parts.last()) {
        Some(parts.len())
    } else if at_end && is_dotted(parts.last()) {
        Some(parts.len() + 1)
    } else {
        None
    }
}

/// Index of the first pair of colons, or the length where there is none.
pub open spec fn gap(s: Seq<char>) -> nat
    decreases s.len(),
{
    if s.len() < 2 {
        s.len()
    } else if s[0] == ':' && s[1] == ':' {
        0
    } else {
        1 + gap(s.skip(1))
    }
}

/// Whether a text is an IPv6 address: eight groups, or fewer around one pair of
/// colons that stands for those left out.
pub open spec fn is_address(s: Seq<char>) -> bool {
    let k = gap(s) as int;
    if k >= s.len() {
        width(s, true) == Some(GROUPS as nat)
    } else {
        match (width(s.take(k), false), width(s.skip(k + 2), true)) {
            (Some(left), Some(right)) => left + right < GROUPS,
            _ => false,
        }
    }
}

/// The first pair of colons lies inside the text.
proof fn lemma_gap(s: Seq<char>)
    ensures
        gap(s) <= s.len(),
        gap(s) < s.len() ==> gap(s) + 2 <= s.len() && s[gap(s) as int] == ':' && s[gap(s) as int
            + 1] == ':',
    decreases s.len(),
{
    if s.len() >= 2 && !(s[0] == ':' && s[1] == ':') {
        lemma_gap(s.skip(1));
    }
}

/// Whether a text is one group.
fn check_group(s: &str) -> (r: bool)
    ensures
        r == is_group(s@),
{
    let chars = text::chars_of(s);
    if chars.len() < 1 || chars.len() > 4 {
        return false;
    }
    let mut i: usize = 0;
    while i < chars.len()
        invariant
            i <= chars@.len(),
            chars@ == s@,
            forall|k: int| 0 <= k < i ==> hex_digit(#[trigger] s@[k]),
        decreases chars@.len() - i,
    {
        let c = chars[i];
        if !(('0' <= c && c <= '9') || ('a' <= c && c <= 'f')) {
            assert(!hex_digit(s@[i as int]));
            return false;
        }
        i = i + 1;
    }
    true
}

/// Whether a text is a decimal number of at most 255, without leading zeros.
fn check_octet(s: &str) -> (r: bool)
    ensures
        r == is_octet(s@),
{
    let chars = text::chars_of(s);
    if chars.len() < 1 || chars.len() > 3 || !text::only_digits(s) {
        return false;
    }
    assert(text::is_digit(s@[0]));
    if chars.len() > 1 && chars[0] == '0' {
        return false;
    }
    match text::parse_port(s) {
        Some(number) => number <= 255,
        None => false,
    }
}

/// Whether a text is an IPv4 address.
fn check_dotted(s: &str) -> (r: bool)
    ensures
        r == is_dotted(s@),
{
    let numbers = text::split_at_char(s, '.');
    let ghost seen = text::split(s@, '.');
    if numbers.len() != 4 {
        return false;
    }
    let mut i: usize = 0;
    while i < numbers.len()
        invariant
            i <= numbers@.len(),
            text::texts(numbers@) == seen,
            seen == text::split(s@, '.'),
            forall|k: int| 0 <= k < i ==> is_octet(#[trigger] seen[k]),
        decreases numbers@.len() - i,
    {
        assert(seen[i as int] == numbers@[i as int]@);
        if !check_octet(numbers[i].as_str()) {
            return false;
        }
        i = i + 1;
    }
    true
}

/// How many groups a text stands for.
fn count_groups(s: &str, at_end: bool) -> (r: Option<usize>)
    ensures
        match width(s@, at_end) {
            Some(n) => r matches Some(m) && m == n,
            None => r is None,
        },
{
    let parts = text::split_at_char(s, ':');
    let ghost seen = text::split(s@, ':');
    let n: usize = parts.len();
    if s.unicode_len() == 0 {
        return Some(0);
    }
    if n > GROUPS {
        return None;
    }
    let mut i: usize = 0;
    while i + 1 < n
        invariant
            1 <= n == parts@.len(),
            n <= GROUPS,
            i < n,
            text::texts(parts@) == seen,
            seen == text::split(s@, ':'),
            s@.len() > 0,
            forall|k: int| 0 <= k < i ==> is_group(#[trigger] seen[k]),
        decreases n - i,
    {
        assert(seen[i as int] == parts@[i as int]@);
        if !check_group(parts[i].as_str()) {
            assert(!leading_groups(seen));
            return None;
        }
        i = i + 1;
    }
    assert(leading_groups(seen));
    assert(seen.last() == parts@[n - 1]@);
    if check_group(parts[n - 1].as_str()) {
        Some(n)
    } else if at_end && check_dotted(parts[n - 1].as_str()) {
        Some(n + 1)
    } else {
        None
    }
}

/// Whether a text is an IPv6 address.
pub fn check_address(s: &str) -> (r: bool)
    ensures
        r == is_address(s@),
{
    let chars = text::chars_of(s);
    let n: usize = chars.len();
    let mut k: usize = 0;
    assert(s@.skip(0) == s@);
    while k < n && !(k + 1 < n && chars[k] == ':' && chars[k + 1] == ':')
        invariant
            k <= n == chars@.len(),
            chars@ == s@,
            gap(s@) == k + gap(s@.skip(k as int)),
        decreases n - k,
    {
        assert(s@.skip(k as int).skip(1) == s@.skip(k as int + 1));
        k = k + 1;
    }
    if k >= n {
        return match count_groups(s, true) {
            Some(groups) => groups == GROUPS,
            None => false,
        };
    }
    let left = s.substring_char(0, k);
    let right = s.substring_char(k + 2, n);
    assert(left@ == s@.take(k as int));
    assert(right@ == s@.skip(k as int + 2));
    match (count_groups(left, false), count_groups(right, true)) {
        (Some(a), Some(b)) => a < GROUPS && b < GROUPS - a,
        _ => false,
    }
}

/// Whether a character may stand in an address.
pub open spec fn address_char(c: char) -> bool {
    hex_digit(c) || c == ':' || c == '.'
}

/// A list of groups is made of address characters, and is short.
proof fn lemma_width(s: Seq<char>, at_end: bool)
    requires
        width(s, at_end) is Some,
    ensures
        forall|i: int| 0 <= i < s.len() ==> address_char(#[trigger] s[i]),
        s.len() <= 16 * width(s, at_end)->0,
{
    if s.len() > 0 {
        let parts = text::split(s, ':');
        assert forall|i: int| 0 <= i < parts.len() implies (#[trigger] parts[i]).len() <= 15 && (
        forall|j: int| 0 <= j < parts[i].len() ==> address_char(#[trigger] parts[i][j])) by {
            if !is_group(parts[i]) {
                assert(i == parts.len() - 1);
                lemma_dotted(parts[i]);
            }
        }
        text::lemma_split_chars(s, ':', |c: char| address_char(c));
        text::lemma_split_len(s, ':', 15);
        let n = parts.len();
        assert((15 + 1) * n == 16 * n) by (nonlinear_arith);
    }
}

/// An IPv4 address is made of digits and dots, and is short.
proof fn lemma_dotted(s: Seq<char>)
    requires
        is_dotted(s),
    ensures
        forall|i: int| 0 <= i < s.len() ==> address_char(#[trigger] s[i]),
        s.len() <= 15,
{
    let numbers = text::split(s, '.');
    assert forall|i: int, j: int|
        0 <= i < numbers.len() && 0 <= j < numbers[i].len() implies address_char(
        #[trigger] numbers[i][j],
    ) by {
        assert(is_octet(numbers[i]));
        assert(text::is_digit(numbers[i][j]));
    }
    text::lemma_split_chars(s, '.', |c: char| address_char(c));
    text::lemma_split_len(s, '.', 3);
}

/// An address is made of address characters, and shorter than a hostname may be.
pub proof fn lemma_address(s: Seq<char>)
    requires
        is_address(s),
    ensures
        forall|i: int| 0 <= i < s.len() ==> address_char(#[trigger] s[i]),
        s.len() <= 130,
{
    lemma_gap(s);
    let k = gap(s) as int;
    if k >= s.len() {
        lemma_width(s, true);
    } else {
        let left = s.take(k);
        let right = s.skip(k + 2);
        lemma_width(left, false);
        lemma_width(right, true);
        assert forall|i: int| 0 <= i < s.len() implies address_char(#[trigger] s[i]) by {
            if i < k {
                assert(left[i] == s[i]);
            } else if i >= k + 2 {
                assert(right[i - k - 2] == s[i]);
            }
        }
    }
}

/// A group is one to four hexadecimal digits, and a number of an IPv4 address is a
/// decimal one of at most 255 without leading zeros.
pub proof fn groups_are_hexadecimal(s: Seq<char>, n: nat)
    ensures
        is_group(s) <==> 1 <= s.len() <= 4 && forall|i: int|
            0 <= i < s.len() ==> '0' <= #[trigger] s[i] <= '9' || 'a' <= s[i] <= 'f',
        is_octet(text::decimal(n)) <==> n <= 255,
        is_octet(s) ==> s == text::decimal(text::digits_value(s)),
{
    if is_group(s) {
        assert forall|i: int| 0 <= i < s.len() implies '0' <= #[trigger] s[i] <= '9' || 'a' <= s[i]
            <= 'f' by {
            assert(hex_digit(s[i]));
        }
    }
    if 1 <= s.len() <= 4 && forall|i: int|
        0 <= i < s.len() ==> '0' <= #[trigger] s[i] <= '9' || 'a' <= s[i] <= 'f' {
        assert forall|i: int| 0 <= i < s.len() implies hex_digit(#[trigger] s[i]) by {}
    }
    text::lemma_decimal(n);
    text::decimals_have_no_leading_zero(n);
    if n < 10 {
        assert(text::decimal(n).len() == 1);
    } else if n < 100 {
        assert(text::decimal(n / 10).len() == 1);
    } else if n < 1000 {
        assert(text::decimal(n / 10 / 10).len() == 1);
        assert(text::decimal(n / 10).len() == 2);
    }
    if is_octet(s) {
        lemma_digits_are_decimal(s);
    }
}

/// Digits without a leading zero are the decimal notation of what they denote.
proof fn lemma_digits_are_decimal(s: Seq<char>)
    requires
        s.len() > 0,
        text::all_digits(s),
        s.len() > 1 ==> s[0] != '0',
    ensures
        s == text::decimal(text::digits_value(s)),
        s[0] != '0' ==> text::digits_value(s) > 0,
    decreases s.len(),
{
    let head = s.drop_last();
    let d = s.last() as int - 48;
    assert(text::is_digit(s[s.len() - 1]));
    if s.len() == 1 {
        assert(text::digits_value(head) == 0);
        assert(s =~= seq![text::digit(text::digits_value(s))]);
    } else {
        assert forall|i: int| 0 <= i < head.len() implies text::is_digit(#[trigger] head[i]) by {
            assert(text::is_digit(s[i]));
        }
        lemma_digits_are_decimal(head);
        let v = text::digits_value(head);
        assert(text::digits_value(s) == v * 10 + d);
        assert(s =~= text::decimal(v).push(text::digit(d as nat)));
    }
}

/// Four numbers of at most 255 with dots between them are an IPv4 address, and
/// nothing else is.
pub proof fn four_numbers_make_a_dotted_address(numbers: Seq<Seq<char>>)
    requires
        numbers.len() >= 1,
        forall|i: int| 0 <= i < numbers.len() ==> !(#[trigger] numbers[i]).contains('.'),
    ensures
        is_dotted(text::joined(numbers, '.')) <==> numbers.len() == 4 && forall|i: int|
            0 <= i < 4 ==> is_octet(#[trigger] numbers[i]),
{
    text::joining_undoes_splitting(numbers, '.');
}

/// Groups with colons between them hold no pair of colons, and neither begin nor
/// end with one.
proof fn lemma_groups_without_gap(parts: Seq<Seq<char>>, tail: Seq<char>)
    requires
        parts.len() >= 1,
        forall|i: int|
            0 <= i < parts.len() ==> (#[trigger] parts[i]).len() > 0 && !parts[i].contains(':'),
        tail.len() == 0 || (tail.len() >= 2 && tail[0] == ':' && tail[1] == ':'),
    ensures
        gap(text::joined(parts, ':') + tail) == text::joined(parts, ':').len(),
        text::joined(parts, ':').len() > 0,
        text::joined(parts, ':')[0] != ':',
    decreases parts.len(), parts[0].len(),
{
    let s = text::joined(parts, ':');
    let first = parts[0];
    assert(first.len() > 0 && !first.contains(':'));
    assert(first.contains(first[0]));
    assert(s[0] == first[0]);
    let all = s + tail;
    if first.len() > 1 {
        let shorter = parts.update(0, first.skip(1));
        assert forall|i: int| 0 <= i < shorter.len() implies (#[trigger] shorter[i]).len() > 0
            && !shorter[i].contains(':') by {
            if i == 0 {
                if first.skip(1).contains(':') {
                    let k = choose|k: int| 0 <= k < first.skip(1).len() && first.skip(1)[k] == ':';
                    assert(first[k + 1] == ':');
                }
            } else {
                assert(shorter[i] == parts[i]);
            }
        }
        lemma_groups_without_gap(shorter, tail);
        assert(shorter.skip(1) =~= parts.skip(1));
        assert(text::joined(shorter, ':') =~= s.skip(1));
        assert(all.skip(1) =~= text::joined(shorter, ':') + tail);
        if all.len() >= 2 {
            assert(gap(all) == 1 + gap(all.skip(1)));
        }
    } else if parts.len() == 1 {
        assert(s == first);
        assert(all.skip(1) =~= tail);
        if tail.len() == 0 {
            assert(all =~= first);
        } else {
            assert(gap(tail) == 0);
            assert(gap(all) == 1 + gap(all.skip(1)));
        }
    } else {
        let rest = parts.skip(1);
        assert forall|i: int| 0 <= i < rest.len() implies (#[trigger] rest[i]).len() > 0
            && !rest[i].contains(':') by {
            assert(rest[i] == parts[i + 1]);
        }
        lemma_groups_without_gap(rest, tail);
        let more = text::joined(rest, ':');
        assert(s =~= first + seq![':'] + more);
        assert(all.skip(1) =~= seq![':'] + more + tail);
        assert(all.skip(1).skip(1) =~= more + tail);
        assert((more + tail)[0] == more[0]);
        assert(all[1] == ':' && all.skip(1)[1] == more[0]);
        assert(gap(all.skip(1)) == 1 + gap(more + tail));
        assert(gap(all) == 1 + gap(all.skip(1)));
    }
}

/// A group holds no colon.
proof fn lemma_group_without_colon(s: Seq<char>)
    requires
        is_group(s) || is_dotted(s),
    ensures
        s.len() > 0,
        !s.contains(':'),
{
    if is_group(s) {
        if s.contains(':') {
            let k = choose|k: int| 0 <= k < s.len() && s[k] == ':';
            assert(hex_digit(s[k]));
        }
    } else {
        let numbers = text::split(s, '.');
        assert forall|i: int, j: int|
            0 <= i < numbers.len() && 0 <= j < numbers[i].len() implies text::is_digit(
            #[trigger] numbers[i][j],
        ) by {
            assert(is_octet(numbers[i]));
        }
        assert forall|i: int| 0 <= i < numbers.len() implies (#[trigger] numbers[i]).len() > 0 by {
            assert(is_octet(numbers[i]));
        }
        text::lemma_split_ends(s, '.');
        text::lemma_split_chars(s, '.', |c: char| text::is_digit(c));
        if s.contains(':') {
            let k = choose|k: int| 0 <= k < s.len() && s[k] == ':';
            assert(s[k] == '.' || text::is_digit(s[k]));
        }
    }
}

/// An IPv4 address is no group: it holds a dot.
proof fn lemma_dotted_is_no_group(s: Seq<char>)
    requires
        is_dotted(s),
    ensures
        !is_group(s),
{
    if is_group(s) {
        if s.contains('.') {
            let k = choose|k: int| 0 <= k < s.len() && s[k] == '.';
            assert(hex_digit(s[k]));
        }
        text::lemma_split_single(s, '.');
    }
}

/// Eight groups with colons between them are an address; the last two of them may be
/// written as an IPv4 address.
pub proof fn eight_groups_make_an_address(groups: Seq<Seq<char>>)
    requires
        7 <= groups.len() <= 8,
        forall|i: int| 0 <= i < groups.len() - 1 ==> is_group(#[trigger] groups[i]),
        groups.len() == 8 ==> is_group(groups.last()),
        groups.len() == 7 ==> is_dotted(groups.last()),
    ensures
        is_address(text::joined(groups, ':')),
{
    assert forall|i: int| 0 <= i < groups.len() implies (#[trigger] groups[i]).len() > 0
        && !groups[i].contains(':') by {
        if i == groups.len() - 1 {
            assert(groups[i] == groups.last());
        }
        lemma_group_without_colon(groups[i]);
    }
    if groups.len() == 7 {
        lemma_dotted_is_no_group(groups.last());
    }
    let s = text::joined(groups, ':');
    lemma_groups_without_gap(groups, Seq::empty());
    assert(s + Seq::<char>::empty() =~= s);
    text::joining_undoes_splitting(groups, ':');
}

/// Fewer than eight groups around one pair of colons are an address; the last two of
/// them may be written as an IPv4 address.
pub proof fn a_pair_of_colons_stands_for_what_is_left_out(
    left: Seq<Seq<char>>,
    right: Seq<Seq<char>>,
)
    requires
        left.len() + right.len() < 8,
        forall|i: int| 0 <= i < left.len() ==> is_group(#[trigger] left[i]),
        forall|i: int| 0 <= i < right.len() - 1 ==> is_group(#[trigger] right[i]),
        right.len() > 0 ==> is_group(right.last()) || (is_dotted(right.last()) && left.len()
            + right.len() < 7),
    ensures
        is_address(text::joined(left, ':') + seq![':', ':'] + text::joined(right, ':')),
{
    let a = text::joined(left, ':');
    let b = text::joined(right, ':');
    let s = a + seq![':', ':'] + b;
    let tail = seq![':', ':'] + b;
    assert(s =~= a + tail);
    assert forall|i: int| 0 <= i < left.len() implies (#[trigger] left[i]).len() > 0
        && !left[i].contains(':') by {
        lemma_group_without_colon(left[i]);
    }
    assert forall|i: int| 0 <= i < right.len() implies (#[trigger] right[i]).len() > 0
        && !right[i].contains(':') by {
        if i == right.len() - 1 {
            assert(right[i] == right.last());
        }
        lemma_group_without_colon(right[i]);
    }
    if left.len() > 0 {
        lemma_groups_without_gap(left, tail);
        text::joining_undoes_splitting(left, ':');
        assert(left.last() == left[left.len() - 1]);
    } else {
        assert(a =~= Seq::empty());
        assert(s =~= tail);
        assert(gap(tail) == 0);
    }
    if right.len() > 0 {
        lemma_groups_without_gap(right, Seq::empty());
        text::joining_undoes_splitting(right, ':');
    } else {
        assert(b =~= Seq::empty());
    }
    assert(gap(s) == a.len());
    assert(s.take(a.len() as int) =~= a);
    assert(s.skip(a.len() as int + 2) =~= b);
}

/// Nothing else is an address: every address is eight groups, or fewer around one
/// pair of colons, and only its end may be written as an IPv4 address.
pub proof fn addresses_are_groups(s: Seq<char>) -> (parts: (Seq<Seq<char>>, Seq<Seq<char>>, bool))
    requires
        is_address(s),
    ensures
        ({
            let (left, right, gapped) = parts;
            let spelled = |groups: Seq<Seq<char>>, at_end: bool|
                forall|i: int|
                    0 <= i < groups.len() ==> is_group(#[trigger] groups[i]) || (at_end && i
                        == groups.len() - 1 && is_dotted(groups[i]));
            &&& spelled(left, !gapped)
            &&& spelled(right, true)
            &&& gapped ==> s == text::joined(left, ':') + seq![':', ':'] + text::joined(right, ':')
                && left.len() + right.len() < 8
            &&& gapped && right.len() > 0 && !is_group(right.last()) ==> left.len() + right.len() < 7
            &&& !gapped ==> s == text::joined(left, ':') && right.len() == 0
            &&& !gapped ==> (left.len() == 8 && is_group(left.last())) || (left.len() == 7
                && is_dotted(left.last()))
        }),
{
    lemma_gap(s);
    let k = gap(s) as int;
    if k >= s.len() {
        text::splitting_undoes_joining(s, ':');
        (text::split(s, ':'), Seq::empty(), false)
    } else {
        let a = s.take(k);
        let b = s.skip(k + 2);
        text::splitting_undoes_joining(a, ':');
        text::splitting_undoes_joining(b, ':');
        let left = if a.len() == 0 {
            Seq::empty()
        } else {
            text::split(a, ':')
        };
        let right = if b.len() == 0 {
            Seq::empty()
        } else {
            text::split(b, ':')
        };
        assert(text::joined(left, ':') =~= a);
        assert(text::joined(right, ':') =~= b);
        assert(s =~= a + seq![':', ':'] + b);
        (left, right, true)
    }
}

} // verus!
