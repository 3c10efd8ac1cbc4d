//! Text as sequences of characters: trimming, case folding, splitting and
//! decimal numbers, each stated over the characters of the string.

use vstd::prelude::*;
use vstd::string::*;
use vstd::utf8::*;

verus! {

/// Whether a character carries the Unicode `White_Space` property, and so counts
/// as white space at the ends of a string.
pub open spec fn is_space(c: char) -> bool {
    let n = c as u32;
    ||| 0x9 <= n <= 0xD
    ||| n == 0x20 || n == 0x85 || n == 0xA0 || n == 0x1680
    ||| 0x2000 <= n <= 0x200A
    ||| n == 0x2028 || n == 0x2029 || n == 0x202F || n == 0x205F || n == 0x3000
}

/// Whether a character counts as white space.
fn char_is_whitespace(c: char) -> (r: bool)
    ensures
        r == is_space(c),
{
    let n: u32 = c as u32;
    (0x9 <= n && n <= 0xD) || n == 0x20 || n == 0x85 || n == 0xA0 || n == 0x1680 || (0x2000 <= n
        && n <= 0x200A) || n == 0x2028 || n == 0x2029 || n == 0x202F || n == 0x205F || n == 0x3000
}

/// Specifies `String::push`. Trusted: the character is added at the end.
pub assume_specification[ String::push ](s: &mut String, c: char)
    ensures
        final(s)@ == old(s)@.push(c),
;

/// The lower-case form of an ASCII letter; any other character is itself.
pub open spec fn lower_char(c: char) -> char {
    if 'A' <= c <= 'Z' {
        (c as u32 + 32) as char
    } else {
        c
    }
}

/// A string with its ASCII letters in lower case.
pub open spec fn lower(s: Seq<char>) -> Seq<char> {
    Seq::new(s.len(), |i: int| lower_char(s[i]))
}

/// The characters of a string.
pub fn chars_of(s: &str) -> (r: Vec<char>)
    ensures
        r@ == s@,
{
    let mut out: Vec<char> = Vec::new();
    for c in it: s.chars()
        invariant
            it.seq() == s@,
            out@ == s@.take(it.index() as int),
    {
        out.push(c);
        assert(s@.take(it.index() as int + 1) == s@.take(it.index() as int).push(c));
    }
    assert(s@.take(s@.len() as int) == s@);
    out
}

/// Maps an ASCII letter to lower case.
pub fn to_lower_char(c: char) -> (r: char)
    ensures
        r == lower_char(c),
{
    if 'A' <= c && c <= 'Z' {
        ((c as u8) + 32) as char
    } else {
        c
    }
}

/// Maps a string's ASCII letters to lower case.
pub fn to_lower(s: &str) -> (r: String)
    ensures
        r@ == lower(s@),
{
    let mut out: String = String::new();
    for c in it: s.chars()
        invariant
            it.seq() == s@,
            out@ == lower(s@.take(it.index() as int)),
    {
        out.push(to_lower_char(c));
        assert(lower(s@.take(it.index() as int + 1)) == lower(s@.take(it.index() as int)).push(
            lower_char(c),
        ));
    }
    assert(s@.take(s@.len() as int) == s@);
    out
}

/// Whether two strings hold the same characters.
pub fn same(a: &str, b: &str) -> (r: bool)
    ensures
        r == (a@ == b@),
{
    a.to_owned() == b.to_owned()
}

/// Whether two strings are equal up to the case of ASCII letters.
pub fn same_ignoring_case(a: &str, b: &str) -> (r: bool)
    ensures
        r == (lower(a@) == lower(b@)),
{
    to_lower(a) == to_lower(b)
}

/// Length of a string in UTF-8 bytes.
pub fn byte_len(s: &str) -> (r: usize)
    ensures
        r == encode_utf8(s@).len(),
{
    s.as_bytes().len()
}

/// An ASCII string has one byte per character.
pub proof fn lemma_ascii_byte_len(s: Seq<char>)
    requires
        is_ascii_chars(s),
    ensures
        encode_utf8(s).len() == s.len(),
{
    is_ascii_chars_encode_utf8(s);
}

/// Two strings put together.
pub fn join2(a: &str, b: &str) -> (r: String)
    ensures
        r@ == a@ + b@,
{
    let mut out: String = a.to_owned();
    out.append(b);
    out
}

/// Three strings put together.
pub fn join3(a: &str, b: &str, c: &str) -> (r: String)
    ensures
        r@ == a@ + b@ + c@,
{
    let mut out: String = a.to_owned();
    out.append(b);
    out.append(c);
    out
}

/// A string without its leading white space.
pub open spec fn trim_start(s: Seq<char>) -> Seq<char>
    decreases s.len(),
{
    if s.len() > 0 && is_space(s[0]) {
        trim_start(s.skip(1))
    } else {
        s
    }
}

/// A string without its trailing white space.
pub open spec fn trim_end(s: Seq<char>) -> Seq<char>
    decreases s.len(),
{
    if s.len() > 0 && is_space(s.last()) {
        trim_end(s.drop_last())
    } else {
        s
    }
}

/// A string without white space at either end.
pub open spec fn trim(s: Seq<char>) -> Seq<char> {
    trim_end(trim_start(s))
}

/// A string without trailing occurrences of `c`.
pub open spec fn without_trailing(s: Seq<char>, c: char) -> Seq<char>
    decreases s.len(),
{
    if s.len() > 0 && s.last() == c {
        without_trailing(s.drop_last(), c)
    } else {
        s
    }
}

/// Drops white space at both ends.
pub fn trimmed(s: &str) -> (r: &str)
    ensures
        r@ == trim(s@),
{
    let chars = chars_of(s);
    let n: usize = chars.len();
    let mut i: usize = 0;
    assert(s@.skip(0) == s@);
    while i < n && char_is_whitespace(chars[i])
        invariant
            i <= n == s@.len(),
            chars@ == s@,
            trim_start(s@) == trim_start(s@.skip(i as int)),
        decreases n - i,
    {
        assert(s@.skip(i as int).skip(1) == s@.skip(i as int + 1));
        i = i + 1;
    }
    let ghost started = s@.skip(i as int);
    assert(trim_start(s@) == started);
    let mut j: usize = n;
    assert(s@.subrange(i as int, n as int) == started);
    while i < j && char_is_whitespace(chars[j - 1])
        invariant
            i <= j <= n == s@.len(),
            chars@ == s@,
            trim_end(started) == trim_end(s@.subrange(i as int, j as int)),
        decreases j,
    {
        assert(s@.subrange(i as int, j as int).drop_last() == s@.subrange(i as int, j - 1));
        j = j - 1;
    }
    s.substring_char(i, j)
}

/// Drops trailing occurrences of `c`.
pub fn trim_trailing(s: &str, c: char) -> (r: &str)
    ensures
        r@ == without_trailing(s@, c),
{
    let chars = chars_of(s);
    let mut j: usize = chars.len();
    assert(s@.subrange(0, j as int) == s@);
    while 0 < j && chars[j - 1] == c
        invariant
            j <= s@.len(),
            chars@ == s@,
            without_trailing(s@, c) == without_trailing(s@.subrange(0, j as int), c),
        decreases j,
    {
        assert(s@.subrange(0, j as int).drop_last() == s@.subrange(0, j - 1));
        j = j - 1;
    }
    s.substring_char(0, j)
}

/// Index of the first `c`, or the length of the string where there is none.
pub open spec fn position(s: Seq<char>, c: char) -> nat
    decreases s.len(),
{
    if s.len() == 0 {
        0
    } else if s[0] == c {
        0
    } else {
        1 + position(s.skip(1), c)
    }
}

/// Index of the last `c`, or -1 where there is none.
pub open spec fn last_position(s: Seq<char>, c: char) -> int
    decreases s.len(),
{
    if s.len() == 0 {
        -1
    } else if s.last() == c {
        s.len() - 1
    } else {
        last_position(s.drop_last(), c)
    }
}

/// `position` is the first index that holds `c`.
pub proof fn lemma_position(s: Seq<char>, c: char)
    ensures
        position(s, c) <= s.len(),
        position(s, c) < s.len() ==> s[position(s, c) as int] == c,
        forall|i: int| 0 <= i < position(s, c) ==> s[i] != c,
        position(s, c) < s.len() <==> s.contains(c),
    decreases s.len(),
{
    if s.len() > 0 {
        if s[0] != c {
            lemma_position(s.skip(1), c);
            assert forall|i: int| 0 <= i < position(s, c) implies s[i] != c by {
                if i > 0 {
                    assert(s.skip(1)[i - 1] == s[i]);
                }
            }
        }
        if s.contains(c) {
            let k = choose|k: int| 0 <= k < s.len() && s[k] == c;
            if k < position(s, c) {
                assert(s[k] != c);
            }
        }
    }
}

/// An index with no `c` before it, and with `c` at it unless it is the end, is
/// the position of `c`.
pub proof fn lemma_position_is(s: Seq<char>, c: char, p: int)
    requires
        0 <= p <= s.len(),
        forall|i: int| 0 <= i < p ==> s[i] != c,
        p == s.len() || s[p] == c,
    ensures
        position(s, c) == p,
{
    lemma_position(s, c);
    if position(s, c) < p {
        assert(s[position(s, c) as int] != c);
    }
}

/// `last_position` is the last index that holds `c`.
pub proof fn lemma_last_position(s: Seq<char>, c: char)
    ensures
        -1 <= last_position(s, c) < s.len(),
        last_position(s, c) >= 0 ==> s[last_position(s, c)] == c,
        forall|i: int| last_position(s, c) < i < s.len() ==> s[i] != c,
    decreases s.len(),
{
    if s.len() > 0 && s.last() != c {
        lemma_last_position(s.drop_last(), c);
        assert forall|i: int| last_position(s, c) < i < s.len() implies s[i] != c by {
            if i < s.len() - 1 {
                assert(s.drop_last()[i] == s[i]);
            }
        }
    }
}

/// Finds the first `c`; the length of `chars` where there is none.
pub fn find(chars: &Vec<char>, c: char) -> (r: usize)
    ensures
        r == position(chars@, c),
        r <= chars@.len(),
{
    let mut i: usize = 0;
    while i < chars.len() && chars[i] != c
        invariant
            i <= chars@.len(),
            forall|k: int| 0 <= k < i ==> chars@[k] != c,
        decreases chars@.len() - i,
    {
        i = i + 1;
    }
    proof {
        lemma_position_is(chars@, c, i as int);
    }
    i
}

/// Finds the last `c`.
pub fn find_last(chars: &Vec<char>, c: char) -> (r: Option<usize>)
    ensures
        match r {
            Some(i) => i == last_position(chars@, c) && i < chars@.len(),
            None => last_position(chars@, c) == -1,
        },
{
    let mut j: usize = chars.len();
    assert(chars@.take(j as int) == chars@);
    while 0 < j
        invariant
            j <= chars@.len(),
            last_position(chars@, c) == last_position(chars@.take(j as int), c),
        decreases j,
    {
        if chars[j - 1] == c {
            return Some(j - 1);
        }
        assert(chars@.take(j as int).drop_last() == chars@.take(j - 1));
        j = j - 1;
    }
    None
}

/// Whether `c` occurs in `s`.
pub fn has_char(s: &str, c: char) -> (r: bool)
    ensures
        r == s@.contains(c),
{
    let chars = chars_of(s);
    let at = find(&chars, c);
    proof {
        lemma_position(s@, c);
    }
    at < chars.len()
}

/// Whether `s` begins with `p`.
pub open spec fn begins_with(s: Seq<char>, p: Seq<char>) -> bool {
    p.len() <= s.len() && s.take(p.len() as int) == p
}

/// Whether `s` ends with `p`.
pub open spec fn finishes_with(s: Seq<char>, p: Seq<char>) -> bool {
    p.len() <= s.len() && s.skip(s.len() - p.len()) == p
}

/// What follows the prefix `p`, where `s` begins with it.
pub fn after_prefix<'a>(s: &'a str, p: &str) -> (r: Option<&'a str>)
    ensures
        match r {
            Some(rest) => begins_with(s@, p@) && rest@ == s@.skip(p@.len() as int),
            None => !begins_with(s@, p@),
        },
{
    let n: usize = s.unicode_len();
    let k: usize = p.unicode_len();
    if k <= n && same(s.substring_char(0, k), p) {
        let rest = s.substring_char(k, n);
        assert(rest@ == s@.skip(k as int));
        Some(rest)
    } else {
        None
    }
}

/// What precedes the suffix `p`, where `s` ends with it.
pub fn before_suffix<'a>(s: &'a str, p: &str) -> (r: Option<&'a str>)
    ensures
        match r {
            Some(head) => finishes_with(s@, p@) && head@ == s@.take(s@.len() - p@.len()),
            None => !finishes_with(s@, p@),
        },
{
    let n: usize = s.unicode_len();
    let k: usize = p.unicode_len();
    if k <= n {
        let tail = s.substring_char(n - k, n);
        assert(tail@ == s@.skip(n - k));
        if same(tail, p) {
            return Some(s.substring_char(0, n - k));
        }
    }
    None
}

/// The pieces of a string between occurrences of `c`; one more than there are
/// occurrences.
pub open spec fn split(s: Seq<char>, c: char) -> Seq<Seq<char>>
    decreases s.len(),
{
    let p = position(s, c);
    if p >= s.len() {
        seq![s]
    } else {
        seq![s.take(p as int)] + split(s.skip(p as int + 1), c)
    }
}

/// Strings by their characters.
pub open spec fn texts(v: Seq<String>) -> Seq<Seq<char>> {
    Seq::new(v.len(), |i: int| v[i]@)
}

/// An optional string by its characters.
pub open spec fn optional(s: Option<String>) -> Option<Seq<char>> {
    match s {
        Some(s) => Some(s@),
        None => None,
    }
}

/// Copies an optional string.
pub fn copy_optional(s: &Option<String>) -> (r: Option<String>)
    ensures
        optional(r) == optional(*s),
{
    match s {
        Some(s) => Some(s.clone()),
        None => None,
    }
}

/// Splits a string at every `c`.
pub fn split_at_char(s: &str, c: char) -> (r: Vec<String>)
    ensures
        texts(r@) == split(s@, c),
        r@.len() >= 1,
{
    let chars = chars_of(s);
    let n: usize = chars.len();
    let mut out: Vec<String> = Vec::new();
    let mut start: usize = 0;
    let mut i: usize = 0;
    assert(s@.skip(0) == s@);
    assert(texts(out@) + split(s@.skip(0), c) == split(s@, c));
    while i < n
        invariant
            start <= i <= n == s@.len(),
            chars@ == s@,
            texts(out@) + split(s@.skip(start as int), c) == split(s@, c),
            forall|k: int| start <= k < i ==> s@[k] != c,
        decreases n - i,
    {
        if chars[i] == c {
            let piece = s.substring_char(start, i).to_owned();
            let ghost before = texts(out@);
            let ghost rest = s@.skip(start as int);
            out.push(piece);
            proof {
                lemma_position_is(rest, c, i - start);
                assert(rest.take(i - start) == s@.subrange(start as int, i as int));
                assert(rest.skip(i - start + 1) == s@.skip(i as int + 1));
                assert(texts(out@) == before.push(piece@));
                assert(texts(out@) + split(s@.skip(i as int + 1), c) == before + split(rest, c));
            }
            start = i + 1;
        }
        i = i + 1;
    }
    let last = s.substring_char(start, n).to_owned();
    let ghost before = texts(out@);
    let ghost rest = s@.skip(start as int);
    out.push(last);
    proof {
        lemma_position_is(rest, c, n - start);
        assert(rest == s@.subrange(start as int, n as int));
        assert(texts(out@) == before + split(rest, c));
    }
    out
}

/// A string without `c` is its own only piece.
pub proof fn lemma_split_single(s: Seq<char>, c: char)
    requires
        !s.contains(c),
    ensures
        split(s, c) == seq![s],
{
    lemma_position(s, c);
}

/// The first piece ends at the first `c`.
pub proof fn lemma_split_first(head: Seq<char>, c: char, tail: Seq<char>)
    requires
        !head.contains(c),
    ensures
        split(head + seq![c] + tail, c) == seq![head] + split(tail, c),
{
    let s = head + seq![c] + tail;
    assert forall|i: int| 0 <= i < head.len() implies s[i] != c by {
        assert(s[i] == head[i]);
        assert(head.contains(head[i]));
    }
    lemma_position_is(s, c, head.len() as int);
    assert(s.take(head.len() as int) == head);
    assert(s.skip(head.len() as int + 1) == tail);
}

/// What holds of every character of every piece holds of every character of the
/// whole, but for the separators.
pub proof fn lemma_split_chars(s: Seq<char>, c: char, p: spec_fn(char) -> bool)
    requires
        forall|i: int, j: int|
            0 <= i < split(s, c).len() && 0 <= j < split(s, c)[i].len() ==> p(
                #[trigger] split(s, c)[i][j],
            ),
    ensures
        forall|k: int| 0 <= k < s.len() ==> #[trigger] s[k] == c || p(s[k]),
    decreases s.len(),
{
    lemma_position(s, c);
    let at = position(s, c) as int;
    let pieces = split(s, c);
    if at >= s.len() {
        assert forall|k: int| 0 <= k < s.len() implies #[trigger] s[k] == c || p(s[k]) by {
            assert(p(pieces[0][k]));
        }
    } else {
        let rest = s.skip(at + 1);
        let more = split(rest, c);
        assert forall|i: int, j: int|
            0 <= i < more.len() && 0 <= j < more[i].len() implies p(#[trigger] more[i][j]) by {
            assert(more[i] == pieces[i + 1]);
            assert(p(pieces[i + 1][j]));
        }
        lemma_split_chars(rest, c, p);
        assert forall|k: int| 0 <= k < s.len() implies #[trigger] s[k] == c || p(s[k]) by {
            if k < at {
                assert(p(pieces[0][k]));
            } else if k > at {
                assert(rest[k - at - 1] == s[k]);
            }
        }
    }
}

/// Short pieces make a short text.
pub proof fn lemma_split_len(s: Seq<char>, c: char, longest: nat)
    requires
        forall|i: int| 0 <= i < split(s, c).len() ==> (#[trigger] split(s, c)[i]).len() <= longest,
    ensures
        split(s, c).len() >= 1,
        s.len() < (longest + 1) * split(s, c).len(),
    decreases s.len(),
{
    lemma_position(s, c);
    let at = position(s, c) as int;
    let pieces = split(s, c);
    assert(pieces[0].len() <= longest);
    if at < s.len() {
        let rest = s.skip(at + 1);
        let more = split(rest, c);
        assert forall|i: int| 0 <= i < more.len() implies (#[trigger] more[i]).len() <= longest by {
            assert(more[i] == pieces[i + 1]);
        }
        lemma_split_len(rest, c, longest);
        let n = more.len();
        assert(pieces.len() == n + 1);
        assert((longest + 1) * (n + 1) == (longest + 1) * n + longest + 1) by (nonlinear_arith);
    } else {
        assert(pieces.len() == 1);
        assert((longest + 1) * 1 == longest + 1) by (nonlinear_arith);
    }
}

/// The first piece begins the whole and the last one ends it.
pub proof fn lemma_split_ends(s: Seq<char>, c: char)
    requires
        forall|i: int| 0 <= i < split(s, c).len() ==> (#[trigger] split(s, c)[i]).len() > 0,
    ensures
        s.len() > 0,
        split(s, c).len() >= 1,
        s[0] == split(s, c)[0][0],
        s.last() == split(s, c).last().last(),
    decreases s.len(),
{
    lemma_position(s, c);
    let at = position(s, c) as int;
    let pieces = split(s, c);
    assert(pieces[0].len() > 0);
    if at < s.len() {
        let rest = s.skip(at + 1);
        let more = split(rest, c);
        assert forall|i: int| 0 <= i < more.len() implies (#[trigger] more[i]).len() > 0 by {
            assert(more[i] == pieces[i + 1]);
        }
        lemma_split_ends(rest, c);
        assert(pieces.last() == more.last());
    }
}

/// The decimal digit of a number below ten.
pub open spec fn digit(n: nat) -> char {
    (n + 48) as char
}

/// A number in decimal notation, without leading zeros.
pub open spec fn decimal(n: nat) -> Seq<char>
    decreases n,
{
    if n < 10 {
        seq![digit(n)]
    } else {
        decimal(n / 10).push(digit(n % 10))
    }
}

/// Writes a number in decimal notation.
pub fn to_decimal(n: u64) -> (r: String)
    ensures
        r@ == decimal(n as nat),
    decreases n,
{
    let mut out: String = if n < 10 {
        String::new()
    } else {
        to_decimal(n / 10)
    };
    let last: u8 = (n % 10) as u8;
    out.push((last + 48) as char);
    assert(n < 10 ==> out@ == seq![digit(n as nat)]);
    out
}

/// Whether a character is an ASCII digit.
pub open spec fn is_digit(c: char) -> bool {
    '0' <= c <= '9'
}

/// Whether every character is an ASCII digit.
pub open spec fn all_digits(s: Seq<char>) -> bool {
    forall|i: int| 0 <= i < s.len() ==> is_digit(#[trigger] s[i])
}

/// The number that a string of digits denotes.
pub open spec fn digits_value(s: Seq<char>) -> nat
    decreases s.len(),
{
    if s.len() == 0 {
        0
    } else {
        (digits_value(s.drop_last()) * 10 + (s.last() as int - 48)) as nat
    }
}

/// The decimal notation of a number is digits that denote it.
pub proof fn lemma_decimal(n: nat)
    ensures
        decimal(n).len() >= 1,
        all_digits(decimal(n)),
        digits_value(decimal(n)) == n,
    decreases n,
{
    if n >= 10 {
        lemma_decimal(n / 10);
        let head = decimal(n / 10);
        assert(decimal(n).drop_last() =~= head);
        assert(decimal(n).last() == digit(n % 10));
        assert(digits_value(decimal(n)) == digits_value(head) * 10 + n % 10);
        assert forall|i: int| 0 <= i < decimal(n).len() implies is_digit(#[trigger] decimal(n)[i]) by {
            if i < head.len() {
                assert(is_digit(head[i]));
            }
        }
    } else {
        let none = decimal(n).drop_last();
        assert(digits_value(none) == 0);
        assert(digits_value(decimal(n)) == digits_value(none) * 10 + n);
    }
}

/// A port number as integers are commonly written: decimal digits, optionally
/// after a plus sign, with a value of at most 65535.
pub open spec fn port_number(s: Seq<char>) -> Option<u16> {
    let digits = if s.len() > 0 && s[0] == '+' {
        s.skip(1)
    } else {
        s
    };
    if digits.len() > 0 && all_digits(digits) && digits_value(digits) <= 65535 {
        Some(digits_value(digits) as u16)
    } else {
        None
    }
}

/// More digits never denote a smaller number.
proof fn lemma_digits_value_grows(s: Seq<char>, k: int)
    requires
        all_digits(s),
        0 <= k <= s.len(),
    ensures
        digits_value(s.take(k)) <= digits_value(s),
    decreases s.len(),
{
    if k == s.len() {
        assert(s.take(k) == s);
    } else {
        let shorter = s.drop_last();
        assert forall|i: int| 0 <= i < shorter.len() implies is_digit(#[trigger] shorter[i]) by {
            assert(is_digit(s[i]));
        }
        lemma_digits_value_grows(shorter, k);
        assert(shorter.take(k) == s.take(k));
        assert(is_digit(s[s.len() - 1]));
    }
}

/// Whether every character of a string is an ASCII digit.
pub fn only_digits(s: &str) -> (r: bool)
    ensures
        r == all_digits(s@),
{
    let chars = chars_of(s);
    let mut i: usize = 0;
    while i < chars.len()
        invariant
            i <= chars@.len(),
            chars@ == s@,
            forall|k: int| 0 <= k < i ==> is_digit(#[trigger] s@[k]),
        decreases chars@.len() - i,
    {
        if !('0' <= chars[i] && chars[i] <= '9') {
            assert(!is_digit(s@[i as int]));
            return false;
        }
        i = i + 1;
    }
    true
}

/// Reads a port number.
pub fn parse_port(s: &str) -> (r: Option<u16>)
    ensures
        r == port_number(s@),
{
    let digits = match after_prefix(s, "+") {
        Some(rest) => rest,
        None => s,
    };
    proof {
        reveal_strlit("+");
        if s@.len() > 0 {
            assert(s@.take(1) == seq![s@[0]]);
            assert("+"@ == seq!['+']);
            if s@[0] != '+' {
                assert(s@.take(1)[0] != "+"@[0]);
            }
        }
    }
    let chars = chars_of(digits);
    if chars.len() == 0 || !only_digits(digits) {
        return None;
    }
    let ghost all = digits@;
    let mut value: u32 = 0;
    let mut i: usize = 0;
    while i < chars.len()
        invariant
            i <= chars@.len(),
            chars@ == all,
            all_digits(all),
            value == digits_value(all.take(i as int)),
            value <= 65535,
            digits_value(all) > 65535 ==> port_number(s@) is None,
        decreases chars@.len() - i,
    {
        assert(is_digit(all[i as int]));
        value = value * 10 + (chars[i] as u32 - 48);
        assert(all.take(i as int + 1).drop_last() == all.take(i as int));
        if value > 65535 {
            proof {
                lemma_digits_value_grows(all, i as int + 1);
            }
            return None;
        }
        i = i + 1;
    }
    assert(all.take(all.len() as int) == all);
    Some(value as u16)
}

/// Lower case moves the letters `A` to `Z` to `a` to `z` and leaves everything else
/// where it is.
pub proof fn lower_case_moves_only_letters(s: Seq<char>, i: int)
    requires
        0 <= i < s.len(),
    ensures
        lower(s).len() == s.len(),
        'A' <= s[i] <= 'Z' ==> lower(s)[i] as int == s[i] as int + 32,
        !('A' <= s[i] <= 'Z') ==> lower(s)[i] == s[i],
{
}

/// Exactly the characters with the Unicode `White_Space` property are white space.
pub proof fn white_space_is_what_unicode_lists(c: char)
    ensures
        is_space(c) <==> {
            ||| c == '\t' || c == '\n' || c == '\u{b}' || c == '\u{c}' || c == '\r' || c == ' '
            ||| c == '\u{85}' || c == '\u{a0}' || c == '\u{1680}'
            ||| '\u{2000}' <= c <= '\u{200a}'
            ||| c == '\u{2028}' || c == '\u{2029}' || c == '\u{202f}' || c == '\u{205f}'
            ||| c == '\u{3000}'
        },
{
}

/// Trimming takes white space off both ends and nothing else: what is left neither
/// begins nor ends with it, and what was taken off is nothing but white space.
pub proof fn trimming_takes_only_white_space(s: Seq<char>) -> (taken: (Seq<char>, Seq<char>))
    ensures
        s == taken.0 + trim(s) + taken.1,
        forall|i: int| 0 <= i < taken.0.len() ==> is_space(#[trigger] taken.0[i]),
        forall|i: int| 0 <= i < taken.1.len() ==> is_space(#[trigger] taken.1[i]),
        trim(s).len() > 0 ==> !is_space(trim(s)[0]) && !is_space(trim(s).last()),
{
    let before = lemma_trim_start(s);
    let rest = trim_start(s);
    let after = lemma_trim_end(rest);
    assert(s =~= before + trim(s) + after);
    if trim(s).len() > 0 {
        assert(trim(s)[0] == rest[0]);
    }
    (before, after)
}

proof fn lemma_trim_start(s: Seq<char>) -> (taken: Seq<char>)
    ensures
        s == taken + trim_start(s),
        forall|i: int| 0 <= i < taken.len() ==> is_space(#[trigger] taken[i]),
        trim_start(s).len() > 0 ==> !is_space(trim_start(s)[0]),
    decreases s.len(),
{
    if s.len() > 0 && is_space(s[0]) {
        let more = lemma_trim_start(s.skip(1));
        let taken = seq![s[0]] + more;
        assert(s =~= seq![s[0]] + s.skip(1));
        assert(s =~= taken + trim_start(s));
        assert forall|i: int| 0 <= i < taken.len() implies is_space(#[trigger] taken[i]) by {
            if i > 0 {
                assert(taken[i] == more[i - 1]);
            }
        }
        taken
    } else {
        assert(s =~= Seq::<char>::empty() + s);
        Seq::empty()
    }
}

proof fn lemma_trim_end(s: Seq<char>) -> (taken: Seq<char>)
    ensures
        s == trim_end(s) + taken,
        forall|i: int| 0 <= i < taken.len() ==> is_space(#[trigger] taken[i]),
        trim_end(s).len() > 0 ==> !is_space(trim_end(s).last()),
    decreases s.len(),
{
    if s.len() > 0 && is_space(s.last()) {
        let more = lemma_trim_end(s.drop_last());
        let taken = more.push(s.last());
        assert(s =~= s.drop_last().push(s.last()));
        assert(s =~= trim_end(s) + taken);
        assert forall|i: int| 0 <= i < taken.len() implies is_space(#[trigger] taken[i]) by {
            if i < more.len() {
                assert(taken[i] == more[i]);
            }
        }
        taken
    } else {
        assert(s =~= s + Seq::<char>::empty());
        Seq::empty()
    }
}

/// Stripping a trailing character takes off that character and nothing else, until
/// another one ends the text.
pub proof fn stripping_takes_only_its_character(s: Seq<char>, c: char) -> (taken: Seq<char>)
    ensures
        s == without_trailing(s, c) + taken,
        forall|i: int| 0 <= i < taken.len() ==> #[trigger] taken[i] == c,
        without_trailing(s, c).len() > 0 ==> without_trailing(s, c).last() != c,
    decreases s.len(),
{
    if s.len() > 0 && s.last() == c {
        let more = stripping_takes_only_its_character(s.drop_last(), c);
        let taken = more.push(c);
        assert(s =~= s.drop_last().push(c));
        assert(s =~= without_trailing(s, c) + taken);
        taken
    } else {
        assert(s =~= s + Seq::<char>::empty());
        Seq::empty()
    }
}

/// A text begins with a prefix, or ends with a suffix, exactly where something can
/// be put behind, or before, that to make the text.
pub proof fn prefixes_and_suffixes_are_parts(s: Seq<char>, p: Seq<char>)
    ensures
        begins_with(s, p) <==> exists|rest: Seq<char>| s == #[trigger] (p + rest),
        finishes_with(s, p) <==> exists|head: Seq<char>| s == #[trigger] (head + p),
{
    if begins_with(s, p) {
        assert(s =~= p + s.skip(p.len() as int));
    }
    if exists|rest: Seq<char>| s == #[trigger] (p + rest) {
        let rest = choose|rest: Seq<char>| s == #[trigger] (p + rest);
        assert(s.take(p.len() as int) =~= p);
    }
    if finishes_with(s, p) {
        assert(s =~= s.take(s.len() - p.len()) + p);
    }
    if exists|head: Seq<char>| s == #[trigger] (head + p) {
        let head = choose|head: Seq<char>| s == #[trigger] (head + p);
        assert(s.skip(s.len() - p.len()) =~= p);
    }
}

/// Pieces put together with a separator between any two.
pub open spec fn joined(pieces: Seq<Seq<char>>, c: char) -> Seq<char>
    decreases pieces.len(),
{
    if pieces.len() == 0 {
        Seq::empty()
    } else if pieces.len() == 1 {
        pieces[0]
    } else {
        pieces[0] + seq![c] + joined(pieces.skip(1), c)
    }
}

/// Splitting loses nothing and leaves no separator in a piece: the pieces, joined
/// again, are the text.
pub proof fn splitting_undoes_joining(s: Seq<char>, c: char)
    ensures
        split(s, c).len() >= 1,
        joined(split(s, c), c) == s,
        forall|i: int| 0 <= i < split(s, c).len() ==> !(#[trigger] split(s, c)[i]).contains(c),
    decreases s.len(),
{
    lemma_position(s, c);
    let at = position(s, c) as int;
    let pieces = split(s, c);
    if at < s.len() {
        let rest = s.skip(at + 1);
        splitting_undoes_joining(rest, c);
        assert(pieces.skip(1) =~= split(rest, c));
        assert(s =~= s.take(at) + seq![c] + rest);
        assert forall|i: int| 0 <= i < pieces.len() implies !(#[trigger] pieces[i]).contains(c) by {
            if i > 0 {
                assert(pieces[i] == split(rest, c)[i - 1]);
            } else if pieces[0].contains(c) {
                let k = choose|k: int| 0 <= k < pieces[0].len() && pieces[0][k] == c;
                assert(s[k] == c);
            }
        }
    }
}

/// Joining pieces that hold no separator and splitting the result gives the pieces
/// back.
pub proof fn joining_undoes_splitting(pieces: Seq<Seq<char>>, c: char)
    requires
        pieces.len() >= 1,
        forall|i: int| 0 <= i < pieces.len() ==> !(#[trigger] pieces[i]).contains(c),
    ensures
        split(joined(pieces, c), c) == pieces,
    decreases pieces.len(),
{
    assert(!pieces[0].contains(c));
    if pieces.len() == 1 {
        lemma_split_single(pieces[0], c);
        assert(pieces =~= seq![pieces[0]]);
    } else {
        let rest = pieces.skip(1);
        assert forall|i: int| 0 <= i < rest.len() implies !(#[trigger] rest[i]).contains(c) by {
            assert(rest[i] == pieces[i + 1]);
        }
        joining_undoes_splitting(rest, c);
        lemma_split_first(pieces[0], c, joined(rest, c));
        assert(seq![pieces[0]] + rest =~= pieces);
    }
}

/// A number is read digit by digit, each ten times as much as the next.
pub proof fn digits_count_in_tens(s: Seq<char>, n: nat)
    requires
        n < 10,
    ensures
        digits_value(Seq::empty()) == 0,
        digits_value(s.push((48 + n) as char)) == 10 * digits_value(s) + n,
        all_digits(s.push((48 + n) as char)) <==> all_digits(s),
{
    let more = s.push((48 + n) as char);
    assert(more.drop_last() =~= s);
    if all_digits(more) {
        assert forall|i: int| 0 <= i < s.len() implies is_digit(#[trigger] s[i]) by {
            assert(is_digit(more[i]));
        }
    }
    if all_digits(s) {
        assert forall|i: int| 0 <= i < more.len() implies is_digit(#[trigger] more[i]) by {
            if i < s.len() {
                assert(is_digit(s[i]));
            }
        }
    }
}

/// Digits are `0` to `9`, and a text is all digits where each of its characters is
/// one.
pub proof fn digits_are_zero_to_nine(s: Seq<char>, c: char)
    ensures
        is_digit(c) <==> '0' <= c <= '9',
        all_digits(s) <==> forall|i: int| 0 <= i < s.len() ==> '0' <= #[trigger] s[i] <= '9',
{
    if all_digits(s) {
        assert forall|i: int| 0 <= i < s.len() implies '0' <= #[trigger] s[i] <= '9' by {
            assert(is_digit(s[i]));
        }
    }
}

/// Decimal notation writes no leading zero.
pub proof fn decimals_have_no_leading_zero(n: nat)
    ensures
        n > 0 ==> decimal(n)[0] != '0',
        decimal(0) == seq!['0'],
    decreases n,
{
    if n >= 10 {
        decimals_have_no_leading_zero(n / 10);
        lemma_decimal(n / 10);
        assert(decimal(n)[0] == decimal(n / 10)[0]);
    }
}

/// A port is read from digits, with or without a plus sign before them, where they
/// denote at most 65535, and from nothing else.
pub proof fn ports_are_digits(s: Seq<char>, digits: Seq<char>)
    requires
        s == seq!['+'] + digits || (s == digits && (digits.len() > 0 ==> digits[0] != '+')),
    ensures
        port_number(s) is Some <==> digits.len() > 0 && all_digits(digits) && digits_value(digits)
            <= 65535,
        port_number(s) matches Some(port) ==> port == digits_value(digits),
{
    if s == seq!['+'] + digits {
        assert(s.skip(1) =~= digits);
    }
}

/// Texts are read one by one, and an optional text as what it holds.
pub proof fn texts_are_read_as_they_are(v: Seq<String>, i: int, s: Option<String>)
    requires
        0 <= i < v.len(),
    ensures
        texts(v).len() == v.len(),
        texts(v)[i] == v[i]@,
        s is None ==> optional(s) is None,
        s matches Some(t) ==> optional(s) == Some(t@),
{
}

} // verus!
