//! Opaque identifiers.
//!
//! Prefixed, URL-safe random ids, so that an id pasted into a bug report says
//! what it is.

use rand::RngExt;
use vstd::prelude::*;
use vstd::string::*;

use crate::text;

verus! {

/// The characters of a random id, in the order in which they are numbered.
pub open spec fn id_alphabet() -> Seq<char> {
    "0123456789abcdefghijklmnopqrstuvwxyz"@
}

/// Number of random characters in an id.
pub const RANDOM_LEN: usize = 16;

/// Draws an index below `n` from `rand::rng()` with `RngExt::random_range`.
/// Trusted: the draw lies in the range asked for. Which one it is, is left open.
#[verifier::external_body]
pub(crate) fn random_index(n: usize) -> (r: usize)
    requires
        n > 0,
    ensures
        r < n,
{
    rand::rng().random_range(0..n)
}

/// Whether `k` is what a draw of an index below `n` gave.
pub closed spec fn is_draw(n: usize, k: usize) -> bool {
    call_ensures(random_index, (n,), k)
}

/// Draws `count` indices below `n`.
pub fn random_indices(count: usize, n: usize) -> (r: Vec<usize>)
    requires
        n > 0,
    ensures
        r@.len() == count,
        forall|i: int| 0 <= i < count ==> #[trigger] r@[i] < n && is_draw(n, r@[i]),
{
    let mut out: Vec<usize> = Vec::new();
    for i in 0..count
        invariant
            n > 0,
            out@.len() == i,
            forall|k: int| 0 <= k < i ==> #[trigger] out@[k] < n && is_draw(n, out@[k]),
    {
        out.push(random_index(n));
    }
    out
}

/// The characters that a series of draws picks from an alphabet.
pub open spec fn picked(alphabet: Seq<char>, draws: Seq<usize>) -> Seq<char> {
    Seq::new(draws.len(), |i: int| alphabet[draws[i] as int])
}

/// Picks characters from an alphabet by index.
pub fn pick(alphabet: &str, draws: &Vec<usize>) -> (r: String)
    requires
        forall|i: int| 0 <= i < draws@.len() ==> #[trigger] draws@[i] < alphabet@.len(),
    ensures
        r@ == picked(alphabet@, draws@),
{
    let letters = text::chars_of(alphabet);
    let mut out: String = String::new();
    for i in 0..draws.len()
        invariant
            letters@ == alphabet@,
            forall|k: int| 0 <= k < draws@.len() ==> #[trigger] draws@[k] < alphabet@.len(),
            out@ == picked(alphabet@, draws@.take(i as int)),
    {
        out.push(letters[draws[i]]);
        assert(picked(alphabet@, draws@.take(i as int + 1)) == picked(
            alphabet@,
            draws@.take(i as int),
        ).push(alphabet@[draws@[i as int] as int]));
    }
    assert(draws@.take(draws@.len() as int) == draws@);
    out
}

/// Whether `id` is `prefix` followed by the random part of an id: what sixteen
/// draws pick from the alphabet.
pub open spec fn is_id(prefix: Seq<char>, id: Seq<char>) -> bool {
    exists|draws: Seq<usize>|
        #![trigger picked(id_alphabet(), draws)]
        draws.len() == RANDOM_LEN && (forall|i: int|
            0 <= i < draws.len() ==> #[trigger] draws[i] < 36 && is_draw(36, draws[i])) && id
            == prefix + picked(
            id_alphabet(),
            draws,
        )
}

/// Puts an id together from its prefix and its draws.
pub fn id_from_draws(prefix: &str, draws: &Vec<usize>) -> (r: String)
    requires
        forall|i: int| 0 <= i < draws@.len() ==> #[trigger] draws@[i] < 36,
    ensures
        r@ == prefix@ + picked(id_alphabet(), draws@),
{
    proof {
        reveal_strlit("0123456789abcdefghijklmnopqrstuvwxyz");
    }
    text::join2(prefix, pick("0123456789abcdefghijklmnopqrstuvwxyz", draws).as_str())
}

/// A fresh id with the given prefix.
fn random_id(prefix: &str) -> (r: String)
    ensures
        is_id(prefix@, r@),
{
    let draws = random_indices(RANDOM_LEN, 36);
    id_from_draws(prefix, &draws)
}

/// `sess_<16>`: one per agent connection.
#[must_use]
pub fn session_id() -> (r: String)
    ensures
        is_id("sess_"@, r@),
{
    random_id("sess_")
}

/// `tun_<16>`: one per registered tunnel, stable for the tunnel's lifetime.
#[must_use]
pub fn tunnel_id() -> (r: String)
    ensures
        is_id("tun_"@, r@),
{
    random_id("tun_")
}

/// `node_<16>`: identity of an edge process.
///
/// In production it is overridden with the instance name, so that a node in the
/// routing table can be found in the orchestrator.
#[must_use]
pub fn node_id() -> (r: String)
    ensures
        is_id("node_"@, r@),
{
    random_id("node_")
}

/// Every id is its prefix and sixteen characters, each a digit or a lower-case
/// letter.
pub proof fn ids_are_url_safe(prefix: Seq<char>, id: Seq<char>)
    requires
        is_id(prefix, id),
    ensures
        id.len() == prefix.len() + RANDOM_LEN,
        id.take(prefix.len() as int) == prefix,
        forall|i: int|
            prefix.len() <= i < id.len() ==> text::is_digit(#[trigger] id[i]) || 'a' <= id[i] <= 'z',
{
    reveal_strlit("0123456789abcdefghijklmnopqrstuvwxyz");
    let draws = choose|draws: Seq<usize>|
        #![trigger picked(id_alphabet(), draws)]
        draws.len() == RANDOM_LEN && (forall|i: int|
            0 <= i < draws.len() ==> #[trigger] draws[i] < 36 && is_draw(36, draws[i])) && id
            == prefix + picked(
            id_alphabet(),
            draws,
        );
    assert forall|i: int| prefix.len() <= i < id.len() implies text::is_digit(#[trigger] id[i]) || 'a'
        <= id[i] <= 'z' by {
        let k = draws[i - prefix.len()];
        assert(k < 36);
        assert(id[i] == id_alphabet()[k as int]);
    }
}

/// Each draw picks the character of its number, and no two numbers pick the same one,
/// so that different draws give different ids.
pub proof fn draws_pick_distinct_characters(draws: Seq<usize>, i: int, a: int, b: int)
    ensures
        id_alphabet().len() == 36,
        0 <= a < b < 36 ==> id_alphabet()[a] != id_alphabet()[b],
        picked(id_alphabet(), draws).len() == draws.len(),
        0 <= i < draws.len() && draws[i] < 10 ==> picked(id_alphabet(), draws)[i] as int == '0' as int
            + draws[i],
        0 <= i < draws.len() && 10 <= draws[i] < 36 ==> picked(id_alphabet(), draws)[i] as int
            == 'a' as int + draws[i] - 10,
{
    reveal_strlit("0123456789abcdefghijklmnopqrstuvwxyz");
}

/// An id is its prefix followed by sixteen digits or small letters.
pub proof fn ids_are_a_prefix_and_sixteen_characters(prefix: Seq<char>, id: Seq<char>, i: int)
    requires
        is_id(prefix, id),
    ensures
        id.len() == prefix.len() + 16,
        id.take(prefix.len() as int) == prefix,
        prefix.len() <= i < id.len() ==> '0' <= id[i] <= '9' || 'a' <= id[i] <= 'z',
{
    let draws = choose|draws: Seq<usize>|
        #![trigger picked(id_alphabet(), draws)]
        draws.len() == RANDOM_LEN && (forall|i: int|
            0 <= i < draws.len() ==> #[trigger] draws[i] < 36 && is_draw(36, draws[i])) && id
            == prefix + picked(
            id_alphabet(),
            draws,
        );
    assert(id.take(prefix.len() as int) =~= prefix);
    if prefix.len() <= i < id.len() {
        let k = i - prefix.len();
        draws_pick_distinct_characters(draws, k, 0, 0);
        assert(draws[k] < 36);
        assert(id[i] == picked(id_alphabet(), draws)[k]);
    }
}

/// Each draw picks the character that it counts to, whatever the alphabet.
pub proof fn draws_count_into_the_alphabet(alphabet: Seq<char>, draws: Seq<usize>, i: int)
    ensures
        picked(alphabet, draws).len() == draws.len(),
        0 <= i < draws.len() ==> picked(alphabet, draws)[i] == alphabet[draws[i] as int],
{
}

} // verus!
