//! Stable node ids: ULIDs in their canonical text form.

use vstd::prelude::*;

verus! {

/// The Crockford base 32 digit of a value below 32.
pub open spec fn crockford_digit(d: int) -> char {
    "0123456789ABCDEFGHJKMNPQRSTVWXYZ"@[d]
}

/// The low `len` base 32 digits of a number, most significant first.
pub open spec fn crockford(n: nat, len: nat) -> Seq<char>
    decreases len,
{
    if len == 0 {
        Seq::empty()
    } else {
        crockford(n / 32, (len - 1) as nat).push(crockford_digit((n % 32) as int))
    }
}

/// The canonical text of a ULID: its 128 bits as 26 digits.
pub open spec fn ulid_text(ulid: u128) -> Seq<char> {
    crockford(ulid as nat, 26)
}

/// The text comes first in character order.
pub open spec fn sorts_before(a: Seq<char>, b: Seq<char>) -> bool {
    exists|k: int|
        {
            &&& 0 <= k < a.len()
            &&& k < b.len()
            &&& #[trigger] a[k] < b[k]
            &&& a.take(k) == b.take(k)
        }
}

/// The text comes first in dictionary order: at the first place where they
/// differ, or because the other one goes on.
pub open spec fn comes_before(a: Seq<char>, b: Seq<char>) -> bool {
    sorts_before(a, b) || (a.len() < b.len() && b.take(a.len() as int) == a)
}

/// Calls `ulid::Ulid::generate`. Nothing is claimed of its bits: they hold the
/// current time and a random part.
#[verifier::external_body]
fn generate_ulid() -> (ulid: u128) {
    ulid::Ulid::generate().0
}

/// Calls `ulid::Ulid::to_string`. Claimed of it: the text is the ULID's 26
/// Crockford base 32 digits, most significant first.
#[verifier::external_body]
fn encode_ulid(ulid: u128) -> (text: String)
    ensures
        text@ == ulid_text(ulid),
{
    ulid::Ulid(ulid).to_string()
}

/// The id that stands for a ULID.
pub fn id_of(ulid: u128) -> (id: String)
    ensures
        id@ == ulid_text(ulid),
{
    encode_ulid(ulid)
}

/// A new id, made of the current time and chance.
pub fn new_id() -> (id: String)
    ensures
        exists|ulid: u128| id@ == #[trigger] ulid_text(ulid),
        id@.len() == 26,
{
    let ulid: u128 = generate_ulid();
    proof {
        crockford_len(ulid as nat, 26);
    }
    id_of(ulid)
}

proof fn crockford_len(n: nat, len: nat)
    ensures
        crockford(n, len).len() == len,
    decreases len,
{
    if len > 0 {
        crockford_len(n / 32, (len - 1) as nat);
    }
}

/// How many numbers `len` digits can tell apart.
spec fn capacity(len: nat) -> nat
    decreases len,
{
    if len == 0 {
        1
    } else {
        32 * capacity((len - 1) as nat)
    }
}

proof fn crockford_sorts(m: nat, n: nat, len: nat)
    requires
        m < n < capacity(len),
    ensures
        sorts_before(crockford(m, len), crockford(n, len)),
    decreases len,
{
    reveal_strlit("0123456789ABCDEFGHJKMNPQRSTVWXYZ");
    let rest = (len - 1) as nat;
    let a = crockford(m, len);
    let b = crockford(n, len);
    let a_rest = crockford(m / 32, rest);
    let b_rest = crockford(n / 32, rest);
    crockford_len(m / 32, rest);
    crockford_len(n / 32, rest);
    assert(a == a_rest.push(crockford_digit((m % 32) as int)));
    assert(b == b_rest.push(crockford_digit((n % 32) as int)));
    if m / 32 == n / 32 {
        assert(a.take(rest as int) =~= b.take(rest as int));
        assert(a[rest as int] < b[rest as int]);
    } else {
        crockford_sorts(m / 32, n / 32, rest);
        let k = choose|k: int|
            {
                &&& 0 <= k < a_rest.len()
                &&& k < b_rest.len()
                &&& #[trigger] a_rest[k] < b_rest[k]
                &&& a_rest.take(k) == b_rest.take(k)
            };
        assert(a[k] < b[k]);
        assert(a.take(k) =~= a_rest.take(k));
        assert(b.take(k) =~= b_rest.take(k));
    }
}

/// Ids sort as their ULIDs do.
pub proof fn ids_sort_as_ulids(a: u128, b: u128)
    requires
        a < b,
    ensures
        sorts_before(ulid_text(a), ulid_text(b)),
{
    assert(capacity(26) > u128::MAX) by {
        reveal_with_fuel(capacity, 27);
    }
    crockford_sorts(a as nat, b as nat, 26);
}

/// Different ULIDs have different ids.
pub proof fn ids_tell_ulids_apart(a: u128, b: u128)
    requires
        ulid_text(a) == ulid_text(b),
    ensures
        a == b,
{
    if a < b {
        ids_sort_as_ulids(a, b);
    }
    if b < a {
        ids_sort_as_ulids(b, a);
    }
}

/// A digit is written behind the digits before it, out of the thirty-two
/// digits in ascending order; an id has twenty-six of them.
pub proof fn ids_grow_by_their_last_digit(n: nat, d: nat, len: nat, ulid: u128)
    requires
        d < 32,
    ensures
        crockford((32 * n + d) as nat, (len + 1) as nat) == crockford(n, len).push(
            "0123456789ABCDEFGHJKMNPQRSTVWXYZ"@[d as int],
        ),
        crockford(n, 0).len() == 0,
        ulid_text(ulid) == crockford(ulid as nat, 26),
        ulid_text(ulid).len() == 26,
{
    assert((32 * n + d) / 32 == n);
    assert((32 * n + d) % 32 == d as int);
    crockford_len(ulid as nat, 26);
}

/// No two texts come before each other.
pub proof fn order_of_texts_is_strict(a: Seq<char>, b: Seq<char>)
    requires
        comes_before(a, b),
    ensures
        !comes_before(b, a),
{
    if sorts_before(a, b) {
        let k = choose|k: int|
            {
                &&& 0 <= k < a.len()
                &&& k < b.len()
                &&& #[trigger] a[k] < b[k]
                &&& a.take(k) == b.take(k)
            };
        if sorts_before(b, a) {
            let m = choose|m: int|
                {
                    &&& 0 <= m < b.len()
                    &&& m < a.len()
                    &&& #[trigger] b[m] < a[m]
                    &&& b.take(m) == a.take(m)
                };
            if k < m {
                assert(a.take(m)[k] == b.take(m)[k]);
            }
            if m < k {
                assert(a.take(k)[m] == b.take(k)[m]);
            }
        }
        if b.len() < a.len() && a.take(b.len() as int) == b {
            assert(a.take(b.len() as int)[k] == b[k]);
        }
    } else if sorts_before(b, a) {
        let m = choose|m: int|
            {
                &&& 0 <= m < b.len()
                &&& m < a.len()
                &&& #[trigger] b[m] < a[m]
                &&& b.take(m) == a.take(m)
            };
        assert(b.take(a.len() as int)[m] == a[m]);
    }
}

} // verus!
