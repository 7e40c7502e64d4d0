//! What holds of every store that keeps the contracts, proved from the
//! contracts alone.
//!
//! Each law takes the stores before and after the calls it speaks of and
//! the results of those calls, and assumes of them what the contracts of
//! the calls ensure.

use vstd::prelude::*;
use protobuf::ProtobufError;
use crate::codec::{be_bytes, lemma_i64_round_trip, lemma_u64_round_trip, to_unsigned};
use crate::error::Error;
use crate::message::decoded_msg;
use crate::peekable::{fetched_as, fetched_msg, i64_of, u64_of};
use crate::iterable::sought;
use crate::keys::{key_lt, lemma_key_lt_asymmetric, lemma_key_lt_irreflexive, lemma_key_lt_total};
use crate::store::{
    default_cf, fetched, is_first_from, is_unknown_cf, lists_range, lookup, pair_view, shows,
    value_view, with_pair, written, Store,
};

verus! {

/// Round trip: after a value was stored under a key of a known family in a
/// reliable store, the write has succeeded and a lookup of the key finds
/// that value.
pub proof fn law_round_trip<S: Store>(
    before: &S,
    after: &S,
    cf: Seq<char>,
    key: Seq<u8>,
    value: Seq<u8>,
    put: Result<(), Error>,
    got: Result<Option<Vec<u8>>, Error>,
)
    requires
        before.reliable(),
        before.cf_table(cf) is Some,
        written(before, after, cf, with_pair(key, value), put),
        fetched(after, cf, key, got),
    ensures
        put is Ok,
        got matches Ok(found) && value_view(found) == Some(value),
{
}

/// Round trip of a message: after the bytes of a message were stored, a
/// typed lookup gives what the parser makes of those bytes, so a parser
/// that undoes the serialiser gives the message back.
pub proof fn law_message_round_trip<S: Store, M, P: FnOnce(&[u8]) -> Result<M, ProtobufError>>(
    before: &S,
    after: &S,
    cf: Seq<char>,
    key: Seq<u8>,
    bytes: Seq<u8>,
    parse: P,
    put: Result<(), Error>,
    got: Result<Option<M>, Error>,
)
    requires
        before.reliable(),
        before.cf_table(cf) is Some,
        written(before, after, cf, with_pair(key, bytes), put),
        fetched_msg(after, cf, key, parse, got),
    ensures
        put is Ok,
        decoded_msg(parse, Some(bytes), got),
        !(got matches Ok(None)),
{
}

/// Absence: in a reliable store, a lookup of a key that a known family
/// does not hold is `Ok(None)`, raw and typed, and not an error.
pub proof fn law_absence<S: Store, M, P: FnOnce(&[u8]) -> Result<M, ProtobufError>>(
    store: &S,
    cf: Seq<char>,
    key: Seq<u8>,
    parse: P,
    raw: Result<Option<Vec<u8>>, Error>,
    unsigned: Result<Option<u64>, Error>,
    signed: Result<Option<i64>, Error>,
    message: Result<Option<M>, Error>,
)
    requires
        store.reliable(),
        store.cf_table(cf) matches Some(table) && !table.contains_key(key),
        fetched(store, cf, key, raw),
        fetched_as(store, cf, key, |held: Option<Seq<u8>>| u64_of(held), unsigned),
        fetched_as(store, cf, key, |held: Option<Seq<u8>>| i64_of(held), signed),
        fetched_msg(store, cf, key, parse, message),
    ensures
        raw matches Ok(found) && found is None,
        unsigned == Ok::<Option<u64>, Error>(None),
        signed == Ok::<Option<i64>, Error>(None),
        message matches Ok(found) && found is None,
{
}

/// Integer round trip: a signed integer that was stored reads back as
/// itself, and read back as unsigned it is its bit pattern; an unsigned
/// integer that was stored reads back as itself.
pub proof fn law_integer_round_trip<S: Store>(
    before: &S,
    after: &S,
    cf: Seq<char>,
    key: Seq<u8>,
    n: i64,
    put: Result<(), Error>,
    signed: Result<Option<i64>, Error>,
    unsigned: Result<Option<u64>, Error>,
)
    requires
        before.reliable(),
        before.cf_table(cf) is Some,
        written(before, after, cf, with_pair(key, be_bytes(to_unsigned(n))), put),
        fetched_as(after, cf, key, |held: Option<Seq<u8>>| i64_of(held), signed),
        fetched_as(after, cf, key, |held: Option<Seq<u8>>| u64_of(held), unsigned),
    ensures
        put is Ok,
        signed == Ok::<Option<i64>, Error>(Some(n)),
        unsigned == Ok::<Option<u64>, Error>(Some(to_unsigned(n))),
        n == -1 ==> unsigned == Ok::<Option<u64>, Error>(Some(u64::MAX)),
{
    lemma_i64_round_trip(n);
    lemma_u64_round_trip(to_unsigned(n));
}

/// Isolation of families: after one value was stored under a key in the
/// default keyspace and another under the same key in a family of another
/// name, each is found where it was stored.
pub proof fn law_cf_isolation<S: Store>(
    first: &S,
    second: &S,
    third: &S,
    cf: Seq<char>,
    key: Seq<u8>,
    a: Seq<u8>,
    b: Seq<u8>,
    put_default: Result<(), Error>,
    put_named: Result<(), Error>,
    got_default: Result<Option<Vec<u8>>, Error>,
    got_named: Result<Option<Vec<u8>>, Error>,
)
    requires
        cf != default_cf(),
        first.reliable(),
        first.cf_table(default_cf()) is Some,
        first.cf_table(cf) is Some,
        written(first, second, default_cf(), with_pair(key, a), put_default),
        written(second, third, cf, with_pair(key, b), put_named),
        fetched(third, default_cf(), key, got_default),
        fetched(third, cf, key, got_named),
    ensures
        got_default matches Ok(found) && value_view(found) == Some(a),
        got_named matches Ok(found) && value_view(found) == Some(b),
{
    assert(second.cf_table(cf) == first.cf_table(cf));
    assert(third.cf_table(default_cf()) == second.cf_table(default_cf()));
}

/// A family that is not known: every lookup in it and every write to it is
/// refused with the error that names it, and a refused write changes
/// nothing.
pub proof fn law_unknown_cf<S: Store>(
    before: &S,
    after: &S,
    cf: Seq<char>,
    key: Seq<u8>,
    value: Seq<u8>,
    got: Result<Option<Vec<u8>>, Error>,
    put: Result<(), Error>,
)
    requires
        before.cf_table(cf) is None,
        fetched(before, cf, key, got),
        written(before, after, cf, with_pair(key, value), put),
    ensures
        got matches Err(e) && is_unknown_cf(e, cf),
        put matches Err(e) && is_unknown_cf(e, cf),
        forall|any: Seq<char>| #[trigger] after.cf_table(any) == before.cf_table(any),
{
    assert forall|any: Seq<char>| #[trigger] after.cf_table(any) == before.cf_table(any) by {
        if any != cf {
            assert(after.cf_table(any) == before.cf_table(any));
        }
    }
}

/// Isolation of a point-in-time view: a view taken of a store keeps
/// answering from what the store held then. After a later write to the
/// store, a lookup in the view finds what was there before the write, or
/// nothing where the key was not there, and a lookup in the store finds
/// what was written.
pub proof fn law_snapshot_isolation<S: Store, V: Store>(
    before: &S,
    view: &V,
    after: &S,
    cf: Seq<char>,
    key: Seq<u8>,
    value: Seq<u8>,
    put: Result<(), Error>,
    from_view: Result<Option<Vec<u8>>, Error>,
    from_store: Result<Option<Vec<u8>>, Error>,
)
    requires
        before.reliable(),
        view.reliable(),
        before.cf_table(cf) is Some,
        shows(view, before),
        written(before, after, cf, with_pair(key, value), put),
        fetched(view, cf, key, from_view),
        fetched(after, cf, key, from_store),
    ensures
        from_view matches Ok(found) && value_view(found) == lookup(
            before.cf_table(cf).unwrap(),
            key,
        ),
        from_store matches Ok(found) && value_view(found) == Some(value),
{
    assert(view.cf_table(cf) == before.cf_table(cf));
}

/// The order of a scan is determined: two runs that list the same
/// half-open range of a table are the same run, so a scan has no choice in
/// what it shows or in which order.
pub proof fn law_range_listing_is_unique(
    a: Seq<(Seq<u8>, Seq<u8>)>,
    b: Seq<(Seq<u8>, Seq<u8>)>,
    table: Map<Seq<u8>, Seq<u8>>,
    start: Seq<u8>,
    end: Seq<u8>,
)
    requires
        lists_range(a, table, start, end),
        lists_range(b, table, start, end),
    ensures
        a == b,
    decreases a.len(),
{
    if a.len() == 0 {
        if b.len() > 0 {
            assert(table.contains_key(b[0].0));
            let i = choose|i: int| 0 <= i < a.len() && #[trigger] a[i].0 == b[0].0;
        }
        assert(a =~= b);
    } else {
        let top = a.last();
        assert(top == a[a.len() - 1]);
        assert(table.contains_key(a[a.len() - 1].0));
        let j = choose|j: int| 0 <= j < b.len() && #[trigger] b[j].0 == top.0;
        if j < b.len() - 1 {
            let over = b[b.len() - 1];
            assert(key_lt(b[j].0, b[b.len() - 1].0));
            assert(table.contains_key(b[b.len() - 1].0));
            let i = choose|i: int| 0 <= i < a.len() && #[trigger] a[i].0 == over.0;
            lemma_key_lt_irreflexive(top.0);
            if i < a.len() - 1 {
                assert(key_lt(a[i].0, a[a.len() - 1].0));
                lemma_key_lt_asymmetric(top.0, over.0);
            }
        }
        assert(b.last() == top) by {
            assert(b[b.len() - 1].0 == top.0);
            assert(table[b[b.len() - 1].0] == b[b.len() - 1].1);
        }
        let rest = table.remove(top.0);
        lemma_drop_last_lists_range(a, table, start, end);
        lemma_drop_last_lists_range(b, table, start, end);
        law_range_listing_is_unique(a.drop_last(), b.drop_last(), rest, start, end);
        assert(a =~= a.drop_last().push(a.last()));
        assert(b =~= b.drop_last().push(b.last()));
    }
}

/// Without its last row, a run lists the range of the table without the
/// key of that row.
proof fn lemma_drop_last_lists_range(
    a: Seq<(Seq<u8>, Seq<u8>)>,
    table: Map<Seq<u8>, Seq<u8>>,
    start: Seq<u8>,
    end: Seq<u8>,
)
    requires
        a.len() > 0,
        lists_range(a, table, start, end),
    ensures
        lists_range(a.drop_last(), table.remove(a.last().0), start, end),
{
    let front = a.drop_last();
    let top = a[a.len() - 1];
    let rest = table.remove(top.0);
    assert forall|i: int, j: int| 0 <= i < j < front.len() implies key_lt(
        #[trigger] front[i].0,
        #[trigger] front[j].0,
    ) by {
        assert(front[i] == a[i] && front[j] == a[j]);
    }
    assert forall|i: int| 0 <= i < front.len() implies {
        &&& rest.contains_key(#[trigger] front[i].0)
        &&& rest[front[i].0] == front[i].1
        &&& !key_lt(front[i].0, start)
        &&& key_lt(front[i].0, end)
    } by {
        assert(front[i] == a[i]);
        assert(table.contains_key(a[i].0));
        assert(key_lt(a[i].0, a[a.len() - 1].0));
        lemma_key_lt_irreflexive(top.0);
    }
    assert forall|k: Seq<u8>| #[trigger]
        rest.contains_key(k) && !key_lt(k, start) && key_lt(k, end) implies exists|i: int|
        0 <= i < front.len() && #[trigger] front[i].0 == k by {
        assert(table.contains_key(k));
        let i = choose|i: int| 0 <= i < a.len() && #[trigger] a[i].0 == k;
        assert(front[i].0 == k);
    }
}

/// The answer to a seek is determined: a table has one first pair from a
/// key on, or none.
pub proof fn law_seek_is_determined(
    table: Map<Seq<u8>, Seq<u8>>,
    key: Seq<u8>,
    x: Option<(Seq<u8>, Seq<u8>)>,
    y: Option<(Seq<u8>, Seq<u8>)>,
)
    requires
        is_first_from(table, key, x),
        is_first_from(table, key, y),
    ensures
        x == y,
{
    match (x, y) {
        (Some((k1, v1)), Some((k2, v2))) => {
            assert(table.contains_key(k1) && table.contains_key(k2));
            lemma_key_lt_total(k1, k2);
        },
        (Some((k1, v1)), None) => {
            assert(table.contains_key(k1));
        },
        (None, Some((k2, v2))) => {
            assert(table.contains_key(k2));
        },
        (None, None) => {},
    }
}

/// Seek and snapshot: the first pair from a key on that a view shows is
/// the one that the store held when the view was taken, whatever was
/// written to the store since.
pub proof fn law_snapshot_seek<S: Store, V: Store>(
    before: &S,
    view: &V,
    cf: Seq<char>,
    key: Seq<u8>,
    then: Option<(Vec<u8>, Vec<u8>)>,
    later: Option<(Vec<u8>, Vec<u8>)>,
)
    requires
        shows(view, before),
        before.cf_table(cf) is Some,
        sought(before.cf_table(cf).unwrap(), true, key, then),
        sought(view.cf_table(cf).unwrap(), true, key, later),
    ensures
        pair_view(then) == pair_view(later),
{
    assert(view.cf_table(cf) == before.cf_table(cf));
    law_seek_is_determined(before.cf_table(cf).unwrap(), key, pair_view(then), pair_view(later));
}

} // verus!
