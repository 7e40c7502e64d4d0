//! The mathematical model of a store, shared by the read, iteration and
//! mutation contracts.
//!
//! A store is a set of column families, each a table from keys to values. The default keyspace is the family named `default`. The contracts
//! describe a handle as its owner sees it between two of its own calls; what
//! other owners of the same store do in the meantime is outside them.

use vstd::prelude::*;
use crate::error::Error;
use crate::keys::{below, key_lt};

verus! {

/// What a store holds, family by family, and whether it can be relied on.
///
/// An implementation states its model by defining the two functions. One
/// that defines neither claims nothing of what it holds, and is not relied
/// on.
pub trait Store {
    /// The table of the family named `cf`, or `None` where the store has no
    /// family of that name.
    open spec fn cf_table(&self, cf: Seq<char>) -> Option<Map<Seq<u8>, Seq<u8>>> {
        arbitrary()
    }

    /// Whether the store answers every request: a reliable store never
    /// reports a storage failure. Anything backed by a device is not.
    open spec fn reliable(&self) -> bool {
        false
    }
}

/// The name of the family that unscoped operations work on.
pub open spec fn default_cf() -> Seq<char> {
    "default"@
}

/// The value that a table holds under `key`, if any.
pub open spec fn lookup(table: Map<Seq<u8>, Seq<u8>>, key: Seq<u8>) -> Option<Seq<u8>> {
    if table.contains_key(key) {
        Some(table[key])
    } else {
        None
    }
}

/// The content of an optional value.
pub open spec fn value_view(value: Option<Vec<u8>>) -> Option<Seq<u8>> {
    match value {
        Some(v) => Some(v@),
        None => None,
    }
}

/// The content of an optional key-value pair.
pub open spec fn pair_view(pair: Option<(Vec<u8>, Vec<u8>)>) -> Option<(Seq<u8>, Seq<u8>)> {
    match pair {
        Some((k, v)) => Some((k@, v@)),
        None => None,
    }
}

/// Whether `e` reports that the family `cf` is not known.
pub open spec fn is_unknown_cf(e: Error, cf: Seq<char>) -> bool {
    e matches Error::UnknownColumnFamily(name) && name@ == cf
}

/// How the result `r` of a point lookup of `key` in family `cf` relates to
/// the store: an unknown family is an error; in a known one the result is
/// what the table holds, absence included, unless the store failed, which a
/// reliable store does not.
pub open spec fn fetched<S: Store + ?Sized>(
    store: &S,
    cf: Seq<char>,
    key: Seq<u8>,
    r: Result<Option<Vec<u8>>, Error>,
) -> bool {
    match store.cf_table(cf) {
        None => r matches Err(e) && is_unknown_cf(e, cf),
        Some(table) => match r {
            Ok(value) => value_view(value) == lookup(table, key),
            Err(e) => e is Storage && !store.reliable(),
        },
    }
}

/// Whether two stores agree on every family but `cf`, and on reliability.
pub open spec fn same_elsewhere<S: Store + ?Sized>(before: &S, after: &S, cf: Seq<char>) -> bool {
    &&& after.reliable() == before.reliable()
    &&& forall|other: Seq<char>|
        other != cf ==> #[trigger] after.cf_table(other) == before.cf_table(other)
}

/// Whether two stores hold the same and are equally reliable.
pub open spec fn same_store<S: Store + ?Sized>(before: &S, after: &S) -> bool {
    &&& after.reliable() == before.reliable()
    &&& forall|cf: Seq<char>| #[trigger] after.cf_table(cf) == before.cf_table(cf)
}

/// Whether a view shows, family by family, what a store holds.
pub open spec fn shows<S: Store + ?Sized, V: Store + ?Sized>(view: &V, store: &S) -> bool {
    forall|cf: Seq<char>| #[trigger] view.cf_table(cf) == store.cf_table(cf)
}

/// How a write to family `cf` that was to leave it as `wanted(old table)`
/// relates the store before and after to its result `r`: other families are
/// untouched; an unknown family is an error and nothing changes; in a known
/// one success means the table is the wanted one, and failure is a storage
/// failure, which a reliable store does not have.
pub open spec fn written<S: Store + ?Sized>(
    before: &S,
    after: &S,
    cf: Seq<char>,
    wanted: spec_fn(Map<Seq<u8>, Seq<u8>>) -> Map<Seq<u8>, Seq<u8>>,
    r: Result<(), Error>,
) -> bool {
    &&& same_elsewhere(before, after, cf)
    &&& match before.cf_table(cf) {
        None => after.cf_table(cf) is None && (r matches Err(e) && is_unknown_cf(e, cf)),
        Some(table) => match r {
            Ok(()) => after.cf_table(cf) == Some(wanted(table)),
            Err(e) => e is Storage && !before.reliable() && after.cf_table(cf) is Some,
        },
    }
}

/// The change that storing `value` under `key` makes to a table.
pub open spec fn with_pair(key: Seq<u8>, value: Seq<u8>) -> spec_fn(Map<Seq<u8>, Seq<u8>>) -> Map<
    Seq<u8>,
    Seq<u8>,
> {
    |table: Map<Seq<u8>, Seq<u8>>| table.insert(key, value)
}

/// The change that deleting `key` makes to a table.
pub open spec fn without_key(key: Seq<u8>) -> spec_fn(Map<Seq<u8>, Seq<u8>>) -> Map<
    Seq<u8>,
    Seq<u8>,
> {
    |table: Map<Seq<u8>, Seq<u8>>| table.remove(key)
}

/// Whether the rows come in strictly ascending order of their keys.
pub open spec fn ascending(rows: Seq<(Seq<u8>, Seq<u8>)>) -> bool {
    forall|i: int, j: int| 0 <= i < j < rows.len() ==> key_lt(#[trigger] rows[i].0, #[trigger] rows[j].0)
}

/// Whether `rows` lists, in ascending order and each once, exactly the pairs
/// of `table` whose key lies under `bound`.
pub open spec fn lists(
    rows: Seq<(Seq<u8>, Seq<u8>)>,
    table: Map<Seq<u8>, Seq<u8>>,
    bound: Option<Seq<u8>>,
) -> bool {
    &&& ascending(rows)
    &&& forall|i: int|
        0 <= i < rows.len() ==> {
            &&& table.contains_key(#[trigger] rows[i].0)
            &&& table[rows[i].0] == rows[i].1
            &&& below(rows[i].0, bound)
        }
    &&& forall|k: Seq<u8>| #[trigger]
        table.contains_key(k) && below(k, bound) ==> exists|i: int|
            0 <= i < rows.len() && #[trigger] rows[i].0 == k
}

/// Whether `rows` lists, in ascending order and each once, exactly the pairs
/// of `table` whose key lies in the half-open range from `start` to `end`.
pub open spec fn lists_range(
    rows: Seq<(Seq<u8>, Seq<u8>)>,
    table: Map<Seq<u8>, Seq<u8>>,
    start: Seq<u8>,
    end: Seq<u8>,
) -> bool {
    &&& ascending(rows)
    &&& forall|i: int|
        0 <= i < rows.len() ==> {
            &&& table.contains_key(#[trigger] rows[i].0)
            &&& table[rows[i].0] == rows[i].1
            &&& !key_lt(rows[i].0, start)
            &&& key_lt(rows[i].0, end)
        }
    &&& forall|k: Seq<u8>| #[trigger]
        table.contains_key(k) && !key_lt(k, start) && key_lt(k, end) ==> exists|i: int|
            0 <= i < rows.len() && #[trigger] rows[i].0 == k
}

/// Whether `at` is the place of the first row whose key is not before
/// `key`, or the number of rows where every key is before it.
pub open spec fn is_lower_bound(rows: Seq<(Seq<u8>, Seq<u8>)>, key: Seq<u8>, at: int) -> bool {
    &&& 0 <= at <= rows.len()
    &&& forall|i: int| 0 <= i < at ==> key_lt(#[trigger] rows[i].0, key)
    &&& forall|i: int| at <= i < rows.len() ==> !key_lt(#[trigger] rows[i].0, key)
}

/// Whether `found` is the pair of `table` with the least key that is not
/// before `key`, or `None` where every key of the table is before it.
pub open spec fn is_first_from(
    table: Map<Seq<u8>, Seq<u8>>,
    key: Seq<u8>,
    found: Option<(Seq<u8>, Seq<u8>)>,
) -> bool {
    match found {
        Some((k, v)) => {
            &&& table.contains_key(k)
            &&& table[k] == v
            &&& !key_lt(k, key)
            &&& forall|other: Seq<u8>| #[trigger]
                table.contains_key(other) && !key_lt(other, key) ==> !key_lt(other, k)
        },
        None => forall|other: Seq<u8>| #[trigger] table.contains_key(other) ==> key_lt(other, key),
    }
}

} // verus!
