//! A table kept in memory as a run of pairs in ascending order of key.

use vstd::prelude::*;
use vstd::slice::slice_to_vec;
use crate::keys::{
    below, key_equal, key_less, key_lt, lemma_key_lt_irreflexive, lemma_key_lt_total,
    lemma_key_lt_transitive, lemma_key_not_lt_after,
};
use crate::store::{ascending, is_lower_bound, lists, lookup, value_view};

verus! {

/// The pairs that a vector of owned pairs holds, as byte strings.
pub open spec fn rows_of(items: Seq<(Vec<u8>, Vec<u8>)>) -> Seq<(Seq<u8>, Seq<u8>)> {
    Seq::new(items.len(), |i: int| (items[i].0@, items[i].1@))
}

/// A place in the run where `key` stands, where there is one.
pub open spec fn place_of(rows: Seq<(Seq<u8>, Seq<u8>)>, key: Seq<u8>) -> int {
    choose|i: int| 0 <= i < rows.len() && #[trigger] rows[i].0 == key
}

/// The table that a run of pairs spells.
pub open spec fn table_of(rows: Seq<(Seq<u8>, Seq<u8>)>) -> Map<Seq<u8>, Seq<u8>> {
    Map::new(
        |k: Seq<u8>| exists|i: int| 0 <= i < rows.len() && #[trigger] rows[i].0 == k,
        |k: Seq<u8>| rows[place_of(rows, k)].1,
    )
}

/// The run that storing `value` under `key` makes of `rows`, where `at` is
/// the lower bound of `key`: the pair replaces the one with that key, or is
/// put in at its place in the order.
pub open spec fn rows_with(
    rows: Seq<(Seq<u8>, Seq<u8>)>,
    key: Seq<u8>,
    value: Seq<u8>,
    at: int,
) -> Seq<(Seq<u8>, Seq<u8>)> {
    if at < rows.len() && rows[at].0 == key {
        rows.update(at, (key, value))
    } else {
        rows.insert(at, (key, value))
    }
}

/// The run that deleting `key` makes of `rows`, where `at` is the lower
/// bound of `key`.
pub open spec fn rows_without(rows: Seq<(Seq<u8>, Seq<u8>)>, key: Seq<u8>, at: int) -> Seq<
    (Seq<u8>, Seq<u8>),
> {
    if at < rows.len() && rows[at].0 == key {
        rows.remove(at)
    } else {
        rows
    }
}

/// In an ascending run no key occurs at two places.
pub proof fn lemma_ascending_keys_differ(rows: Seq<(Seq<u8>, Seq<u8>)>, i: int, j: int)
    requires
        ascending(rows),
        0 <= i < rows.len(),
        0 <= j < rows.len(),
        rows[i].0 == rows[j].0,
    ensures
        i == j,
{
    lemma_key_lt_irreflexive(rows[i].0);
    if i < j {
        assert(key_lt(rows[i].0, rows[j].0));
    } else if j < i {
        assert(key_lt(rows[j].0, rows[i].0));
    }
}

/// An ascending run lists the table that it spells.
pub proof fn lemma_table_of_lists(rows: Seq<(Seq<u8>, Seq<u8>)>)
    requires
        ascending(rows),
    ensures
        lists(rows, table_of(rows), None),
{
    let table = table_of(rows);
    assert forall|i: int| 0 <= i < rows.len() implies {
        &&& table.contains_key(#[trigger] rows[i].0)
        &&& table[rows[i].0] == rows[i].1
        &&& below(rows[i].0, None)
    } by {
        let k = rows[i].0;
        assert(0 <= i < rows.len() && rows[i].0 == k);
        let j = place_of(rows, k);
        lemma_ascending_keys_differ(rows, i, j);
    }
}

/// A run lists one table only.
pub proof fn lemma_listing_determines_table(
    rows: Seq<(Seq<u8>, Seq<u8>)>,
    t1: Map<Seq<u8>, Seq<u8>>,
    t2: Map<Seq<u8>, Seq<u8>>,
)
    requires
        lists(rows, t1, None),
        lists(rows, t2, None),
    ensures
        t1 == t2,
{
    assert forall|k: Seq<u8>| t1.contains_key(k) implies t2.contains_key(k) && t1[k] == t2[k] by {
        let i = choose|i: int| 0 <= i < rows.len() && #[trigger] rows[i].0 == k;
        assert(t2.contains_key(rows[i].0));
    }
    assert forall|k: Seq<u8>| t2.contains_key(k) implies t1.contains_key(k) by {
        let i = choose|i: int| 0 <= i < rows.len() && #[trigger] rows[i].0 == k;
        assert(t1.contains_key(rows[i].0));
    }
    assert(t1 =~= t2);
}

/// At its lower bound in an ascending run a key is found or is missing
/// from the whole run; where it is missing, every row from there on comes
/// after it.
pub proof fn lemma_lower_bound_hit(rows: Seq<(Seq<u8>, Seq<u8>)>, key: Seq<u8>, at: int)
    requires
        ascending(rows),
        is_lower_bound(rows, key, at),
    ensures
        at < rows.len() && rows[at].0 == key ==> lookup(table_of(rows), key) == Some(rows[at].1),
        !(at < rows.len() && rows[at].0 == key) ==> {
            &&& lookup(table_of(rows), key) is None
            &&& forall|i: int| at <= i < rows.len() ==> key_lt(key, #[trigger] rows[i].0)
        },
{
    lemma_table_of_lists(rows);
    if at < rows.len() && rows[at].0 == key {
        assert(table_of(rows).contains_key(rows[at].0));
    } else {
        assert forall|i: int| at <= i < rows.len() implies key_lt(key, #[trigger] rows[i].0) by {
            lemma_key_lt_total(key, rows[at].0);
            if i > at {
                assert(key_lt(rows[at].0, rows[i].0));
                lemma_key_lt_transitive(key, rows[at].0, rows[i].0);
            }
        }
        if table_of(rows).contains_key(key) {
            let i = choose|i: int| 0 <= i < rows.len() && #[trigger] rows[i].0 == key;
            lemma_key_lt_irreflexive(key);
            if i < at {
                assert(key_lt(rows[i].0, key));
            } else {
                assert(key_lt(key, rows[i].0));
            }
        }
    }
}

/// Storing a pair at the lower bound of its key keeps the run ascending and
/// makes it spell the table with that pair put in.
pub proof fn lemma_rows_with(rows: Seq<(Seq<u8>, Seq<u8>)>, key: Seq<u8>, value: Seq<u8>, at: int)
    requires
        ascending(rows),
        is_lower_bound(rows, key, at),
    ensures
        ascending(rows_with(rows, key, value, at)),
        table_of(rows_with(rows, key, value, at)) == table_of(rows).insert(key, value),
{
    let new_rows = rows_with(rows, key, value, at);
    let table = table_of(rows);
    let wanted = table.insert(key, value);
    lemma_table_of_lists(rows);
    lemma_lower_bound_hit(rows, key, at);
    if at < rows.len() && rows[at].0 == key {
        assert forall|i: int, j: int| 0 <= i < j < new_rows.len() implies key_lt(
            #[trigger] new_rows[i].0,
            #[trigger] new_rows[j].0,
        ) by {
            assert(new_rows[i].0 == rows[i].0 && new_rows[j].0 == rows[j].0);
        }
        assert forall|i: int| 0 <= i < new_rows.len() implies {
            &&& wanted.contains_key(#[trigger] new_rows[i].0)
            &&& wanted[new_rows[i].0] == new_rows[i].1
        } by {
            if i != at {
                assert(new_rows[i] == rows[i]);
                assert(table.contains_key(rows[i].0));
                if rows[i].0 == key {
                    lemma_ascending_keys_differ(rows, i, at);
                }
            }
        }
        assert forall|k: Seq<u8>| #[trigger] wanted.contains_key(k) implies exists|i: int|
            0 <= i < new_rows.len() && #[trigger] new_rows[i].0 == k by {
            if k == key {
                assert(new_rows[at].0 == k);
            } else {
                let i = choose|i: int| 0 <= i < rows.len() && #[trigger] rows[i].0 == k;
                assert(new_rows[i].0 == k);
            }
        }
    } else {
        assert forall|i: int, j: int| 0 <= i < j < new_rows.len() implies key_lt(
            #[trigger] new_rows[i].0,
            #[trigger] new_rows[j].0,
        ) by {
            if j < at {
                assert(key_lt(rows[i].0, rows[j].0));
            } else if j == at {
                assert(key_lt(rows[i].0, key));
            } else if i < at {
                assert(key_lt(rows[i].0, rows[j - 1].0));
            } else if i == at {
                assert(key_lt(key, rows[j - 1].0));
            } else {
                assert(key_lt(rows[i - 1].0, rows[j - 1].0));
            }
        }
        assert forall|i: int| 0 <= i < new_rows.len() implies {
            &&& wanted.contains_key(#[trigger] new_rows[i].0)
            &&& wanted[new_rows[i].0] == new_rows[i].1
        } by {
            if i < at {
                assert(new_rows[i] == rows[i]);
                assert(table.contains_key(rows[i].0));
            } else if i > at {
                assert(new_rows[i] == rows[i - 1]);
                assert(table.contains_key(rows[i - 1].0));
            }
        }
        assert forall|k: Seq<u8>| #[trigger] wanted.contains_key(k) implies exists|i: int|
            0 <= i < new_rows.len() && #[trigger] new_rows[i].0 == k by {
            if k == key {
                assert(new_rows[at].0 == k);
            } else {
                let i = choose|i: int| 0 <= i < rows.len() && #[trigger] rows[i].0 == k;
                if i < at {
                    assert(new_rows[i].0 == k);
                } else {
                    assert(new_rows[i + 1].0 == k);
                }
            }
        }
    }
    assert(lists(new_rows, wanted, None));
    lemma_table_of_lists(new_rows);
    lemma_listing_determines_table(new_rows, table_of(new_rows), wanted);
}

/// Deleting a key at its lower bound keeps the run ascending and makes it
/// spell the table without that key.
pub proof fn lemma_rows_without(rows: Seq<(Seq<u8>, Seq<u8>)>, key: Seq<u8>, at: int)
    requires
        ascending(rows),
        is_lower_bound(rows, key, at),
    ensures
        ascending(rows_without(rows, key, at)),
        table_of(rows_without(rows, key, at)) == table_of(rows).remove(key),
{
    let new_rows = rows_without(rows, key, at);
    let table = table_of(rows);
    let wanted = table.remove(key);
    lemma_table_of_lists(rows);
    lemma_lower_bound_hit(rows, key, at);
    if at < rows.len() && rows[at].0 == key {
        assert forall|i: int, j: int| 0 <= i < j < new_rows.len() implies key_lt(
            #[trigger] new_rows[i].0,
            #[trigger] new_rows[j].0,
        ) by {
            let si = if i < at { i } else { i + 1 };
            let sj = if j < at { j } else { j + 1 };
            assert(new_rows[i] == rows[si] && new_rows[j] == rows[sj]);
            assert(key_lt(rows[si].0, rows[sj].0));
        }
        assert forall|i: int| 0 <= i < new_rows.len() implies {
            &&& wanted.contains_key(#[trigger] new_rows[i].0)
            &&& wanted[new_rows[i].0] == new_rows[i].1
        } by {
            let si = if i < at { i } else { i + 1 };
            assert(new_rows[i] == rows[si]);
            assert(table.contains_key(rows[si].0));
            if rows[si].0 == key {
                lemma_ascending_keys_differ(rows, si, at);
            }
        }
        assert forall|k: Seq<u8>| #[trigger] wanted.contains_key(k) implies exists|i: int|
            0 <= i < new_rows.len() && #[trigger] new_rows[i].0 == k by {
            let i = choose|i: int| 0 <= i < rows.len() && #[trigger] rows[i].0 == k;
            if i < at {
                assert(new_rows[i].0 == k);
            } else {
                assert(new_rows[i - 1].0 == k);
            }
        }
        assert(lists(new_rows, wanted, None));
        lemma_table_of_lists(new_rows);
        lemma_listing_determines_table(new_rows, table_of(new_rows), wanted);
    } else {
        assert(wanted =~= table);
    }
}

/// The rows of an ascending run that lie before the lower bound of `bound`
/// list what the run's table holds under that bound.
pub proof fn lemma_take_lists_below(rows: Seq<(Seq<u8>, Seq<u8>)>, bound: Option<Seq<u8>>, n: int)
    requires
        ascending(rows),
        match bound {
            Some(b) => is_lower_bound(rows, b, n),
            None => n == rows.len(),
        },
    ensures
        lists(rows.take(n), table_of(rows), bound),
{
    let head = rows.take(n);
    let table = table_of(rows);
    lemma_table_of_lists(rows);
    assert forall|i: int, j: int| 0 <= i < j < head.len() implies key_lt(
        #[trigger] head[i].0,
        #[trigger] head[j].0,
    ) by {
        assert(head[i] == rows[i] && head[j] == rows[j]);
    }
    assert forall|i: int| 0 <= i < head.len() implies {
        &&& table.contains_key(#[trigger] head[i].0)
        &&& table[head[i].0] == head[i].1
        &&& below(head[i].0, bound)
    } by {
        assert(head[i] == rows[i]);
        assert(table.contains_key(rows[i].0));
    }
    assert forall|k: Seq<u8>| #[trigger] table.contains_key(k) && below(k, bound) implies exists|
        i: int,
    | 0 <= i < head.len() && #[trigger] head[i].0 == k by {
        let i = choose|i: int| 0 <= i < rows.len() && #[trigger] rows[i].0 == k;
        if i >= n {
            assert(!key_lt(rows[i].0, bound.unwrap()));
        }
        assert(head[i].0 == k);
    }
}

/// A table in memory: pairs in ascending order of key, no key twice.
pub struct MemTable {
    items: Vec<(Vec<u8>, Vec<u8>)>,
}

impl MemTable {
    #[verifier::type_invariant]
    spec fn ordered(self) -> bool {
        ascending(rows_of(self.items@))
    }

    /// The pairs of the table in ascending order of key.
    pub closed spec fn rows(&self) -> Seq<(Seq<u8>, Seq<u8>)> {
        rows_of(self.items@)
    }

    /// The table as a map from keys to values.
    pub open spec fn table(&self) -> Map<Seq<u8>, Seq<u8>> {
        table_of(self.rows())
    }

    /// The empty table.
    pub fn new() -> (t: MemTable)
        ensures
            t.rows() == Seq::<(Seq<u8>, Seq<u8>)>::empty(),
            t.table() == Map::<Seq<u8>, Seq<u8>>::empty(),
    {
        let t = MemTable { items: Vec::new() };
        assert(t.rows() =~= Seq::<(Seq<u8>, Seq<u8>)>::empty());
        assert(t.table() =~= Map::<Seq<u8>, Seq<u8>>::empty());
        t
    }

    /// The number of pairs.
    pub fn len(&self) -> (n: usize)
        ensures
            n == self.rows().len(),
    {
        self.items.len()
    }

    /// The key of the pair at place `i`.
    pub fn key_at(&self, i: usize) -> (k: &[u8])
        requires
            i < self.rows().len(),
        ensures
            k@ == self.rows()[i as int].0,
    {
        self.items[i].0.as_slice()
    }

    /// The value of the pair at place `i`.
    pub fn value_at(&self, i: usize) -> (v: &[u8])
        requires
            i < self.rows().len(),
        ensures
            v@ == self.rows()[i as int].1,
    {
        self.items[i].1.as_slice()
    }

    /// The place of the first pair whose key is not before `key`, found by
    /// halving the run.
    pub fn lower_bound(&self, key: &[u8]) -> (at: usize)
        ensures
            is_lower_bound(self.rows(), key@, at as int),
    {
        proof {
            use_type_invariant(self);
        }
        let ghost rows = self.rows();
        let mut lo: usize = 0;
        let mut hi: usize = self.items.len();
        while lo < hi
            invariant
                rows == self.rows(),
                ascending(rows),
                lo <= hi <= rows.len(),
                forall|i: int| 0 <= i < lo ==> key_lt(#[trigger] rows[i].0, key@),
                forall|i: int| hi <= i < rows.len() ==> !key_lt(#[trigger] rows[i].0, key@),
            decreases hi - lo,
        {
            let mid = lo + (hi - lo) / 2;
            if key_less(self.items[mid].0.as_slice(), key) {
                assert forall|i: int| 0 <= i < mid + 1 implies key_lt(#[trigger] rows[i].0, key@) by {
                    if i < mid {
                        assert(key_lt(rows[i].0, rows[mid as int].0));
                        lemma_key_lt_transitive(rows[i].0, rows[mid as int].0, key@);
                    }
                }
                lo = mid + 1;
            } else {
                assert forall|i: int| mid <= i < rows.len() implies !key_lt(
                    #[trigger] rows[i].0,
                    key@,
                ) by {
                    if i > mid {
                        assert(key_lt(rows[mid as int].0, rows[i].0));
                        lemma_key_not_lt_after(rows[mid as int].0, key@, rows[i].0);
                    }
                }
                hi = mid;
            }
        }
        lo
    }

    /// A copy of the value stored under `key`, if there is one.
    pub fn get(&self, key: &[u8]) -> (value: Option<Vec<u8>>)
        ensures
            value_view(value) == lookup(self.table(), key@),
    {
        proof {
            use_type_invariant(self);
        }
        let at = self.lower_bound(key);
        proof {
            lemma_lower_bound_hit(self.rows(), key@, at as int);
        }
        if at < self.items.len() && key_equal(self.items[at].0.as_slice(), key) {
            Some(slice_to_vec(self.items[at].1.as_slice()))
        } else {
            None
        }
    }

    /// Stores `value` under `key`, in place of what was there.
    pub fn put(&mut self, key: &[u8], value: &[u8])
        ensures
            final(self).table() == old(self).table().insert(key@, value@),
    {
        proof {
            use_type_invariant(&*self);
        }
        let at = self.lower_bound(key);
        let pair = (slice_to_vec(key), slice_to_vec(value));
        let ghost rows = self.rows();
        proof {
            lemma_rows_with(rows, key@, value@, at as int);
        }
        let mut held: Vec<(Vec<u8>, Vec<u8>)> = Vec::new();
        assert(rows_of(held@) =~= Seq::<(Seq<u8>, Seq<u8>)>::empty());
        core::mem::swap(&mut self.items, &mut held);
        if at < held.len() && key_equal(held[at].0.as_slice(), key) {
            held.set(at, pair);
            assert(rows_of(held@) =~= rows.update(at as int, (key@, value@)));
        } else {
            held.insert(at, pair);
            assert(rows_of(held@) =~= rows.insert(at as int, (key@, value@)));
        }
        core::mem::swap(&mut self.items, &mut held);
    }

    /// Removes `key` and what is stored under it; nothing happens where the
    /// key is not there.
    pub fn delete(&mut self, key: &[u8])
        ensures
            final(self).table() == old(self).table().remove(key@),
    {
        proof {
            use_type_invariant(&*self);
        }
        let at = self.lower_bound(key);
        let ghost rows = self.rows();
        proof {
            lemma_rows_without(rows, key@, at as int);
        }
        if at < self.items.len() && key_equal(self.items[at].0.as_slice(), key) {
            let mut held: Vec<(Vec<u8>, Vec<u8>)> = Vec::new();
            assert(rows_of(held@) =~= Seq::<(Seq<u8>, Seq<u8>)>::empty());
            core::mem::swap(&mut self.items, &mut held);
            held.remove(at);
            assert(rows_of(held@) =~= rows.remove(at as int));
            core::mem::swap(&mut self.items, &mut held);
        }
    }

    /// A copy of the part of the table that lies under `bound`, or of all of
    /// it where there is no bound.
    pub fn copy_below(&self, bound: Option<&[u8]>) -> (part: MemTable)
        ensures
            lists(
                part.rows(),
                self.table(),
                match bound {
                    Some(b) => Some(b@),
                    None => None,
                },
            ),
            bound is None ==> part.rows() == self.rows(),
    {
        proof {
            use_type_invariant(self);
        }
        let n = match bound {
            Some(b) => self.lower_bound(b),
            None => self.items.len(),
        };
        let ghost rows = self.rows();
        let ghost bound_view = match bound {
            Some(b) => Some(b@),
            None => None,
        };
        proof {
            lemma_take_lists_below(rows, bound_view, n as int);
        }
        let mut items: Vec<(Vec<u8>, Vec<u8>)> = Vec::new();
        let mut i: usize = 0;
        while i < n
            invariant
                rows == self.rows(),
                i <= n <= rows.len(),
                items@.len() == i,
                rows_of(items@) == rows.take(i as int),
            decreases n - i,
        {
            let pair = (
                slice_to_vec(self.items[i].0.as_slice()),
                slice_to_vec(self.items[i].1.as_slice()),
            );
            assert(rows[i as int] == (pair.0@, pair.1@));
            let ghost before = items@;
            items.push(pair);
            assert forall|j: int| 0 <= j < i + 1 implies rows_of(items@)[j] == rows.take(i + 1)[j] by {
                if j < i {
                    assert(rows_of(before)[j] == rows.take(i as int)[j]);
                    assert(items@[j] == before[j]);
                }
            }
            assert(rows_of(items@) =~= rows.take(i + 1));
            i += 1;
        }
        assert(ascending(rows.take(n as int)));
        assert(bound is None ==> rows.take(n as int) =~= rows);
        MemTable { items }
    }
}

} // verus!
