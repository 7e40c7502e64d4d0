//! Cursors, range scans and seeks.

use vstd::prelude::*;
use vstd::slice::slice_to_vec;
use crate::error::Error;
use crate::keys::{key_lt, lemma_key_lt_asymmetric, lemma_key_lt_irreflexive};
use crate::options::{IterOption, IterOptionView};
use crate::store::{
    default_cf, is_first_from, is_lower_bound, is_unknown_cf, lists, lists_range, pair_view, Store,
};

verus! {

/// A position in the ordered run of pairs that an iteration ranges over.
///
/// The run is fixed when the cursor is made. The position is the place of
/// the current pair in it, or the length of the run while the cursor is not
/// on a pair. An implementation states its model by defining the three
/// functions; one that defines none claims nothing of its run and is not
/// taken to be exact.
pub trait Cursor {
    /// The pairs that the cursor ranges over, in ascending order of key.
    open spec fn rows(&self) -> Seq<(Seq<u8>, Seq<u8>)> {
        arbitrary()
    }

    /// The place of the current pair in the run.
    open spec fn position(&self) -> int {
        arbitrary()
    }

    /// Whether the cursor follows the total order of keys without fail. One
    /// that seeks by prefix, or whose store may fail under it, does not: it
    /// may skip pairs or stop early.
    open spec fn exact(&self) -> bool {
        false
    }

    /// Moves to the first pair whose key is not before `key`, and tells
    /// whether there is one.
    fn seek(&mut self, key: &[u8]) -> (found: bool)
        ensures
            final(self).rows() == old(self).rows(),
            final(self).exact() == old(self).exact(),
            0 <= final(self).position() <= final(self).rows().len(),
            found == (final(self).position() < final(self).rows().len()),
            final(self).exact() ==> is_lower_bound(
                final(self).rows(),
                key@,
                final(self).position(),
            ),
    ;

    /// Whether the cursor is on a pair.
    fn valid(&self) -> (b: bool)
        ensures
            b == (0 <= self.position() < self.rows().len()),
    ;

    /// The key of the current pair.
    fn key(&self) -> (k: &[u8])
        requires
            0 <= self.position() < self.rows().len(),
        ensures
            k@ == self.rows()[self.position()].0,
    ;

    /// The value of the current pair.
    fn value(&self) -> (v: &[u8])
        requires
            0 <= self.position() < self.rows().len(),
        ensures
            v@ == self.rows()[self.position()].1,
    ;

    /// Moves forward, and tells whether the cursor is on a pair afterwards.
    /// An exact cursor moves to the very next pair.
    fn next(&mut self) -> (more: bool)
        requires
            0 <= old(self).position() < old(self).rows().len(),
        ensures
            final(self).rows() == old(self).rows(),
            final(self).exact() == old(self).exact(),
            old(self).position() < final(self).position() <= final(self).rows().len(),
            more == (final(self).position() < final(self).rows().len()),
            final(self).exact() ==> final(self).position() == old(self).position() + 1,
    ;

    /// A copy of the current pair, if the cursor is on one.
    fn kv(&self) -> (pair: Option<(Vec<u8>, Vec<u8>)>)
        ensures
            pair_view(pair) == if 0 <= self.position() < self.rows().len() {
                Some(self.rows()[self.position()])
            } else {
                None
            },
    {
        if self.valid() {
            Some((slice_to_vec(self.key()), slice_to_vec(self.value())))
        } else {
            None
        }
    }
}

/// Whether the callback `f`, shown `row`, may answer `out`.
pub open spec fn shown<F: FnMut(&[u8], &[u8]) -> Result<bool, Error>>(
    f: F,
    row: (Seq<u8>, Seq<u8>),
    out: Result<bool, Error>,
) -> bool {
    exists|k: &[u8], v: &[u8]| k@ == row.0 && v@ == row.1 && #[trigger] call_ensures(f, (k, v), out)
}

/// Whether a scan that ended with `r` went over `rows` from the first on:
/// it showed `f` some leading rows, each answered with "go on", and then
/// either the rows were used up, or `f` said "stop" to the next row, both
/// of which end the scan well, or `f` failed on the next row with the
/// error that the scan ended with. No row behind that one was shown.
pub open spec fn swept<F: FnMut(&[u8], &[u8]) -> Result<bool, Error>>(
    f: F,
    rows: Seq<(Seq<u8>, Seq<u8>)>,
    r: Result<(), Error>,
) -> bool {
    exists|n: int| #[trigger] swept_to(f, rows, r, n)
}

/// [`swept`], with the number `n` of rows that were answered with "go on".
pub open spec fn swept_to<F: FnMut(&[u8], &[u8]) -> Result<bool, Error>>(
    f: F,
    rows: Seq<(Seq<u8>, Seq<u8>)>,
    r: Result<(), Error>,
    n: int,
) -> bool {
    &&& 0 <= n <= rows.len()
    &&& forall|i: int| 0 <= i < n ==> shown(f, #[trigger] rows[i], Ok(true))
    &&& match r {
        Ok(()) => n == rows.len() || shown(f, rows[n], Ok(false)),
        Err(e) => n < rows.len() && shown(f, rows[n], Err(e)),
    }
}

/// Whether a walk that ended with `r` showed `f` the rows `seen`, one
/// after the other: every row but the last was answered with "go on", and
/// the last one, where there is one, either was too, or was answered with
/// "stop", both of which end the walk well, or made `f` fail with the error
/// that the walk ended with.
pub open spec fn answered<F: FnMut(&[u8], &[u8]) -> Result<bool, Error>>(
    f: F,
    seen: Seq<(Seq<u8>, Seq<u8>)>,
    r: Result<(), Error>,
) -> bool {
    &&& forall|i: int| 0 <= i < seen.len() - 1 ==> shown(f, #[trigger] seen[i], Ok(true))
    &&& match r {
        Ok(()) => seen.len() == 0 || shown(f, seen.last(), Ok(true)) || shown(
            f,
            seen.last(),
            Ok(false),
        ),
        Err(e) => seen.len() > 0 && shown(f, seen.last(), Err(e)),
    }
}

/// Whether `places` are places in a run of `len` rows, each behind the one
/// before it.
pub open spec fn forward(places: Seq<int>, len: int) -> bool {
    &&& forall|i: int| 0 <= i < places.len() ==> 0 <= #[trigger] places[i] < len
    &&& forall|i: int, j: int|
        0 <= i < j < places.len() ==> #[trigger] places[i] < #[trigger] places[j]
}

/// The rows of a run at the given places.
pub open spec fn rows_at(rows: Seq<(Seq<u8>, Seq<u8>)>, places: Seq<int>) -> Seq<
    (Seq<u8>, Seq<u8>),
> {
    Seq::new(places.len(), |i: int| rows[places[i]])
}

/// Whether a walk that ended with `r` showed `f` the rows at `places`, going
/// forward through the run.
pub open spec fn walked<F: FnMut(&[u8], &[u8]) -> Result<bool, Error>>(
    f: F,
    rows: Seq<(Seq<u8>, Seq<u8>)>,
    places: Seq<int>,
    r: Result<(), Error>,
) -> bool {
    forward(places, rows.len() as int) && answered(f, rows_at(rows, places), r)
}

/// Whether a scan from `start` that ended with `r` did with the cursor's
/// run what a scan is to do. With any cursor it went forward through the
/// run, showing `f` no row twice. An exact cursor was swept from the first
/// row whose key is not before `start`.
pub open spec fn scanned<F: FnMut(&[u8], &[u8]) -> Result<bool, Error>>(
    f: F,
    rows: Seq<(Seq<u8>, Seq<u8>)>,
    exact: bool,
    start: Seq<u8>,
    r: Result<(), Error>,
) -> bool {
    &&& exists|places: Seq<int>| #[trigger] walked(f, rows, places, r)
    &&& exact ==> exists|from: int| #[trigger]
        is_lower_bound(rows, start, from) && swept(f, rows.subrange(from, rows.len() as int), r)
}

/// A run whose rows from `from` up to `at` were all answered with "go on",
/// and whose row at `at`, if there is one, decided the result, was swept
/// from `from` on.
proof fn lemma_swept_tail<F: FnMut(&[u8], &[u8]) -> Result<bool, Error>>(
    f: F,
    rows: Seq<(Seq<u8>, Seq<u8>)>,
    from: int,
    at: int,
    r: Result<(), Error>,
)
    requires
        0 <= from <= at <= rows.len(),
        forall|i: int| from <= i < at ==> shown(f, #[trigger] rows[i], Ok(true)),
        match r {
            Ok(()) => at == rows.len() || shown(f, rows[at], Ok(false)),
            Err(e) => at < rows.len() && shown(f, rows[at], Err(e)),
        },
    ensures
        swept(f, rows.subrange(from, rows.len() as int), r),
{
    let tail = rows.subrange(from, rows.len() as int);
    assert forall|i: int| 0 <= i < at - from implies shown(f, #[trigger] tail[i], Ok(true)) by {
        assert(tail[i] == rows[from + i]);
    }
    if at < rows.len() {
        assert(tail[at - from] == rows[at]);
    }
    assert(swept_to(f, tail, r, at - from));
}

/// Places that were all answered with "go on", with one more place behind
/// them whose row was answered with `last`, make a walk that ends as
/// `last` says.
proof fn lemma_walked_on<F: FnMut(&[u8], &[u8]) -> Result<bool, Error>>(
    f: F,
    rows: Seq<(Seq<u8>, Seq<u8>)>,
    places: Seq<int>,
    at: int,
    last: Result<bool, Error>,
)
    requires
        forward(places, at),
        0 <= at < rows.len(),
        forall|i: int| 0 <= i < places.len() ==> shown(f, rows[#[trigger] places[i]], Ok(true)),
        shown(f, rows[at], last),
    ensures
        forward(places.push(at), rows.len() as int),
        walked(
            f,
            rows,
            places.push(at),
            match last {
                Ok(_) => Ok(()),
                Err(e) => Err(e),
            },
        ),
{
    let longer = places.push(at);
    let seen = rows_at(rows, longer);
    assert forall|i: int| 0 <= i < longer.len() implies 0 <= #[trigger] longer[i] < rows.len() by {
        if i < places.len() {
            assert(longer[i] == places[i]);
        }
    }
    assert forall|i: int, j: int| 0 <= i < j < longer.len() implies #[trigger] longer[i]
        < #[trigger] longer[j] by {
        assert(longer[i] == places[i]);
        if j < places.len() {
            assert(longer[j] == places[j]);
        }
    }
    assert forall|i: int| 0 <= i < seen.len() - 1 implies shown(f, #[trigger] seen[i], Ok(true)) by {
        assert(longer[i] == places[i]);
    }
    assert(seen.last() == rows[at]);
    match last {
        Ok(go_on) => {
            assert(go_on ==> last == Ok::<bool, Error>(true));
            assert(!go_on ==> last == Ok::<bool, Error>(false));
        },
        Err(e) => {},
    }
}

/// Walks `it` from the first key that is not before `start_key`, showing
/// each pair to `f` in ascending order of key. The walk ends when `f`
/// answers `false`, when the cursor is used up or fails to advance, or,
/// with that error, when `f` fails.
pub fn scan_impl<C, F>(it: C, start_key: &[u8], f: &mut F) -> (r: Result<(), Error>) where
    C: Cursor,
    F: FnMut(&[u8], &[u8]) -> Result<bool, Error>,

    requires
        forall|k: &[u8], v: &[u8]| call_requires(*old(f), (k, v)),
    ensures
        *final(f) == *old(f),
        scanned(*old(f), it.rows(), it.exact(), start_key@, r),
{
    broadcast use vstd::function::group_function_axioms;

    let mut cursor = it;
    let ghost rows = it.rows();
    let ghost exact = it.exact();
    let ghost len = rows.len() as int;
    let ghost f0 = *f;
    cursor.seek(start_key);
    let ghost from = cursor.position();
    let ghost places = Seq::<int>::empty();
    while cursor.valid()
        invariant
            cursor.rows() == rows,
            cursor.exact() == exact,
            it.rows() == rows,
            it.exact() == exact,
            len == rows.len(),
            *f == f0,
            f0 == *old(f),
            forall|k: &[u8], v: &[u8]| call_requires(f0, (k, v)),
            0 <= from <= len,
            0 <= cursor.position() <= len,
            forward(places, cursor.position()),
            forall|i: int| 0 <= i < places.len() ==> shown(f0, rows[#[trigger] places[i]], Ok(true)),
            exact ==> is_lower_bound(rows, start_key@, from),
            exact ==> from <= cursor.position(),
            exact ==> forall|i: int|
                from <= i < cursor.position() ==> shown(f0, #[trigger] rows[i], Ok(true)),
        decreases len - cursor.position(),
    {
        let ghost at = cursor.position();
        let k = cursor.key();
        let v = cursor.value();
        let answer = f(k, v);
        assert(call_ensures(f0, (k, v), answer));
        assert(shown(f0, rows[at], answer));
        proof {
            lemma_walked_on(f0, rows, places, at, answer);
        }
        match answer {
            Err(e) => {
                proof {
                    if exact {
                        lemma_swept_tail(f0, rows, from, at, Err::<(), Error>(e));
                    }
                }
                return Err(e);
            },
            Ok(false) => {
                proof {
                    if exact {
                        lemma_swept_tail(f0, rows, from, at, Ok::<(), Error>(()));
                    }
                }
                return Ok(());
            },
            Ok(true) => {
                if !cursor.next() {
                    proof {
                        if exact {
                            lemma_swept_tail(f0, rows, from, len, Ok::<(), Error>(()));
                        }
                    }
                    return Ok(());
                }
                proof {
                    let longer = places.push(at);
                    assert forall|i: int| 0 <= i < longer.len() implies shown(
                        f0,
                        rows[#[trigger] longer[i]],
                        Ok(true),
                    ) by {
                        if i < places.len() {
                            assert(longer[i] == places[i]);
                        }
                    }
                    assert forall|i: int| 0 <= i < longer.len() implies 0 <= #[trigger] longer[i]
                        < cursor.position() by {}
                    places = longer;
                }
            },
        }
    }
    proof {
        if exact {
            lemma_swept_tail(f0, rows, from, len, Ok::<(), Error>(()));
        }
        let seen = rows_at(rows, places);
        assert(forward(places, len)) by {
            assert forall|i: int| 0 <= i < places.len() implies 0 <= #[trigger] places[i] < len by {}
        }
        if seen.len() > 0 {
            assert(seen.last() == rows[places[places.len() - 1]]);
        }
        assert(walked(f0, rows, places, Ok::<(), Error>(())));
    }
    Ok(())
}

/// Whether `it` is a cursor freshly made over `table` under the options
/// `opt`: it ranges over the pairs under the upper bound, is not yet on a
/// pair, and is exact where the store is reliable and seeks by total order.
pub open spec fn opened<C: Cursor + ?Sized>(
    it: &C,
    table: Map<Seq<u8>, Seq<u8>>,
    opt: IterOptionView,
    reliable: bool,
) -> bool {
    &&& lists(it.rows(), table, opt.upper_bound)
    &&& it.position() == it.rows().len()
    &&& (reliable && !opt.prefix_seek) ==> it.exact()
}

/// Whether `seen` are pairs of `table` with keys under `end`, in ascending
/// order of key.
pub open spec fn picked(
    seen: Seq<(Seq<u8>, Seq<u8>)>,
    table: Map<Seq<u8>, Seq<u8>>,
    end: Seq<u8>,
) -> bool {
    &&& forall|i: int, j: int|
        0 <= i < j < seen.len() ==> key_lt(#[trigger] seen[i].0, #[trigger] seen[j].0)
    &&& forall|i: int|
        0 <= i < seen.len() ==> {
            &&& table.contains_key(#[trigger] seen[i].0)
            &&& table[seen[i].0] == seen[i].1
            &&& key_lt(seen[i].0, end)
        }
}

/// Whether a scan of `table` over the half-open range from `start` to `end`
/// that ended with `r` did what a scan is to do. In any case it showed `f`
/// pairs of the table under `end` in ascending order of key, none twice,
/// until `f` said "stop" or failed, and an error is the one that `f` gave.
/// Where the store is reliable, the pairs shown are those of the range from
/// its first on, with none left out.
pub open spec fn scanned_range<F: FnMut(&[u8], &[u8]) -> Result<bool, Error>>(
    f: F,
    table: Map<Seq<u8>, Seq<u8>>,
    reliable: bool,
    start: Seq<u8>,
    end: Seq<u8>,
    r: Result<(), Error>,
) -> bool {
    &&& exists|seen: Seq<(Seq<u8>, Seq<u8>)>| #[trigger]
        picked(seen, table, end) && answered(f, seen, r)
    &&& reliable ==> exists|rows: Seq<(Seq<u8>, Seq<u8>)>| #[trigger]
        lists_range(rows, table, start, end) && swept(f, rows, r)
}

/// Whether `pair` answers a seek for `key` in `table`: a pair that is given
/// is one of the table, and where the store is reliable it is the first
/// whose key is not before `key`, or `None` where there is no such pair.
pub open spec fn sought(
    table: Map<Seq<u8>, Seq<u8>>,
    reliable: bool,
    key: Seq<u8>,
    pair: Option<(Vec<u8>, Vec<u8>)>,
) -> bool {
    &&& pair matches Some((k, v)) ==> table.contains_key(k@) && table[k@] == v@
    &&& reliable ==> is_first_from(table, key, pair_view(pair))
}

/// The rows from a lower bound of `start` on, of a listing under `end`, list
/// the half-open range from `start` to `end`.
pub proof fn lemma_tail_lists_range(
    rows: Seq<(Seq<u8>, Seq<u8>)>,
    table: Map<Seq<u8>, Seq<u8>>,
    start: Seq<u8>,
    end: Seq<u8>,
    from: int,
)
    requires
        lists(rows, table, Some(end)),
        is_lower_bound(rows, start, from),
    ensures
        lists_range(rows.subrange(from, rows.len() as int), table, start, end),
{
    let tail = rows.subrange(from, rows.len() as int);
    assert forall|i: int, j: int| 0 <= i < j < tail.len() implies key_lt(
        #[trigger] tail[i].0,
        #[trigger] tail[j].0,
    ) by {
        assert(tail[i] == rows[from + i] && tail[j] == rows[from + j]);
    }
    assert forall|i: int| 0 <= i < tail.len() implies {
        &&& table.contains_key(#[trigger] tail[i].0)
        &&& table[tail[i].0] == tail[i].1
        &&& !key_lt(tail[i].0, start)
        &&& key_lt(tail[i].0, end)
    } by {
        assert(tail[i] == rows[from + i]);
    }
    assert forall|k: Seq<u8>| #[trigger]
        table.contains_key(k) && !key_lt(k, start) && key_lt(k, end) implies exists|i: int|
        0 <= i < tail.len() && #[trigger] tail[i].0 == k by {
        let i = choose|i: int| 0 <= i < rows.len() && #[trigger] rows[i].0 == k;
        assert(i >= from);
        assert(tail[i - from].0 == k);
    }
}

/// In a complete listing, the row at the lower bound of `key` is the first
/// pair of the table whose key is not before `key`.
pub proof fn lemma_lower_bound_is_first(
    rows: Seq<(Seq<u8>, Seq<u8>)>,
    table: Map<Seq<u8>, Seq<u8>>,
    key: Seq<u8>,
    at: int,
)
    requires
        lists(rows, table, None),
        is_lower_bound(rows, key, at),
    ensures
        is_first_from(
            table,
            key,
            if at < rows.len() {
                Some(rows[at])
            } else {
                None
            },
        ),
{
    if at < rows.len() {
        let k = rows[at].0;
        assert forall|other: Seq<u8>| #[trigger]
            table.contains_key(other) && !key_lt(other, key) implies !key_lt(other, k) by {
            let i = choose|i: int| 0 <= i < rows.len() && #[trigger] rows[i].0 == other;
            if i == at {
                lemma_key_lt_irreflexive(k);
            } else {
                assert(i > at);
                lemma_key_lt_asymmetric(k, other);
            }
        }
    } else {
        assert forall|other: Seq<u8>| #[trigger] table.contains_key(other) implies key_lt(
            other,
            key,
        ) by {
            let i = choose|i: int| 0 <= i < rows.len() && #[trigger] rows[i].0 == other;
        }
    }
}

/// A source of cursors: the live store or a point-in-time view of it.
pub trait Iterable: Store {
    /// The cursors that this source makes.
    type Iter: Cursor;

    /// A cursor over the default keyspace, not yet on a pair, that honours
    /// the upper bound and the seek mode of `iter_opt`.
    fn new_iterator(&self, iter_opt: IterOption) -> (it: Self::Iter)
        ensures
            match self.cf_table(default_cf()) {
                Some(table) => opened(&it, table, iter_opt@, self.reliable()),
                None => it.rows().len() == 0 && it.position() == 0,
            },
    ;

    /// A cursor over the family named `cf`. The name must be known.
    fn new_iterator_cf(&self, cf: &str, iter_opt: IterOption) -> (r: Result<Self::Iter, Error>)
        ensures
            match self.cf_table(cf@) {
                Some(table) => r matches Ok(it) && opened(&it, table, iter_opt@, self.reliable()),
                None => r matches Err(e) && is_unknown_cf(e, cf@),
            },
    ;

    /// Shows `f` every pair of the default keyspace whose key lies in the
    /// half-open range from `start_key` to `end_key`, in ascending order of
    /// key, until `f` answers `false` or fails.
    fn scan<F>(&self, start_key: &[u8], end_key: &[u8], fill_cache: bool, f: &mut F) -> (r: Result<
        (),
        Error,
    >) where F: FnMut(&[u8], &[u8]) -> Result<bool, Error>
        requires
            forall|k: &[u8], v: &[u8]| call_requires(*old(f), (k, v)),
        ensures
            *final(f) == *old(f),
            match self.cf_table(default_cf()) {
                Some(table) => scanned_range(
                    *old(f),
                    table,
                    self.reliable(),
                    start_key@,
                    end_key@,
                    r,
                ),
                None => r is Ok,
            },
    {
        let iter_opt = IterOption::new(Some(slice_to_vec(end_key)), fill_cache);
        let it = self.new_iterator(iter_opt);
        let r = scan_impl(it, start_key, f);
        proof {
            if let Some(table) = self.cf_table(default_cf()) {
                lemma_scanned_range(*old(f), it.rows(), it.exact(), table, start_key@, end_key@, r);
            }
        }
        r
    }

    /// Like [`Iterable::scan`], on the family named `cf`.
    fn scan_cf<F>(
        &self,
        cf: &str,
        start_key: &[u8],
        end_key: &[u8],
        fill_cache: bool,
        f: &mut F,
    ) -> (r: Result<(), Error>) where F: FnMut(&[u8], &[u8]) -> Result<bool, Error>
        requires
            forall|k: &[u8], v: &[u8]| call_requires(*old(f), (k, v)),
        ensures
            *final(f) == *old(f),
            match self.cf_table(cf@) {
                Some(table) => scanned_range(
                    *old(f),
                    table,
                    self.reliable(),
                    start_key@,
                    end_key@,
                    r,
                ),
                None => r matches Err(e) && is_unknown_cf(e, cf@),
            },
    {
        let iter_opt = IterOption::new(Some(slice_to_vec(end_key)), fill_cache);
        let it = self.new_iterator_cf(cf, iter_opt)?;
        let r = scan_impl(it, start_key, f);
        proof {
            let table = self.cf_table(cf@).unwrap();
            lemma_scanned_range(*old(f), it.rows(), it.exact(), table, start_key@, end_key@, r);
        }
        r
    }

    /// The first pair of the default keyspace whose key is not before
    /// `key`, or `None` where there is none.
    fn seek(&self, key: &[u8]) -> (r: Result<Option<(Vec<u8>, Vec<u8>)>, Error>)
        ensures
            match self.cf_table(default_cf()) {
                Some(table) => r matches Ok(pair) && sought(table, self.reliable(), key@, pair),
                None => r matches Ok(pair) && pair is None,
            },
    {
        let mut it = self.new_iterator(IterOption::default());
        it.seek(key);
        let pair = it.kv();
        proof {
            if let Some(table) = self.cf_table(default_cf()) {
                lemma_sought(it.rows(), it.exact(), table, key@, it.position(), pair);
            }
        }
        Ok(pair)
    }

    /// Like [`Iterable::seek`], in the family named `cf`.
    fn seek_cf(&self, cf: &str, key: &[u8]) -> (r: Result<Option<(Vec<u8>, Vec<u8>)>, Error>)
        ensures
            match self.cf_table(cf@) {
                Some(table) => r matches Ok(pair) && sought(table, self.reliable(), key@, pair),
                None => r matches Err(e) && is_unknown_cf(e, cf@),
            },
    {
        let mut it = self.new_iterator_cf(cf, IterOption::default())?;
        it.seek(key);
        let pair = it.kv();
        proof {
            lemma_sought(it.rows(), it.exact(), self.cf_table(cf@).unwrap(), key@, it.position(), pair);
        }
        Ok(pair)
    }
}

/// The pair that a cursor over a complete listing is on after a seek for
/// `key` answers the seek.
pub proof fn lemma_sought(
    rows: Seq<(Seq<u8>, Seq<u8>)>,
    exact: bool,
    table: Map<Seq<u8>, Seq<u8>>,
    key: Seq<u8>,
    at: int,
    pair: Option<(Vec<u8>, Vec<u8>)>,
)
    requires
        lists(rows, table, None),
        0 <= at <= rows.len(),
        exact ==> is_lower_bound(rows, key, at),
        pair_view(pair) == if at < rows.len() {
            Some(rows[at])
        } else {
            None
        },
    ensures
        sought(table, exact, key, pair),
{
    if at < rows.len() {
        let row = rows[at];
        assert(table.contains_key(row.0) && table[row.0] == row.1);
    }
    if exact {
        lemma_lower_bound_is_first(rows, table, key, at);
    }
}

/// What a scan did with a cursor that lists a table under `end`, it did
/// with the table's half-open range from `start` to `end`.
pub proof fn lemma_scanned_range<F: FnMut(&[u8], &[u8]) -> Result<bool, Error>>(
    f: F,
    rows: Seq<(Seq<u8>, Seq<u8>)>,
    exact: bool,
    table: Map<Seq<u8>, Seq<u8>>,
    start: Seq<u8>,
    end: Seq<u8>,
    r: Result<(), Error>,
)
    requires
        lists(rows, table, Some(end)),
        scanned(f, rows, exact, start, r),
    ensures
        scanned_range(f, table, exact, start, end, r),
{
    let places = choose|places: Seq<int>| #[trigger] walked(f, rows, places, r);
    let seen = rows_at(rows, places);
    assert forall|i: int, j: int| 0 <= i < j < seen.len() implies key_lt(
        #[trigger] seen[i].0,
        #[trigger] seen[j].0,
    ) by {
        assert(places[i] < places[j]);
        assert(key_lt(rows[places[i]].0, rows[places[j]].0));
    }
    assert forall|i: int| 0 <= i < seen.len() implies {
        &&& table.contains_key(#[trigger] seen[i].0)
        &&& table[seen[i].0] == seen[i].1
        &&& key_lt(seen[i].0, end)
    } by {
        assert(0 <= places[i] < rows.len());
        assert(table.contains_key(rows[places[i]].0));
    }
    assert(picked(seen, table, end) && answered(f, seen, r));
    if exact {
        let from = choose|from: int| #[trigger]
            is_lower_bound(rows, start, from) && swept(f, rows.subrange(from, rows.len() as int), r);
        lemma_tail_lists_range(rows, table, start, end, from);
        let tail = rows.subrange(from, rows.len() as int);
        assert(lists_range(tail, table, start, end) && swept(f, tail, r));
    }
}

} // verus!
