//! Point-in-time views of a store in memory.

use std::sync::Arc;
use vstd::prelude::*;
use crate::error::Error;
use crate::iterable::Iterable;
use crate::mem::{MemCursor, MemEngine};
use crate::options::IterOption;
use crate::peekable::Peekable;
use crate::store::{default_cf, shows, Store};

verus! {

/// An immutable view of a store as it was when the view was taken. Writes
/// to the store after that moment do not show in it, and it offers no way
/// to write.
pub struct Snapshot {
    frozen: MemEngine,
}

impl Store for Snapshot {
    closed spec fn cf_table(&self, cf: Seq<char>) -> Option<Map<Seq<u8>, Seq<u8>>> {
        self.frozen.cf_table(cf)
    }

    open spec fn reliable(&self) -> bool {
        true
    }
}

impl Snapshot {
    /// The view of `db` as it is now.
    pub fn new(db: &MemEngine) -> (snap: Snapshot)
        ensures
            shows(&snap, db),
    {
        Snapshot { frozen: db.duplicate() }
    }

    /// The same view, for several owners.
    pub fn into_sync(self) -> (shared: SyncSnapshot)
        ensures
            shows(&shared, &self),
    {
        SyncSnapshot(Arc::new(self))
    }

    /// The names of the families in the view, the default one first.
    pub fn cf_names(&self) -> (names: Vec<String>)
        ensures
            names@.len() >= 1,
            names@[0]@ == default_cf(),
            forall|cf: Seq<char>|
                self.cf_table(cf) is Some <==> exists|i: int|
                    0 <= i < names@.len() && (#[trigger] names@[i])@ == cf,
    {
        self.frozen.cf_names()
    }
}

impl Peekable for Snapshot {
    fn get_value(&self, key: &[u8]) -> (r: Result<Option<Vec<u8>>, Error>)
        ensures
            r is Ok,
    {
        self.frozen.get_value(key)
    }

    fn get_value_cf(&self, cf: &str, key: &[u8]) -> (r: Result<Option<Vec<u8>>, Error>) {
        self.frozen.get_value_cf(cf, key)
    }
}

impl Iterable for Snapshot {
    type Iter = MemCursor;

    fn new_iterator(&self, iter_opt: IterOption) -> (it: MemCursor) {
        self.frozen.new_iterator(iter_opt)
    }

    fn new_iterator_cf(&self, cf: &str, iter_opt: IterOption) -> (r: Result<MemCursor, Error>) {
        self.frozen.new_iterator_cf(cf, iter_opt)
    }
}

/// One point-in-time view with several owners. Every clone shows the same
/// view; the view is given up when the last owner lets go of it.
pub struct SyncSnapshot(Arc<Snapshot>);

/// `Arc::clone`: a further owner of the value that `a` owns.
#[verifier::external_body]
fn share(a: &Arc<Snapshot>) -> (b: Arc<Snapshot>)
    ensures
        *b == **a,
{
    Arc::clone(a)
}

impl Store for SyncSnapshot {
    closed spec fn cf_table(&self, cf: Seq<char>) -> Option<Map<Seq<u8>, Seq<u8>>> {
        self.0.cf_table(cf)
    }

    open spec fn reliable(&self) -> bool {
        true
    }
}

impl SyncSnapshot {
    /// The view of `db` as it is now, ready to be shared.
    pub fn new(db: &MemEngine) -> (shared: SyncSnapshot)
        ensures
            shows(&shared, db),
    {
        SyncSnapshot(Arc::new(Snapshot::new(db)))
    }

    /// A further owner of the same view.
    pub fn clone(&self) -> (other: SyncSnapshot)
        ensures
            shows(&other, self),
    {
        SyncSnapshot(share(&self.0))
    }

    /// The view that the owners share.
    pub fn snapshot(&self) -> (snap: &Snapshot)
        ensures
            shows(snap, self),
    {
        &self.0
    }
}

impl Peekable for SyncSnapshot {
    fn get_value(&self, key: &[u8]) -> (r: Result<Option<Vec<u8>>, Error>)
        ensures
            r is Ok,
    {
        self.0.get_value(key)
    }

    fn get_value_cf(&self, cf: &str, key: &[u8]) -> (r: Result<Option<Vec<u8>>, Error>) {
        self.0.get_value_cf(cf, key)
    }
}

impl Iterable for SyncSnapshot {
    type Iter = MemCursor;

    fn new_iterator(&self, iter_opt: IterOption) -> (it: MemCursor) {
        self.0.new_iterator(iter_opt)
    }

    fn new_iterator_cf(&self, cf: &str, iter_opt: IterOption) -> (r: Result<MemCursor, Error>) {
        self.0.new_iterator_cf(cf, iter_opt)
    }
}

} // verus!
