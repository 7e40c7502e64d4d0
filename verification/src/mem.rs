//! A store in memory.
//!
//! It implements the read, iteration and mutation contracts on tables kept
//! in memory, never fails, and so shows what the contracts promise of a
//! reliable store. A store on a device implements the same contracts
//! outside this library.

use vstd::prelude::*;
use crate::error::Error;
use crate::iterable::{Cursor, Iterable};
use crate::memtable::MemTable;
use crate::mutable::Mutable;
use crate::options::IterOption;
use crate::peekable::Peekable;
use crate::store::{default_cf, same_store, Store};

verus! {

/// A cursor over a copy of the part of a table that an iteration ranges
/// over.
pub struct MemCursor {
    part: MemTable,
    pos: usize,
}

impl MemCursor {
    #[verifier::type_invariant]
    spec fn in_range(self) -> bool {
        self.pos <= self.part.rows().len()
    }

    /// A cursor over `part` that is not yet on a pair.
    fn over(part: MemTable) -> (it: MemCursor)
        ensures
            it.rows() == part.rows(),
            it.position() == part.rows().len(),
    {
        let pos = part.len();
        MemCursor { part, pos }
    }
}

impl Cursor for MemCursor {
    closed spec fn rows(&self) -> Seq<(Seq<u8>, Seq<u8>)> {
        self.part.rows()
    }

    closed spec fn position(&self) -> int {
        self.pos as int
    }

    open spec fn exact(&self) -> bool {
        true
    }

    fn seek(&mut self, key: &[u8]) -> (found: bool) {
        self.pos = self.part.lower_bound(key);
        self.pos < self.part.len()
    }

    fn valid(&self) -> (b: bool) {
        self.pos < self.part.len()
    }

    fn key(&self) -> (k: &[u8]) {
        self.part.key_at(self.pos)
    }

    fn value(&self) -> (v: &[u8]) {
        self.part.value_at(self.pos)
    }

    fn next(&mut self) -> (more: bool) {
        let len = self.part.len();
        self.pos = self.pos + 1;
        self.pos < len
    }
}

/// A named column family.
struct Family {
    name: String,
    table: MemTable,
}

/// The table of the first family named `cf`, if there is one.
spec fn named_table(families: Seq<Family>, cf: Seq<char>) -> Option<Map<Seq<u8>, Seq<u8>>>
    decreases families.len(),
{
    if families.len() == 0 {
        None
    } else {
        match named_table(families.drop_last(), cf) {
            Some(table) => Some(table),
            None => if families.last().name@ == cf {
                Some(families.last().table.table())
            } else {
                None
            },
        }
    }
}

/// Whether `at` is the place of the first family named `cf`, or `None`
/// where no family has that name.
spec fn is_first_named(families: Seq<Family>, cf: Seq<char>, at: Option<usize>) -> bool {
    match at {
        Some(i) => {
            &&& i < families.len()
            &&& families[i as int].name@ == cf
            &&& forall|j: int| 0 <= j < i ==> (#[trigger] families[j]).name@ != cf
        },
        None => forall|j: int| 0 <= j < families.len() ==> (#[trigger] families[j]).name@ != cf,
    }
}

/// The table of a name is that of the first family with the name.
proof fn lemma_named_table(families: Seq<Family>, cf: Seq<char>, at: Option<usize>)
    requires
        is_first_named(families, cf, at),
    ensures
        named_table(families, cf) == match at {
            Some(i) => Some(families[i as int].table.table()),
            None => None,
        },
    decreases families.len(),
{
    if families.len() > 0 {
        let front = families.drop_last();
        let at_front = match at {
            Some(i) => if i < front.len() {
                at
            } else {
                None
            },
            None => None,
        };
        assert forall|j: int| 0 <= j < front.len() implies front[j] == families[j] by {}
        lemma_named_table(front, cf, at_front);
    }
}

/// Replacing the table of one family changes the table of its name at most.
proof fn lemma_named_table_elsewhere(
    before: Seq<Family>,
    after: Seq<Family>,
    at: int,
    other: Seq<char>,
)
    requires
        0 <= at < before.len(),
        after.len() == before.len(),
        forall|j: int| 0 <= j < before.len() && j != at ==> after[j] == before[j],
        after[at].name@ == before[at].name@,
        other != before[at].name@,
    ensures
        named_table(after, other) == named_table(before, other),
    decreases before.len(),
{
    let front_before = before.drop_last();
    let front_after = after.drop_last();
    if at < before.len() - 1 {
        lemma_named_table_elsewhere(front_before, front_after, at, other);
    } else {
        assert(front_before =~= front_after);
    }
}

/// A store in memory: the default keyspace and the named families.
pub struct MemEngine {
    default: MemTable,
    named: Vec<Family>,
}

impl Store for MemEngine {
    closed spec fn cf_table(&self, cf: Seq<char>) -> Option<Map<Seq<u8>, Seq<u8>>> {
        if cf == default_cf() {
            Some(self.default.table())
        } else {
            named_table(self.named@, cf)
        }
    }

    open spec fn reliable(&self) -> bool {
        true
    }
}

impl MemEngine {
    /// A store with an empty default keyspace and no other family.
    pub fn new() -> (db: MemEngine)
        ensures
            db.cf_table(default_cf()) == Some(Map::<Seq<u8>, Seq<u8>>::empty()),
            forall|cf: Seq<char>| cf != default_cf() ==> #[trigger] db.cf_table(cf) is None,
    {
        MemEngine { default: MemTable::new(), named: Vec::new() }
    }

    /// Whether `cf` names the default keyspace.
    fn is_default(cf: &str) -> (b: bool)
        ensures
            b == (cf@ == default_cf()),
    {
        cf.to_owned() == "default".to_owned()
    }

    /// The place of the first family named `cf`.
    fn find(&self, cf: &str) -> (at: Option<usize>)
        ensures
            is_first_named(self.named@, cf@, at),
    {
        let wanted = cf.to_owned();
        let mut i: usize = 0;
        while i < self.named.len()
            invariant
                i <= self.named@.len(),
                wanted@ == cf@,
                forall|j: int| 0 <= j < i ==> (#[trigger] self.named@[j]).name@ != cf@,
            decreases self.named@.len() - i,
        {
            if self.named[i].name == wanted {
                return Some(i);
            }
            i += 1;
        }
        None
    }

    /// The error for a family that is not known.
    fn unknown(cf: &str) -> (e: Error)
        ensures
            crate::store::is_unknown_cf(e, cf@),
    {
        Error::UnknownColumnFamily(cf.to_owned())
    }

    /// Makes sure that a family named `cf` exists, and tells whether it had
    /// to be made. A new family is empty; an existing one is left as it is.
    pub fn create_cf(&mut self, cf: &str) -> (made: bool)
        ensures
            made == (old(self).cf_table(cf@) is None),
            final(self).cf_table(cf@) == if made {
                Some(Map::<Seq<u8>, Seq<u8>>::empty())
            } else {
                old(self).cf_table(cf@)
            },
            forall|other: Seq<char>|
                other != cf@ ==> #[trigger] final(self).cf_table(other) == old(self).cf_table(other),
    {
        if Self::is_default(cf) {
            return false;
        }
        let at = self.find(cf);
        proof {
            lemma_named_table(self.named@, cf@, at);
        }
        if at.is_some() {
            return false;
        }
        let ghost before = self.named@;
        self.named.push(Family { name: cf.to_owned(), table: MemTable::new() });
        proof {
            assert(self.named@.drop_last() =~= before);
            assert forall|other: Seq<char>| other != cf@ implies #[trigger] self.cf_table(other)
                == old(self).cf_table(other) by {
                assert(self.named@.drop_last() =~= before);
            }
        }
        true
    }

    /// The names of the families, the default one first.
    pub fn cf_names(&self) -> (names: Vec<String>)
        ensures
            names@.len() >= 1,
            names@[0]@ == default_cf(),
            forall|cf: Seq<char>|
                self.cf_table(cf) is Some <==> exists|i: int|
                    0 <= i < names@.len() && (#[trigger] names@[i])@ == cf,
    {
        let mut names: Vec<String> = Vec::new();
        names.push("default".to_owned());
        let mut i: usize = 0;
        while i < self.named.len()
            invariant
                i <= self.named@.len(),
                names@.len() == i + 1,
                names@[0]@ == default_cf(),
                forall|j: int| 0 <= j < i ==> (#[trigger] names@[j + 1])@ == self.named@[j].name@,
            decreases self.named@.len() - i,
        {
            names.push(self.named[i].name.clone());
            i += 1;
        }
        proof {
            assert forall|cf: Seq<char>| self.cf_table(cf) is Some <==> exists|i: int|
                0 <= i < names@.len() && (#[trigger] names@[i])@ == cf by {
                lemma_named_exists(self.named@, cf);
                if cf == default_cf() {
                    assert(names@[0]@ == cf);
                } else if named_table(self.named@, cf) is Some {
                    let j = choose|j: int|
                        0 <= j < self.named@.len() && (#[trigger] self.named@[j]).name@ == cf;
                    assert(names@[j + 1]@ == cf);
                } else if exists|i: int| 0 <= i < names@.len() && (#[trigger] names@[i])@ == cf {
                    let i = choose|i: int| 0 <= i < names@.len() && (#[trigger] names@[i])@ == cf;
                    assert(names@[(i - 1) + 1]@ == self.named@[i - 1].name@);
                }
            }
        }
        names
    }

    /// A store of its own that holds what this one holds now.
    pub fn duplicate(&self) -> (copy: MemEngine)
        ensures
            same_store(self, &copy),
    {
        let mut named: Vec<Family> = Vec::new();
        let mut i: usize = 0;
        while i < self.named.len()
            invariant
                i <= self.named@.len(),
                named@.len() == i,
                forall|j: int|
                    0 <= j < i ==> (#[trigger] named@[j]).name@ == self.named@[j].name@ && named@[j].table.table()
                        == self.named@[j].table.table(),
            decreases self.named@.len() - i,
        {
            let family = Family {
                name: self.named[i].name.clone(),
                table: self.named[i].table.copy_below(None),
            };
            named.push(family);
            i += 1;
        }
        let copy = MemEngine { default: self.default.copy_below(None), named };
        proof {
            assert forall|cf: Seq<char>| #[trigger] copy.cf_table(cf) == self.cf_table(cf) by {
                lemma_named_table_same(self.named@, copy.named@, cf);
            }
        }
        copy
    }
}

/// A name has a table exactly when some family bears it.
proof fn lemma_named_exists(families: Seq<Family>, cf: Seq<char>)
    ensures
        named_table(families, cf) is Some <==> exists|j: int|
            0 <= j < families.len() && (#[trigger] families[j]).name@ == cf,
    decreases families.len(),
{
    if families.len() > 0 {
        let front = families.drop_last();
        lemma_named_exists(front, cf);
        if exists|j: int| 0 <= j < front.len() && (#[trigger] front[j]).name@ == cf {
            let j = choose|j: int| 0 <= j < front.len() && (#[trigger] front[j]).name@ == cf;
            assert(families[j].name@ == cf);
        }
        if exists|j: int| 0 <= j < families.len() && (#[trigger] families[j]).name@ == cf {
            let j = choose|j: int| 0 <= j < families.len() && (#[trigger] families[j]).name@ == cf;
            if j < front.len() {
                assert(front[j].name@ == cf);
            }
        }
    }
}

/// Families with the same names and tables, place by place, give every
/// name the same table.
proof fn lemma_named_table_same(a: Seq<Family>, b: Seq<Family>, cf: Seq<char>)
    requires
        a.len() == b.len(),
        forall|j: int|
            0 <= j < a.len() ==> (#[trigger] b[j]).name@ == a[j].name@ && b[j].table.table()
                == a[j].table.table(),
    ensures
        named_table(a, cf) == named_table(b, cf),
    decreases a.len(),
{
    if a.len() > 0 {
        assert(b.last() == b[b.len() - 1]);
        assert forall|j: int| 0 <= j < a.len() - 1 implies (#[trigger] b.drop_last()[j]).name@
            == a.drop_last()[j].name@ && b.drop_last()[j].table.table()
            == a.drop_last()[j].table.table() by {
            assert(b.drop_last()[j] == b[j]);
        }
        lemma_named_table_same(a.drop_last(), b.drop_last(), cf);
    }
}

impl Peekable for MemEngine {
    fn get_value(&self, key: &[u8]) -> (r: Result<Option<Vec<u8>>, Error>)
        ensures
            r is Ok,
    {
        Ok(self.default.get(key))
    }

    fn get_value_cf(&self, cf: &str, key: &[u8]) -> (r: Result<Option<Vec<u8>>, Error>) {
        if Self::is_default(cf) {
            return Ok(self.default.get(key));
        }
        let at = self.find(cf);
        proof {
            lemma_named_table(self.named@, cf@, at);
        }
        match at {
            Some(i) => Ok(self.named[i].table.get(key)),
            None => Err(Self::unknown(cf)),
        }
    }
}

impl Iterable for MemEngine {
    type Iter = MemCursor;

    fn new_iterator(&self, iter_opt: IterOption) -> (it: MemCursor) {
        MemCursor::over(self.default.copy_below(iter_opt.upper_bound()))
    }

    fn new_iterator_cf(&self, cf: &str, iter_opt: IterOption) -> (r: Result<MemCursor, Error>) {
        if Self::is_default(cf) {
            return Ok(self.new_iterator(iter_opt));
        }
        let at = self.find(cf);
        proof {
            lemma_named_table(self.named@, cf@, at);
        }
        match at {
            Some(i) => Ok(MemCursor::over(self.named[i].table.copy_below(iter_opt.upper_bound()))),
            None => Err(Self::unknown(cf)),
        }
    }
}

impl Mutable for MemEngine {
    fn put(&mut self, key: &[u8], value: &[u8]) -> (r: Result<(), Error>)
        ensures
            r is Ok,
    {
        self.default.put(key, value);
        Ok(())
    }

    fn put_cf(&mut self, cf: &str, key: &[u8], value: &[u8]) -> (r: Result<(), Error>) {
        if Self::is_default(cf) {
            return self.put(key, value);
        }
        let at = self.find(cf);
        proof {
            lemma_named_table(self.named@, cf@, at);
        }
        match at {
            Some(i) => {
                let ghost before = self.named@;
                self.named[i].table.put(key, value);
                proof {
                    let after = self.named@;
                    lemma_named_table(after, cf@, at);
                    assert forall|other: Seq<char>| other != cf@ implies #[trigger] self.cf_table(
                        other,
                    ) == old(self).cf_table(other) by {
                        lemma_named_table_elsewhere(before, after, i as int, other);
                    }
                }
                Ok(())
            },
            None => Err(Self::unknown(cf)),
        }
    }

    fn delete(&mut self, key: &[u8]) -> (r: Result<(), Error>)
        ensures
            r is Ok,
    {
        self.default.delete(key);
        Ok(())
    }
}

} // verus!
