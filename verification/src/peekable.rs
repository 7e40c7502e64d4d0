//! Point lookups, raw and typed.

use vstd::prelude::*;
use protobuf::ProtobufError;
use crate::codec::{decode_u64, decoded_u64, to_signed};
use crate::error::Error;
use crate::message::{decoded_msg, msg_from_value};
use crate::store::{default_cf, fetched, is_unknown_cf, lookup, Store};

verus! {

/// What reading a stored value as an unsigned integer gives: absence stays
/// absence, eight bytes are the integer, anything else is refused.
pub open spec fn u64_of(held: Option<Seq<u8>>) -> Result<Option<u64>, Error> {
    match held {
        None => Ok(None),
        Some(bytes) => match decoded_u64(bytes) {
            Ok(n) => Ok(Some(n)),
            Err(e) => Err(e),
        },
    }
}

/// What reading a stored value as a signed integer gives.
pub open spec fn i64_of(held: Option<Seq<u8>>) -> Result<Option<i64>, Error> {
    match u64_of(held) {
        Ok(Some(n)) => Ok(Some(to_signed(n))),
        Ok(None) => Ok(None),
        Err(e) => Err(e),
    }
}

/// How a typed result `r` for `key` in family `cf` relates to the store,
/// where `typed` says what the held value reads as: an unknown family is an
/// error; in a known one the result is the typed reading of what the table
/// holds, unless the store failed, which a reliable store does not.
pub open spec fn fetched_as<S: Store + ?Sized, T>(
    store: &S,
    cf: Seq<char>,
    key: Seq<u8>,
    typed: spec_fn(Option<Seq<u8>>) -> Result<Option<T>, Error>,
    r: Result<Option<T>, Error>,
) -> bool {
    match store.cf_table(cf) {
        None => r matches Err(e) && is_unknown_cf(e, cf),
        Some(table) => r == typed(lookup(table, key)) || (r matches Err(e) && e is Storage
            && !store.reliable()),
    }
}

/// How a message result `r` for `key` in family `cf` relates to the store
/// and the parser.
pub open spec fn fetched_msg<S: Store + ?Sized, M, P: FnOnce(&[u8]) -> Result<M, ProtobufError>>(
    store: &S,
    cf: Seq<char>,
    key: Seq<u8>,
    parse: P,
    r: Result<Option<M>, Error>,
) -> bool {
    match store.cf_table(cf) {
        None => r matches Err(e) && is_unknown_cf(e, cf),
        Some(table) => decoded_msg(parse, lookup(table, key), r) || (r matches Err(e) && e is Storage
            && !store.reliable()),
    }
}

/// Reads the outcome of a raw lookup as an unsigned integer.
pub fn u64_from_value(value: Option<Vec<u8>>) -> (r: Result<Option<u64>, Error>)
    ensures
        r == u64_of(crate::store::value_view(value)),
{
    match value {
        None => Ok(None),
        Some(bytes) => match decode_u64(bytes.as_slice()) {
            Ok(n) => Ok(Some(n)),
            Err(e) => Err(e),
        },
    }
}

/// A source of point lookups: the live store or a point-in-time view of it.
pub trait Peekable: Store {
    /// Looks `key` up in the default keyspace. A key that is not there is
    /// `Ok(None)`, never an error.
    fn get_value(&self, key: &[u8]) -> (r: Result<Option<Vec<u8>>, Error>)
        ensures
            fetched(self, default_cf(), key@, r),
    ;

    /// Looks `key` up in the family named `cf`.
    fn get_value_cf(&self, cf: &str, key: &[u8]) -> (r: Result<Option<Vec<u8>>, Error>)
        ensures
            fetched(self, cf@, key@, r),
    ;

    /// Looks `key` up and parses what is found as a message. A value that
    /// does not parse is an error, not absence.
    fn get_msg<M, P>(&self, key: &[u8], parse: P) -> (r: Result<Option<M>, Error>) where
        P: FnOnce(&[u8]) -> Result<M, ProtobufError>,

        requires
            forall|bytes: &[u8]| call_requires(parse, (bytes,)),
        ensures
            fetched_msg(self, default_cf(), key@, parse, r),
    {
        let value = self.get_value(key)?;
        msg_from_value(value, parse)
    }

    /// Like [`Peekable::get_msg`], in the family named `cf`.
    fn get_msg_cf<M, P>(&self, cf: &str, key: &[u8], parse: P) -> (r: Result<Option<M>, Error>) where
        P: FnOnce(&[u8]) -> Result<M, ProtobufError>,

        requires
            forall|bytes: &[u8]| call_requires(parse, (bytes,)),
        ensures
            fetched_msg(self, cf@, key@, parse, r),
    {
        let value = self.get_value_cf(cf, key)?;
        msg_from_value(value, parse)
    }

    /// Looks `key` up and reads what is found as an eight-byte big-endian
    /// integer. A value of another width is an error that tells the width.
    fn get_u64(&self, key: &[u8]) -> (r: Result<Option<u64>, Error>)
        ensures
            fetched_as(self, default_cf(), key@, |held: Option<Seq<u8>>| u64_of(held), r),
    {
        let value = self.get_value(key)?;
        u64_from_value(value)
    }

    /// Like [`Peekable::get_u64`], with the integer read as signed.
    fn get_i64(&self, key: &[u8]) -> (r: Result<Option<i64>, Error>)
        ensures
            fetched_as(self, default_cf(), key@, |held: Option<Seq<u8>>| i64_of(held), r),
    {
        let r = self.get_u64(key)?;
        match r {
            None => Ok(None),
            Some(n) => Ok(Some(n as i64)),
        }
    }
}

} // verus!
