//! Writes, raw and typed.

use vstd::prelude::*;
use protobuf::ProtobufError;
use crate::codec::{be_bytes, encode_u64, to_unsigned};
use crate::error::Error;
use crate::message::bytes_from_encoded;
use crate::store::{default_cf, same_store, with_pair, without_key, written, Store};

verus! {

/// How a typed write of a message to family `cf` relates the store before
/// and after to its result: a message that could not be serialised is a
/// codec error that hands the failure on, and nothing is written;
/// otherwise its bytes are stored.
pub open spec fn written_msg<S: Store + ?Sized>(
    before: &S,
    after: &S,
    cf: Seq<char>,
    key: Seq<u8>,
    encoded: Result<Vec<u8>, ProtobufError>,
    r: Result<(), Error>,
) -> bool {
    match encoded {
        Ok(bytes) => written(before, after, cf, with_pair(key, bytes@), r),
        Err(failure) => same_store(before, after) && r == Err::<(), Error>(Error::Codec(failure)),
    }
}

/// Something that takes writes: the live store or a batch of writes. A
/// point-in-time view is not one.
pub trait Mutable: Store {
    /// Stores `value` under `key` in the default keyspace, in place of what
    /// was there.
    fn put(&mut self, key: &[u8], value: &[u8]) -> (r: Result<(), Error>)
        ensures
            written(&*old(self), &*final(self), default_cf(), with_pair(key@, value@), r),
    ;

    /// Stores `value` under `key` in the family named `cf`.
    fn put_cf(&mut self, cf: &str, key: &[u8], value: &[u8]) -> (r: Result<(), Error>)
        ensures
            written(&*old(self), &*final(self), cf@, with_pair(key@, value@), r),
    ;

    /// Removes `key` from the default keyspace. Removing a key that is not
    /// there is no error.
    fn delete(&mut self, key: &[u8]) -> (r: Result<(), Error>)
        ensures
            written(&*old(self), &*final(self), default_cf(), without_key(key@), r),
    ;

    /// Stores a message, given as the outcome of serialising it.
    fn put_msg(&mut self, key: &[u8], encoded: Result<Vec<u8>, ProtobufError>) -> (r: Result<
        (),
        Error,
    >)
        ensures
            written_msg(&*old(self), &*final(self), default_cf(), key@, encoded, r),
    {
        let value = bytes_from_encoded(encoded)?;
        self.put(key, value.as_slice())?;
        Ok(())
    }

    /// Like [`Mutable::put_msg`], in the family named `cf`.
    fn put_msg_cf(
        &mut self,
        cf: &str,
        key: &[u8],
        encoded: Result<Vec<u8>, ProtobufError>,
    ) -> (r: Result<(), Error>)
        ensures
            written_msg(&*old(self), &*final(self), cf@, key@, encoded, r),
    {
        let value = bytes_from_encoded(encoded)?;
        self.put_cf(cf, key, value.as_slice())?;
        Ok(())
    }

    /// Stores an unsigned integer as eight big-endian bytes.
    fn put_u64(&mut self, key: &[u8], n: u64) -> (r: Result<(), Error>)
        ensures
            written(&*old(self), &*final(self), default_cf(), with_pair(key@, be_bytes(n)), r),
    {
        let value = encode_u64(n);
        self.put(key, value.as_slice())?;
        Ok(())
    }

    /// Stores a signed integer by its bit pattern.
    fn put_i64(&mut self, key: &[u8], n: i64) -> (r: Result<(), Error>)
        ensures
            written(
                &*old(self),
                &*final(self),
                default_cf(),
                with_pair(key@, be_bytes(to_unsigned(n))),
                r,
            ),
    {
        self.put_u64(key, n as u64)
    }

    /// Removes `key` from the default keyspace.
    fn del(&mut self, key: &[u8]) -> (r: Result<(), Error>)
        ensures
            written(&*old(self), &*final(self), default_cf(), without_key(key@), r),
    {
        self.delete(key)?;
        Ok(())
    }
}

} // verus!
