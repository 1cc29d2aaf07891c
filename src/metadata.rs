//! User-defined metadata of a repository: named values stored as bytes.

use vstd::prelude::*;
use vstd::slice::slice_to_vec;
use vstd::bytes::{spec_u64_from_le_bytes, spec_u64_to_le_bytes, u64_from_le_bytes, u64_to_le_bytes, lemma_auto_spec_u64_to_from_le_bytes};
use vstd::string::StringSliceAdditionalSpecFns;
use crate::error::Error;
use crate::table::ByteTable;

verus! {

/// A value that can be read back from its stored bytes.
pub trait MetadataGet: Sized {
    /// The value that `bytes` hold, if they hold one.
    spec fn spec_decode(bytes: Seq<u8>) -> Option<Self>;

    fn decode(bytes: &[u8]) -> (r: Option<Self>)
        ensures
            r == Self::spec_decode(bytes@);
}

/// A value that can be stored as bytes.
pub trait MetadataSet: Sized {
    /// The bytes that store `value`.
    spec fn spec_encode(value: Self) -> Seq<u8>;

    fn encode(&self) -> (r: Vec<u8>)
        ensures
            r@ == Self::spec_encode(*self);
}

impl MetadataGet for bool {
    open spec fn spec_decode(bytes: Seq<u8>) -> Option<bool> {
        if bytes.len() == 1 && bytes[0] <= 1 {
            Some(bytes[0] == 1)
        } else {
            None
        }
    }

    fn decode(bytes: &[u8]) -> (r: Option<bool>) {
        if bytes.len() == 1 && bytes[0] <= 1 {
            Some(bytes[0] == 1)
        } else {
            None
        }
    }
}

impl MetadataSet for bool {
    open spec fn spec_encode(value: bool) -> Seq<u8> {
        seq![if value { 1u8 } else { 0u8 }]
    }

    fn encode(&self) -> (r: Vec<u8>) {
        let mut r: Vec<u8> = Vec::new();
        r.push(if *self { 1u8 } else { 0u8 });
        assert(r@ =~= seq![if *self { 1u8 } else { 0u8 }]);
        r
    }
}

impl MetadataGet for u64 {
    open spec fn spec_decode(bytes: Seq<u8>) -> Option<u64> {
        if bytes.len() == 8 {
            Some(spec_u64_from_le_bytes(bytes))
        } else {
            None
        }
    }

    fn decode(bytes: &[u8]) -> (r: Option<u64>) {
        if bytes.len() == 8 {
            Some(u64_from_le_bytes(bytes))
        } else {
            None
        }
    }
}

impl MetadataSet for u64 {
    open spec fn spec_encode(value: u64) -> Seq<u8> {
        spec_u64_to_le_bytes(value)
    }

    fn encode(&self) -> (r: Vec<u8>) {
        u64_to_le_bytes(*self)
    }
}

/// Accessor for the user-defined metadata of a repository.
pub struct Metadata {
    values: ByteTable<Vec<u8>>,
}

impl Metadata {
    pub closed spec fn wf(&self) -> bool {
        self.values.wf()
    }

    /// Stored bytes by name.
    pub closed spec fn spec_values(&self) -> Map<Seq<u8>, Seq<u8>> {
        self.values.view().map_values(|v: Vec<u8>| v@)
    }

    pub fn new() -> (r: Metadata)
        ensures
            r.wf(),
            r.spec_values().is_empty(),
    {
        let r = Metadata { values: ByteTable::new() };
        assert(r.spec_values() =~= Map::<Seq<u8>, Seq<u8>>::empty());
        r
    }

    /// The value stored under `name`. Fails with `EntryNotFound` when there is none, and
    /// with `MalformedData` when its bytes do not decode as a `T`.
    pub fn get<T: MetadataGet>(&self, name: &str) -> (r: Result<T, Error>)
        requires
            self.wf(),
        ensures
            !self.spec_values().contains_key(name.spec_bytes()) ==> r == Err::<T, Error>(
                Error::EntryNotFound,
            ),
            self.spec_values().contains_key(name.spec_bytes()) ==> r == match T::spec_decode(
                self.spec_values()[name.spec_bytes()],
            ) {
                Some(v) => Ok::<T, Error>(v),
                None => Err::<T, Error>(Error::MalformedData),
            },
    {
        match self.values.get(name.as_bytes()) {
            Some(bytes) => match T::decode(bytes.as_slice()) {
                Some(v) => Ok(v),
                None => Err(Error::MalformedData),
            },
            None => Err(Error::EntryNotFound),
        }
    }

    /// Stores `value` under `name`, replacing what was there.
    pub fn set<T: MetadataSet>(&mut self, name: &str, value: T)
        requires
            old(self).wf(),
        ensures
            final(self).wf(),
            final(self).spec_values() == old(self).spec_values().insert(
                name.spec_bytes(),
                T::spec_encode(value),
            ),
    {
        let bytes = value.encode();
        let key = slice_to_vec(name.as_bytes());
        self.values.insert(key, bytes);
        assert(self.spec_values() =~= old(self).spec_values().insert(
            name.spec_bytes(),
            T::spec_encode(value),
        ));
    }

    /// Removes the value stored under `name`, if any.
    pub fn remove(&mut self, name: &str)
        requires
            old(self).wf(),
        ensures
            final(self).wf(),
            final(self).spec_values() == old(self).spec_values().remove(name.spec_bytes()),
    {
        self.values.remove(name.as_bytes());
        assert(self.spec_values() =~= old(self).spec_values().remove(name.spec_bytes()));
    }
}

/// A value set and then read back under the same name is the value set, for every type
/// whose decoding inverts its encoding.
pub proof fn lemma_set_then_get<T: MetadataGet + MetadataSet>(
    before: Map<Seq<u8>, Seq<u8>>,
    name: Seq<u8>,
    value: T,
)
    requires
        T::spec_decode(T::spec_encode(value)) == Some(value),
    ensures
        ({
            let after = before.insert(name, T::spec_encode(value));
            after.contains_key(name) && T::spec_decode(after[name]) == Some(value)
        }),
{
}

/// Decoding inverts encoding for `bool` and for `u64`.
pub proof fn lemma_values_round_trip(flag: bool, number: u64)
    ensures
        <bool as MetadataGet>::spec_decode(<bool as MetadataSet>::spec_encode(flag)) == Some(flag),
        <u64 as MetadataGet>::spec_decode(<u64 as MetadataSet>::spec_encode(number)) == Some(number),
{
    lemma_auto_spec_u64_to_from_le_bytes();
}

} // verus!
