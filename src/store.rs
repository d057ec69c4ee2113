use vstd::prelude::*;

use crate::content_hash::ContentHash;
use crate::hashing::{self, Canonical};
use crate::model;
use crate::memory::Memory;
use crate::sqlite::Sqlite;
use crate::ty::{Ty, Vanth, join_path};

verus! {

/// Why a store operation failed.
#[derive(Clone, Debug, PartialEq, Eq)]
pub enum StoreError {
    /// A value could not be turned into or read from its stored bytes.
    Serializiation(String),
    /// The table of a type does not exist yet.
    SqliteTableDoesNotExist { table_name: String },
    /// Any other failure of the database engine, with its description.
    SqliteUnknown(String),
    /// A stored hash does not hold 32 bytes.
    InvalidStoredHash,
    /// The store was opened read-only and the operation would change it.
    ReadOnly,
    /// The value has no canonical encoding, so it has no content hash.
    Hashing(hashing::EncodeError),
}

/// How a persistent store is opened.
#[derive(Clone, Copy, Debug, PartialEq, Eq, Structural)]
pub struct StoreParams {
    /// Create the database file if it does not exist (unless read-only).
    pub create_if_not_exists: bool,
    /// Refuse every operation that would change the store.
    pub read_only: bool,
}

impl Default for StoreParams {
    fn default() -> (r: Self)
        ensures
            r.create_if_not_exists && !r.read_only,
    {
        StoreParams { create_if_not_exists: true, read_only: false }
    }
}

/// The content of a found record, as bytes.
pub open spec fn found_bytes(found: Option<Vec<u8>>) -> Option<Seq<u8>> {
    match found {
        Some(c) => Some(c@),
        None => None,
    }
}

/// The (hash, content) pairs of a listing, as bytes.
pub open spec fn listed_bytes(r: Seq<(ContentHash, Vec<u8>)>) -> Seq<(Seq<u8>, Seq<u8>)> {
    r.map_values(|e: (ContentHash, Vec<u8>)| (e.0.bytes(), e.1@))
}

/// Storage for blobs keyed by type name and content hash.
///
/// Where `exact()` holds, `records()` is what the backend holds and every operation acts on it
/// as the record model says. A read-only backend refuses every operation that would change it.
pub trait Backend {
    /// The records held, where `exact()` holds.
    spec fn records(&self) -> model::Records;

    /// Whether `records()` is exactly what the backend holds.
    spec fn exact(&self) -> bool;

    /// Whether the backend refuses every change.
    spec fn read_only(&self) -> bool;

    /// The content stored under a type name and a hash; `None` where there is none.
    fn get_from_hash(&mut self, ty: Ty, content_hash: ContentHash) -> (r: Result<
        Option<Vec<u8>>,
        StoreError,
    >)
        ensures
            final(self).exact() == old(self).exact(),
            final(self).read_only() == old(self).read_only(),
            r matches Err(x) ==> !(x is SqliteTableDoesNotExist),
            old(self).exact() ==> final(self).records() == old(self).records(),
            old(self).exact() ==> (r matches Ok(found) && found_bytes(found) == model::lookup(
                old(self).records(),
                ty.text(),
                content_hash.bytes(),
            )),
    ;

    /// Every record of a type name, each once; empty where the type has none.
    fn get_all_of_ty(&mut self, ty: Ty) -> (r: Result<Vec<(ContentHash, Vec<u8>)>, StoreError>)
        ensures
            final(self).exact() == old(self).exact(),
            final(self).read_only() == old(self).read_only(),
            r matches Err(x) ==> !(x is SqliteTableDoesNotExist),
            old(self).exact() ==> final(self).records() == old(self).records(),
            old(self).exact() ==> (r matches Ok(list) && model::lists_partition(
                listed_bytes(list@),
                model::partition(old(self).records(), ty.text()),
            )),
    ;

    /// Stores `content` under a type name and a hash, replacing what was there.
    fn write(&mut self, ty: Ty, content_hash: ContentHash, content: Vec<u8>) -> (r: Result<
        (),
        StoreError,
    >)
        ensures
            final(self).exact() == old(self).exact(),
            final(self).read_only() == old(self).read_only(),
            old(self).read_only() ==> r == Err::<(), StoreError>(StoreError::ReadOnly),
            !old(self).read_only() ==> r != Err::<(), StoreError>(StoreError::ReadOnly),
            old(self).exact() && old(self).read_only() ==> final(self).records() == old(
                self,
            ).records(),
            old(self).exact() && !old(self).read_only() ==> r is Ok && final(self).records()
                == model::put_record(old(self).records(), ty.text(), content_hash.bytes(), content@),
    ;

    /// Removes the record under a type name and a hash; nothing happens where there is none.
    fn delete_by_hash(&mut self, ty: Ty, content_hash: ContentHash) -> (r: Result<(), StoreError>)
        ensures
            final(self).exact() == old(self).exact(),
            final(self).read_only() == old(self).read_only(),
            r matches Err(x) ==> !(x is SqliteTableDoesNotExist),
            old(self).read_only() ==> r == Err::<(), StoreError>(StoreError::ReadOnly),
            !old(self).read_only() ==> r != Err::<(), StoreError>(StoreError::ReadOnly),
            old(self).exact() && old(self).read_only() ==> final(self).records() == old(
                self,
            ).records(),
            old(self).exact() && !old(self).read_only() ==> r is Ok && final(self).records()
                == model::delete_record(old(self).records(), ty.text(), content_hash.bytes()),
    ;

    /// Removes the whole partition of a type name; nothing happens where there is none.
    fn delete_all_of_ty(&mut self, ty: Ty) -> (r: Result<(), StoreError>)
        ensures
            final(self).exact() == old(self).exact(),
            final(self).read_only() == old(self).read_only(),
            r matches Err(x) ==> !(x is SqliteTableDoesNotExist),
            old(self).read_only() ==> r == Err::<(), StoreError>(StoreError::ReadOnly),
            !old(self).read_only() ==> r != Err::<(), StoreError>(StoreError::ReadOnly),
            old(self).exact() && old(self).read_only() ==> final(self).records() == old(
                self,
            ).records(),
            old(self).exact() && !old(self).read_only() ==> r is Ok && final(self).records()
                == model::delete_partition(old(self).records(), ty.text()),
    ;
}

/// A copy of a byte vector.
pub(crate) fn copy_bytes(v: &Vec<u8>) -> (r: Vec<u8>)
    ensures
        r@ == v@,
{
    let mut out: Vec<u8> = Vec::new();
    let mut i: usize = 0;
    while i < v.len()
        invariant
            0 <= i <= v@.len(),
            out@ == v@.subrange(0, i as int),
        decreases v.len() - i,
    {
        out.push(v[i]);
        i = i + 1;
        assert(out@ =~= v@.subrange(0, i as int));
    }
    assert(v@.subrange(0, i as int) =~= v@);
    out
}

/// The text of the name of a type that the store can hold.
pub open spec fn type_text<T: Vanth>() -> Seq<char> {
    join_path(T::name_segments())
}

/// A stored value of type `T`, by its hash and its stored bytes.
#[derive(Debug)]
pub struct ComponentContents<T: Vanth> {
    content_hash: ContentHash,
    data: Vec<u8>,
    _marker: core::marker::PhantomData<T>,
}

impl<T: Vanth> ComponentContents<T> {
    /// The hash the value is stored under.
    pub closed spec fn hash_bytes(&self) -> Seq<u8> {
        self.content_hash.bytes()
    }

    /// The stored bytes.
    pub closed spec fn data_bytes(&self) -> Seq<u8> {
        self.data@
    }

    /// The hash the value is stored under.
    pub fn content_hash(&self) -> (r: ContentHash)
        ensures
            r.bytes() == self.hash_bytes(),
    {
        self.content_hash
    }

    /// The stored bytes.
    pub fn data(&self) -> (r: &Vec<u8>)
        ensures
            r@ == self.data_bytes(),
    {
        &self.data
    }
}

/// The (hash, content) pairs of a list of stored values, as bytes.
pub open spec fn components_bytes<T: Vanth>(r: Seq<ComponentContents<T>>) -> Seq<(Seq<u8>, Seq<u8>)> {
    r.map_values(|c: ComponentContents<T>| (c.hash_bytes(), c.data_bytes()))
}

/// The entry point: a backend, with content hashing for values that are written.
pub struct Store<B: Backend> {
    backend: B,
}

impl Store<Memory> {
    /// A store that keeps its records in memory, empty.
    pub fn in_memory() -> (r: Result<Self, StoreError>)
        ensures
            r matches Ok(s) && s.exact() && !s.read_only() && s.records() == Map::<
                (Seq<char>, Seq<u8>),
                Seq<u8>,
            >::empty(),
    {
        Ok(Store { backend: Memory::new() })
    }
}

impl Store<Sqlite> {
    /// Removes the record with the given hash from every partition.
    pub fn delete_from_every_partition(&mut self, content_hash: ContentHash) -> (r: Result<
        (),
        StoreError,
    >)
        ensures
            old(self).read_only() ==> r == Err::<(), StoreError>(StoreError::ReadOnly),
            !old(self).read_only() ==> (r matches Err(x) ==> (x is SqliteUnknown
                || x is SqliteTableDoesNotExist)),
            final(self).read_only() == old(self).read_only(),
    {
        self.backend.delete_from_every_partition(content_hash)
    }
}

impl<B: Backend> Store<B> {
    /// The records held, where `exact()` holds.
    pub closed spec fn records(&self) -> model::Records {
        self.backend.records()
    }

    /// Whether `records()` is exactly what the store holds.
    pub closed spec fn exact(&self) -> bool {
        self.backend.exact()
    }

    /// Whether the store refuses every change.
    pub closed spec fn read_only(&self) -> bool {
        self.backend.read_only()
    }

    /// A store over the given backend.
    pub fn new(backend: B) -> (r: Self)
        ensures
            r.records() == backend.records(),
            r.exact() == backend.exact(),
            r.read_only() == backend.read_only(),
    {
        Store { backend }
    }

    /// The bytes stored for a value of type `T` under a hash; `None` where there are none.
    /// Decoding them into a `T` is left to the caller's codec.
    pub fn get_from_hash<T: Vanth>(&mut self, content_hash: ContentHash) -> (r: Result<
        Option<Vec<u8>>,
        StoreError,
    >)
        ensures
            final(self).exact() == old(self).exact(),
            final(self).read_only() == old(self).read_only(),
            r matches Err(x) ==> !(x is SqliteTableDoesNotExist),
            old(self).exact() ==> final(self).records() == old(self).records(),
            old(self).exact() ==> (r matches Ok(found) && found_bytes(found) == model::lookup(
                old(self).records(),
                type_text::<T>(),
                content_hash.bytes(),
            )),
    {
        self.get_from_hash_raw(T::ty(), content_hash)
    }

    /// The bytes stored under a type name and a hash; `None` where there are none.
    pub fn get_from_hash_raw(&mut self, ty: Ty, content_hash: ContentHash) -> (r: Result<
        Option<Vec<u8>>,
        StoreError,
    >)
        ensures
            final(self).exact() == old(self).exact(),
            final(self).read_only() == old(self).read_only(),
            r matches Err(x) ==> !(x is SqliteTableDoesNotExist),
            old(self).exact() ==> final(self).records() == old(self).records(),
            old(self).exact() ==> (r matches Ok(found) && found_bytes(found) == model::lookup(
                old(self).records(),
                ty.text(),
                content_hash.bytes(),
            )),
    {
        self.backend.get_from_hash(ty, content_hash)
    }

    /// Every stored value of type `T`, each once.
    pub fn get_all_of_type<T: Vanth>(&mut self) -> (r: Result<Vec<ComponentContents<T>>, StoreError>)
        ensures
            final(self).exact() == old(self).exact(),
            final(self).read_only() == old(self).read_only(),
            r matches Err(x) ==> !(x is SqliteTableDoesNotExist),
            old(self).exact() ==> final(self).records() == old(self).records(),
            old(self).exact() ==> (r matches Ok(list) && model::lists_partition(
                components_bytes(list@),
                model::partition(old(self).records(), type_text::<T>()),
            )),
    {
        let raw = self.get_all_of_type_raw(T::ty())?;
        let mut results: Vec<ComponentContents<T>> = Vec::new();
        let mut i: usize = 0;
        while i < raw.len()
            invariant
                0 <= i <= raw@.len(),
                components_bytes(results@) == listed_bytes(raw@).subrange(0, i as int),
            decreases raw.len() - i,
        {
            let item = ComponentContents {
                content_hash: raw[i].0,
                data: copy_bytes(&raw[i].1),
                _marker: core::marker::PhantomData,
            };
            assert(item.hash_bytes() == raw@[i as int].0.bytes());
            assert(item.data_bytes() == raw@[i as int].1@);
            let ghost before = results@;
            results.push(item);
            proof {
                assert(components_bytes(results@) =~= components_bytes(before).push(
                    (item.hash_bytes(), item.data_bytes()),
                ));
            }
            i = i + 1;
            assert(components_bytes(results@) =~= listed_bytes(raw@).subrange(0, i as int));
        }
        assert(listed_bytes(raw@).subrange(0, i as int) =~= listed_bytes(raw@));
        Ok(results)
    }

    /// Stores a value of type `T`: `value` is its canonical form, from which its content hash
    /// is computed, and `content` its serialized bytes. Returns the hash.
    pub fn write<T: Vanth>(&mut self, value: &Canonical, content: Vec<u8>) -> (r: Result<
        ContentHash,
        StoreError,
    >)
        ensures
            final(self).exact() == old(self).exact(),
            final(self).read_only() == old(self).read_only(),
            old(self).read_only() && old(self).exact() ==> final(self).records() == old(
                self,
            ).records(),
            match hashing::encoding(*value) {
                Err(e) => r == Err::<ContentHash, StoreError>(StoreError::Hashing(e)) && (old(self).exact()
                    ==> final(self).records() == old(self).records()),
                Ok(b) => (old(self).read_only() ==> r == Err::<ContentHash, StoreError>(StoreError::ReadOnly))
                    && (!old(self).read_only() ==> r != Err::<ContentHash, StoreError>(
                    StoreError::ReadOnly,
                ))
                    && (old(self).exact() && !old(self).read_only() ==> (r matches Ok(h) && h.bytes()
                    == hashing::blake3_of(b) && final(self).records() == model::put_record(
                    old(self).records(),
                    type_text::<T>(),
                    h.bytes(),
                    content@,
                ))),
            },
    {
        let content_hash = match hashing::hash(value) {
            Ok(h) => h,
            Err(e) => return Err(StoreError::Hashing(e)),
        };
        self.write_raw(T::ty(), content_hash, content)?;
        Ok(content_hash)
    }

    /// Stores `content` under a type name and a hash that the caller vouches for; the hash is
    /// not checked against the content.
    pub fn write_raw(&mut self, ty: Ty, content_hash: ContentHash, content: Vec<u8>) -> (r: Result<
        (),
        StoreError,
    >)
        ensures
            final(self).exact() == old(self).exact(),
            final(self).read_only() == old(self).read_only(),
            old(self).read_only() ==> r == Err::<(), StoreError>(StoreError::ReadOnly),
            !old(self).read_only() ==> r != Err::<(), StoreError>(StoreError::ReadOnly),
            old(self).exact() && old(self).read_only() ==> final(self).records() == old(
                self,
            ).records(),
            old(self).exact() && !old(self).read_only() ==> r is Ok && final(self).records()
                == model::put_record(old(self).records(), ty.text(), content_hash.bytes(), content@),
    {
        self.backend.write(ty, content_hash, content)
    }

    /// Removes the value of type `T` stored under a hash, if any.
    pub fn delete<T: Vanth>(&mut self, content_hash: ContentHash) -> (r: Result<(), StoreError>)
        ensures
            final(self).exact() == old(self).exact(),
            final(self).read_only() == old(self).read_only(),
            r matches Err(x) ==> !(x is SqliteTableDoesNotExist),
            old(self).read_only() ==> r == Err::<(), StoreError>(StoreError::ReadOnly),
            !old(self).read_only() ==> r != Err::<(), StoreError>(StoreError::ReadOnly),
            old(self).exact() && old(self).read_only() ==> final(self).records() == old(
                self,
            ).records(),
            old(self).exact() && !old(self).read_only() ==> r is Ok && final(self).records()
                == model::delete_record(old(self).records(), type_text::<T>(), content_hash.bytes()),
    {
        self.delete_raw(T::ty(), content_hash)
    }

    /// Removes every value of type `T`.
    pub fn delete_all<T: Vanth>(&mut self) -> (r: Result<(), StoreError>)
        ensures
            final(self).exact() == old(self).exact(),
            final(self).read_only() == old(self).read_only(),
            r matches Err(x) ==> !(x is SqliteTableDoesNotExist),
            old(self).read_only() ==> r == Err::<(), StoreError>(StoreError::ReadOnly),
            !old(self).read_only() ==> r != Err::<(), StoreError>(StoreError::ReadOnly),
            old(self).exact() && old(self).read_only() ==> final(self).records() == old(
                self,
            ).records(),
            old(self).exact() && !old(self).read_only() ==> r is Ok && final(self).records()
                == model::delete_partition(old(self).records(), type_text::<T>()),
    {
        self.delete_all_raw(T::ty())
    }

    /// Every record stored under a type name, each once.
    pub fn get_all_of_type_raw(&mut self, ty: Ty) -> (r: Result<Vec<(ContentHash, Vec<u8>)>, StoreError>)
        ensures
            final(self).exact() == old(self).exact(),
            final(self).read_only() == old(self).read_only(),
            r matches Err(x) ==> !(x is SqliteTableDoesNotExist),
            old(self).exact() ==> final(self).records() == old(self).records(),
            old(self).exact() ==> (r matches Ok(list) && model::lists_partition(
                listed_bytes(list@),
                model::partition(old(self).records(), ty.text()),
            )),
    {
        self.backend.get_all_of_ty(ty)
    }

    /// Removes the record under a type name and a hash, if any.
    pub fn delete_raw(&mut self, ty: Ty, content_hash: ContentHash) -> (r: Result<(), StoreError>)
        ensures
            final(self).exact() == old(self).exact(),
            final(self).read_only() == old(self).read_only(),
            r matches Err(x) ==> !(x is SqliteTableDoesNotExist),
            old(self).read_only() ==> r == Err::<(), StoreError>(StoreError::ReadOnly),
            !old(self).read_only() ==> r != Err::<(), StoreError>(StoreError::ReadOnly),
            old(self).exact() && old(self).read_only() ==> final(self).records() == old(
                self,
            ).records(),
            old(self).exact() && !old(self).read_only() ==> r is Ok && final(self).records()
                == model::delete_record(old(self).records(), ty.text(), content_hash.bytes()),
    {
        self.backend.delete_by_hash(ty, content_hash)
    }

    /// Removes every record stored under a type name.
    pub fn delete_all_raw(&mut self, ty: Ty) -> (r: Result<(), StoreError>)
        ensures
            final(self).exact() == old(self).exact(),
            final(self).read_only() == old(self).read_only(),
            r matches Err(x) ==> !(x is SqliteTableDoesNotExist),
            old(self).read_only() ==> r == Err::<(), StoreError>(StoreError::ReadOnly),
            !old(self).read_only() ==> r != Err::<(), StoreError>(StoreError::ReadOnly),
            old(self).exact() && old(self).read_only() ==> final(self).records() == old(
                self,
            ).records(),
            old(self).exact() && !old(self).read_only() ==> r is Ok && final(self).records()
                == model::delete_partition(old(self).records(), ty.text()),
    {
        self.backend.delete_all_of_ty(ty)
    }
}

} // verus!
