use vstd::prelude::*;

use crate::content_hash::ContentHash;
use crate::hashing::{self, Canonical};
use crate::ty::Ty;

verus! {

/// Bytes stored for a value, with the name of the value's type.
#[derive(Clone, Debug)]
pub struct Value {
    ty: Ty,
    data: Vec<u8>,
}

/// The encodings of texts, one after the other.
pub open spec fn texts_encoding(texts: Seq<Seq<char>>) -> Seq<u8>
    decreases texts.len(),
{
    if texts.len() == 0 {
        Seq::empty()
    } else {
        texts_encoding(texts.drop_last()) + vstd::utf8::encode_utf8(texts.last())
    }
}

/// The canonical encoding of a value with type name segments `path` and bytes `data`: a
/// two-field struct whose first field is a one-field struct holding the list of segments, and
/// whose second field is the list of bytes.
pub open spec fn value_encoding(path: Seq<Seq<char>>, data: Seq<u8>) -> Seq<u8> {
    hashing::be_bytes(2, 16) + hashing::be_bytes(1, 16) + hashing::be_bytes(path.len(), 16)
        + texts_encoding(path) + hashing::be_bytes(data.len(), 16) + data
}

impl Value {
    /// A value of the given type with the given bytes.
    pub fn new(ty: Ty, data: Vec<u8>) -> (r: Value)
        ensures
            r.ty_path() == ty@,
            r.data_bytes() == data@,
    {
        Value { ty, data }
    }

    /// The segments of the type name.
    pub closed spec fn ty_path(&self) -> Seq<Seq<char>> {
        self.ty@
    }

    /// The bytes.
    pub closed spec fn data_bytes(&self) -> Seq<u8> {
        self.data@
    }

    /// The canonical form of the value.
    pub fn canonical(&self) -> (r: Canonical)
        ensures
            hashing::encoding(r) == Ok::<Seq<u8>, hashing::EncodeError>(
                value_encoding(self.ty_path(), self.data_bytes()),
            ),
    {
        let mut segments: Vec<Canonical> = Vec::new();
        let mut i: usize = 0;
        while i < self.ty.path.len()
            invariant
                0 <= i <= self.ty.path@.len(),
                segments@.len() == i,
                hashing::items_encoding(segments@) == Ok::<Seq<u8>, hashing::EncodeError>(
                    texts_encoding(self.ty@.subrange(0, i as int)),
                ),
            decreases self.ty.path.len() - i,
        {
            let item = Canonical::Str(self.ty.path[i].clone());
            let ghost before = segments@;
            segments.push(item);
            proof {
                assert(segments@.subrange(0, segments@.len() - 1) =~= before);
                assert(segments@[segments@.len() - 1] == item);
                assert(self.ty@[i as int] == self.ty.path@[i as int]@);
                assert(hashing::encoding(item) == Ok::<Seq<u8>, hashing::EncodeError>(
                    vstd::utf8::encode_utf8(self.ty@[i as int]),
                ));
                assert(self.ty@.subrange(0, i + 1).drop_last() =~= self.ty@.subrange(0, i as int));
                assert(self.ty@.subrange(0, i + 1).last() == self.ty@[i as int]);
            }
            i = i + 1;
        }
        proof {
            assert(self.ty@.subrange(0, i as int) =~= self.ty@);
        }
        let mut bytes: Vec<Canonical> = Vec::new();
        let mut j: usize = 0;
        assert(self.data@.subrange(0, 0) =~= Seq::<u8>::empty());
        while j < self.data.len()
            invariant
                0 <= j <= self.data@.len(),
                bytes@.len() == j,
                hashing::items_encoding(bytes@) == Ok::<Seq<u8>, hashing::EncodeError>(
                    self.data@.subrange(0, j as int),
                ),
            decreases self.data.len() - j,
        {
            let item = Canonical::U8(self.data[j]);
            let ghost before = bytes@;
            bytes.push(item);
            proof {
                reveal_with_fuel(hashing::be_bytes, 2);
                assert(bytes@.subrange(0, bytes@.len() - 1) =~= before);
                assert(bytes@[bytes@.len() - 1] == item);
                assert(hashing::be_bytes(self.data@[j as int] as nat, 1) =~= seq![self.data@[j as int]]);
                assert(self.data@.subrange(0, j as int) + seq![self.data@[j as int]] =~= self.data@.subrange(0, j + 1));
                assert(hashing::encoding(item) == Ok::<Seq<u8>, hashing::EncodeError>(seq![self.data@[j as int]]));
                assert(hashing::items_encoding(bytes@) == Ok::<Seq<u8>, hashing::EncodeError>(
                    self.data@.subrange(0, j as int) + seq![self.data@[j as int]],
                ));
            }
            j = j + 1;
        }
        proof {
            assert(self.data@.subrange(0, j as int) =~= self.data@);
        }
        let n = segments.len();
        let m = bytes.len();
        let path = Canonical::Sequence(Some(n), segments);
        let mut ty_fields: Vec<Canonical> = Vec::new();
        ty_fields.push(path);
        let ty = Canonical::Sequence(Some(1), ty_fields);
        let data = Canonical::Sequence(Some(m), bytes);
        let mut fields: Vec<Canonical> = Vec::new();
        fields.push(ty);
        fields.push(data);
        proof {
            let one = seq![path];
            assert(ty_fields@ =~= one);
            assert(one.subrange(0, 0) =~= Seq::<Canonical>::empty());
            assert(fields@.subrange(0, 1) =~= seq![ty]);
            assert(fields@.subrange(0, 1).subrange(0, 0) =~= Seq::<Canonical>::empty());
            let p = hashing::be_bytes(n as nat, 16) + texts_encoding(self.ty@);
            assert(hashing::encoding(path) == Ok::<Seq<u8>, hashing::EncodeError>(p));
            assert(hashing::items_encoding(one) == Ok::<Seq<u8>, hashing::EncodeError>(Seq::<u8>::empty() + p));
            assert(Seq::<u8>::empty() + p =~= p);
            let t = hashing::be_bytes(1, 16) + p;
            assert(hashing::encoding(ty) == Ok::<Seq<u8>, hashing::EncodeError>(t));
            let d = hashing::be_bytes(m as nat, 16) + self.data@;
            assert(hashing::encoding(data) == Ok::<Seq<u8>, hashing::EncodeError>(d));
            assert(hashing::items_encoding(seq![ty]) == Ok::<Seq<u8>, hashing::EncodeError>(Seq::<u8>::empty() + t));
            assert(Seq::<u8>::empty() + t =~= t);
            assert(hashing::items_encoding(fields@) == Ok::<Seq<u8>, hashing::EncodeError>(t + d));
            let r = Canonical::Sequence(Some(2), fields);
            assert(hashing::encoding(r) == Ok::<Seq<u8>, hashing::EncodeError>(hashing::be_bytes(2, 16) + (t + d)));
            assert(hashing::be_bytes(2, 16) + (t + d) =~= value_encoding(self.ty@, self.data@));
        }
        Canonical::Sequence(Some(2), fields)
    }
}

/// A value together with its content hash.
#[derive(Clone, Debug)]
pub struct HashedValue {
    content_hash: ContentHash,
    inner: Value,
}

impl HashedValue {
    /// The hash the value was given.
    pub closed spec fn hash_bytes(&self) -> Seq<u8> {
        self.content_hash.bytes()
    }

    /// Hashes a value: its hash is the digest of its canonical encoding.
    pub fn from(value: Value) -> (r: HashedValue)
        ensures
            r.hash_bytes() == hashing::blake3_of(value_encoding(value.ty_path(), value.data_bytes())),
            r.value_path() == value.ty_path(),
            r.value_data() == value.data_bytes(),
    {
        let canonical = value.canonical();
        // The canonical form states every length, so the error arm is never taken.
        let content_hash = match hashing::hash(&canonical) {
            Ok(h) => h,
            Err(_) => ContentHash { hash: [0u8; 32] },
        };
        HashedValue { content_hash, inner: value }
    }

    /// The type name segments of the value that was hashed.
    pub closed spec fn value_path(&self) -> Seq<Seq<char>> {
        self.inner.ty_path()
    }

    /// The bytes of the value that was hashed.
    pub closed spec fn value_data(&self) -> Seq<u8> {
        self.inner.data_bytes()
    }

    /// The value that was hashed.
    pub fn value(&self) -> (r: &Value)
        ensures
            r.ty_path() == self.value_path(),
            r.data_bytes() == self.value_data(),
    {
        &self.inner
    }

    /// The content hash.
    pub fn content_hash(&self) -> (r: ContentHash)
        ensures
            r.bytes() == self.hash_bytes(),
    {
        self.content_hash
    }
}

} // verus!
