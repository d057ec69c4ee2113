use vstd::prelude::*;

verus! {

/// What a store holds: each record's content, keyed by the text of its type name and the
/// bytes of its content hash.
pub type Records = Map<(Seq<char>, Seq<u8>), Seq<u8>>;

/// The content stored under a type name and a hash, if any.
pub open spec fn lookup(m: Records, tag: Seq<char>, hash: Seq<u8>) -> Option<Seq<u8>> {
    if m.contains_key((tag, hash)) {
        Some(m[(tag, hash)])
    } else {
        None
    }
}

/// The partition of a type name: its records, keyed by hash.
pub open spec fn partition(m: Records, tag: Seq<char>) -> Map<Seq<u8>, Seq<u8>> {
    Map::new(|h: Seq<u8>| m.contains_key((tag, h)), |h: Seq<u8>| m[(tag, h)])
}

/// The records after storing `content` under a type name and a hash, replacing what was there.
pub open spec fn put_record(m: Records, tag: Seq<char>, hash: Seq<u8>, content: Seq<u8>) -> Records {
    m.insert((tag, hash), content)
}

/// The records after removing the one under a type name and a hash, if any.
pub open spec fn delete_record(m: Records, tag: Seq<char>, hash: Seq<u8>) -> Records {
    m.remove((tag, hash))
}

/// The records after removing the whole partition of a type name.
pub open spec fn delete_partition(m: Records, tag: Seq<char>) -> Records {
    Map::new(
        |k: (Seq<char>, Seq<u8>)| m.contains_key(k) && k.0 != tag,
        |k: (Seq<char>, Seq<u8>)| m[k],
    )
}

/// A list of (hash, content) pairs holds each record of a partition exactly once.
pub open spec fn lists_partition(r: Seq<(Seq<u8>, Seq<u8>)>, part: Map<Seq<u8>, Seq<u8>>) -> bool {
    &&& forall|i: int|
        0 <= i < r.len() ==> part.contains_key(#[trigger] r[i].0) && part[r[i].0] == r[i].1
    &&& forall|h: Seq<u8>| part.contains_key(h) ==> exists|i: int| 0 <= i < r.len() && #[trigger] r[i].0 == h
    &&& forall|i: int, j: int| 0 <= i < r.len() && 0 <= j < r.len() && #[trigger] r[i].0 == #[trigger] r[j].0 ==> i == j
}

/// A fresh store holds nothing: every lookup finds nothing and every partition is empty.
pub proof fn law_absence(tag: Seq<char>, hash: Seq<u8>)
    ensures
        lookup(Map::empty(), tag, hash) is None,
        partition(Map::empty(), tag) == Map::<Seq<u8>, Seq<u8>>::empty(),
{
    assert(partition(Map::empty(), tag) =~= Map::<Seq<u8>, Seq<u8>>::empty());
}

/// Storing a record under one type name leaves the partition of every other type name as it was.
pub proof fn law_partition_isolation(
    m: Records,
    tag_a: Seq<char>,
    tag_b: Seq<char>,
    hash: Seq<u8>,
    content: Seq<u8>,
)
    requires
        tag_a != tag_b,
    ensures
        partition(put_record(m, tag_a, hash, content), tag_b) == partition(m, tag_b),
        forall|h: Seq<u8>| lookup(put_record(m, tag_a, hash, content), tag_b, h) == lookup(m, tag_b, h),
{
    assert(partition(put_record(m, tag_a, hash, content), tag_b) =~= partition(m, tag_b));
}

/// Storing the same record twice leaves the store as storing it once does.
pub proof fn law_overwrite_idempotence(m: Records, tag: Seq<char>, hash: Seq<u8>, content: Seq<u8>)
    ensures
        put_record(put_record(m, tag, hash, content), tag, hash, content) == put_record(
            m,
            tag,
            hash,
            content,
        ),
{
    assert(put_record(put_record(m, tag, hash, content), tag, hash, content) =~= put_record(
        m,
        tag,
        hash,
        content,
    ));
}

/// A record that was stored is found again under its type name and hash.
pub proof fn law_round_trip(m: Records, tag: Seq<char>, hash: Seq<u8>, content: Seq<u8>)
    ensures
        lookup(put_record(m, tag, hash, content), tag, hash) == Some(content),
{
}

/// After removing a record it is not found; after removing a partition, the partition is empty
/// and nothing is found in it.
pub proof fn law_deletion(m: Records, tag: Seq<char>, hash: Seq<u8>, any_hash: Seq<u8>)
    ensures
        lookup(delete_record(m, tag, hash), tag, hash) is None,
        partition(delete_partition(m, tag), tag) == Map::<Seq<u8>, Seq<u8>>::empty(),
        lookup(delete_partition(m, tag), tag, any_hash) is None,
{
    assert(partition(delete_partition(m, tag), tag) =~= Map::<Seq<u8>, Seq<u8>>::empty());
}

} // verus!
