use vstd::prelude::*;

use crate::content_hash::ContentHash;
use crate::model;
use crate::store::{self, Backend, StoreError, copy_bytes};
use crate::ty::Ty;

verus! {

/// One stored blob.
struct Record {
    tag: String,
    hash: ContentHash,
    content: Vec<u8>,
}

spec fn key_of(r: Record) -> (Seq<char>, Seq<u8>) {
    (r.tag@, r.hash.bytes())
}

spec fn unique_keys(s: Seq<Record>) -> bool {
    forall|i: int, j: int|
        0 <= i < s.len() && 0 <= j < s.len() && #[trigger] key_of(s[i]) == #[trigger] key_of(s[j])
            ==> i == j
}

spec fn holds_key(s: Seq<Record>, k: (Seq<char>, Seq<u8>)) -> bool {
    exists|i: int| 0 <= i < s.len() && #[trigger] key_of(s[i]) == k
}

/// The records that a list of distinct-keyed records stands for.
spec fn records_map(s: Seq<Record>) -> model::Records {
    Map::new(
        |k: (Seq<char>, Seq<u8>)| holds_key(s, k),
        |k: (Seq<char>, Seq<u8>)|
            s[choose|i: int| 0 <= i < s.len() && #[trigger] key_of(s[i]) == k].content@,
    )
}

proof fn lemma_map_at(s: Seq<Record>, i: int)
    requires
        unique_keys(s),
        0 <= i < s.len(),
    ensures
        records_map(s).contains_key(key_of(s[i])),
        records_map(s)[key_of(s[i])] == s[i].content@,
{
    let k = key_of(s[i]);
    assert(holds_key(s, k));
    let j = choose|j: int| 0 <= j < s.len() && #[trigger] key_of(s[j]) == k;
    assert(i == j);
}

proof fn lemma_map_push(s: Seq<Record>, r: Record)
    requires
        unique_keys(s),
        !holds_key(s, key_of(r)),
    ensures
        unique_keys(s.push(r)),
        records_map(s.push(r)) == records_map(s).insert(key_of(r), r.content@),
{
    let t = s.push(r);
    assert forall|i: int, j: int|
        0 <= i < t.len() && 0 <= j < t.len() && #[trigger] key_of(t[i]) == #[trigger] key_of(t[j])
        implies i == j by {
        if i < s.len() && j == s.len() {
            assert(key_of(s[i]) == key_of(r));
        } else if j < s.len() && i == s.len() {
            assert(key_of(s[j]) == key_of(r));
        }
    }
    assert forall|k: (Seq<char>, Seq<u8>)| holds_key(t, k) == (holds_key(s, k) || k == key_of(r)) by {
        if holds_key(s, k) {
            let i = choose|i: int| 0 <= i < s.len() && #[trigger] key_of(s[i]) == k;
            assert(key_of(t[i]) == k);
        }
        if k == key_of(r) {
            assert(key_of(t[s.len() as int]) == k);
        }
        if holds_key(t, k) && k != key_of(r) {
            let i = choose|i: int| 0 <= i < t.len() && #[trigger] key_of(t[i]) == k;
            assert(key_of(s[i]) == k);
        }
    }
    assert forall|k: (Seq<char>, Seq<u8>)| #[trigger] records_map(t).contains_key(k) implies records_map(t)[k]
        == records_map(s).insert(key_of(r), r.content@)[k] by {
        let i = choose|i: int| 0 <= i < t.len() && #[trigger] key_of(t[i]) == k;
        lemma_map_at(t, i);
        if i < s.len() {
            lemma_map_at(s, i);
        }
    }
    assert(records_map(t) =~= records_map(s).insert(key_of(r), r.content@));
}

proof fn lemma_map_update(s: Seq<Record>, i: int, r: Record)
    requires
        unique_keys(s),
        0 <= i < s.len(),
        key_of(s[i]) == key_of(r),
    ensures
        unique_keys(s.update(i, r)),
        records_map(s.update(i, r)) == records_map(s).insert(key_of(r), r.content@),
{
    let t = s.update(i, r);
    assert forall|a: int, b: int|
        0 <= a < t.len() && 0 <= b < t.len() && #[trigger] key_of(t[a]) == #[trigger] key_of(t[b])
        implies a == b by {
        assert(key_of(t[a]) == key_of(s[a]));
        assert(key_of(t[b]) == key_of(s[b]));
    }
    assert forall|k: (Seq<char>, Seq<u8>)| holds_key(t, k) == holds_key(s, k) by {
        if holds_key(s, k) {
            let j = choose|j: int| 0 <= j < s.len() && #[trigger] key_of(s[j]) == k;
            assert(key_of(t[j]) == k);
        }
        if holds_key(t, k) {
            let j = choose|j: int| 0 <= j < t.len() && #[trigger] key_of(t[j]) == k;
            assert(key_of(s[j]) == k);
        }
    }
    assert forall|k: (Seq<char>, Seq<u8>)| #[trigger] records_map(t).contains_key(k) implies records_map(t)[k]
        == records_map(s).insert(key_of(r), r.content@)[k] by {
        let j = choose|j: int| 0 <= j < t.len() && #[trigger] key_of(t[j]) == k;
        lemma_map_at(t, j);
        if j != i {
            lemma_map_at(s, j);
        }
    }
    assert(records_map(t) =~= records_map(s).insert(key_of(r), r.content@));
}

proof fn lemma_map_remove(s: Seq<Record>, i: int)
    requires
        unique_keys(s),
        0 <= i < s.len(),
    ensures
        unique_keys(s.remove(i)),
        records_map(s.remove(i)) == records_map(s).remove(key_of(s[i])),
{
    let t = s.remove(i);
    assert forall|a: int, b: int|
        0 <= a < t.len() && 0 <= b < t.len() && #[trigger] key_of(t[a]) == #[trigger] key_of(t[b])
        implies a == b by {
        let sa = if a < i { a } else { a + 1 };
        let sb = if b < i { b } else { b + 1 };
        assert(t[a] == s[sa]);
        assert(t[b] == s[sb]);
    }
    assert forall|k: (Seq<char>, Seq<u8>)| holds_key(t, k) == (holds_key(s, k) && k != key_of(s[i])) by {
        if holds_key(s, k) && k != key_of(s[i]) {
            let j = choose|j: int| 0 <= j < s.len() && #[trigger] key_of(s[j]) == k;
            if j < i {
                assert(key_of(t[j]) == k);
            } else {
                assert(t[j - 1] == s[j]);
                assert(key_of(t[j - 1]) == k);
            }
        }
        if holds_key(t, k) {
            let j = choose|j: int| 0 <= j < t.len() && #[trigger] key_of(t[j]) == k;
            let sj = if j < i { j } else { j + 1 };
            assert(t[j] == s[sj]);
            assert(key_of(s[sj]) == k);
        }
    }
    assert forall|k: (Seq<char>, Seq<u8>)| #[trigger] records_map(t).contains_key(k) implies records_map(t)[k]
        == records_map(s).remove(key_of(s[i]))[k] by {
        let j = choose|j: int| 0 <= j < t.len() && #[trigger] key_of(t[j]) == k;
        let sj = if j < i { j } else { j + 1 };
        assert(t[j] == s[sj]);
        lemma_map_at(t, j);
        lemma_map_at(s, sj);
    }
    assert(records_map(t) =~= records_map(s).remove(key_of(s[i])));
}

/// In-memory storage: a list of records with distinct (type name, hash) keys.
pub struct Memory {
    records: Vec<Record>,
}

impl Memory {
    #[verifier::type_invariant]
    spec fn distinct_keys(self) -> bool {
        unique_keys(self.records@)
    }

    /// The records held.
    pub closed spec fn contents(&self) -> model::Records {
        records_map(self.records@)
    }

    /// An empty store.
    pub fn new() -> (r: Memory)
        ensures
            r.contents() == Map::<(Seq<char>, Seq<u8>), Seq<u8>>::empty(),
    {
        let r = Memory { records: Vec::new() };
        assert(r.contents() =~= Map::<(Seq<char>, Seq<u8>), Seq<u8>>::empty());
        r
    }

    /// The position of the record under a type name text and a hash.
    fn find(&self, tag: &String, content_hash: &ContentHash) -> (r: Option<usize>)
        ensures
            r matches Some(i) ==> i < self.records@.len() && key_of(self.records@[i as int]) == (
                tag@,
                content_hash.bytes(),
            ),
            r is None ==> !holds_key(self.records@, (tag@, content_hash.bytes())),
    {
        let mut i: usize = 0;
        while i < self.records.len()
            invariant
                0 <= i <= self.records@.len(),
                forall|j: int| 0 <= j < i ==> #[trigger] key_of(self.records@[j]) != (tag@, content_hash.bytes()),
            decreases self.records.len() - i,
        {
            if self.records[i].tag == *tag && self.records[i].hash == *content_hash {
                return Some(i);
            }
            i = i + 1;
        }
        None
    }
}

impl Backend for Memory {
    open spec fn records(&self) -> model::Records {
        self.contents()
    }

    open spec fn exact(&self) -> bool {
        true
    }

    open spec fn read_only(&self) -> bool {
        false
    }

    fn get_from_hash(&mut self, ty: Ty, content_hash: ContentHash) -> (r: Result<
        Option<Vec<u8>>,
        StoreError,
    >) {
        proof {
            use_type_invariant(&*self);
        }
        let tag = ty.to_string();
        match self.find(&tag, &content_hash) {
            Some(i) => {
                proof {
                    lemma_map_at(self.records@, i as int);
                }
                Ok(Some(copy_bytes(&self.records[i].content)))
            },
            None => Ok(None),
        }
    }

    fn get_all_of_ty(&mut self, ty: Ty) -> (r: Result<Vec<(ContentHash, Vec<u8>)>, StoreError>) {
        proof {
            use_type_invariant(&*self);
        }
        let tag = ty.to_string();
        let ghost s = self.records@;
        let ghost t = tag@;
        let mut out: Vec<(ContentHash, Vec<u8>)> = Vec::new();
        let ghost mut origin: Seq<int> = Seq::empty();
        let mut i: usize = 0;
        while i < self.records.len()
            invariant
                s == self.records@,
                t == tag@,
                unique_keys(s),
                0 <= i <= s.len(),
                origin.len() == out@.len(),
                forall|k: int|
                    0 <= k < out@.len() ==> 0 <= #[trigger] origin[k] < i && s[origin[k]].tag@ == t
                        && s[origin[k]].hash.bytes() == out@[k].0.bytes() && s[origin[k]].content@
                        == out@[k].1@,
                forall|k1: int, k2: int|
                    0 <= k1 < k2 < out@.len() ==> #[trigger] origin[k1] < #[trigger] origin[k2],
                forall|j: int|
                    0 <= j < i && #[trigger] s[j].tag@ == t ==> exists|k: int|
                        0 <= k < out@.len() && origin[k] == j,
            decreases s.len() - i,
        {
            let ghost old_origin = origin;
            let ghost old_len = out@.len();
            if self.records[i].tag == tag {
                let entry = (self.records[i].hash, copy_bytes(&self.records[i].content));
                out.push(entry);
                proof {
                    origin = origin.push(i as int);
                    assert(origin[old_len as int] == i);
                }
            }
            proof {
                assert forall|j: int| 0 <= j < i + 1 && #[trigger] s[j].tag@ == t implies exists|k: int|
                    0 <= k < out@.len() && origin[k] == j by {
                    if j == i {
                        assert(origin[old_len as int] == j);
                    } else {
                        let k = choose|k: int| 0 <= k < old_len && old_origin[k] == j;
                        assert(origin[k] == j);
                    }
                }
            }
            i = i + 1;
        }
        proof {
            let l = store::listed_bytes(out@);
            let part = model::partition(records_map(s), t);
            assert forall|k: int| 0 <= k < l.len() implies part.contains_key(#[trigger] l[k].0)
                && part[l[k].0] == l[k].1 by {
                lemma_map_at(s, origin[k]);
                assert(key_of(s[origin[k]]) == (t, l[k].0));
            }
            assert forall|h: Seq<u8>| part.contains_key(h) implies exists|k: int|
                0 <= k < l.len() && #[trigger] l[k].0 == h by {
                assert(holds_key(s, (t, h)));
                let j = choose|j: int| 0 <= j < s.len() && #[trigger] key_of(s[j]) == (t, h);
                assert(s[j].tag@ == t);
                let k = choose|k: int| 0 <= k < out@.len() && origin[k] == j;
                assert(l[k].0 == h);
            }
            assert forall|k1: int, k2: int|
                0 <= k1 < l.len() && 0 <= k2 < l.len() && #[trigger] l[k1].0 == #[trigger] l[k2].0
                implies k1 == k2 by {
                assert(key_of(s[origin[k1]]) == key_of(s[origin[k2]]));
                if k1 < k2 {
                    assert(origin[k1] < origin[k2]);
                } else if k2 < k1 {
                    assert(origin[k2] < origin[k1]);
                }
            }
        }
        Ok(out)
    }

    fn write(&mut self, ty: Ty, content_hash: ContentHash, content: Vec<u8>) -> (r: Result<
        (),
        StoreError,
    >) {
        proof {
            use_type_invariant(&*self);
        }
        let tag = ty.to_string();
        let ghost s = self.records@;
        let found = self.find(&tag, &content_hash);
        let mut records: Vec<Record> = Vec::new();
        std::mem::swap(&mut records, &mut self.records);
        let record = Record { tag, hash: content_hash, content };
        match found {
            Some(i) => {
                proof {
                    lemma_map_update(s, i as int, record);
                }
                records[i] = record;
            },
            None => {
                proof {
                    lemma_map_push(s, record);
                }
                records.push(record);
            },
        }
        self.records = records;
        Ok(())
    }

    fn delete_by_hash(&mut self, ty: Ty, content_hash: ContentHash) -> (r: Result<(), StoreError>) {
        proof {
            use_type_invariant(&*self);
        }
        let tag = ty.to_string();
        let ghost s = self.records@;
        match self.find(&tag, &content_hash) {
            Some(i) => {
                proof {
                    lemma_map_remove(s, i as int);
                }
                let mut records: Vec<Record> = Vec::new();
                std::mem::swap(&mut records, &mut self.records);
                records.remove(i);
                self.records = records;
            },
            None => {
                assert(records_map(s).remove((tag@, content_hash.bytes())) =~= records_map(s));
            },
        }
        Ok(())
    }

    fn delete_all_of_ty(&mut self, ty: Ty) -> (r: Result<(), StoreError>) {
        proof {
            use_type_invariant(&*self);
        }
        let tag = ty.to_string();
        let ghost s = self.records@;
        let ghost t = tag@;
        let mut kept: Vec<Record> = Vec::new();
        let mut i: usize = 0;
        while i < self.records.len()
            invariant
                s == self.records@,
                t == tag@,
                unique_keys(s),
                0 <= i <= s.len(),
                unique_keys(kept@),
                forall|k: (Seq<char>, Seq<u8>)| holds_key(kept@, k) ==> #[trigger] holds_key(s.subrange(0, i as int), k),
                records_map(kept@) == model::delete_partition(records_map(s.subrange(0, i as int)), t),
            decreases s.len() - i,
        {
            let ghost before = s.subrange(0, i as int);
            let ghost after = s.subrange(0, i + 1);
            proof {
                assert(after =~= before.push(s[i as int]));
                assert(!holds_key(before, key_of(s[i as int]))) by {
                    if holds_key(before, key_of(s[i as int])) {
                        let j = choose|j: int| 0 <= j < before.len() && #[trigger] key_of(before[j]) == key_of(s[i as int]);
                        assert(key_of(s[j]) == key_of(s[i as int]));
                    }
                }
                lemma_map_push(before, s[i as int]);
                assert forall|k: (Seq<char>, Seq<u8>)| #[trigger] holds_key(before, k) implies holds_key(after, k) by {
                    let j = choose|j: int| 0 <= j < before.len() && #[trigger] key_of(before[j]) == k;
                    assert(key_of(after[j]) == k);
                }
            }
            if self.records[i].tag != tag {
                let record = Record {
                    tag: self.records[i].tag.clone(),
                    hash: self.records[i].hash,
                    content: copy_bytes(&self.records[i].content),
                };
                proof {
                    lemma_map_push(kept@, record);
                    assert(key_of(after[i as int]) == key_of(record));
                    assert forall|k: (Seq<char>, Seq<u8>)| #[trigger] holds_key(kept@.push(record), k) implies holds_key(after, k) by {
                        if k == key_of(record) {
                            assert(key_of(after[i as int]) == k);
                        } else {
                            let grown = kept@.push(record);
                            let j = choose|j: int| 0 <= j < grown.len() && #[trigger] key_of(grown[j]) == k;
                            assert(j < kept@.len());
                            assert(key_of(kept@[j]) == k);
                            assert(holds_key(kept@, k));
                            assert(holds_key(before, k));
                        }
                    }
                    assert(records_map(kept@).insert(key_of(record), record.content@) =~= model::delete_partition(records_map(after), t));
                }
                kept.push(record);
            } else {
                proof {
                    assert(model::delete_partition(records_map(before), t) =~= model::delete_partition(records_map(after), t));
                    assert forall|k: (Seq<char>, Seq<u8>)| #[trigger] holds_key(kept@, k) implies holds_key(after, k) by {
                        assert(holds_key(before, k));
                    }
                }
            }
            i = i + 1;
        }
        proof {
            assert(s.subrange(0, i as int) =~= s);
        }
        self.records = kept;
        Ok(())
    }
}

} // verus!
