use std::path::PathBuf;

use tempfile::TempDir;
use vanth::content_hash::parse_hash;
use vanth::memory::Memory;
use vanth::sqlite::Sqlite;
use vanth::store::{Backend, Store, StoreError, StoreParams};
use vanth::ty::parse_ty;
use vanth::{hash, Canonical, ContentHash, Ty, Vanth};

struct Foo;

impl Vanth for Foo {
    fn ty() -> Ty {
        parse_ty("integration::store::Foo")
    }
}

struct Bar;

impl Vanth for Bar {
    fn ty() -> Ty {
        parse_ty("integration::store::Bar")
    }
}

/// `Foo { inner }`: its canonical form and its JSON bytes.
fn foo(inner: i32) -> (Canonical, Vec<u8>) {
    (
        Canonical::Sequence(Some(1), vec![Canonical::I32(inner)]),
        format!("{{\"inner\":{}}}", inner).into_bytes(),
    )
}

/// `Bar { inner }`: its canonical form and its JSON bytes.
fn bar(inner: &str) -> (Canonical, Vec<u8>) {
    (
        Canonical::Sequence(Some(1), vec![Canonical::Str(inner.to_string())]),
        format!("{{\"inner\":\"{}\"}}", inner).into_bytes(),
    )
}

fn json(bytes: &[u8]) -> serde_json::Value {
    serde_json::from_slice(bytes).unwrap()
}

fn temp_db(dir: &TempDir, name: &str) -> PathBuf {
    dir.path().join(name)
}

fn h(byte: u8) -> ContentHash {
    ContentHash { hash: [byte; 32] }
}

#[test]
fn test_sqlite_store() {
    let dir = TempDir::new().unwrap();
    let path = dir.path().join("test.db");
    let mut store = Store::sqlite_from_path(path.clone(), StoreParams::default()).unwrap();

    let foo_1 = foo(1);
    let foo_2 = foo(2);
    let bar_1 = bar("hello");

    assert_eq!(store.get_all_of_type::<Foo>().unwrap().len(), 0);
    assert_eq!(store.get_all_of_type::<Bar>().unwrap().len(), 0);

    store.write::<Foo>(&foo_1.0, foo_1.1.clone()).unwrap();
    store.write::<Foo>(&foo_2.0, foo_2.1.clone()).unwrap();
    store.write::<Bar>(&bar_1.0, bar_1.1.clone()).unwrap();
    assert_eq!(store.get_all_of_type::<Foo>().unwrap().len(), 2);
    assert_eq!(store.get_all_of_type::<Bar>().unwrap().len(), 1);

    let foo_2_hash = hash(&foo_2.0).unwrap();
    let foo_2_fetched = json(&store.get_from_hash::<Foo>(foo_2_hash).unwrap().unwrap());
    assert_ne!(json(&foo_1.1), foo_2_fetched);
    assert_eq!(json(&foo_2.1), foo_2_fetched);

    store.delete::<Foo>(foo_2_hash).unwrap();
    assert_eq!(store.get_all_of_type::<Foo>().unwrap().len(), 1);

    store.delete_all::<Foo>().unwrap();
    store.delete_all::<Bar>().unwrap();
    assert_eq!(store.get_all_of_type::<Foo>().unwrap().len(), 0);
    assert_eq!(store.get_all_of_type::<Bar>().unwrap().len(), 0);
}

#[test]
fn memory_store_same_scenario() {
    let mut store = Store::in_memory().unwrap();
    let foo_1 = foo(1);
    let foo_2 = foo(2);
    let bar_1 = bar("hello");
    assert_eq!(store.get_all_of_type::<Foo>().unwrap().len(), 0);
    let h1 = store.write::<Foo>(&foo_1.0, foo_1.1.clone()).unwrap();
    let h2 = store.write::<Foo>(&foo_2.0, foo_2.1.clone()).unwrap();
    store.write::<Bar>(&bar_1.0, bar_1.1.clone()).unwrap();
    assert_eq!(h1, hash(&foo_1.0).unwrap());
    assert_eq!(store.get_all_of_type::<Foo>().unwrap().len(), 2);
    assert_eq!(store.get_all_of_type::<Bar>().unwrap().len(), 1);
    assert_eq!(store.get_from_hash::<Foo>(h2).unwrap(), Some(foo_2.1.clone()));
    store.delete::<Foo>(h2).unwrap();
    assert_eq!(store.get_all_of_type::<Foo>().unwrap().len(), 1);
    store.delete_all::<Foo>().unwrap();
    assert_eq!(store.get_all_of_type::<Foo>().unwrap().len(), 0);
    assert_eq!(store.get_all_of_type::<Bar>().unwrap().len(), 1);
}

#[test]
fn round_trip_through_both_backends() {
    let dir = TempDir::new().unwrap();
    let mut disk = Store::sqlite_from_path(temp_db(&dir, "rt.db"), StoreParams::default()).unwrap();
    let mut memory = Store::in_memory().unwrap();
    let value = bar("round trip");
    let a = disk.write::<Bar>(&value.0, value.1.clone()).unwrap();
    let b = memory.write::<Bar>(&value.0, value.1.clone()).unwrap();
    assert_eq!(a, b);
    assert_eq!(json(&disk.get_from_hash::<Bar>(a).unwrap().unwrap()), json(&value.1));
    assert_eq!(memory.get_from_hash::<Bar>(b).unwrap(), Some(value.1.clone()));
    let listed = disk.get_all_of_type::<Bar>().unwrap();
    assert_eq!(listed.len(), 1);
    assert_eq!(listed[0].content_hash(), a);
    assert_eq!(listed[0].data(), &value.1);
}

#[test]
fn fresh_stores_are_empty() {
    let dir = TempDir::new().unwrap();
    let mut disk = Store::sqlite_from_path(temp_db(&dir, "fresh.db"), StoreParams::default()).unwrap();
    let mut memory = Store::in_memory().unwrap();
    let tag = parse_ty("never::Written");
    for byte in [0u8, 7, 255] {
        assert_eq!(disk.get_from_hash_raw(tag.clone(), h(byte)).unwrap(), None);
        assert_eq!(memory.get_from_hash_raw(tag.clone(), h(byte)).unwrap(), None);
    }
    assert!(disk.get_all_of_type_raw(tag.clone()).unwrap().is_empty());
    assert!(memory.get_all_of_type_raw(tag.clone()).unwrap().is_empty());
    disk.delete_raw(tag.clone(), h(1)).unwrap();
    memory.delete_raw(tag.clone(), h(1)).unwrap();
    disk.delete_all_raw(tag.clone()).unwrap();
    memory.delete_all_raw(tag).unwrap();
}

#[test]
fn partitions_are_isolated() {
    let dir = TempDir::new().unwrap();
    let mut disk = Store::sqlite_from_path(temp_db(&dir, "iso.db"), StoreParams::default()).unwrap();
    let mut memory = Store::in_memory().unwrap();
    let a = parse_ty("a::A");
    let b = parse_ty("b::B");
    disk.write_raw(a.clone(), h(1), vec![1]).unwrap();
    memory.write_raw(a.clone(), h(1), vec![1]).unwrap();
    assert!(disk.get_all_of_type_raw(b.clone()).unwrap().is_empty());
    assert!(memory.get_all_of_type_raw(b.clone()).unwrap().is_empty());
    assert_eq!(disk.get_from_hash_raw(b.clone(), h(1)).unwrap(), None);
    assert_eq!(memory.get_from_hash_raw(b, h(1)).unwrap(), None);
}

#[test]
fn writing_twice_is_writing_once() {
    let mut memory = Store::in_memory().unwrap();
    let t = parse_ty("t::T");
    memory.write_raw(t.clone(), h(3), vec![3, 3]).unwrap();
    memory.write_raw(t.clone(), h(3), vec![3, 3]).unwrap();
    let all = memory.get_all_of_type_raw(t.clone()).unwrap();
    assert_eq!(all, vec![(h(3), vec![3, 3])]);
    memory.write_raw(t.clone(), h(3), vec![4]).unwrap();
    assert_eq!(memory.get_from_hash_raw(t.clone(), h(3)).unwrap(), Some(vec![4]));
    assert_eq!(memory.get_all_of_type_raw(t).unwrap().len(), 1);
}

#[test]
fn deleted_records_are_gone() {
    let dir = TempDir::new().unwrap();
    let mut disk = Store::sqlite_from_path(temp_db(&dir, "del.db"), StoreParams::default()).unwrap();
    let mut memory = Store::in_memory().unwrap();
    let t = parse_ty("t::T");
    for store_is_disk in [true, false] {
        let put = |s: &mut dyn FnMut(Ty, ContentHash, Vec<u8>)| {
            s(t.clone(), h(1), vec![1]);
            s(t.clone(), h(2), vec![2]);
        };
        if store_is_disk {
            put(&mut |ty, hh, c| disk.write_raw(ty, hh, c).unwrap());
        } else {
            put(&mut |ty, hh, c| memory.write_raw(ty, hh, c).unwrap());
        }
    }
    disk.delete_raw(t.clone(), h(1)).unwrap();
    memory.delete_raw(t.clone(), h(1)).unwrap();
    assert_eq!(disk.get_from_hash_raw(t.clone(), h(1)).unwrap(), None);
    assert_eq!(memory.get_from_hash_raw(t.clone(), h(1)).unwrap(), None);
    assert_eq!(disk.get_from_hash_raw(t.clone(), h(2)).unwrap(), Some(vec![2]));
    assert_eq!(memory.get_from_hash_raw(t.clone(), h(2)).unwrap(), Some(vec![2]));
    disk.delete_all_raw(t.clone()).unwrap();
    memory.delete_all_raw(t.clone()).unwrap();
    assert!(disk.get_all_of_type_raw(t.clone()).unwrap().is_empty());
    assert!(memory.get_all_of_type_raw(t.clone()).unwrap().is_empty());
    assert_eq!(disk.get_from_hash_raw(t.clone(), h(2)).unwrap(), None);
    assert_eq!(memory.get_from_hash_raw(t, h(2)).unwrap(), None);
}

fn sorted(mut v: Vec<(ContentHash, Vec<u8>)>) -> Vec<([u8; 32], Vec<u8>)> {
    let mut out: Vec<([u8; 32], Vec<u8>)> = v.drain(..).map(|(k, c)| (k.hash, c)).collect();
    out.sort();
    out
}

#[test]
fn both_backends_answer_alike() {
    let dir = TempDir::new().unwrap();
    let mut disk = Store::sqlite_from_path(temp_db(&dir, "eq.db"), StoreParams::default()).unwrap();
    let mut memory = Store::in_memory().unwrap();
    let a = parse_ty("a::A<a::B>");
    let b = parse_ty("b::B");
    let steps: Vec<(u8, Ty, u8, Vec<u8>)> = vec![
        (0, a.clone(), 1, vec![1]),
        (0, a.clone(), 2, vec![2, 2]),
        (0, b.clone(), 1, vec![9]),
        (0, a.clone(), 1, vec![1, 1]),
        (1, a.clone(), 2, vec![]),
        (1, a.clone(), 7, vec![]),
        (0, a.clone(), 3, vec![3]),
        (2, b.clone(), 0, vec![]),
        (2, b.clone(), 0, vec![]),
        (0, b.clone(), 4, vec![4]),
    ];
    for (op, ty, byte, content) in steps {
        match op {
            0 => {
                disk.write_raw(ty.clone(), h(byte), content.clone()).unwrap();
                memory.write_raw(ty.clone(), h(byte), content).unwrap();
            }
            1 => {
                disk.delete_raw(ty.clone(), h(byte)).unwrap();
                memory.delete_raw(ty.clone(), h(byte)).unwrap();
            }
            _ => {
                disk.delete_all_raw(ty.clone()).unwrap();
                memory.delete_all_raw(ty.clone()).unwrap();
            }
        }
        for t in [a.clone(), b.clone()] {
            assert_eq!(
                sorted(disk.get_all_of_type_raw(t.clone()).unwrap()),
                sorted(memory.get_all_of_type_raw(t.clone()).unwrap())
            );
            for k in 0..8u8 {
                assert_eq!(
                    disk.get_from_hash_raw(t.clone(), h(k)).unwrap(),
                    memory.get_from_hash_raw(t.clone(), h(k)).unwrap()
                );
            }
        }
    }
}

#[test]
fn values_survive_reopening() {
    let dir = TempDir::new().unwrap();
    let path = temp_db(&dir, "reopen.db");
    let value = foo(42);
    let written = {
        let mut store = Store::sqlite_from_path(path.clone(), StoreParams::default()).unwrap();
        store.write::<Foo>(&value.0, value.1.clone()).unwrap()
    };
    let mut store = Store::sqlite_from_path(path, StoreParams::default()).unwrap();
    assert_eq!(store.get_from_hash::<Foo>(written).unwrap(), Some(value.1));
}

#[test]
fn read_only_store_refuses_changes() {
    let dir = TempDir::new().unwrap();
    let path = temp_db(&dir, "ro.db");
    let t = parse_ty("t::T");
    {
        let mut store = Store::sqlite_from_path(path.clone(), StoreParams::default()).unwrap();
        store.write_raw(t.clone(), h(1), vec![1]).unwrap();
    }
    let params = StoreParams { create_if_not_exists: true, read_only: true };
    let mut store = Store::sqlite_from_path(path, params).unwrap();
    assert_eq!(store.write_raw(t.clone(), h(2), vec![2]), Err(StoreError::ReadOnly));
    assert_eq!(store.write::<Foo>(&foo(1).0, foo(1).1), Err(StoreError::ReadOnly));
    assert_eq!(store.delete_raw(t.clone(), h(1)), Err(StoreError::ReadOnly));
    assert_eq!(store.delete::<Foo>(h(1)), Err(StoreError::ReadOnly));
    assert_eq!(store.delete_all_raw(t.clone()), Err(StoreError::ReadOnly));
    assert_eq!(store.delete_all::<Foo>(), Err(StoreError::ReadOnly));
    assert_eq!(store.get_from_hash_raw(t, h(1)).unwrap(), Some(vec![1]));
}

#[test]
fn missing_file_without_create_fails() {
    let dir = TempDir::new().unwrap();
    let params = StoreParams { create_if_not_exists: false, read_only: false };
    assert!(Store::sqlite_from_path(temp_db(&dir, "absent.db"), params).is_err());
    let read_only = StoreParams { create_if_not_exists: true, read_only: true };
    assert!(Store::sqlite_from_path(temp_db(&dir, "absent2.db"), read_only).is_err());
    assert!(Sqlite::new(temp_db(&dir, "absent3.db")).is_err());
}

#[test]
fn hashing_failure_is_reported() {
    let mut memory = Store::in_memory().unwrap();
    let bad = Canonical::Sequence(None, vec![]);
    assert_eq!(
        memory.write::<Foo>(&bad, vec![]),
        Err(StoreError::Hashing(vanth::hashing::EncodeError::UndefinedSequenceLength))
    );
    assert!(memory.get_all_of_type::<Foo>().unwrap().is_empty());
}

#[test]
fn end_to_end_json_example() {
    let dir = TempDir::new().unwrap();
    let mut store = Store::sqlite_from_path(temp_db(&dir, "e2e.db"), StoreParams::default()).unwrap();
    let ty = parse_ty("pkg::Foo");
    let value = Canonical::Entries(
        Some(1),
        vec![(Canonical::Str("inner".to_string()), Canonical::U64(6))],
    );
    let content_hash = hash(&value).unwrap();
    let text = content_hash.hex();
    assert_eq!(text.len(), 64);
    store.write_raw(ty.clone(), content_hash, b"{\"inner\":6}".to_vec()).unwrap();
    let parsed = parse_hash(&text).unwrap();
    let got = store.get_from_hash_raw(ty.clone(), parsed).unwrap().unwrap();
    assert_eq!(String::from_utf8(got).unwrap(), "{\"inner\":6}");
    store.delete_all_raw(ty.clone()).unwrap();
    assert!(store.get_all_of_type_raw(ty).unwrap().is_empty());
}

#[test]
fn memory_backend_through_the_trait() {
    let mut backend = Memory::new();
    let t = parse_ty("x::Y");
    backend.write(t.clone(), h(5), vec![5]).unwrap();
    assert_eq!(backend.get_from_hash(t.clone(), h(5)).unwrap(), Some(vec![5]));
    let mut store = Store::new(backend);
    assert_eq!(store.get_all_of_type_raw(t).unwrap(), vec![(h(5), vec![5])]);
}

#[test]
fn delete_by_hash_reaches_every_partition() {
    let dir = TempDir::new().unwrap();
    let mut disk = Store::sqlite_from_path(temp_db(&dir, "every.db"), StoreParams::default()).unwrap();
    let a = parse_ty("a::A");
    let b = parse_ty("b::B");
    disk.write_raw(a.clone(), h(1), vec![1]).unwrap();
    disk.write_raw(b.clone(), h(1), vec![2]).unwrap();
    disk.write_raw(b.clone(), h(2), vec![3]).unwrap();
    disk.delete_from_every_partition(h(1)).unwrap();
    assert_eq!(disk.get_from_hash_raw(a.clone(), h(1)).unwrap(), None);
    assert_eq!(disk.get_from_hash_raw(b.clone(), h(1)).unwrap(), None);
    assert_eq!(disk.get_from_hash_raw(b, h(2)).unwrap(), Some(vec![3]));
    disk.delete_from_every_partition(h(9)).unwrap();
}

#[test]
fn read_only_store_refuses_deleting_everywhere() {
    let dir = TempDir::new().unwrap();
    let path = temp_db(&dir, "ro_every.db");
    drop(Store::sqlite_from_path(path.clone(), StoreParams::default()).unwrap());
    let params = StoreParams { create_if_not_exists: false, read_only: true };
    let mut store = Store::sqlite_from_path(path, params).unwrap();
    assert_eq!(store.delete_from_every_partition(h(1)), Err(StoreError::ReadOnly));
}

#[test]
fn names_with_the_same_text_share_a_partition() {
    let mut memory = Store::in_memory().unwrap();
    let dir = TempDir::new().unwrap();
    let mut disk = Store::sqlite_from_path(temp_db(&dir, "text.db"), StoreParams::default()).unwrap();
    let whole = Ty { path: vec!["a::b".to_string()] };
    let split = parse_ty("a::b");
    memory.write_raw(whole.clone(), h(1), vec![1]).unwrap();
    disk.write_raw(whole, h(1), vec![1]).unwrap();
    assert_eq!(memory.get_from_hash_raw(split.clone(), h(1)).unwrap(), Some(vec![1]));
    assert_eq!(disk.get_from_hash_raw(split, h(1)).unwrap(), Some(vec![1]));
}
