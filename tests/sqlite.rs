use vanth::sqlite::{
    hash_blobs, record_blobs, type_table,
    error_from_engine, found_content, hash_from_bytes, listed_rows, open_flags, quote_identifier,
    removal_result, statement_result, table_name, EngineError,
};
use vanth::store::{StoreError, StoreParams};
use vanth::ty::parse_ty;

fn failure(message: &str) -> EngineError {
    EngineError::Failure { message: Some(message.to_string()), text: message.to_string() }
}

#[test]
fn missing_table_is_told_apart() {
    assert_eq!(
        error_from_engine(failure("no such table: ty_a::B")),
        StoreError::SqliteTableDoesNotExist { table_name: "ty_a::B".to_string() }
    );
    assert_eq!(
        error_from_engine(failure("disk I/O error")),
        StoreError::SqliteUnknown("disk I/O error".to_string())
    );
    assert_eq!(
        error_from_engine(EngineError::Failure { message: None, text: "busy".into() }),
        StoreError::SqliteUnknown("busy".to_string())
    );
    assert_eq!(
        error_from_engine(EngineError::Other("x".into())),
        StoreError::SqliteUnknown("x".to_string())
    );
    assert_eq!(
        error_from_engine(failure("no such tab")),
        StoreError::SqliteUnknown("no such tab".to_string())
    );
}

#[test]
fn lookups_treat_absence_as_none() {
    assert_eq!(found_content(Ok(vec![1, 2])), Ok(Some(vec![1, 2])));
    assert_eq!(found_content(Err(EngineError::NoRows("none".into()))), Ok(None));
    assert_eq!(found_content(Err(failure("no such table: ty_x"))), Ok(None));
    assert_eq!(
        found_content(Err(failure("locked"))),
        Err(StoreError::SqliteUnknown("locked".to_string()))
    );
}

#[test]
fn removals_and_statements() {
    assert_eq!(removal_result(Ok(0)), Ok(()));
    assert_eq!(removal_result(Err(failure("no such table: ty_x"))), Ok(()));
    assert_eq!(removal_result(Err(failure("full"))), Err(StoreError::SqliteUnknown("full".into())));
    assert_eq!(statement_result(Ok(1)), Ok(()));
    assert_eq!(
        statement_result(Err(failure("no such table: ty_x"))),
        Err(StoreError::SqliteTableDoesNotExist { table_name: "ty_x".into() })
    );
}

#[test]
fn listings_check_hash_width() {
    let rows = vec![(vec![7u8; 32], vec![1u8])];
    let list = listed_rows(Ok(rows)).unwrap();
    assert_eq!(list.len(), 1);
    assert_eq!(list[0].0.hash, [7u8; 32]);
    assert_eq!(list[0].1, vec![1u8]);
    assert_eq!(listed_rows(Ok(vec![(vec![1u8; 31], vec![])])), Err(StoreError::InvalidStoredHash));
    assert_eq!(listed_rows(Err(failure("no such table: ty_q"))), Ok(vec![]));
    assert_eq!(listed_rows(Err(failure("io"))), Err(StoreError::SqliteUnknown("io".into())));
    assert!(hash_from_bytes(&vec![0u8; 33]).is_none());
    assert_eq!(hash_from_bytes(&vec![3u8; 32]).unwrap().hash, [3u8; 32]);
}

#[test]
fn table_names_are_quoted() {
    assert_eq!(table_name(&parse_ty("pkg::Foo")), "ty_pkg::Foo");
    assert_eq!(quote_identifier("ty_pkg::Foo"), "\"ty_pkg::Foo\"");
    assert_eq!(quote_identifier("a\"b"), "\"a\"\"b\"");
}

#[test]
fn open_flags_follow_params() {
    assert_eq!(open_flags(StoreParams::default()), 0x40 | 0x8000 | 0x2 | 0x4);
    let ro = StoreParams { create_if_not_exists: true, read_only: true };
    assert_eq!(open_flags(ro), 0x40 | 0x8000 | 0x1);
    let rw = StoreParams { create_if_not_exists: false, read_only: false };
    assert_eq!(open_flags(rw), 0x40 | 0x8000 | 0x2);
}

#[test]
fn bound_blobs_are_hash_then_content() {
    let h = vanth::ContentHash { hash: [4u8; 32] };
    assert_eq!(hash_blobs(&h), vec![vec![4u8; 32]]);
    assert_eq!(record_blobs(&h, vec![1, 2]), vec![vec![4u8; 32], vec![1, 2]]);
}

#[test]
fn type_tables_begin_with_ty() {
    assert!(type_table("ty_a::B"));
    assert!(type_table("ty_"));
    assert!(!type_table("ty"));
    assert!(!type_table("other"));
    assert!(!type_table("Ty_x"));
}
