use std::path::PathBuf;

use vstd::prelude::*;
use vstd::string::StrSliceExecFns;
use vstd::string::StringExecFns;

use crate::content_hash::ContentHash;
use crate::model;
use crate::store::{self, Backend, Store, StoreParams};
use crate::ty::Ty;

verus! {

/// Declares `rusqlite::Connection`, an open database handle, carried opaquely.
#[verifier::external_type_specification]
#[verifier::external_body]
pub struct ExConnection(rusqlite::Connection);

/// Declares `rusqlite::Error`, read only through `describe`.
#[verifier::external_type_specification]
#[verifier::external_body]
pub struct ExSqliteError(rusqlite::Error);

/// Declares `std::path::PathBuf`, the database file's path, carried opaquely.
#[verifier::external_type_specification]
#[verifier::external_body]
pub struct ExPathBuf(std::path::PathBuf);

/// What the library reads from a database engine error.
#[derive(Clone, Debug, PartialEq, Eq)]
pub enum EngineError {
    /// A query that had to return a row returned none.
    NoRows(String),
    /// SQLite reported a failure, with its message if it gave one.
    Failure { message: Option<String>, text: String },
    /// Any other error.
    Other(String),
}

/// SQLite's `SQLITE_OPEN_READONLY`: open for reading only.
pub const SQLITE_OPEN_READ_ONLY: i32 = 0x0000_0001;

/// SQLite's `SQLITE_OPEN_READWRITE`: open for reading and writing.
pub const SQLITE_OPEN_READ_WRITE: i32 = 0x0000_0002;

/// SQLite's `SQLITE_OPEN_CREATE`: create the file if it does not exist.
pub const SQLITE_OPEN_CREATE: i32 = 0x0000_0004;

/// SQLite's `SQLITE_OPEN_URI`: the file name may be a URI.
pub const SQLITE_OPEN_URI: i32 = 0x0000_0040;

/// SQLite's `SQLITE_OPEN_NOMUTEX`: no mutex shared across connections.
pub const SQLITE_OPEN_NO_MUTEX: i32 = 0x0000_8000;

/// Relies on `rusqlite::Connection::open_with_flags`, given the flag bits through
/// `rusqlite::OpenFlags::from_bits_truncate`: opens the database file at `path`.
#[verifier::external_body]
fn open_with_flags(path: PathBuf, flags: i32) -> (r: Result<rusqlite::Connection, rusqlite::Error>) {
    rusqlite::Connection::open_with_flags(path, rusqlite::OpenFlags::from_bits_truncate(flags))
}

/// Relies on `rusqlite::Connection::execute`: runs one statement with the blobs bound to
/// `?1`, `?2`, ... in order.
#[verifier::external_body]
fn execute(connection: &rusqlite::Connection, sql: &str, blobs: &[Vec<u8>]) -> (r: Result<
    usize,
    rusqlite::Error,
>) {
    connection.execute(sql, rusqlite::params_from_iter(blobs.iter()))
}

/// Relies on `rusqlite::Connection::query_row`: the first column of the first row of a query
/// with `blob` bound to `?1`, read as a blob.
#[verifier::external_body]
fn query_blob(connection: &rusqlite::Connection, sql: &str, blob: &[u8]) -> (r: Result<
    Vec<u8>,
    rusqlite::Error,
>) {
    connection.query_row(sql, [blob], |row| row.get(0))
}

/// Relies on `rusqlite::Connection::prepare` and `rusqlite::Statement::query_map`: the first
/// two columns of every row of a query, read as blobs.
#[verifier::external_body]
fn query_blob_pairs(connection: &rusqlite::Connection, sql: &str) -> (r: Result<
    Vec<(Vec<u8>, Vec<u8>)>,
    rusqlite::Error,
>) {
    let mut statement = connection.prepare(sql)?;
    let rows = statement.query_map([], |row| Ok((row.get(0)?, row.get(1)?)))?;
    rows.collect()
}

/// Relies on `rusqlite::Connection::prepare` and `rusqlite::Statement::query_map`: the first
/// column of every row of a query, read as text.
#[verifier::external_body]
fn query_texts(connection: &rusqlite::Connection, sql: &str) -> (r: Result<
    Vec<String>,
    rusqlite::Error,
>) {
    let mut statement = connection.prepare(sql)?;
    let rows = statement.query_map([], |row| row.get(0))?;
    rows.collect()
}

/// Relies on the variants of `rusqlite::Error` and on its `Display`: picks out a query that
/// returned no row and a failure that SQLite reported (with its message), and gives the text.
#[verifier::external_body]
fn describe(e: &rusqlite::Error) -> (r: EngineError) {
    match e {
        rusqlite::Error::QueryReturnedNoRows => EngineError::NoRows(e.to_string()),
        rusqlite::Error::SqliteFailure(_, message) => EngineError::Failure {
            message: message.clone(),
            text: e.to_string(),
        },
        _ => EngineError::Other(e.to_string()),
    }
}

/// The start of SQLite's message for a table that does not exist.
pub open spec fn missing_table_prefix() -> Seq<char> {
    seq!['n', 'o', ' ', 's', 'u', 'c', 'h', ' ', 't', 'a', 'b', 'l', 'e', ':', ' ']
}

/// The table that an engine error reports missing, if it reports one.
pub open spec fn missing_table(e: EngineError) -> Option<Seq<char>> {
    match e {
        EngineError::Failure { message: Some(m), .. } => if m@.len() >= 15 && m@.subrange(0, 15)
            == missing_table_prefix() {
            Some(m@.subrange(15, m@.len() as int))
        } else {
            None
        },
        _ => None,
    }
}

/// The text of an engine error.
pub open spec fn engine_text(e: EngineError) -> Seq<char> {
    match e {
        EngineError::NoRows(text) => text@,
        EngineError::Failure { text, .. } => text@,
        EngineError::Other(text) => text@,
    }
}

/// The store error that an engine error stands for.
pub open spec fn engine_error_means(e: EngineError, r: store::StoreError) -> bool {
    match missing_table(e) {
        Some(t) => r matches store::StoreError::SqliteTableDoesNotExist { table_name } && table_name@ == t,
        None => r matches store::StoreError::SqliteUnknown(text) && text@ == engine_text(e),
    }
}

/// Turns an engine error into a store error: a missing table is told apart from the rest.
pub fn error_from_engine(e: EngineError) -> (r: store::StoreError)
    ensures
        engine_error_means(e, r),
{
    match e {
        EngineError::Failure { message: Some(m), text } => {
            let prefix = "no such table: ";
            proof {
                reveal_strlit("no such table: ");
                assert(prefix@ =~= missing_table_prefix());
            }
            let n = m.as_str().unicode_len();
            if n < 15 {
                return store::StoreError::SqliteUnknown(text);
            }
            let mut i: usize = 0;
            while i < 15
                invariant
                    0 <= i <= 15,
                    e == (EngineError::Failure { message: Some(m), text: text }),
                    15 <= n == m@.len(),
                    prefix@ == missing_table_prefix(),
                    forall|j: int| 0 <= j < i ==> m@[j] == missing_table_prefix()[j],
                decreases 15 - i,
            {
                if m.as_str().get_char(i) != prefix.get_char(i) {
                    proof {
                        assert(m@.subrange(0, 15)[i as int] != missing_table_prefix()[i as int]);
                        assert(m@.subrange(0, 15) != missing_table_prefix());
                    }
                    return store::StoreError::SqliteUnknown(text);
                }
                i = i + 1;
            }
            assert(m@.subrange(0, 15) =~= missing_table_prefix());
            let table_name = String::from_str(m.as_str().substring_char(15, n));
            store::StoreError::SqliteTableDoesNotExist { table_name }
        },
        EngineError::Failure { message: None, text } => store::StoreError::SqliteUnknown(text),
        EngineError::NoRows(text) => store::StoreError::SqliteUnknown(text),
        EngineError::Other(text) => store::StoreError::SqliteUnknown(text),
    }
}

/// What a lookup returns for the engine's answer: the content, or nothing where there is no
/// such row or no such table.
pub fn found_content(outcome: Result<Vec<u8>, EngineError>) -> (r: Result<
    Option<Vec<u8>>,
    store::StoreError,
>)
    ensures
        outcome matches Ok(c) ==> (r matches Ok(Some(d)) && d@ == c@),
        outcome matches Err(e) ==> (e is NoRows || missing_table(e) is Some ==> r matches Ok(
            None,
        )),
        outcome matches Err(e) ==> (!(e is NoRows) && missing_table(e) is None ==> (r matches Err(
            x,
        ) && engine_error_means(e, x))),
{
    match outcome {
        Ok(c) => Ok(Some(c)),
        Err(EngineError::NoRows(_)) => Ok(None),
        Err(e) => {
            let x = error_from_engine(e);
            match x {
                store::StoreError::SqliteTableDoesNotExist { .. } => Ok(None),
                _ => Err(x),
            }
        },
    }
}

/// What a removal returns for the engine's answer: success also where the table does not exist.
pub fn removal_result(outcome: Result<usize, EngineError>) -> (r: Result<(), store::StoreError>)
    ensures
        outcome is Ok ==> r is Ok,
        outcome matches Err(e) ==> (missing_table(e) is Some ==> r is Ok),
        outcome matches Err(e) ==> (missing_table(e) is None ==> (r matches Err(x)
            && engine_error_means(e, x))),
{
    match outcome {
        Ok(_) => Ok(()),
        Err(e) => {
            let x = error_from_engine(e);
            match x {
                store::StoreError::SqliteTableDoesNotExist { .. } => Ok(()),
                _ => Err(x),
            }
        },
    }
}

/// What a statement that must succeed returns for the engine's answer.
pub fn statement_result(outcome: Result<usize, EngineError>) -> (r: Result<(), store::StoreError>)
    ensures
        outcome is Ok ==> r is Ok,
        outcome matches Err(e) ==> (r matches Err(x) && engine_error_means(e, x)),
{
    match outcome {
        Ok(_) => Ok(()),
        Err(e) => Err(error_from_engine(e)),
    }
}

/// A content hash from stored bytes, which must be exactly 32.
pub fn hash_from_bytes(bytes: &Vec<u8>) -> (r: Option<ContentHash>)
    ensures
        bytes@.len() == 32 ==> (r matches Some(h) && h.bytes() == bytes@),
        bytes@.len() != 32 ==> r is None,
{
    if bytes.len() != 32 {
        return None;
    }
    let mut hash = [0u8; 32];
    let mut i: usize = 0;
    while i < 32
        invariant
            0 <= i <= 32,
            bytes@.len() == 32,
            forall|j: int| 0 <= j < i ==> hash@[j] == bytes@[j],
        decreases 32 - i,
    {
        hash[i] = bytes[i];
        i = i + 1;
    }
    let h = ContentHash { hash };
    assert(h.bytes() =~= bytes@);
    Some(h)
}

/// Each stored row holds a 32-byte hash.
pub open spec fn rows_well_formed(rows: Seq<(Vec<u8>, Vec<u8>)>) -> bool {
    forall|i: int| 0 <= i < rows.len() ==> (#[trigger] rows[i]).0@.len() == 32
}

/// The (hash, content) pairs of stored rows, as bytes.
pub open spec fn rows_bytes(rows: Seq<(Vec<u8>, Vec<u8>)>) -> Seq<(Seq<u8>, Seq<u8>)> {
    rows.map_values(|row: (Vec<u8>, Vec<u8>)| (row.0@, row.1@))
}

/// What a listing returns for the engine's answer: the rows as records, or nothing where the
/// table does not exist.
pub fn listed_rows(outcome: Result<Vec<(Vec<u8>, Vec<u8>)>, EngineError>) -> (r: Result<
    Vec<(ContentHash, Vec<u8>)>,
    store::StoreError,
>)
    ensures
        outcome matches Ok(rows) ==> (rows_well_formed(rows@) ==> (r matches Ok(list)
            && store::listed_bytes(list@) == rows_bytes(rows@))),
        outcome matches Ok(rows) ==> (!rows_well_formed(rows@) ==> r == Err::<
            Vec<(ContentHash, Vec<u8>)>,
            store::StoreError,
        >(store::StoreError::InvalidStoredHash)),
        outcome matches Err(e) ==> (missing_table(e) is Some ==> (r matches Ok(list) && list@.len()
            == 0)),
        outcome matches Err(e) ==> (missing_table(e) is None ==> (r matches Err(x)
            && engine_error_means(e, x))),
{
    match outcome {
        Ok(rows) => {
            let mut list: Vec<(ContentHash, Vec<u8>)> = Vec::new();
            let mut i: usize = 0;
            while i < rows.len()
                invariant
                    0 <= i <= rows@.len(),
                    outcome == Ok::<Vec<(Vec<u8>, Vec<u8>)>, EngineError>(rows),
                    rows_well_formed(rows@.subrange(0, i as int)),
                    store::listed_bytes(list@) == rows_bytes(rows@).subrange(0, i as int),
                decreases rows.len() - i,
            {
                let h = match hash_from_bytes(&rows[i].0) {
                    Some(h) => h,
                    None => {
                        proof {
                            assert(!rows_well_formed(rows@)) by {
                                assert(rows@[i as int].0@.len() != 32);
                            }
                        }
                        return Err(store::StoreError::InvalidStoredHash);
                    },
                };
                let entry = (h, store::copy_bytes(&rows[i].1));
                let ghost before = list@;
                list.push(entry);
                proof {
                    assert(store::listed_bytes(list@) =~= store::listed_bytes(before).push(
                        (entry.0.bytes(), entry.1@),
                    ));
                    assert(rows_well_formed(rows@.subrange(0, i + 1))) by {
                        assert forall|j: int| 0 <= j < i + 1 implies (#[trigger] rows@.subrange(0, i + 1)[j]).0@.len() == 32 by {
                            if j < i {
                                assert(rows@.subrange(0, i + 1)[j] == rows@.subrange(0, i as int)[j]);
                            }
                        }
                    }
                }
                i = i + 1;
                assert(store::listed_bytes(list@) =~= rows_bytes(rows@).subrange(0, i as int));
            }
            assert(rows@.subrange(0, i as int) =~= rows@);
            assert(rows_bytes(rows@).subrange(0, i as int) =~= rows_bytes(rows@));
            Ok(list)
        },
        Err(e) => {
            let x = error_from_engine(e);
            match x {
                store::StoreError::SqliteTableDoesNotExist { .. } => Ok(Vec::new()),
                _ => Err(x),
            }
        },
    }
}

/// The text with each double quote doubled.
pub open spec fn escaped(s: Seq<char>) -> Seq<char>
    decreases s.len(),
{
    if s.len() == 0 {
        Seq::empty()
    } else if s.last() == '"' {
        escaped(s.drop_last()) + seq!['"', '"']
    } else {
        escaped(s.drop_last()) + seq![s.last()]
    }
}

/// The text as a quoted SQL identifier.
pub open spec fn quoted(s: Seq<char>) -> Seq<char> {
    seq!['"'] + escaped(s) + seq!['"']
}

/// The name of the table that holds the values of a type: `ty_` and the type name's text.
pub open spec fn table_text(ty: Ty) -> Seq<char> {
    seq!['t', 'y', '_'] + ty.text()
}

/// The flag bits that a persistent store is opened with. Read-only takes precedence: a
/// read-only store is never created.
pub open spec fn open_flags_for(params: StoreParams) -> i32 {
    let access: int = if params.read_only {
        SQLITE_OPEN_READ_ONLY as int
    } else if params.create_if_not_exists {
        SQLITE_OPEN_READ_WRITE + SQLITE_OPEN_CREATE
    } else {
        SQLITE_OPEN_READ_WRITE as int
    };
    (SQLITE_OPEN_URI + SQLITE_OPEN_NO_MUTEX + access) as i32
}

/// The flag bits that a persistent store is opened with.
pub fn open_flags(params: StoreParams) -> (r: i32)
    ensures
        r == open_flags_for(params),
{
    let access = if params.read_only {
        SQLITE_OPEN_READ_ONLY
    } else if params.create_if_not_exists {
        SQLITE_OPEN_READ_WRITE + SQLITE_OPEN_CREATE
    } else {
        SQLITE_OPEN_READ_WRITE
    };
    SQLITE_OPEN_URI + SQLITE_OPEN_NO_MUTEX + access
}

/// The name of a type's table.
pub fn table_name(ty: &Ty) -> (r: String)
    ensures
        r@ == table_text(*ty),
{
    let prefix = "ty_";
    proof {
        reveal_strlit("ty_");
    }
    let mut r = String::from_str(prefix);
    r.append(ty.to_string().as_str());
    assert(r@ =~= table_text(*ty));
    r
}

/// The name as a quoted SQL identifier.
pub fn quote_identifier(name: &str) -> (r: String)
    ensures
        r@ == quoted(name@),
{
    let quote = "\"";
    let doubled = "\"\"";
    proof {
        reveal_strlit("\"");
        reveal_strlit("\"\"");
    }
    let n = name.unicode_len();
    let mut out = String::from_str(quote);
    let mut i: usize = 0;
    while i < n
        invariant
            n == name@.len(),
            0 <= i <= n,
            quote@ == seq!['"'],
            doubled@ == seq!['"', '"'],
            out@ == seq!['"'] + escaped(name@.subrange(0, i as int)),
        decreases n - i,
    {
        proof {
            assert(name@.subrange(0, i + 1).drop_last() =~= name@.subrange(0, i as int));
        }
        if name.get_char(i) == '"' {
            out.append(doubled);
        } else {
            out.append(name.substring_char(i, i + 1));
        }
        i = i + 1;
        assert(out@ =~= seq!['"'] + escaped(name@.subrange(0, i as int)));
    }
    out.append(quote);
    assert(name@.subrange(0, i as int) =~= name@);
    assert(out@ =~= quoted(name@));
    out
}

/// A statement about one table: `head`, the quoted table name, `tail`.
fn statement(head: &str, ty: &Ty, tail: &str) -> (r: String)
    ensures
        r@ == head@ + quoted(table_text(*ty)) + tail@,
{
    let mut r = String::from_str(head);
    r.append(quote_identifier(table_name(ty).as_str()).as_str());
    r.append(tail);
    r
}

/// The blob bound to `?1` in a statement about one record: its hash.
pub fn hash_blobs(content_hash: &ContentHash) -> (r: Vec<Vec<u8>>)
    ensures
        r@.len() == 1,
        r@[0]@ == content_hash.bytes(),
{
    let mut blobs: Vec<Vec<u8>> = Vec::new();
    blobs.push(vstd::slice::slice_to_vec(content_hash.hash.as_slice()));
    blobs
}

/// The blobs bound to `?1` and `?2` when a record is stored: its hash, then its content.
pub fn record_blobs(content_hash: &ContentHash, content: Vec<u8>) -> (r: Vec<Vec<u8>>)
    ensures
        r@.len() == 2,
        r@[0]@ == content_hash.bytes(),
        r@[1]@ == content@,
{
    let mut blobs: Vec<Vec<u8>> = Vec::new();
    blobs.push(vstd::slice::slice_to_vec(content_hash.hash.as_slice()));
    blobs.push(content);
    blobs
}

/// The engine's answer, with its error read.
fn engine<T>(outcome: Result<T, rusqlite::Error>) -> (r: Result<T, EngineError>)
    ensures
        outcome matches Ok(v) ==> r == Ok::<T, EngineError>(v),
        outcome is Err ==> r is Err,
{
    match outcome {
        Ok(v) => Ok(v),
        Err(e) => Err(describe(&e)),
    }
}

/// Persistent storage in an SQLite file: one table per type name, keyed by the hash blob, with
/// the content blob beside it.
pub struct Sqlite {
    connection: rusqlite::Connection,
    read_only: bool,
}

impl Sqlite {
    /// Whether the store refuses every change.
    pub closed spec fn refuses_changes(&self) -> bool {
        self.read_only
    }

    /// Opens an existing database file for reading and writing.
    pub fn new(path: PathBuf) -> (r: Result<Self, store::StoreError>)
        ensures
            r matches Ok(s) ==> !s.refuses_changes(),
    {
        Sqlite::open(path, StoreParams { create_if_not_exists: false, read_only: false })
    }

    /// Opens the database file at `path` as `params` say.
    pub fn open(path: PathBuf, params: StoreParams) -> (r: Result<Self, store::StoreError>)
        ensures
            r matches Ok(s) ==> s.refuses_changes() == params.read_only,
            r matches Err(x) ==> (exists|e: EngineError| engine_error_means(e, x)),
    {
        match engine(open_with_flags(path, open_flags(params))) {
            Ok(connection) => Ok(Sqlite { connection, read_only: params.read_only }),
            Err(e) => {
                let x = error_from_engine(e);
                Err(x)
            },
        }
    }
}

/// Whether a table name is that of a type's table: it begins with `ty_`.
pub open spec fn is_type_table(name: Seq<char>) -> bool {
    name.len() >= 3 && name.subrange(0, 3) == seq!['t', 'y', '_']
}

/// Whether a table name is that of a type's table.
pub fn type_table(name: &str) -> (r: bool)
    ensures
        r == is_type_table(name@),
{
    let n = name.unicode_len();
    if n < 3 {
        return false;
    }
    let r = name.get_char(0) == 't' && name.get_char(1) == 'y' && name.get_char(2) == '_';
    proof {
        if r {
            assert(name@.subrange(0, 3) =~= seq!['t', 'y', '_']);
        } else {
            assert(name@.subrange(0, 3) != seq!['t', 'y', '_']) by {
                if name@.subrange(0, 3) == seq!['t', 'y', '_'] {
                    assert(name@.subrange(0, 3)[0] == name@[0]);
                    assert(name@.subrange(0, 3)[1] == name@[1]);
                    assert(name@.subrange(0, 3)[2] == name@[2]);
                }
            }
        }
    }
    r
}

impl Sqlite {
    /// Removes the record with the given hash from the table of every type.
    pub fn delete_from_every_partition(&mut self, content_hash: ContentHash) -> (r: Result<
        (),
        store::StoreError,
    >)
        ensures
            old(self).refuses_changes() ==> r == Err::<(), store::StoreError>(
                store::StoreError::ReadOnly,
            ),
            !old(self).refuses_changes() ==> (r matches Err(x) ==> (x is SqliteUnknown
                || x is SqliteTableDoesNotExist)),
            final(self).refuses_changes() == old(self).refuses_changes(),
    {
        if self.read_only {
            return Err(store::StoreError::ReadOnly);
        }
        let list = "SELECT name FROM sqlite_master WHERE type = 'table'";
        let names = match engine(query_texts(&self.connection, list)) {
            Ok(names) => names,
            Err(e) => return Err(error_from_engine(e)),
        };
        let blobs = hash_blobs(&content_hash);
        let mut i: usize = 0;
        while i < names.len()
            invariant
                0 <= i <= names@.len(),
                !self.read_only,
            decreases names.len() - i,
        {
            if type_table(names[i].as_str()) {
                let mut delete = String::from_str("DELETE FROM ");
                delete.append(quote_identifier(names[i].as_str()).as_str());
                delete.append(" WHERE content_hash = ?1");
                removal_result(engine(execute(&self.connection, delete.as_str(), blobs.as_slice())))?;
            }
            i = i + 1;
        }
        Ok(())
    }
}

impl Backend for Sqlite {
    /// The records live in the database file, outside this process: they are not modelled.
    open spec fn records(&self) -> model::Records {
        Map::empty()
    }

    open spec fn exact(&self) -> bool {
        false
    }

    open spec fn read_only(&self) -> bool {
        self.refuses_changes()
    }

    fn get_from_hash(&mut self, ty: Ty, content_hash: ContentHash) -> (r: Result<
        Option<Vec<u8>>,
        store::StoreError,
    >)
        ensures
            r matches Err(x) ==> x is SqliteUnknown,
    {
        let sql = statement("SELECT content FROM ", &ty, " WHERE content_hash = ?1");
        found_content(engine(query_blob(&self.connection, sql.as_str(), content_hash.hash.as_slice())))
    }

    fn get_all_of_ty(&mut self, ty: Ty) -> (r: Result<Vec<(ContentHash, Vec<u8>)>, store::StoreError>)
        ensures
            r matches Err(x) ==> (x is SqliteUnknown || x is InvalidStoredHash),
    {
        let sql = statement("SELECT content_hash, content FROM ", &ty, "");
        listed_rows(engine(query_blob_pairs(&self.connection, sql.as_str())))
    }

    fn write(&mut self, ty: Ty, content_hash: ContentHash, content: Vec<u8>) -> (r: Result<
        (),
        store::StoreError,
    >)
        ensures
            !old(self).read_only() ==> (r matches Err(x) ==> (x is SqliteUnknown
                || x is SqliteTableDoesNotExist)),
    {
        if self.read_only {
            return Err(store::StoreError::ReadOnly);
        }
        let create = statement(
            "CREATE TABLE IF NOT EXISTS ",
            &ty,
            " (content_hash BLOB PRIMARY KEY, content BLOB NOT NULL)",
        );
        let none: Vec<Vec<u8>> = Vec::new();
        statement_result(engine(execute(&self.connection, create.as_str(), none.as_slice())))?;
        let insert = statement(
            "INSERT OR REPLACE INTO ",
            &ty,
            " (content_hash, content) VALUES (?1, ?2)",
        );
        let blobs = record_blobs(&content_hash, content);
        statement_result(engine(execute(&self.connection, insert.as_str(), blobs.as_slice())))
    }

    fn delete_by_hash(&mut self, ty: Ty, content_hash: ContentHash) -> (r: Result<(), store::StoreError>)
        ensures
            !old(self).read_only() ==> (r matches Err(x) ==> x is SqliteUnknown),
    {
        if self.read_only {
            return Err(store::StoreError::ReadOnly);
        }
        let delete = statement("DELETE FROM ", &ty, " WHERE content_hash = ?1");
        let blobs = hash_blobs(&content_hash);
        removal_result(engine(execute(&self.connection, delete.as_str(), blobs.as_slice())))
    }

    fn delete_all_of_ty(&mut self, ty: Ty) -> (r: Result<(), store::StoreError>)
        ensures
            !old(self).read_only() ==> (r matches Err(x) ==> x is SqliteUnknown),
    {
        if self.read_only {
            return Err(store::StoreError::ReadOnly);
        }
        let drop = statement("DROP TABLE IF EXISTS ", &ty, "");
        let none: Vec<Vec<u8>> = Vec::new();
        removal_result(engine(execute(&self.connection, drop.as_str(), none.as_slice())))
    }
}

impl Store<Sqlite> {
    /// A store over the SQLite database file at `path`, opened as `params` say.
    pub fn sqlite_from_path(path: PathBuf, params: StoreParams) -> (r: Result<Self, store::StoreError>)
        ensures
            r matches Ok(s) ==> !s.exact() && s.read_only() == params.read_only,
            r matches Err(x) ==> (exists|e: EngineError| engine_error_means(e, x)),
    {
        let backend = Sqlite::open(path, params)?;
        Ok(Store::new(backend))
    }
}

} // verus!
