//! The persistent configuration store: credentials (API key, account id) and
//! the ordered list of launcher executable paths, held in an embedded SQLite
//! database.
//!
//! The database is modelled by two sequences: the rows of the
//! `application_data` table (kind/value pairs) and the rows of the
//! `executable_paths` table (paths in insertion order). Credential writes are
//! upserts: at most one row per kind is kept, and a read returns that row's
//! value or fails with `NotConfigured`.

use vstd::prelude::*;

verus! {

/// Errors of the configuration store.
#[derive(Debug, PartialEq, Eq, Structural, Clone, Copy)]
pub enum StoreError {
    /// The database file could not be created or opened.
    StorageUnavailable,
    /// The requested credential has never been stored.
    NotConfigured,
    /// The storage engine failed to run a statement.
    QueryFailed,
}

/// The kinds of credential the store holds.
#[derive(Debug, PartialEq, Eq, Structural, Clone, Copy)]
pub enum CredKind {
    ApiKey,
    UserId,
}

impl CredKind {
    /// The key under which this kind is stored.
    pub open spec fn spec_key(self) -> Seq<char> {
        match self {
            CredKind::ApiKey => "api_key"@,
            CredKind::UserId => "user_id"@,
        }
    }

    pub fn key_str(self) -> (r: &'static str)
        ensures
            r@ == self.spec_key(),
    {
        match self {
            CredKind::ApiKey => "api_key",
            CredKind::UserId => "user_id",
        }
    }
}

/// The rows of the credential table, in row order.
pub uninterp spec fn app_rows(c: sqlite::Connection) -> Seq<(Seq<char>, Seq<char>)>;

/// The stored executable paths, in insertion order.
pub uninterp spec fn exe_rows(c: sqlite::Connection) -> Seq<Seq<char>>;

/// Whether both tables of the store exist on this connection.
pub uninterp spec fn tables_ready(c: sqlite::Connection) -> bool;

#[verifier::external_type_specification]
#[verifier::external_body]
pub struct ExConnection(sqlite::Connection);

/// There is a row of the given kind.
pub open spec fn has_kind_row(rows: Seq<(Seq<char>, Seq<char>)>, k: Seq<char>) -> bool {
    exists|i: int| 0 <= i < rows.len() && rows[i].0 == k
}

/// There is a row with the given kind and value.
pub open spec fn has_row(rows: Seq<(Seq<char>, Seq<char>)>, k: Seq<char>, v: Seq<char>) -> bool {
    exists|i: int| 0 <= i < rows.len() && rows[i].0 == k && rows[i].1 == v
}

/// No NUL character anywhere: the storage engine's text reads stop at the
/// first NUL byte, so only NUL-free text round-trips through it.
pub open spec fn nul_free(s: Seq<char>) -> bool {
    forall|i: int| 0 <= i < s.len() ==> s[i] != '\0'
}

/// Every stored value of the given kind is NUL-free.
pub open spec fn cred_values_nul_free(rows: Seq<(Seq<char>, Seq<char>)>, k: Seq<char>) -> bool {
    forall|i: int| 0 <= i < rows.len() && rows[i].0 == k ==> nul_free(#[trigger] rows[i].1)
}

/// How many rows have the given kind.
pub open spec fn kind_count(rows: Seq<(Seq<char>, Seq<char>)>, k: Seq<char>) -> nat
    decreases rows.len(),
{
    if rows.len() == 0 {
        0
    } else {
        (if rows[0].0 == k {
            1nat
        } else {
            0nat
        }) + kind_count(rows.drop_first(), k)
    }
}

/// The value of the first row of the given kind, if any.
pub open spec fn first_match(rows: Seq<(Seq<char>, Seq<char>)>, k: Seq<char>) -> Option<
    Seq<char>,
>
    decreases rows.len(),
{
    if rows.len() == 0 {
        None
    } else if rows[0].0 == k {
        Some(rows[0].1)
    } else {
        first_match(rows.drop_first(), k)
    }
}

/// The rows with every row of the given kind removed, order kept.
pub open spec fn remove_kind(rows: Seq<(Seq<char>, Seq<char>)>, k: Seq<char>) -> Seq<
    (Seq<char>, Seq<char>),
>
    decreases rows.len(),
{
    if rows.len() == 0 {
        Seq::empty()
    } else if rows[0].0 == k {
        remove_kind(rows.drop_first(), k)
    } else {
        seq![rows[0]] + remove_kind(rows.drop_first(), k)
    }
}

/// An upsert: every old row of the kind removed, the new pair appended.
pub open spec fn upsert_rows(
    rows: Seq<(Seq<char>, Seq<char>)>,
    k: Seq<char>,
    v: Seq<char>,
) -> Seq<(Seq<char>, Seq<char>)> {
    remove_kind(rows, k).push((k, v))
}

// ---------------------------------------------------------------------------
// Trusted calls into the storage engine.
// ---------------------------------------------------------------------------

/// Relies on `sqlite::Connection::execute` running
/// `CREATE TABLE IF NOT EXISTS` for the two tables of the store: on success
/// both tables exist afterwards, and existing rows are never touched.
#[verifier::external_body]
fn exec_create_tables(c: &mut sqlite::Connection) -> (r: Result<(), StoreError>)
    ensures
        r is Ok ==> tables_ready(*final(c)),
        tables_ready(*old(c)) ==> tables_ready(*final(c)) && app_rows(*final(c)) == app_rows(
            *old(c),
        ) && exe_rows(*final(c)) == exe_rows(*old(c)),
        r is Err ==> r.unwrap_err() == StoreError::QueryFailed,
{
    let outcome = c.execute(
        "CREATE TABLE IF NOT EXISTS application_data (type TEXT, value TEXT);\
         CREATE TABLE IF NOT EXISTS executable_paths (id INTEGER PRIMARY KEY, exe_path TEXT)",
    );
    match outcome {
        Ok(()) => Ok(()),
        Err(_) => Err(StoreError::QueryFailed),
    }
}

/// Relies on `sqlite::Connection::prepare` and `sqlite::Statement::next`/`read`
/// running `SELECT value FROM application_data WHERE type = :kind`: on success
/// the result is `Some` exactly when a row of the kind exists. The engine
/// reads text through a C string, so the returned value is NUL-free, and it
/// equals a stored value only where the stored values of the kind hold no
/// NUL.
#[verifier::external_body]
fn select_app_value(c: &sqlite::Connection, kind: &str) -> (r: Result<
    Option<String>,
    StoreError,
>)
    ensures
        r is Ok ==> (r.unwrap() is Some <==> has_kind_row(app_rows(*c), kind@)),
        r is Ok && r.unwrap() is Some ==> nul_free(r.unwrap().unwrap()@),
        r is Ok && r.unwrap() is Some && cred_values_nul_free(app_rows(*c), kind@) ==> has_row(
            app_rows(*c),
            kind@,
            r.unwrap().unwrap()@,
        ),
        r is Err ==> r.unwrap_err() == StoreError::QueryFailed,
{
    let attempt: Result<Option<String>, sqlite::Error> = (|| {
        let mut command = c.prepare("SELECT value FROM application_data WHERE type = :kind")?;
        command.bind((":kind", kind))?;
        match command.next()? {
            sqlite::State::Row => Ok(Some(command.read::<String, _>("value")?)),
            sqlite::State::Done => Ok(None),
        }
    })();
    attempt.map_err(|_e| StoreError::QueryFailed)
}

/// Relies on `sqlite::Connection::prepare` and `sqlite::Statement::next`
/// running `DELETE FROM application_data WHERE type = :kind`, an atomic
/// statement: on success exactly the rows of that kind are gone, on failure
/// nothing changed; the other table is never touched.
#[verifier::external_body]
fn delete_app_kind(c: &mut sqlite::Connection, kind: &str) -> (r: Result<(), StoreError>)
    requires
        tables_ready(*old(c)),
    ensures
        tables_ready(*final(c)),
        exe_rows(*final(c)) == exe_rows(*old(c)),
        r is Ok ==> app_rows(*final(c)) == remove_kind(app_rows(*old(c)), kind@),
        r is Err ==> app_rows(*final(c)) == app_rows(*old(c)) && r.unwrap_err()
            == StoreError::QueryFailed,
{
    let attempt: Result<(), sqlite::Error> = (|| {
        let mut command = c.prepare("DELETE FROM application_data WHERE type = :kind")?;
        command.bind((":kind", kind))?;
        command.next()?;
        Ok(())
    })();
    attempt.map_err(|_e| StoreError::QueryFailed)
}

/// Relies on `sqlite::Connection::prepare` and `sqlite::Statement::next`
/// running `INSERT INTO application_data`, an atomic statement: on success
/// the one new row stands at the end, on failure nothing changed; the other
/// table is never touched.
#[verifier::external_body]
fn insert_app_row(c: &mut sqlite::Connection, kind: &str, value: &str) -> (r: Result<
    (),
    StoreError,
>)
    requires
        tables_ready(*old(c)),
    ensures
        tables_ready(*final(c)),
        exe_rows(*final(c)) == exe_rows(*old(c)),
        r is Ok ==> app_rows(*final(c)) == app_rows(*old(c)).push((kind@, value@)),
        r is Err ==> app_rows(*final(c)) == app_rows(*old(c)) && r.unwrap_err()
            == StoreError::QueryFailed,
{
    let attempt: Result<(), sqlite::Error> = (|| {
        let mut command = c.prepare(
            "INSERT INTO application_data (type, value) VALUES (:kind, :value)",
        )?;
        command.bind((":kind", kind))?;
        command.bind((":value", value))?;
        command.next()?;
        Ok(())
    })();
    attempt.map_err(|_e| StoreError::QueryFailed)
}

/// Relies on `sqlite::Connection::prepare` and `sqlite::Statement::next`
/// running `INSERT INTO executable_paths`, an atomic statement; a fresh row
/// takes a rowid above all existing ones, so on success the new path stands
/// at the end of the id order, on failure nothing changed; the other table is
/// never touched.
#[verifier::external_body]
fn insert_exe_row(c: &mut sqlite::Connection, path: &str) -> (r: Result<(), StoreError>)
    requires
        tables_ready(*old(c)),
    ensures
        tables_ready(*final(c)),
        app_rows(*final(c)) == app_rows(*old(c)),
        r is Ok ==> exe_rows(*final(c)) == exe_rows(*old(c)).push(path@),
        r is Err ==> exe_rows(*final(c)) == exe_rows(*old(c)) && r.unwrap_err()
            == StoreError::QueryFailed,
{
    let attempt: Result<(), sqlite::Error> = (|| {
        let mut command = c.prepare("INSERT INTO executable_paths (exe_path) VALUES (:path)")?;
        command.bind((":path", path))?;
        command.next()?;
        Ok(())
    })();
    attempt.map_err(|_e| StoreError::QueryFailed)
}

/// Relies on `sqlite::Connection::prepare` and `sqlite::Statement::next`/`read`
/// running `SELECT exe_path FROM executable_paths ORDER BY id`: on success the
/// result holds one entry per stored path, in id (insertion) order. The
/// engine reads text through a C string, so each entry is NUL-free and equals
/// the stored path where that path holds no NUL.
#[verifier::external_body]
fn select_exe_rows(c: &sqlite::Connection) -> (r: Result<Vec<String>, StoreError>)
    ensures
        r is Ok ==> r.unwrap()@.len() == exe_rows(*c).len() && (forall|i: int|
            0 <= i < exe_rows(*c).len() ==> nul_free(#[trigger] r.unwrap()@[i]@) && (nul_free(
                exe_rows(*c)[i],
            ) ==> r.unwrap()@[i]@ == exe_rows(*c)[i])),
        r is Err ==> r.unwrap_err() == StoreError::QueryFailed,
{
    let attempt: Result<Vec<String>, sqlite::Error> = (|| {
        let mut command = c.prepare("SELECT exe_path FROM executable_paths ORDER BY id")?;
        let mut output: Vec<String> = Vec::new();
        while let sqlite::State::Row = command.next()? {
            output.push(command.read::<String, _>("exe_path")?);
        }
        Ok(output)
    })();
    attempt.map_err(|_e| StoreError::QueryFailed)
}

// ---------------------------------------------------------------------------
// The verified store.
// ---------------------------------------------------------------------------

/// A handle to the opened configuration store.
pub struct Config {
    connection: sqlite::Connection,
}

impl Config {
    /// The credential rows of the store.
    pub closed spec fn creds(self) -> Seq<(Seq<char>, Seq<char>)> {
        app_rows(self.connection)
    }

    /// The stored executable paths, in insertion order.
    pub closed spec fn exe_paths(self) -> Seq<Seq<char>> {
        exe_rows(self.connection)
    }

    /// Well-formedness: the tables exist, each credential kind has at most
    /// one row, and the stored credential values are NUL-free, so that the
    /// engine's text reads give them back whole.
    pub closed spec fn wf(self) -> bool {
        &&& tables_ready(self.connection)
        &&& kind_count(self.creds(), CredKind::ApiKey.spec_key()) <= 1
        &&& kind_count(self.creds(), CredKind::UserId.spec_key()) <= 1
        &&& cred_values_nul_free(self.creds(), CredKind::ApiKey.spec_key())
        &&& cred_values_nul_free(self.creds(), CredKind::UserId.spec_key())
    }

    /// Takes a freshly opened connection, creates the tables if they are
    /// absent, and restores the at-most-one-row-per-kind invariant that older
    /// stores may lack, keeping for each kind one of the values it held.
    pub fn new(connection: sqlite::Connection) -> (r: Result<Config, StoreError>)
        ensures
            r is Ok ==> r.unwrap().wf(),
            r is Ok && tables_ready(connection) ==> {
                let cfg = r.unwrap();
                &&& cfg.exe_paths() == exe_rows(connection)
                &&& kept_kind(cfg.creds(), app_rows(connection), CredKind::ApiKey.spec_key())
                &&& kept_kind(cfg.creds(), app_rows(connection), CredKind::UserId.spec_key())
            },
    {
        let mut connection = connection;
        let ghost rows0 = app_rows(connection);
        let ghost ready0 = tables_ready(connection);
        match exec_create_tables(&mut connection) {
            Ok(()) => {},
            Err(e) => {
                return Err(e);
            },
        }
        match normalize_kind(&mut connection, CredKind::ApiKey) {
            Ok(()) => {},
            Err(e) => {
                return Err(e);
            },
        }
        let ghost rows1 = app_rows(connection);
        match normalize_kind(&mut connection, CredKind::UserId) {
            Ok(()) => {},
            Err(e) => {
                return Err(e);
            },
        }
        proof {
            let api = CredKind::ApiKey.spec_key();
            let user = CredKind::UserId.spec_key();
            let rows2 = app_rows(connection);
            lemma_other_kind();
            lemma_count_presence(rows1, api);
            lemma_count_presence(rows2, api);
            lemma_count_presence(rows0, user);
            lemma_count_presence(rows1, user);
            lemma_count_presence(rows2, user);
            assert(first_match(rows2, api) == first_match(rows1, api));
            assert(kind_count(rows2, api) <= kind_count(rows1, api));
            assert(has_kind_row(rows2, api) <==> has_kind_row(rows1, api));
            assert(cred_values_nul_free(rows2, api));
            assert(cred_values_nul_free(rows2, user));
            if ready0 {
                assert(kept_kind(rows1, rows0, api));
                assert(kept_kind(rows2, rows1, user));
                assert(kept_kind(rows2, rows0, api));
                assert(first_match(rows1, user) == first_match(rows0, user));
                assert(has_kind_row(rows2, user) <==> has_kind_row(rows0, user));
                if cred_values_nul_free(rows0, user) && first_match(rows2, user) is Some {
                    let v = first_match(rows2, user).unwrap();
                    assert(cred_values_nul_free(rows1, user));
                    assert(has_row(rows1, user, v));
                    assert(has_row(rows0, user, v));
                }
                assert(kept_kind(rows2, rows0, user));
            }
        }
        Ok(Config { connection })
    }

    /// Whether the store already holds an API key: the first-run setup is due
    /// exactly when it does not.
    pub fn is_initialized(&self) -> (r: Result<bool, StoreError>)
        requires
            self.wf(),
        ensures
            r is Ok ==> r.unwrap() == has_kind_row(self.creds(), CredKind::ApiKey.spec_key()),
    {
        match select_app_value(&self.connection, CredKind::ApiKey.key_str()) {
            Ok(found) => Ok(found.is_some()),
            Err(e) => Err(e),
        }
    }

    /// Reads the stored value of the given kind; fails with `NotConfigured`
    /// when no value of that kind was ever stored.
    pub fn get_credential(&self, kind: CredKind) -> (r: Result<String, StoreError>)
        requires
            self.wf(),
        ensures
            r is Ok ==> first_match(self.creds(), kind.spec_key()) == Some(r.unwrap()@)
                && nul_free(r.unwrap()@),
            r == Err::<String, StoreError>(StoreError::NotConfigured) ==> first_match(
                self.creds(),
                kind.spec_key(),
            ) is None,
            r is Err ==> r.unwrap_err() == StoreError::NotConfigured || r.unwrap_err()
                == StoreError::QueryFailed,
    {
        let key = kind.key_str();
        match select_app_value(&self.connection, key) {
            Ok(Some(value)) => {
                proof {
                    let rows = self.creds();
                    let i = choose|i: int|
                        0 <= i < rows.len() && rows[i].0 == kind.spec_key() && rows[i].1
                            == value@;
                    lemma_unique_first_match(rows, kind.spec_key(), i);
                }
                Ok(value)
            },
            Ok(None) => {
                proof {
                    lemma_count_presence(self.creds(), kind.spec_key());
                }
                Err(StoreError::NotConfigured)
            },
            Err(_e) => Err(StoreError::QueryFailed),
        }
    }

    /// Stores a credential as an upsert: afterwards the given value is the
    /// one row of its kind. On a storage failure the store stays well formed;
    /// the kind then holds either its old rows or none.
    pub fn set_credential(&mut self, kind: CredKind, value: &str) -> (r: Result<(), StoreError>)
        requires
            old(self).wf(),
            nul_free(value@),
        ensures
            final(self).wf(),
            final(self).exe_paths() == old(self).exe_paths(),
            r is Ok ==> final(self).creds() == upsert_rows(
                old(self).creds(),
                kind.spec_key(),
                value@,
            ),
            r is Err ==> (final(self).creds() == old(self).creds() || final(self).creds()
                == remove_kind(old(self).creds(), kind.spec_key())) && r.unwrap_err()
                == StoreError::QueryFailed,
    {
        let key = kind.key_str();
        let ghost rows0 = self.creds();
        proof {
            lemma_remove_kind(rows0, kind.spec_key());
            lemma_other_kind();
            lemma_upsert_keeps_nul_free(rows0, kind.spec_key(), CredKind::ApiKey.spec_key());
            lemma_upsert_keeps_nul_free(rows0, kind.spec_key(), CredKind::UserId.spec_key());
        }
        match delete_app_kind(&mut self.connection, key) {
            Ok(()) => {},
            Err(e) => {
                return Err(e);
            },
        }
        proof {
            lemma_push_row(remove_kind(rows0, kind.spec_key()), (kind.spec_key(), value@));
        }
        match insert_app_row(&mut self.connection, key, value) {
            Ok(()) => Ok(()),
            Err(e) => Err(e),
        }
    }

    /// Reads the stored API key; `NotConfigured` when none was stored.
    pub fn get_api_key(&self) -> (r: Result<String, StoreError>)
        requires
            self.wf(),
        ensures
            r is Ok ==> first_match(self.creds(), CredKind::ApiKey.spec_key()) == Some(
                r.unwrap()@,
            ),
            r == Err::<String, StoreError>(StoreError::NotConfigured) ==> first_match(
                self.creds(),
                CredKind::ApiKey.spec_key(),
            ) is None,
    {
        self.get_credential(CredKind::ApiKey)
    }

    /// Reads the stored account id; `NotConfigured` when none was stored.
    pub fn get_user_id(&self) -> (r: Result<String, StoreError>)
        requires
            self.wf(),
        ensures
            r is Ok ==> first_match(self.creds(), CredKind::UserId.spec_key()) == Some(
                r.unwrap()@,
            ),
            r == Err::<String, StoreError>(StoreError::NotConfigured) ==> first_match(
                self.creds(),
                CredKind::UserId.spec_key(),
            ) is None,
    {
        self.get_credential(CredKind::UserId)
    }

    /// Stores the API key as an upsert.
    pub fn set_api_key(&mut self, api_key: &str) -> (r: Result<(), StoreError>)
        requires
            old(self).wf(),
            nul_free(api_key@),
        ensures
            final(self).wf(),
            final(self).exe_paths() == old(self).exe_paths(),
            r is Ok ==> final(self).creds() == upsert_rows(
                old(self).creds(),
                CredKind::ApiKey.spec_key(),
                api_key@,
            ),
            r is Err ==> (final(self).creds() == old(self).creds() || final(self).creds()
                == remove_kind(old(self).creds(), CredKind::ApiKey.spec_key())) && r.unwrap_err()
                == StoreError::QueryFailed,
    {
        self.set_credential(CredKind::ApiKey, api_key)
    }

    /// Stores the account id as an upsert.
    pub fn set_user_id(&mut self, user_id: &str) -> (r: Result<(), StoreError>)
        requires
            old(self).wf(),
            nul_free(user_id@),
        ensures
            final(self).wf(),
            final(self).exe_paths() == old(self).exe_paths(),
            r is Ok ==> final(self).creds() == upsert_rows(
                old(self).creds(),
                CredKind::UserId.spec_key(),
                user_id@,
            ),
            r is Err ==> (final(self).creds() == old(self).creds() || final(self).creds()
                == remove_kind(old(self).creds(), CredKind::UserId.spec_key())) && r.unwrap_err()
                == StoreError::QueryFailed,
    {
        self.set_credential(CredKind::UserId, user_id)
    }

    /// Appends an executable path; entries are never deduplicated. The path
    /// must hold no NUL, so the storage engine's text read gives it back
    /// whole.
    pub fn add_executable_path(&mut self, path: &str) -> (r: Result<(), StoreError>)
        requires
            old(self).wf(),
            nul_free(path@),
        ensures
            final(self).wf(),
            final(self).creds() == old(self).creds(),
            r is Ok ==> final(self).exe_paths() == old(self).exe_paths().push(path@),
            r is Err ==> final(self).exe_paths() == old(self).exe_paths() && r.unwrap_err()
                == StoreError::QueryFailed,
    {
        insert_exe_row(&mut self.connection, path)
    }

    /// Returns one entry per registered path, in insertion order; an empty
    /// list is a valid result, not an error. A stored path is returned whole
    /// where it holds no NUL — every path added through
    /// `add_executable_path` does.
    pub fn get_executable_paths(&self) -> (r: Result<Vec<String>, StoreError>)
        requires
            self.wf(),
        ensures
            r is Ok ==> r.unwrap()@.len() == self.exe_paths().len() && (forall|i: int|
                0 <= i < self.exe_paths().len() ==> nul_free(#[trigger] r.unwrap()@[i]@)
                    && (nul_free(self.exe_paths()[i]) ==> r.unwrap()@[i]@
                    == self.exe_paths()[i])),
            r is Err ==> r.unwrap_err() == StoreError::QueryFailed,
    {
        select_exe_rows(&self.connection)
    }
}

/// The two credential kinds are stored under distinct keys.
proof fn lemma_other_kind()
    ensures
        CredKind::ApiKey.spec_key() != CredKind::UserId.spec_key(),
{
    reveal_strlit("api_key");
    reveal_strlit("user_id");
    assert(CredKind::ApiKey.spec_key()[0] == 'a');
    assert(CredKind::UserId.spec_key()[0] == 'u');
}

/// One kind of the rows after normalization against the rows before:
/// presence is kept, and — where the old values of the kind were NUL-free,
/// so the engine could read them whole — the retrievable value is one that
/// was stored before.
pub open spec fn kept_kind(
    new_rows: Seq<(Seq<char>, Seq<char>)>,
    old_rows: Seq<(Seq<char>, Seq<char>)>,
    k: Seq<char>,
) -> bool {
    &&& (has_kind_row(new_rows, k) <==> has_kind_row(old_rows, k))
    &&& (cred_values_nul_free(old_rows, k) && first_match(new_rows, k) is Some ==> has_row(
        old_rows,
        k,
        first_match(new_rows, k).unwrap(),
    ))
}

/// Restores the at-most-one-row invariant for one kind: reads a stored value
/// of the kind if any, deletes every row of the kind, and writes the value
/// back.
fn normalize_kind(c: &mut sqlite::Connection, kind: CredKind) -> (r: Result<(), StoreError>)
    requires
        tables_ready(*old(c)),
    ensures
        tables_ready(*final(c)),
        exe_rows(*final(c)) == exe_rows(*old(c)),
        r is Ok ==> kind_count(app_rows(*final(c)), kind.spec_key()) <= 1 && kept_kind(
            app_rows(*final(c)),
            app_rows(*old(c)),
            kind.spec_key(),
        ) && cred_values_nul_free(app_rows(*final(c)), kind.spec_key()),
        forall|k2: Seq<char>|
            cred_values_nul_free(app_rows(*old(c)), k2) && k2 != kind.spec_key()
                ==> cred_values_nul_free(app_rows(*final(c)), k2),
        forall|k2: Seq<char>|
            k2 != kind.spec_key() ==> kind_count(app_rows(*final(c)), k2) <= kind_count(
                app_rows(*old(c)),
                k2,
            ) && (r is Ok ==> first_match(app_rows(*final(c)), k2) == first_match(
                app_rows(*old(c)),
                k2,
            )),
        forall|k2: Seq<char>, v: Seq<char>|
            k2 != kind.spec_key() && has_row(app_rows(*final(c)), k2, v) ==> has_row(
                app_rows(*old(c)),
                k2,
                v,
            ),
{
    let key = kind.key_str();
    let ghost rows0 = app_rows(*c);
    let current = match select_app_value(c, key) {
        Ok(v) => v,
        Err(e) => {
            return Err(e);
        },
    };
    proof {
        lemma_remove_kind(rows0, kind.spec_key());
        lemma_remove_kind_provenance(rows0, kind.spec_key());
        assert forall|k2: Seq<char>|
            cred_values_nul_free(rows0, k2) && k2 != kind.spec_key() implies cred_values_nul_free(
            remove_kind(rows0, kind.spec_key()),
            k2,
        ) by {
            lemma_upsert_keeps_nul_free(rows0, kind.spec_key(), k2);
        }
    }
    match delete_app_kind(c, key) {
        Ok(()) => {},
        Err(e) => {
            return Err(e);
        },
    }
    let ghost cleared = app_rows(*c);
    match current {
        Some(value) => {
            proof {
                lemma_push_row(cleared, (kind.spec_key(), value@));
                lemma_count_presence(cleared, kind.spec_key());
                lemma_count_presence(cleared.push((kind.spec_key(), value@)), kind.spec_key());
                lemma_upsert_keeps_nul_free(rows0, kind.spec_key(), kind.spec_key());
                assert forall|k2: Seq<char>|
                    cred_values_nul_free(rows0, k2) && k2
                        != kind.spec_key() implies cred_values_nul_free(
                    cleared.push((kind.spec_key(), value@)),
                    k2,
                ) by {
                    lemma_upsert_keeps_nul_free(rows0, kind.spec_key(), k2);
                }
            }
            match insert_app_row(c, key, value.as_str()) {
                Ok(()) => {
                    proof {
                        let newest = app_rows(*c);
                        assert(newest[newest.len() - 1].0 == kind.spec_key());
                        assert forall|k2: Seq<char>, v: Seq<char>|
                            k2 != kind.spec_key() && has_row(newest, k2, v) implies has_row(
                            rows0,
                            k2,
                            v,
                        ) by {
                            let j = choose|j: int|
                                0 <= j < newest.len() && newest[j].0 == k2 && newest[j].1 == v;
                            assert(cleared[j].0 == k2 && cleared[j].1 == v);
                            assert(has_row(cleared, k2, v));
                        }
                    }
                    Ok(())
                },
                Err(e) => Err(e),
            }
        },
        None => {
            proof {
                lemma_count_presence(rows0, kind.spec_key());
                lemma_count_presence(cleared, kind.spec_key());
                lemma_upsert_keeps_nul_free(rows0, kind.spec_key(), kind.spec_key());
            }
            Ok(())
        },
    }
}

// ---------------------------------------------------------------------------
// Facts about the row model.
// ---------------------------------------------------------------------------

/// A row of some kind makes the count of that kind positive.
pub proof fn lemma_count_positive(rows: Seq<(Seq<char>, Seq<char>)>, k: Seq<char>, i: int)
    requires
        0 <= i < rows.len(),
        rows[i].0 == k,
    ensures
        kind_count(rows, k) >= 1,
    decreases rows.len(),
{
    if i > 0 {
        lemma_count_positive(rows.drop_first(), k, i - 1);
    }
}

/// Two rows of one kind make the count at least two.
pub proof fn lemma_count_two(rows: Seq<(Seq<char>, Seq<char>)>, k: Seq<char>, i: int, j: int)
    requires
        0 <= i < j < rows.len(),
        rows[i].0 == k,
        rows[j].0 == k,
    ensures
        kind_count(rows, k) >= 2,
    decreases rows.len(),
{
    if i == 0 {
        lemma_count_positive(rows.drop_first(), k, j - 1);
    } else {
        lemma_count_two(rows.drop_first(), k, i - 1, j - 1);
    }
}

/// The count is zero exactly when no row of the kind exists, and positive
/// exactly when `first_match` finds one.
pub proof fn lemma_count_presence(rows: Seq<(Seq<char>, Seq<char>)>, k: Seq<char>)
    ensures
        (kind_count(rows, k) == 0) <==> !has_kind_row(rows, k),
        (kind_count(rows, k) > 0) <==> first_match(rows, k) is Some,
    decreases rows.len(),
{
    if rows.len() > 0 {
        lemma_count_presence(rows.drop_first(), k);
        if has_kind_row(rows.drop_first(), k) {
            let i = choose|i: int|
                0 <= i < rows.drop_first().len() && rows.drop_first()[i].0 == k;
            assert(rows[i + 1].0 == k);
        }
        if has_kind_row(rows, k) && rows[0].0 != k {
            let i = choose|i: int| 0 <= i < rows.len() && rows[i].0 == k;
            assert(rows.drop_first()[i - 1].0 == k);
        }
    }
}

/// When at most one row of the kind exists, `first_match` returns that row's
/// value.
pub proof fn lemma_unique_first_match(rows: Seq<(Seq<char>, Seq<char>)>, k: Seq<char>, i: int)
    requires
        kind_count(rows, k) <= 1,
        0 <= i < rows.len(),
        rows[i].0 == k,
    ensures
        first_match(rows, k) == Some(rows[i].1),
    decreases rows.len(),
{
    if rows[0].0 == k {
        if i != 0 {
            lemma_count_two(rows, k, 0, i);
        }
    } else {
        lemma_unique_first_match(rows.drop_first(), k, i - 1);
    }
}

/// Removing a kind erases every row of it and leaves every other kind's rows
/// alone: the count of the removed kind is zero, the count and the first
/// match of other kinds are kept, and every kept row stood in the old rows.
pub proof fn lemma_remove_kind(rows: Seq<(Seq<char>, Seq<char>)>, k: Seq<char>)
    ensures
        kind_count(remove_kind(rows, k), k) == 0,
        forall|k2: Seq<char>|
            k2 != k ==> kind_count(remove_kind(rows, k), k2) == kind_count(rows, k2),
        forall|k2: Seq<char>|
            k2 != k ==> first_match(remove_kind(rows, k), k2) == first_match(rows, k2),
    decreases rows.len(),
{
    if rows.len() > 0 {
        lemma_remove_kind(rows.drop_first(), k);
        if rows[0].0 == k {
            assert forall|k2: Seq<char>| k2 != k implies kind_count(remove_kind(rows, k), k2)
                == kind_count(rows, k2) && first_match(remove_kind(rows, k), k2) == first_match(
                rows,
                k2,
            ) by {
                assert(kind_count(rows, k2) == kind_count(rows.drop_first(), k2));
                assert(first_match(rows, k2) == first_match(rows.drop_first(), k2));
            }
        } else {
            let rest = remove_kind(rows.drop_first(), k);
            let whole = seq![rows[0]] + rest;
            assert(remove_kind(rows, k) == whole);
            assert(whole.drop_first() =~= rest);
            assert(whole[0] == rows[0]);
            assert(kind_count(whole, k) == kind_count(rest, k));
            assert forall|k2: Seq<char>| k2 != k implies kind_count(whole, k2) == kind_count(
                rows,
                k2,
            ) && first_match(whole, k2) == first_match(rows, k2) by {
                assert(kind_count(whole, k2) == (if whole[0].0 == k2 {
                    1nat
                } else {
                    0nat
                }) + kind_count(rest, k2));
                assert(kind_count(rows, k2) == (if rows[0].0 == k2 {
                    1nat
                } else {
                    0nat
                }) + kind_count(rows.drop_first(), k2));
                if rows[0].0 != k2 {
                    assert(first_match(whole, k2) == first_match(rest, k2));
                    assert(first_match(rows, k2) == first_match(rows.drop_first(), k2));
                }
            }
        }
    }
}

/// Every row that survives the removal of a kind stood in the old rows.
pub proof fn lemma_remove_kind_provenance(rows: Seq<(Seq<char>, Seq<char>)>, k: Seq<char>)
    ensures
        forall|k2: Seq<char>, v: Seq<char>|
            has_row(remove_kind(rows, k), k2, v) ==> has_row(rows, k2, v),
    decreases rows.len(),
{
    if rows.len() > 0 {
        lemma_remove_kind_provenance(rows.drop_first(), k);
        let rem = remove_kind(rows, k);
        let tail_rem = remove_kind(rows.drop_first(), k);
        assert forall|k2: Seq<char>, v: Seq<char>| has_row(rem, k2, v) implies has_row(
            rows,
            k2,
            v,
        ) by {
            let j = choose|j: int| 0 <= j < rem.len() && rem[j].0 == k2 && rem[j].1 == v;
            if rows[0].0 == k {
                assert(has_row(rows.drop_first(), k2, v));
                let i = choose|i: int|
                    0 <= i < rows.drop_first().len() && rows.drop_first()[i].0 == k2
                        && rows.drop_first()[i].1 == v;
                assert(rows[i + 1].0 == k2 && rows[i + 1].1 == v);
            } else {
                if j == 0 {
                    assert(rem[0] == rows[0]);
                } else {
                    assert(rem[j] == tail_rem[j - 1]);
                    assert(has_row(tail_rem, k2, v));
                    assert(has_row(rows.drop_first(), k2, v));
                    let i = choose|i: int|
                        0 <= i < rows.drop_first().len() && rows.drop_first()[i].0 == k2
                            && rows.drop_first()[i].1 == v;
                    assert(rows[i + 1].0 == k2 && rows[i + 1].1 == v);
                }
            }
        }
    }
}

/// Removing one kind, then appending a NUL-free row of it, keeps every
/// kind's values NUL-free: the removed kind has no rows left before the
/// push, other kinds keep exactly the values they had.
pub proof fn lemma_upsert_keeps_nul_free(
    rows: Seq<(Seq<char>, Seq<char>)>,
    k: Seq<char>,
    k2: Seq<char>,
)
    ensures
        cred_values_nul_free(rows, k2) ==> cred_values_nul_free(remove_kind(rows, k), k2),
        cred_values_nul_free(remove_kind(rows, k), k),
        forall|v: Seq<char>|
            nul_free(v) && k2 != k && cred_values_nul_free(rows, k2) ==> cred_values_nul_free(
                #[trigger] remove_kind(rows, k).push((k, v)),
                k2,
            ),
        forall|v: Seq<char>|
            nul_free(v) ==> cred_values_nul_free(#[trigger] remove_kind(rows, k).push((k, v)), k),
{
    lemma_remove_kind_provenance(rows, k);
    let rem = remove_kind(rows, k);
    lemma_remove_kind(rows, k);
    assert forall|i: int| 0 <= i < rem.len() implies rem[i].0 != k by {
        if rem[i].0 == k {
            lemma_count_positive(rem, k, i);
        }
    }
    if cred_values_nul_free(rows, k2) {
        assert forall|i: int| 0 <= i < rem.len() && rem[i].0 == k2 implies nul_free(
            #[trigger] rem[i].1,
        ) by {
            assert(has_row(rem, k2, rem[i].1));
            assert(has_row(rows, k2, rem[i].1));
            let j = choose|j: int|
                0 <= j < rows.len() && rows[j].0 == k2 && rows[j].1 == rem[i].1;
            assert(nul_free(rows[j].1));
        }
    }
    assert forall|v: Seq<char>| nul_free(v) implies cred_values_nul_free(
        #[trigger] rem.push((k, v)),
        k,
    ) by {
        let pushed = rem.push((k, v));
        assert forall|i: int| 0 <= i < pushed.len() && pushed[i].0 == k implies nul_free(
            #[trigger] pushed[i].1,
        ) by {
            if i < rem.len() {
                assert(rem[i].0 != k);
            }
        }
    }
    assert forall|v: Seq<char>|
        nul_free(v) && k2 != k && cred_values_nul_free(rows, k2) implies cred_values_nul_free(
        #[trigger] rem.push((k, v)),
        k2,
    ) by {
        let pushed = rem.push((k, v));
        assert forall|i: int| 0 <= i < pushed.len() && pushed[i].0 == k2 implies nul_free(
            #[trigger] pushed[i].1,
        ) by {
            if i < rem.len() {
                assert(nul_free(rem[i].1));
            }
        }
    }
}

/// Appending a row changes only its own kind's count, by one, and leaves the
/// first match of other kinds alone.
pub proof fn lemma_push_row(rows: Seq<(Seq<char>, Seq<char>)>, row: (Seq<char>, Seq<char>))
    ensures
        kind_count(rows.push(row), row.0) == kind_count(rows, row.0) + 1,
        forall|k2: Seq<char>|
            k2 != row.0 ==> kind_count(rows.push(row), k2) == kind_count(rows, k2),
        forall|k2: Seq<char>|
            k2 != row.0 ==> first_match(rows.push(row), k2) == first_match(rows, k2),
        kind_count(rows, row.0) == 0 ==> first_match(rows.push(row), row.0) == Some(row.1),
    decreases rows.len(),
{
    let p = rows.push(row);
    if rows.len() == 0 {
        assert(p.drop_first() =~= Seq::<(Seq<char>, Seq<char>)>::empty());
        assert(p[0] == row);
        assert(kind_count(p, row.0) == 1 + kind_count(p.drop_first(), row.0));
        assert forall|k2: Seq<char>| k2 != row.0 implies kind_count(p, k2) == kind_count(rows, k2)
            && first_match(p, k2) == first_match(rows, k2) by {
            assert(kind_count(p, k2) == kind_count(p.drop_first(), k2));
            assert(first_match(p, k2) == first_match(p.drop_first(), k2));
        }
    } else {
        lemma_push_row(rows.drop_first(), row);
        let q = rows.drop_first().push(row);
        assert(p.drop_first() =~= q);
        assert(p[0] == rows[0]);
        assert(kind_count(p, row.0) == (if p[0].0 == row.0 {
            1nat
        } else {
            0nat
        }) + kind_count(q, row.0));
        assert forall|k2: Seq<char>| k2 != row.0 implies kind_count(p, k2) == kind_count(rows, k2)
            && first_match(p, k2) == first_match(rows, k2) by {
            assert(kind_count(p, k2) == (if p[0].0 == k2 {
                1nat
            } else {
                0nat
            }) + kind_count(q, k2));
            assert(kind_count(rows, k2) == (if rows[0].0 == k2 {
                1nat
            } else {
                0nat
            }) + kind_count(rows.drop_first(), k2));
            if rows[0].0 != k2 {
                assert(first_match(p, k2) == first_match(q, k2));
                assert(first_match(rows, k2) == first_match(rows.drop_first(), k2));
            }
        }
        if kind_count(rows, row.0) == 0 {
            assert(kind_count(rows, row.0) == (if rows[0].0 == row.0 {
                1nat
            } else {
                0nat
            }) + kind_count(rows.drop_first(), row.0));
            assert(rows[0].0 != row.0);
            assert(first_match(p, row.0) == first_match(q, row.0));
        }
    }
}

/// Law: after a credential is stored, it is the one retrievable value for its
/// kind, whatever stood there before, and exactly one row of the kind remains.
pub proof fn lemma_upsert_latest(rows: Seq<(Seq<char>, Seq<char>)>, k: Seq<char>, v: Seq<char>)
    ensures
        first_match(upsert_rows(rows, k, v), k) == Some(v),
        kind_count(upsert_rows(rows, k, v), k) == 1,
{
    lemma_remove_kind(rows, k);
    lemma_push_row(remove_kind(rows, k), (k, v));
}

/// Law: storing one kind twice leaves exactly one retrievable value for it,
/// the most recent one.
pub proof fn lemma_set_credential_twice(
    rows: Seq<(Seq<char>, Seq<char>)>,
    k: Seq<char>,
    v1: Seq<char>,
    v2: Seq<char>,
)
    ensures
        first_match(upsert_rows(upsert_rows(rows, k, v1), k, v2), k) == Some(v2),
        kind_count(upsert_rows(upsert_rows(rows, k, v1), k, v2), k) == 1,
{
    lemma_upsert_latest(upsert_rows(rows, k, v1), k, v2);
}

/// Law: a credential read fails as unconfigured exactly as long as no store
/// for its kind has happened: an empty store holds no kind, storing another
/// kind changes nothing for this one, and storing this kind makes it
/// retrievable.
pub proof fn lemma_not_configured_until_set(
    rows: Seq<(Seq<char>, Seq<char>)>,
    k: Seq<char>,
    k2: Seq<char>,
    v: Seq<char>,
)
    ensures
        first_match(Seq::<(Seq<char>, Seq<char>)>::empty(), k) is None,
        k2 != k ==> first_match(upsert_rows(rows, k2, v), k) == first_match(rows, k),
        first_match(upsert_rows(rows, k, v), k) == Some(v),
{
    if k2 != k {
        lemma_remove_kind(rows, k2);
        lemma_push_row(remove_kind(rows, k2), (k2, v));
    }
    lemma_upsert_latest(rows, k, v);
}

/// Law: executable paths come back in the order they were added, their count
/// equal to the count of additions on top of what was already stored.
pub proof fn lemma_paths_in_insertion_order(paths: Seq<Seq<char>>, adds: Seq<Seq<char>>)
    ensures
        paths_after_adds(paths, adds) == paths + adds,
        paths_after_adds(paths, adds).len() == paths.len() + adds.len(),
    decreases adds.len(),
{
    if adds.len() == 0 {
        assert(paths + adds =~= paths);
    } else {
        lemma_paths_in_insertion_order(paths.push(adds[0]), adds.drop_first());
        assert(paths.push(adds[0]) + adds.drop_first() =~= paths + adds);
    }
}

/// The paths after a sequence of additions, each appended in turn.
pub open spec fn paths_after_adds(paths: Seq<Seq<char>>, adds: Seq<Seq<char>>) -> Seq<Seq<char>>
    decreases adds.len(),
{
    if adds.len() == 0 {
        paths
    } else {
        paths_after_adds(paths.push(adds[0]), adds.drop_first())
    }
}

// ---------------------------------------------------------------------------
// First-run setup.
// ---------------------------------------------------------------------------

/// The single-pass first-run wizard: each step asks for one value, stores it
/// as given (no validation), and moves to the next step.
#[derive(Debug, PartialEq, Eq, Structural, Clone, Copy)]
pub enum SetupStep {
    AskExePath,
    AskApiKey,
    AskUserId,
    Done,
}

/// Applies one answer of the first-run setup: stores the value the step asks
/// for, exactly as given, and returns the step that follows. A storage
/// failure is handed back as the failing write's error; the failing step
/// leaves the other table untouched and its own kind's rows unchanged or
/// cleared.
pub fn setup_apply(config: &mut Config, step: SetupStep, input: &str) -> (r: Result<
    SetupStep,
    StoreError,
>)
    requires
        old(config).wf(),
        nul_free(input@),
    ensures
        final(config).wf(),
        r is Ok ==> r.unwrap() == (match step {
            SetupStep::AskExePath => SetupStep::AskApiKey,
            SetupStep::AskApiKey => SetupStep::AskUserId,
            SetupStep::AskUserId => SetupStep::Done,
            SetupStep::Done => SetupStep::Done,
        }),
        r is Err ==> r.unwrap_err() == StoreError::QueryFailed,
        step == SetupStep::AskExePath && r is Err ==> final(config).exe_paths() == old(
            config,
        ).exe_paths() && final(config).creds() == old(config).creds(),
        step == SetupStep::AskApiKey && r is Err ==> (final(config).creds() == old(
            config,
        ).creds() || final(config).creds() == remove_kind(
            old(config).creds(),
            CredKind::ApiKey.spec_key(),
        )) && final(config).exe_paths() == old(config).exe_paths(),
        step == SetupStep::AskUserId && r is Err ==> (final(config).creds() == old(
            config,
        ).creds() || final(config).creds() == remove_kind(
            old(config).creds(),
            CredKind::UserId.spec_key(),
        )) && final(config).exe_paths() == old(config).exe_paths(),
        step == SetupStep::AskExePath && r is Ok ==> final(config).exe_paths() == old(
            config,
        ).exe_paths().push(input@) && final(config).creds() == old(config).creds(),
        step == SetupStep::AskApiKey && r is Ok ==> final(config).creds() == upsert_rows(
            old(config).creds(),
            CredKind::ApiKey.spec_key(),
            input@,
        ) && final(config).exe_paths() == old(config).exe_paths(),
        step == SetupStep::AskUserId && r is Ok ==> final(config).creds() == upsert_rows(
            old(config).creds(),
            CredKind::UserId.spec_key(),
            input@,
        ) && final(config).exe_paths() == old(config).exe_paths(),
        step == SetupStep::Done ==> *final(config) == *old(config) && r is Ok,
{
    match step {
        SetupStep::AskExePath => {
            match config.add_executable_path(input) {
                Ok(()) => Ok(SetupStep::AskApiKey),
                Err(e) => Err(e),
            }
        },
        SetupStep::AskApiKey => {
            match config.set_api_key(input) {
                Ok(()) => Ok(SetupStep::AskUserId),
                Err(e) => Err(e),
            }
        },
        SetupStep::AskUserId => {
            match config.set_user_id(input) {
                Ok(()) => Ok(SetupStep::Done),
                Err(e) => Err(e),
            }
        },
        SetupStep::Done => Ok(SetupStep::Done),
    }
}


} // verus!
