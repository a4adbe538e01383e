//! A persistent store that holds at most one token per server address.
use refinery::Error as MigrationError;
use rusqlite::Error as SqlError;
use rusqlite::OptionalExtension;
use vstd::prelude::*;
use vstd::string::StringExecFns;

verus! {

#[verifier::external_type_specification]
#[verifier::external_body]
pub struct ExConnection(rusqlite::Connection);

#[verifier::external_type_specification]
#[verifier::external_body]
pub struct ExSqlError(SqlError);

#[verifier::external_type_specification]
#[verifier::external_body]
pub struct ExMigrationError(MigrationError);

/// The tokens that the `vault_tokens` table of the connection's database
/// holds, by address, as the last call made through `conn` left it. Other
/// connections, in this process or another, may write the same file between
/// calls, so nothing relates the table after one call to the table after the
/// next.
pub uninterp spec fn tokens_of(conn: rusqlite::Connection) -> Map<Seq<char>, Seq<char>>;

/// The token held for `addr` in `m`, if any.
pub open spec fn lookup(m: Map<Seq<char>, Seq<char>>, addr: Seq<char>) -> Option<Seq<char>> {
    if m.contains_key(addr) {
        Some(m[addr])
    } else {
        None
    }
}

/// The table `m` after `token` is stored for `addr` (inserted, or replacing
/// the one held) where no other connection writes meanwhile. A successful
/// `Store::store` leaves `lookup` of `addr` at `token`, as here.
pub open spec fn stored(m: Map<Seq<char>, Seq<char>>, addr: Seq<char>, token: Seq<char>) -> Map<
    Seq<char>,
    Seq<char>,
> {
    m.insert(addr, token)
}

/// The table `m` after the token held for `addr`, if any, is removed, where no
/// other connection writes meanwhile. A successful `Store::erase` leaves
/// `lookup` of `addr` at `None`, as here.
pub open spec fn erased(m: Map<Seq<char>, Seq<char>>, addr: Seq<char>) -> Map<
    Seq<char>,
    Seq<char>,
> {
    m.remove(addr)
}

/// The text that an optional `String` holds.
pub open spec fn opt_view(o: Option<String>) -> Option<Seq<char>> {
    match o {
        Some(s) => Some(s@),
        None => None,
    }
}

/// Storing twice for one address leaves the second token, held once, as a
/// successful store's own contract says of the table it leaves.
pub proof fn lemma_store_replaces(
    m: Map<Seq<char>, Seq<char>>,
    addr: Seq<char>,
    t1: Seq<char>,
    t2: Seq<char>,
)
    ensures
        lookup(stored(m, addr, t1), addr) == Some(t1),
        lookup(stored(stored(m, addr, t1), addr, t2), addr) == Some(t2),
        stored(stored(m, addr, t1), addr, t2) == stored(m, addr, t2),
{
    assert(stored(stored(m, addr, t1), addr, t2) =~= stored(m, addr, t2));
}

/// An address for which nothing was stored has no token, and erasing it
/// changes nothing.
pub proof fn lemma_absent_address(m: Map<Seq<char>, Seq<char>>, addr: Seq<char>)
    requires
        !m.contains_key(addr),
    ensures
        lookup(m, addr) == None::<Seq<char>>,
        erased(m, addr) == m,
{
    assert(erased(m, addr) =~= m);
}

/// After a token is stored and then erased, the address has no token.
pub proof fn lemma_store_then_erase(m: Map<Seq<char>, Seq<char>>, addr: Seq<char>, token: Seq<char>)
    ensures
        lookup(erased(stored(m, addr, token), addr), addr) == None::<Seq<char>>,
{
}

/// Erasing an address a second time changes nothing more, and leaves it
/// without a token as the first erase did.
pub proof fn lemma_erase_idempotent(m: Map<Seq<char>, Seq<char>>, addr: Seq<char>)
    ensures
        erased(erased(m, addr), addr) == erased(m, addr),
        lookup(erased(erased(m, addr), addr), addr) == None::<Seq<char>>,
{
    assert(erased(erased(m, addr), addr) =~= erased(m, addr));
}

/// Tokens stored for two distinct addresses are both kept, where no other
/// connection writes in between.
pub proof fn lemma_distinct_addresses(
    m: Map<Seq<char>, Seq<char>>,
    a1: Seq<char>,
    t1: Seq<char>,
    a2: Seq<char>,
    t2: Seq<char>,
)
    requires
        a1 != a2,
    ensures
        lookup(stored(stored(m, a1, t1), a2, t2), a1) == Some(t1),
        lookup(stored(stored(m, a1, t1), a2, t2), a2) == Some(t2),
{
}

/// The name under which the schema of the token table is recorded.
pub open spec fn migration_name() -> Seq<char> {
    "V1__create_vault_tokens"@
}

/// The script that creates the token table: one row per address, which is
/// unique, with its token and the time it was last stored.
pub open spec fn schema_script() -> Seq<char> {
    "CREATE TABLE vault_tokens (
    vault_addr TEXT NOT NULL UNIQUE,
    token TEXT NOT NULL,
    created_at TIMESTAMP NOT NULL DEFAULT CURRENT_TIMESTAMP
);"@
}

/// The migration that a database must have run before a store is made over
/// it: its name and its script.
pub fn schema_migration() -> (r: (String, String))
    ensures
        r.0@ == migration_name(),
        r.1@ == schema_script(),
{
    (
        String::from_str("V1__create_vault_tokens"),
        String::from_str(
            "CREATE TABLE vault_tokens (
    vault_addr TEXT NOT NULL UNIQUE,
    token TEXT NOT NULL,
    created_at TIMESTAMP NOT NULL DEFAULT CURRENT_TIMESTAMP
);",
        ),
    )
}

/// Relies on `rusqlite::Connection::query_row` with
/// `OptionalExtension::optional`: selects the token of the row whose address is
/// `addr`; no row gives `None`.
#[verifier::external_body]
fn select_token(conn: &mut rusqlite::Connection, addr: &str) -> (r: Result<
    Option<String>,
    SqlError,
>)
    ensures
        r is Ok ==> opt_view(r->Ok_0) == lookup(tokens_of(*final(conn)), addr@),
{
    conn.query_row(
        "SELECT token FROM vault_tokens WHERE vault_addr = ?",
        [addr],
        |row| row.get("token"),
    ).optional()
}

/// Relies on `rusqlite::Connection::execute` with an insert whose conflict on
/// the unique address updates the row in the same statement.
#[verifier::external_body]
fn upsert_token(conn: &mut rusqlite::Connection, addr: &str, token: &str) -> (r: Result<
    usize,
    SqlError,
>)
    ensures
        r is Ok ==> lookup(tokens_of(*final(conn)), addr@) == Some(token@),
{
    conn.execute(
        "INSERT INTO vault_tokens (vault_addr, token) VALUES (?, ?)
        ON CONFLICT(vault_addr) DO UPDATE SET token = ?, created_at = CURRENT_TIMESTAMP",
        [addr, token, token],
    )
}

/// Relies on `rusqlite::Connection::execute` with a delete of the row whose
/// address is `addr`.
#[verifier::external_body]
fn delete_token(conn: &mut rusqlite::Connection, addr: &str) -> (r: Result<
    usize,
    SqlError,
>)
    ensures
        r is Ok ==> lookup(tokens_of(*final(conn)), addr@) == None::<Seq<char>>,
{
    conn.execute("DELETE FROM vault_tokens WHERE vault_addr = ?", [addr])
}

/// A failure of the database underneath the store.
#[derive(Debug)]
pub enum Error {
    /// The database engine failed.
    Rusqlite(SqlError),
    /// Bringing the schema up to date failed.
    Refinery(MigrationError),
}

/// An open database that holds the tokens.
#[derive(Debug)]
pub struct Store {
    conn: rusqlite::Connection,
}

impl View for Store {
    type V = Map<Seq<char>, Seq<char>>;

    closed spec fn view(&self) -> Self::V {
        tokens_of(self.conn)
    }
}

impl Store {
    /// A store over `conn`, whose database has already run the migration that
    /// `schema_migration` gives.
    pub fn with_conn(conn: rusqlite::Connection) -> (r: Store) {
        Store { conn }
    }

    /// The token stored for `addr`, or `None` where there is none.
    pub fn get(&mut self, addr: &str) -> (r: Result<Option<String>, Error>)
        ensures
            r is Ok ==> opt_view(r->Ok_0) == lookup(final(self)@, addr@),
            r is Err ==> r->Err_0 is Rusqlite,
    {
        match select_token(&mut self.conn, addr) {
            Ok(token) => Ok(token),
            Err(e) => Err(Error::Rusqlite(e)),
        }
    }

    /// Stores `token` for `addr`, replacing any token held for it.
    pub fn store(&mut self, addr: &str, token: &str) -> (r: Result<(), Error>)
        ensures
            r is Ok ==> lookup(final(self)@, addr@) == Some(token@),
            r is Err ==> r->Err_0 is Rusqlite,
    {
        match upsert_token(&mut self.conn, addr, token) {
            Ok(_) => Ok(()),
            Err(e) => Err(Error::Rusqlite(e)),
        }
    }

    /// Removes the token held for `addr`; nothing is done where there is none.
    pub fn erase(&mut self, addr: &str) -> (r: Result<(), Error>)
        ensures
            r is Ok ==> lookup(final(self)@, addr@) == None::<Seq<char>>,
            r is Err ==> r->Err_0 is Rusqlite,
    {
        match delete_token(&mut self.conn, addr) {
            Ok(_) => Ok(()),
            Err(e) => Err(Error::Rusqlite(e)),
        }
    }
}

} // verus!
