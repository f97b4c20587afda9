//! The scenario store backed by an SQLite database, through rusqlite.
use vstd::prelude::*;
use crate::score::{
    is_nan_bits, order_key, persisted_score_bits, score_bits_from_sql, sql_of_key, sql_score, sql_score_spec,
    NEG_INFINITY_BITS,
};
use crate::generator::pick_parent_rank;
use crate::storage::Lineage;

verus! {

#[verifier::external_type_specification]
#[verifier::external_body]
pub struct ExConnection(rusqlite::Connection);

#[verifier::external_type_specification]
#[verifier::external_body]
pub struct ExSqlError(rusqlite::Error);

/// Relies on rusqlite::Connection::open: opens (or creates) the database file at `path`.
/// Whether it succeeds depends on the file system.
#[verifier::external_body]
fn open_connection(path: &str) -> (r: Result<rusqlite::Connection, rusqlite::Error>) {
    rusqlite::Connection::open(path)
}

/// Relies on rusqlite::Connection::open_in_memory: opens a fresh in-memory database.
#[verifier::external_body]
fn open_memory_connection() -> (r: Result<rusqlite::Connection, rusqlite::Error>) {
    rusqlite::Connection::open_in_memory()
}

/// A value bound to a statement placeholder.
#[derive(Clone, Debug, PartialEq)]
pub enum SqlParam {
    Integer(i64),
    Text(String),
    Null,
}

/// Relies on rusqlite::Connection::execute: runs one statement with `params` bound to its
/// placeholders in order, and returns the number of rows it changed.
#[verifier::external_body]
fn execute_sql(conn: &rusqlite::Connection, sql: &str, params: &Vec<SqlParam>) -> (r: Result<
    usize,
    rusqlite::Error,
>) {
    let values = params.iter().map(|p| match p {
        SqlParam::Integer(v) => rusqlite::types::Value::Integer(*v),
        SqlParam::Text(t) => rusqlite::types::Value::Text(t.clone()),
        SqlParam::Null => rusqlite::types::Value::Null,
    });
    conn.execute(sql, rusqlite::params_from_iter(values))
}

/// Relies on rusqlite::Connection::last_insert_rowid: the row id of the latest insert on
/// this connection.
#[verifier::external_body]
fn last_insert_rowid(conn: &rusqlite::Connection) -> (r: i64) {
    conn.last_insert_rowid()
}

/// The columns of a scenario row: id, family, parent, generation, world, score.
pub type ScenarioColumns = (i64, i64, Option<i64>, i64, String, i64);

/// Relies on rusqlite::Connection::query_row and OptionalExtension::optional: runs a
/// query with one integer parameter and reads the six scenario columns of its first
/// row; `None` when it returns no row.
#[verifier::external_body]
fn query_scenario(conn: &rusqlite::Connection, sql: &str, param: i64) -> (r: Result<
    Option<ScenarioColumns>,
    rusqlite::Error,
>) {
    rusqlite::OptionalExtension::optional(conn.query_row(sql, [param], |row| {
        Ok((row.get(0)?, row.get(1)?, row.get(2)?, row.get(3)?, row.get(4)?, row.get(5)?))
    }))
}

/// Relies on rusqlite::Connection::query_row: runs a query and reads the first column of
/// its first row as an integer.
#[verifier::external_body]
fn query_integer(conn: &rusqlite::Connection, sql: &str) -> (r: Result<i64, rusqlite::Error>) {
    conn.query_row(sql, [], |row| row.get::<usize, i64>(0))
}

/// Why an operation of the SQLite store failed.
#[derive(Debug)]
pub enum SqliteError {
    /// The database reported an error.
    Sql(rusqlite::Error),
    /// A count or identity read back from the database was negative.
    OutOfRange(i64),
    /// A count is too large for an SQLite integer.
    TooLarge(u64),
    /// A statement that changes one row changed this many.
    UnexpectedChanges(usize),
}

/// The statement that creates the scenario table. Scores are stored as the integers of
/// `score::sql_score`, which order as the scores do.
pub const CREATE_SCENARIO_TABLE: &'static str = "CREATE TABLE IF NOT EXISTS scenario (
    id INTEGER PRIMARY KEY,
    family INTEGER NOT NULL,
    parent INTEGER,
    generation INTEGER NOT NULL,
    world TEXT NOT NULL,
    score INTEGER NOT NULL
)";

/// The query that counts the scenarios.
pub const COUNT_SCENARIOS: &'static str = "SELECT COUNT(*) FROM scenario";

/// The statement that inserts a scenario.
pub const INSERT_SCENARIO: &'static str = "INSERT INTO scenario (family, parent, generation, world, score)
    VALUES (?1, ?2, ?3, ?4, ?5)";

/// The statement that makes a scenario the root of its own family.
pub const SET_OWN_FAMILY: &'static str = "UPDATE scenario SET family = ?1 WHERE id = ?1";

/// The query for the scenario at rank `?1`, by score descending, then identity ascending.
pub const NTH_BY_SCORE: &'static str = "SELECT id, family, parent, generation, world, score
    FROM scenario
    ORDER BY score DESC,
             id ASC
    LIMIT 1
    OFFSET ?1";

/// The statement that deletes every scenario outside the top `?1` by score descending,
/// then identity ascending.
pub const PRUNE_SCENARIOS: &'static str = "DELETE
    FROM scenario
    WHERE id NOT IN (
        SELECT id
        FROM scenario
        ORDER BY score DESC,
                 id ASC
        LIMIT ?1
    )";

/// Opens a transaction.
pub const BEGIN: &'static str = "BEGIN";

/// Commits the open transaction.
pub const COMMIT: &'static str = "COMMIT";

/// Undoes the open transaction.
pub const ROLLBACK: &'static str = "ROLLBACK";

/// Reads a count that the database returned: a negative one is refused.
pub fn count_from_sql(value: i64) -> (r: Result<u64, SqliteError>)
    ensures
        value >= 0 <==> r is Ok,
        r matches Ok(n) ==> n == value,
        r matches Err(e) ==> e matches SqliteError::OutOfRange(v) && v == value,
{
    if value >= 0 {
        Ok(value as u64)
    } else {
        Err(SqliteError::OutOfRange(value))
    }
}

/// Writes a count as an SQLite integer: one above `i64::MAX` is refused.
pub fn count_to_sql(value: u64) -> (r: Result<i64, SqliteError>)
    ensures
        value <= i64::MAX <==> r is Ok,
        r matches Ok(n) ==> n == value,
        r matches Err(e) ==> e matches SqliteError::TooLarge(v) && v == value,
{
    if value <= i64::MAX as u64 {
        Ok(value as i64)
    } else {
        Err(SqliteError::TooLarge(value))
    }
}

/// A scenario read from the database: lineage, serialized world and score bit pattern.
#[derive(Clone, Debug, PartialEq)]
pub struct StoredRow {
    pub lineage: Lineage,
    pub world: String,
    pub score_bits: u64,
}

/// Decodes the columns of a scenario row. Identities are read as the unsigned numbers
/// of their bits; a negative generation is refused.
pub fn row_from_columns(columns: ScenarioColumns) -> (r: Result<StoredRow, SqliteError>)
    ensures
        columns.3 >= 0 <==> r is Ok,
        r matches Err(e) ==> (e matches SqliteError::OutOfRange(v) && v == columns.3),
        r matches Ok(row) ==> {
            &&& row.lineage.id == columns.0 as u64
            &&& row.lineage.family == columns.1 as u64
            &&& row.lineage.parent == match columns.2 {
                Some(p) => Some(p as u64),
                None => None::<u64>,
            }
            &&& row.lineage.generation == columns.3
            &&& row.world@ == columns.4@
            &&& sql_of_key(order_key(row.score_bits)) == columns.5
        },
{
    let (id, family, parent, generation, world, score) = columns;
    let generation = match count_from_sql(generation) {
        Ok(g) => g,
        Err(e) => {
            return Err(e);
        },
    };
    let parent = match parent {
        Some(p) => Some(p as u64),
        None => None,
    };
    Ok(StoredRow {
        lineage: Lineage { id: id as u64, family: family as u64, parent, generation },
        world,
        score_bits: score_bits_from_sql(score),
    })
}

/// The score that is stored for a run whose accumulated score has bit pattern `bits`:
/// a NaN becomes negative infinity.
pub open spec fn stored_sql_score(bits: u64) -> i64 {
    sql_score_spec(if is_nan_bits(bits) { NEG_INFINITY_BITS } else { bits })
}

/// The values inserted for a new root scenario: a placeholder family (set to its own
/// identity in the same transaction), no parent, generation zero, the world and score.
pub fn root_insert_params(world: String, score_bits: u64) -> (r: Vec<SqlParam>)
    ensures
        r@ == seq![
            SqlParam::Integer(-1i64),
            SqlParam::Null,
            SqlParam::Integer(0i64),
            SqlParam::Text(world),
            SqlParam::Integer(stored_sql_score(score_bits)),
        ],
{
    let mut params: Vec<SqlParam> = Vec::new();
    params.push(SqlParam::Integer(-1));
    params.push(SqlParam::Null);
    params.push(SqlParam::Integer(0));
    params.push(SqlParam::Text(world));
    params.push(SqlParam::Integer(sql_score(persisted_score_bits(score_bits))));
    assert(params@ =~= seq![
        SqlParam::Integer(-1i64),
        SqlParam::Null,
        SqlParam::Integer(0i64),
        SqlParam::Text(world),
        SqlParam::Integer(stored_sql_score(score_bits)),
    ]);
    params
}

/// The values inserted for a scenario bred from `parent`: its family, its identity as
/// parent, the next generation, the world and score. Identities are stored by their
/// bits; a generation that SQLite cannot count is refused.
pub fn child_insert_params(world: String, score_bits: u64, parent: &Lineage) -> (r: Result<
    Vec<SqlParam>,
    SqliteError,
>)
    ensures
        parent.generation < i64::MAX <==> r is Ok,
        r matches Err(e) ==> e matches SqliteError::TooLarge(v) && v == parent.generation,
        r matches Ok(params) ==> params@ == seq![
            SqlParam::Integer(parent.family as i64),
            SqlParam::Integer(parent.id as i64),
            SqlParam::Integer((parent.generation + 1) as i64),
            SqlParam::Text(world),
            SqlParam::Integer(stored_sql_score(score_bits)),
        ],
{
    let generation = match count_to_sql(parent.generation) {
        Ok(g) => g,
        Err(e) => {
            return Err(e);
        },
    };
    if generation == i64::MAX {
        return Err(SqliteError::TooLarge(parent.generation));
    }
    let mut params: Vec<SqlParam> = Vec::new();
    params.push(SqlParam::Integer(parent.family as i64));
    params.push(SqlParam::Integer(parent.id as i64));
    params.push(SqlParam::Integer(generation + 1));
    params.push(SqlParam::Text(world));
    params.push(SqlParam::Integer(sql_score(persisted_score_bits(score_bits))));
    assert(params@ =~= seq![
        SqlParam::Integer(parent.family as i64),
        SqlParam::Integer(parent.id as i64),
        SqlParam::Integer((parent.generation + 1) as i64),
        SqlParam::Text(world),
        SqlParam::Integer(stored_sql_score(score_bits)),
    ]);
    Ok(params)
}

/// Whether `e` is a failure that came from the database: its own error, a statement
/// that did not change exactly one row, or a negative identity or count read back.
pub open spec fn reported_failure(e: SqliteError) -> bool {
    match e {
        SqliteError::Sql(_) => true,
        SqliteError::UnexpectedChanges(n) => n != 1,
        SqliteError::OutOfRange(v) => v < 0,
        SqliteError::TooLarge(_) => false,
    }
}

/// What a statement that must change exactly one row makes of the number it changed.
pub fn one_row_changed(changes: usize) -> (r: Result<(), SqliteError>)
    ensures
        changes == 1 <==> r is Ok,
        r matches Err(e) ==> (e matches SqliteError::UnexpectedChanges(n) && n == changes),
{
    if changes == 1 {
        Ok(())
    } else {
        Err(SqliteError::UnexpectedChanges(changes))
    }
}

/// The scenario to breed from, given what the store answered for its rank: none when
/// it has no such row or could not be read, which means a new world is made.
pub fn parent_or_new(found: Result<Option<StoredRow>, SqliteError>) -> (r: Option<StoredRow>)
    ensures
        found matches Ok(Some(row)) ==> r == Some(row),
        !(found matches Ok(Some(_))) ==> r is None,
{
    match found {
        Ok(Some(row)) => Some(row),
        _ => None,
    }
}

/// A scenario store in an SQLite database.
pub struct SqliteStorage {
    conn: rusqlite::Connection,
}

impl SqliteStorage {
    /// Opens the database file at `path`, creating the scenario table if needed.
    pub fn open(path: &str) -> (r: Result<SqliteStorage, SqliteError>) {
        match open_connection(path) {
            Ok(conn) => SqliteStorage::from_conn(conn),
            Err(e) => Err(SqliteError::Sql(e)),
        }
    }

    /// Opens a fresh in-memory database with the scenario table.
    pub fn open_in_memory() -> (r: Result<SqliteStorage, SqliteError>) {
        match open_memory_connection() {
            Ok(conn) => SqliteStorage::from_conn(conn),
            Err(e) => Err(SqliteError::Sql(e)),
        }
    }

    /// Creates the scenario table on `conn` if it is not there.
    pub fn from_conn(conn: rusqlite::Connection) -> (r: Result<SqliteStorage, SqliteError>) {
        let no_params: Vec<SqlParam> = Vec::new();
        match execute_sql(&conn, CREATE_SCENARIO_TABLE, &no_params) {
            Ok(_) => Ok(SqliteStorage { conn }),
            Err(e) => Err(SqliteError::Sql(e)),
        }
    }

    /// The connection, for queries of its own.
    pub fn connection(&self) -> &rusqlite::Connection {
        &self.conn
    }

    /// Runs a statement that must change exactly one row.
    fn execute_one(&self, sql: &str, params: &Vec<SqlParam>) -> (r: Result<(), SqliteError>)
        ensures
            r matches Err(e) ==> e is Sql || (e matches SqliteError::UnexpectedChanges(n) && n
                != 1),
    {
        match execute_sql(&self.conn, sql, params) {
            Ok(n) => one_row_changed(n),
            Err(e) => Err(SqliteError::Sql(e)),
        }
    }

    /// Undoes the open transaction after `err`, and returns `err`.
    fn roll_back(&self, err: SqliteError) -> (r: SqliteError)
        ensures
            r == err,
    {
        let no_params: Vec<SqlParam> = Vec::new();
        let _ = execute_sql(&self.conn, ROLLBACK, &no_params);
        err
    }

    /// Stores a new root scenario, in one transaction: the row is inserted, then made the
    /// root of its own family. A NaN score is stored as negative infinity.
    pub fn add_root_scenario(&mut self, world: String, score_bits: u64) -> (r: Result<
        Lineage,
        SqliteError,
    >)
        ensures
            r matches Ok(l) ==> l == Lineage::root_spec(l.id),
            r matches Err(e) ==> reported_failure(e),
    {
        let no_params: Vec<SqlParam> = Vec::new();
        match execute_sql(&self.conn, BEGIN, &no_params) {
            Ok(_) => {},
            Err(e) => {
                return Err(SqliteError::Sql(e));
            },
        }
        let params = root_insert_params(world, score_bits);
        match self.execute_one(INSERT_SCENARIO, &params) {
            Ok(()) => {},
            Err(e) => {
                return Err(self.roll_back(e));
            },
        }
        let id = last_insert_rowid(&self.conn);
        let mut family: Vec<SqlParam> = Vec::new();
        family.push(SqlParam::Integer(id));
        match self.execute_one(SET_OWN_FAMILY, &family) {
            Ok(()) => {},
            Err(e) => {
                return Err(self.roll_back(e));
            },
        }
        match execute_sql(&self.conn, COMMIT, &no_params) {
            Ok(_) => {},
            Err(e) => {
                return Err(self.roll_back(SqliteError::Sql(e)));
            },
        }
        match count_from_sql(id) {
            Ok(id) => Ok(Lineage::root(id)),
            Err(e) => Err(e),
        }
    }

    /// Stores a new scenario bred from `parent`, in its family, one generation below it.
    /// A NaN score is stored as negative infinity; a generation too large for SQLite is
    /// refused before the database is touched.
    pub fn add_child_scenario(&mut self, world: String, score_bits: u64, parent: &Lineage) -> (r:
        Result<Lineage, SqliteError>)
        ensures
            r matches Ok(l) ==> l == Lineage::child_spec(*parent, l.id),
            (r matches Err(SqliteError::TooLarge(v)) && v == parent.generation) <==> parent.generation
                >= i64::MAX,
            r matches Err(e) ==> reported_failure(e) || (e matches SqliteError::TooLarge(v) && v
                == parent.generation),
    {
        let params = match child_insert_params(world, score_bits, parent) {
            Ok(p) => p,
            Err(e) => {
                return Err(e);
            },
        };
        match self.execute_one(INSERT_SCENARIO, &params) {
            Ok(()) => {},
            Err(e) => {
                return Err(e);
            },
        }
        let id = last_insert_rowid(&self.conn);
        match count_from_sql(id) {
            Ok(id) => Ok(Lineage::child(parent, id)),
            Err(e) => Err(e),
        }
    }

    /// Number of stored scenarios.
    pub fn num_scenarios(&mut self) -> (r: Result<u64, SqliteError>)
        ensures
            r matches Err(e) ==> e is Sql || (e matches SqliteError::OutOfRange(v) && v < 0),
    {
        match query_integer(&self.conn, COUNT_SCENARIOS) {
            Ok(v) => count_from_sql(v),
            Err(e) => Err(SqliteError::Sql(e)),
        }
    }

    /// The scenario at rank `index` (0 is the best score; ties go to the smaller
    /// identity), if there are that many. A rank above `i64::MAX` has no scenario.
    pub fn get_nth_scenario_by_score(&mut self, index: u64) -> (r: Result<
        Option<StoredRow>,
        SqliteError,
    >)
        ensures
            index > i64::MAX ==> r matches Ok(None),
            r matches Err(e) ==> e is Sql || (e matches SqliteError::OutOfRange(v) && v < 0),
    {
        let offset = match count_to_sql(index) {
            Ok(o) => o,
            Err(_) => {
                return Ok(None);
            },
        };
        match query_scenario(&self.conn, NTH_BY_SCORE, offset) {
            Ok(Some(columns)) => match row_from_columns(columns) {
                Ok(row) => Ok(Some(row)),
                Err(e) => Err(e),
            },
            Ok(None) => Ok(None),
            Err(e) => Err(SqliteError::Sql(e)),
        }
    }

    /// Deletes every scenario outside the top `number_to_keep`; returns how many went.
    /// A count above `i64::MAX` is refused before the database is touched.
    pub fn keep_top_scenarios_by_score(&mut self, number_to_keep: u64) -> (r: Result<
        u64,
        SqliteError,
    >)
        ensures
            number_to_keep > i64::MAX ==> (r matches Err(SqliteError::TooLarge(v)) && v
                == number_to_keep),
            r matches Err(SqliteError::TooLarge(v)) ==> v == number_to_keep && number_to_keep
                > i64::MAX,
            r matches Err(e) ==> e is Sql || e is TooLarge,
    {
        let limit = match count_to_sql(number_to_keep) {
            Ok(l) => l,
            Err(e) => {
                return Err(e);
            },
        };
        let mut params: Vec<SqlParam> = Vec::new();
        params.push(SqlParam::Integer(limit));
        match execute_sql(&self.conn, PRUNE_SCENARIOS, &params) {
            Ok(n) => Ok(n as u64),
            Err(e) => Err(SqliteError::Sql(e)),
        }
    }

    /// The scenario to breed from: with `num_scenarios` stored and `sampled_index`
    /// drawn, none when the index is past the end (a new world is made) or the row
    /// cannot be read; otherwise the row at that rank, if the store has it.
    pub fn pick_parent(&mut self, num_scenarios: u64, sampled_index: u64) -> (r: Option<StoredRow>)
        ensures
            sampled_index >= num_scenarios ==> r is None,
    {
        match pick_parent_rank(num_scenarios, sampled_index) {
            Some(rank) => parent_or_new(self.get_nth_scenario_by_score(rank)),
            None => None,
        }
    }

    /// Stores a finished run: as a child of `parent` when it was bred from one, else as a
    /// new root. A NaN score is stored as negative infinity.
    pub fn record_run(&mut self, world: String, score_bits: u64, parent: Option<Lineage>) -> (r:
        Result<Lineage, SqliteError>)
        ensures
            r matches Ok(l) ==> match parent {
                None => l == Lineage::root_spec(l.id),
                Some(p) => l == Lineage::child_spec(p, l.id),
            },
            r matches Err(e) ==> reported_failure(e) || (e is TooLarge && parent is Some
                && e->TooLarge_0 == parent->Some_0.generation && parent->Some_0.generation
                >= i64::MAX),
    {
        match parent {
            Some(p) => self.add_child_scenario(world, score_bits, &p),
            None => self.add_root_scenario(world, score_bits),
        }
    }
}

} // verus!
