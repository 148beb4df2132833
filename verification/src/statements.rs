use vstd::prelude::*;
use vstd::string::StringExecFns;
use crate::stage::{stage_code, Stage};
use crate::text::chars_of;

verus! {

/// A statement for the database: its text, the texts bound to its
/// positional parameters, and the number of columns read from each row of
/// its result (none for a statement that returns no rows).
pub struct Statement {
    pub sql: String,
    pub params: Vec<String>,
    pub width: usize,
}

/// The texts of the parameters of a statement.
pub open spec fn param_texts(params: Seq<String>) -> Seq<Seq<char>> {
    params.map_values(|param: String| param@)
}

impl Statement {
    /// The statement has this text, these parameters and this width.
    pub open spec fn is(&self, sql: Seq<char>, params: Seq<Seq<char>>, width: nat) -> bool {
        self.sql@ == sql && param_texts(self.params@) == params && self.width == width
    }

    /// A statement without parameters.
    fn plain(sql: String, width: usize) -> (statement: Statement)
        ensures
            statement.is(sql@, Seq::empty(), width as nat),
    {
        let statement = Statement { sql, params: Vec::new(), width };
        assert(param_texts(statement.params@) =~= Seq::empty());
        statement
    }

    /// A statement with one parameter.
    fn with_one(sql: String, first: &str, width: usize) -> (statement: Statement)
        ensures
            statement.is(sql@, seq![first@], width as nat),
    {
        let mut params: Vec<String> = Vec::new();
        params.push(first.to_owned());
        let statement = Statement { sql, params, width };
        assert(param_texts(statement.params@) =~= seq![first@]);
        statement
    }

    /// A statement with two parameters.
    fn with_two(sql: String, first: &str, second: &str, width: usize) -> (statement: Statement)
        ensures
            statement.is(sql@, seq![first@, second@], width as nat),
    {
        let mut params: Vec<String> = Vec::new();
        params.push(first.to_owned());
        params.push(second.to_owned());
        let statement = Statement { sql, params, width };
        assert(param_texts(statement.params@) =~= seq![first@, second@]);
        statement
    }
}

/// Opens a transaction that holds the write lock from its start.
pub fn begin() -> (statement: Statement)
    ensures
        statement.is("BEGIN IMMEDIATE"@, Seq::empty(), 0),
{
    Statement::plain(String::from_str("BEGIN IMMEDIATE"), 0)
}

/// Makes the changes of the open transaction last.
pub fn commit() -> (statement: Statement)
    ensures
        statement.is("COMMIT"@, Seq::empty(), 0),
{
    Statement::plain(String::from_str("COMMIT"), 0)
}

/// Drops the changes of the open transaction.
pub fn rollback() -> (statement: Statement)
    ensures
        statement.is("ROLLBACK"@, Seq::empty(), 0),
{
    Statement::plain(String::from_str("ROLLBACK"), 0)
}

/// Creates the pointer table if the database has none. The table takes one
/// row for each file of each peer, and gives each row an id of its own.
pub fn create_pointer_table() -> (statement: Statement)
    ensures
        statement.is(
            "CREATE TABLE IF NOT EXISTS file_pointers (id INTEGER PRIMARY KEY, ip TEXT NOT NULL, fileName TEXT NOT NULL, dictionaryInPlace TEXT NOT NULL, encodedTextInPlace TEXT NOT NULL, UNIQUE (ip, fileName))"@,
            Seq::empty(),
            0,
        ),
{
    Statement::plain(
        String::from_str(
            "CREATE TABLE IF NOT EXISTS file_pointers (id INTEGER PRIMARY KEY, ip TEXT NOT NULL, fileName TEXT NOT NULL, dictionaryInPlace TEXT NOT NULL, encodedTextInPlace TEXT NOT NULL, UNIQUE (ip, fileName))",
        ),
        0,
    )
}

/// Reads the pointer table in the order of the ids: id, peer, file name and
/// the two flags of each row.
pub fn select_pointers() -> (statement: Statement)
    ensures
        statement.is(
            "SELECT CAST(id AS TEXT), ip, fileName, dictionaryInPlace, encodedTextInPlace FROM file_pointers ORDER BY id"@,
            Seq::empty(),
            5,
        ),
{
    Statement::plain(
        String::from_str(
            "SELECT CAST(id AS TEXT), ip, fileName, dictionaryInPlace, encodedTextInPlace FROM file_pointers ORDER BY id",
        ),
        5,
    )
}

/// Adds the row of a file that a peer has announced: nothing is stored yet.
pub fn insert_pointer(peer_ip: &str, file_name: &str) -> (statement: Statement)
    ensures
        statement.is(
            "INSERT INTO file_pointers (ip, fileName, dictionaryInPlace, encodedTextInPlace) VALUES (?1, ?2, 'FALSE', 'FALSE')"@,
            seq![peer_ip@, file_name@],
            0,
        ),
{
    Statement::with_two(
        String::from_str(
            "INSERT INTO file_pointers (ip, fileName, dictionaryInPlace, encodedTextInPlace) VALUES (?1, ?2, 'FALSE', 'FALSE')",
        ),
        peer_ip,
        file_name,
        0,
    )
}

/// Marks the dictionary of a file as stored.
pub fn set_dictionary_flag(peer_ip: &str, file_name: &str) -> (statement: Statement)
    ensures
        statement.is(
            "UPDATE file_pointers SET dictionaryInPlace = 'TRUE' WHERE ip = ?1 AND fileName = ?2"@,
            seq![peer_ip@, file_name@],
            0,
        ),
{
    Statement::with_two(
        String::from_str("UPDATE file_pointers SET dictionaryInPlace = 'TRUE' WHERE ip = ?1 AND fileName = ?2"),
        peer_ip,
        file_name,
        0,
    )
}

/// Marks the encoded text of a file as stored.
pub fn set_encoded_flag(peer_ip: &str, file_name: &str) -> (statement: Statement)
    ensures
        statement.is(
            "UPDATE file_pointers SET encodedTextInPlace = 'TRUE' WHERE ip = ?1 AND fileName = ?2"@,
            seq![peer_ip@, file_name@],
            0,
        ),
{
    Statement::with_two(
        String::from_str("UPDATE file_pointers SET encodedTextInPlace = 'TRUE' WHERE ip = ?1 AND fileName = ?2"),
        peer_ip,
        file_name,
        0,
    )
}

/// The character may stand in the name of a stage table: a letter or a digit
/// of ASCII, or the underscore.
pub open spec fn name_char(c: char) -> bool {
    ||| 'a' <= c <= 'z'
    ||| 'A' <= c <= 'Z'
    ||| '0' <= c <= '9'
    ||| c == '_'
}

/// The network identifier may be part of a table name.
pub open spec fn valid_network(network_id: Seq<char>) -> bool {
    forall|i: int| 0 <= i < network_id.len() ==> name_char(#[trigger] network_id[i])
}

/// The name of the stage table of a network.
pub open spec fn stage_table(network_id: Seq<char>) -> Seq<char> {
    "connections"@ + network_id
}

/// Whether the character may stand in the name of a stage table.
fn is_name_char(c: char) -> (yes: bool)
    ensures
        yes == name_char(c),
{
    ('a' <= c && c <= 'z') || ('A' <= c && c <= 'Z') || ('0' <= c && c <= '9') || c == '_'
}

/// The name of the stage table of a network: `connections` and then the
/// network identifier. An identifier with any other character than letters
/// and digits of ASCII and the underscore has no table: a table name cannot
/// be bound as a parameter, so it must be safe to write into a statement.
pub fn stage_table_name(network_id: &str) -> (name: Option<String>)
    ensures
        match name {
            Some(text) => valid_network(network_id@) && text@ == stage_table(network_id@),
            None => !valid_network(network_id@),
        },
{
    let symbols = chars_of(network_id);
    let mut i: usize = 0;
    while i < symbols.len()
        invariant
            i <= symbols.len(),
            symbols@ == network_id@,
            forall|j: int| 0 <= j < i ==> name_char(#[trigger] symbols@[j]),
        decreases symbols.len() - i,
    {
        if !is_name_char(symbols[i]) {
            return None;
        }
        i += 1;
    }
    let mut name = String::from_str("connections");
    name.append(network_id);
    Some(name)
}

/// Creates a stage table if the database has none of this name: one row for
/// each peer.
pub fn create_stage_table(table: &str) -> (statement: Statement)
    ensures
        statement.is(
            "CREATE TABLE IF NOT EXISTS "@ + table@ + " (ip TEXT NOT NULL PRIMARY KEY, stage TEXT NOT NULL)"@,
            Seq::empty(),
            0,
        ),
{
    let mut sql = String::from_str("CREATE TABLE IF NOT EXISTS ");
    sql.append(table);
    sql.append(" (ip TEXT NOT NULL PRIMARY KEY, stage TEXT NOT NULL)");
    Statement::plain(sql, 0)
}

/// Reads the stage of a peer.
pub fn select_stage(table: &str, peer_ip: &str) -> (statement: Statement)
    ensures
        statement.is("SELECT stage FROM "@ + table@ + " WHERE ip = ?1"@, seq![peer_ip@], 1),
{
    let mut sql = String::from_str("SELECT stage FROM ");
    sql.append(table);
    sql.append(" WHERE ip = ?1");
    Statement::with_one(sql, peer_ip, 1)
}

/// Gives a peer its first row.
pub fn insert_stage(table: &str, peer_ip: &str, stage: Stage) -> (statement: Statement)
    ensures
        statement.is(
            "INSERT INTO "@ + table@ + " (ip, stage) VALUES (?1, ?2)"@,
            seq![peer_ip@, stage_code(stage)],
            0,
        ),
{
    let mut sql = String::from_str("INSERT INTO ");
    sql.append(table);
    sql.append(" (ip, stage) VALUES (?1, ?2)");
    Statement::with_two(sql, peer_ip, stage.code(), 0)
}

/// Changes the row of a peer.
pub fn update_stage(table: &str, peer_ip: &str, stage: Stage) -> (statement: Statement)
    ensures
        statement.is(
            "UPDATE "@ + table@ + " SET stage = ?2 WHERE ip = ?1"@,
            seq![peer_ip@, stage_code(stage)],
            0,
        ),
{
    let mut sql = String::from_str("UPDATE ");
    sql.append(table);
    sql.append(" SET stage = ?2 WHERE ip = ?1");
    Statement::with_two(sql, peer_ip, stage.code(), 0)
}

} // verus!
