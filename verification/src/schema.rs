//! The schema that ships with the application: one migration, which creates
//! the table of quizzes; and the ledger as a store that speaks SQL keeps it.

use crate::migration::{views, Direction, Migration, MigrationView};
use vstd::prelude::*;

verus! {

/// Creates the ledger unless it is there: one row for each version applied,
/// the version in it once only, with its description and the time of the
/// entry, which the store fills in.
pub const CREATE_LEDGER: &'static str =
    "CREATE TABLE IF NOT EXISTS schema_ledger (\n    version     INTEGER NOT NULL UNIQUE,\n    description TEXT NOT NULL,\n    applied_at  TEXT NOT NULL DEFAULT CURRENT_TIMESTAMP\n)";

/// Reads the versions in the ledger, oldest entry first.
pub const READ_LEDGER: &'static str = "SELECT version FROM schema_ledger ORDER BY rowid";

/// Enters a version and its description in the ledger.
pub const RECORD_VERSION: &'static str =
    "INSERT INTO schema_ledger (version, description) VALUES (?1, ?2)";

/// The description of the first migration.
pub const QUIZ_TABLES_DESCRIPTION: &'static str = "create relational quiz tables";

/// The statement of the first migration: the table `quizzes`, with an
/// automatic integer key, a title and the questions as required text, an
/// optional success percentage, and the time of insertion.
pub const CREATE_QUIZ_TABLES: &'static str =
    "\nCREATE TABLE quizzes (\n    id                  INTEGER PRIMARY KEY AUTOINCREMENT,\n    title               TEXT NOT NULL,\n    questions_json      TEXT NOT NULL,\n    success_percentage  REAL,\n    created_at          TEXT NOT NULL DEFAULT CURRENT_TIMESTAMP\n);\n\n";

/// The migrations of the application: version 1 creates the quiz tables.
pub open spec fn quiz_schema() -> Seq<MigrationView> {
    seq![
        MigrationView {
            version: 1,
            description: QUIZ_TABLES_DESCRIPTION@,
            statement_batch: seq![CREATE_QUIZ_TABLES@],
            direction: Direction::Up,
        },
    ]
}

/// The migrations of the application.
pub fn quiz_migrations() -> (migrations: Vec<Migration>)
    ensures
        views(migrations@) == quiz_schema(),
{
    let mut statement_batch: Vec<String> = Vec::new();
    statement_batch.push(CREATE_QUIZ_TABLES.to_owned());
    let mut migrations: Vec<Migration> = Vec::new();
    migrations.push(
        Migration {
            version: 1,
            description: QUIZ_TABLES_DESCRIPTION.to_owned(),
            statement_batch,
            direction: Direction::Up,
        },
    );
    assert(migrations@[0]@.statement_batch =~= seq![CREATE_QUIZ_TABLES@]);
    migrations
}

} // verus!
