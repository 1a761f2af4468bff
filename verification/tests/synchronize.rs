use migration_engine::engine::{Action, Event, Synchronizer};
use migration_engine::error::MigrationError;
use migration_engine::migration::{Direction, Migration, MigrationList};
use migration_engine::revert::may_revert;
use migration_engine::schema::{quiz_migrations, CREATE_QUIZ_TABLES, QUIZ_TABLES_DESCRIPTION};
use migration_engine::store::{LedgerEntry, MemoryStore};
use migration_engine::synchronize::{synchronize, synchronize_list};

fn up(version: i64, statements: &[&str]) -> Migration {
    Migration {
        version,
        description: format!("step {}", version),
        statement_batch: statements.iter().map(|s| s.to_string()).collect(),
        direction: Direction::Up,
    }
}

fn down(version: i64, statements: &[&str]) -> Migration {
    Migration { direction: Direction::Down, ..up(version, statements) }
}

fn three() -> Vec<Migration> {
    vec![up(1, &["A1", "A2"]), up(2, &["B1", "B2", "B3"]), up(3, &["C1"])]
}

fn place() -> String {
    "sqlite:memory.db".to_string()
}

fn entry(version: i64) -> LedgerEntry {
    LedgerEntry { version, description: format!("step {}", version) }
}

fn texts(statements: &[&str]) -> Vec<String> {
    statements.iter().map(|s| s.to_string()).collect()
}

#[test]
fn fresh_store_gets_every_migration() {
    let mut store = MemoryStore::new();
    assert!(!store.has_ledger());
    let outcome = synchronize(three(), place(), &mut store);
    assert_eq!(outcome, Ok(3));
    assert!(store.has_ledger());
    assert!(!store.in_transaction());
    assert_eq!(store.ledger(), &vec![entry(1), entry(2), entry(3)]);
    assert_eq!(store.ledger_versions(), vec![1, 2, 3]);
    assert_eq!(store.schema(), &texts(&["A1", "A2", "B1", "B2", "B3", "C1"]));
}

#[test]
fn second_run_changes_nothing() {
    let mut once = MemoryStore::new();
    assert_eq!(synchronize(three(), place(), &mut once), Ok(3));
    let mut twice = MemoryStore::new();
    assert_eq!(synchronize(three(), place(), &mut twice), Ok(3));
    assert_eq!(synchronize(three(), place(), &mut twice), Ok(0));
    assert_eq!(twice.ledger(), once.ledger());
    assert_eq!(twice.schema(), once.schema());
    assert_eq!(twice.ledger_versions(), vec![1, 2, 3]);
}

#[test]
fn second_run_after_a_failure_fails_alike() {
    let mut store = MemoryStore::refusing(texts(&["B2"]));
    let failure = MigrationError::MigrationExecutionError {
        version: 2,
        cause: "the statement is refused".to_string(),
    };
    assert_eq!(synchronize(three(), place(), &mut store), Err(failure));
    assert_eq!(store.ledger(), &vec![entry(1)]);
    assert_eq!(store.schema(), &texts(&["A1", "A2"]));
    let failure = MigrationError::MigrationExecutionError {
        version: 2,
        cause: "the statement is refused".to_string(),
    };
    assert_eq!(synchronize(three(), place(), &mut store), Err(failure));
    assert_eq!(store.ledger(), &vec![entry(1)]);
    assert_eq!(store.schema(), &texts(&["A1", "A2"]));
}

#[test]
fn extended_list_applies_only_what_is_new() {
    let mut store = MemoryStore::new();
    assert_eq!(synchronize(vec![up(1, &["A"]), up(2, &["B"])], place(), &mut store), Ok(2));
    let longer = vec![up(1, &["A"]), up(2, &["B"]), up(3, &["C"]), up(4, &["D"])];
    assert_eq!(synchronize(longer, place(), &mut store), Ok(2));
    assert_eq!(store.ledger_versions(), vec![1, 2, 3, 4]);
    assert_eq!(store.schema(), &texts(&["A", "B", "C", "D"]));
}

#[test]
fn interrupted_run_is_completed_by_the_next() {
    let mut store = MemoryStore::new();
    let (mut machine, mut action) = Synchronizer::start(three(), place());
    let mut commits = 0;
    let mut executed = 0;
    loop {
        let event = store.perform(&action);
        if action == Action::Commit {
            commits += 1;
        }
        if let Action::Execute { .. } = action {
            executed += 1;
        }
        let (next, then) = machine.step(event);
        machine = next;
        action = then;
        if commits == 1 && executed == 4 {
            break;
        }
    }
    assert_eq!(action, Action::Execute { statement: "B3".to_string() });
    assert!(store.in_transaction());
    store.interrupt();
    assert!(!store.in_transaction());
    assert_eq!(store.ledger(), &vec![entry(1)]);
    assert_eq!(store.schema(), &texts(&["A1", "A2"]));

    assert_eq!(synchronize(three(), place(), &mut store), Ok(2));
    assert_eq!(store.ledger(), &vec![entry(1), entry(2), entry(3)]);
    assert_eq!(store.schema(), &texts(&["A1", "A2", "B1", "B2", "B3", "C1"]));

    let mut whole = MemoryStore::new();
    assert_eq!(synchronize(three(), place(), &mut whole), Ok(3));
    assert_eq!(whole.ledger(), store.ledger());
    assert_eq!(whole.schema(), store.schema());
}

#[test]
fn batch_that_fails_partway_leaves_no_trace() {
    let mut store = MemoryStore::refusing(texts(&["second"]));
    let outcome = synchronize(vec![up(1, &["first", "second", "third"])], place(), &mut store);
    assert_eq!(
        outcome,
        Err(MigrationError::MigrationExecutionError {
            version: 1,
            cause: "the statement is refused".to_string(),
        })
    );
    assert!(store.has_ledger());
    assert!(!store.in_transaction());
    assert!(store.ledger().is_empty());
    assert!(store.ledger_versions().is_empty());
    assert!(store.schema().is_empty());
}

#[test]
fn failure_stops_the_run_before_later_migrations() {
    let mut store = MemoryStore::refusing(texts(&["A2"]));
    let outcome = synchronize(three(), place(), &mut store);
    assert_eq!(
        outcome,
        Err(MigrationError::MigrationExecutionError {
            version: 1,
            cause: "the statement is refused".to_string(),
        })
    );
    assert!(store.ledger().is_empty());
    assert!(store.schema().is_empty());
}

#[test]
fn empty_list_creates_the_ledger_and_applies_nothing() {
    let mut store = MemoryStore::new();
    assert!(!store.has_ledger());
    assert_eq!(synchronize(Vec::new(), place(), &mut store), Ok(0));
    assert!(store.has_ledger());
    assert!(store.ledger().is_empty());
    assert!(store.schema().is_empty());
    assert_eq!(synchronize(Vec::new(), place(), &mut store), Ok(0));
    assert!(store.has_ledger());
}

#[test]
fn duplicate_version_fails_and_leaves_the_store_untouched() {
    let mut store = MemoryStore::new();
    let given = vec![up(1, &["A"]), up(2, &["B"]), up(1, &["C"])];
    assert_eq!(
        synchronize(given, place(), &mut store),
        Err(MigrationError::ConfigurationError { version: 1 })
    );
    assert!(!store.has_ledger());
    assert!(!store.in_transaction());
    assert!(store.ledger().is_empty());
    assert!(store.schema().is_empty());
}

#[test]
fn quiz_schema_is_applied_from_an_empty_store() {
    let mut store = MemoryStore::new();
    let outcome = synchronize(quiz_migrations(), "sqlite:jsonquizzy.db".to_string(), &mut store);
    assert_eq!(outcome, Ok(1));
    assert_eq!(
        store.ledger(),
        &vec![LedgerEntry {
            version: 1,
            description: "create relational quiz tables".to_string()
        }]
    );
    assert_eq!(store.schema(), &vec![CREATE_QUIZ_TABLES.to_string()]);
}

#[test]
fn quiz_schema_is_version_one_with_one_statement() {
    let migrations = quiz_migrations();
    assert_eq!(migrations.len(), 1);
    assert_eq!(migrations[0].version, 1);
    assert_eq!(migrations[0].description, "create relational quiz tables");
    assert_eq!(migrations[0].description, QUIZ_TABLES_DESCRIPTION);
    assert_eq!(migrations[0].direction, Direction::Up);
    assert_eq!(migrations[0].statement_batch.len(), 1);
    let statement = &migrations[0].statement_batch[0];
    assert!(statement.starts_with("\nCREATE TABLE quizzes (\n"));
    assert!(statement.contains("id                  INTEGER PRIMARY KEY AUTOINCREMENT,"));
    assert!(statement.contains("title               TEXT NOT NULL,"));
    assert!(statement.contains("questions_json      TEXT NOT NULL,"));
    assert!(statement.contains("success_percentage  REAL,"));
    assert!(statement.contains("created_at          TEXT NOT NULL DEFAULT CURRENT_TIMESTAMP"));
    assert!(statement.ends_with(");\n\n"));
}

#[test]
fn unordered_list_is_applied_in_order() {
    let mut store = MemoryStore::new();
    let given = vec![up(30, &["C"]), up(10, &["A"]), up(20, &["B"])];
    assert_eq!(synchronize(given, place(), &mut store), Ok(3));
    assert_eq!(store.ledger_versions(), vec![10, 20, 30]);
    assert_eq!(store.schema(), &texts(&["A", "B", "C"]));
}

#[test]
fn down_migrations_take_no_part_in_a_run() {
    let mut store = MemoryStore::new();
    let given = vec![up(1, &["A"]), down(2, &["undo"]), up(3, &["C"])];
    assert_eq!(synchronize(given, place(), &mut store), Ok(2));
    assert_eq!(store.ledger_versions(), vec![1, 3]);
    assert_eq!(store.schema(), &texts(&["A", "C"]));
}

#[test]
fn validated_list_synchronizes_like_the_raw_one() {
    let list = MigrationList::new(three()).unwrap();
    let mut store = MemoryStore::new();
    assert_eq!(synchronize_list(list, place(), &mut store), Ok(3));
    assert_eq!(store.ledger_versions(), vec![1, 2, 3]);
}

#[test]
fn memory_store_keeps_its_transactions() {
    let mut store = MemoryStore::refusing(texts(&["bad"]));
    assert_eq!(store.perform(&Action::Open { locator: place() }), Event::Done);
    assert_eq!(store.perform(&Action::ReadLedger), Event::Versions(vec![]));
    assert_eq!(store.perform(&Action::EnsureLedger), Event::Done);
    assert!(store.has_ledger());
    assert_eq!(
        store.perform(&Action::Commit),
        Event::Failed("no transaction is open".to_string())
    );
    assert_eq!(
        store.perform(&Action::Rollback),
        Event::Failed("no transaction is open".to_string())
    );
    assert_eq!(store.perform(&Action::Begin), Event::Done);
    assert_eq!(
        store.perform(&Action::Begin),
        Event::Failed("a transaction is already open".to_string())
    );
    assert_eq!(store.perform(&Action::Execute { statement: "good".to_string() }), Event::Done);
    assert_eq!(
        store.perform(&Action::Execute { statement: "bad".to_string() }),
        Event::Failed("the statement is refused".to_string())
    );
    assert_eq!(
        store.perform(&Action::Record { version: 8, description: "step 8".to_string() }),
        Event::Done
    );
    assert!(store.schema().is_empty());
    assert!(store.ledger().is_empty());
    assert_eq!(store.perform(&Action::Rollback), Event::Done);
    assert!(store.schema().is_empty());
    assert!(store.ledger().is_empty());

    assert_eq!(store.perform(&Action::Begin), Event::Done);
    assert_eq!(store.perform(&Action::Execute { statement: "good".to_string() }), Event::Done);
    assert_eq!(
        store.perform(&Action::Record { version: 8, description: "step 8".to_string() }),
        Event::Done
    );
    assert_eq!(store.perform(&Action::Commit), Event::Done);
    assert_eq!(store.schema(), &texts(&["good"]));
    assert_eq!(store.ledger(), &vec![entry(8)]);
    assert_eq!(store.perform(&Action::ReadLedger), Event::Versions(vec![8]));

    assert_eq!(store.perform(&Action::Execute { statement: "alone".to_string() }), Event::Done);
    assert_eq!(
        store.perform(&Action::Record { version: 9, description: "step 9".to_string() }),
        Event::Done
    );
    assert_eq!(store.schema(), &texts(&["good", "alone"]));
    assert_eq!(store.ledger_versions(), vec![8, 9]);
    assert_eq!(store.perform(&Action::Finish { outcome: Ok(0) }), Event::Done);
}

#[test]
fn only_the_latest_version_may_be_reverted() {
    let applied = vec![1, 2, 3];
    assert!(may_revert(&applied, &down(3, &["undo 3"])));
    assert!(!may_revert(&applied, &down(2, &["undo 2"])));
    assert!(!may_revert(&applied, &down(4, &["undo 4"])));
    assert!(!may_revert(&applied, &up(3, &["again"])));
    assert!(!may_revert(&Vec::new(), &down(1, &["undo 1"])));
    assert!(may_revert(&vec![2, 1], &down(2, &["undo 2"])));
    assert!(may_revert(&vec![1, 2], &down(2, &["undo 2"])));
    assert!(!may_revert(&vec![1, 2], &down(1, &["undo 1"])));
}

#[test]
fn store_inside_a_transaction_cannot_begin_another() {
    let mut store = MemoryStore::new();
    assert_eq!(store.perform(&Action::Begin), Event::Done);
    assert_eq!(
        synchronize(three(), place(), &mut store),
        Err(MigrationError::MigrationExecutionError {
            version: 1,
            cause: "a transaction is already open".to_string(),
        })
    );
    assert!(store.has_ledger());
    assert!(store.in_transaction());
    assert!(store.ledger().is_empty());
    assert!(store.schema().is_empty());
    store.interrupt();
    assert_eq!(synchronize(three(), place(), &mut store), Ok(3));
    assert_eq!(store.ledger_versions(), vec![1, 2, 3]);
}
