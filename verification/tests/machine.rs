use migration_engine::engine::{Action, Event, Synchronizer};
use migration_engine::error::MigrationError;
use migration_engine::migration::{Direction, Migration, MigrationList};

fn migration(version: i64, direction: Direction, statements: &[&str]) -> Migration {
    Migration {
        version,
        description: format!("migration {}", version),
        statement_batch: statements.iter().map(|s| s.to_string()).collect(),
        direction,
    }
}

fn locator() -> String {
    "sqlite:test.db".to_string()
}

fn begun(migrations: Vec<Migration>, ledger: Vec<i64>) -> (Synchronizer, Action) {
    let (machine, action) = Synchronizer::start(migrations, locator());
    assert_eq!(action, Action::Open { locator: locator() });
    let (machine, action) = machine.step(Event::Done);
    assert_eq!(action, Action::EnsureLedger);
    let (machine, action) = machine.step(Event::Done);
    assert_eq!(action, Action::ReadLedger);
    machine.step(Event::Versions(ledger))
}

#[test]
fn one_migration_runs_in_one_transaction() {
    let (machine, action) = begun(vec![migration(1, Direction::Up, &["A", "B"])], vec![]);
    assert_eq!(action, Action::Begin);
    let (machine, action) = machine.step(Event::Done);
    assert_eq!(action, Action::Execute { statement: "A".to_string() });
    let (machine, action) = machine.step(Event::Done);
    assert_eq!(action, Action::Execute { statement: "B".to_string() });
    let (machine, action) = machine.step(Event::Done);
    assert_eq!(
        action,
        Action::Record { version: 1, description: "migration 1".to_string() }
    );
    assert!(!machine.is_finished());
    let (machine, action) = machine.step(Event::Done);
    assert_eq!(action, Action::Commit);
    let (machine, action) = machine.step(Event::Done);
    assert_eq!(action, Action::Finish { outcome: Ok(1) });
    assert!(machine.is_finished());
}

#[test]
fn migrations_run_by_ascending_version() {
    let given = vec![
        migration(2, Direction::Up, &["second"]),
        migration(1, Direction::Up, &["first"]),
    ];
    let (machine, action) = begun(given, vec![]);
    assert_eq!(action, Action::Begin);
    let (machine, action) = machine.step(Event::Done);
    assert_eq!(action, Action::Execute { statement: "first".to_string() });
    let (machine, action) = machine.step(Event::Done);
    assert_eq!(
        action,
        Action::Record { version: 1, description: "migration 1".to_string() }
    );
    let (machine, action) = machine.step(Event::Done);
    assert_eq!(action, Action::Commit);
    let (machine, action) = machine.step(Event::Done);
    assert_eq!(action, Action::Begin);
    let (machine, action) = machine.step(Event::Done);
    assert_eq!(action, Action::Execute { statement: "second".to_string() });
    let (machine, action) = machine.step(Event::Done);
    assert_eq!(
        action,
        Action::Record { version: 2, description: "migration 2".to_string() }
    );
    let (machine, action) = machine.step(Event::Done);
    assert_eq!(action, Action::Commit);
    let (_, action) = machine.step(Event::Done);
    assert_eq!(action, Action::Finish { outcome: Ok(2) });
}

#[test]
fn applied_versions_are_passed_over() {
    let given = vec![
        migration(1, Direction::Up, &["one"]),
        migration(2, Direction::Up, &["two"]),
        migration(3, Direction::Up, &["three"]),
    ];
    let (machine, action) = begun(given, vec![2, 1]);
    assert_eq!(action, Action::Begin);
    let (machine, action) = machine.step(Event::Done);
    assert_eq!(action, Action::Execute { statement: "three".to_string() });
    let (machine, action) = machine.step(Event::Done);
    assert_eq!(
        action,
        Action::Record { version: 3, description: "migration 3".to_string() }
    );
    let (machine, action) = machine.step(Event::Done);
    assert_eq!(action, Action::Commit);
    let (_, action) = machine.step(Event::Done);
    assert_eq!(action, Action::Finish { outcome: Ok(1) });
}

#[test]
fn nothing_pending_finishes_with_zero() {
    let given = vec![migration(1, Direction::Up, &["one"])];
    let (machine, action) = begun(given, vec![1]);
    assert_eq!(action, Action::Finish { outcome: Ok(0) });
    assert!(machine.is_finished());
}

#[test]
fn down_migrations_are_never_run() {
    let given = vec![
        migration(1, Direction::Down, &["drop one"]),
        migration(2, Direction::Up, &["two"]),
        migration(3, Direction::Down, &["drop three"]),
    ];
    let (machine, action) = begun(given, vec![]);
    assert_eq!(action, Action::Begin);
    let (machine, action) = machine.step(Event::Done);
    assert_eq!(action, Action::Execute { statement: "two".to_string() });
    let (machine, action) = machine.step(Event::Done);
    assert_eq!(
        action,
        Action::Record { version: 2, description: "migration 2".to_string() }
    );
    let (machine, action) = machine.step(Event::Done);
    assert_eq!(action, Action::Commit);
    let (_, action) = machine.step(Event::Done);
    assert_eq!(action, Action::Finish { outcome: Ok(1) });
}

#[test]
fn empty_batch_is_recorded_all_the_same() {
    let (machine, action) = begun(vec![migration(5, Direction::Up, &[])], vec![]);
    assert_eq!(action, Action::Begin);
    let (machine, action) = machine.step(Event::Done);
    assert_eq!(
        action,
        Action::Record { version: 5, description: "migration 5".to_string() }
    );
    let (machine, action) = machine.step(Event::Done);
    assert_eq!(action, Action::Commit);
    let (_, action) = machine.step(Event::Done);
    assert_eq!(action, Action::Finish { outcome: Ok(1) });
}

#[test]
fn failed_statement_is_rolled_back_and_ends_the_run() {
    let given = vec![
        migration(1, Direction::Up, &["A", "B", "C"]),
        migration(2, Direction::Up, &["D"]),
    ];
    let (machine, action) = begun(given, vec![]);
    assert_eq!(action, Action::Begin);
    let (machine, action) = machine.step(Event::Done);
    assert_eq!(action, Action::Execute { statement: "A".to_string() });
    let (machine, action) = machine.step(Event::Done);
    assert_eq!(action, Action::Execute { statement: "B".to_string() });
    let (machine, action) = machine.step(Event::Failed("syntax error".to_string()));
    assert_eq!(action, Action::Rollback);
    assert!(!machine.is_finished());
    let (machine, action) = machine.step(Event::Done);
    let failure = MigrationError::MigrationExecutionError {
        version: 1,
        cause: "syntax error".to_string(),
    };
    assert_eq!(action, Action::Finish { outcome: Err(failure) });
    assert!(machine.is_finished());
}

#[test]
fn failed_record_and_failed_commit_are_rolled_back() {
    let (machine, _) = begun(vec![migration(1, Direction::Up, &[])], vec![]);
    let (machine, action) = machine.step(Event::Done);
    assert_eq!(
        action,
        Action::Record { version: 1, description: "migration 1".to_string() }
    );
    let (machine, action) = machine.step(Event::Failed("ledger is read-only".to_string()));
    assert_eq!(action, Action::Rollback);
    let (_, action) = machine.step(Event::Failed("rollback failed too".to_string()));
    assert_eq!(
        action,
        Action::Finish {
            outcome: Err(MigrationError::MigrationExecutionError {
                version: 1,
                cause: "ledger is read-only".to_string(),
            })
        }
    );

    let (machine, _) = begun(vec![migration(7, Direction::Up, &[])], vec![]);
    let (machine, _) = machine.step(Event::Done);
    let (machine, action) = machine.step(Event::Done);
    assert_eq!(action, Action::Commit);
    let (machine, action) = machine.step(Event::Failed("disk full".to_string()));
    assert_eq!(action, Action::Rollback);
    let (_, action) = machine.step(Event::Done);
    assert_eq!(
        action,
        Action::Finish {
            outcome: Err(MigrationError::MigrationExecutionError {
                version: 7,
                cause: "disk full".to_string(),
            })
        }
    );
}

#[test]
fn failed_begin_ends_the_run_without_rollback() {
    let (machine, action) = begun(vec![migration(4, Direction::Up, &["A"])], vec![]);
    assert_eq!(action, Action::Begin);
    let (machine, action) = machine.step(Event::Failed("database is locked".to_string()));
    assert_eq!(
        action,
        Action::Finish {
            outcome: Err(MigrationError::MigrationExecutionError {
                version: 4,
                cause: "database is locked".to_string(),
            })
        }
    );
    assert!(machine.is_finished());
}

#[test]
fn store_that_cannot_be_opened_is_a_storage_access_error() {
    let given = vec![migration(1, Direction::Up, &["A"])];
    let (machine, action) = Synchronizer::start(given, locator());
    assert_eq!(action, Action::Open { locator: locator() });
    let (machine, action) = machine.step(Event::Failed("permission denied".to_string()));
    assert_eq!(
        action,
        Action::Finish {
            outcome: Err(MigrationError::StorageAccessError {
                cause: "permission denied".to_string()
            })
        }
    );
    assert!(machine.is_finished());
}

#[test]
fn ledger_that_cannot_be_reached_is_a_storage_access_error() {
    let (machine, _) = Synchronizer::start(vec![migration(1, Direction::Up, &["A"])], locator());
    let (machine, action) = machine.step(Event::Done);
    assert_eq!(action, Action::EnsureLedger);
    let (_, action) = machine.step(Event::Failed("read-only file system".to_string()));
    assert_eq!(
        action,
        Action::Finish {
            outcome: Err(MigrationError::StorageAccessError {
                cause: "read-only file system".to_string()
            })
        }
    );

    let (machine, _) = Synchronizer::start(vec![migration(1, Direction::Up, &["A"])], locator());
    let (machine, _) = machine.step(Event::Done);
    let (machine, action) = machine.step(Event::Done);
    assert_eq!(action, Action::ReadLedger);
    let (_, action) = machine.step(Event::Failed("i/o error".to_string()));
    assert_eq!(
        action,
        Action::Finish {
            outcome: Err(MigrationError::StorageAccessError { cause: "i/o error".to_string() })
        }
    );
}

#[test]
fn malformed_ledger_is_a_ledger_corruption_error() {
    let (machine, _) = Synchronizer::start(vec![migration(1, Direction::Up, &["A"])], locator());
    let (machine, _) = machine.step(Event::Done);
    let (machine, action) = machine.step(Event::Done);
    assert_eq!(action, Action::ReadLedger);
    let (machine, action) = machine.step(Event::Malformed("no column version".to_string()));
    assert_eq!(
        action,
        Action::Finish {
            outcome: Err(MigrationError::LedgerCorruptionError {
                cause: "no column version".to_string()
            })
        }
    );
    assert!(machine.is_finished());
}

#[test]
fn malformed_ledger_inside_a_transaction_is_rolled_back_first() {
    let (machine, _) = begun(vec![migration(1, Direction::Up, &[])], vec![]);
    let (machine, action) = machine.step(Event::Done);
    assert_eq!(
        action,
        Action::Record { version: 1, description: "migration 1".to_string() }
    );
    let (machine, action) = machine.step(Event::Malformed("no column description".to_string()));
    assert_eq!(action, Action::Rollback);
    let (_, action) = machine.step(Event::Done);
    assert_eq!(
        action,
        Action::Finish {
            outcome: Err(MigrationError::LedgerCorruptionError {
                cause: "no column description".to_string()
            })
        }
    );
}

#[test]
fn reply_that_does_not_fit_is_a_failure() {
    let given = vec![migration(1, Direction::Up, &["A"])];
    let (machine, action) = Synchronizer::start(given, locator());
    assert_eq!(action, Action::Open { locator: locator() });
    let (_, action) = machine.step(Event::Versions(vec![1]));
    assert_eq!(
        action,
        Action::Finish {
            outcome: Err(MigrationError::StorageAccessError {
                cause: "the reply does not answer the action".to_string()
            })
        }
    );

    let (machine, _) = Synchronizer::start(vec![migration(1, Direction::Up, &["A"])], locator());
    let (machine, _) = machine.step(Event::Done);
    let (machine, action) = machine.step(Event::Done);
    assert_eq!(action, Action::ReadLedger);
    let (_, action) = machine.step(Event::Done);
    assert_eq!(
        action,
        Action::Finish {
            outcome: Err(MigrationError::StorageAccessError {
                cause: "the reply does not answer the action".to_string()
            })
        }
    );

    let (machine, action) = begun(vec![migration(3, Direction::Up, &["A"])], vec![]);
    assert_eq!(action, Action::Begin);
    let (machine, _) = machine.step(Event::Done);
    let (machine, action) = machine.step(Event::Versions(vec![]));
    assert_eq!(action, Action::Rollback);
    let (_, action) = machine.step(Event::Done);
    assert_eq!(
        action,
        Action::Finish {
            outcome: Err(MigrationError::MigrationExecutionError {
                version: 3,
                cause: "the reply does not answer the action".to_string()
            })
        }
    );
}

#[test]
fn duplicate_version_is_refused_before_any_action() {
    let given = vec![
        migration(1, Direction::Up, &["A"]),
        migration(2, Direction::Up, &["B"]),
        migration(2, Direction::Down, &["C"]),
    ];
    let (machine, action) = Synchronizer::start(given, locator());
    assert_eq!(
        action,
        Action::Finish { outcome: Err(MigrationError::ConfigurationError { version: 2 }) }
    );
    assert!(machine.is_finished());
}

#[test]
fn finished_machine_repeats_its_outcome() {
    let (machine, action) = begun(vec![], vec![]);
    assert_eq!(action, Action::Finish { outcome: Ok(0) });
    let (machine, action) = machine.step(Event::Done);
    assert_eq!(action, Action::Finish { outcome: Ok(0) });
    let (machine, action) = machine.step(Event::Failed("late".to_string()));
    assert_eq!(action, Action::Finish { outcome: Ok(0) });
    assert!(machine.is_finished());

    let (machine, _) = Synchronizer::start(vec![migration(0, Direction::Up, &[])], locator());
    let (_, action) = machine.step(Event::Done);
    assert_eq!(
        action,
        Action::Finish { outcome: Err(MigrationError::ConfigurationError { version: 0 }) }
    );
}

#[test]
fn validated_list_starts_with_open() {
    let list = MigrationList::new(vec![migration(9, Direction::Up, &["A"])]).unwrap();
    let (machine, action) = Synchronizer::with_list(list, locator());
    assert_eq!(action, Action::Open { locator: locator() });
    assert!(!machine.is_finished());
}
