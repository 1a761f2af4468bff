use migration_engine::error::MigrationError;
use migration_engine::migration::{Direction, Migration, MigrationList};

fn up(version: i64, description: &str, statements: &[&str]) -> Migration {
    Migration {
        version,
        description: description.to_string(),
        statement_batch: statements.iter().map(|s| s.to_string()).collect(),
        direction: Direction::Up,
    }
}

#[test]
fn list_is_put_in_ascending_order() {
    let list = MigrationList::new(vec![
        up(3, "c", &["C"]),
        up(1, "a", &["A"]),
        up(2, "b", &["B"]),
    ])
    .unwrap();
    assert_eq!(list.len(), 3);
    assert_eq!(list.get(0).version, 1);
    assert_eq!(list.get(1).version, 2);
    assert_eq!(list.get(2).version, 3);
    assert_eq!(list.get(0).description, "a");
    assert_eq!(list.get(2).statement_batch, vec!["C".to_string()]);
}

#[test]
fn duplicate_version_is_a_configuration_error() {
    let result = MigrationList::new(vec![up(1, "a", &[]), up(2, "b", &[]), up(1, "c", &[])]);
    assert_eq!(result, Err(MigrationError::ConfigurationError { version: 1 }));
}

#[test]
fn version_below_one_is_a_configuration_error() {
    let result = MigrationList::new(vec![up(4, "a", &[]), up(0, "b", &[]), up(4, "c", &[])]);
    assert_eq!(result, Err(MigrationError::ConfigurationError { version: 0 }));
    let result = MigrationList::new(vec![up(-7, "a", &[])]);
    assert_eq!(result, Err(MigrationError::ConfigurationError { version: -7 }));
}

#[test]
fn empty_list_is_accepted() {
    let list = MigrationList::new(Vec::new()).unwrap();
    assert_eq!(list.len(), 0);
}
