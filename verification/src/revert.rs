//! When a migration may be taken out again.
//!
//! No synchronisation ever runs a migration that goes down. Taking one out is
//! the caller's own step, and it is in order only for the version that was
//! applied last, so that versions leave in descending order.

use crate::migration::{Direction, Migration, MigrationView};
use vstd::prelude::*;

verus! {

/// `migration` goes down, the ledger holds its version, and no version in the
/// ledger is higher.
pub open spec fn revertible(applied: Seq<i64>, migration: MigrationView) -> bool {
    &&& migration.direction == Direction::Down
    &&& applied.contains(migration.version)
    &&& forall|i: int| 0 <= i < applied.len() ==> applied[i] <= migration.version
}

/// Whether `migration` may be run against a store whose ledger holds the
/// versions `applied`.
pub fn may_revert(applied: &Vec<i64>, migration: &Migration) -> (allowed: bool)
    ensures
        allowed == revertible(applied@, migration@),
{
    match migration.direction {
        Direction::Up => false,
        Direction::Down => {
            let mut found = false;
            let mut i: usize = 0;
            while i < applied.len()
                invariant
                    i <= applied.len(),
                    found == applied@.take(i as int).contains(migration.version),
                    forall|k: int| 0 <= k < i ==> applied[k] <= migration.version,
                decreases applied.len() - i,
            {
                if applied[i] > migration.version {
                    return false;
                }
                if applied[i] == migration.version {
                    found = true;
                }
                proof {
                    let next = applied@.take(i + 1 as int);
                    if applied[i as int] == migration.version {
                        assert(next[i as int] == migration.version);
                    }
                }
                i += 1;
            }
            assert(applied@.take(applied.len() as int) =~= applied@);
            found
        },
    }
}

} // verus!
