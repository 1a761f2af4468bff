//! Synchronising a store in memory: the machine of [`crate::engine`] run to
//! its end against a [`MemoryStore`].

use crate::engine::{lemma_advance_progress, outcome_view, Action, Synchronizer};
use crate::error::MigrationError;
use crate::migration::{views, Migration, MigrationList};
use crate::outcome::{concluded, synchronized};
use crate::run::{attempt, drive, run, theorem_attempt_concludes, theorem_run_synchronizes};
use crate::store::MemoryStore;
use vstd::prelude::*;

verus! {

/// Runs the machine `begun`, which has handed out `first`, to its end against
/// `store`.
fn conduct(
    begun: Synchronizer,
    first: Action,
    store: &mut MemoryStore,
) -> (outcome: Result<u64, MigrationError>)
    requires
        begun@.wf(),
        begun@.phase is Finished ==> first@ is Finish,
    ensures
        (final(store)@, outcome_view(outcome)) == drive(
            begun@,
            first@,
            old(store)@,
            begun@.steps_left(),
        ),
{
    let ghost goal = drive(begun@, first@, store@, begun@.steps_left());
    let ghost mut fuel = begun@.steps_left();
    let mut machine = begun;
    let mut action = first;
    loop
        invariant
            machine@.wf(),
            machine@.phase is Finished ==> action@ is Finish,
            fuel >= machine@.steps_left(),
            drive(machine@, action@, store@, fuel) == goal,
            goal == drive(begun@, first@, old(store)@, begun@.steps_left()),
        decreases machine@.steps_left(),
    {
        if let Action::Finish { outcome } = action {
            return outcome;
        }
        let event = store.perform(&action);
        proof {
            lemma_advance_progress(machine@, event@);
            fuel = (fuel - 1) as nat;
        }
        let (next, then) = machine.step(event);
        machine = next;
        action = then;
    }
}

/// Brings `store` up to `list`: creates the ledger, then applies every
/// migration of `list` that goes up and that the ledger does not hold, by
/// ascending version, each in a transaction of its own, and stops at the
/// first that fails. Returns the number applied, or the failure.
///
/// A store that is handed over inside a transaction is answered by the run
/// of the machine as it stands: the first pending migration fails to begin.
pub fn synchronize_list(
    list: MigrationList,
    locator: String,
    store: &mut MemoryStore,
) -> (outcome: Result<u64, MigrationError>)
    ensures
        (final(store)@, outcome_view(outcome)) == run(list@, locator@, old(store)@),
        old(store)@.quiet() ==> (final(store)@, outcome_view(outcome)) == synchronized(
            old(store)@,
            list@,
        ),
{
    proof {
        use_type_invariant(&list);
        if store@.quiet() {
            theorem_run_synchronizes(list@, locator@, store@);
        }
    }
    let (machine, action) = Synchronizer::with_list(list, locator);
    conduct(machine, action, store)
}

/// Validates `migrations`, puts them in order and brings `store` up to them.
///
/// A list in which a version is below one or occurs twice fails with
/// `ConfigurationError` and leaves the store as it is.
pub fn synchronize(
    migrations: Vec<Migration>,
    locator: String,
    store: &mut MemoryStore,
) -> (outcome: Result<u64, MigrationError>)
    ensures
        (final(store)@, outcome_view(outcome)) == attempt(
            views(migrations@),
            locator@,
            old(store)@,
        ),
        old(store)@.quiet() ==> (final(store)@, outcome_view(outcome)) == concluded(
            old(store)@,
            views(migrations@),
        ),
{
    proof {
        if store@.quiet() {
            theorem_attempt_concludes(views(migrations@), locator@, store@);
        }
    }
    let (machine, action) = Synchronizer::start(migrations, locator);
    conduct(machine, action, store)
}

} // verus!
