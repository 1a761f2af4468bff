//! What holds of every synchronisation.
//!
//! The laws speak of [`run`] and [`attempt`], the machine run against a
//! store that keeps its transactions, for every rule by which such a store
//! may refuse statements.

use crate::engine::{
    answers, begin, lemma_advance_progress, lemma_next_pending, opening, pending, ActionView,
    EngineView, EventView, PhaseView,
};
use crate::error::Fault;
use crate::migration::{
    acceptable, ascending, first_offence, first_offender, lemma_arrangement_exists,
    lemma_first_offender_exists, validated, Direction, MigrationView,
};
use crate::outcome::{
    batch_fault, begins, breaks_at, chosen, gathered, interrupted, lemma_chosen_ascends,
    lemma_chosen_contains, lemma_nothing_pending, lemma_same_pending, lemma_settle_in_parts,
    lemma_settle_range_shape, settle_range, synchronized,
};
use crate::run::{
    after_exchanges, attempt, drive, lemma_advance_keeps_list, lemma_drive_arrives,
    lemma_exchanges_keep_abreast, run, theorem_run_synchronizes,
};
use crate::store::{versions, StoreView};
use vstd::prelude::*;

verus! {

/// Idempotence: a second synchronisation changes nothing. It ends in the
/// store that the first one left, reports that it applied nothing where the
/// first succeeded, and reports the first one's failure again where it
/// failed.
pub proof fn law_second_run_changes_nothing(
    list: Seq<MigrationView>,
    locator: Seq<char>,
    store: StoreView,
)
    requires
        acceptable(list),
        ascending(list),
        store.quiet(),
    ensures
        ({
            let once = run(list, locator, store);
            let twice = run(list, locator, once.0);
            &&& once.0.quiet()
            &&& twice.0 == once.0
            &&& match once.1 {
                Ok(_) => twice.1 == Ok::<nat, Fault>(0),
                Err(error) => twice.1 == Err::<nat, Fault>(error),
            }
        }),
{
    theorem_run_synchronizes(list, locator, store);
    law_resumed_run_completes(list, locator, store, list.len());
}

/// Idempotence for the migrations as they are given, in any order and
/// acceptable or not: synchronising twice in a row leaves the store that
/// synchronising once leaves.
pub proof fn law_second_attempt_changes_nothing(
    given: Seq<MigrationView>,
    locator: Seq<char>,
    store: StoreView,
)
    requires
        store.quiet(),
    ensures
        ({
            let once = attempt(given, locator, store);
            let twice = attempt(given, locator, once.0);
            &&& once.0.quiet()
            &&& twice.0 == once.0
            &&& match once.1 {
                Ok(_) => twice.1 == Ok::<nat, Fault>(0),
                Err(error) => twice.1 == Err::<nat, Fault>(error),
            }
        }),
{
    if acceptable(given) {
        let list = validated(given)->Ok_0;
        lemma_arrangement_exists(given);
        law_second_run_changes_nothing(list, locator, store);
    }
}

/// A synchronisation that was cut off is completed by the next one: run
/// again on the store that the interruption left, the synchronisation ends
/// in the store of the uninterrupted one. It applies what the first had not
/// applied and nothing else, and reports the same failure if there is one.
/// What was committed before the interruption stays as it was.
pub proof fn law_resumed_run_completes(
    list: Seq<MigrationView>,
    locator: Seq<char>,
    store: StoreView,
    upto: nat,
)
    requires
        acceptable(list),
        ascending(list),
        store.quiet(),
        upto <= list.len(),
    ensures
        ({
            let whole = run(list, locator, store);
            let left = interrupted(store, list, upto);
            let resumed = run(list, locator, left);
            let before = settle_range(store.ready(), list, versions(store.ledger), 0, upto, 0).1;
            &&& left.quiet()
            &&& resumed.0 == whole.0
            &&& begins(whole.0.ledger, left.ledger)
            &&& begins(whole.0.schema, left.schema)
            &&& match whole.1 {
                Ok(n) => before is Ok && resumed.1 == Ok::<nat, Fault>(
                    (n - before->Ok_0) as nat,
                ) && before->Ok_0 <= n,
                Err(error) => resumed.1 == Err::<nat, Fault>(error),
            }
        }),
{
    let ready = store.ready();
    let read = versions(store.ledger);
    let n = list.len();
    let (left, before) = settle_range(ready, list, read, 0, upto, 0);
    let at = breaks_at(ready, list, read, 0, upto);
    lemma_settle_range_shape(ready, list, read, 0, upto, 0);
    theorem_run_synchronizes(list, locator, store);
    theorem_run_synchronizes(list, locator, left);
    lemma_settle_in_parts(ready, list, read, 0, upto, n, 0);
    let again = versions(left.ledger);
    assert forall|j: int| 0 <= j < at implies !pending(list[j], again) by {
        if pending(list[j], read) {
            lemma_chosen_contains(list, read, 0, at, list[j].version);
            let gained = chosen(list, read, 0, at);
            let w = choose|w: int| 0 <= w < gained.len() && gained[w] == list[j].version;
            assert(again[read.len() + w] == list[j].version);
        } else if list[j].direction == Direction::Up {
            let w = choose|w: int| 0 <= w < read.len() && read[w] == list[j].version;
            assert(again[w] == list[j].version);
        }
    }
    assert forall|j: int| at <= j < n implies pending(list[j], again) == pending(
        list[j],
        read,
    ) by {
        let version = list[j].version;
        lemma_chosen_contains(list, read, 0, at, version);
        if read.contains(version) {
            let w = choose|w: int| 0 <= w < read.len() && read[w] == version;
            assert(again[w] == version);
        }
    }
    lemma_nothing_pending(left, list, again, 0, at, n, 0);
    if at >= upto {
        lemma_same_pending(left, list, read, again, upto, n, before->Ok_0, 0);
        lemma_settle_range_shape(left, list, read, upto, n, before->Ok_0);
    }
    let whole = synchronized(store, list);
    assert(begins(whole.0.ledger, left.ledger) && begins(whole.0.schema, left.schema)) by {
        if at < upto {
            assert(left.ledger.take(left.ledger.len() as int) =~= left.ledger);
            assert(left.schema.take(left.schema.len() as int) =~= left.schema);
        }
    }
}

/// Whenever a synchronisation is cut off, the next one completes it. After
/// any number of exchanges between machine and store, were the process to
/// end there and the open transaction to be lost with it, the store is the
/// one the run began with or one that [`interrupted`] describes: it holds the
/// migrations of a beginning of the list and nothing of a later one. A
/// synchronisation run on it ends in the store in which the uninterrupted
/// one ends.
pub proof fn law_interruption_is_made_good(
    list: Seq<MigrationView>,
    locator: Seq<char>,
    store: StoreView,
    exchanges: nat,
)
    requires
        acceptable(list),
        ascending(list),
        store.quiet(),
    ensures
        ({
            let now = after_exchanges(
                opening(list, locator),
                ActionView::Open { locator },
                store,
                exchanges,
            ).2;
            &&& now.rolled_back() == store || exists|upto: nat|
                upto <= list.len() && now.rolled_back() == #[trigger] interrupted(
                    store,
                    list,
                    upto,
                )
            &&& run(list, locator, now.rolled_back()).0 == run(list, locator, store).0
        }),
{
    let engine = opening(list, locator);
    let action = ActionView::Open { locator };
    lemma_exchanges_keep_abreast(engine, action, store, store, exchanges);
    let (later, _, now) = after_exchanges(engine, action, store, exchanges);
    lemma_advance_keeps_list(engine, action, store, exchanges);
    match later.phase {
        PhaseView::Opening | PhaseView::Bootstrapping => {},
        PhaseView::Reading => {
            law_resumed_run_completes(list, locator, store, 0);
        },
        PhaseView::Beginning { index } => {
            law_resumed_run_completes(list, locator, store, index);
        },
        PhaseView::Executing { index, .. } => {
            law_resumed_run_completes(list, locator, store, index);
        },
        PhaseView::Recording { index } => {
            law_resumed_run_completes(list, locator, store, index);
        },
        PhaseView::Committing { index } => {
            law_resumed_run_completes(list, locator, store, index);
        },
        PhaseView::RollingBack { .. } | PhaseView::Finished { .. } => {
            let upto = choose|upto: nat|
                upto <= list.len() && now.rolled_back() == #[trigger] interrupted(
                    store,
                    list,
                    upto,
                );
            law_resumed_run_completes(list, locator, store, upto);
        },
    }
}

/// A batch that is refused leaves no trace: where a statement of the pending
/// migration at `index` is refused, at whatever place of its batch, the store
/// ends exactly as it was when the transaction began, and the failure names
/// that version and the cause of the refusal.
pub proof fn law_refused_batch_leaves_no_trace(
    engine: EngineView,
    store: StoreView,
    index: nat,
    fuel: nat,
)
    requires
        engine.wf(),
        engine.phase == (PhaseView::Beginning { index }),
        pending(engine.migrations[index as int], engine.applied),
        store.quiet(),
        fuel >= engine.steps_left(),
        batch_fault(store.rule, store.schema, engine.migrations[index as int].statement_batch, 0)
            is Some,
    ensures
        drive(engine, ActionView::Begin, store, fuel) == (
            store,
            Err::<nat, Fault>(
                Fault::MigrationExecution {
                    version: engine.migrations[index as int].version,
                    cause: batch_fault(
                        store.rule,
                        store.schema,
                        engine.migrations[index as int].statement_batch,
                        0,
                    )->Some_0,
                },
            ),
        ),
{
    lemma_drive_arrives(engine, ActionView::Begin, store, fuel);
}

/// A synchronisation that fails on a migration ends in the store that the
/// migrations before it left, and the ledger does not hold the failed
/// version.
pub proof fn law_failed_version_stays_out(
    list: Seq<MigrationView>,
    locator: Seq<char>,
    store: StoreView,
)
    requires
        acceptable(list),
        ascending(list),
        store.quiet(),
        run(list, locator, store).1 is Err,
    ensures
        ({
            let (after, outcome) = run(list, locator, store);
            let at = breaks_at(store.ready(), list, versions(store.ledger), 0, list.len());
            &&& at < list.len()
            &&& outcome->Err_0 is MigrationExecution
            &&& outcome->Err_0->MigrationExecution_version == list[at as int].version
            &&& after == interrupted(store, list, at)
            &&& !versions(after.ledger).contains(list[at as int].version)
        }),
{
    let ready = store.ready();
    let read = versions(store.ledger);
    let n = list.len();
    let at = breaks_at(ready, list, read, 0, n);
    let after = settle_range(ready, list, read, 0, n, 0).0;
    theorem_run_synchronizes(list, locator, store);
    lemma_settle_range_shape(ready, list, read, 0, n, 0);
    lemma_settle_in_parts(ready, list, read, 0, at, n, 0);
    lemma_settle_range_shape(ready, list, read, 0, at, 0);
    let version = list[at as int].version;
    if versions(after.ledger).contains(version) {
        let held = versions(after.ledger);
        let w = choose|w: int| 0 <= w < held.len() && held[w] == version;
        if w >= read.len() {
            lemma_chosen_contains(list, read, 0, at, version);
        }
    }
}

/// With nothing to apply, a synchronisation creates the ledger, does nothing
/// else, and reports that it applied no migration.
pub proof fn law_empty_list_only_creates_ledger(locator: Seq<char>, store: StoreView)
    requires
        store.quiet(),
    ensures
        run(Seq::<MigrationView>::empty(), locator, store) == (
            store.ready(),
            Ok::<nat, Fault>(0),
        ),
{
    theorem_run_synchronizes(Seq::<MigrationView>::empty(), locator, store);
}

/// A list that fails validation leaves the store as it is: the machine has
/// `Finish` to hand out and nothing else, before any action on the store and
/// after any reply, and the failure is `Configuration` with the version at
/// the first offending place.
pub proof fn law_refused_list_leaves_store(
    given: Seq<MigrationView>,
    locator: Seq<char>,
    store: StoreView,
)
    requires
        !acceptable(given),
    ensures
        ({
            let at = first_offence(given);
            let error = Fault::Configuration { version: given[at].version };
            let (engine, action) = begin(given, locator);
            &&& first_offender(given, at)
            &&& action == (ActionView::Finish { outcome: Err(error) })
            &&& forall|event| (#[trigger] engine.advance(event)).1 == action
            &&& attempt(given, locator, store) == (store, Err::<nat, Fault>(error))
        }),
{
    lemma_first_offender_exists(given);
}

/// The ledger holds the applied beginning of the list, and nothing else is
/// added to it: a synchronisation adds the versions of the pending
/// migrations before the place where it stopped, in ascending order and each
/// once, and counts them; their statements, and no others, are added to the
/// schema, so that no version the ledger held is executed again. It stops
/// before the end of the list only where it reports a failure.
pub proof fn law_ledger_gains_applied_prefix(
    list: Seq<MigrationView>,
    locator: Seq<char>,
    store: StoreView,
)
    requires
        acceptable(list),
        ascending(list),
        store.quiet(),
    ensures
        ({
            let (after, outcome) = run(list, locator, store);
            let read = versions(store.ledger);
            let at = breaks_at(store.ready(), list, read, 0, list.len());
            let gained = chosen(list, read, 0, at);
            &&& at <= list.len()
            &&& after.ledger_ready
            &&& begins(after.ledger, store.ledger)
            &&& begins(after.schema, store.schema)
            &&& versions(after.ledger) == read + gained
            &&& after.schema == store.schema + gathered(list, read, 0, at)
            &&& forall|i: int, j: int| 0 <= i < j < gained.len() ==> gained[i] < gained[j]
            &&& forall|i: int| 0 <= i < gained.len() ==> !read.contains(#[trigger] gained[i])
            &&& outcome is Ok <==> at == list.len()
            &&& outcome is Ok ==> outcome->Ok_0 == gained.len()
        }),
{
    let read = versions(store.ledger);
    let at = breaks_at(store.ready(), list, read, 0, list.len());
    let gained = chosen(list, read, 0, at);
    theorem_run_synchronizes(list, locator, store);
    lemma_settle_range_shape(store.ready(), list, read, 0, list.len(), 0);
    lemma_chosen_ascends(list, read, 0, at);
    assert forall|i: int| 0 <= i < gained.len() implies !read.contains(#[trigger] gained[i]) by {
        lemma_chosen_contains(list, read, 0, at, gained[i]);
    }
}

/// At most once: where no version stands twice in the ledger before a
/// synchronisation, none does after it.
pub proof fn law_versions_stay_distinct(
    list: Seq<MigrationView>,
    locator: Seq<char>,
    store: StoreView,
)
    requires
        acceptable(list),
        ascending(list),
        store.quiet(),
        versions(store.ledger).no_duplicates(),
    ensures
        versions(run(list, locator, store).0.ledger).no_duplicates(),
{
    law_ledger_gains_applied_prefix(list, locator, store);
}

/// No migration that goes down is ever run: every version that a
/// synchronisation adds to the ledger is that of a migration of the list
/// that goes up and whose version the ledger did not hold.
pub proof fn law_only_pending_migrations_run(
    list: Seq<MigrationView>,
    locator: Seq<char>,
    store: StoreView,
)
    requires
        acceptable(list),
        ascending(list),
        store.quiet(),
    ensures
        ({
            let after = run(list, locator, store).0;
            let read = versions(store.ledger);
            forall|i: int|
                read.len() <= i < after.ledger.len() ==> exists|j: int|
                    {
                        &&& 0 <= j < list.len()
                        &&& list[j].version == #[trigger] versions(after.ledger)[i]
                        &&& list[j].direction == Direction::Up
                        &&& !read.contains(list[j].version)
                    }
        }),
{
    let after = run(list, locator, store).0;
    let read = versions(store.ledger);
    let at = breaks_at(store.ready(), list, read, 0, list.len());
    law_ledger_gains_applied_prefix(list, locator, store);
    assert forall|i: int| read.len() <= i < after.ledger.len() implies exists|j: int|
        {
            &&& 0 <= j < list.len()
            &&& list[j].version == #[trigger] versions(after.ledger)[i]
            &&& list[j].direction == Direction::Up
            &&& !read.contains(list[j].version)
        } by {
        let version = versions(after.ledger)[i];
        assert(versions(after.ledger).len() == after.ledger.len());
        lemma_chosen_contains(list, read, 0, at, version);
    }
}

/// Strict order: a transaction begins only once the ledger has been read or
/// the commit of the transaction before it has been confirmed, and then for
/// a later place of the list, hence a higher version; a statement is handed
/// out only inside the transaction that was begun for its migration.
pub proof fn law_transactions_follow_commits(engine: EngineView, event: EventView)
    requires
        engine.wf(),
    ensures
        ({
            let (next, action) = engine.advance(event);
            &&& action is Begin ==> {
                &&& next.phase is Beginning
                &&& pending(
                    next.migrations[next.phase->Beginning_index as int],
                    next.applied,
                )
                &&& (engine.phase is Reading && event is Versions) || (engine.phase is Committing
                    && event is Done)
                &&& engine.phase is Committing ==> {
                    &&& engine.phase->Committing_index < next.phase->Beginning_index
                    &&& engine.migrations[engine.phase->Committing_index as int].version
                        < next.migrations[next.phase->Beginning_index as int].version
                    &&& next.count == engine.count + 1
                }
            }
            &&& action is Execute ==> {
                &&& event is Done
                &&& next.phase is Executing
                &&& (engine.phase == (PhaseView::Beginning { index: next.phase->Executing_index })
                    && next.phase->Executing_statement == 0) || (engine.phase
                    == (PhaseView::Executing {
                    index: next.phase->Executing_index,
                    statement: (next.phase->Executing_statement - 1) as nat,
                }) && next.phase->Executing_statement > 0)
            }
            &&& action is Commit ==> engine.phase is Recording && event is Done
        }),
{
    let list = engine.migrations;
    match engine.phase {
        PhaseView::Reading => {
            if let EventView::Versions(read) = event {
                lemma_next_pending(list, read, 0);
            }
        },
        PhaseView::Committing { index } => {
            lemma_next_pending(list, engine.applied, index + 1);
        },
        _ => {},
    }
}

/// Every run finishes: whatever the store replies, the machine has handed
/// out `Finish` once it has taken as many replies as it had steps left.
pub proof fn law_every_run_finishes(engine: EngineView, events: Seq<EventView>)
    requires
        engine.wf(),
        events.len() >= engine.steps_left(),
    ensures
        engine.after_events(events).phase is Finished,
    decreases events.len(),
{
    if events.len() > 0 {
        lemma_advance_progress(engine, events[0]);
        law_every_run_finishes(engine.advance(events[0]).0, events.drop_first());
    }
}

/// The first failure ends the run: a reply that does not report success is
/// followed by `Finish` with the failure, after a `Rollback` where a
/// transaction is open, whatever the rollback's own reply. No later
/// migration is attempted and no more is counted.
pub proof fn law_failure_ends_the_run(engine: EngineView, event: EventView, later: EventView)
    requires
        engine.wf(),
        !(engine.phase is Finished),
        !(engine.phase is RollingBack),
        !answers(engine.phase, event),
    ensures
        ({
            let (next, action) = engine.advance(event);
            let end = ActionView::Finish { outcome: Err(engine.failure(event)) };
            let open = engine.phase is Executing || engine.phase is Recording
                || engine.phase is Committing;
            &&& next.count == engine.count
            &&& open ==> action == ActionView::Rollback && next.advance(later).1 == end
            &&& !open ==> action == end
            &&& engine.failure(event) is LedgerCorruption <==> event is Malformed
            &&& !(event is Malformed) ==> (engine.failure(event) is StorageAccess <==> (
            engine.phase is Opening || engine.phase is Bootstrapping || engine.phase is Reading))
        }),
{
}

} // verus!
