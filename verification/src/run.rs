//! The machine of [`crate::engine`] run against a store that keeps its
//! transactions, and the proof that every run ends where
//! [`crate::outcome`] says.

use crate::engine::{
    begin, lemma_advance_progress, lemma_next_pending, next_pending, opening, pending, ActionView,
    EngineView, PhaseView,
};
use crate::error::Fault;
use crate::migration::{acceptable, ascending, lemma_arrangement_exists, validated, MigrationView};
use crate::outcome::{
    batch_fault, concluded, interrupted, lemma_idle_range, lemma_settle_in_parts,
    lemma_settle_passes_over, row_of, settle_range, synchronized,
};
use crate::store::{versions, Staged, StoreView};
use vstd::prelude::*;

verus! {

/// The machine run against the store: each action is put to the store and the
/// reply to the machine, until the action is `Finish` or `fuel` replies have
/// been taken.
pub open spec fn drive(engine: EngineView, action: ActionView, store: StoreView, fuel: nat) -> (
    StoreView,
    Result<nat, Fault>,
)
    decreases fuel,
{
    match action {
        ActionView::Finish { outcome } => (store, outcome),
        _ => if fuel == 0 {
            (store, Ok(engine.count))
        } else {
            let (after, event) = store.respond(action);
            let (next, then) = engine.advance(event);
            drive(next, then, after, (fuel - 1) as nat)
        },
    }
}

/// A whole synchronisation of `store` at `locator` with the validated `list`,
/// as the machine performs it.
pub open spec fn run(list: Seq<MigrationView>, locator: Seq<char>, store: StoreView) -> (
    StoreView,
    Result<nat, Fault>,
) {
    drive(
        opening(list, locator),
        ActionView::Open { locator },
        store,
        opening(list, locator).steps_left(),
    )
}

/// A whole synchronisation of `store` at `locator` with the migrations as
/// they were given, as the machine performs it from validation on.
pub open spec fn attempt(given: Seq<MigrationView>, locator: Seq<char>, store: StoreView) -> (
    StoreView,
    Result<nat, Fault>,
) {
    let (engine, action) = begin(given, locator);
    drive(engine, action, store, engine.steps_left())
}

/// Machine, action and store as they stand when `exchanges` actions of a run
/// have been put to the store and answered, or at the end of the run where it
/// comes sooner.
pub open spec fn after_exchanges(
    engine: EngineView,
    action: ActionView,
    store: StoreView,
    exchanges: nat,
) -> (EngineView, ActionView, StoreView)
    decreases exchanges,
{
    if exchanges == 0 || action is Finish {
        (engine, action, store)
    } else {
        let (after, event) = store.respond(action);
        let (next, then) = engine.advance(event);
        after_exchanges(next, then, after, (exchanges - 1) as nat)
    }
}

/// The transaction that the machine has open once `done` statements of
/// `migration` have run, the ledger row entered or not.
pub open spec fn transaction(migration: MigrationView, done: nat, recorded: bool) -> Staged {
    Staged {
        statements: migration.statement_batch.take(done as int),
        rows: if recorded {
            seq![row_of(migration)]
        } else {
            Seq::empty()
        },
    }
}

/// Machine, action in flight and store fit together: the action is the one
/// that the phase awaits the reply to, and the store's transaction holds what
/// the machine has had executed.
pub open spec fn coupled(engine: EngineView, action: ActionView, store: StoreView) -> bool {
    let list = engine.migrations;
    &&& engine.wf()
    &&& match engine.phase {
        PhaseView::Opening => action == (ActionView::Open { locator: engine.locator })
            && store.quiet(),
        PhaseView::Bootstrapping => action == ActionView::EnsureLedger && store.quiet(),
        PhaseView::Reading => action == ActionView::ReadLedger && store.quiet()
            && store.ledger_ready,
        PhaseView::Beginning { index } => {
            &&& action == ActionView::Begin
            &&& store.quiet()
            &&& pending(list[index as int], engine.applied)
        },
        PhaseView::Executing { index, statement } => {
            &&& action == (ActionView::Execute {
                statement: list[index as int].statement_batch[statement as int],
            })
            &&& store.staged == Some(transaction(list[index as int], statement, false))
        },
        PhaseView::Recording { index } => {
            &&& action == (ActionView::Record {
                version: list[index as int].version,
                description: list[index as int].description,
            })
            &&& store.staged == Some(
                transaction(
                    list[index as int],
                    list[index as int].statement_batch.len(),
                    false,
                ),
            )
        },
        PhaseView::Committing { index } => {
            &&& action == ActionView::Commit
            &&& store.staged == Some(
                transaction(
                    list[index as int],
                    list[index as int].statement_batch.len(),
                    true,
                ),
            )
        },
        PhaseView::RollingBack { .. } => action == ActionView::Rollback && store.staged is Some,
        PhaseView::Finished { outcome } => action == (ActionView::Finish { outcome }),
    }
}

/// Where the open transaction of the migration at `index` ends, `done`
/// statements of it having run: at the first refusal the store is rolled
/// back and the failure reported; else the migration is committed and the
/// later ones follow.
pub open spec fn close_transaction(engine: EngineView, store: StoreView, index: nat, done: nat) -> (
    StoreView,
    Result<nat, Fault>,
) {
    let list = engine.migrations;
    let migration = list[index as int];
    match batch_fault(
        store.rule,
        store.schema + migration.statement_batch.take(done as int),
        migration.statement_batch,
        done,
    ) {
        Some(cause) => (
            store.rolled_back(),
            Err(Fault::MigrationExecution { version: migration.version, cause }),
        ),
        None => settle_range(
            store.with_migration(migration.statement_batch, row_of(migration)),
            list,
            engine.applied,
            index + 1,
            list.len(),
            engine.count + 1,
        ),
    }
}

/// Where the synchronisation ends, seen from any point on its way.
pub open spec fn expected(engine: EngineView, store: StoreView) -> (StoreView, Result<nat, Fault>) {
    let list = engine.migrations;
    match engine.phase {
        PhaseView::Opening | PhaseView::Bootstrapping | PhaseView::Reading => synchronized(
            store,
            list,
        ),
        PhaseView::Beginning { index } => settle_range(
            store,
            list,
            engine.applied,
            index,
            list.len(),
            engine.count,
        ),
        PhaseView::Executing { index, statement } => close_transaction(
            engine,
            store,
            index,
            statement,
        ),
        PhaseView::Recording { index } => close_transaction(
            engine,
            store,
            index,
            list[index as int].statement_batch.len(),
        ),
        PhaseView::Committing { index } => close_transaction(
            engine,
            store,
            index,
            list[index as int].statement_batch.len(),
        ),
        PhaseView::RollingBack { error } => (store.rolled_back(), Err(error)),
        PhaseView::Finished { outcome } => (store, outcome),
    }
}

/// The store `now`, in the middle of a run that began at `origin`, holds what
/// the migrations before the current one have left, and nothing of the
/// current one outside its open transaction.
pub open spec fn abreast(engine: EngineView, now: StoreView, origin: StoreView) -> bool {
    let list = engine.migrations;
    let read = versions(origin.ledger);
    match engine.phase {
        PhaseView::Opening | PhaseView::Bootstrapping => now == origin,
        PhaseView::Reading => now == origin.ready(),
        PhaseView::Beginning { index } => {
            &&& engine.applied == read
            &&& settle_range(origin.ready(), list, read, 0, index, 0) == (
                now,
                Ok::<nat, Fault>(engine.count),
            )
        },
        PhaseView::Executing { index, statement } => {
            let batch = list[index as int].statement_batch;
            &&& engine.applied == read
            &&& pending(list[index as int], read)
            &&& settle_range(origin.ready(), list, read, 0, index, 0) == (
                now.rolled_back(),
                Ok::<nat, Fault>(engine.count),
            )
            &&& batch_fault(now.rule, now.schema, batch, 0) == batch_fault(
                now.rule,
                now.schema + batch.take(statement as int),
                batch,
                statement,
            )
        },
        PhaseView::Recording { index } | PhaseView::Committing { index } => {
            &&& engine.applied == read
            &&& pending(list[index as int], read)
            &&& settle_range(origin.ready(), list, read, 0, index, 0) == (
                now.rolled_back(),
                Ok::<nat, Fault>(engine.count),
            )
            &&& batch_fault(now.rule, now.schema, list[index as int].statement_batch, 0) is None
        },
        PhaseView::RollingBack { .. } | PhaseView::Finished { .. } => exists|upto: nat|
            upto <= list.len() && now.rolled_back() == #[trigger] interrupted(origin, list, upto),
    }
}

/// One exchange between machine and store keeps them fitted together, brings
/// the machine nearer its end, and does not change where the synchronisation
/// ends.
pub proof fn lemma_exchange_keeps_course(engine: EngineView, action: ActionView, store: StoreView)
    requires
        coupled(engine, action, store),
        !(action is Finish),
    ensures
        ({
            let (after, event) = store.respond(action);
            let (next, then) = engine.advance(event);
            &&& coupled(next, then, after)
            &&& expected(next, after) == expected(engine, store)
            &&& next.steps_left() < engine.steps_left()
        }),
{
    let list = engine.migrations;
    let (after, event) = store.respond(action);
    lemma_advance_progress(engine, event);
    match engine.phase {
        PhaseView::Reading => {
            let read = versions(store.ledger);
            lemma_next_pending(list, read, 0);
            lemma_settle_passes_over(store, list, read, 0, list.len(), 0);
        },
        PhaseView::Beginning { index } => {
            let migration = list[index as int];
            assert(after.staged == Some(transaction(migration, 0, false))) by {
                assert(migration.statement_batch.take(0) =~= Seq::<Seq<char>>::empty());
            }
        },
        PhaseView::Executing { index, statement } => {
            let migration = list[index as int];
            let batch = migration.statement_batch;
            if event is Done {
                assert(batch.take(statement as int).push(batch[statement as int]) =~= batch.take(
                    statement + 1 as int,
                ));
            }
        },
        PhaseView::Committing { index } => {
            let migration = list[index as int];
            let batch = migration.statement_batch;
            assert(batch.take(batch.len() as int) =~= batch);
            assert(store.ledger + seq![row_of(migration)] =~= store.ledger.push(
                row_of(migration),
            ));
            lemma_next_pending(list, engine.applied, index + 1);
            lemma_settle_passes_over(
                after,
                list,
                engine.applied,
                index + 1,
                list.len(),
                engine.count + 1,
            );
        },
        _ => {},
    }
}

/// Run with fuel enough, the machine ends where `expected` says.
pub proof fn lemma_drive_arrives(
    engine: EngineView,
    action: ActionView,
    store: StoreView,
    fuel: nat,
)
    requires
        coupled(engine, action, store),
        fuel >= engine.steps_left(),
    ensures
        drive(engine, action, store, fuel) == expected(engine, store),
    decreases fuel,
{
    if !(action is Finish) {
        lemma_exchange_keeps_course(engine, action, store);
        let (after, event) = store.respond(action);
        let (next, then) = engine.advance(event);
        lemma_drive_arrives(next, then, after, (fuel - 1) as nat);
    }
}

/// Run against a store that keeps its transactions, the machine synchronises
/// it: the run leaves the store and reports the result that `synchronized`
/// states.
pub proof fn theorem_run_synchronizes(
    list: Seq<MigrationView>,
    locator: Seq<char>,
    store: StoreView,
)
    requires
        acceptable(list),
        ascending(list),
        store.quiet(),
    ensures
        run(list, locator, store) == synchronized(store, list),
{
    let engine = opening(list, locator);
    lemma_drive_arrives(engine, ActionView::Open { locator }, store, engine.steps_left());
}

/// From validation on, the machine run against a store that keeps its
/// transactions ends as `concluded` states, whatever the migrations given.
pub proof fn theorem_attempt_concludes(
    given: Seq<MigrationView>,
    locator: Seq<char>,
    store: StoreView,
)
    requires
        store.quiet(),
    ensures
        attempt(given, locator, store) == concluded(store, given),
        acceptable(given) ==> attempt(given, locator, store) == run(
            validated(given)->Ok_0,
            locator,
            store,
        ),
{
    if acceptable(given) {
        lemma_arrangement_exists(given);
        theorem_run_synchronizes(validated(given)->Ok_0, locator, store);
    }
}

/// One exchange keeps the store abreast of the machine.
pub proof fn lemma_exchange_keeps_abreast(
    engine: EngineView,
    action: ActionView,
    now: StoreView,
    origin: StoreView,
)
    requires
        coupled(engine, action, now),
        abreast(engine, now, origin),
        origin.quiet(),
        !(action is Finish),
    ensures
        ({
            let (after, event) = now.respond(action);
            abreast(engine.advance(event).0, after, origin)
        }),
{
    let list = engine.migrations;
    let n = list.len();
    let read = versions(origin.ledger);
    let ready = origin.ready();
    let (after, event) = now.respond(action);
    lemma_exchange_keeps_course(engine, action, now);
    match engine.phase {
        PhaseView::Reading => {
            let k = next_pending(list, read, 0);
            lemma_next_pending(list, read, 0);
            lemma_idle_range(ready, list, read, 0, k, 0);
            if k >= n {
                assert(after.rolled_back() == interrupted(origin, list, n));
            }
        },
        PhaseView::Executing { index, statement } => {
            if !(event is Done) {
                assert(after.rolled_back() == interrupted(origin, list, index));
            }
        },
        PhaseView::Committing { index } => {
            let migration = list[index as int];
            let batch = migration.statement_batch;
            let k = next_pending(list, read, index + 1);
            lemma_next_pending(list, read, index + 1);
            assert(batch.take(batch.len() as int) =~= batch);
            assert(now.ledger + seq![row_of(migration)] =~= now.ledger.push(row_of(migration)));
            lemma_settle_in_parts(ready, list, read, 0, index, k, 0);
            lemma_idle_range(after, list, read, index + 1, k, engine.count + 1);
        },
        _ => {},
    }
}

/// Through any number of exchanges, machine and store stay fitted together
/// and the store stays abreast of the machine.
pub proof fn lemma_exchanges_keep_abreast(
    engine: EngineView,
    action: ActionView,
    now: StoreView,
    origin: StoreView,
    exchanges: nat,
)
    requires
        coupled(engine, action, now),
        abreast(engine, now, origin),
        origin.quiet(),
    ensures
        ({
            let (later, then, store) = after_exchanges(engine, action, now, exchanges);
            coupled(later, then, store) && abreast(later, store, origin)
        }),
    decreases exchanges,
{
    if exchanges > 0 && !(action is Finish) {
        lemma_exchange_keeps_course(engine, action, now);
        lemma_exchange_keeps_abreast(engine, action, now, origin);
        let (after, event) = now.respond(action);
        let (next, then) = engine.advance(event);
        lemma_exchanges_keep_abreast(next, then, after, origin, (exchanges - 1) as nat);
    }
}

/// The machine keeps its list through any number of exchanges.
pub proof fn lemma_advance_keeps_list(
    engine: EngineView,
    action: ActionView,
    store: StoreView,
    exchanges: nat,
)
    requires
        engine.wf(),
    ensures
        after_exchanges(engine, action, store, exchanges).0.migrations == engine.migrations,
        after_exchanges(engine, action, store, exchanges).0.wf(),
    decreases exchanges,
{
    if exchanges > 0 && !(action is Finish) {
        let (after, event) = store.respond(action);
        let (next, then) = engine.advance(event);
        lemma_advance_progress(engine, event);
        lemma_advance_keeps_list(next, then, after, (exchanges - 1) as nat);
    }
}

} // verus!
