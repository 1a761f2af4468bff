//! What a synchronisation comes to: the store it leaves and the result it
//! reports, stated directly over the store, the list and the ledger, with
//! the lemmas on that statement.

use crate::engine::{lemma_next_pending, next_pending, pending};
use crate::error::Fault;
use crate::migration::{ascending, validated, MigrationView};
use crate::store::{versions, LedgerRow, StoreView};
use vstd::prelude::*;

verus! {

/// The ledger row that records `migration`.
pub open spec fn row_of(migration: MigrationView) -> LedgerRow {
    LedgerRow { version: migration.version, description: migration.description }
}

/// The first refusal met when the statements of `batch` from place `from` on
/// are executed in order, `history` being in effect before them: its cause,
/// or `None` where all are accepted.
pub open spec fn batch_fault(
    rule: spec_fn(Seq<Seq<char>>, Seq<char>) -> Option<Seq<char>>,
    history: Seq<Seq<char>>,
    batch: Seq<Seq<char>>,
    from: nat,
) -> Option<Seq<char>>
    decreases batch.len() - from,
{
    if from >= batch.len() {
        None
    } else {
        match rule(history, batch[from as int]) {
            Some(cause) => Some(cause),
            None => batch_fault(rule, history.push(batch[from as int]), batch, from + 1),
        }
    }
}

/// One migration, applied as a unit: where its whole batch is accepted, the
/// statements and the ledger row are in the store; where a statement is
/// refused, the store is as it was, and the cause is returned.
pub open spec fn settle(store: StoreView, migration: MigrationView) -> (
    StoreView,
    Option<Seq<char>>,
) {
    match batch_fault(store.rule, store.schema, migration.statement_batch, 0) {
        Some(cause) => (store, Some(cause)),
        None => (store.with_migration(migration.statement_batch, row_of(migration)), None),
    }
}

/// The migrations at the places from `lo` up to `hi`, in order: each pending
/// one is settled, the others are passed over, and the first failure ends it.
/// `count` is the number applied before `lo`.
pub open spec fn settle_range(
    store: StoreView,
    list: Seq<MigrationView>,
    applied: Seq<i64>,
    lo: nat,
    hi: nat,
    count: nat,
) -> (StoreView, Result<nat, Fault>)
    decreases hi - lo,
{
    if lo >= hi {
        (store, Ok(count))
    } else if !pending(list[lo as int], applied) {
        settle_range(store, list, applied, lo + 1, hi, count)
    } else {
        match settle(store, list[lo as int]) {
            (next, None) => settle_range(next, list, applied, lo + 1, hi, count + 1),
            (next, Some(cause)) => (
                next,
                Err(Fault::MigrationExecution { version: list[lo as int].version, cause }),
            ),
        }
    }
}

/// What synchronising `store` with `list` comes to: the ledger is created,
/// and every migration that the ledger does not hold is settled, in order,
/// up to the first failure.
pub open spec fn synchronized(store: StoreView, list: Seq<MigrationView>) -> (
    StoreView,
    Result<nat, Fault>,
) {
    settle_range(store.ready(), list, versions(store.ledger), 0, list.len(), 0)
}

/// What a synchronisation with the migrations as they were given comes to: a
/// list that fails validation leaves the store as it is.
pub open spec fn concluded(store: StoreView, given: Seq<MigrationView>) -> (
    StoreView,
    Result<nat, Fault>,
) {
    match validated(given) {
        Ok(list) => synchronized(store, list),
        Err(error) => (store, Err(error)),
    }
}

/// The place in `lo..hi` at which [`settle_range`] stops: that of the first
/// pending migration whose batch is refused, or `hi` where none is.
pub open spec fn breaks_at(
    store: StoreView,
    list: Seq<MigrationView>,
    applied: Seq<i64>,
    lo: nat,
    hi: nat,
) -> nat
    decreases hi - lo,
{
    if lo >= hi {
        hi
    } else if !pending(list[lo as int], applied) {
        breaks_at(store, list, applied, lo + 1, hi)
    } else {
        match settle(store, list[lo as int]) {
            (next, None) => breaks_at(next, list, applied, lo + 1, hi),
            (_, Some(_)) => lo,
        }
    }
}

/// The versions of the pending migrations at the places from `lo` up to
/// `hi`, in order.
pub open spec fn chosen(list: Seq<MigrationView>, applied: Seq<i64>, lo: nat, hi: nat) -> Seq<i64>
    decreases hi - lo,
{
    if lo >= hi {
        Seq::empty()
    } else if pending(list[lo as int], applied) {
        seq![list[lo as int].version] + chosen(list, applied, lo + 1, hi)
    } else {
        chosen(list, applied, lo + 1, hi)
    }
}

/// The statements of the pending migrations at the places from `lo` up to
/// `hi`, in order.
pub open spec fn gathered(list: Seq<MigrationView>, applied: Seq<i64>, lo: nat, hi: nat) -> Seq<
    Seq<char>,
>
    decreases hi - lo,
{
    if lo >= hi {
        Seq::empty()
    } else if pending(list[lo as int], applied) {
        list[lo as int].statement_batch + gathered(list, applied, lo + 1, hi)
    } else {
        gathered(list, applied, lo + 1, hi)
    }
}

/// `short` is the beginning of `long`.
pub open spec fn begins<A>(long: Seq<A>, short: Seq<A>) -> bool {
    short.len() <= long.len() && long.take(short.len() as int) == short
}

/// The store of a synchronisation that was cut off when the first `upto`
/// places of the list had been dealt with. What a transaction in flight had
/// done is lost with it, so nothing of a later place is in this store.
pub open spec fn interrupted(store: StoreView, list: Seq<MigrationView>, upto: nat) -> StoreView {
    settle_range(store.ready(), list, versions(store.ledger), 0, upto, 0).0
}

/// Places that hold nothing pending change nothing.
pub proof fn lemma_settle_passes_over(
    store: StoreView,
    list: Seq<MigrationView>,
    applied: Seq<i64>,
    lo: nat,
    hi: nat,
    count: nat,
)
    requires
        lo <= hi <= list.len(),
    ensures
        settle_range(store, list, applied, lo, hi, count) == if next_pending(list, applied, lo)
            < hi {
            settle_range(store, list, applied, next_pending(list, applied, lo), hi, count)
        } else {
            (store, Ok(count))
        },
    decreases hi - lo,
{
    if lo < hi && !pending(list[lo as int], applied) {
        lemma_settle_passes_over(store, list, applied, lo + 1, hi, count);
    } else if lo >= hi {
        lemma_next_pending(list, applied, lo);
    }
}

/// Places that hold nothing pending are passed over.
pub proof fn lemma_nothing_pending(
    store: StoreView,
    list: Seq<MigrationView>,
    applied: Seq<i64>,
    lo: nat,
    mid: nat,
    hi: nat,
    count: nat,
)
    requires
        lo <= mid <= hi <= list.len(),
        forall|j: int| lo <= j < mid ==> !pending(list[j], applied),
    ensures
        settle_range(store, list, applied, lo, hi, count) == settle_range(
            store,
            list,
            applied,
            mid,
            hi,
            count,
        ),
    decreases mid - lo,
{
    if lo < mid {
        lemma_nothing_pending(store, list, applied, lo + 1, mid, hi, count);
    }
}

/// A range without anything pending leaves the store as it is.
pub proof fn lemma_idle_range(
    store: StoreView,
    list: Seq<MigrationView>,
    applied: Seq<i64>,
    lo: nat,
    hi: nat,
    count: nat,
)
    requires
        lo <= hi <= list.len(),
        forall|j: int| lo <= j < hi ==> !pending(list[j], applied),
    ensures
        settle_range(store, list, applied, lo, hi, count) == (store, Ok::<nat, Fault>(count)),
{
    lemma_nothing_pending(store, list, applied, lo, hi, hi, count);
}

/// Two readings of the ledger under which the same places are pending lead
/// to the same store, the same failure, and the same number applied.
pub proof fn lemma_same_pending(
    store: StoreView,
    list: Seq<MigrationView>,
    first: Seq<i64>,
    second: Seq<i64>,
    lo: nat,
    hi: nat,
    count: nat,
    other: nat,
)
    requires
        lo <= hi <= list.len(),
        forall|j: int| lo <= j < hi ==> pending(list[j], first) == pending(list[j], second),
    ensures
        ({
            let one = settle_range(store, list, first, lo, hi, count);
            let two = settle_range(store, list, second, lo, hi, other);
            &&& one.0 == two.0
            &&& match one.1 {
                Ok(n) => two.1 is Ok && n - count == two.1->Ok_0 - other,
                Err(error) => two.1 == Err::<nat, Fault>(error),
            }
        }),
    decreases hi - lo,
{
    if lo < hi {
        if !pending(list[lo as int], first) {
            lemma_same_pending(store, list, first, second, lo + 1, hi, count, other);
        } else {
            match settle(store, list[lo as int]) {
                (next, None) => {
                    lemma_same_pending(next, list, first, second, lo + 1, hi, count + 1, other + 1);
                },
                (next, Some(cause)) => {},
            }
        }
    }
}

/// A range is settled by settling its first part and then, unless that
/// failed, the rest.
pub proof fn lemma_settle_in_parts(
    store: StoreView,
    list: Seq<MigrationView>,
    applied: Seq<i64>,
    lo: nat,
    mid: nat,
    hi: nat,
    count: nat,
)
    requires
        lo <= mid <= hi <= list.len(),
    ensures
        settle_range(store, list, applied, lo, hi, count) == match settle_range(
            store,
            list,
            applied,
            lo,
            mid,
            count,
        ) {
            (between, Ok(sofar)) => settle_range(between, list, applied, mid, hi, sofar),
            (between, Err(error)) => (between, Err(error)),
        },
    decreases mid - lo,
{
    if lo < mid {
        if !pending(list[lo as int], applied) {
            lemma_settle_in_parts(store, list, applied, lo + 1, mid, hi, count);
        } else {
            match settle(store, list[lo as int]) {
                (next, None) => {
                    lemma_settle_in_parts(next, list, applied, lo + 1, mid, hi, count + 1);
                },
                (next, Some(cause)) => {},
            }
        }
    }
}

/// A version is among the chosen exactly when a pending migration in the
/// range has it.
pub proof fn lemma_chosen_contains(
    list: Seq<MigrationView>,
    applied: Seq<i64>,
    lo: nat,
    hi: nat,
    version: i64,
)
    requires
        lo <= hi <= list.len(),
    ensures
        chosen(list, applied, lo, hi).contains(version) <==> exists|j: int|
            lo <= j < hi && pending(list[j], applied) && list[j].version == version,
    decreases hi - lo,
{
    let all = chosen(list, applied, lo, hi);
    if lo < hi {
        let rest = chosen(list, applied, lo + 1, hi);
        lemma_chosen_contains(list, applied, lo + 1, hi, version);
        if pending(list[lo as int], applied) {
            if exists|j: int|
                lo <= j < hi && pending(list[j], applied) && list[j].version == version {
                let j = choose|j: int|
                    lo <= j < hi && pending(list[j], applied) && list[j].version == version;
                if j == lo {
                    assert(all[0] == version);
                } else {
                    let i = choose|i: int| 0 <= i < rest.len() && rest[i] == version;
                    assert(all[i + 1] == version);
                }
            }
        }
    }
}

/// The chosen versions rise strictly, as the list does.
pub proof fn lemma_chosen_ascends(
    list: Seq<MigrationView>,
    applied: Seq<i64>,
    lo: nat,
    hi: nat,
)
    requires
        ascending(list),
        lo <= hi <= list.len(),
    ensures
        forall|i: int, j: int|
            0 <= i < j < chosen(list, applied, lo, hi).len() ==> chosen(list, applied, lo, hi)[i]
                < chosen(list, applied, lo, hi)[j],
    decreases hi - lo,
{
    if lo < hi {
        lemma_chosen_ascends(list, applied, lo + 1, hi);
        let all = chosen(list, applied, lo, hi);
        let rest = chosen(list, applied, lo + 1, hi);
        if pending(list[lo as int], applied) {
            assert forall|i: int, j: int| 0 <= i < j < all.len() implies all[i] < all[j] by {
                if i == 0 {
                    lemma_chosen_contains(list, applied, lo + 1, hi, rest[j - 1]);
                }
            }
        }
    }
}

/// How [`settle_range`] leaves the store: quiet, under the same rule, with
/// the versions chosen up to the place of the break added to the ledger and
/// their statements to the schema; and what it reports.
pub proof fn lemma_settle_range_shape(
    store: StoreView,
    list: Seq<MigrationView>,
    applied: Seq<i64>,
    lo: nat,
    hi: nat,
    count: nat,
)
    requires
        lo <= hi <= list.len(),
        store.quiet(),
    ensures
        ({
            let (after, outcome) = settle_range(store, list, applied, lo, hi, count);
            let at = breaks_at(store, list, applied, lo, hi);
            &&& lo <= at <= hi
            &&& after.quiet()
            &&& after.rule == store.rule
            &&& after.ledger_ready == store.ledger_ready
            &&& begins(after.ledger, store.ledger)
            &&& begins(after.schema, store.schema)
            &&& versions(after.ledger) == versions(store.ledger) + chosen(list, applied, lo, at)
            &&& after.schema == store.schema + gathered(list, applied, lo, at)
            &&& at == hi ==> outcome == Ok::<nat, Fault>(
                count + chosen(list, applied, lo, at).len(),
            )
            &&& at < hi ==> {
                &&& pending(list[at as int], applied)
                &&& settle(after, list[at as int]).1 is Some
                &&& outcome == Err::<nat, Fault>(
                    Fault::MigrationExecution {
                        version: list[at as int].version,
                        cause: settle(after, list[at as int]).1->Some_0,
                    },
                )
            }
        }),
    decreases hi - lo,
{
    let after = settle_range(store, list, applied, lo, hi, count).0;
    if lo >= hi {
        assert(store.ledger.take(store.ledger.len() as int) =~= store.ledger);
        assert(store.schema.take(store.schema.len() as int) =~= store.schema);
    } else if !pending(list[lo as int], applied) {
        lemma_settle_range_shape(store, list, applied, lo + 1, hi, count);
    } else {
        let migration = list[lo as int];
        match settle(store, migration) {
            (next, None) => {
                lemma_settle_range_shape(next, list, applied, lo + 1, hi, count + 1);
                assert(after.ledger.take(store.ledger.len() as int) =~= store.ledger) by {
                }
                assert(after.schema.take(store.schema.len() as int) =~= store.schema) by {
                }
            },
            (next, Some(cause)) => {
                assert(store.ledger.take(store.ledger.len() as int) =~= store.ledger);
                assert(store.schema.take(store.schema.len() as int) =~= store.schema);
            },
        }
    }
}

} // verus!
