//! The synchroniser: a state machine that brings a store up to a list of
//! migrations, one transaction per migration, and stops at the first failure.
//!
//! The machine performs nothing itself. It hands out an [`Action`], the caller
//! performs it against the store and reports the [`Event`] that came of it,
//! and the machine answers with the next action, until that is
//! [`Action::Finish`].

use crate::error::{Fault, MigrationError};
use crate::migration::{
    acceptable, ascending, validated, views, Direction, Migration, MigrationList, MigrationView,
};
use vstd::prelude::*;

verus! {

/// What the store made of the action that it was last handed.
#[derive(Debug, PartialEq, Eq)]
pub enum Event {
    /// The action was carried out.
    Done,
    /// The ledger was read; these are the versions recorded in it.
    Versions(Vec<i64>),
    /// The action failed.
    Failed(String),
    /// The ledger is there but does not have the structure expected of it.
    Malformed(String),
}

/// The mathematical value of an [`Event`].
pub enum EventView {
    Done,
    Versions(Seq<i64>),
    Failed(Seq<char>),
    Malformed(Seq<char>),
}

impl View for Event {
    type V = EventView;

    open spec fn view(&self) -> EventView {
        match *self {
            Event::Done => EventView::Done,
            Event::Versions(versions) => EventView::Versions(versions@),
            Event::Failed(cause) => EventView::Failed(cause@),
            Event::Malformed(cause) => EventView::Malformed(cause@),
        }
    }
}

/// What the caller is to do next.
#[derive(Debug, PartialEq, Eq)]
pub enum Action {
    /// Open the store at `locator`, creating it if it is not there.
    Open { locator: String },
    /// Create the ledger unless it exists.
    EnsureLedger,
    /// Read the versions recorded in the ledger; answer with
    /// [`Event::Versions`].
    ReadLedger,
    /// Open a transaction.
    Begin,
    /// Execute `statement` inside the open transaction.
    Execute { statement: String },
    /// Enter `version` and `description` in the ledger, inside the open
    /// transaction; the store stamps the entry with the time.
    Record { version: i64, description: String },
    /// Commit the open transaction.
    Commit,
    /// Roll the open transaction back.
    Rollback,
    /// Stop: the synchronisation ended with `outcome`, the number of
    /// migrations applied or the failure.
    Finish { outcome: Result<u64, MigrationError> },
}

/// The mathematical value of an [`Action`].
pub enum ActionView {
    Open { locator: Seq<char> },
    EnsureLedger,
    ReadLedger,
    Begin,
    Execute { statement: Seq<char> },
    Record { version: i64, description: Seq<char> },
    Commit,
    Rollback,
    Finish { outcome: Result<nat, Fault> },
}

/// The mathematical value of an outcome.
pub open spec fn outcome_view(outcome: Result<u64, MigrationError>) -> Result<nat, Fault> {
    match outcome {
        Ok(count) => Ok(count as nat),
        Err(error) => Err(error@),
    }
}

impl View for Action {
    type V = ActionView;

    open spec fn view(&self) -> ActionView {
        match *self {
            Action::Open { locator } => ActionView::Open { locator: locator@ },
            Action::EnsureLedger => ActionView::EnsureLedger,
            Action::ReadLedger => ActionView::ReadLedger,
            Action::Begin => ActionView::Begin,
            Action::Execute { statement } => ActionView::Execute { statement: statement@ },
            Action::Record { version, description } => ActionView::Record {
                version,
                description: description@,
            },
            Action::Commit => ActionView::Commit,
            Action::Rollback => ActionView::Rollback,
            Action::Finish { outcome } => ActionView::Finish { outcome: outcome_view(outcome) },
        }
    }
}

/// Where a synchronisation stands: the reply to which action it awaits.
#[derive(Debug, PartialEq, Eq)]
pub enum Phase {
    Opening,
    Bootstrapping,
    Reading,
    Beginning { index: usize },
    Executing { index: usize, statement: usize },
    Recording { index: usize },
    Committing { index: usize },
    RollingBack { error: MigrationError },
    Finished { outcome: Result<u64, MigrationError> },
}

/// The mathematical value of a [`Phase`].
pub enum PhaseView {
    /// `Open` was handed out.
    Opening,
    /// `EnsureLedger` was handed out.
    Bootstrapping,
    /// `ReadLedger` was handed out.
    Reading,
    /// `Begin` was handed out for the migration at `index`.
    Beginning { index: nat },
    /// `Execute` was handed out for statement `statement` of the migration at
    /// `index`.
    Executing { index: nat, statement: nat },
    /// `Record` was handed out for the migration at `index`.
    Recording { index: nat },
    /// `Commit` was handed out for the migration at `index`.
    Committing { index: nat },
    /// `Rollback` was handed out; `error` is reported once it is answered.
    RollingBack { error: Fault },
    /// `Finish` was handed out.
    Finished { outcome: Result<nat, Fault> },
}

impl View for Phase {
    type V = PhaseView;

    open spec fn view(&self) -> PhaseView {
        match *self {
            Phase::Opening => PhaseView::Opening,
            Phase::Bootstrapping => PhaseView::Bootstrapping,
            Phase::Reading => PhaseView::Reading,
            Phase::Beginning { index } => PhaseView::Beginning { index: index as nat },
            Phase::Executing { index, statement } => PhaseView::Executing {
                index: index as nat,
                statement: statement as nat,
            },
            Phase::Recording { index } => PhaseView::Recording { index: index as nat },
            Phase::Committing { index } => PhaseView::Committing { index: index as nat },
            Phase::RollingBack { error } => PhaseView::RollingBack { error: error@ },
            Phase::Finished { outcome } => PhaseView::Finished { outcome: outcome_view(outcome) },
        }
    }
}

/// The cause reported for a reply that does not answer the action asked.
pub open spec fn unexpected_reply() -> Seq<char> {
    "the reply does not answer the action"@
}

/// The cause that an event other than success carries.
pub open spec fn cause_of(event: EventView) -> Seq<char> {
    match event {
        EventView::Failed(cause) => cause,
        EventView::Malformed(cause) => cause,
        _ => unexpected_reply(),
    }
}

/// The failure reported when `event` ends the steps before any migration.
pub open spec fn setup_fault(event: EventView) -> Fault {
    match event {
        EventView::Malformed(cause) => Fault::LedgerCorruption { cause },
        _ => Fault::StorageAccess { cause: cause_of(event) },
    }
}

/// The failure reported when `event` ends the transaction of `version`.
pub open spec fn run_fault(version: i64, event: EventView) -> Fault {
    match event {
        EventView::Malformed(cause) => Fault::LedgerCorruption { cause },
        _ => Fault::MigrationExecution { version, cause: cause_of(event) },
    }
}

/// `migration` is still to be applied: it goes up and the ledger does not
/// hold its version.
pub open spec fn pending(migration: MigrationView, applied: Seq<i64>) -> bool {
    migration.direction == Direction::Up && !applied.contains(migration.version)
}

/// The first place at or after `from` whose migration is pending; the length
/// of the list if there is none.
pub open spec fn next_pending(list: Seq<MigrationView>, applied: Seq<i64>, from: nat) -> nat
    decreases list.len() - from,
{
    if from >= list.len() {
        list.len()
    } else if pending(list[from as int], applied) {
        from
    } else {
        next_pending(list, applied, from + 1)
    }
}

/// The mathematical value of a [`Synchronizer`].
pub struct EngineView {
    /// The validated migrations, by ascending version.
    pub migrations: Seq<MigrationView>,
    /// Where the store is.
    pub locator: Seq<char>,
    /// The versions that the ledger held when it was read.
    pub applied: Seq<i64>,
    /// The number of migrations committed so far.
    pub count: nat,
    pub phase: PhaseView,
}

impl EngineView {
    /// The indices in the phase lie inside the list, and no more migrations
    /// are counted than lie before the current one.
    pub open spec fn wf(self) -> bool {
        &&& acceptable(self.migrations)
        &&& ascending(self.migrations)
        &&& match self.phase {
            PhaseView::Opening | PhaseView::Bootstrapping | PhaseView::Reading => self.count == 0,
            PhaseView::Beginning { index } => index < self.migrations.len() && self.count <= index,
            PhaseView::Executing { index, statement } => {
                &&& index < self.migrations.len()
                &&& self.count <= index
                &&& statement < self.migrations[index as int].statement_batch.len()
            },
            PhaseView::Recording { index } => index < self.migrations.len() && self.count <= index,
            PhaseView::Committing { index } => index < self.migrations.len() && self.count
                <= index,
            PhaseView::RollingBack { .. } => true,
            PhaseView::Finished { .. } => true,
        }
    }

    /// Stop with `outcome`.
    pub open spec fn finish(self, outcome: Result<nat, Fault>) -> (EngineView, ActionView) {
        (
            EngineView { phase: PhaseView::Finished { outcome }, ..self },
            ActionView::Finish { outcome },
        )
    }

    /// Turn to the first pending migration at or after `from`, or stop with
    /// the count if there is none.
    pub open spec fn select(self, from: nat) -> (EngineView, ActionView) {
        let index = next_pending(self.migrations, self.applied, from);
        if index < self.migrations.len() {
            (EngineView { phase: PhaseView::Beginning { index }, ..self }, ActionView::Begin)
        } else {
            self.finish(Ok(self.count))
        }
    }

    /// Inside the transaction of the migration at `index`, once `statement`
    /// statements have run: execute the next one, or record the version when
    /// the batch is through.
    pub open spec fn proceed(self, index: nat, statement: nat) -> (EngineView, ActionView) {
        let migration = self.migrations[index as int];
        if statement < migration.statement_batch.len() {
            (
                EngineView { phase: PhaseView::Executing { index, statement }, ..self },
                ActionView::Execute { statement: migration.statement_batch[statement as int] },
            )
        } else {
            (
                EngineView { phase: PhaseView::Recording { index }, ..self },
                ActionView::Record {
                    version: migration.version,
                    description: migration.description,
                },
            )
        }
    }

    /// Roll the open transaction back, and report `error` afterwards.
    pub open spec fn abandon(self, error: Fault) -> (EngineView, ActionView) {
        (EngineView { phase: PhaseView::RollingBack { error }, ..self }, ActionView::Rollback)
    }

    /// The state after `event`, and the action to perform next.
    pub open spec fn advance(self, event: EventView) -> (EngineView, ActionView) {
        match self.phase {
            PhaseView::Opening => if event is Done {
                (
                    EngineView { phase: PhaseView::Bootstrapping, ..self },
                    ActionView::EnsureLedger,
                )
            } else {
                self.finish(Err(setup_fault(event)))
            },
            PhaseView::Bootstrapping => if event is Done {
                (EngineView { phase: PhaseView::Reading, ..self }, ActionView::ReadLedger)
            } else {
                self.finish(Err(setup_fault(event)))
            },
            PhaseView::Reading => match event {
                EventView::Versions(versions) => EngineView { applied: versions, ..self }.select(
                    0,
                ),
                _ => self.finish(Err(setup_fault(event))),
            },
            PhaseView::Beginning { index } => if event is Done {
                self.proceed(index, 0)
            } else {
                self.finish(Err(run_fault(self.migrations[index as int].version, event)))
            },
            PhaseView::Executing { index, statement } => if event is Done {
                self.proceed(index, statement + 1)
            } else {
                self.abandon(run_fault(self.migrations[index as int].version, event))
            },
            PhaseView::Recording { index } => if event is Done {
                (EngineView { phase: PhaseView::Committing { index }, ..self }, ActionView::Commit)
            } else {
                self.abandon(run_fault(self.migrations[index as int].version, event))
            },
            PhaseView::Committing { index } => if event is Done {
                EngineView { count: self.count + 1, ..self }.select(index + 1)
            } else {
                self.abandon(run_fault(self.migrations[index as int].version, event))
            },
            PhaseView::RollingBack { error } => self.finish(Err(error)),
            PhaseView::Finished { outcome } => self.finish(outcome),
        }
    }
}

/// `event` reports the success of the action that `phase` awaits the reply
/// to.
pub open spec fn answers(phase: PhaseView, event: EventView) -> bool {
    match phase {
        PhaseView::Reading => event is Versions,
        _ => event is Done,
    }
}

impl EngineView {
    /// The version of the migration whose transaction the phase is in, where
    /// it is in one.
    pub open spec fn current_version(self) -> i64 {
        match self.phase {
            PhaseView::Beginning { index } => self.migrations[index as int].version,
            PhaseView::Executing { index, .. } => self.migrations[index as int].version,
            PhaseView::Recording { index } => self.migrations[index as int].version,
            PhaseView::Committing { index } => self.migrations[index as int].version,
            _ => 0,
        }
    }

    /// The failure that the machine reports when `event` does not answer the
    /// action of a phase before `RollingBack`.
    pub open spec fn failure(self, event: EventView) -> Fault {
        match self.phase {
            PhaseView::Opening | PhaseView::Bootstrapping | PhaseView::Reading => setup_fault(
                event,
            ),
            _ => run_fault(self.current_version(), event),
        }
    }

    /// The machine after the replies `events`, taken in order.
    pub open spec fn after_events(self, events: Seq<EventView>) -> EngineView
        decreases events.len(),
    {
        if events.len() == 0 {
            self
        } else {
            self.advance(events[0]).0.after_events(events.drop_first())
        }
    }
}

/// An upper bound on the actions that the migrations from place `from` on
/// can still call for.
pub open spec fn remaining(list: Seq<MigrationView>, from: nat) -> nat
    decreases list.len() - from,
{
    if from >= list.len() {
        0
    } else {
        list[from as int].statement_batch.len() + 4 + remaining(list, from + 1)
    }
}

impl EngineView {
    /// An upper bound on the replies that the machine takes before it has
    /// handed out `Finish`.
    pub open spec fn steps_left(self) -> nat {
        match self.phase {
            PhaseView::Opening => remaining(self.migrations, 0) + 3,
            PhaseView::Bootstrapping => remaining(self.migrations, 0) + 2,
            PhaseView::Reading => remaining(self.migrations, 0) + 1,
            PhaseView::Beginning { index } => remaining(self.migrations, index),
            PhaseView::Executing { index, statement } => (remaining(self.migrations, index + 1)
                + self.migrations[index as int].statement_batch.len() - statement + 3) as nat,
            PhaseView::Recording { index } => remaining(self.migrations, index + 1) + 3,
            PhaseView::Committing { index } => remaining(self.migrations, index + 1) + 2,
            PhaseView::RollingBack { .. } => 1,
            PhaseView::Finished { .. } => 0,
        }
    }
}

/// Later places have less left to do.
pub proof fn lemma_remaining_falls(list: Seq<MigrationView>, from: nat, to: nat)
    requires
        from <= to,
    ensures
        remaining(list, to) <= remaining(list, from),
    decreases to - from,
{
    if from < to {
        lemma_remaining_falls(list, from + 1, to);
    }
}

/// Where the next pending migration lies.
pub proof fn lemma_next_pending(list: Seq<MigrationView>, applied: Seq<i64>, from: nat)
    requires
        from <= list.len(),
    ensures
        from <= next_pending(list, applied, from) <= list.len(),
        next_pending(list, applied, from) < list.len() ==> pending(
            list[next_pending(list, applied, from) as int],
            applied,
        ),
        forall|k: int| from <= k < next_pending(list, applied, from) ==> !pending(list[k], applied),
    decreases list.len() - from,
{
    if from < list.len() && !pending(list[from as int], applied) {
        lemma_next_pending(list, applied, from + 1);
    }
}

/// Every reply brings the machine nearer to its end: a well-formed state
/// that has not finished goes to a well-formed state with fewer steps left,
/// whatever the event.
pub proof fn lemma_advance_progress(engine: EngineView, event: EventView)
    requires
        engine.wf(),
    ensures
        engine.advance(event).0.wf(),
        !(engine.phase is Finished) ==> engine.advance(event).0.steps_left() < engine.steps_left(),
        engine.advance(event).0.migrations == engine.migrations,
        engine.advance(event).0.locator == engine.locator,
{
    let list = engine.migrations;
    match engine.phase {
        PhaseView::Reading => {
            if let EventView::Versions(versions) = event {
                lemma_remaining_falls(list, 0, next_pending(list, versions, 0));
            }
        },
        PhaseView::Committing { index } => {
            lemma_next_pending(list, engine.applied, index + 1);
            lemma_remaining_falls(list, index + 1, next_pending(list, engine.applied, index + 1));
        },
        _ => {},
    }
}

/// The first state for a list that passed validation, with `Open` handed out.
pub open spec fn opening(migrations: Seq<MigrationView>, locator: Seq<char>) -> EngineView {
    EngineView {
        migrations,
        locator,
        applied: Seq::empty(),
        count: 0,
        phase: PhaseView::Opening,
    }
}

/// The state for a list that failed validation with `error`.
pub open spec fn refused(locator: Seq<char>, error: Fault) -> EngineView {
    EngineView {
        migrations: Seq::empty(),
        locator,
        applied: Seq::empty(),
        count: 0,
        phase: PhaseView::Finished { outcome: Err(error) },
    }
}

/// The first state and action for the migrations as they were given: `Open`
/// for a list that passes validation, else `Finish` with its failure.
pub open spec fn begin(given: Seq<MigrationView>, locator: Seq<char>) -> (EngineView, ActionView) {
    match validated(given) {
        Ok(list) => (opening(list, locator), ActionView::Open { locator }),
        Err(error) => (refused(locator, error), ActionView::Finish { outcome: Err(error) }),
    }
}

/// A synchronisation in progress.
#[derive(Debug)]
pub struct Synchronizer {
    migrations: MigrationList,
    locator: String,
    applied: Vec<i64>,
    count: u64,
    phase: Phase,
}

impl View for Synchronizer {
    type V = EngineView;

    closed spec fn view(&self) -> EngineView {
        EngineView {
            migrations: self.migrations@,
            locator: self.locator@,
            applied: self.applied@,
            count: self.count as nat,
            phase: self.phase@,
        }
    }
}

/// Whether `applied` holds `version`.
fn holds(applied: &Vec<i64>, version: i64) -> (found: bool)
    ensures
        found == applied@.contains(version),
{
    let mut i: usize = 0;
    while i < applied.len()
        invariant
            i <= applied.len(),
            forall|k: int| 0 <= k < i ==> applied[k] != version,
        decreases applied.len() - i,
    {
        if applied[i] == version {
            return true;
        }
        i += 1;
    }
    false
}

/// The cause that `event` carries.
fn cause(event: Event) -> (text: String)
    ensures
        text@ == cause_of(event@),
{
    match event {
        Event::Failed(cause) => cause,
        Event::Malformed(cause) => cause,
        _ => "the reply does not answer the action".to_owned(),
    }
}

/// The error for an event that ends the steps before any migration.
fn setup_error(event: Event) -> (error: MigrationError)
    ensures
        error@ == setup_fault(event@),
{
    match event {
        Event::Malformed(cause) => MigrationError::LedgerCorruptionError { cause },
        other => MigrationError::StorageAccessError { cause: cause(other) },
    }
}

/// The error for an event that ends the transaction of `version`.
fn run_error(version: i64, event: Event) -> (error: MigrationError)
    ensures
        error@ == run_fault(version, event@),
{
    match event {
        Event::Malformed(cause) => MigrationError::LedgerCorruptionError { cause },
        other => MigrationError::MigrationExecutionError { version, cause: cause(other) },
    }
}

/// A second outcome with the same content.
fn duplicate(outcome: &Result<u64, MigrationError>) -> (copy: Result<u64, MigrationError>)
    ensures
        outcome_view(copy) == outcome_view(*outcome),
{
    match outcome {
        Ok(count) => Ok(*count),
        Err(error) => Err(error.duplicate()),
    }
}

impl Synchronizer {
    #[verifier::type_invariant]
    spec fn sound(self) -> bool {
        self@.wf()
    }

    /// Validates `migrations` and hands out the first action for the store at
    /// `locator`.
    ///
    /// A list that fails validation is refused before any action on the
    /// store: the first action is then `Finish` with `ConfigurationError`, for
    /// the version at the first offending place.
    pub fn start(migrations: Vec<Migration>, locator: String) -> (first: (Synchronizer, Action))
        ensures
            (first.0@, first.1@) == begin(views(migrations@), locator@),
            first.0@.wf(),
    {
        match MigrationList::new(migrations) {
            Ok(list) => Synchronizer::with_list(list, locator),
            Err(error) => {
                let action = Action::Finish { outcome: Err(error.duplicate()) };
                let machine = Synchronizer {
                    migrations: MigrationList::empty(),
                    locator,
                    applied: Vec::new(),
                    count: 0,
                    phase: Phase::Finished { outcome: Err(error) },
                };
                (machine, action)
            },
        }
    }

    /// Hands out the first action for the store at `locator` and a list that
    /// has passed validation.
    pub fn with_list(list: MigrationList, locator: String) -> (first: (Synchronizer, Action))
        ensures
            first.0@ == opening(list@, locator@),
            first.0@.wf(),
            first.1@ == (ActionView::Open { locator: locator@ }),
    {
        proof {
            use_type_invariant(&list);
        }
        let action = Action::Open { locator: locator.clone() };
        let machine = Synchronizer {
            migrations: list,
            locator,
            applied: Vec::new(),
            count: 0,
            phase: Phase::Opening,
        };
        (machine, action)
    }

    /// The first place at or after `from` whose migration is pending.
    fn seek(&self, from: usize) -> (index: usize)
        requires
            from <= self@.migrations.len(),
        ensures
            index == next_pending(self@.migrations, self@.applied, from as nat),
            from <= index <= self@.migrations.len(),
    {
        let mut index = from;
        while index < self.migrations.len()
            invariant
                from <= index <= self@.migrations.len(),
                next_pending(self@.migrations, self@.applied, from as nat) == next_pending(
                    self@.migrations,
                    self@.applied,
                    index as nat,
                ),
            decreases self@.migrations.len() - index,
        {
            let migration = self.migrations.get(index);
            let waits = match migration.direction {
                Direction::Up => !holds(&self.applied, migration.version),
                Direction::Down => false,
            };
            if waits {
                return index;
            }
            index += 1;
        }
        index
    }

    /// Stops with `outcome`.
    fn finish(self, outcome: Result<u64, MigrationError>) -> (next: (Synchronizer, Action))
        ensures
            (next.0@, next.1@) == self@.finish(outcome_view(outcome)),
            next.0@.wf(),
    {
        proof {
            use_type_invariant(&self);
        }
        let action = Action::Finish { outcome: duplicate(&outcome) };
        (Synchronizer { phase: Phase::Finished { outcome }, ..self }, action)
    }

    /// Turns to the first pending migration at or after `from`, with `count`
    /// migrations committed.
    fn select(self, from: usize, count: u64) -> (next: (Synchronizer, Action))
        requires
            from <= self@.migrations.len(),
            count <= from,
        ensures
            (next.0@, next.1@) == (EngineView { count: count as nat, ..self@ }).select(from as nat),
            next.0@.wf(),
    {
        proof {
            use_type_invariant(&self);
        }
        let index = self.seek(from);
        if index < self.migrations.len() {
            (Synchronizer { count, phase: Phase::Beginning { index }, ..self }, Action::Begin)
        } else {
            (
                Synchronizer { count, phase: Phase::Finished { outcome: Ok(count) }, ..self },
                Action::Finish { outcome: Ok(count) },
            )
        }
    }

    /// Goes on inside the transaction of the migration at `index`, of which
    /// `statement` statements have run.
    fn proceed(self, index: usize, statement: usize) -> (next: (Synchronizer, Action))
        requires
            index < self@.migrations.len(),
            self@.count <= index,
            statement <= self@.migrations[index as int].statement_batch.len(),
        ensures
            (next.0@, next.1@) == self@.proceed(index as nat, statement as nat),
            next.0@.wf(),
    {
        proof {
            use_type_invariant(&self);
        }
        let migration = self.migrations.get(index);
        if statement < migration.statement_batch.len() {
            let text = migration.statement_batch[statement].clone();
            let action = Action::Execute { statement: text };
            (Synchronizer { phase: Phase::Executing { index, statement }, ..self }, action)
        } else {
            let action = Action::Record {
                version: migration.version,
                description: migration.description.clone(),
            };
            (Synchronizer { phase: Phase::Recording { index }, ..self }, action)
        }
    }

    /// Rolls the open transaction back, to report `error` afterwards.
    fn abandon(self, error: MigrationError) -> (next: (Synchronizer, Action))
        ensures
            (next.0@, next.1@) == self@.abandon(error@),
            next.0@.wf(),
    {
        proof {
            use_type_invariant(&self);
        }
        (Synchronizer { phase: Phase::RollingBack { error }, ..self }, Action::Rollback)
    }

    /// The version of the migration at `index`.
    fn version_at(&self, index: usize) -> (version: i64)
        requires
            index < self@.migrations.len(),
        ensures
            version == self@.migrations[index as int].version,
    {
        self.migrations.get(index).version
    }

    /// Takes the store's reply to the action last handed out and hands out
    /// the next one.
    ///
    /// Whatever the reply, the machine goes on as [`EngineView::advance`]
    /// says: a success moves it forward, anything else ends the
    /// synchronisation, after a rollback where a transaction is open.
    pub fn step(self, event: Event) -> (next: (Synchronizer, Action))
        ensures
            (next.0@, next.1@) == self@.advance(event@),
            next.0@.wf(),
    {
        proof {
            use_type_invariant(&self);
        }
        match &self.phase {
            Phase::Opening => match event {
                Event::Done => (
                    Synchronizer { phase: Phase::Bootstrapping, ..self },
                    Action::EnsureLedger,
                ),
                other => {
                    let error = setup_error(other);
                    self.finish(Err(error))
                },
            },
            Phase::Bootstrapping => match event {
                Event::Done => (Synchronizer { phase: Phase::Reading, ..self }, Action::ReadLedger),
                other => {
                    let error = setup_error(other);
                    self.finish(Err(error))
                },
            },
            Phase::Reading => match event {
                Event::Versions(versions) => {
                    let read = Synchronizer { applied: versions, ..self };
                    read.select(0, 0)
                },
                other => {
                    let error = setup_error(other);
                    self.finish(Err(error))
                },
            },
            Phase::Beginning { index } => {
                let index = *index;
                match event {
                    Event::Done => self.proceed(index, 0),
                    other => {
                        let error = run_error(self.version_at(index), other);
                        self.finish(Err(error))
                    },
                }
            },
            Phase::Executing { index, statement } => {
                let index = *index;
                let statement = *statement;
                let width = self.migrations.get(index).statement_batch.len();
                assert(statement < width);
                match event {
                    Event::Done => self.proceed(index, statement + 1),
                    other => {
                        let error = run_error(self.version_at(index), other);
                        self.abandon(error)
                    },
                }
            },
            Phase::Recording { index } => {
                let index = *index;
                match event {
                    Event::Done => (
                        Synchronizer { phase: Phase::Committing { index }, ..self },
                        Action::Commit,
                    ),
                    other => {
                        let error = run_error(self.version_at(index), other);
                        self.abandon(error)
                    },
                }
            },
            Phase::Committing { index } => {
                let index = *index;
                match event {
                    Event::Done => {
                        let length = self.migrations.len();
                        assert(self@.count <= index < length);
                        let count = self.count + 1;
                        self.select(index + 1, count)
                    },
                    other => {
                        let error = run_error(self.version_at(index), other);
                        self.abandon(error)
                    },
                }
            },
            Phase::RollingBack { error } => {
                let outcome = Err(error.duplicate());
                self.finish(outcome)
            },
            Phase::Finished { outcome } => {
                let outcome = duplicate(outcome);
                self.finish(outcome)
            },
        }
    }

    /// Whether `Finish` has been handed out.
    pub fn is_finished(&self) -> (finished: bool)
        ensures
            finished == (self@.phase is Finished),
    {
        match &self.phase {
            Phase::Finished { .. } => true,
            _ => false,
        }
    }
}

} // verus!
