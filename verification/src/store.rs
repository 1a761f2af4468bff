//! The store as the engine sees it: a ledger, a schema, and transactions that
//! either commit whole or leave nothing behind.

use crate::engine::{Action, ActionView, Event, EventView};
use crate::migration::texts;
use vstd::prelude::*;

verus! {

/// One row of the ledger: a version that was applied, with its description.
/// The time of the entry is the store's own and has no part in any decision.
pub struct LedgerRow {
    pub version: i64,
    pub description: Seq<char>,
}

/// The versions of a sequence of ledger rows, in their order.
pub open spec fn versions(rows: Seq<LedgerRow>) -> Seq<i64> {
    rows.map_values(|row: LedgerRow| row.version)
}

/// What an open transaction has done so far.
pub struct Staged {
    pub statements: Seq<Seq<char>>,
    pub rows: Seq<LedgerRow>,
}

/// A store that keeps its transactions.
pub struct StoreView {
    /// Whether the ledger has been created.
    pub ledger_ready: bool,
    /// The committed rows of the ledger, oldest first.
    pub ledger: Seq<LedgerRow>,
    /// The committed statements, oldest first.
    pub schema: Seq<Seq<char>>,
    /// The open transaction, if there is one.
    pub staged: Option<Staged>,
    /// By which the store refuses a statement: given the statements in
    /// effect and the one to execute, the cause of the refusal, or `None`
    /// where the statement is accepted.
    pub rule: spec_fn(Seq<Seq<char>>, Seq<char>) -> Option<Seq<char>>,
}

/// The cause reported for `Begin` inside a transaction.
pub open spec fn nested_transaction() -> Seq<char> {
    "a transaction is already open"@
}

/// The cause reported for `Commit` or `Rollback` outside a transaction.
pub open spec fn no_transaction() -> Seq<char> {
    "no transaction is open"@
}

impl StoreView {
    /// No transaction is open.
    pub open spec fn quiet(self) -> bool {
        self.staged is None
    }

    /// The store with its ledger created.
    pub open spec fn ready(self) -> StoreView {
        StoreView { ledger_ready: true, ..self }
    }

    /// The store once the open transaction, if any, is lost: by a rollback,
    /// or because the process ended.
    pub open spec fn rolled_back(self) -> StoreView {
        StoreView { staged: None, ..self }
    }

    /// The store once `statements` and `row` have been committed together.
    pub open spec fn with_migration(self, statements: Seq<Seq<char>>, row: LedgerRow) -> StoreView {
        StoreView {
            schema: self.schema + statements,
            ledger: self.ledger.push(row),
            staged: None,
            ..self
        }
    }

    /// What the store does with `action`: the store afterwards, and its
    /// reply.
    pub open spec fn respond(self, action: ActionView) -> (StoreView, EventView) {
        match action {
            ActionView::Open { .. } => (self, EventView::Done),
            ActionView::EnsureLedger => (self.ready(), EventView::Done),
            ActionView::ReadLedger => (self, EventView::Versions(versions(self.ledger))),
            ActionView::Begin => match self.staged {
                Some(_) => (self, EventView::Failed(nested_transaction())),
                None => (
                    StoreView {
                        staged: Some(Staged { statements: Seq::empty(), rows: Seq::empty() }),
                        ..self
                    },
                    EventView::Done,
                ),
            },
            ActionView::Execute { statement } => match self.staged {
                Some(staged) => match (self.rule)(self.schema + staged.statements, statement) {
                    Some(cause) => (self, EventView::Failed(cause)),
                    None => (
                        StoreView {
                            staged: Some(
                                Staged { statements: staged.statements.push(statement), ..staged },
                            ),
                            ..self
                        },
                        EventView::Done,
                    ),
                },
                None => match (self.rule)(self.schema, statement) {
                    Some(cause) => (self, EventView::Failed(cause)),
                    None => (
                        StoreView { schema: self.schema.push(statement), ..self },
                        EventView::Done,
                    ),
                },
            },
            ActionView::Record { version, description } => {
                let row = LedgerRow { version, description };
                match self.staged {
                    Some(staged) => (
                        StoreView {
                            staged: Some(Staged { rows: staged.rows.push(row), ..staged }),
                            ..self
                        },
                        EventView::Done,
                    ),
                    None => (StoreView { ledger: self.ledger.push(row), ..self }, EventView::Done),
                }
            },
            ActionView::Commit => match self.staged {
                Some(staged) => (
                    StoreView {
                        schema: self.schema + staged.statements,
                        ledger: self.ledger + staged.rows,
                        staged: None,
                        ..self
                    },
                    EventView::Done,
                ),
                None => (self, EventView::Failed(no_transaction())),
            },
            ActionView::Rollback => match self.staged {
                Some(_) => (self.rolled_back(), EventView::Done),
                None => (self, EventView::Failed(no_transaction())),
            },
            ActionView::Finish { .. } => (self, EventView::Done),
        }
    }
}

/// One row of the ledger of a [`MemoryStore`].
#[derive(Debug, PartialEq, Eq)]
pub struct LedgerEntry {
    pub version: i64,
    pub description: String,
}

impl View for LedgerEntry {
    type V = LedgerRow;

    open spec fn view(&self) -> LedgerRow {
        LedgerRow { version: self.version, description: self.description@ }
    }
}

/// The values of a sequence of ledger entries.
pub open spec fn rows(entries: Seq<LedgerEntry>) -> Seq<LedgerRow> {
    entries.map_values(|entry: LedgerEntry| entry@)
}

/// The cause with which a [`MemoryStore`] refuses a statement.
pub open spec fn refusal() -> Seq<char> {
    "the statement is refused"@
}

/// The rule of a store that refuses the statements in `refused`, whatever is
/// in effect, and accepts every other.
pub open spec fn refusing(refused: Seq<Seq<char>>) -> spec_fn(Seq<Seq<char>>, Seq<char>) -> Option<
    Seq<char>,
> {
    |history: Seq<Seq<char>>, statement: Seq<char>|
        if refused.contains(statement) {
            Some(refusal())
        } else {
            None::<Seq<char>>
        }
}

/// The store that holds nothing and goes by `rule`.
pub open spec fn blank(rule: spec_fn(Seq<Seq<char>>, Seq<char>) -> Option<Seq<char>>) -> StoreView {
    StoreView {
        ledger_ready: false,
        ledger: Seq::empty(),
        schema: Seq::empty(),
        staged: None,
        rule,
    }
}

/// A store in memory that keeps its transactions. It holds the statements
/// that were committed as text, and refuses the statements it was told to
/// refuse.
#[derive(Debug)]
pub struct MemoryStore {
    ledger_ready: bool,
    ledger: Vec<LedgerEntry>,
    schema: Vec<String>,
    open: bool,
    staged_statements: Vec<String>,
    staged_rows: Vec<LedgerEntry>,
    refused: Vec<String>,
}

impl View for MemoryStore {
    type V = StoreView;

    closed spec fn view(&self) -> StoreView {
        StoreView {
            ledger_ready: self.ledger_ready,
            ledger: rows(self.ledger@),
            schema: texts(self.schema@),
            staged: if self.open {
                Some(
                    Staged {
                        statements: texts(self.staged_statements@),
                        rows: rows(self.staged_rows@),
                    },
                )
            } else {
                None
            },
            rule: refusing(texts(self.refused@)),
        }
    }
}

/// Whether `strings` holds `text`.
fn holds_text(strings: &Vec<String>, text: &String) -> (found: bool)
    ensures
        found == texts(strings@).contains(text@),
{
    let mut i: usize = 0;
    while i < strings.len()
        invariant
            i <= strings.len(),
            forall|k: int| 0 <= k < i ==> texts(strings@)[k] != text@,
        decreases strings.len() - i,
    {
        if strings[i] == *text {
            assert(texts(strings@)[i as int] == text@);
            return true;
        }
        i += 1;
    }
    false
}

impl MemoryStore {
    /// A store that holds nothing and refuses no statement.
    pub fn new() -> (store: MemoryStore)
        ensures
            store@ == blank(refusing(Seq::empty())),
    {
        let none: Vec<String> = Vec::new();
        assert(texts(none@) =~= Seq::empty());
        MemoryStore::refusing(none)
    }

    /// A store that holds nothing and refuses the statements in `refused`.
    pub fn refusing(refused: Vec<String>) -> (store: MemoryStore)
        ensures
            store@ == blank(refusing(texts(refused@))),
    {
        let store = MemoryStore {
            ledger_ready: false,
            ledger: Vec::new(),
            schema: Vec::new(),
            open: false,
            staged_statements: Vec::new(),
            staged_rows: Vec::new(),
            refused,
        };
        assert(rows(store.ledger@) =~= Seq::empty());
        assert(texts(store.schema@) =~= Seq::empty());
        store
    }

    /// Whether the ledger has been created.
    pub fn has_ledger(&self) -> (ready: bool)
        ensures
            ready == self@.ledger_ready,
    {
        self.ledger_ready
    }

    /// Whether a transaction is open.
    pub fn in_transaction(&self) -> (open: bool)
        ensures
            open == !self@.quiet(),
    {
        self.open
    }

    /// The committed rows of the ledger, oldest first.
    pub fn ledger(&self) -> (entries: &Vec<LedgerEntry>)
        ensures
            rows(entries@) == self@.ledger,
    {
        &self.ledger
    }

    /// The committed statements, oldest first.
    pub fn schema(&self) -> (statements: &Vec<String>)
        ensures
            texts(statements@) == self@.schema,
    {
        &self.schema
    }

    /// The versions in the committed ledger, oldest first.
    pub fn ledger_versions(&self) -> (found: Vec<i64>)
        ensures
            found@ == versions(self@.ledger),
    {
        let mut found: Vec<i64> = Vec::new();
        let mut i: usize = 0;
        while i < self.ledger.len()
            invariant
                i <= self.ledger.len(),
                found@ == versions(rows(self.ledger@)).take(i as int),
            decreases self.ledger.len() - i,
        {
            found.push(self.ledger[i].version);
            i += 1;
        }
        found
    }

    /// Loses the open transaction, if there is one, as the end of the process
    /// would.
    pub fn interrupt(&mut self)
        ensures
            final(self)@ == old(self)@.rolled_back(),
    {
        self.open = false;
    }

    /// Carries out `action` and replies.
    pub fn perform(&mut self, action: &Action) -> (event: Event)
        ensures
            (final(self)@, event@) == old(self)@.respond(action@),
    {
        match action {
            Action::Open { .. } => Event::Done,
            Action::EnsureLedger => {
                self.ledger_ready = true;
                Event::Done
            },
            Action::ReadLedger => Event::Versions(self.ledger_versions()),
            Action::Begin => {
                if self.open {
                    Event::Failed("a transaction is already open".to_owned())
                } else {
                    self.staged_statements = Vec::new();
                    self.staged_rows = Vec::new();
                    self.open = true;
                    assert(texts(self.staged_statements@) =~= Seq::empty());
                    assert(rows(self.staged_rows@) =~= Seq::empty());
                    Event::Done
                }
            },
            Action::Execute { statement } => {
                if holds_text(&self.refused, statement) {
                    Event::Failed("the statement is refused".to_owned())
                } else if self.open {
                    let ghost before = self.staged_statements@;
                    self.staged_statements.push(statement.clone());
                    assert(texts(self.staged_statements@) =~= texts(before).push(statement@));
                    Event::Done
                } else {
                    let ghost before = self.schema@;
                    self.schema.push(statement.clone());
                    assert(texts(self.schema@) =~= texts(before).push(statement@));
                    Event::Done
                }
            },
            Action::Record { version, description } => {
                let entry = LedgerEntry { version: *version, description: description.clone() };
                if self.open {
                    let ghost before = self.staged_rows@;
                    self.staged_rows.push(entry);
                    assert(rows(self.staged_rows@) =~= rows(before).push(entry@));
                } else {
                    let ghost before = self.ledger@;
                    self.ledger.push(entry);
                    assert(rows(self.ledger@) =~= rows(before).push(entry@));
                }
                Event::Done
            },
            Action::Commit => {
                if self.open {
                    let ghost schema = self.schema@;
                    let ghost ledger = self.ledger@;
                    let ghost statements = self.staged_statements@;
                    let ghost entries = self.staged_rows@;
                    self.schema.append(&mut self.staged_statements);
                    self.ledger.append(&mut self.staged_rows);
                    self.open = false;
                    assert(texts(self.schema@) =~= texts(schema) + texts(statements));
                    assert(rows(self.ledger@) =~= rows(ledger) + rows(entries));
                    Event::Done
                } else {
                    Event::Failed("no transaction is open".to_owned())
                }
            },
            Action::Rollback => {
                if self.open {
                    self.open = false;
                    Event::Done
                } else {
                    Event::Failed("no transaction is open".to_owned())
                }
            },
            Action::Finish { .. } => Event::Done,
        }
    }
}

} // verus!
