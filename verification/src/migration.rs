//! Migrations and the validated, ordered list of them.

use crate::error::{Fault, MigrationError};
use vstd::prelude::*;

verus! {

/// Whether a migration brings a schema change in or takes it out.
#[derive(Clone, Copy, Debug, PartialEq, Eq, Structural)]
pub enum Direction {
    Up,
    Down,
}

/// One versioned unit of schema change.
#[derive(Debug, PartialEq, Eq)]
pub struct Migration {
    pub version: i64,
    pub description: String,
    pub statement_batch: Vec<String>,
    pub direction: Direction,
}

/// The mathematical value of a [`Migration`].
pub struct MigrationView {
    pub version: i64,
    pub description: Seq<char>,
    pub statement_batch: Seq<Seq<char>>,
    pub direction: Direction,
}

/// The texts of a sequence of strings.
pub open spec fn texts(strings: Seq<String>) -> Seq<Seq<char>> {
    strings.map_values(|s: String| s@)
}

impl View for Migration {
    type V = MigrationView;

    open spec fn view(&self) -> MigrationView {
        MigrationView {
            version: self.version,
            description: self.description@,
            statement_batch: texts(self.statement_batch@),
            direction: self.direction,
        }
    }
}

/// The values of a sequence of migrations.
pub open spec fn views(migrations: Seq<Migration>) -> Seq<MigrationView> {
    migrations.map_values(|m: Migration| m@)
}

/// The entry at `i` cannot stand in a list: its version is below one, or an
/// earlier entry has the same version.
pub open spec fn offends(list: Seq<MigrationView>, i: int) -> bool {
    list[i].version < 1 || exists|j: int| 0 <= j < i && list[j].version == list[i].version
}

/// `i` is the first place of `list` whose entry offends.
pub open spec fn first_offender(list: Seq<MigrationView>, i: int) -> bool {
    &&& 0 <= i < list.len()
    &&& offends(list, i)
    &&& forall|k: int| 0 <= k < i ==> !offends(list, k)
}

/// Every version is at least one and none occurs twice.
pub open spec fn acceptable(list: Seq<MigrationView>) -> bool {
    forall|i: int| 0 <= i < list.len() ==> !offends(list, i)
}

/// Versions rise strictly from each entry to the next.
pub open spec fn ascending(list: Seq<MigrationView>) -> bool {
    forall|i: int, j: int| 0 <= i < j < list.len() ==> list[i].version < list[j].version
}

/// `ordered` holds the entries of `given`, all of them and no others, by
/// ascending version.
pub open spec fn arranges(ordered: Seq<MigrationView>, given: Seq<MigrationView>) -> bool {
    &&& ascending(ordered)
    &&& ordered.len() == given.len()
    &&& forall|i: int| 0 <= i < given.len() ==> ordered.contains(#[trigger] given[i])
}

/// The entries of `given` by ascending version. It is determined where
/// `given` is acceptable: see [`lemma_arrangement_is_unique`].
pub open spec fn arrangement(given: Seq<MigrationView>) -> Seq<MigrationView> {
    choose|ordered: Seq<MigrationView>| arranges(ordered, given)
}

/// The first place of `list` whose entry offends, where there is one.
pub open spec fn first_offence(list: Seq<MigrationView>) -> int {
    choose|i: int| first_offender(list, i)
}

/// What validation makes of `given`: its arrangement, or the failure that
/// names the version at the first offending place.
pub open spec fn validated(given: Seq<MigrationView>) -> Result<Seq<MigrationView>, Fault> {
    if acceptable(given) {
        Ok(arrangement(given))
    } else {
        Err(Fault::Configuration { version: given[first_offence(given)].version })
    }
}

/// Two ascending lists of one length that hold the same entries are one
/// list.
pub proof fn lemma_ascending_lists_agree(first: Seq<MigrationView>, second: Seq<MigrationView>)
    requires
        ascending(first),
        ascending(second),
        first.len() == second.len(),
        forall|entry: MigrationView| first.contains(entry) <==> second.contains(entry),
    ensures
        first == second,
    decreases first.len(),
{
    if first.len() > 0 {
        let last = first.len() - 1;
        assert(first.contains(first[last]));
        assert(second.contains(second[last]));
        let head = first.drop_last();
        let other = second.drop_last();
        assert forall|entry: MigrationView| head.contains(entry) <==> other.contains(entry) by {
            if head.contains(entry) {
                assert(first.contains(entry));
                let m = choose|m: int| 0 <= m < second.len() && second[m] == entry;
                assert(other[m] == entry);
            }
            if other.contains(entry) {
                assert(second.contains(entry));
                let m = choose|m: int| 0 <= m < first.len() && first[m] == entry;
                assert(head[m] == entry);
            }
        }
        lemma_ascending_lists_agree(head, other);
        assert(first =~= head.push(first[last]));
    }
}

/// An arrangement holds the given entries and no others.
pub proof fn lemma_arrangement_holds_no_others(
    ordered: Seq<MigrationView>,
    given: Seq<MigrationView>,
)
    requires
        acceptable(given),
        arranges(ordered, given),
    ensures
        forall|entry: MigrationView| ordered.contains(entry) <==> given.contains(entry),
{
    assert forall|i: int, j: int| 0 <= i < given.len() && 0 <= j < given.len() && i
        != j implies given[i] != given[j] by {
        if i < j {
            assert(!offends(given, j));
        } else {
            assert(!offends(given, i));
        }
    }
    given.unique_seq_to_set();
    ordered.unique_seq_to_set();
    vstd::set_lib::lemma_subset_equality(given.to_set(), ordered.to_set());
    assert forall|entry: MigrationView| ordered.contains(entry) <==> given.contains(entry) by {
        assert(ordered.to_set().contains(entry) <==> given.to_set().contains(entry));
    }
}

/// What `arranges` asks for is met by one list only: the order of an
/// acceptable list is determined.
pub proof fn lemma_arrangement_is_unique(
    first: Seq<MigrationView>,
    second: Seq<MigrationView>,
    given: Seq<MigrationView>,
)
    requires
        acceptable(given),
        arranges(first, given),
        arranges(second, given),
    ensures
        first == second,
{
    lemma_arrangement_holds_no_others(first, given);
    lemma_arrangement_holds_no_others(second, given);
    lemma_ascending_lists_agree(first, second);
}

/// Where an entry offends, some entry is the first to offend.
pub proof fn lemma_least_offender(list: Seq<MigrationView>, i: int)
    requires
        0 <= i < list.len(),
        offends(list, i),
    ensures
        first_offender(list, first_offence(list)),
    decreases i,
{
    if exists|k: int| 0 <= k < i && offends(list, k) {
        let k = choose|k: int| 0 <= k < i && offends(list, k);
        lemma_least_offender(list, k);
    } else {
        assert(first_offender(list, i));
    }
}

/// A list that is not acceptable has a first offending place.
pub proof fn lemma_first_offender_exists(list: Seq<MigrationView>)
    requires
        !acceptable(list),
    ensures
        first_offender(list, first_offence(list)),
{
    let i = choose|i: int| 0 <= i < list.len() && offends(list, i);
    lemma_least_offender(list, i);
}

/// The number of entries at the beginning of `list` whose version is below
/// `version`: the place at which an entry with `version` enters an ascending
/// list.
pub open spec fn rank(list: Seq<MigrationView>, version: i64) -> nat
    decreases list.len(),
{
    if list.len() == 0 {
        0
    } else if list.last().version < version {
        list.len()
    } else {
        rank(list.drop_last(), version)
    }
}

/// In an ascending list the entries before the rank of a version lie below
/// it, and the others do not.
pub proof fn lemma_rank_divides(list: Seq<MigrationView>, version: i64)
    requires
        ascending(list),
    ensures
        rank(list, version) <= list.len(),
        forall|i: int| 0 <= i < rank(list, version) ==> list[i].version < version,
        forall|i: int| rank(list, version) <= i < list.len() ==> list[i].version >= version,
    decreases list.len(),
{
    if list.len() > 0 {
        let last = list.len() - 1;
        if list.last().version >= version {
            let head = list.drop_last();
            lemma_rank_divides(head, version);
            assert forall|i: int| 0 <= i < rank(list, version) implies list[i].version
                < version by {
                assert(head[i].version < version);
            }
            assert forall|i: int| rank(list, version) <= i < list.len() implies list[i].version
                >= version by {
                if i < last {
                    assert(head[i].version >= version);
                }
            }
        }
    }
}

/// Every acceptable list has an arrangement, and the arrangement is
/// acceptable too.
pub proof fn lemma_arrangement_exists(given: Seq<MigrationView>)
    requires
        acceptable(given),
    ensures
        arranges(arrangement(given), given),
        acceptable(arrangement(given)),
    decreases given.len(),
{
    if given.len() == 0 {
        assert(arranges(Seq::<MigrationView>::empty(), given));
    } else {
        let head = given.drop_last();
        let entry = given.last();
        let last = given.len() - 1;
        assert(acceptable(head)) by {
            assert forall|i: int| 0 <= i < head.len() implies !offends(head, i) by {
                assert(!offends(given, i));
            }
        }
        lemma_arrangement_exists(head);
        let ordered = arrangement(head);
        lemma_arrangement_holds_no_others(ordered, head);
        lemma_rank_divides(ordered, entry.version);
        let at = rank(ordered, entry.version) as int;
        let next = ordered.insert(at, entry);
        ordered.insert_ensures(at, entry);
        assert(!offends(given, last));
        assert forall|i: int| 0 <= i < ordered.len() implies ordered[i].version
            != entry.version by {
            assert(ordered.contains(ordered[i]));
        }
        assert forall|i: int| 0 <= i < given.len() implies next.contains(#[trigger] given[i]) by {
            if i != last {
                let k = choose|k: int| 0 <= k < ordered.len() && ordered[k] == head[i];
                if k < at {
                    assert(next[k] == given[i]);
                }
            }
        }
        assert(arranges(next, given));
    }
    let ordered = arrangement(given);
    lemma_arrangement_holds_no_others(ordered, given);
    assert forall|i: int| 0 <= i < ordered.len() implies !offends(ordered, i) by {
        assert(ordered.contains(ordered[i]));
        let k = choose|k: int| 0 <= k < given.len() && given[k] == ordered[i];
        assert(!offends(given, k));
    }
}

/// A list of migrations that passed validation, by ascending version.
#[derive(Debug, PartialEq, Eq)]
pub struct MigrationList {
    entries: Vec<Migration>,
}

impl View for MigrationList {
    type V = Seq<MigrationView>;

    closed spec fn view(&self) -> Seq<MigrationView> {
        views(self.entries@)
    }
}

/// The first place of `migrations` whose entry offends, if there is one.
fn first_fault(migrations: &Vec<Migration>) -> (found: Option<usize>)
    ensures
        match found {
            Some(i) => first_offender(views(migrations@), i as int),
            None => acceptable(views(migrations@)),
        },
{
    let ghost list = views(migrations@);
    let mut i: usize = 0;
    while i < migrations.len()
        invariant
            i <= migrations.len(),
            list == views(migrations@),
            forall|k: int| 0 <= k < i ==> !offends(list, k),
        decreases migrations.len() - i,
    {
        let version: i64 = migrations[i].version;
        if version < 1 {
            return Some(i);
        }
        let mut j: usize = 0;
        while j < i
            invariant
                j <= i < migrations.len(),
                list == views(migrations@),
                version == list[i as int].version,
                forall|k: int| 0 <= k < i ==> !offends(list, k),
                forall|k: int| 0 <= k < j ==> list[k].version != version,
            decreases i - j,
        {
            if migrations[j].version == version {
                assert(list[j as int].version == list[i as int].version);
                return Some(i);
            }
            j += 1;
        }
        i += 1;
    }
    None
}

/// The place of the least version in a list that is not empty.
fn least(migrations: &Vec<Migration>) -> (at: usize)
    requires
        migrations.len() > 0,
    ensures
        at < migrations.len(),
        forall|k: int|
            0 <= k < migrations.len() ==> migrations[at as int].version <= migrations[k].version,
{
    let mut at: usize = 0;
    let mut i: usize = 1;
    while i < migrations.len()
        invariant
            at < i <= migrations.len(),
            forall|k: int| 0 <= k < i ==> migrations[at as int].version <= migrations[k].version,
        decreases migrations.len() - i,
    {
        if migrations[i].version < migrations[at].version {
            at = i;
        }
        i += 1;
    }
    at
}

/// The same migrations by ascending version.
fn arrange(migrations: Vec<Migration>) -> (ordered: Vec<Migration>)
    requires
        acceptable(views(migrations@)),
    ensures
        arranges(views(ordered@), views(migrations@)),
        acceptable(views(ordered@)),
{
    let ghost given = views(migrations@);
    proof {
        assert forall|i: int, j: int| 0 <= i < j < migrations.len() implies migrations[i].version
            != migrations[j].version by {
            assert(!offends(given, j));
            assert(given[i].version == migrations[i].version);
        }
        assert forall|i: int| 0 <= i < migrations.len() implies migrations[i].version >= 1 by {
            assert(!offends(given, i));
        }
    }
    let mut rest = migrations;
    let mut ordered: Vec<Migration> = Vec::new();
    while rest.len() > 0
        invariant
            forall|i: int, j: int|
                0 <= i < j < ordered.len() ==> ordered[i].version < ordered[j].version,
            ordered.len() + rest.len() == given.len(),
            forall|i: int|
                0 <= i < given.len() ==> views(ordered@).contains(#[trigger] given[i]) || views(
                    rest@,
                ).contains(given[i]),
            forall|i: int, j: int|
                0 <= i < ordered.len() && 0 <= j < rest.len() ==> ordered[i].version
                    < rest[j].version,
            forall|i: int, j: int|
                0 <= i < j < rest.len() ==> rest[i].version != rest[j].version,
            forall|i: int| 0 <= i < ordered.len() ==> ordered[i].version >= 1,
            forall|i: int| 0 <= i < rest.len() ==> rest[i].version >= 1,
        decreases rest.len(),
    {
        let at = least(&rest);
        let ghost before = rest@;
        let ghost done = ordered@;
        let next = rest.remove(at);
        ordered.push(next);
        proof {
            assert forall|i: int| 0 <= i < given.len() implies views(ordered@).contains(
                #[trigger] given[i],
            ) || views(rest@).contains(given[i]) by {
                if views(done).contains(given[i]) {
                    let k = choose|k: int| 0 <= k < done.len() && views(done)[k] == given[i];
                    assert(views(ordered@)[k] == given[i]);
                } else {
                    let k = choose|k: int| 0 <= k < before.len() && views(before)[k] == given[i];
                    if k < at {
                        assert(views(rest@)[k] == given[i]);
                    } else if k == at {
                        assert(views(ordered@)[done.len() as int] == given[i]);
                    } else {
                        assert(views(rest@)[k - 1] == given[i]);
                    }
                }
            }
        }
    }
    ordered
}

impl MigrationList {
    /// What holds of every list: its versions start at one or above and rise
    /// strictly.
    #[verifier::type_invariant]
    pub open spec fn sound(self) -> bool {
        acceptable(self@) && ascending(self@)
    }

    /// Validates `migrations` and puts them in ascending order of version.
    ///
    /// Fails with `ConfigurationError` exactly when some version is below one
    /// or occurs twice; the error then carries the version at the first
    /// offending place.
    pub fn new(migrations: Vec<Migration>) -> (result: Result<MigrationList, MigrationError>)
        ensures
            match result {
                Ok(list) => validated(views(migrations@)) == Ok::<Seq<MigrationView>, Fault>(list@),
                Err(error) => validated(views(migrations@)) == Err::<Seq<MigrationView>, Fault>(
                    error@,
                ),
            },
            result is Ok <==> acceptable(views(migrations@)),
            result is Ok ==> arranges(result->Ok_0@, views(migrations@)),
            result is Err ==> first_offender(views(migrations@), first_offence(views(migrations@))),
    {
        let ghost given = views(migrations@);
        match first_fault(&migrations) {
            Some(i) => Err(MigrationError::ConfigurationError { version: migrations[i].version }),
            None => {
                let entries = arrange(migrations);
                let list = MigrationList { entries };
                proof {
                    lemma_arrangement_is_unique(list@, arrangement(given), given);
                }
                Ok(list)
            },
        }
    }

    /// The list without entries.
    pub fn empty() -> (list: MigrationList)
        ensures
            list@ == Seq::<MigrationView>::empty(),
    {
        MigrationList { entries: Vec::new() }
    }

    /// The number of migrations in the list.
    pub fn len(&self) -> (n: usize)
        ensures
            n == self@.len(),
    {
        self.entries.len()
    }

    /// The migration at place `i`.
    pub fn get(&self, i: usize) -> (entry: &Migration)
        requires
            i < self@.len(),
        ensures
            entry@ == self@[i as int],
    {
        &self.entries[i]
    }
}

} // verus!
