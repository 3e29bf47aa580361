//! Self-registration: which records a server persists for its classes, and
//! the decisions of installing and removing them.
//!
//! Writing and removing a record is the caller's work. The caller asks the
//! [`Registrar`] what to do next, does it, and reports how it went; the
//! registrar decides what follows.

use vstd::prelude::*;
use crate::ids::ClassId;
use crate::runtime::ClassEntry;
use crate::status::ComError;

verus! {

/// Which of a class's two records.
#[derive(Clone, Copy, Debug, PartialEq, Eq, Structural)]
pub enum RecordKind {
    /// The record named by the class id; its value is the class's name.
    Parent,
    /// The record beneath the parent; its value is the path of the module
    /// that implements the class.
    Child,
}

/// One persisted record.
#[derive(Debug)]
pub struct Record {
    pub class: ClassId,
    pub kind: RecordKind,
    pub value: String,
}

/// A record as a mathematical value.
pub struct RecordModel {
    pub class: ClassId,
    pub kind: RecordKind,
    pub value: Seq<char>,
}

impl Record {
    /// The record as a mathematical value.
    pub open spec fn view(&self) -> RecordModel {
        RecordModel { class: self.class, kind: self.kind, value: self.value@ }
    }
}

/// The record at place `i` of the installation order: for each class in
/// table order its parent record, then its child record.
pub open spec fn record_at(classes: Seq<ClassEntry>, server_path: Seq<char>, i: int) -> RecordModel {
    if i % 2 == 0 {
        RecordModel { class: classes[i / 2]@.clsid, kind: RecordKind::Parent, value: classes[i / 2]@.name }
    } else {
        RecordModel { class: classes[i / 2]@.clsid, kind: RecordKind::Child, value: server_path }
    }
}

/// The records that a server with the given classes persists, in
/// installation order: a class's parent record comes before its child
/// record, and the classes come in table order.
pub fn relevant_records(classes: &Vec<ClassEntry>, server_path: &String) -> (records: Vec<Record>)
    ensures
        records@.len() == 2 * classes@.len(),
        forall|i: int| 0 <= i < records@.len() ==> (#[trigger] records@[i])@ == record_at(classes@, server_path@, i),
{
    let mut records: Vec<Record> = Vec::new();
    let mut k: usize = 0;
    while k < classes.len()
        invariant
            0 <= k <= classes@.len(),
            records@.len() == 2 * k,
            forall|i: int|
                0 <= i < records@.len() ==> (#[trigger] records@[i])@ == record_at(
                    classes@,
                    server_path@,
                    i,
                ),
        decreases classes@.len() - k,
    {
        let class = &classes[k];
        records.push(Record { class: class.clsid(), kind: RecordKind::Parent, value: class.name().clone() });
        records.push(Record { class: class.clsid(), kind: RecordKind::Child, value: server_path.clone() });
        k += 1;
    }
    records
}

/// Why a registration did not go through: the first record whose
/// installation or removal failed, by its place in the installation order,
/// and the code that the store reported for it.
#[derive(Clone, Copy, Debug, PartialEq, Eq, Structural)]
pub struct Failure {
    pub record: usize,
    pub code: u32,
}

impl Failure {
    /// The failure as the runtime reports it.
    pub fn status(&self) -> (e: ComError)
        ensures
            e == ComError::RegistrationPartialFailure,
    {
        ComError::RegistrationPartialFailure
    }
}

/// What the caller is to do next. Records are named by their place in the
/// installation order.
#[derive(Clone, Copy, Debug, PartialEq, Eq, Structural)]
pub enum Action {
    /// Write this record.
    Install(usize),
    /// Remove this record.
    Remove(usize),
    /// Nothing is left to do. All went through (`None`), or this was the
    /// first failure.
    Finish(Option<Failure>),
}

/// The state of a registration or unregistration in progress.
pub struct RegistrarModel {
    /// Number of records in the installation order.
    pub total: usize,
    /// Whether records are still being installed; otherwise they are being
    /// removed, or all is done.
    pub installing: bool,
    /// While installing: how many records are installed. While removing:
    /// how many records are still to be looked at.
    pub cursor: usize,
    /// The first failure so far.
    pub failure: Option<Failure>,
}

impl RegistrarModel {
    /// The cursor stays within the records, and no failure is noted while
    /// installation goes on.
    pub open spec fn wf(self) -> bool {
        &&& self.cursor <= self.total
        &&& self.installing ==> self.failure.is_none()
    }

    /// The start of RegisterServer for `total` records.
    pub open spec fn register(total: usize) -> RegistrarModel {
        RegistrarModel { total, installing: true, cursor: 0, failure: None }
    }

    /// The start of UnregisterServer for `total` records.
    pub open spec fn unregister(total: usize) -> RegistrarModel {
        RegistrarModel { total, installing: false, cursor: total, failure: None }
    }

    /// What is to be done in this state. Installation goes up the
    /// installation order; removal goes down from the cursor.
    pub open spec fn action(self) -> Action {
        if self.installing {
            if self.cursor < self.total {
                Action::Install(self.cursor)
            } else {
                Action::Finish(None)
            }
        } else {
            if self.cursor > 0 {
                Action::Remove((self.cursor - 1) as usize)
            } else {
                Action::Finish(self.failure)
            }
        }
    }

    /// Whether nothing is left to do.
    pub open spec fn finished(self) -> bool {
        self.action() is Finish
    }

    /// The state after the caller reports `outcome` for the action of this
    /// state. A failed installation turns to removing what was installed
    /// before it. A failed removal is noted and removal goes on. The first
    /// failure is the one that is kept.
    pub open spec fn advance(self, outcome: Result<(), u32>) -> RegistrarModel {
        if self.finished() {
            self
        } else if self.installing {
            match outcome {
                Ok(_) => RegistrarModel { cursor: (self.cursor + 1) as usize, ..self },
                Err(code) => RegistrarModel {
                    installing: false,
                    failure: Some(Failure { record: self.cursor, code }),
                    ..self
                },
            }
        } else {
            RegistrarModel {
                cursor: (self.cursor - 1) as usize,
                failure: match (self.failure, outcome) {
                    (None, Err(code)) => Some(Failure { record: (self.cursor - 1) as usize, code }),
                    (f, _) => f,
                },
                ..self
            }
        }
    }

    /// The state after the caller reported `outcomes`, one for each action
    /// in turn.
    pub open spec fn run(self, outcomes: Seq<Result<(), u32>>) -> RegistrarModel
        decreases outcomes.len(),
    {
        if outcomes.len() == 0 {
            self
        } else {
            self.run(outcomes.drop_last()).advance(outcomes.last())
        }
    }
}

/// Decides the steps of RegisterServer and UnregisterServer.
pub struct Registrar {
    total: usize,
    installing: bool,
    cursor: usize,
    failure: Option<Failure>,
}

impl Registrar {
    /// The state as a mathematical value.
    pub closed spec fn view(&self) -> RegistrarModel {
        RegistrarModel {
            total: self.total,
            installing: self.installing,
            cursor: self.cursor,
            failure: self.failure,
        }
    }

    /// Starts RegisterServer for `total` records: all of them are
    /// installed in order, or none stays.
    pub fn register(total: usize) -> (r: Registrar)
        ensures
            r@ == RegistrarModel::register(total),
            r@.wf(),
    {
        Registrar { total, installing: true, cursor: 0, failure: None }
    }

    /// Starts UnregisterServer for `total` records: each of them is
    /// removed, the last of the installation order first.
    pub fn unregister(total: usize) -> (r: Registrar)
        ensures
            r@ == RegistrarModel::unregister(total),
            r@.wf(),
    {
        Registrar { total, installing: false, cursor: total, failure: None }
    }

    /// What the caller is to do next.
    pub fn action(&self) -> (a: Action)
        requires
            self@.wf(),
        ensures
            a == self@.action(),
    {
        if self.installing {
            if self.cursor < self.total {
                Action::Install(self.cursor)
            } else {
                Action::Finish(None)
            }
        } else {
            if self.cursor > 0 {
                Action::Remove(self.cursor - 1)
            } else {
                Action::Finish(self.failure)
            }
        }
    }

    /// Whether nothing is left to do.
    pub fn is_finished(&self) -> (b: bool)
        requires
            self@.wf(),
        ensures
            b == self@.finished(),
    {
        if self.installing {
            self.cursor >= self.total
        } else {
            self.cursor == 0
        }
    }

    /// Takes the caller's report on the action that `action` named. Once
    /// finished, reports change nothing.
    pub fn advance(&mut self, outcome: Result<(), u32>)
        requires
            old(self)@.wf(),
        ensures
            final(self)@.wf(),
            final(self)@ == old(self)@.advance(outcome),
    {
        if self.is_finished() {
            return ;
        }
        if self.installing {
            match outcome {
                Ok(_) => {
                    self.cursor = self.cursor + 1;
                },
                Err(code) => {
                    self.installing = false;
                    self.failure = Some(Failure { record: self.cursor, code });
                },
            }
        } else {
            self.cursor = self.cursor - 1;
            if self.failure.is_none() {
                match outcome {
                    Ok(_) => {},
                    Err(code) => {
                        self.failure = Some(Failure { record: self.cursor, code });
                    },
                }
            }
        }
    }
}

/// Reports taken one after the other are the reports of a first part
/// followed by those of the rest.
pub proof fn lemma_run_concat(s: RegistrarModel, a: Seq<Result<(), u32>>, b: Seq<Result<(), u32>>)
    ensures
        s.run(a + b) == s.run(a).run(b),
    decreases b.len(),
{
    if b.len() == 0 {
        assert(a + b =~= a);
    } else {
        lemma_run_concat(s, a, b.drop_last());
        assert((a + b).drop_last() =~= a + b.drop_last());
        assert((a + b).last() == b.last());
    }
}

/// While every report is a success, installation walks up the
/// installation order.
pub proof fn lemma_installing(total: usize, oks: Seq<Result<(), u32>>)
    requires
        oks.len() <= total,
        forall|i: int| 0 <= i < oks.len() ==> (#[trigger] oks[i]).is_ok(),
    ensures
        RegistrarModel::register(total).run(oks) == (RegistrarModel {
            total,
            installing: true,
            cursor: oks.len() as usize,
            failure: None,
        }),
    decreases oks.len(),
{
    if oks.len() > 0 {
        let init = oks.drop_last();
        assert forall|i: int| 0 <= i < init.len() implies (#[trigger] init[i]).is_ok() by {
            assert(init[i] == oks[i]);
        }
        lemma_installing(total, init);
        assert(oks.last() == oks[oks.len() - 1]);
    }
}

/// The first failure among the first `n` reports of a removal that starts
/// at `start`, if there is one: the record it was reported for, and its code.
pub open spec fn first_removal_failure(start: usize, reports: Seq<Result<(), u32>>, n: int) -> Option<
    Failure,
>
    decreases n,
{
    if n <= 0 {
        None
    } else {
        match first_removal_failure(start, reports, n - 1) {
            Some(f) => Some(f),
            None => match reports[n - 1] {
                Ok(_) => None,
                Err(code) => Some(Failure { record: (start - n) as usize, code }),
            },
        }
    }
}

/// Removal walks down from the cursor whatever is reported, and keeps the
/// first failure.
pub proof fn lemma_removing(s: RegistrarModel, reports: Seq<Result<(), u32>>)
    requires
        s.wf(),
        !s.installing,
        reports.len() <= s.cursor,
    ensures
        s.run(reports) == (RegistrarModel {
            cursor: (s.cursor - reports.len()) as usize,
            failure: match s.failure {
                Some(f) => Some(f),
                None => first_removal_failure(s.cursor, reports, reports.len() as int),
            },
            ..s
        }),
    decreases reports.len(),
{
    if reports.len() > 0 {
        let init = reports.drop_last();
        lemma_removing(s, init);
        lemma_first_removal_failure_of_prefix(s.cursor, reports, init.len() as int);
        assert(reports.last() == reports[reports.len() - 1]);
    }
}

/// The first failure among the first `n` reports depends on those reports alone.
pub proof fn lemma_first_removal_failure_of_prefix(start: usize, reports: Seq<Result<(), u32>>, n: int)
    requires
        0 <= n < reports.len(),
    ensures
        first_removal_failure(start, reports.drop_last(), n) == first_removal_failure(start, reports, n),
    decreases n,
{
    if n > 0 {
        lemma_first_removal_failure_of_prefix(start, reports, n - 1);
        assert(reports.drop_last()[n - 1] == reports[n - 1]);
    }
}

/// What the first failure of a removal is: none where every report was a
/// success; otherwise the earliest report that was not, with the record
/// that it was made for.
pub proof fn lemma_first_removal_failure(start: usize, reports: Seq<Result<(), u32>>, n: int)
    requires
        0 <= n <= reports.len(),
        n <= start,
    ensures
        match first_removal_failure(start, reports, n) {
            None => forall|i: int| 0 <= i < n ==> (#[trigger] reports[i]).is_ok(),
            Some(f) => exists|j: int|
                0 <= j < n && #[trigger] reports[j] == Err::<(), u32>(f.code) && f.record == start - 1 - j
                    && forall|i: int| 0 <= i < j ==> (#[trigger] reports[i]).is_ok(),
        },
    decreases n,
{
    if n > 0 {
        lemma_first_removal_failure(start, reports, n - 1);
        match first_removal_failure(start, reports, n - 1) {
            Some(f) => {
                let j = choose|j: int|
                    0 <= j < n - 1 && #[trigger] reports[j] == Err::<(), u32>(f.code) && f.record == start
                        - 1 - j && forall|i: int| 0 <= i < j ==> (#[trigger] reports[i]).is_ok();
                assert(0 <= j < n && reports[j] == Err::<(), u32>(f.code));
            },
            None => {
                match reports[n - 1] {
                    Ok(_) => {},
                    Err(code) => {
                        assert(reports[n - 1] == Err::<(), u32>(code));
                    },
                }
            },
        }
    }
}

/// RegisterServer, where every installation succeeds: the records are
/// installed in installation order, and the result is success.
pub proof fn law_register_installs_in_order(total: usize, reports: Seq<Result<(), u32>>)
    requires
        reports.len() == total,
        forall|i: int| 0 <= i < reports.len() ==> (#[trigger] reports[i]).is_ok(),
    ensures
        forall|i: int|
            0 <= i < total ==> #[trigger] RegistrarModel::register(total).run(reports.take(i)).action()
                == Action::Install(i as usize),
        RegistrarModel::register(total).run(reports).action() == Action::Finish(None),
{
    assert forall|i: int| 0 <= i < total implies #[trigger] RegistrarModel::register(total).run(
        reports.take(i),
    ).action() == Action::Install(i as usize) by {
        let init = reports.take(i);
        assert forall|j: int| 0 <= j < init.len() implies (#[trigger] init[j]).is_ok() by {
            assert(init[j] == reports[j]);
        }
        lemma_installing(total, init);
    }
    lemma_installing(total, reports);
}

/// RegisterServer is all-or-nothing. Where the installation of record
/// `failed` is the first to fail, the records before it were installed in
/// order; what follows at once is the removal of exactly those records, the
/// one installed last first, whatever is reported for the removals; and the
/// result is the failure of that installation.
pub proof fn law_register_rolls_back(
    total: usize,
    failed: usize,
    code: u32,
    removals: Seq<Result<(), u32>>,
)
    requires
        failed < total,
        removals.len() == failed,
    ensures
        ({
            let oks = Seq::new(failed as nat, |i: int| Ok::<(), u32>(()));
            let reports = oks.push(Err(code)) + removals;
            let start = RegistrarModel::register(total);
            &&& forall|i: int|
                0 <= i <= failed ==> #[trigger] start.run(reports.take(i)).action() == Action::Install(
                    i as usize,
                )
            &&& forall|j: int|
                0 <= j < failed ==> #[trigger] start.run(reports.take(failed + 1 + j)).action()
                    == Action::Remove((failed - 1 - j) as usize)
            &&& start.run(reports).action() == Action::Finish(Some(Failure { record: failed, code }))
        }),
{
    let oks = Seq::new(failed as nat, |i: int| Ok::<(), u32>(()));
    let tried = oks.push(Err(code));
    let reports = tried + removals;
    let start = RegistrarModel::register(total);
    let turned = RegistrarModel {
        total,
        installing: false,
        cursor: failed,
        failure: Some(Failure { record: failed, code }),
    };
    assert(start.run(tried) == turned) by {
        lemma_installing(total, oks);
        assert(tried.drop_last() =~= oks);
        assert(tried.last() == Err::<(), u32>(code));
    }
    assert forall|i: int| 0 <= i <= failed implies #[trigger] start.run(reports.take(i)).action()
        == Action::Install(i as usize) by {
        let init = reports.take(i);
        assert forall|j: int| 0 <= j < init.len() implies (#[trigger] init[j]).is_ok() by {
            assert(init[j] == oks[j]);
        }
        lemma_installing(total, init);
    }
    assert forall|j: int| 0 <= j < failed implies #[trigger] start.run(
        reports.take(failed + 1 + j),
    ).action() == Action::Remove((failed - 1 - j) as usize) by {
        let done = removals.take(j);
        assert(reports.take(failed + 1 + j) =~= tried + done);
        lemma_run_concat(start, tried, done);
        lemma_removing(turned, done);
    }
    lemma_run_concat(start, tried, removals);
    lemma_removing(turned, removals);
}

/// UnregisterServer attempts every record, the last of the installation
/// order first, and goes on past failures. The result is success where
/// every removal succeeded, and otherwise the first failure that was
/// reported.
pub proof fn law_unregister_attempts_everything(total: usize, reports: Seq<Result<(), u32>>)
    requires
        reports.len() == total,
    ensures
        forall|j: int|
            0 <= j < total ==> #[trigger] RegistrarModel::unregister(total).run(reports.take(j)).action()
                == Action::Remove((total - 1 - j) as usize),
        RegistrarModel::unregister(total).run(reports).action() == Action::Finish(
            first_removal_failure(total, reports, total as int),
        ),
        match first_removal_failure(total, reports, total as int) {
            None => forall|i: int| 0 <= i < total ==> (#[trigger] reports[i]).is_ok(),
            Some(f) => exists|j: int|
                0 <= j < total && #[trigger] reports[j] == Err::<(), u32>(f.code) && f.record == total - 1
                    - j && forall|i: int| 0 <= i < j ==> (#[trigger] reports[i]).is_ok(),
        },
{
    let start = RegistrarModel::unregister(total);
    assert forall|j: int| 0 <= j < total implies #[trigger] start.run(reports.take(j)).action()
        == Action::Remove((total - 1 - j) as usize) by {
        lemma_removing(start, reports.take(j));
    }
    lemma_removing(start, reports);
    lemma_first_removal_failure(total, reports, total as int);
}

} // verus!
