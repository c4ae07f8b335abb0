//! Uploading the files of a directory, a bounded number at a time.
//!
//! The transfers themselves happen elsewhere. An `Upload` decides: it says
//! which transfer to start next, or to wait for one to end, or that all
//! have ended; it is told how each transfer ended, counts it once, and keeps
//! its outcome. A failed transfer is an outcome like any other and does not
//! stop the rest.

use crate::errors::CliError;
use crate::text::{decimal, decimal_text};
use vstd::prelude::*;

verus! {

/// A file on the local disk: where it is, and its name in its directory.
#[derive(Debug)]
pub struct LocalFile {
    pub path: String,
    pub name: String,
}

/// What a `LocalFile` holds.
pub struct LocalFileView {
    pub path: Seq<char>,
    pub name: Seq<char>,
}

impl View for LocalFile {
    type V = LocalFileView;

    open spec fn view(&self) -> LocalFileView {
        LocalFileView { path: self.path@, name: self.name@ }
    }
}

/// What is to be uploaded: one file, or the files directly in a directory.
#[derive(Debug)]
pub enum Source {
    File(LocalFile),
    Directory(Vec<LocalFile>),
}

/// What a `Source` holds.
pub enum SourceView {
    File(LocalFileView),
    Directory(Seq<LocalFileView>),
}

impl View for Source {
    type V = SourceView;

    open spec fn view(&self) -> SourceView {
        match *self {
            Source::File(f) => SourceView::File(f@),
            Source::Directory(files) => SourceView::Directory(files.deep_view()),
        }
    }
}

impl DeepView for LocalFile {
    type V = LocalFileView;

    open spec fn deep_view(&self) -> LocalFileView {
        self@
    }
}

/// One transfer: a local file and the key that it gets in the store.
#[derive(Debug)]
pub struct UploadTarget {
    pub local_path: String,
    pub file_name: String,
    pub remote_key: String,
}

/// What an `UploadTarget` holds.
pub struct TargetView {
    pub local_path: Seq<char>,
    pub file_name: Seq<char>,
    pub remote_key: Seq<char>,
}

impl View for UploadTarget {
    type V = TargetView;

    open spec fn view(&self) -> TargetView {
        TargetView {
            local_path: self.local_path@,
            file_name: self.file_name@,
            remote_key: self.remote_key@,
        }
    }
}

/// The transfer of `file` to the key `key`.
pub open spec fn target_of(file: LocalFileView, key: Seq<char>) -> TargetView {
    TargetView { local_path: file.path, file_name: file.name, remote_key: key }
}

/// The transfers that upload `source` to `target`. A single file goes to the
/// key `target` itself. Each file of a directory goes to `target` followed
/// by its name, with nothing put between the two.
pub open spec fn planned(source: SourceView, target: Seq<char>) -> Seq<TargetView> {
    match source {
        SourceView::File(f) => seq![target_of(f, target)],
        SourceView::Directory(files) => Seq::new(
            files.len(),
            |i: int| target_of(files[i], target + files[i].name),
        ),
    }
}

/// How a transfer ended.
#[derive(Debug)]
pub enum UploadOutcome {
    /// The file is in the store under this key.
    Succeeded(String),
    /// The file at this local path was not uploaded, for this reason.
    Failed(String, String),
}

/// What an `UploadOutcome` holds.
pub enum OutcomeView {
    Succeeded(Seq<char>),
    Failed(Seq<char>, Seq<char>),
}

impl View for UploadOutcome {
    type V = OutcomeView;

    open spec fn view(&self) -> OutcomeView {
        match *self {
            UploadOutcome::Succeeded(key) => OutcomeView::Succeeded(key@),
            UploadOutcome::Failed(path, cause) => OutcomeView::Failed(path@, cause@),
        }
    }
}

/// The reason for which a transfer failed, if it did.
pub open spec fn failure_of(result: Result<String, CliError>) -> Option<Seq<char>> {
    match result {
        Ok(_) => None,
        Err(e) => Some(e.heading() + e.detail()),
    }
}

/// The outcome of the transfer `target` that ended with `failure`.
pub open spec fn outcome_of(target: TargetView, failure: Option<Seq<char>>) -> OutcomeView {
    match failure {
        None => OutcomeView::Succeeded(target.remote_key),
        Some(cause) => OutcomeView::Failed(target.local_path, cause),
    }
}

/// Where a transfer stands.
pub enum SlotView {
    /// It has not been started.
    Waiting,
    /// It has been started and has not ended.
    Running,
    /// It has ended.
    Done(OutcomeView),
}

/// How many transfers are running.
pub open spec fn running(slots: Seq<SlotView>) -> nat
    decreases slots.len(),
{
    if slots.len() == 0 {
        0
    } else {
        running(slots.drop_last()) + if slots.last() is Running {
            1nat
        } else {
            0nat
        }
    }
}

/// How many transfers have ended.
pub open spec fn finished(slots: Seq<SlotView>) -> nat
    decreases slots.len(),
{
    if slots.len() == 0 {
        0
    } else {
        finished(slots.drop_last()) + if slots.last() is Done {
            1nat
        } else {
            0nat
        }
    }
}

/// What an `Upload` holds: the transfers, where each stands, how many may
/// run at once, and how many have been started.
pub struct UploadView {
    pub targets: Seq<TargetView>,
    pub slots: Seq<SlotView>,
    pub limit: nat,
    pub started: nat,
}

/// What to do next.
#[derive(Clone, Copy, Debug, PartialEq, Eq, Structural)]
pub enum Step {
    /// Start the transfer of this number.
    Start(usize),
    /// Wait for a running transfer to end.
    Wait,
    /// Nothing: every transfer has ended.
    Done,
}

impl UploadView {
    /// Whether the state is one that an `Upload` can be in: the transfers are
    /// started in their order, and no more run at once than may.
    pub open spec fn wf(self) -> bool {
        &&& self.slots.len() == self.targets.len()
        &&& self.limit >= 1
        &&& self.started <= self.slots.len()
        &&& forall|i: int| 0 <= i < self.started ==> !(#[trigger] self.slots[i] is Waiting)
        &&& forall|i: int|
            self.started <= i < self.slots.len() ==> #[trigger] self.slots[i] is Waiting
        &&& running(self.slots) <= self.limit
    }

    /// The state before anything was started.
    pub open spec fn initial(targets: Seq<TargetView>, limit: nat) -> UploadView {
        UploadView {
            targets,
            slots: Seq::new(targets.len(), |i: int| SlotView::Waiting),
            limit,
            started: 0,
        }
    }

    /// What to do next: start the next transfer while one is left and fewer
    /// run than may; else wait while one runs; else all have ended.
    pub open spec fn next_step(self) -> Step {
        if self.started < self.slots.len() && running(self.slots) < self.limit {
            Step::Start(self.started as usize)
        } else if running(self.slots) > 0 {
            Step::Wait
        } else {
            Step::Done
        }
    }

    /// The state after the next step was asked for: where it is to start a
    /// transfer, that transfer runs.
    pub open spec fn after_step(self) -> UploadView {
        if self.started < self.slots.len() && running(self.slots) < self.limit {
            UploadView {
                slots: self.slots.update(self.started as int, SlotView::Running),
                started: self.started + 1,
                ..self
            }
        } else {
            self
        }
    }

    /// Whether the transfer `index` runs.
    pub open spec fn in_flight(self, index: int) -> bool {
        0 <= index < self.slots.len() && self.slots[index] is Running
    }

    /// The state after the transfer `index` ended with `failure`: where it
    /// ran, it has ended with its outcome; else nothing changes.
    pub open spec fn after_finish(self, index: int, failure: Option<Seq<char>>) -> UploadView {
        if self.in_flight(index) {
            UploadView {
                slots: self.slots.update(
                    index,
                    SlotView::Done(outcome_of(self.targets[index], failure)),
                ),
                ..self
            }
        } else {
            self
        }
    }

    /// Whether every transfer has ended.
    pub open spec fn all_done(self) -> bool {
        finished(self.slots) == self.slots.len()
    }
}

/// Before anything was started, nothing runs and nothing has ended.
pub proof fn lemma_initial(targets: Seq<TargetView>, limit: nat)
    requires
        limit >= 1,
    ensures
        running(UploadView::initial(targets, limit).slots) == 0,
        finished(UploadView::initial(targets, limit).slots) == 0,
        UploadView::initial(targets, limit).wf(),
    decreases targets.len(),
{
    let slots = UploadView::initial(targets, limit).slots;
    if targets.len() > 0 {
        lemma_initial(targets.drop_last(), limit);
        assert(slots.drop_last() =~= UploadView::initial(targets.drop_last(), limit).slots);
    }
}

/// Changing where one transfer stands changes the counts by that transfer
/// alone.
pub proof fn lemma_update_counts(slots: Seq<SlotView>, i: int, slot: SlotView)
    requires
        0 <= i < slots.len(),
    ensures
        running(slots.update(i, slot)) + (if slots[i] is Running {
            1nat
        } else {
            0nat
        }) == running(slots) + (if slot is Running {
            1nat
        } else {
            0nat
        }),
        finished(slots.update(i, slot)) + (if slots[i] is Done {
            1nat
        } else {
            0nat
        }) == finished(slots) + (if slot is Done {
            1nat
        } else {
            0nat
        }),
    decreases slots.len(),
{
    let changed = slots.update(i, slot);
    if i == slots.len() - 1 {
        assert(changed.drop_last() =~= slots.drop_last());
    } else {
        assert(changed.drop_last() =~= slots.drop_last().update(i, slot));
        lemma_update_counts(slots.drop_last(), i, slot);
    }
}

/// The transfers that run or have ended are those that were started.
pub proof fn lemma_counts(slots: Seq<SlotView>, started: nat)
    requires
        started <= slots.len(),
        forall|i: int| 0 <= i < started ==> !(#[trigger] slots[i] is Waiting),
        forall|i: int| started <= i < slots.len() ==> #[trigger] slots[i] is Waiting,
    ensures
        running(slots) + finished(slots) == started,
    decreases slots.len(),
{
    if slots.len() > 0 {
        let rest = slots.drop_last();
        if started == slots.len() {
            assert(!(slots[slots.len() - 1] is Waiting));
            assert forall|i: int| 0 <= i < started - 1 implies !(#[trigger] rest[i] is Waiting) by {
                assert(rest[i] == slots[i]);
            }
            lemma_counts(rest, (started - 1) as nat);
        } else {
            assert(slots[slots.len() - 1] is Waiting);
            assert forall|i: int| 0 <= i < started implies !(#[trigger] rest[i] is Waiting) by {
                assert(rest[i] == slots[i]);
            }
            assert forall|i: int| started <= i < rest.len() implies #[trigger] rest[i] is Waiting
            by {
                assert(rest[i] == slots[i]);
            }
            lemma_counts(rest, started);
        }
    }
}

/// Where as many have ended as there are, each has ended.
pub proof fn lemma_finished_all(slots: Seq<SlotView>)
    ensures
        finished(slots) <= slots.len(),
        finished(slots) == slots.len() ==> forall|i: int|
            0 <= i < slots.len() ==> #[trigger] slots[i] is Done,
        (forall|i: int| 0 <= i < slots.len() ==> #[trigger] slots[i] is Done) ==> finished(slots)
            == slots.len(),
    decreases slots.len(),
{
    if slots.len() > 0 {
        let rest = slots.drop_last();
        lemma_finished_all(rest);
        if finished(slots) == slots.len() {
            assert forall|i: int| 0 <= i < slots.len() implies #[trigger] slots[i] is Done by {
                if i < rest.len() {
                    assert(rest[i] is Done);
                }
            }
        }
        if forall|i: int| 0 <= i < slots.len() ==> #[trigger] slots[i] is Done {
            assert forall|i: int| 0 <= i < rest.len() implies #[trigger] rest[i] is Done by {
                assert(rest[i] == slots[i]);
            }
            assert(slots[slots.len() - 1] is Done);
        }
    }
}

/// How far a batch has come.
#[derive(Clone, Copy, Debug, PartialEq, Eq, Structural)]
pub struct BatchProgress {
    /// How many transfers have ended.
    pub completed: usize,
    /// How many transfers there are.
    pub total: usize,
}

/// The line that reports the end of a transfer: the name and the size of
/// the file, and how far the batch has come.
pub open spec fn progress_line(
    name: Seq<char>,
    size: nat,
    completed: nat,
    total: nat,
) -> Seq<char> {
    "正在上传: "@ + name + "(size:"@ + decimal(size) + ")   ["@ + decimal(completed) + "/"@
        + decimal(total) + "]"@
}

/// The line that reports the end of a transfer.
pub fn report_line(name: &str, size: u64, progress: BatchProgress) -> (line: String)
    ensures
        line@ == progress_line(
            name@,
            size as nat,
            progress.completed as nat,
            progress.total as nat,
        ),
{
    let mut line = String::from_str("正在上传: ");
    line.append(name);
    line.append("(size:");
    line.append(decimal_text(size).as_str());
    line.append(")   [");
    line.append(decimal_text(progress.completed as u64).as_str());
    line.append("/");
    line.append(decimal_text(progress.total as u64).as_str());
    line.append("]");
    line
}

/// Where a transfer stands.
#[derive(Debug)]
enum Slot {
    Waiting,
    Running,
    Done(UploadOutcome),
}

impl View for Slot {
    type V = SlotView;

    closed spec fn view(&self) -> SlotView {
        match *self {
            Slot::Waiting => SlotView::Waiting,
            Slot::Running => SlotView::Running,
            Slot::Done(outcome) => SlotView::Done(outcome@),
        }
    }
}

/// What the transfers hold, one by one.
pub open spec fn target_views(targets: Seq<UploadTarget>) -> Seq<TargetView> {
    targets.map_values(|t: UploadTarget| t@)
}

/// Where the transfers stand, one by one.
spec fn slot_views(slots: Seq<Slot>) -> Seq<SlotView> {
    slots.map_values(|s: Slot| s@)
}

/// The transfers that upload `source` to `target`.
pub fn plan(source: &Source, target: &str) -> (targets: Vec<UploadTarget>)
    ensures
        target_views(targets@) == planned(source@, target@),
{
    let mut targets: Vec<UploadTarget> = Vec::new();
    match source {
        Source::File(file) => {
            targets.push(
                UploadTarget {
                    local_path: file.path.clone(),
                    file_name: file.name.clone(),
                    remote_key: target.to_owned(),
                },
            );
            assert(target_views(targets@) =~= planned(source@, target@));
        },
        Source::Directory(files) => {
            let mut i: usize = 0;
            while i < files.len()
                invariant
                    i <= files.len(),
                    source@ == SourceView::Directory(files.deep_view()),
                    target_views(targets@) == planned(source@, target@).take(i as int),
                decreases files.len() - i,
            {
                let ghost before = target_views(targets@);
                let file = &files[i];
                targets.push(
                    UploadTarget {
                        local_path: file.path.clone(),
                        file_name: file.name.clone(),
                        remote_key: String::from_str(target).concat(file.name.as_str()),
                    },
                );
                let ghost listed = files.deep_view()[i as int];
                assert(target_views(targets@) =~= before.push(
                    target_of(listed, target@ + listed.name),
                ));
                assert(planned(source@, target@).take(i + 1) =~= planned(source@, target@).take(
                    i as int,
                ).push(planned(source@, target@)[i as int]));
                i = i + 1;
            }
            assert(planned(source@, target@).take(i as int) =~= planned(source@, target@));
        },
    }
    targets
}

/// How many transfers run at a time where nothing else is asked for.
pub const WORKERS: usize = 8;

/// An upload of several files, of which a bounded number run at a time.
#[derive(Debug)]
pub struct Upload {
    targets: Vec<UploadTarget>,
    slots: Vec<Slot>,
    limit: usize,
    started: usize,
    running: usize,
    progress: BatchProgress,
}

impl View for Upload {
    type V = UploadView;

    closed spec fn view(&self) -> UploadView {
        UploadView {
            targets: target_views(self.targets@),
            slots: slot_views(self.slots@),
            limit: self.limit as nat,
            started: self.started as nat,
        }
    }
}

impl Upload {
    /// The state is one that an upload can be in, and the counts that are
    /// kept are those of the transfers.
    #[verifier::type_invariant]
    spec fn sound(self) -> bool {
        &&& self@.wf()
        &&& self.running == running(self@.slots)
        &&& self.progress.completed == finished(self@.slots)
        &&& self.progress.total == self.targets.len()
    }

    /// The upload of `source` to `target` with at most `limit` transfers at
    /// a time. A limit of none is refused: nothing could ever start.
    pub fn new(source: &Source, target: &str, limit: usize) -> (r: Result<Upload, CliError>)
        ensures
            r is Ok <==> limit >= 1,
            r matches Ok(up) ==> up@ == UploadView::initial(
                planned(source@, target@),
                limit as nat,
            ) && up@.wf(),
            r matches Err(e) ==> e is Input,
    {
        if limit == 0 {
            return Err(CliError::Input("worker limit must be at least one"));
        }
        let targets = plan(source, target);
        let mut slots: Vec<Slot> = Vec::new();
        let mut i: usize = 0;
        while i < targets.len()
            invariant
                i <= targets.len(),
                slots.len() == i,
                forall|j: int| 0 <= j < i ==> #[trigger] slots[j]@ is Waiting,
                running(slot_views(slots@)) == 0,
                finished(slot_views(slots@)) == 0,
            decreases targets.len() - i,
        {
            let ghost before = slot_views(slots@);
            slots.push(Slot::Waiting);
            assert(slot_views(slots@).drop_last() =~= before);
            i = i + 1;
        }
        let total = targets.len();
        let up = Upload {
            targets,
            slots,
            limit,
            started: 0,
            running: 0,
            progress: BatchProgress { completed: 0, total },
        };
        assert(up@.slots =~= UploadView::initial(planned(source@, target@), limit as nat).slots);
        Ok(up)
    }

    /// The transfers, in the order in which they are started.
    pub fn targets(&self) -> (r: &Vec<UploadTarget>)
        ensures
            target_views(r@) == self@.targets,
    {
        &self.targets
    }

    /// How far the batch has come.
    pub fn progress(&self) -> (r: BatchProgress)
        ensures
            r.completed == finished(self@.slots),
            r.total == self@.targets.len(),
            self@.wf(),
    {
        proof {
            use_type_invariant(self);
        }
        self.progress
    }

    /// Whether every transfer has ended.
    pub fn is_done(&self) -> (r: bool)
        ensures
            r == self@.all_done(),
    {
        proof {
            use_type_invariant(self);
        }
        self.progress.completed == self.progress.total
    }

    /// Says what to do next, and takes a transfer that it tells to start as
    /// running.
    pub fn upload(self) -> (r: (Upload, Step))
        ensures
            r.1 == self@.next_step(),
            r.0@ == self@.after_step(),
    {
        proof {
            use_type_invariant(&self);
        }
        let Upload { targets, mut slots, limit, started, running, progress } = self;
        if started < slots.len() && running < limit {
            proof {
                lemma_update_counts(slot_views(slots@), started as int, SlotView::Running);
            }
            let ghost before = slot_views(slots@);
            slots.set(started, Slot::Running);
            assert(slot_views(slots@) =~= before.update(started as int, SlotView::Running));
            let next = Upload {
                targets,
                slots,
                limit,
                started: started + 1,
                running: running + 1,
                progress,
            };
            (next, Step::Start(started))
        } else if running > 0 {
            (Upload { targets, slots, limit, started, running, progress }, Step::Wait)
        } else {
            (Upload { targets, slots, limit, started, running, progress }, Step::Done)
        }
    }

    /// Takes the end of the transfer `index`, which moved `size` bytes or
    /// failed: the transfer is counted once and its outcome kept, and the
    /// line that reports it is returned. An `index` that no running transfer
    /// has is refused, and nothing changes.
    pub fn complete(
        self,
        index: usize,
        size: u64,
        result: Result<String, CliError>,
    ) -> (r: (Upload, Result<String, CliError>))
        ensures
            r.1 is Ok <==> self@.in_flight(index as int),
            r.0@ == self@.after_finish(index as int, failure_of(result)),
            r.1 matches Ok(line) ==> line@ == progress_line(
                self@.targets[index as int].file_name,
                size as nat,
                finished(r.0@.slots),
                self@.targets.len(),
            ) && finished(r.0@.slots) == finished(self@.slots) + 1,
            r.1 matches Err(e) ==> e is Input,
    {
        proof {
            use_type_invariant(&self);
        }
        let Upload { targets, mut slots, limit, started, running, progress } = self;
        let runs = index < slots.len() && match slots[index] {
            Slot::Running => true,
            _ => false,
        };
        if !runs {
            let same = Upload { targets, slots, limit, started, running, progress };
            return (same, Err(CliError::Input("no such transfer is running")));
        }
        let outcome = match result {
            Ok(_) => UploadOutcome::Succeeded(targets[index].remote_key.clone()),
            Err(e) => UploadOutcome::Failed(targets[index].local_path.clone(), e.message()),
        };
        assert(outcome@ == outcome_of(target_views(targets@)[index as int], failure_of(result)));
        let ghost before = slot_views(slots@);
        proof {
            lemma_update_counts(before, index as int, SlotView::Done(outcome@));
            lemma_finished_all(before);
            assert(running > 0);
        }
        slots.set(index, Slot::Done(outcome));
        assert(slot_views(slots@) =~= before.update(index as int, SlotView::Done(outcome@)));
        let count = BatchProgress { completed: progress.completed + 1, total: progress.total };
        let line = report_line(targets[index].file_name.as_str(), size, count);
        let next = Upload { targets, slots, limit, started, running: running - 1, progress: count };
        (next, Ok(line))
    }

    /// The outcomes of the transfers, in the order of the transfers, once
    /// every transfer has ended; nothing before.
    pub fn into_outcomes(self) -> (r: Option<Vec<UploadOutcome>>)
        ensures
            r is Some <==> self@.all_done(),
            r matches Some(outcomes) ==> {
                &&& outcomes.len() == self@.targets.len()
                &&& forall|i: int|
                    0 <= i < outcomes.len() ==> self@.slots[i] == SlotView::Done(
                        #[trigger] outcomes[i]@,
                    )
            },
    {
        proof {
            use_type_invariant(&self);
            lemma_finished_all(self@.slots);
        }
        if self.progress.completed != self.progress.total {
            return None;
        }
        let Upload { targets, mut slots, limit, started, running, progress } = self;
        let ghost all = slot_views(slots@);
        let mut backwards: Vec<UploadOutcome> = Vec::new();
        while slots.len() > 0
            invariant
                slots.len() + backwards.len() == all.len(),
                slot_views(slots@) == all.take(slots.len() as int),
                forall|i: int| 0 <= i < all.len() ==> #[trigger] all[i] is Done,
                forall|k: int|
                    0 <= k < backwards.len() ==> all[all.len() - 1 - k] == SlotView::Done(
                        #[trigger] backwards[k]@,
                    ),
            decreases slots.len(),
        {
            let ghost n = slots.len() as int;
            let ghost held = slot_views(slots@);
            let slot = slots.pop();
            proof {
                assert(held[n - 1] == all[n - 1]);
                assert(all[n - 1] is Done);
                assert(slot_views(slots@) =~= all.take(n - 1));
            }
            match slot {
                Some(Slot::Done(outcome)) => {
                    backwards.push(outcome);
                },
                _ => {},
            }
        }
        let mut outcomes: Vec<UploadOutcome> = Vec::new();
        while backwards.len() > 0
            invariant
                backwards.len() + outcomes.len() == all.len(),
                forall|k: int|
                    0 <= k < backwards.len() ==> all[all.len() - 1 - k] == SlotView::Done(
                        #[trigger] backwards[k]@,
                    ),
                forall|i: int|
                    0 <= i < outcomes.len() ==> all[i] == SlotView::Done(#[trigger] outcomes[i]@),
            decreases backwards.len(),
        {
            let ghost n = backwards.len() as int;
            let ghost m = outcomes.len() as int;
            let ghost held = backwards@;
            let ghost done = outcomes@;
            match backwards.pop() {
                Some(outcome) => {
                    assert(outcome == held[n - 1]);
                    assert(all[all.len() - 1 - (n - 1)] == SlotView::Done(held[n - 1]@));
                    outcomes.push(outcome);
                    assert forall|i: int| 0 <= i < outcomes.len() implies all[i] == SlotView::Done(
                        #[trigger] outcomes[i]@,
                    ) by {
                        if i < m {
                            assert(outcomes[i] == done[i]);
                        }
                    }
                    assert forall|k: int| 0 <= k < backwards.len() implies all[all.len() - 1 - k]
                        == SlotView::Done(#[trigger] backwards[k]@) by {
                        assert(backwards[k] == held[k]);
                    }
                },
                None => {},
            }
        }
        Some(outcomes)
    }
}

/// How many of the outcomes are failures.
pub open spec fn failures(outcomes: Seq<OutcomeView>) -> nat
    decreases outcomes.len(),
{
    if outcomes.len() == 0 {
        0
    } else {
        failures(outcomes.drop_last()) + if outcomes.last() is Failed {
            1nat
        } else {
            0nat
        }
    }
}

/// How many of the outcomes are successes.
pub open spec fn successes(outcomes: Seq<OutcomeView>) -> nat
    decreases outcomes.len(),
{
    if outcomes.len() == 0 {
        0
    } else {
        successes(outcomes.drop_last()) + if outcomes.last() is Succeeded {
            1nat
        } else {
            0nat
        }
    }
}

/// How many of the transfers ended in a failure.
pub open spec fn failed_transfers(ends: Seq<Option<Seq<char>>>) -> nat
    decreases ends.len(),
{
    if ends.len() == 0 {
        0
    } else {
        failed_transfers(ends.drop_last()) + if ends.last() is Some {
            1nat
        } else {
            0nat
        }
    }
}

/// Asking for the next step keeps the state one that an upload can be in,
/// and a started transfer is one more that runs.
pub proof fn lemma_step(state: UploadView)
    requires
        state.wf(),
    ensures
        state.after_step().wf(),
        state.after_step().targets == state.targets,
        finished(state.after_step().slots) == finished(state.slots),
        state.next_step() is Start ==> running(state.after_step().slots) == running(state.slots)
            + 1,
        !(state.next_step() is Start) ==> state.after_step() == state,
{
    if state.started < state.slots.len() && running(state.slots) < state.limit {
        lemma_update_counts(state.slots, state.started as int, SlotView::Running);
    }
}

/// The end of a running transfer is counted once: one less runs and one
/// more has ended, whether it failed or not. The end of a transfer that does
/// not run changes nothing, so none is counted twice.
pub proof fn lemma_finish(state: UploadView, index: int, failure: Option<Seq<char>>)
    requires
        state.wf(),
    ensures
        state.after_finish(index, failure).wf(),
        state.after_finish(index, failure).targets == state.targets,
        state.in_flight(index) ==> {
            &&& finished(state.after_finish(index, failure).slots) == finished(state.slots) + 1
            &&& running(state.after_finish(index, failure).slots) + 1 == running(state.slots)
            &&& !state.after_finish(index, failure).in_flight(index)
        },
        !state.in_flight(index) ==> state.after_finish(index, failure) == state,
{
    if state.in_flight(index) {
        lemma_update_counts(
            state.slots,
            index,
            SlotView::Done(outcome_of(state.targets[index], failure)),
        );
    }
}

/// An upload always has something to do until all is done: whatever the
/// limit, it comes to rest exactly when every transfer has ended, and then
/// it holds one outcome for each transfer.
pub proof fn lemma_rest(state: UploadView)
    requires
        state.wf(),
    ensures
        state.next_step() is Done <==> state.all_done(),
        state.next_step() is Wait ==> running(state.slots) > 0,
        state.all_done() ==> forall|i: int|
            0 <= i < state.targets.len() ==> #[trigger] state.slots[i] is Done,
{
    lemma_counts(state.slots, state.started);
    lemma_finished_all(state.slots);
    if state.all_done() {
        assert(state.started == state.slots.len());
    }
    if state.next_step() is Done {
        if state.started < state.slots.len() {
            assert(running(state.slots) >= state.limit);
        }
    }
}

/// Where a transfer is counted as running, one runs.
pub proof fn lemma_some_running(slots: Seq<SlotView>)
    requires
        running(slots) > 0,
    ensures
        exists|i: int| 0 <= i < slots.len() && #[trigger] slots[i] is Running,
    decreases slots.len(),
{
    if slots.last() is Running {
        assert(slots[slots.len() - 1] is Running);
    } else {
        lemma_some_running(slots.drop_last());
        let i = choose|i: int|
            0 <= i < slots.drop_last().len() && #[trigger] slots.drop_last()[i] is Running;
        assert(slots[i] is Running);
    }
}

/// An upload that is not done can always go on: either a transfer is there
/// to start, or one runs whose end can be reported. So a batch is never left
/// half done, whether transfers fail or not.
pub proof fn lemma_goes_on(state: UploadView)
    requires
        state.wf(),
        !state.all_done(),
    ensures
        state.next_step() is Start ==> state.after_step().started == state.started + 1,
        state.next_step() is Wait ==> exists|i: int| #[trigger] state.in_flight(i),
        !(state.next_step() is Done),
{
    lemma_rest(state);
    if state.next_step() is Wait {
        lemma_some_running(state.slots);
        let i = choose|i: int| 0 <= i < state.slots.len() && #[trigger] state.slots[i] is Running;
        assert(state.in_flight(i));
    }
}

/// What can happen to an upload.
pub enum Event {
    /// The next step is asked for.
    Next,
    /// The end of the transfer of this number is reported, with the reason
    /// where it failed.
    Ended(int, Option<Seq<char>>),
}

/// The state after `event`.
pub open spec fn after(state: UploadView, event: Event) -> UploadView {
    match event {
        Event::Next => state.after_step(),
        Event::Ended(index, failure) => state.after_finish(index, failure),
    }
}

/// The state after all of `events`, in their order.
pub open spec fn after_all(state: UploadView, events: Seq<Event>) -> UploadView
    decreases events.len(),
{
    if events.len() == 0 {
        state
    } else {
        after(after_all(state, events.drop_last()), events.last())
    }
}

/// Whatever happens, in whatever order and under whatever limit: no more
/// transfers run than may, the count of those that have ended never goes
/// down and never passes the number of transfers, and once it has reached
/// that number nothing changes any more.
pub proof fn lemma_run(state: UploadView, events: Seq<Event>)
    requires
        state.wf(),
    ensures
        after_all(state, events).wf(),
        after_all(state, events).targets == state.targets,
        after_all(state, events).limit == state.limit,
        running(after_all(state, events).slots) <= state.limit,
        finished(state.slots) <= finished(after_all(state, events).slots) <= state.targets.len(),
        state.all_done() ==> after_all(state, events) == state,
    decreases events.len(),
{
    lemma_finished_all(state.slots);
    if events.len() > 0 {
        let before = after_all(state, events.drop_last());
        lemma_run(state, events.drop_last());
        lemma_rest(before);
        match events.last() {
            Event::Next => {
                lemma_step(before);
            },
            Event::Ended(index, failure) => {
                lemma_finish(before, index, failure);
                if before.all_done() && before.in_flight(index) {
                    assert(before.slots[index] is Done);
                }
            },
        }
        lemma_finished_all(after_all(state, events).slots);
    }
}

/// A batch of transfers of which some fail still has one outcome for each
/// transfer: as many failures as transfers that failed, and a success for
/// each of the others.
pub proof fn lemma_tally(targets: Seq<TargetView>, ends: Seq<Option<Seq<char>>>)
    requires
        targets.len() == ends.len(),
    ensures
        failures(Seq::new(targets.len(), |i: int| outcome_of(targets[i], ends[i])))
            == failed_transfers(ends),
        successes(Seq::new(targets.len(), |i: int| outcome_of(targets[i], ends[i])))
            == targets.len() - failed_transfers(ends),
    decreases targets.len(),
{
    let outcomes = Seq::new(targets.len(), |i: int| outcome_of(targets[i], ends[i]));
    if targets.len() > 0 {
        let fewer = Seq::new(
            targets.drop_last().len(),
            |i: int| outcome_of(targets.drop_last()[i], ends.drop_last()[i]),
        );
        assert(outcomes.drop_last() =~= fewer);
        lemma_tally(targets.drop_last(), ends.drop_last());
    }
}

} // verus!
