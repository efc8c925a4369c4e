//! The file beside a rollout that holds the alarms of its thread.
//!
//! Writing it is a sequence of steps on files. What is decided here is which
//! step comes next, given what became of the last one.
use vstd::prelude::*;
use vstd::string::StringExecFns;

use crate::alarm::{PersistedAlarm, PersistedModel};
use crate::alarms;
use crate::text;
use crate::text::copy_of;
use crate::uuid_text;
use crate::uuid_text::random_uuid;

verus! {

/// What the list of threads shows of a thread that has only alarms.
pub const ALARM_THREAD_PREVIEW: &'static str = "(alarm configured)";

/// The path of the sidecar of a rollout.
pub open spec fn sidecar_path(rollout_path: Seq<char>) -> Seq<char> {
    rollout_path + ".alarms.json"@
}

/// The path of the sidecar of a rollout.
pub fn alarm_sidecar_path_for_rollout(rollout_path: &str) -> (r: String)
    ensures
        r@ == sidecar_path(rollout_path@),
{
    let mut r = copy_of(rollout_path);
    r.append(".alarms.json");
    r
}

/// What the list of threads shows of a thread, given whether its sidecar is
/// there, where that is known.
pub fn thread_preview_from_alarm_sidecar(exists: Option<bool>) -> (r: Option<String>)
    ensures
        text::opt_view(r) == (if exists == Some(true) {
            Some(ALARM_THREAD_PREVIEW@)
        } else {
            None
        }),
{
    match exists {
        Some(true) => Some(copy_of(ALARM_THREAD_PREVIEW)),
        _ => None,
    }
}

/// What reading a sidecar gave.
#[derive(Debug, PartialEq, Eq)]
pub enum SidecarContent {
    /// There is no such file.
    NotFound,
    /// It could not be read.
    Unreadable(String),
    /// It does not hold a list.
    Unparsable(String),
    /// The entries of its list: an alarm, or nothing for an invalid entry.
    Entries(Vec<Option<PersistedAlarm>>),
}

/// The alarms among the entries of a sidecar.
pub open spec fn valid_entries(entries: Seq<Option<PersistedAlarm>>) -> Seq<PersistedModel>
    decreases entries.len(),
{
    if entries.len() == 0 {
        Seq::empty()
    } else {
        match entries.last() {
            Some(alarm) => valid_entries(entries.drop_last()).push(alarm@),
            None => valid_entries(entries.drop_last()),
        }
    }
}

/// The alarms that a sidecar holds, or why they cannot be had.
pub open spec fn loaded(rollout_path: Seq<char>, content: SidecarContent) -> Result<
    Seq<PersistedModel>,
    Seq<char>,
> {
    match content {
        SidecarContent::NotFound => Ok(Seq::empty()),
        SidecarContent::Unreadable(e) => Err(
            "failed to read alarm sidecar `"@ + sidecar_path(rollout_path) + "`: "@ + e@,
        ),
        SidecarContent::Unparsable(e) => Err(
            "failed to parse alarm sidecar `"@ + sidecar_path(rollout_path) + "`: "@ + e@,
        ),
        SidecarContent::Entries(entries) => Ok(valid_entries(entries@)),
    }
}

/// The view of loaded alarms, or of the reason why there are none.
pub open spec fn loaded_view(r: Result<Vec<PersistedAlarm>, String>) -> Result<
    Seq<PersistedModel>,
    Seq<char>,
> {
    match r {
        Ok(stored) => Ok(alarms::persisted_views(stored@)),
        Err(e) => Err(e@),
    }
}

/// `head`, a path in back quotes, a colon and a cause.
fn failure_text(head: &str, path: &str, cause: &str) -> (r: String)
    ensures
        r@ == head@ + path@ + "`: "@ + cause@,
{
    let mut r = copy_of(head);
    r.append(path);
    r.append("`: ");
    r.append(cause);
    r
}

/// The alarms that a sidecar holds: all its entries that are alarms, in order.
pub fn load_alarm_sidecar(rollout_path: &str, content: SidecarContent) -> (r: Result<
    Vec<PersistedAlarm>,
    String,
>)
    ensures
        loaded_view(r) == loaded(rollout_path@, content),
{
    let path = alarm_sidecar_path_for_rollout(rollout_path);
    match content {
        SidecarContent::NotFound => {
            let r: Vec<PersistedAlarm> = Vec::new();
            assert(alarms::persisted_views(r@) =~= Seq::<PersistedModel>::empty());
            Ok(r)
        },
        SidecarContent::Unreadable(e) => Err(
            failure_text("failed to read alarm sidecar `", path.as_str(), e.as_str()),
        ),
        SidecarContent::Unparsable(e) => Err(
            failure_text("failed to parse alarm sidecar `", path.as_str(), e.as_str()),
        ),
        SidecarContent::Entries(entries) => {
            let mut r: Vec<PersistedAlarm> = Vec::new();
            let mut i: usize = 0;
            assert(alarms::persisted_views(r@) =~= Seq::<PersistedModel>::empty());
            while i < entries.len()
                invariant
                    i <= entries@.len(),
                    alarms::persisted_views(r@) == valid_entries(entries@.take(i as int)),
                decreases entries@.len() - i,
            {
                let ghost before = r@;
                assert(entries@.take(i + 1).drop_last() =~= entries@.take(i as int));
                if let Some(alarm) = &entries[i] {
                    r.push(alarm.clone());
                    assert(alarms::persisted_views(r@) =~= alarms::persisted_views(before).push(
                        alarm@,
                    ));
                }
                i = i + 1;
            }
            assert(entries@.take(i as int) =~= entries@);
            Ok(r)
        },
    }
}

/// A step of writing a sidecar.
#[derive(Debug, Clone, Copy, PartialEq, Eq, Structural)]
pub enum SidecarStep {
    /// Remove the sidecar.
    RemoveSidecar,
    /// Turn the alarms into bytes.
    Serialize,
    /// Write the bytes to the temporary file.
    WriteTemporary,
    /// Rename the temporary file to the sidecar.
    Rename,
    /// Remove the sidecar, which is in the way of the renaming.
    RemoveExisting,
    /// Rename the temporary file to the sidecar once more.
    RenameAgain,
    /// Remove the temporary file, whatever becomes of that.
    DiscardTemporary,
}

/// What became of a step.
#[derive(Debug, PartialEq, Eq)]
pub enum StepOutcome {
    /// It was done.
    Done,
    /// There was no such file.
    NotFound(String),
    /// It failed otherwise.
    Failed(String),
}

/// The view of a [`StepOutcome`].
pub enum OutcomeModel {
    Done,
    NotFound(Seq<char>),
    Failed(Seq<char>),
}

impl View for StepOutcome {
    type V = OutcomeModel;

    open spec fn view(&self) -> OutcomeModel {
        match self {
            StepOutcome::Done => OutcomeModel::Done,
            StepOutcome::NotFound(e) => OutcomeModel::NotFound(e@),
            StepOutcome::Failed(e) => OutcomeModel::Failed(e@),
        }
    }
}

/// A write of a sidecar under way.
#[derive(Debug, PartialEq, Eq)]
pub struct SidecarWrite {
    /// The path of the sidecar.
    pub sidecar_path: String,
    /// The path of the temporary file.
    pub tmp_path: String,
    /// Whether a file has to go before another can take its name, as on Windows.
    pub removes_before_rename: bool,
    /// The step to do; none where the write is over.
    pub step: Option<SidecarStep>,
    /// What is wrong, so far.
    pub failure: Option<String>,
}

/// The view of a [`SidecarWrite`].
pub struct WriteModel {
    pub sidecar_path: Seq<char>,
    pub tmp_path: Seq<char>,
    pub removes_before_rename: bool,
    pub step: Option<SidecarStep>,
    pub failure: Option<Seq<char>>,
}

impl View for SidecarWrite {
    type V = WriteModel;

    open spec fn view(&self) -> WriteModel {
        WriteModel {
            sidecar_path: self.sidecar_path@,
            tmp_path: self.tmp_path@,
            removes_before_rename: self.removes_before_rename,
            step: self.step,
            failure: text::opt_view(self.failure),
        }
    }
}

/// A write with its first step. An empty list of alarms has no sidecar.
pub open spec fn first_step(
    rollout_path: Seq<char>,
    no_alarms: bool,
    suffix: Seq<char>,
    removes_before_rename: bool,
) -> WriteModel {
    WriteModel {
        sidecar_path: sidecar_path(rollout_path),
        tmp_path: sidecar_path(rollout_path) + ".tmp-"@ + suffix,
        removes_before_rename,
        step: Some(
            if no_alarms {
                SidecarStep::RemoveSidecar
            } else {
                SidecarStep::Serialize
            },
        ),
        failure: None,
    }
}

impl WriteModel {
    /// The write, at the given step.
    pub open spec fn at(self, step: Option<SidecarStep>) -> WriteModel {
        WriteModel { step, ..self }
    }

    /// The write, at the given step and with what is wrong.
    pub open spec fn failing(self, step: Option<SidecarStep>, failure: Seq<char>) -> WriteModel {
        WriteModel { step, failure: Some(failure), ..self }
    }

    /// A failure to put the temporary file in the place of the sidecar.
    pub open spec fn replace_text(self, head: Seq<char>, cause: Seq<char>) -> Seq<char> {
        head + self.sidecar_path + "` with `"@ + self.tmp_path + "`: "@ + cause
    }

    /// The write after its step had the given outcome.
    pub open spec fn next(self, outcome: OutcomeModel) -> WriteModel {
        let cause = match outcome {
            OutcomeModel::Done => Seq::empty(),
            OutcomeModel::NotFound(e) => e,
            OutcomeModel::Failed(e) => e,
        };
        match self.step {
            None => self,
            Some(SidecarStep::RemoveSidecar) => if outcome is Failed {
                self.failing(
                    None,
                    "failed to remove empty alarm sidecar `"@ + self.sidecar_path + "`: "@ + cause,
                )
            } else {
                self.at(None)
            },
            Some(SidecarStep::Serialize) => if outcome is Done {
                self.at(Some(SidecarStep::WriteTemporary))
            } else {
                self.failing(
                    None,
                    "failed to serialize alarm sidecar `"@ + self.sidecar_path + "`: "@ + cause,
                )
            },
            Some(SidecarStep::WriteTemporary) => if outcome is Done {
                self.at(Some(SidecarStep::Rename))
            } else {
                self.failing(
                    None,
                    "failed to write temporary alarm sidecar `"@ + self.tmp_path + "`: "@ + cause,
                )
            },
            Some(SidecarStep::Rename) => if outcome is Done {
                self.at(None)
            } else {
                self.failing(
                    Some(
                        if self.removes_before_rename {
                            SidecarStep::RemoveExisting
                        } else {
                            SidecarStep::DiscardTemporary
                        },
                    ),
                    self.replace_text("failed to atomically replace alarm sidecar `"@, cause),
                )
            },
            Some(SidecarStep::RemoveExisting) => match outcome {
                OutcomeModel::Done => self.at(Some(SidecarStep::RenameAgain)),
                OutcomeModel::NotFound(_) => self.at(Some(SidecarStep::DiscardTemporary)),
                OutcomeModel::Failed(_) => self.failing(
                    Some(SidecarStep::DiscardTemporary),
                    "failed to remove existing alarm sidecar `"@ + self.sidecar_path
                        + "` before replace: "@ + cause,
                ),
            },
            Some(SidecarStep::RenameAgain) => if outcome is Done {
                WriteModel { step: None, failure: None, ..self }
            } else {
                self.failing(None, self.replace_text("failed to replace alarm sidecar `"@, cause))
            },
            Some(SidecarStep::DiscardTemporary) => self.at(None),
        }
    }

    /// What the write came to, where it is over.
    pub open spec fn result(self) -> Option<Result<(), Seq<char>>> {
        match self.step {
            Some(_) => None,
            None => Some(
                match self.failure {
                    Some(e) => Err(e),
                    None => Ok(()),
                },
            ),
        }
    }
}

impl SidecarWrite {
    /// A write that names its temporary file with the given suffix.
    pub fn with_suffix(
        rollout_path: &str,
        no_alarms: bool,
        suffix: &str,
        removes_before_rename: bool,
    ) -> (r: SidecarWrite)
        ensures
            r@ == first_step(rollout_path@, no_alarms, suffix@, removes_before_rename),
    {
        let sidecar_path = alarm_sidecar_path_for_rollout(rollout_path);
        let mut tmp_path = copy_of(sidecar_path.as_str());
        tmp_path.append(".tmp-");
        tmp_path.append(suffix);
        let step = if no_alarms {
            SidecarStep::RemoveSidecar
        } else {
            SidecarStep::Serialize
        };
        SidecarWrite {
            sidecar_path,
            tmp_path,
            removes_before_rename,
            step: Some(step),
            failure: None,
        }
    }

    /// A write of the given alarms that names its temporary file at random.
    pub fn begin(rollout_path: &str, alarms: &Vec<PersistedAlarm>, removes_before_rename: bool) -> (r:
        SidecarWrite)
        ensures
            exists|suffix: Seq<char>| #[trigger]
                uuid_text::is_uuid_text(suffix) && r@ == first_step(
                    rollout_path@,
                    alarms@.len() == 0,
                    suffix,
                    removes_before_rename,
                ),
    {
        let suffix = random_uuid();
        SidecarWrite::with_suffix(
            rollout_path,
            alarms.len() == 0,
            suffix.as_str(),
            removes_before_rename,
        )
    }

    fn fail(self, step: Option<SidecarStep>, failure: String) -> (r: SidecarWrite)
        ensures
            r@ == self@.failing(step, failure@),
    {
        SidecarWrite {
            sidecar_path: self.sidecar_path,
            tmp_path: self.tmp_path,
            removes_before_rename: self.removes_before_rename,
            step,
            failure: Some(failure),
        }
    }

    fn go(self, step: Option<SidecarStep>) -> (r: SidecarWrite)
        ensures
            r@ == self@.at(step),
    {
        SidecarWrite {
            sidecar_path: self.sidecar_path,
            tmp_path: self.tmp_path,
            removes_before_rename: self.removes_before_rename,
            step,
            failure: self.failure,
        }
    }

    fn word_replace_failure(&self, head: &str, cause: &str) -> (r: String)
        ensures
            r@ == self@.replace_text(head@, cause@),
    {
        let mut r = copy_of(head);
        r.append(self.sidecar_path.as_str());
        r.append("` with `");
        r.append(self.tmp_path.as_str());
        r.append("`: ");
        r.append(cause);
        r
    }

    /// Goes on, given what became of the step.
    pub fn advance(self, outcome: StepOutcome) -> (r: SidecarWrite)
        ensures
            r@ == self@.next(outcome@),
    {
        let step = match self.step {
            None => {
                return self;
            },
            Some(step) => step,
        };
        let (done, absent, cause) = match outcome {
            StepOutcome::Done => (true, false, String::new()),
            StepOutcome::NotFound(e) => (false, true, e),
            StepOutcome::Failed(e) => (false, false, e),
        };
        match step {
            SidecarStep::RemoveSidecar => if done || absent {
                self.go(None)
            } else {
                let e = failure_text(
                    "failed to remove empty alarm sidecar `",
                    self.sidecar_path.as_str(),
                    cause.as_str(),
                );
                self.fail(None, e)
            },
            SidecarStep::Serialize => if done {
                self.go(Some(SidecarStep::WriteTemporary))
            } else {
                let e = failure_text(
                    "failed to serialize alarm sidecar `",
                    self.sidecar_path.as_str(),
                    cause.as_str(),
                );
                self.fail(None, e)
            },
            SidecarStep::WriteTemporary => if done {
                self.go(Some(SidecarStep::Rename))
            } else {
                let e = failure_text(
                    "failed to write temporary alarm sidecar `",
                    self.tmp_path.as_str(),
                    cause.as_str(),
                );
                self.fail(None, e)
            },
            SidecarStep::Rename => if done {
                self.go(None)
            } else {
                let e = self.word_replace_failure(
                    "failed to atomically replace alarm sidecar `",
                    cause.as_str(),
                );
                let step = if self.removes_before_rename {
                    SidecarStep::RemoveExisting
                } else {
                    SidecarStep::DiscardTemporary
                };
                self.fail(Some(step), e)
            },
            SidecarStep::RemoveExisting => if done {
                self.go(Some(SidecarStep::RenameAgain))
            } else if absent {
                self.go(Some(SidecarStep::DiscardTemporary))
            } else {
                let mut e = copy_of("failed to remove existing alarm sidecar `");
                e.append(self.sidecar_path.as_str());
                e.append("` before replace: ");
                e.append(cause.as_str());
                self.fail(Some(SidecarStep::DiscardTemporary), e)
            },
            SidecarStep::RenameAgain => if done {
                SidecarWrite {
                    sidecar_path: self.sidecar_path,
                    tmp_path: self.tmp_path,
                    removes_before_rename: self.removes_before_rename,
                    step: None,
                    failure: None,
                }
            } else {
                let e = self.word_replace_failure(
                    "failed to replace alarm sidecar `",
                    cause.as_str(),
                );
                self.fail(None, e)
            },
            SidecarStep::DiscardTemporary => self.go(None),
        }
    }

    /// What the write came to, where it is over.
    pub fn into_result(self) -> (r: Option<Result<(), String>>)
        ensures
            (match r {
                Some(result) => Some(text::error_view(result)),
                None => None,
            }) == self@.result(),
    {
        match self.step {
            Some(_) => None,
            None => match self.failure {
                Some(e) => Some(Err(e)),
                None => Some(Ok(())),
            },
        }
    }
}

/// The number of steps that a write has left at most.
pub open spec fn steps_left(write: WriteModel) -> nat {
    match write.step {
        None => 0,
        Some(SidecarStep::RemoveSidecar) => 1,
        Some(SidecarStep::DiscardTemporary) => 1,
        Some(SidecarStep::RenameAgain) => 1,
        Some(SidecarStep::RemoveExisting) => 2,
        Some(SidecarStep::Rename) => 3,
        Some(SidecarStep::WriteTemporary) => 4,
        Some(SidecarStep::Serialize) => 5,
    }
}

/// Each step of a write brings its end nearer.
pub proof fn write_ends(write: WriteModel, outcome: OutcomeModel)
    requires
        write.step is Some,
    ensures
        steps_left(write.next(outcome)) < steps_left(write),
{
}

/// A write without alarms removes the sidecar and does nothing else; it succeeds
/// where there was none, too.
pub proof fn no_alarms_no_sidecar(
    rollout_path: Seq<char>,
    suffix: Seq<char>,
    removes_before_rename: bool,
    outcome: OutcomeModel,
)
    ensures
        ({
            let write = first_step(rollout_path, true, suffix, removes_before_rename);
            &&& write.step == Some(SidecarStep::RemoveSidecar)
            &&& write.next(outcome).step is None
            &&& write.next(outcome).result() == Some(Ok::<(), Seq<char>>(())) <==> !(
            outcome is Failed)
        }),
{
}

/// Where a file can take the name of another, a write of alarms never removes
/// the sidecar: it renames a file that was written whole, and removes that file
/// where the renaming fails.
pub proof fn sidecar_is_replaced_whole(write: WriteModel, outcome: OutcomeModel)
    requires
        !write.removes_before_rename,
        write.step == Some(SidecarStep::Serialize) || write.step == Some(
            SidecarStep::WriteTemporary,
        ) || write.step == Some(SidecarStep::Rename) || write.step == Some(
            SidecarStep::DiscardTemporary,
        ),
    ensures
        ({
            let next = write.next(outcome);
            &&& next.step != Some(SidecarStep::RemoveSidecar)
            &&& next.step != Some(SidecarStep::RemoveExisting)
            &&& next.step == Some(SidecarStep::Rename) ==> write.step == Some(
                SidecarStep::WriteTemporary,
            ) && outcome is Done
            &&& write.step == Some(SidecarStep::Rename) && !(outcome is Done) ==> next.step == Some(
                SidecarStep::DiscardTemporary,
            )
            &&& !next.removes_before_rename
        }),
{
}

/// A write whose every step is done succeeds.
pub proof fn smooth_write_succeeds(
    rollout_path: Seq<char>,
    suffix: Seq<char>,
    removes_before_rename: bool,
)
    ensures
        first_step(rollout_path, false, suffix, removes_before_rename).next(
            OutcomeModel::Done,
        ).next(OutcomeModel::Done).next(OutcomeModel::Done).result() == Some(
            Ok::<(), Seq<char>>(()),
        ),
{
}

/// A sidecar whose entries are all alarms gives those alarms.
pub proof fn valid_entries_are_kept(entries: Seq<Option<PersistedAlarm>>)
    requires
        forall|i: int| 0 <= i < entries.len() ==> (#[trigger] entries[i]) is Some,
    ensures
        valid_entries(entries).len() == entries.len(),
        forall|i: int|
            0 <= i < entries.len() ==> #[trigger] valid_entries(entries)[i] == entries[i]->0@,
    decreases entries.len(),
{
    if entries.len() > 0 {
        valid_entries_are_kept(entries.drop_last());
    }
}

} // verus!
