//! What holds of the files that keep the alarms of threads.
use vstd::prelude::*;

use crate::alarm::{PersistedAlarm, PersistedModel};
use crate::sidecar;
use crate::sidecar::{OutcomeModel, SidecarContent, SidecarStep, SidecarWrite, StepOutcome, WriteModel};

verus! {

/// The sidecar of a rollout stands beside it, and the temporary file of a write beside
/// the sidecar. Two writes with different suffixes have different temporary files, and
/// none is the sidecar.
pub proof fn files_stand_beside_the_rollout(
    rollout_path: Seq<char>,
    suffix: Seq<char>,
    other: Seq<char>,
    no_alarms: bool,
    removes_before_rename: bool,
)
    requires
        other != suffix,
    ensures
        ({
            let write = sidecar::first_step(
                rollout_path,
                no_alarms,
                suffix,
                removes_before_rename,
            );
            let second = sidecar::first_step(
                rollout_path,
                no_alarms,
                other,
                removes_before_rename,
            );
            &&& write.sidecar_path == rollout_path + ".alarms.json"@
            &&& write.tmp_path == write.sidecar_path + ".tmp-"@ + suffix
            &&& write.sidecar_path == second.sidecar_path
            &&& write.tmp_path != second.tmp_path
            &&& write.tmp_path != write.sidecar_path
            &&& write.removes_before_rename == removes_before_rename
            &&& write.failure is None
            &&& no_alarms ==> write.step == Some(SidecarStep::RemoveSidecar)
            &&& !no_alarms ==> write.step == Some(SidecarStep::Serialize)
        }),
{
    reveal_strlit(".tmp-");
    let write = sidecar::first_step(rollout_path, no_alarms, suffix, removes_before_rename);
    let second = sidecar::first_step(rollout_path, no_alarms, other, removes_before_rename);
    let n = write.sidecar_path.len() as int + 5;
    assert(write.tmp_path.skip(n) =~= suffix);
    assert(second.tmp_path.skip(n) =~= other);
    assert(write.tmp_path.len() > write.sidecar_path.len());
}

/// Two rollouts have two sidecars.
pub proof fn rollouts_have_their_own_sidecars(a: Seq<char>, b: Seq<char>)
    requires
        a != b,
    ensures
        sidecar::sidecar_path(a) != sidecar::sidecar_path(b),
{
    if sidecar::sidecar_path(a) == sidecar::sidecar_path(b) {
        let end = ".alarms.json"@;
        assert(sidecar::sidecar_path(a).len() == a.len() + end.len());
        assert(sidecar::sidecar_path(b).len() == b.len() + end.len());
        assert(sidecar::sidecar_path(a).take(a.len() as int) =~= a);
        assert(sidecar::sidecar_path(b).take(b.len() as int) =~= b);
    }
}

/// Whether nothing was wrong so far where the temporary file is not in place yet, and
/// something was where it has to be got out of the way.
pub open spec fn is_in_order(write: WriteModel) -> bool {
    match write.step {
        None => true,
        Some(SidecarStep::RemoveSidecar) => write.failure is None,
        Some(SidecarStep::Serialize) => write.failure is None,
        Some(SidecarStep::WriteTemporary) => write.failure is None,
        Some(SidecarStep::Rename) => write.failure is None,
        Some(SidecarStep::RemoveExisting) => write.failure is Some,
        Some(SidecarStep::RenameAgain) => write.failure is Some,
        Some(SidecarStep::DiscardTemporary) => write.failure is Some,
    }
}

/// A write stays in order from its first step on, keeps its files, and comes to its
/// result when its last step is done.
pub proof fn writes_stay_in_order(
    rollout_path: Seq<char>,
    no_alarms: bool,
    suffix: Seq<char>,
    removes_before_rename: bool,
    write: WriteModel,
    outcome: OutcomeModel,
)
    requires
        is_in_order(write),
    ensures
        is_in_order(sidecar::first_step(rollout_path, no_alarms, suffix, removes_before_rename)),
        is_in_order(write.next(outcome)),
        write.next(outcome).sidecar_path == write.sidecar_path,
        write.next(outcome).tmp_path == write.tmp_path,
        write.next(outcome).removes_before_rename == write.removes_before_rename,
        write.step is None ==> write.next(outcome) == write,
        write.step is Some ==> write.result() is None,
        write.step is None ==> write.result() is Some,
{
}

/// A write succeeds with the step that puts the temporary file in the place of the
/// sidecar, or that removes a sidecar of no alarms, be it there or not; and with no
/// other.
pub proof fn writes_succeed_only_when_the_file_is_in_place(
    write: WriteModel,
    outcome: OutcomeModel,
)
    requires
        is_in_order(write),
        write.step is Some,
    ensures
        write.next(outcome).result() == Some(Ok::<(), Seq<char>>(())) <==> {
            ||| write.step == Some(SidecarStep::Rename) && outcome is Done
            ||| write.step == Some(SidecarStep::RenameAgain) && outcome is Done
            ||| write.step == Some(SidecarStep::RemoveSidecar) && !(outcome is Failed)
        },
{
}

/// The steps of a write of alarms follow each other: its bytes are written to the
/// temporary file once they are made, and that file is renamed once it is written. A
/// sidecar that is in the way is removed only where a file cannot take the name of
/// another, and then the renaming is tried once more. In all other cases the temporary
/// file is removed.
pub proof fn steps_follow_each_other(write: WriteModel, outcome: OutcomeModel)
    requires
        is_in_order(write),
    ensures
        ({
            let next = write.next(outcome).step;
            &&& write.step == Some(SidecarStep::Serialize) ==> (if outcome is Done {
                next == Some(SidecarStep::WriteTemporary)
            } else {
                next is None
            })
            &&& write.step == Some(SidecarStep::WriteTemporary) ==> (if outcome is Done {
                next == Some(SidecarStep::Rename)
            } else {
                next is None
            })
            &&& write.step == Some(SidecarStep::Rename) ==> {
                &&& outcome is Done ==> next is None
                &&& !(outcome is Done) && write.removes_before_rename ==> next == Some(
                    SidecarStep::RemoveExisting,
                )
                &&& !(outcome is Done) && !write.removes_before_rename ==> next == Some(
                    SidecarStep::DiscardTemporary,
                )
            }
            &&& write.step == Some(SidecarStep::RemoveExisting) ==> (if outcome is Done {
                next == Some(SidecarStep::RenameAgain)
            } else {
                next == Some(SidecarStep::DiscardTemporary)
            })
            &&& write.step == Some(SidecarStep::RenameAgain) ==> next is None
            &&& write.step == Some(SidecarStep::DiscardTemporary) ==> next is None
            &&& write.step == Some(SidecarStep::RemoveSidecar) ==> next is None
        }),
{
}

/// A write that fails says at which file and why. What is said of a renaming that
/// failed stays said while the temporary file is removed, unless the sidecar could not
/// be removed either, or the second renaming failed too.
pub proof fn failures_say_why(write: WriteModel, reason: Seq<char>, absent: bool)
    requires
        is_in_order(write),
    ensures
        ({
            let outcome = if absent {
                OutcomeModel::NotFound(reason)
            } else {
                OutcomeModel::Failed(reason)
            };
            let said = write.next(outcome).failure;
            &&& write.step == Some(SidecarStep::RemoveSidecar) && !absent ==> said == Some(
                "failed to remove empty alarm sidecar `"@ + write.sidecar_path + "`: "@ + reason,
            )
            &&& write.step == Some(SidecarStep::Serialize) ==> said == Some(
                "failed to serialize alarm sidecar `"@ + write.sidecar_path + "`: "@ + reason,
            )
            &&& write.step == Some(SidecarStep::WriteTemporary) ==> said == Some(
                "failed to write temporary alarm sidecar `"@ + write.tmp_path + "`: "@ + reason,
            )
            &&& write.step == Some(SidecarStep::Rename) ==> said == Some(
                "failed to atomically replace alarm sidecar `"@ + write.sidecar_path + "` with `"@
                    + write.tmp_path + "`: "@ + reason,
            )
            &&& write.step == Some(SidecarStep::RemoveExisting) && !absent ==> said == Some(
                "failed to remove existing alarm sidecar `"@ + write.sidecar_path
                    + "` before replace: "@ + reason,
            )
            &&& write.step == Some(SidecarStep::RemoveExisting) && absent ==> said == write.failure
            &&& write.step == Some(SidecarStep::RenameAgain) ==> said == Some(
                "failed to replace alarm sidecar `"@ + write.sidecar_path + "` with `"@
                    + write.tmp_path + "`: "@ + reason,
            )
            &&& write.step == Some(SidecarStep::DiscardTemporary) ==> said == write.failure
            &&& write.step is None && write.failure is Some ==> write.result() == Some(
                Err::<(), Seq<char>>(write.failure->0),
            )
        }),
{
}

/// The temporary file is removed whatever becomes of that, and the write fails for the
/// reason that it had.
pub proof fn temporary_file_is_removed_in_any_case(write: WriteModel, outcome: OutcomeModel)
    requires
        is_in_order(write),
        write.step == Some(SidecarStep::DiscardTemporary),
    ensures
        write.next(outcome).result() == Some(Err::<(), Seq<char>>(write.failure->0)),
{
}

/// The alarms of a sidecar are those among its entries, in order: an entry that is no
/// alarm leaves no gap.
pub proof fn entries_are_read_one_by_one(
    a: Seq<Option<PersistedAlarm>>,
    b: Seq<Option<PersistedAlarm>>,
    alarm: PersistedAlarm,
)
    ensures
        sidecar::valid_entries(a + b) == sidecar::valid_entries(a) + sidecar::valid_entries(b),
        sidecar::valid_entries(seq![Some(alarm)]) == seq![alarm@],
        sidecar::valid_entries(seq![None::<PersistedAlarm>]) == Seq::<PersistedModel>::empty(),
    decreases b.len(),
{
    let one = seq![Some(alarm)];
    assert(one.drop_last() =~= Seq::<Option<PersistedAlarm>>::empty());
    assert(one.last() == Some(alarm));
    assert(sidecar::valid_entries(one.drop_last()) =~= Seq::<PersistedModel>::empty());
    assert(sidecar::valid_entries(one) =~= seq![alarm@]);
    let none = seq![None::<PersistedAlarm>];
    assert(none.drop_last() =~= Seq::<Option<PersistedAlarm>>::empty());
    assert(none.last() is None);
    if b.len() > 0 {
        entries_are_read_one_by_one(a, b.drop_last(), alarm);
        assert((a + b).drop_last() =~= a + b.drop_last());
        assert((a + b).last() == b.last());
        assert(sidecar::valid_entries(a + b) =~= sidecar::valid_entries(a)
            + sidecar::valid_entries(b));
    } else {
        assert(a + b =~= a);
        assert(sidecar::valid_entries(a) + sidecar::valid_entries(b) =~= sidecar::valid_entries(a));
    }
}

/// A sidecar that is not there holds no alarms. One that cannot be read, or that is no
/// list, is an error that names it and says why.
pub proof fn sidecars_that_cannot_be_read_are_errors(
    rollout_path: Seq<char>,
    reason: String,
    entries: Vec<Option<PersistedAlarm>>,
)
    ensures
        sidecar::loaded(rollout_path, SidecarContent::NotFound) == Ok::<
            Seq<PersistedModel>,
            Seq<char>,
        >(Seq::empty()),
        sidecar::loaded(rollout_path, SidecarContent::Unreadable(reason)) == Err::<
            Seq<PersistedModel>,
            Seq<char>,
        >(
            "failed to read alarm sidecar `"@ + (rollout_path + ".alarms.json"@) + "`: "@ + reason@,
        ),
        sidecar::loaded(rollout_path, SidecarContent::Unparsable(reason)) == Err::<
            Seq<PersistedModel>,
            Seq<char>,
        >(
            "failed to parse alarm sidecar `"@ + (rollout_path + ".alarms.json"@) + "`: "@ + reason@,
        ),
        sidecar::loaded(rollout_path, SidecarContent::Entries(entries)) == Ok::<
            Seq<PersistedModel>,
            Seq<char>,
        >(sidecar::valid_entries(entries@)),
{
}

/// The views of writes hold all of their parts.
pub proof fn views_of_writes_hold_all_parts(
    write: SidecarWrite,
    outcome: StepOutcome,
    read: Result<Vec<PersistedAlarm>, String>,
    i: int,
)
    ensures
        write@.sidecar_path == write.sidecar_path@ && write@.tmp_path == write.tmp_path@,
        write@.removes_before_rename == write.removes_before_rename && write@.step == write.step,
        write.failure is None ==> write@.failure is None,
        write.failure matches Some(e) ==> write@.failure == Some(e@),
        outcome is Done ==> outcome@ is Done,
        outcome matches StepOutcome::NotFound(e) ==> outcome@ == OutcomeModel::NotFound(e@),
        outcome matches StepOutcome::Failed(e) ==> outcome@ == OutcomeModel::Failed(e@),
        read matches Err(e) ==> sidecar::loaded_view(read) == Err::<
            Seq<PersistedModel>,
            Seq<char>,
        >(e@),
        read matches Ok(stored) ==> (sidecar::loaded_view(read) matches Ok(views) && views.len()
            == stored@.len() && (0 <= i < stored@.len() ==> views[i] == stored@[i]@)),
{
}

} // verus!
