use harness::alarm::{AlarmDelivery, PersistedAlarm, ThreadAlarm};
use harness::sidecar::{
    alarm_sidecar_path_for_rollout, load_alarm_sidecar, thread_preview_from_alarm_sidecar,
    SidecarContent, SidecarStep, SidecarWrite, StepOutcome,
};
use harness::trigger::AlarmTrigger;

fn stored(id: &str) -> PersistedAlarm {
    PersistedAlarm {
        alarm: ThreadAlarm {
            id: id.to_string(),
            trigger: AlarmTrigger::Delay {
                seconds: 0,
                repeat: None,
            },
            prompt: "run tests".to_string(),
            delivery: AlarmDelivery::AfterTurn,
            created_at: 1,
            next_run_at: None,
            last_run_at: None,
        },
        pending_run: true,
    }
}

fn failed() -> StepOutcome {
    StepOutcome::Failed("disk".to_string())
}

fn absent() -> StepOutcome {
    StepOutcome::NotFound("gone".to_string())
}

fn write(no_alarms: bool, removes_before_rename: bool) -> SidecarWrite {
    SidecarWrite::with_suffix("r.jsonl", no_alarms, "x", removes_before_rename)
}

fn renaming(removes_before_rename: bool) -> SidecarWrite {
    write(false, removes_before_rename)
        .advance(StepOutcome::Done)
        .advance(StepOutcome::Done)
}

#[test]
fn sidecar_stands_beside_the_rollout() {
    assert_eq!(
        alarm_sidecar_path_for_rollout("/tmp/rollout.jsonl"),
        "/tmp/rollout.jsonl.alarms.json"
    );
}

#[test]
fn sidecar_makes_a_preview() {
    assert_eq!(
        thread_preview_from_alarm_sidecar(Some(true)),
        Some("(alarm configured)".to_string())
    );
    assert_eq!(thread_preview_from_alarm_sidecar(Some(false)), None);
    assert_eq!(thread_preview_from_alarm_sidecar(None), None);
}

#[test]
fn invalid_entries_are_skipped() {
    let content = SidecarContent::Entries(vec![None, Some(stored("a")), None, Some(stored("b"))]);
    assert_eq!(
        load_alarm_sidecar("r", content),
        Ok(vec![stored("a"), stored("b")])
    );
}

#[test]
fn missing_sidecar_holds_no_alarms() {
    assert_eq!(load_alarm_sidecar("r", SidecarContent::NotFound), Ok(vec![]));
}

#[test]
fn sidecar_that_cannot_be_read_is_an_error() {
    assert_eq!(
        load_alarm_sidecar("r", SidecarContent::Unreadable("denied".to_string())),
        Err("failed to read alarm sidecar `r.alarms.json`: denied".to_string())
    );
    assert_eq!(
        load_alarm_sidecar("r", SidecarContent::Unparsable("eof".to_string())),
        Err("failed to parse alarm sidecar `r.alarms.json`: eof".to_string())
    );
}

#[test]
fn no_alarms_remove_the_sidecar() {
    assert_eq!(write(true, false).step, Some(SidecarStep::RemoveSidecar));
    assert_eq!(
        write(true, false).advance(StepOutcome::Done).into_result(),
        Some(Ok(()))
    );
    assert_eq!(write(true, false).advance(absent()).into_result(), Some(Ok(())));
    assert_eq!(
        write(true, false).advance(failed()).into_result(),
        Some(Err(
            "failed to remove empty alarm sidecar `r.jsonl.alarms.json`: disk".to_string()
        ))
    );
}

#[test]
fn alarms_are_written_to_a_temporary_file_first() {
    let begun = write(false, false);
    assert_eq!(begun.tmp_path, "r.jsonl.alarms.json.tmp-x");
    assert_eq!(begun.step, Some(SidecarStep::Serialize));
    let begun = begun.advance(StepOutcome::Done);
    assert_eq!(begun.step, Some(SidecarStep::WriteTemporary));
    let begun = begun.advance(StepOutcome::Done);
    assert_eq!(begun.step, Some(SidecarStep::Rename));
    assert_eq!(begun.advance(StepOutcome::Done).into_result(), Some(Ok(())));
}

#[test]
fn steps_that_fail_end_the_write() {
    assert_eq!(
        write(false, false).advance(failed()).into_result(),
        Some(Err(
            "failed to serialize alarm sidecar `r.jsonl.alarms.json`: disk".to_string()
        ))
    );
    assert_eq!(
        write(false, false)
            .advance(StepOutcome::Done)
            .advance(absent())
            .into_result(),
        Some(Err(
            "failed to write temporary alarm sidecar `r.jsonl.alarms.json.tmp-x`: gone".to_string()
        ))
    );
}

#[test]
fn failed_renaming_discards_the_temporary_file() {
    let failing = renaming(false).advance(failed());
    assert_eq!(failing.step, Some(SidecarStep::DiscardTemporary));
    assert_eq!(
        failing.advance(failed()).into_result(),
        Some(Err(
            "failed to atomically replace alarm sidecar `r.jsonl.alarms.json` with `r.jsonl.alarms.json.tmp-x`: disk"
                .to_string()
        ))
    );
}

#[test]
fn sidecar_in_the_way_is_removed_where_it_has_to_be() {
    let failing = renaming(true).advance(failed());
    assert_eq!(failing.step, Some(SidecarStep::RemoveExisting));
    let again = failing.advance(StepOutcome::Done);
    assert_eq!(again.step, Some(SidecarStep::RenameAgain));
    assert_eq!(again.advance(StepOutcome::Done).into_result(), Some(Ok(())));
    assert_eq!(
        renaming(true)
            .advance(failed())
            .advance(StepOutcome::Done)
            .advance(absent())
            .into_result(),
        Some(Err(
            "failed to replace alarm sidecar `r.jsonl.alarms.json` with `r.jsonl.alarms.json.tmp-x`: gone"
                .to_string()
        ))
    );
    let not_there = renaming(true).advance(failed()).advance(absent());
    assert_eq!(not_there.step, Some(SidecarStep::DiscardTemporary));
    assert_eq!(
        not_there.advance(StepOutcome::Done).into_result(),
        Some(Err(
            "failed to atomically replace alarm sidecar `r.jsonl.alarms.json` with `r.jsonl.alarms.json.tmp-x`: disk"
                .to_string()
        ))
    );
    let stuck = renaming(true).advance(failed()).advance(failed());
    assert_eq!(stuck.step, Some(SidecarStep::DiscardTemporary));
    assert_eq!(
        stuck.advance(StepOutcome::Done).into_result(),
        Some(Err(
            "failed to remove existing alarm sidecar `r.jsonl.alarms.json` before replace: disk"
                .to_string()
        ))
    );
}

#[test]
fn temporary_files_have_names_of_their_own() {
    let one = SidecarWrite::begin("r", &vec![stored("a")], false);
    let other = SidecarWrite::begin("r", &vec![stored("a")], false);
    assert_ne!(one.tmp_path, other.tmp_path);
    let suffix = one.tmp_path.strip_prefix("r.alarms.json.tmp-").unwrap();
    assert_eq!(suffix.len(), 36);
    assert!(uuid::Uuid::parse_str(suffix).is_ok());
    assert_eq!(suffix, suffix.to_lowercase());
    assert_eq!(one.into_result(), None);
    assert_eq!(
        SidecarWrite::begin("r", &vec![], false).step,
        Some(SidecarStep::RemoveSidecar)
    );
}
