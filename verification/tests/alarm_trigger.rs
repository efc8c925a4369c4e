use chrono::{NaiveDateTime, TimeZone, Utc};
use harness::calendar::{Timezone, UtcInstant, LOCAL_DATE_TIME_FORMAT};
use harness::timing::{
    can_be_restored, can_be_timed, next_delay_recurring_run_at_from_timestamp,
    next_run_after_due_with_timezone, next_schedule_occurrence_after, normalize_trigger, timer_delay, timing_for_found,
    timing_for_new_trigger, timing_for_new_trigger_with_timezone, timing_for_restored_trigger,
    timing_for_restored_trigger_with_timezone, TriggerTiming,
};
use harness::trigger::AlarmTrigger;

const TS_1: i64 = 1;
const TS_100: i64 = 100;
const TS_135: i64 = 135;
const TS_1_700_000_000: i64 = 1_700_000_000;

fn utc(timestamp: i64) -> UtcInstant {
    UtcInstant::new(timestamp, 0).expect("valid timestamp")
}

fn utc_datetime(datetime: &str) -> UtcInstant {
    let parsed = Utc.from_utc_datetime(
        &NaiveDateTime::parse_from_str(datetime, LOCAL_DATE_TIME_FORMAT).expect("valid datetime"),
    );
    utc(parsed.timestamp())
}

fn schedule(dtstart: Option<&str>, rrule: Option<&str>) -> AlarmTrigger {
    AlarmTrigger::Schedule {
        dtstart: dtstart.map(|s| s.to_string()),
        rrule: rrule.map(|s| s.to_string()),
    }
}

fn delay(seconds: u64, repeat: Option<bool>) -> AlarmTrigger {
    AlarmTrigger::Delay { seconds, repeat }
}

#[test]
fn delay_one_shot_becomes_pending_when_due() {
    let timing = timing_for_new_trigger_with_timezone(
        AlarmTrigger::Delay {
            seconds: 0,
            repeat: None,
        },
        utc(TS_100),
        utc(TS_100),
        &Timezone::utc(),
    )
    .expect("trigger should be valid");
    assert_eq!(
        timing,
        TriggerTiming {
            trigger: AlarmTrigger::Delay {
                seconds: 0,
                repeat: None,
            },
            pending_run: true,
            next_run_at: Some(100),
            timer_delay: None,
        }
    );
}

#[test]
fn delay_repeat_zero_is_idle_recurring() {
    let timing = timing_for_new_trigger_with_timezone(
        AlarmTrigger::Delay {
            seconds: 0,
            repeat: Some(true),
        },
        utc(TS_100),
        utc(TS_100),
        &Timezone::utc(),
    )
    .expect("zero repeat should be a valid idle-recurring trigger");
    assert_eq!(
        timing,
        TriggerTiming {
            trigger: AlarmTrigger::Delay {
                seconds: 0,
                repeat: Some(true),
            },
            pending_run: true,
            next_run_at: None,
            timer_delay: None,
        }
    );
    assert_eq!(
        next_run_after_due_with_timezone(
            &AlarmTrigger::Delay {
                seconds: 0,
                repeat: Some(true),
            },
            /*created_at*/ 100,
            utc(TS_100),
            &Timezone::utc(),
        )
        .expect("zero repeat should remain timer-free"),
        None
    );
}

#[test]
fn delay_repeat_coalesces_overdue_runs() {
    let timing = timing_for_restored_trigger_with_timezone(
        AlarmTrigger::Delay {
            seconds: 10,
            repeat: Some(true),
        },
        /*created_at*/ 100,
        /*persisted_pending_run*/ false,
        Some(110),
        utc(TS_135),
        &Timezone::utc(),
    )
    .expect("trigger should be valid");
    assert_eq!(timing.pending_run, true);
    assert_eq!(timing.next_run_at, Some(140));
}

#[test]
fn schedule_rrule_only_resolves_dtstart_to_now() {
    let timing = timing_for_new_trigger_with_timezone(
        AlarmTrigger::Schedule {
            dtstart: None,
            rrule: Some("FREQ=HOURLY;BYMINUTE=0;BYSECOND=0".to_string()),
        },
        utc(TS_1_700_000_000),
        utc(TS_1_700_000_000),
        &Timezone::utc(),
    )
    .expect("trigger should be valid");
    assert_eq!(
        timing.trigger,
        AlarmTrigger::Schedule {
            dtstart: Some("2023-11-14T22:13:20".to_string()),
            rrule: Some("FREQ=HOURLY;BYMINUTE=0;BYSECOND=0".to_string()),
        }
    );
    assert_eq!(timing.pending_run, false);
    assert_eq!(timing.next_run_at, Some(1_700_002_800));
}

#[test]
fn schedule_dtstart_only_is_one_shot() {
    let timing = timing_for_new_trigger_with_timezone(
        AlarmTrigger::Schedule {
            dtstart: Some("2024-01-01T09:00:00".to_string()),
            rrule: None,
        },
        utc(TS_1),
        utc(TS_1),
        &Timezone::utc(),
    )
    .expect("trigger should be valid");
    assert_eq!(timing.pending_run, false);
    assert_eq!(timing.next_run_at, Some(1_704_099_600));
}

#[test]
fn schedule_recurring_historical_dtstart_waits_for_next_future_occurrence() {
    let timing = timing_for_new_trigger_with_timezone(
        AlarmTrigger::Schedule {
            dtstart: Some("2024-01-01T09:00:00".to_string()),
            rrule: Some("FREQ=DAILY;BYHOUR=9;BYMINUTE=0;BYSECOND=0".to_string()),
        },
        utc_datetime("2024-01-02T08:00:00"),
        utc_datetime("2024-01-02T08:00:00"),
        &Timezone::utc(),
    )
    .expect("trigger should be valid");
    assert_eq!(timing.pending_run, false);
    assert_eq!(
        timing.next_run_at,
        Some(utc_datetime("2024-01-02T09:00:00").timestamp())
    );
}

#[test]
fn schedule_recurring_due_now_becomes_pending() {
    let timing = timing_for_new_trigger_with_timezone(
        AlarmTrigger::Schedule {
            dtstart: Some("2024-01-01T09:00:00".to_string()),
            rrule: Some("FREQ=DAILY;BYHOUR=9;BYMINUTE=0;BYSECOND=0".to_string()),
        },
        utc_datetime("2024-01-02T09:00:00"),
        utc_datetime("2024-01-02T09:00:00"),
        &Timezone::utc(),
    )
    .expect("trigger should be valid");
    assert_eq!(timing.pending_run, true);
    assert_eq!(
        timing.next_run_at,
        Some(utc_datetime("2024-01-03T09:00:00").timestamp())
    );
}

#[test]
fn schedule_rejects_neither_dtstart_nor_rrule() {
    assert_eq!(
        timing_for_new_trigger_with_timezone(
            AlarmTrigger::Schedule {
                dtstart: None,
                rrule: None,
            },
            utc(TS_1),
            utc(TS_1),
            &Timezone::utc(),
        )
        .expect_err("empty schedule should be invalid"),
        "schedule trigger requires dtstart, rrule, or both"
    );
}

#[test]
fn schedule_rejects_invalid_dtstart() {
    assert_eq!(
        timing_for_new_trigger_with_timezone(
            AlarmTrigger::Schedule {
                dtstart: Some("2024-01-01 09:00:00".to_string()),
                rrule: None,
            },
            utc(TS_1),
            utc(TS_1),
            &Timezone::utc(),
        )
        .expect_err("bad dtstart should be invalid"),
        "schedule dtstart `2024-01-01 09:00:00` must use format YYYY-MM-DDTHH:MM:SS"
    );
}

#[test]
fn schedule_rejects_invalid_rrule() {
    assert!(
        timing_for_new_trigger_with_timezone(
            AlarmTrigger::Schedule {
                dtstart: Some("2024-01-01T09:00:00".to_string()),
                rrule: Some("FREQ=NEVER".to_string()),
            },
            utc(TS_1),
            utc(TS_1),
            &Timezone::utc(),
        )
        .expect_err("bad rrule should be invalid")
        .contains("invalid schedule rrule")
    );
}

#[test]
fn delay_beyond_numbers_with_a_sign_is_too_large() {
    let zone = Timezone::utc();
    assert_eq!(
        timing_for_new_trigger_with_timezone(
            delay(u64::MAX, None),
            utc(TS_100),
            utc(TS_100),
            &zone,
        ),
        Err("delay seconds value is too large to schedule".to_string())
    );
    assert_eq!(
        next_run_after_due_with_timezone(&delay(u64::MAX, Some(true)), 100, utc(TS_100), &zone),
        Err("delay seconds value is too large to schedule".to_string())
    );
}

#[test]
fn delay_beyond_the_calendar_is_out_of_range() {
    let zone = Timezone::utc();
    let long = 9_000_000_000_000_000;
    assert_eq!(
        timing_for_new_trigger_with_timezone(delay(long, None), utc(TS_100), utc(TS_100), &zone),
        Err("delay next run time is out of range".to_string())
    );
    assert_eq!(
        timing_for_restored_trigger_with_timezone(
            delay(10, None),
            i64::MAX,
            false,
            None,
            utc(TS_100),
            &zone,
        ),
        Err("delay next run time is out of range".to_string())
    );
}

#[test]
fn repeat_needs_seconds() {
    assert_eq!(
        next_delay_recurring_run_at_from_timestamp(100, 0, utc(TS_135)),
        Err("delay.repeat requires seconds to be greater than 0".to_string())
    );
}

#[test]
fn next_repeat_is_first_after_now() {
    assert_eq!(
        next_delay_recurring_run_at_from_timestamp(100, 10, utc(140)),
        Ok(Some(150))
    );
    assert_eq!(
        next_delay_recurring_run_at_from_timestamp(100, 10, utc(95)),
        Ok(Some(100))
    );
    assert_eq!(
        next_delay_recurring_run_at_from_timestamp(100, 10, utc(85)),
        Ok(Some(90))
    );
    assert_eq!(
        next_delay_recurring_run_at_from_timestamp(i64::MIN, 1, utc(100)),
        Err("delay next run time is out of range".to_string())
    );
}

#[test]
fn repeating_delay_that_is_due_keeps_its_timer() {
    let timing = timing_for_new_trigger_with_timezone(
        delay(10, Some(true)),
        utc(TS_100),
        utc(TS_135),
        &Timezone::utc(),
    )
    .expect("valid");
    assert_eq!(timing.pending_run, true);
    assert_eq!(timing.next_run_at, Some(140));
    assert_eq!(timing.timer_delay, Some(5));
}

#[test]
fn stored_run_that_is_to_come_is_kept() {
    let zone = Timezone::utc();
    let timing = timing_for_restored_trigger_with_timezone(
        schedule(
            Some("2024-01-01T09:00:00"),
            Some("FREQ=DAILY;BYHOUR=9;BYMINUTE=0;BYSECOND=0"),
        ),
        1,
        true,
        Some(1_704_186_000),
        utc(1_704_180_000),
        &zone,
    )
    .expect("valid");
    assert_eq!(timing.pending_run, true);
    assert_eq!(timing.next_run_at, Some(1_704_186_000));
    assert_eq!(timing.timer_delay, Some(6_000));
}

#[test]
fn stored_schedule_without_a_rule_goes_by_its_start() {
    let timing = timing_for_restored_trigger_with_timezone(
        schedule(Some("2024-01-01T09:00:00"), None),
        1,
        false,
        None,
        utc(TS_1),
        &Timezone::utc(),
    )
    .expect("valid");
    assert_eq!(timing.pending_run, false);
    assert_eq!(timing.next_run_at, Some(1_704_099_600));
}

#[test]
fn stored_rule_that_is_due_advances() {
    let timing = timing_for_restored_trigger_with_timezone(
        schedule(
            Some("2024-01-01T09:00:00"),
            Some("RRULE:FREQ=DAILY;BYHOUR=9;BYMINUTE=0;BYSECOND=0"),
        ),
        1,
        false,
        Some(1_704_099_600),
        utc(1_704_186_000),
        &Timezone::utc(),
    )
    .expect("valid");
    assert_eq!(timing.pending_run, true);
    assert_eq!(timing.next_run_at, Some(1_704_272_400));
}

#[test]
fn start_is_read_in_its_time_zone() {
    let berlin = Timezone::named("Europe/Berlin").expect("known");
    let timing = timing_for_new_trigger_with_timezone(
        schedule(Some("2024-01-01T09:00:00"), None),
        utc(TS_1),
        utc(TS_1),
        &berlin,
    )
    .expect("valid");
    assert_eq!(timing.next_run_at, Some(1_704_096_000));
}

#[test]
fn start_that_the_clock_skips_does_not_exist() {
    let berlin = Timezone::named("Europe/Berlin").expect("known");
    assert_eq!(
        timing_for_new_trigger_with_timezone(
            schedule(Some("2024-03-31T02:30:00"), None),
            utc(TS_1),
            utc(TS_1),
            &berlin,
        ),
        Err(
            "schedule dtstart `2024-03-31T02:30:00` does not exist in local timezone Europe/Berlin"
                .to_string()
        )
    );
}

#[test]
fn start_that_the_clock_shows_twice_is_the_first() {
    let berlin = Timezone::named("Europe/Berlin").expect("known");
    let timing = timing_for_new_trigger_with_timezone(
        schedule(Some("2024-10-27T02:30:00"), None),
        utc(TS_1),
        utc(TS_1),
        &berlin,
    )
    .expect("valid");
    assert_eq!(timing.next_run_at, Some(1_729_989_000));
}

#[test]
fn rule_in_a_time_zone_goes_by_its_clock() {
    let berlin = Timezone::named("Europe/Berlin").expect("known");
    let timing = timing_for_new_trigger_with_timezone(
        schedule(None, Some("FREQ=DAILY;BYHOUR=9;BYMINUTE=0;BYSECOND=0")),
        utc(TS_1_700_000_000),
        utc(TS_1_700_000_000),
        &berlin,
    )
    .expect("valid");
    assert_eq!(
        timing.trigger,
        schedule(
            Some("2023-11-14T23:13:20"),
            Some("FREQ=DAILY;BYHOUR=9;BYMINUTE=0;BYSECOND=0"),
        )
    );
    assert_eq!(timing.next_run_at, Some(1_700_035_200));
}

#[test]
fn finished_rule_has_no_next_run() {
    let timing = timing_for_new_trigger_with_timezone(
        schedule(
            Some("2024-01-01T09:00:00"),
            Some("FREQ=DAILY;UNTIL=20240102T090000Z"),
        ),
        utc(1_800_000_000),
        utc(1_800_000_000),
        &Timezone::utc(),
    )
    .expect("valid");
    assert_eq!(timing.pending_run, false);
    assert_eq!(timing.next_run_at, None);
    assert_eq!(timing.timer_delay, None);
}

#[test]
fn texts_of_a_schedule_are_trimmed() {
    let zone = Timezone::utc();
    let normal = normalize_trigger(
        schedule(Some("  2024-01-01T09:00:00\n"), Some("  \t ")),
        utc(TS_1),
        &zone,
    );
    assert_eq!(normal, Ok(schedule(Some("2024-01-01T09:00:00"), None)));
    assert_eq!(
        normalize_trigger(schedule(Some("2024-01-01T09:00:00"), None), utc(TS_1), &zone),
        Ok(schedule(Some("2024-01-01T09:00:00"), None))
    );
}

#[test]
fn normalizing_twice_is_normalizing_once() {
    let berlin = Timezone::named("Europe/Berlin").expect("known");
    for trigger in [
        delay(5, Some(true)),
        schedule(Some(" 2024-01-01T09:00:00 "), Some(" RRULE:FREQ=DAILY ")),
        schedule(None, Some("FREQ=DAILY")),
        schedule(Some("2024-01-01T09:00:00"), None),
    ] {
        let once = normalize_trigger(trigger, utc(TS_1_700_000_000), &berlin).expect("valid");
        let twice = normalize_trigger(once.clone(), utc(1_800_000_000), &berlin);
        assert_eq!(twice, Ok(once));
    }
}

#[test]
fn name_before_a_rule_changes_nothing() {
    let zone = Timezone::utc();
    let search = |rule: &str| {
        next_schedule_occurrence_after(
            &schedule(Some("2024-01-01T09:00:00"), Some(rule)),
            utc(1_704_186_000),
            &zone,
        )
    };
    assert_eq!(search("FREQ=DAILY"), Ok(Some(1_704_272_400)));
    assert_eq!(search("RRULE:FREQ=DAILY"), search("FREQ=DAILY"));
    assert_eq!(search("rrule:FREQ=DAILY"), search("FREQ=DAILY"));
    assert!(search("FREQ=NEVER").is_err() && search("RRULE:FREQ=NEVER").is_err());
    assert!(search("rrule:FREQ=DAILY;UNTIL=20240201").is_err());
}

#[test]
fn schedule_needs_a_start_and_a_rule_to_be_searched() {
    let zone = Timezone::utc();
    for trigger in [
        delay(5, Some(true)),
        schedule(None, Some("FREQ=DAILY")),
        schedule(Some("2024-01-01T09:00:00"), None),
    ] {
        assert_eq!(
            next_schedule_occurrence_after(&trigger, utc(TS_1), &zone),
            Err("schedule trigger requires dtstart and rrule".to_string())
        );
    }
}

#[test]
fn new_timing_comes_back_when_it_is_stored() {
    let zone = Timezone::utc();
    let now = utc_datetime("2024-01-02T09:00:00");
    for trigger in [
        delay(0, None),
        delay(5, None),
        delay(5, Some(true)),
        delay(0, Some(true)),
        schedule(Some("2024-01-02T09:00:00"), None),
        schedule(Some("2024-01-01T09:00:00"), None),
        schedule(Some("2024-02-01T09:00:00"), None),
        schedule(Some("2024-01-01T09:00:00"), Some("FREQ=DAILY")),
        schedule(None, Some("FREQ=DAILY")),
    ] {
        let new = timing_for_new_trigger_with_timezone(trigger, now, now, &zone).expect("valid");
        let again = timing_for_restored_trigger_with_timezone(
            new.trigger.clone(),
            now.timestamp(),
            new.pending_run,
            new.next_run_at,
            now,
            &zone,
        );
        assert_eq!(again, Ok(new));
    }
}

#[test]
fn machine_time_zone_does_not_change_delays() {
    assert_eq!(
        timing_for_new_trigger(delay(60, None), utc(TS_100), utc(TS_100))
            .expect("valid")
            .next_run_at,
        Some(160)
    );
    assert_eq!(
        timing_for_restored_trigger(delay(60, None), 100, false, None, utc(TS_100))
            .expect("valid")
            .timer_delay,
        Some(60)
    );
}

#[test]
fn found_occurrences_make_a_timing() {
    let due = timing_for_found(schedule(None, Some("R")), Some(100), Some(200), utc(TS_100));
    assert_eq!(due.pending_run, true);
    assert_eq!(due.next_run_at, Some(200));
    assert_eq!(due.timer_delay, Some(100));
    let later = timing_for_found(schedule(None, Some("R")), Some(101), None, utc(TS_100));
    assert_eq!(later.pending_run, false);
    assert_eq!(later.timer_delay, Some(1));
}

#[test]
fn timer_delay_is_the_time_to_the_run() {
    assert_eq!(timer_delay(100, utc(TS_100)), Some(0));
    assert_eq!(timer_delay(135, utc(TS_100)), Some(35));
    assert_eq!(timer_delay(i64::MAX, utc(-1)), None);
}

#[test]
fn triggers_that_the_calendar_cannot_take_are_told_apart() {
    assert!(can_be_timed(&delay(9_223_372_036_854_775, None), utc(TS_1)));
    assert!(!can_be_timed(&delay(9_223_372_036_854_776, None), utc(TS_1)));
    assert!(can_be_timed(&delay(u64::MAX, None), utc(TS_1)));
    assert!(can_be_restored(&delay(9_223_372_036_854_776, None), utc(TS_1)));
    assert!(can_be_timed(&schedule(None, Some("FREQ=DAILY;BYDAY=MO")), utc(TS_1)));
    assert!(!can_be_timed(&schedule(None, Some("FREQ=DAILY;BYDAY=日")), utc(TS_1)));
    assert!(!can_be_timed(&schedule(None, Some("FREQ=DAILY;byday=MO,日a;COUNT=1")), utc(TS_1)));
    assert!(can_be_timed(&schedule(None, Some("FREQ=日")), utc(TS_1)));
    assert!(can_be_timed(
        &schedule(None, Some("FREQ=MONTHLY;BYMONTHDAY=１")),
        utc(TS_1)
    ));
}

#[test]
fn trigger_is_shown() {
    assert_eq!(delay(10, Some(true)).display(), "delay 10s, repeat");
    assert_eq!(delay(0, None).display(), "delay 0s");
    assert_eq!(schedule(Some("a"), Some("b")).display(), "schedule a; b");
    assert_eq!(schedule(Some("a"), None).display(), "schedule a");
    assert_eq!(schedule(None, Some("b")).display(), "schedule b");
    assert_eq!(schedule(None, None).display(), "invalid schedule");
}

#[test]
fn recurring_triggers_are_told_apart() {
    assert!(delay(0, Some(true)).is_recurring());
    assert!(delay(0, Some(true)).is_idle_recurring());
    assert!(!delay(1, Some(true)).is_idle_recurring());
    assert!(!delay(0, Some(false)).is_recurring());
    assert!(schedule(None, Some("R")).is_recurring());
    assert!(!schedule(None, Some("")).is_recurring());
    assert!(!schedule(Some("a"), None).is_recurring());
}
