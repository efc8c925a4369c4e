use harness::alarm::{
    AlarmDelivery, AlarmInvocationContext, AlarmTimerSpec, PersistedAlarm, ThreadAlarm,
    MAX_ACTIVE_ALARMS_PER_THREAD,
};
use harness::alarms::{AlarmsState, CreateAlarm};
use harness::calendar::UtcInstant;
use harness::prompt::{alarm_prompt_input_item, ContentItem, ResponseInputItem};
use harness::trigger::AlarmTrigger;
use tokio_util::sync::CancellationToken;

const ZERO_SECONDS: u64 = 0;
const TEN_SECONDS: u64 = 10;
const SIXTY_SECONDS: u64 = 60;

fn at(timestamp: i64) -> UtcInstant {
    UtcInstant::new(timestamp, 0).expect("valid timestamp")
}

fn delay(seconds: u64, repeat: Option<bool>) -> AlarmTrigger {
    AlarmTrigger::Delay { seconds, repeat }
}

fn request(id: &str, trigger: AlarmTrigger, now: UtcInstant) -> CreateAlarm {
    CreateAlarm {
        id: id.to_string(),
        trigger,
        prompt: "go".to_string(),
        delivery: AlarmDelivery::AfterTurn,
        now,
    }
}

#[test]
fn claim_one_shot_alarm_removes_it() {
    let now = at(100);
    let mut alarms = AlarmsState::default();
    let (alarm, timer_spec) = alarms
        .create_alarm(
            CreateAlarm {
                id: "alarm-1".to_string(),
                trigger: delay(ZERO_SECONDS, /*repeat*/ None),
                prompt: "run tests".to_string(),
                delivery: AlarmDelivery::AfterTurn,
                now,
            },
            /*timer_cancel*/ None,
        )
        .expect("alarm should be created");
    assert_eq!(timer_spec, None);
    assert_eq!(alarms.list_alarms(), vec![alarm]);

    let claimed = alarms
        .claim_next_alarm(
            now, /*can_after_turn*/ true, /*can_steer_current_turn*/ true,
        )
        .expect("alarm should be claimed");
    assert_eq!(claimed.context.current_alarm_id, "alarm-1");
    assert!(claimed.deleted_one_shot_alarm);
    assert!(alarms.list_alarms().is_empty());
}

#[test]
fn claim_next_alarm_prefers_pending_alarm_that_ran_least_recently() {
    let create_first = at(100);
    let create_second = at(101);
    let first_claimed_at = at(110);
    let second_claimed_at = at(111);
    let mut alarms = AlarmsState::default();
    alarms
        .create_alarm(
            CreateAlarm {
                id: "alarm-1".to_string(),
                trigger: delay(TEN_SECONDS, Some(true)),
                prompt: "older recurring alarm".to_string(),
                delivery: AlarmDelivery::AfterTurn,
                now: create_first,
            },
            /*timer_cancel*/ None,
        )
        .expect("alarm should be created");
    alarms
        .create_alarm(
            CreateAlarm {
                id: "alarm-2".to_string(),
                trigger: delay(TEN_SECONDS, Some(true)),
                prompt: "newer recurring alarm".to_string(),
                delivery: AlarmDelivery::AfterTurn,
                now: create_second,
            },
            /*timer_cancel*/ None,
        )
        .expect("alarm should be created");
    alarms.mark_alarm_due("alarm-1", first_claimed_at);
    alarms.mark_alarm_due("alarm-2", first_claimed_at);

    let first = alarms
        .claim_next_alarm(
            first_claimed_at,
            /*can_after_turn*/ true,
            /*can_steer_current_turn*/ true,
        )
        .expect("first alarm should be claimed");
    assert_eq!(first.context.current_alarm_id, "alarm-1");

    let second = alarms
        .claim_next_alarm(
            second_claimed_at,
            /*can_after_turn*/ true,
            /*can_steer_current_turn*/ true,
        )
        .expect("second alarm should be claimed");
    assert_eq!(second.context.current_alarm_id, "alarm-2");
}

#[test]
fn idle_recurring_alarm_remains_pending_after_claim() {
    let now = at(100);
    let mut alarms = AlarmsState::default();
    let (alarm, timer_spec) = alarms
        .create_alarm(
            CreateAlarm {
                id: "alarm-1".to_string(),
                trigger: delay(ZERO_SECONDS, Some(true)),
                prompt: "keep going".to_string(),
                delivery: AlarmDelivery::AfterTurn,
                now,
            },
            /*timer_cancel*/ None,
        )
        .expect("alarm should be created");
    assert_eq!(timer_spec, None);

    let claimed = alarms
        .claim_next_alarm(
            now, /*can_after_turn*/ true, /*can_steer_current_turn*/ true,
        )
        .expect("alarm should be claimed");
    assert!(!claimed.deleted_one_shot_alarm);
    assert_eq!(
        alarms.persisted_alarms(),
        vec![PersistedAlarm {
            alarm: ThreadAlarm {
                last_run_at: Some(100),
                ..alarm
            },
            pending_run: true,
        }]
    );
}

#[test]
fn idle_recurring_alarm_waits_for_idle_even_if_delivery_requests_steer() {
    let now = at(100);
    let mut alarms = AlarmsState::default();
    alarms
        .create_alarm(
            CreateAlarm {
                id: "alarm-1".to_string(),
                trigger: delay(ZERO_SECONDS, Some(true)),
                prompt: "keep going".to_string(),
                delivery: AlarmDelivery::SteerCurrentTurn,
                now,
            },
            /*timer_cancel*/ None,
        )
        .expect("alarm should be created");

    assert_eq!(
        alarms.claim_next_alarm(
            now, /*can_after_turn*/ false, /*can_steer_current_turn*/ true,
        ),
        None
    );
    let claimed = alarms
        .claim_next_alarm(
            now, /*can_after_turn*/ true, /*can_steer_current_turn*/ false,
        )
        .expect("alarm should be claimed when idle");
    assert_eq!(claimed.context.delivery, AlarmDelivery::AfterTurn);
}

#[test]
fn create_alarm_rejects_more_than_maximum_active_alarms() {
    let now = at(100);
    let mut alarms = AlarmsState::default();
    for index in 0..MAX_ACTIVE_ALARMS_PER_THREAD {
        alarms
            .create_alarm(
                CreateAlarm {
                    id: format!("alarm-{index}"),
                    trigger: delay(SIXTY_SECONDS, Some(true)),
                    prompt: format!("prompt-{index}"),
                    delivery: AlarmDelivery::AfterTurn,
                    now,
                },
                /*timer_cancel*/ None,
            )
            .expect("alarm should be created");
    }

    let result = alarms.create_alarm(
        CreateAlarm {
            id: "alarm-overflow".to_string(),
            trigger: delay(SIXTY_SECONDS, Some(true)),
            prompt: "overflow".to_string(),
            delivery: AlarmDelivery::AfterTurn,
            now,
        },
        /*timer_cancel*/ None,
    );

    assert_eq!(
        result,
        Err(format!(
            "too many active alarms; each thread supports at most {MAX_ACTIVE_ALARMS_PER_THREAD} alarms"
        ))
    );
    let stored = alarms.persisted_alarms().remove(0);
    assert_eq!(
        alarms.restore_alarm(stored, now, None),
        Err(format!(
            "too many persisted alarms; each thread supports at most {MAX_ACTIVE_ALARMS_PER_THREAD} alarms"
        ))
    );
}

#[test]
fn alarm_prompt_input_is_hidden_developer_input() {
    let item = alarm_prompt_input_item(&AlarmInvocationContext {
        current_alarm_id: "alarm-1".to_string(),
        trigger: delay(TEN_SECONDS, Some(true)),
        prompt: "run tests".to_string(),
        recurring: true,
        delivery: AlarmDelivery::SteerCurrentTurn,
    });
    assert_eq!(
        item,
        ResponseInputItem::Message {
            role: "developer".to_string(),
            content: vec![ContentItem::InputText {
                text: "Recurring scheduled alarm prompt:\nrun tests\n\ncurrentAlarmId: alarm-1\nConfigured delivery: steer-current-turn\nTrigger: delay 10s, repeat\n\nThis alarm should keep running on its schedule after this invocation.\nDo not call AlarmDelete just because you completed this invocation.\nCall AlarmDelete with {\"id\":\"alarm-1\"} only if the user's alarm prompt included an explicit stop condition, such as \"until\", \"stop when\", or \"while\", and that condition is now satisfied.\nDo not expose scheduler internals unless they matter to the user.".to_string(),
            }],
        }
    );
}

#[test]
fn one_shot_alarm_prompt_input_omits_delete_instruction() {
    let item = alarm_prompt_input_item(&AlarmInvocationContext {
        current_alarm_id: "alarm-1".to_string(),
        trigger: delay(ZERO_SECONDS, /*repeat*/ None),
        prompt: "run tests once".to_string(),
        recurring: false,
        delivery: AlarmDelivery::AfterTurn,
    });
    assert_eq!(
        item,
        ResponseInputItem::Message {
            role: "developer".to_string(),
            content: vec![ContentItem::InputText {
                text: "One-shot scheduled alarm prompt:\nrun tests once\n\ncurrentAlarmId: alarm-1\nConfigured delivery: after-turn\nTrigger: delay 0s\n\nThis one-shot alarm has already been removed from the schedule, so you do not need to call AlarmDelete.\nDo not expose scheduler internals unless they matter to the user.".to_string(),
            }],
        }
    );
}

#[test]
fn claiming_a_one_shot_alarm_stops_its_timer() {
    let mut alarms = AlarmsState::default();
    let once = CancellationToken::new();
    let again = CancellationToken::new();
    alarms
        .create_alarm(request("once", delay(0, None), at(100)), Some(once.clone()))
        .unwrap();
    alarms
        .create_alarm(request("again", delay(0, Some(true)), at(101)), Some(again.clone()))
        .unwrap();
    assert_eq!(alarms.claim_next_alarm(at(102), true, false).unwrap().alarm.id, "once");
    assert!(once.is_cancelled());
    assert_eq!(alarms.claim_next_alarm(at(103), true, false).unwrap().alarm.id, "again");
    assert!(!again.is_cancelled());
    let removed = alarms.remove_alarm("again").unwrap();
    AlarmsState::cancel_runtime(&removed);
    assert!(again.is_cancelled());
}

#[test]
fn steering_alarm_waits_or_steers() {
    let mut alarms = AlarmsState::default();
    let mut steer = request("steer", delay(0, None), at(100));
    steer.delivery = AlarmDelivery::SteerCurrentTurn;
    alarms.create_alarm(steer, None).unwrap();
    assert_eq!(alarms.claim_next_alarm(at(100), false, false), None);
    let claimed = alarms.claim_next_alarm(at(100), true, true).unwrap();
    assert_eq!(claimed.context.delivery, AlarmDelivery::SteerCurrentTurn);

    let mut later = request("later", delay(0, None), at(100));
    later.delivery = AlarmDelivery::SteerCurrentTurn;
    alarms.create_alarm(later, None).unwrap();
    let claimed = alarms.claim_next_alarm(at(100), true, false).unwrap();
    assert_eq!(claimed.context.delivery, AlarmDelivery::AfterTurn);
}

#[test]
fn alarms_are_listed_by_creation_and_id() {
    let mut alarms = AlarmsState::default();
    for (id, created) in [("b", 100), ("c", 99), ("a", 100)] {
        alarms
            .create_alarm(request(id, delay(60, None), at(created)), None)
            .unwrap();
    }
    let ids: Vec<String> = alarms.list_alarms().into_iter().map(|alarm| alarm.id).collect();
    assert_eq!(ids, vec!["c", "a", "b"]);
}

#[test]
fn marking_due_says_whether_it_changed_anything() {
    let mut alarms = AlarmsState::default();
    alarms
        .create_alarm(request("a", delay(10, Some(true)), at(100)), None)
        .unwrap();
    assert!(!alarms.mark_alarm_due("missing", at(110)));
    assert!(alarms.mark_alarm_due("a", at(110)));
    assert!(!alarms.mark_alarm_due("a", at(110)));
    assert_eq!(alarms.list_alarms()[0].next_run_at, Some(120));
    assert!(alarms.mark_alarm_due("a", at(125)));
    assert_eq!(alarms.list_alarms()[0].next_run_at, Some(130));
    assert!(!alarms.advance_alarm("a", Err("broken".to_string())));
    assert_eq!(alarms.list_alarms()[0].next_run_at, Some(130));
}

#[test]
fn alarm_needs_the_timer_that_its_creation_gave() {
    let mut alarms = AlarmsState::default();
    let (_, timer) = alarms
        .create_alarm(request("a", delay(60, None), at(100)), None)
        .unwrap();
    assert_eq!(timer, Some(AlarmTimerSpec { delay: 60 }));
    assert_eq!(alarms.timer_spec_for_alarm("a", at(100)), timer);
    assert_eq!(
        alarms.timer_spec_for_alarm("a", at(130)),
        Some(AlarmTimerSpec { delay: 30 })
    );
    assert_eq!(
        alarms.timer_spec_for_alarm("a", at(200)),
        Some(AlarmTimerSpec { delay: 0 })
    );
    alarms.mark_alarm_due("a", at(160));
    assert_eq!(alarms.timer_spec_for_alarm("a", at(160)), None);
    assert_eq!(alarms.timer_spec_for_alarm("missing", at(160)), None);
}

#[test]
fn removed_alarm_can_be_put_back() {
    let mut alarms = AlarmsState::default();
    alarms
        .create_alarm(request("a", delay(60, None), at(100)), None)
        .unwrap();
    let before = alarms.persisted_alarms();
    let runtime = alarms.remove_alarm("a").unwrap();
    assert!(alarms.remove_alarm("a").is_none());
    assert!(alarms.list_alarms().is_empty());
    alarms.restore_runtime(runtime);
    assert_eq!(alarms.persisted_alarms(), before);
}

#[test]
fn stored_alarms_come_back() {
    let mut alarms = AlarmsState::default();
    alarms
        .create_alarm(request("a", delay(60, None), at(100)), None)
        .unwrap();
    alarms
        .create_alarm(request("b", delay(60, Some(true)), at(101)), None)
        .unwrap();
    let stored = alarms.persisted_alarms();
    let mut back = AlarmsState::default();
    for alarm in stored.clone() {
        let timer = back.restore_alarm(alarm, at(110), None).unwrap();
        assert!(timer.is_some());
    }
    assert_eq!(back.persisted_alarms(), stored);

    let mut overdue = AlarmsState::default();
    for alarm in stored {
        overdue.restore_alarm(alarm, at(1_000), None).unwrap();
    }
    let now = overdue.persisted_alarms();
    assert!(now[0].pending_run && now[1].pending_run);
    assert_eq!(now[0].alarm.next_run_at, Some(160));
    assert_eq!(now[1].alarm.next_run_at, Some(1_001));
}

#[test]
fn rule_that_is_refused_makes_no_alarm() {
    let mut alarms = AlarmsState::default();
    for rule in ["FREQ=MONTHLY;BYMONTHDAY=１", "FREQ=日;BYDAY=MO"] {
        let trigger = AlarmTrigger::Schedule {
            dtstart: Some("2024-01-01T09:00:00".to_string()),
            rrule: Some(rule.to_string()),
        };
        let refused = alarms.create_alarm(request("a", trigger, at(100)), None);
        assert!(refused.unwrap_err().starts_with("invalid schedule rrule `"));
        assert!(alarms.list_alarms().is_empty());
    }
}

#[test]
fn new_alarms_come_back_at_the_same_instant() {
    for trigger in [
        delay(0, None),
        delay(0, Some(true)),
        delay(60, Some(true)),
        AlarmTrigger::Schedule {
            dtstart: Some("1970-01-01T12:00:00".to_string()),
            rrule: None,
        },
    ] {
        let mut made = AlarmsState::default();
        let (_, timer) = made
            .create_alarm(request("a", trigger, at(1_000_000)), None)
            .unwrap();
        let mut back = AlarmsState::default();
        let stored = made.persisted_alarms().remove(0);
        assert_eq!(back.restore_alarm(stored, at(1_000_000), None), Ok(timer));
        assert_eq!(back.persisted_alarms(), made.persisted_alarms());
    }
}

#[test]
fn trigger_that_is_refused_makes_no_alarm() {
    let mut alarms = AlarmsState::default();
    let empty = AlarmTrigger::Schedule {
        dtstart: None,
        rrule: Some(" ".to_string()),
    };
    assert_eq!(
        alarms.create_alarm(request("a", empty, at(100)), None),
        Err("schedule trigger requires dtstart, rrule, or both".to_string())
    );
    assert!(alarms.list_alarms().is_empty());
}

#[test]
fn new_alarm_takes_the_place_of_one_with_its_id() {
    let mut alarms = AlarmsState::default();
    alarms
        .create_alarm(request("a", delay(60, None), at(100)), None)
        .unwrap();
    alarms
        .create_alarm(request("a", delay(70, None), at(100)), None)
        .unwrap();
    assert_eq!(alarms.list_alarms().len(), 1);
    assert_eq!(alarms.list_alarms()[0].next_run_at, Some(170));
}

#[test]
fn deliveries_have_names() {
    assert_eq!(AlarmDelivery::AfterTurn.as_str(), "after-turn");
    assert_eq!(AlarmDelivery::SteerCurrentTurn.as_str(), "steer-current-turn");
}
