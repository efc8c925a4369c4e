use harness::loop_scheduler::{
    format_duration, loop_description, loop_scheduled_message, parse_duration_token, parse_loop_id,
    parse_loop_spec, ActiveLoop, LoopId, LoopRegistry, LoopSpec, LOOP_USAGE,
};

fn spec(interval: u64, prompt: &str, repeat: bool) -> LoopSpec {
    LoopSpec {
        interval,
        prompt: prompt.to_string(),
        repeat,
    }
}

#[test]
fn parses_one_shot_loop_spec() {
    assert_eq!(
        parse_loop_spec("10m remind me").unwrap(),
        LoopSpec {
            interval: 600,
            prompt: "remind me".to_string(),
            repeat: false,
        }
    );
}

#[test]
fn parses_recurring_loop_spec() {
    assert_eq!(
        parse_loop_spec("every 2h check status").unwrap(),
        LoopSpec {
            interval: 7_200,
            prompt: "check status".to_string(),
            repeat: true,
        }
    );
}

#[test]
fn rejects_empty_prompt() {
    assert!(parse_loop_spec("10m").is_err());
}

#[test]
fn parses_loop_id() {
    assert_eq!(parse_loop_id("42").unwrap(), LoopId(42));
}

#[test]
fn describes_active_loop() {
    assert_eq!(
        loop_description(
            LoopId(7),
            &LoopSpec {
                interval: 5,
                prompt: "say hello".to_string(),
                repeat: true,
            },
        ),
        "#7 every 5s: say hello"
    );
}

#[test]
fn commands_that_are_wrong_are_told_why() {
    assert_eq!(parse_loop_spec("   "), Err(LOOP_USAGE.to_string()));
    assert_eq!(parse_loop_spec("10m"), Err(LOOP_USAGE.to_string()));
    assert_eq!(parse_loop_spec("every "), Err(LOOP_USAGE.to_string()));
    assert_eq!(
        parse_loop_spec("x go"),
        Err("Invalid /loop duration 'x'.".to_string())
    );
    assert_eq!(
        parse_loop_spec("every 0s go"),
        Err("/loop duration must be greater than zero.".to_string())
    );
    assert_eq!(
        parse_loop_spec("5weeks go"),
        Err("Unsupported /loop duration unit 'weeks'.".to_string())
    );
    assert_eq!(
        parse_loop_spec("99999999999999999999 go"),
        Err("Invalid /loop duration '99999999999999999999'.".to_string())
    );
}

#[test]
fn prompt_keeps_its_inner_white_space() {
    assert_eq!(
        parse_loop_spec("  every   5  say\t hello  "),
        Ok(spec(5, "say\t hello", true))
    );
    assert_eq!(parse_loop_spec("5s\u{3000}go"), Ok(spec(5, "go", false)));
}

#[test]
fn units_have_their_seconds() {
    for (token, seconds) in [
        ("7", 7),
        ("7s", 7),
        ("7sec", 7),
        ("7secs", 7),
        ("7m", 420),
        ("7min", 420),
        ("7mins", 420),
        ("7h", 25_200),
        ("7hr", 25_200),
        ("7hrs", 25_200),
        ("7d", 604_800),
        ("7day", 604_800),
        ("7days", 604_800),
    ] {
        assert_eq!(parse_duration_token(token), Ok(seconds));
    }
    assert_eq!(parse_duration_token("18446744073709551615d"), Ok(u64::MAX));
}

#[test]
fn durations_read_back() {
    for seconds in [1, 59, 60, 61, 3_600, 3_660, 86_400, 90_000, 172_800, u64::MAX] {
        assert_eq!(parse_duration_token(&format_duration(seconds)), Ok(seconds));
    }
    assert_eq!(format_duration(172_800), "2d");
    assert_eq!(format_duration(7_200), "2h");
    assert_eq!(format_duration(120), "2m");
    assert_eq!(format_duration(61), "61s");
    assert_eq!(format_duration(0), "0d");
}

#[test]
fn loop_ids_are_numbers() {
    assert_eq!(parse_loop_id(" 7 "), Ok(LoopId(7)));
    assert_eq!(parse_loop_id("+7"), Ok(LoopId(7)));
    assert_eq!(
        parse_loop_id(" x "),
        Err("Invalid /loop id ' x '.".to_string())
    );
    assert_eq!(LoopId(42).text(), "42");
}

#[test]
fn loops_run_again_where_they_repeat() {
    assert!(spec(5, "go", true).runs_again());
    assert!(!spec(5, "go", false).runs_again());
}

#[test]
fn written_commands_read_back() {
    for interval in [1, 60, 5_400, 86_400] {
        for repeat in [false, true] {
            let every = if repeat { "every " } else { "" };
            let command = format!(" \t{every}{} say  hi\n ", format_duration(interval));
            assert_eq!(
                parse_loop_spec(&command),
                Ok(spec(interval, "say  hi", repeat))
            );
        }
    }
}

#[test]
fn loops_are_taken_out_with_their_handles() {
    let runtime = tokio::runtime::Builder::new_current_thread().build().unwrap();
    let mut registry = LoopRegistry::new();
    for prompt in ["a", "b", "c"] {
        let id = registry.reserve_id();
        let handle = runtime.spawn(std::future::pending::<()>());
        registry.insert(
            id,
            ActiveLoop {
                spec: spec(5, prompt, true),
                handle,
            },
        );
    }
    let taken = registry.take_all_loops();
    assert!(registry.active_loop_descriptions().is_empty());
    assert!(registry.take_all_loops().is_empty());
    let mut named: Vec<(u64, String)> = Vec::new();
    for (id, active) in taken {
        assert!(!active.handle.is_finished());
        active.handle.abort();
        named.push((id.0, active.spec.prompt));
    }
    named.sort();
    assert_eq!(
        named,
        vec![
            (1, "a".to_string()),
            (2, "b".to_string()),
            (3, "c".to_string())
        ]
    );
    assert!(!registry.stop_loop(LoopId(1)));
    assert!(registry.stop_all_loops().is_empty());
}

#[test]
fn scheduled_loops_are_announced() {
    assert_eq!(
        loop_scheduled_message(LoopId(3), &spec(600, "go", false)),
        "Scheduled one-shot /loop #3 in 10m: go"
    );
    assert_eq!(
        loop_scheduled_message(LoopId(4), &spec(5, "go", true)),
        "Scheduled recurring /loop #4 every 5s: go"
    );
}

#[test]
fn registry_keeps_track_of_loops() {
    let runtime = tokio::runtime::Builder::new_current_thread().build().unwrap();
    let mut registry = LoopRegistry::new();
    let mut aborts = Vec::new();
    for (seconds, prompt) in [(5, "b"), (60, "a"), (7, "c")] {
        let id = registry.reserve_id();
        let handle = runtime.spawn(std::future::pending::<()>());
        aborts.push(handle.abort_handle());
        registry.insert(
            id,
            ActiveLoop {
                spec: spec(seconds, prompt, true),
                handle,
            },
        );
    }
    assert_eq!(
        registry.active_loop_descriptions(),
        vec!["#1 every 5s: b", "#2 every 1m: a", "#3 every 7s: c"]
    );
    assert!(registry.stop_loop(LoopId(2)));
    assert!(!registry.stop_loop(LoopId(2)));
    runtime.block_on(async { tokio::task::yield_now().await });
    assert!(aborts[1].is_finished());
    assert!(!aborts[0].is_finished());
    let mut stopped: Vec<u64> = registry.stop_all_loops().into_iter().map(|id| id.0).collect();
    stopped.sort();
    assert_eq!(stopped, vec![1, 3]);
    runtime.block_on(async { tokio::task::yield_now().await });
    assert!(aborts[0].is_finished() && aborts[2].is_finished());
    assert!(registry.active_loop_descriptions().is_empty());
    assert_eq!(registry.reserve_id(), LoopId(4));
}
