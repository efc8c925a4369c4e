use chrono::{DateTime, TimeZone, Utc};
use harness::calendar::{
    local_timezone, timezone_for_answer, Timezone, UtcInstant, LOCAL_DATE_TIME_FORMAT,
    MAX_TIMESTAMP, MIN_TIMESTAMP,
};
use harness::recurrence::{fault_of, has_clean_weekdays, occurrence_from};

#[test]
fn calendar_ends_where_chrono_does() {
    assert_eq!(MIN_TIMESTAMP, DateTime::<Utc>::MIN_UTC.timestamp());
    assert_eq!(MAX_TIMESTAMP, DateTime::<Utc>::MAX_UTC.timestamp());
    assert!(UtcInstant::new(MIN_TIMESTAMP - 1, 0).is_none());
    assert!(UtcInstant::new(MAX_TIMESTAMP + 1, 0).is_none());
    assert!(UtcInstant::new(0, 2_000_000_000).is_none());
}

#[test]
fn instants_move_by_seconds() {
    let t = UtcInstant::new(100, 5).unwrap();
    assert_eq!(t.plus(10), UtcInstant::new(110, 5));
    assert_eq!(t.minus(10), UtcInstant::new(90, 5));
    assert_eq!(t.plus(0), Some(t));
    assert_eq!(UtcInstant::new(MAX_TIMESTAMP, 0).unwrap().plus(1), None);
    assert_eq!(UtcInstant::new(MIN_TIMESTAMP, 0).unwrap().minus(1), None);
}

#[test]
fn leap_seconds_move_as_in_chrono() {
    let leap = UtcInstant::new(1_483_228_799, 1_500_000_000).unwrap();
    assert_eq!(leap.plus(1), UtcInstant::new(1_483_228_800, 500_000_000));
    assert_eq!(leap.minus(1), UtcInstant::new(1_483_228_799, 500_000_000));
    assert_eq!(leap.plus(0), Some(leap));
    assert_eq!(
        UtcInstant::new(MAX_TIMESTAMP, 1_500_000_000).unwrap().minus(1),
        UtcInstant::new(MAX_TIMESTAMP, 500_000_000)
    );
}

#[test]
fn instants_are_ordered() {
    let a = UtcInstant::new(100, 5).unwrap();
    let b = UtcInstant::new(100, 6).unwrap();
    assert!(a.not_after(b));
    assert!(a.not_after(a));
    assert!(!b.not_after(a));
}

#[test]
fn time_zones_are_found_by_name() {
    assert_eq!(Timezone::named("Europe/Berlin").unwrap().name(), "Europe/Berlin");
    assert!(Timezone::named("Europe/Nowhere").is_none());
    assert_eq!(Timezone::utc().name(), "UTC");
    assert_eq!(timezone_for_answer(None).name(), "UTC");
    assert_eq!(timezone_for_answer(Some("Nowhere".to_string())).name(), "UTC");
    assert_eq!(timezone_for_answer(Some("Asia/Tokyo".to_string())).name(), "Asia/Tokyo");
    assert!(Timezone::named(local_timezone().name()).is_some());
}

#[test]
fn every_zone_of_the_database_has_its_own_name() {
    for zone in chrono_tz::TZ_VARIANTS {
        assert_eq!(Timezone::named(zone.name()).unwrap().name(), zone.name());
        assert_eq!(rrule::Tz::Tz(zone).to_string(), zone.name());
    }
}

#[test]
fn rules_are_checked_and_searched() {
    let zone = Timezone::utc();
    let start = harness::timing::parse_dtstart("2024-01-01T09:00:00").unwrap();
    assert_eq!(fault_of(&zone, start, "FREQ=DAILY"), None);
    assert!(fault_of(&zone, start, "FREQ=NEVER").is_some());
    let from = UtcInstant::new(1_704_099_600, 0).unwrap();
    assert_eq!(occurrence_from(&zone, start, "FREQ=DAILY", from), Ok(Some(1_704_099_600)));
    let later = UtcInstant::new(1_704_099_600, 1).unwrap();
    assert_eq!(occurrence_from(&zone, start, "FREQ=DAILY", later), Ok(Some(1_704_186_000)));
    assert!(occurrence_from(&zone, start, "FREQ=NEVER", from).is_err());
}

#[test]
fn weekdays_of_a_rule_are_looked_at_where_it_has_some() {
    let zone = Timezone::utc();
    let start = harness::timing::parse_dtstart("2024-01-01T09:00:00").unwrap();
    for rule in [
        "FREQ=DAILY;COUNT=日",
        "FREQ=MONTHLY;BYMONTHDAY=１",
        "FREQ=日;BYDAY=MO",
        "FREQ=DAILY;BYDAY=é",
        "FREQ=DAILY;BYDAY=a",
        "FREQ=DAILY;BYDAY=",
        "FREQ=DAILY;BYDAY=é,",
        "FREQ=DAILY;XBYDAY=日",
        "FREQ=DAILY;BYDAY",
        "FREQ=DAILY;X:BYDAY=日",
        "FREQ=DAILY\r\nRDATE:日",
    ] {
        assert!(has_clean_weekdays(rule));
        assert!(fault_of(&zone, start, rule).is_some());
        assert!(occurrence_from(&zone, start, rule, UtcInstant::new(0, 0).unwrap()).is_err());
    }
    assert!(has_clean_weekdays("FREQ=WEEKLY;BYDAY=MO,1TU"));
    assert_eq!(fault_of(&zone, start, "FREQ=WEEKLY;BYDAY=MO,TU"), None);
    for rule in [
        "BYDAY=日",
        "BYDAY=éa",
        "FREQ=DAILY;byWeekday=MO,日;COUNT=1",
        "FREQ=DAILY\nEXRULE:BYDAY=日",
        "FREQ=DAILY\nBYDAY=日\r\nRDATE:20240101T000000Z",
    ] {
        assert!(!has_clean_weekdays(rule));
    }
}

#[test]
fn rules_that_end_without_a_time_zone_are_refused() {
    let zone = Timezone::utc();
    let berlin = Timezone::named("Europe/Berlin").unwrap();
    let start = harness::timing::parse_dtstart("2024-01-01T09:00:00").unwrap();
    let from = UtcInstant::new(0, 0).unwrap();
    for rule in [
        "FREQ=DAILY;UNTIL=20240201",
        "FREQ=DAILY;UNTIL=20240201T090000",
        "unt\u{131}l=20240201;FREQ=DAILY",
    ] {
        for zone in [&zone, &berlin] {
            assert!(fault_of(zone, start, rule).is_some());
            assert!(occurrence_from(zone, start, rule, from).is_err());
        }
    }
    assert_eq!(fault_of(&zone, start, "FREQ=DAILY;UNTIL=20240201T090000Z"), None);
}

#[test]
fn rules_of_several_lines_and_large_counts_are_read() {
    let zone = Timezone::utc();
    let start = harness::timing::parse_dtstart("2024-01-01T09:00:00").unwrap();
    let rule = "FREQ=DAILY\nRDATE:20231231T090000Z\nEXDATE:20240101T090000Z";
    assert_eq!(fault_of(&zone, start, rule), None);
    let from = UtcInstant::new(1_704_099_600, 0).unwrap();
    assert_eq!(occurrence_from(&zone, start, rule, from), Ok(Some(1_704_186_000)));
    assert!(fault_of(&zone, start, "FREQ=DAILY\nNONSENSE:1").is_some());
    assert_eq!(fault_of(&zone, start, "FREQ=DAILY;COUNT=12345678"), None);
}

#[test]
fn written_readings_are_read_back() {
    let mut secs = MIN_TIMESTAMP;
    while secs <= MAX_TIMESTAMP {
        for nanos in [0, 999_999_999] {
            let at = chrono::DateTime::from_timestamp(secs, nanos).unwrap().naive_utc();
            let text = at.format(LOCAL_DATE_TIME_FORMAT).to_string();
            assert!(!text.is_empty() && !text.contains(char::is_whitespace));
            let read = harness::timing::parse_dtstart(&text).unwrap();
            assert_eq!((read.secs, read.nanos), (secs, 0));
        }
        secs += 10_007 * 8_641_013;
    }
    let leap = UtcInstant::new(1_483_228_799, 1_500_000_000).unwrap();
    let rule = harness::trigger::AlarmTrigger::Schedule {
        dtstart: None,
        rrule: Some("FREQ=DAILY".to_string()),
    };
    let refused = harness::timing::normalize_trigger(rule, leap, &Timezone::utc()).unwrap_err();
    assert!(refused.contains("20161231T235960"));
    let read = harness::timing::parse_dtstart("2016-12-31T23:59:60").unwrap();
    assert_eq!((read.secs, read.nanos), (1_483_228_799, 1_000_000_000));
    for secs in [MIN_TIMESTAMP, MAX_TIMESTAMP, -62_167_219_201, 253_402_300_800] {
        let at = chrono::DateTime::from_timestamp(secs, 0).unwrap().naive_utc();
        let text = at.format(LOCAL_DATE_TIME_FORMAT).to_string();
        assert_eq!(harness::timing::parse_dtstart(&text).unwrap().secs, secs);
    }
}

#[test]
fn readings_of_every_zone_are_found_again() {
    for zone in chrono_tz::TZ_VARIANTS {
        let mut secs = -5_000_000_000_i64;
        while secs < 5_000_000_000 {
            let local = chrono::DateTime::from_timestamp(secs, 0)
                .unwrap()
                .with_timezone(&zone)
                .naive_local();
            assert!(zone.from_local_datetime(&local).earliest().is_some());
            secs += 1_000_003;
        }
    }
}
