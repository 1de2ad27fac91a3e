use drunken_dolphin::calendar::{day_before, days_in_month, is_leap, normalize_date};
use drunken_dolphin::commands::{pullups, pushups, situps, steps, FitnessCommand};
use drunken_dolphin::personal::{DailyRecord, ExerciseKind, ExerciseRecord, PersonalData};
use drunken_dolphin::{AppConfig, AppError, Tracker};

fn local_today_text() -> String {
    chrono::Local::now().date_naive().format("%Y-%m-%d").to_string()
}

fn empty_tracker() -> Tracker {
    Tracker::new(AppConfig { data_file: "fitness.json".to_string() }, None)
}

fn rejection(date: &str) -> AppError {
    AppError::InvalidDate(format!(
        "Invalid date format: {}. Use 'today', 'yesterday', or YYYY-MM-DD",
        date
    ))
}

#[test]
fn normal_date_text_is_kept() {
    for d in ["2024-01-05", "2024-02-29", "0001-12-31", "9999-12-31", "2023-11-30"] {
        assert_eq!(normalize_date(d, (2024, 6, 1)), Ok(d.to_string()));
    }
}

#[test]
fn normalizing_twice_changes_nothing() {
    let once = normalize_date("2024-03-07", (2024, 6, 1)).unwrap();
    assert_eq!(once, "2024-03-07");
    let twice = normalize_date(&once, (2024, 6, 1)).unwrap();
    assert_eq!(twice, once);
}

#[test]
fn keyword_key_normalizes_to_itself() {
    for d in ["today", "Yesterday"] {
        let once = normalize_date(d, (2024, 3, 1)).unwrap();
        assert_eq!(normalize_date(&once, (2024, 3, 1)), Ok(once.clone()));
    }
}

#[test]
fn text_of_another_shape_is_rejected() {
    for d in ["2024-1-5", "2024-3-07", "+12345-01-01", "-0001-01-01", " 2024-01-05", "2024-01-05 ", "02024-01-05", "2024/01/05", "2024-01-0x"] {
        assert_eq!(normalize_date(d, (2024, 6, 1)), Err(rejection(d)));
    }
}

#[test]
fn rejected_shape_leaves_store_unchanged() {
    let mut t = empty_tracker();
    assert_eq!(pushups::execute(&mut t, 3, "+12345-01-01"), Err(rejection("+12345-01-01")));
    assert_eq!(t.data().len(), 0);
}

#[test]
fn bare_message_is_a_configuration_error() {
    assert_eq!(AppError::from("no dir".to_string()), AppError::Config("no dir".to_string()));
}

#[test]
fn keywords_resolve_against_today() {
    assert_eq!(normalize_date("today", (2024, 3, 1)), Ok("2024-03-01".to_string()));
    assert_eq!(normalize_date("yesterday", (2024, 3, 1)), Ok("2024-02-29".to_string()));
    assert_eq!(normalize_date("yesterday", (2023, 3, 1)), Ok("2023-02-28".to_string()));
    assert_eq!(normalize_date("yesterday", (2024, 1, 1)), Ok("2023-12-31".to_string()));
    assert_eq!(normalize_date("yesterday", (2024, 5, 17)), Ok("2024-05-16".to_string()));
}

#[test]
fn keywords_ignore_case() {
    assert_eq!(normalize_date("TODAY", (2024, 3, 1)), Ok("2024-03-01".to_string()));
    assert_eq!(normalize_date("YesterDay", (2024, 3, 1)), Ok("2024-02-29".to_string()));
}

#[test]
fn invalid_dates_are_rejected() {
    for d in ["2024-02-30", "2023-02-29", "2024-13-01", "2024-00-10", "2024-04-31", "2024-01-00", "2024-01-32", "garbage", "", "tomorrow", "05/01/2024"] {
        assert_eq!(normalize_date(d, (2024, 6, 1)), Err(rejection(d)));
    }
}

#[test]
fn rejection_message_names_the_input() {
    let e = normalize_date("2024-02-30", (2024, 6, 1)).unwrap_err();
    assert_eq!(
        e.message(),
        "Invalid date format: Invalid date format: 2024-02-30. Use 'today', 'yesterday', or YYYY-MM-DD"
    );
}

#[test]
fn error_messages_have_their_prefix() {
    assert_eq!(AppError::Config("x".to_string()).message(), "Configuration error: x");
    assert_eq!(AppError::Json("x".to_string()).message(), "JSON parsing error: x");
    assert_eq!(AppError::Io("x".to_string()).message(), "IO error: x");
    assert_eq!(AppError::InvalidExercise("x".to_string()).message(), "Invalid exercise type: x");
}

#[test]
fn calendar_arithmetic() {
    assert!(is_leap(2024));
    assert!(is_leap(2000));
    assert!(!is_leap(1900));
    assert!(!is_leap(2023));
    assert!(is_leap(-4));
    assert_eq!(days_in_month(2024, 2), 29);
    assert_eq!(days_in_month(2023, 2), 28);
    assert_eq!(days_in_month(2023, 4), 30);
    assert_eq!(days_in_month(2023, 12), 31);
    assert_eq!(day_before((2023, 3, 1)), (2023, 2, 28));
    assert_eq!(day_before((2024, 3, 1)), (2024, 2, 29));
    assert_eq!(day_before((2024, 1, 1)), (2023, 12, 31));
    assert_eq!(day_before((2024, 7, 15)), (2024, 7, 14));
}

#[test]
fn pushups_today_on_empty_store() {
    let mut t = empty_tracker();
    let key = pushups::execute(&mut t, 25, "today").unwrap();
    assert_eq!(key, local_today_text());
    let data = t.data();
    assert_eq!(data.len(), 1);
    let day = data.get(&key).unwrap();
    assert_eq!(day.pushups.as_ref().unwrap().count, 25);
    assert_eq!(day.pushups.as_ref().unwrap().timestamp.len(), 19);
    assert!(day.situps.is_none());
    assert!(day.pullups.is_none());
}

#[test]
fn today_shortcut_records_both() {
    let mut t = empty_tracker();
    for (kind, count, date) in steps(&FitnessCommand::Today { pushups: 10, situps: 20 }) {
        t.record(kind, count, &date).unwrap();
    }
    let data = t.data();
    assert_eq!(data.len(), 1);
    let day = data.get(&local_today_text()).unwrap();
    assert_eq!(day.pushups.as_ref().unwrap().count, 10);
    assert_eq!(day.situps.as_ref().unwrap().count, 20);
    assert!(day.pullups.is_none());
}

#[test]
fn invalid_calendar_date_leaves_store_unchanged() {
    let mut t = empty_tracker();
    let r = situps::execute(&mut t, 5, "2024-02-30");
    assert_eq!(r, Err(rejection("2024-02-30")));
    assert_eq!(t.data().len(), 0);
}

#[test]
fn second_recording_overwrites_first() {
    let mut t = empty_tracker();
    situps::execute(&mut t, 7, "2024-01-05").unwrap();
    pushups::execute(&mut t, 10, "2024-01-05").unwrap();
    pushups::execute(&mut t, 20, "2024-01-05").unwrap();
    let data = t.data();
    assert_eq!(data.len(), 1);
    let day = data.get("2024-01-05").unwrap();
    assert_eq!(day.pushups.as_ref().unwrap().count, 20);
    assert_eq!(day.situps.as_ref().unwrap().count, 7);
    assert!(day.pullups.is_none());
}

#[test]
fn record_with_fixed_clock() {
    let mut t = empty_tracker();
    let key = t
        .record_with(ExerciseKind::Pullups, 3, "Yesterday", (2024, 3, 1), "2024-03-01 08:00:00".to_string())
        .unwrap();
    assert_eq!(key, "2024-02-29");
    let day = t.data().get("2024-02-29").unwrap();
    let p = day.pullups.as_ref().unwrap();
    assert_eq!(p.count, 3);
    assert_eq!(p.timestamp, "2024-03-01 08:00:00");
    assert!(day.pushups.is_none() && day.situps.is_none());
}

#[test]
fn pullups_on_explicit_date() {
    let mut t = empty_tracker();
    let key = pullups::execute(&mut t, 4, "2023-12-31").unwrap();
    assert_eq!(key, "2023-12-31");
    assert_eq!(t.data().get("2023-12-31").unwrap().pullups.as_ref().unwrap().count, 4);
}

#[test]
fn separate_dates_are_separate_days() {
    let mut t = empty_tracker();
    t.record_pushups(1, "2024-01-01").unwrap();
    t.record_pushups(2, "2024-01-02").unwrap();
    assert_eq!(t.data().len(), 2);
    assert_eq!(t.data().get("2024-01-01").unwrap().pushups.as_ref().unwrap().count, 1);
    assert_eq!(t.data().get("2024-01-02").unwrap().pushups.as_ref().unwrap().count, 2);
    assert!(t.data().get("2024-01-03").is_none());
}

#[test]
fn missing_or_unreadable_document_gives_empty_store() {
    let t = empty_tracker();
    assert_eq!(t.data().len(), 0);
    assert_eq!(t.config().data_file, "fitness.json");
}

#[test]
fn stored_document_is_used() {
    let mut d = PersonalData::new();
    d.insert_day("2024-01-05".to_string(), DailyRecord {
        pushups: Some(ExerciseRecord { count: 9, timestamp: "t".to_string() }),
        situps: None,
        pullups: None,
    });
    let t = Tracker::new(AppConfig { data_file: "f.json".to_string() }, Some(d));
    assert_eq!(t.data().len(), 1);
    assert_eq!(t.data().get("2024-01-05").unwrap().pushups.as_ref().unwrap().count, 9);
}

#[test]
fn listing_and_rebuilding_keeps_every_day() {
    let mut t = empty_tracker();
    t.record_pushups(10, "2024-01-05").unwrap();
    t.record_situps(20, "2024-01-05").unwrap();
    t.record_pullups(30, "2024-02-01").unwrap();
    let listed = t.data().days().clone();
    let rebuilt = PersonalData::from_days(listed);
    assert_eq!(rebuilt.len(), 2);
    for (key, day) in t.data().days() {
        let other = rebuilt.get(key).unwrap();
        for (a, b) in [(&day.pushups, &other.pushups), (&day.situps, &other.situps), (&day.pullups, &other.pullups)] {
            assert_eq!(a.as_ref().map(|r| (r.count, r.timestamp.clone())), b.as_ref().map(|r| (r.count, r.timestamp.clone())));
        }
    }
}

#[test]
fn rebuilding_keeps_the_later_of_two_days() {
    let day = |n: u32| DailyRecord {
        pushups: Some(ExerciseRecord { count: n, timestamp: "t".to_string() }),
        situps: None,
        pullups: None,
    };
    let d = PersonalData::from_days(vec![("2024-01-05".to_string(), day(1)), ("2024-01-05".to_string(), day(2))]);
    assert_eq!(d.len(), 1);
    assert_eq!(d.get("2024-01-05").unwrap().pushups.as_ref().unwrap().count, 2);
}

#[test]
fn commands_map_to_recordings() {
    let s = steps(&FitnessCommand::Pushups { count: 25, date: "today".to_string() });
    assert_eq!(s, vec![(ExerciseKind::Pushups, 25, "today".to_string())]);
    let s = steps(&FitnessCommand::Situps { count: 5, date: "2024-02-30".to_string() });
    assert_eq!(s, vec![(ExerciseKind::Situps, 5, "2024-02-30".to_string())]);
    let s = steps(&FitnessCommand::Yesterday { pushups: 1, situps: 2 });
    assert_eq!(
        s,
        vec![(ExerciseKind::Pushups, 1, "yesterday".to_string()), (ExerciseKind::Situps, 2, "yesterday".to_string())]
    );
}

#[test]
fn exercise_labels() {
    assert_eq!(ExerciseKind::Pushups.label(), "push-ups");
    assert_eq!(ExerciseKind::Situps.label(), "sit-ups");
    assert_eq!(ExerciseKind::Pullups.label(), "pull-ups");
}
