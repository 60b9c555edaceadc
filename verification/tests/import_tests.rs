use slam_core::common::Context;
use slam_core::csv_import::parse_sports_from_csv;
use slam_core::kind::SportType;
use slam_core::model::SportExtra;
use slam_core::repo::MemorySportDao;
use slam_core::service::SportService;
use slam_core::stats::{StatKind, StatsParam};

fn csv_two_swimming_one_other() -> String {
    let mut s = String::new();
    s.push_str("Sid,Key,UID,Time,Category,Value\n");
    s.push_str("1,k,7,1731801600,swimming,\"{\"\"calories\"\":123,\"\"distance\"\":1000,\"\"valid_duration\"\":600,\"\"avg_swolf\"\":80,\"\"max_stroke_freq\"\":20,\"\"main_posture\"\":1}\"\n");
    s.push_str("2,k,7,1731888000000,swimming,\"{\"\"total_cal\"\":45,\"\"duration\"\":300,\"\"main_posture\"\":3}\"\n");
    s.push_str("3,k,7,1731801600,running,\"{\"\"calories\"\":99}\"\n");
    s
}

#[test]
fn xiaomi_rows_become_canonical_records() {
    let data = csv_two_swimming_one_other();
    let sports = parse_sports_from_csv("xiaomi", &data).expect("xiaomi is supported");
    assert_eq!(sports.len(), 2);

    let a = &sports[0];
    assert_eq!(a.kind, SportType::Swimming);
    assert_eq!(a.start_time, 1731801600);
    assert_eq!(a.calories, 123);
    assert_eq!(a.distance_meter, 1000);
    assert_eq!(a.duration_second, 600);
    assert_eq!(a.heart_rate_avg, 0);
    assert_eq!(a.heart_rate_max, 0);
    assert_eq!(a.pace_average, "");
    assert!(a.tracks.is_empty());
    match &a.extra {
        Some(SportExtra::Swimming(s)) => {
            assert_eq!(s.main_stroke, "freestyle");
            assert_eq!(s.stroke_avg, 20);
            assert_eq!(s.swolf_avg, 80);
        }
        _ => panic!("swimming extra expected"),
    }

    // a millisecond time is divided down, fallback pairs apply, and an
    // unknown posture code maps to its vocabulary entry
    let b = &sports[1];
    assert_eq!(b.start_time, 1731888000);
    assert_eq!(b.calories, 45);
    assert_eq!(b.duration_second, 300);
    match &b.extra {
        Some(SportExtra::Swimming(s)) => {
            assert_eq!(s.main_stroke, "breaststroke");
            assert_eq!(s.stroke_avg, 0);
            assert_eq!(s.swolf_avg, 0);
        }
        _ => panic!("swimming extra expected"),
    }
}

#[test]
fn unreadable_rows_are_skipped_not_fatal() {
    let mut data = String::new();
    data.push_str("Time,Category,Value\n");
    data.push_str("not-a-number,swimming,{}\n");
    data.push_str("1731801600,swimming,not json\n");
    let sports = parse_sports_from_csv("xiaomi", &data).expect("supported vendor");
    // the first row has no readable time and is skipped; the second
    // falls back to an all-default value object
    assert_eq!(sports.len(), 1);
    assert_eq!(sports[0].calories, 0);
}

#[test]
fn import_inserts_only_the_matching_rows() {
    let data = csv_two_swimming_one_other();
    let mut svc = SportService::new(MemorySportDao::new());
    let ctx = Context { uid: 7 };
    let inserted = svc.import("xiaomi", &data, &ctx).expect("import");
    assert_eq!(inserted, 2);
    assert_eq!(svc.list(0, 20, &ctx).unwrap().len(), 2);
}

#[test]
fn unsupported_vendor_is_fatal_and_inserts_nothing() {
    let data = csv_two_swimming_one_other();
    let mut svc = SportService::new(MemorySportDao::new());
    let ctx = Context { uid: 7 };
    let err = svc.import("garmin", &data, &ctx).unwrap_err();
    assert_eq!(err.code, 400);
    let err = svc.import("huawei", &data, &ctx).unwrap_err();
    assert_eq!(err.code, 400);
    assert_eq!(svc.list(0, 20, &ctx).unwrap().len(), 0);
}

#[test]
fn vendor_dispatch_is_case_insensitive() {
    let data = csv_two_swimming_one_other();
    assert!(parse_sports_from_csv("XiAoMi", &data).is_ok());
    assert!(parse_sports_from_csv("strava", &data).is_err());
}

#[test]
fn import_with_no_usable_rows_is_reported() {
    let mut svc = SportService::new(MemorySportDao::new());
    let ctx = Context { uid: 7 };
    let err = svc.import("xiaomi", "Time,Category,Value\n", &ctx).unwrap_err();
    assert_eq!(err.code, 400);
}

#[test]
fn import_invalidates_the_year_entries_it_touches() {
    let data = csv_two_swimming_one_other();
    let mut svc = SportService::new(MemorySportDao::new());
    let ctx = Context { uid: 7 };
    // warm the 2024 year cache (the import rows are of late 2024 UTC)
    let warm = svc
        .stats(StatsParam { kind: StatKind::Year, year: 2024, month: None, week: None }, &ctx)
        .expect("stats");
    assert_eq!(warm.total_count, 0);
    svc.import("xiaomi", &data, &ctx).expect("import");
    let after = svc
        .stats(StatsParam { kind: StatKind::Year, year: 2024, month: None, week: None }, &ctx)
        .expect("stats");
    assert_eq!(after.total_count, 2);
}

// an explicitly signed epoch in the Time column reads as its value
#[test]
fn plus_signed_time_cell_imports() {
    let mut data = String::new();
    data.push_str("Sid,Key,UID,Time,Category,Value\n");
    data.push_str("1,k,7,+1731801600,swimming,\"{\"\"total_cal\"\":45,\"\"duration\"\":300,\"\"main_posture\"\":1}\"\n");
    let sports = parse_sports_from_csv("xiaomi", &data).expect("xiaomi is supported");
    assert_eq!(sports.len(), 1);
    assert_eq!(sports[0].start_time, 1731801600);
    assert_eq!(sports[0].calories, 45);
}
