use chrono::{Datelike, TimeZone, Utc};
use slam_core::common::Context;
use slam_core::kind::SportType;
use slam_core::model::{Sport, SportExtra, Swimming};
use slam_core::repo::{MemorySportDao, SportDao};
use slam_core::service::SportService;
use slam_core::stats::{StatKind, StatsParam, summarize};

fn ctx() -> Context {
    Context { uid: 1 }
}

fn swim(start_time: i64, calories: i32, duration: i32) -> Sport {
    Sport {
        id: 0,
        kind: SportType::Swimming,
        start_time,
        calories,
        distance_meter: 1000,
        duration_second: duration,
        heart_rate_avg: 120,
        heart_rate_max: 140,
        pace_average: "3'59''".to_string(),
        extra: Some(SportExtra::Swimming(Swimming {
            main_stroke: "freestyle".to_string(),
            stroke_avg: 20,
            swolf_avg: 80,
        })),
        tracks: vec![],
    }
}

fn year_param(year: i32) -> StatsParam {
    StatsParam { kind: StatKind::Year, year, month: None, week: None }
}

// insert a swimming record and read the year and week statistics
#[test]
fn insert_then_year_and_week_stats() {
    let dt = Utc.with_ymd_and_hms(2025, 11, 17, 0, 0, 0).unwrap();
    let ts = dt.timestamp();
    let mut svc = SportService::new(MemorySportDao::new());
    svc.insert(swim(ts, 123, 600), &ctx()).expect("insert");

    let year = svc.stats(year_param(2025), &ctx()).expect("year stats");
    assert_eq!(year.total_count, 1);
    assert_eq!(year.total_calories, 123);
    assert_eq!(year.total_duration_second, 600);
    assert_eq!(year.sports.len(), 1);
    assert_eq!(year.buckets.len(), 1);
    assert_eq!(year.buckets[0].date, 11);
    assert_eq!(year.earliest_year, Some(2025));

    let week = dt.iso_week().week();
    let week_stats = svc
        .stats(
            StatsParam { kind: StatKind::Week, year: 2025, month: None, week: Some(week) },
            &ctx(),
        )
        .expect("week stats");
    assert_eq!(week_stats.total_count, 1);
    assert_eq!(week_stats.buckets.len(), 1);
    // 2025-11-17 is a Monday
    assert_eq!(week_stats.buckets[0].date, 1);

    let month_stats = svc
        .stats(
            StatsParam { kind: StatKind::Month, year: 2025, month: Some(11), week: None },
            &ctx(),
        )
        .expect("month stats");
    assert_eq!(month_stats.buckets.len(), 1);
    assert_eq!(month_stats.buckets[0].date, 17);
}

// two cached reads with no mutation in between: identical values, and
// the second performs no repository operation
#[test]
fn total_stats_cache_hit_reads_nothing() {
    let ts = Utc.with_ymd_and_hms(2025, 11, 17, 0, 0, 0).unwrap().timestamp();
    let mut svc = SportService::new(MemorySportDao::new());
    svc.insert(swim(ts, 123, 600), &ctx()).expect("insert");

    let total_param = StatsParam { kind: StatKind::Total, year: 0, month: None, week: None };
    let first = svc.stats(total_param, &ctx()).expect("first total");
    let calls_after_first = svc.dao_ref().calls_made();
    let second = svc.stats(total_param, &ctx()).expect("second total");
    let calls_after_second = svc.dao_ref().calls_made();

    assert_eq!(calls_after_first, calls_after_second, "cache hit must not touch the repository");
    assert_eq!(first.total_count, second.total_count);
    assert_eq!(first.total_calories, second.total_calories);
    assert_eq!(first.total_duration_second, second.total_duration_second);
    assert_eq!(first.total_distance_meter, second.total_distance_meter);
    assert_eq!(first.buckets.len(), second.buckets.len());
    assert_eq!(first.type_buckets.len(), second.type_buckets.len());
    assert_eq!(first.sports.len(), second.sports.len());
    assert_eq!(first.earliest_year, second.earliest_year);
    // the all-time scope omits the raw record list
    assert_eq!(first.sports.len(), 0);
}

// moving a record's start time into another year invalidates both years
#[test]
fn update_into_another_year_invalidates_both_entries() {
    let ts_2025 = Utc.with_ymd_and_hms(2025, 11, 17, 0, 0, 0).unwrap().timestamp();
    let ts_2026 = Utc.with_ymd_and_hms(2026, 3, 5, 12, 0, 0).unwrap().timestamp();
    let mut svc = SportService::new(MemorySportDao::new());
    svc.insert(swim(ts_2025, 123, 600), &ctx()).expect("insert");

    // warm both year caches
    let before_old = svc.stats(year_param(2025), &ctx()).expect("year 2025");
    assert_eq!(before_old.total_count, 1);
    let before_new = svc.stats(year_param(2026), &ctx()).expect("year 2026");
    assert_eq!(before_new.total_count, 0);

    let listed = svc.list(0, 20, &ctx()).expect("list");
    assert_eq!(listed.len(), 1);
    let mut moved = listed[0].duplicate();
    moved.start_time = ts_2026;
    svc.update(moved, &ctx()).expect("update");

    let after_old = svc.stats(year_param(2025), &ctx()).expect("year 2025 again");
    assert_eq!(after_old.total_count, 0, "old year entry must have been invalidated");
    let after_new = svc.stats(year_param(2026), &ctx()).expect("year 2026 again");
    assert_eq!(after_new.total_count, 1, "new year entry must have been invalidated");
    assert_eq!(after_new.total_calories, 123);
}

#[test]
fn delete_invalidates_the_total_entry() {
    let ts = Utc.with_ymd_and_hms(2025, 11, 17, 0, 0, 0).unwrap().timestamp();
    let mut svc = SportService::new(MemorySportDao::new());
    svc.insert(swim(ts, 123, 600), &ctx()).expect("insert");
    let total_param = StatsParam { kind: StatKind::Total, year: 0, month: None, week: None };
    assert_eq!(svc.stats(total_param, &ctx()).unwrap().total_count, 1);
    let id = svc.list(0, 20, &ctx()).unwrap()[0].id;
    svc.delete(id, &ctx()).expect("delete");
    assert_eq!(svc.stats(total_param, &ctx()).unwrap().total_count, 0);
}

// the year buckets partition the window: counts, calories and durations
// sum to the grand totals
#[test]
fn bucket_sums_match_totals() {
    let t1 = Utc.with_ymd_and_hms(2025, 1, 10, 8, 0, 0).unwrap().timestamp();
    let t2 = Utc.with_ymd_and_hms(2025, 1, 20, 8, 0, 0).unwrap().timestamp();
    let t3 = Utc.with_ymd_and_hms(2025, 7, 2, 8, 0, 0).unwrap().timestamp();
    let records = vec![swim(t1, 100, 60), swim(t2, 50, 30), swim(t3, 25, 15)];
    let summary = summarize(StatKind::Year, records);
    assert_eq!(summary.total_count, 3);
    assert_eq!(summary.total_calories, 175);
    assert_eq!(summary.total_duration_second, 105);
    assert_eq!(summary.buckets.len(), 2);
    assert_eq!(summary.buckets[0].date, 1);
    assert_eq!(summary.buckets[0].count, 2);
    assert_eq!(summary.buckets[1].date, 7);
    assert_eq!(summary.buckets[1].count, 1);
    let count_sum: i32 = summary.buckets.iter().map(|b| b.count).sum();
    let cal_sum: i32 = summary.buckets.iter().map(|b| b.calories).sum();
    let dur_sum: i32 = summary.buckets.iter().map(|b| b.duration).sum();
    assert_eq!(count_sum, summary.total_count);
    assert_eq!(cal_sum, summary.total_calories);
    assert_eq!(dur_sum, summary.total_duration_second);
    assert_eq!(summary.type_buckets.len(), 1);
    assert_eq!(summary.type_buckets[0].kind, SportType::Swimming);
    assert_eq!(summary.type_buckets[0].distance_meter, 3000);
}

#[test]
fn month_requires_its_parameter() {
    let mut svc = SportService::new(MemorySportDao::new());
    let err = svc
        .stats(StatsParam { kind: StatKind::Month, year: 2025, month: None, week: None }, &ctx())
        .unwrap_err();
    assert_eq!(err.code, 400);
    let err = svc
        .stats(StatsParam { kind: StatKind::Month, year: 2025, month: Some(13), week: None }, &ctx())
        .unwrap_err();
    assert_eq!(err.code, 400);
}

#[test]
fn week_requires_a_valid_iso_week() {
    let mut svc = SportService::new(MemorySportDao::new());
    let err = svc
        .stats(StatsParam { kind: StatKind::Week, year: 2025, month: None, week: None }, &ctx())
        .unwrap_err();
    assert_eq!(err.code, 400);
    // 2025 has 52 ISO weeks
    let err = svc
        .stats(StatsParam { kind: StatKind::Week, year: 2025, month: None, week: Some(53) }, &ctx())
        .unwrap_err();
    assert_eq!(err.code, 400);
}

#[test]
fn insert_rejects_out_of_range_start_time() {
    let mut svc = SportService::new(MemorySportDao::new());
    let err = svc.insert(swim(i64::MAX, 1, 1), &ctx()).unwrap_err();
    assert_eq!(err.code, 400);
}

#[test]
fn pagination_is_clamped() {
    let ts = Utc.with_ymd_and_hms(2025, 1, 1, 0, 0, 0).unwrap().timestamp();
    let mut dao = MemorySportDao::new();
    for i in 0..5 {
        dao.insert(1, swim(ts + i, 1, 1)).expect("insert");
    }
    // a non-positive size falls back to 20, a negative page to 0
    let all = dao.list(1, -3, 0).expect("list");
    assert_eq!(all.len(), 5);
    let two = dao.list(1, 1, 2).expect("list page 1 size 2");
    assert_eq!(two.len(), 2);
    let rest = dao.list(1, 2, 2).expect("list page 2 size 2");
    assert_eq!(rest.len(), 1);
    let none = dao.list(1, 9, 2).expect("list far page");
    assert_eq!(none.len(), 0);
    // an oversized page size clamps to 100
    let clamped = dao.list(1, 0, 5000).expect("list oversized");
    assert_eq!(clamped.len(), 5);
}

// listings come back newest-first by start time
#[test]
fn listings_are_newest_first() {
    let base = Utc.with_ymd_and_hms(2025, 1, 1, 0, 0, 0).unwrap().timestamp();
    let mut svc = SportService::new(MemorySportDao::new());
    svc.insert(swim(base + 1, 1, 1), &ctx()).expect("insert older");
    svc.insert(swim(base + 2, 2, 2), &ctx()).expect("insert newer");
    let listed = svc.list(0, 20, &ctx()).expect("list");
    assert_eq!(listed.len(), 2);
    assert_eq!(listed[0].start_time, base + 2, "page 0 must begin with the newest record");
    assert_eq!(listed[1].start_time, base + 1);
    let year = svc.stats(year_param(2025), &ctx()).expect("year stats");
    assert_eq!(year.sports.len(), 2);
    assert_eq!(year.sports[0].start_time, base + 2, "windows are newest-first too");
}

#[test]
fn records_are_scoped_to_their_owner() {
    let ts = Utc.with_ymd_and_hms(2025, 1, 1, 0, 0, 0).unwrap().timestamp();
    let mut svc = SportService::new(MemorySportDao::new());
    svc.insert(swim(ts, 9, 9), &Context { uid: 1 }).expect("insert");
    assert_eq!(svc.list(0, 20, &Context { uid: 2 }).unwrap().len(), 0);
    assert_eq!(svc.list(0, 20, &Context { uid: 1 }).unwrap().len(), 1);
    let id = svc.list(0, 20, &Context { uid: 1 }).unwrap()[0].id;
    let err = svc.delete(id, &Context { uid: 2 }).unwrap_err();
    assert_eq!(err.code, 500);
}

#[test]
fn group_by_year_buckets_by_month() {
    let t1 = Utc.with_ymd_and_hms(2025, 2, 1, 0, 0, 0).unwrap().timestamp();
    let t2 = Utc.with_ymd_and_hms(2025, 2, 2, 0, 0, 0).unwrap().timestamp();
    let mut svc = SportService::new(MemorySportDao::new());
    svc.insert(swim(t1, 5, 10), &ctx()).expect("insert");
    svc.insert(swim(t2, 7, 20), &ctx()).expect("insert");
    let buckets = svc.group_by_year(1, 0, i64::MAX).expect("group");
    assert_eq!(buckets.len(), 1);
    assert_eq!(buckets[0].date, 2);
    assert_eq!(buckets[0].count, 2);
    assert_eq!(buckets[0].calories, 12);
    assert_eq!(buckets[0].duration, 30);
}

#[test]
fn earliest_year_is_the_first_record_ever() {
    let early = Utc.with_ymd_and_hms(2019, 6, 1, 0, 0, 0).unwrap().timestamp();
    let late = Utc.with_ymd_and_hms(2025, 6, 1, 0, 0, 0).unwrap().timestamp();
    let mut svc = SportService::new(MemorySportDao::new());
    svc.insert(swim(late, 1, 1), &ctx()).expect("insert");
    svc.insert(swim(early, 1, 1), &ctx()).expect("insert");
    let s = svc.stats(year_param(2025), &ctx()).expect("stats");
    assert_eq!(s.earliest_year, Some(2019));
    assert_eq!(s.total_count, 1);
}
