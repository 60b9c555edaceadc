//! The statistics service: ingestion, mutation, and cached aggregation.
//!
//! Reads consult the scoped cache first and populate it with the freshly
//! computed value on a miss; every mutation invalidates the all-time
//! entry of the affected owner and the year entries of every calendar
//! year it touches — for an update both the old and the new year. A
//! cached all-time or year read returns the stored value unchanged and
//! performs no repository operation.
use vstd::prelude::*;
use vstd::map::*;

use crate::cache::MemoryResultCache;
use crate::calendar::{
    iso_week_start, iso_week_start_timestamp, iso_week_valid, month_start_timestamp,
    ts_in_civil_range, utc_month_start, utc_year_of, year_of_timestamp, ym_valid,
};
use crate::common::{Context, ServiceError};
use crate::model::{records_view, Sport, SportV};
use crate::repo::{
    appended_records, lemma_sort_desc_membership, page_slice, records_in_window, records_of,
    sort_desc, with_id, SportDao, StoredV,
};
use crate::stats::{
    all_pred, buckets_cal_sum, buckets_count_sum, buckets_dur_sum, buckets_spec, cal_of,
    check_sums_fit, dist_of, dur_of, key_range, kind_order, summarize, sum_if, tb_from,
    times_in_range, StatBucket, StatKind, StatsParam, StatSummary, SummaryV,
};

verus! {

/// Every stored start time lies in the calendar range.
pub open spec fn repo_times_ok(repo: Seq<StoredV>) -> bool {
    forall|i: int|
        0 <= i < repo.len() ==> ts_in_civil_range((#[trigger] repo[i]).sport.start_time)
}

/// Window listings of a well-timed repository are well-timed, in
/// repository order and newest-first alike.
proof fn lemma_window_times(repo: Seq<StoredV>, uid: int, start: int, end: int)
    requires
        repo_times_ok(repo),
    ensures
        times_in_range(records_in_window(repo, uid, start, end)),
        times_in_range(sort_desc(records_in_window(repo, uid, start, end))),
    decreases repo.len(),
{
    lemma_window_times_plain(repo, uid, start, end);
    let w = records_in_window(repo, uid, start, end);
    lemma_sort_desc_membership(w);
    assert forall|k: int| 0 <= k < sort_desc(w).len() implies ts_in_civil_range(
        (#[trigger] sort_desc(w)[k]).start_time,
    ) by {
        let j = choose|j: int| 0 <= j < w.len() && sort_desc(w)[k] == w[j];
        assert(ts_in_civil_range(w[j].start_time));
    }
}

proof fn lemma_window_times_plain(repo: Seq<StoredV>, uid: int, start: int, end: int)
    requires
        repo_times_ok(repo),
    ensures
        times_in_range(records_in_window(repo, uid, start, end)),
    decreases repo.len(),
{
    if repo.len() > 0 {
        let head = repo.drop_last();
        assert(repo_times_ok(head)) by {
            assert forall|i: int|
                0 <= i < head.len() implies ts_in_civil_range(
                (#[trigger] head[i]).sport.start_time,
            ) by {
                assert(head[i] == repo[i]);
            }
        }
        lemma_window_times_plain(head, uid, start, end);
        let w = records_in_window(repo, uid, start, end);
        let wh = records_in_window(head, uid, start, end);
        assert forall|k: int| 0 <= k < w.len() implies ts_in_civil_range(
            (#[trigger] w[k]).start_time,
        ) by {
            if k < wh.len() {
                assert(w[k] == wh[k]);
            } else {
                assert(w[k] == repo.last().sport);
                assert(repo[repo.len() - 1] == repo.last());
            }
        }
    }
}

/// The core fields of a computed summary for a window's records.
pub open spec fn summary_core_ok(s: SummaryV, rs: Seq<SportV>, kind: StatKind) -> bool {
    &&& s.total_count == rs.len()
    &&& s.total_calories == sum_if(rs, all_pred(), cal_of())
    &&& s.total_duration_second == sum_if(rs, all_pred(), dur_of())
    &&& s.total_distance_meter == sum_if(rs, all_pred(), dist_of())
    &&& s.buckets == buckets_spec(rs, kind, key_range(kind).0, key_range(kind).1)
    &&& s.type_buckets == tb_from(rs, kind_order(), 0)
    &&& s.sports == (if kind == StatKind::Total {
        Seq::<SportV>::empty()
    } else {
        rs
    })
}

/// What the earliest-year field may hold: nothing (the lookup failing
/// degrades, not errors), or the UTC year of a first record of the owner.
pub open spec fn earliest_ok(e: Option<int>, repo: Seq<StoredV>, uid: int) -> bool {
    match e {
        None => true,
        Some(y) => exists|j: int|
            {
                &&& 0 <= j < repo.len()
                &&& (#[trigger] repo[j]).uid == uid
                &&& y == utc_year_of(repo[j].sport.start_time)
                &&& forall|i: int|
                    0 <= i < repo.len() && (#[trigger] repo[i]).uid == uid ==> repo[
                        j
                    ].sport.start_time <= repo[i].sport.start_time
            },
    }
}

/// The year-cache keys an import batch prefix touches.
pub open spec fn import_year_keys(uid: int, rs: Seq<SportV>, upto: int) -> Set<(int, int)> {
    Set::new(
        |k: (int, int)|
            exists|t: int|
                0 <= t < upto && k == (uid, utc_year_of((#[trigger] rs[t]).start_time)),
    )
}

/// The `[start, end)` window of a year scope.
pub open spec fn year_window(y: int) -> (int, int) {
    (utc_month_start(y, 1), utc_month_start(y + 1, 1))
}

/// The `[start, end)` window of a month scope, rolling the year on
/// December.
pub open spec fn month_window(y: int, m: int) -> (int, int) {
    (
        utc_month_start(y, m),
        if m == 12 {
            utc_month_start(y + 1, 1)
        } else {
            utc_month_start(y, m + 1)
        },
    )
}

/// The `[start, end)` window of an ISO week scope: seven days from its
/// Monday.
pub open spec fn week_window(y: int, w: int) -> (int, int) {
    (iso_week_start(y, w), iso_week_start(y, w) + 604800)
}

/// A year parameter the calendar cannot place.
pub open spec fn year_param_invalid(y: int) -> bool {
    !ym_valid(y, 1) || !ym_valid(y + 1, 1)
}

/// A month parameter that is missing, out of 1..=12, or one the calendar
/// cannot place (either end of its window).
pub open spec fn month_param_invalid(y: int, month: Option<u32>) -> bool {
    match month {
        None => true,
        Some(m) => m < 1 || m > 12 || !ym_valid(y, m as int) || !(if m == 12 {
            ym_valid(y + 1, 1)
        } else {
            ym_valid(y, m as int + 1)
        }),
    }
}

/// A week parameter that is missing or no valid ISO week-date.
pub open spec fn week_param_invalid(y: int, week: Option<u32>) -> bool {
    match week {
        None => true,
        Some(w) => !iso_week_valid(y, w as int),
    }
}

/// The three partition equalities of a scoped summary: the time buckets
/// cover every record of the window.
pub open spec fn bucket_sums_ok(s: SummaryV) -> bool {
    &&& buckets_count_sum(s.buckets) == s.total_count
    &&& buckets_cal_sum(s.buckets) == s.total_calories
    &&& buckets_dur_sum(s.buckets) == s.total_duration_second
}

/// Wraps a repository failure unchanged: the opaque message passes
/// through under code 500 (spec: RepositoryError is a passthrough).
fn repository_error(message: String) -> (r: ServiceError)
    ensures
        r.code == 500,
        r.message@ == message@,
{
    ServiceError { code: 500, message }
}

/// The sport service: the repository, and one cache per cached scope.
pub struct SportService<D: SportDao> {
    dao: D,
    cache_total: MemoryResultCache<StatSummary>,
    cache_year: MemoryResultCache<StatSummary>,
}

impl<D: SportDao> SportService<D> {
    /// The stored rows.
    pub closed spec fn repo_view(&self) -> Seq<StoredV> {
        self.dao.repo()
    }

    /// How many repository operations have run.
    pub closed spec fn op_count(&self) -> int {
        self.dao.op_count()
    }

    /// The all-time cache, keyed by owner (year component 0).
    pub closed spec fn total_cache(&self) -> Map<(int, int), StatSummary> {
        self.cache_total@
    }

    /// The year cache, keyed by owner and year.
    pub closed spec fn year_cache(&self) -> Map<(int, int), StatSummary> {
        self.cache_year@
    }

    /// The service invariant: well-formed caches and well-timed rows.
    pub closed spec fn wf(&self) -> bool {
        &&& self.cache_total.wf()
        &&& self.cache_year.wf()
        &&& repo_times_ok(self.dao.repo())
    }

    /// A view of the repository, for observation.
    pub fn dao_ref(&self) -> (r: &D)
        ensures
            r.repo() == self.repo_view(),
            r.op_count() == self.op_count(),
    {
        &self.dao
    }

    /// Builds the service around a repository; the caches start empty.
    pub fn new(dao: D) -> (r: Self)
        requires
            repo_times_ok(dao.repo()),
        ensures
            r.wf(),
            r.repo_view() == dao.repo(),
            r.op_count() == dao.op_count(),
            r.total_cache() == Map::<(int, int), StatSummary>::empty(),
            r.year_cache() == Map::<(int, int), StatSummary>::empty(),
    {
        SportService {
            dao,
            cache_total: MemoryResultCache::new(),
            cache_year: MemoryResultCache::new(),
        }
    }

    /// Stores one record and invalidates the owner's all-time entry and
    /// the entry of the record's calendar year. A start time outside the
    /// calendar range is rejected before anything is stored.
    pub fn insert(&mut self, sport: Sport, ctx: &Context) -> (r: Result<(), ServiceError>)
        requires
            old(self).wf(),
        ensures
            final(self).wf(),
            !ts_in_civil_range(sport@.start_time) ==> (r matches Err(e) && e.code == 400),
            match r {
                Ok(_) => {
                    &&& ts_in_civil_range(sport@.start_time)
                    &&& exists|id: int|
                        0 < id <= 0x7FFF_FFFF && final(self).repo_view() == old(
                            self,
                        ).repo_view().push(
                            StoredV { uid: ctx.uid as int, sport: with_id(sport@, id) },
                        )
                    &&& final(self).total_cache() == old(self).total_cache().remove(
                        (ctx.uid as int, 0),
                    )
                    &&& final(self).year_cache() == old(self).year_cache().remove(
                        (ctx.uid as int, utc_year_of(sport@.start_time)),
                    )
                },
                Err(e) => {
                    &&& (e.code == 400 || e.code == 500)
                    &&& (e.code == 400 <==> !ts_in_civil_range(sport@.start_time))
                    &&& (e.code == 400 ==> e.message@ == "start_time out of range"@)
                    &&& final(self).repo_view() == old(self).repo_view()
                    &&& final(self).total_cache() == old(self).total_cache()
                    &&& final(self).year_cache() == old(self).year_cache()
                },
            },
    {
        if !(-62135596800 <= sport.start_time && sport.start_time <= 253402300799) {
            return Err(
                ServiceError { code: 400, message: "start_time out of range".to_owned() },
            );
        }
        let ts = sport.start_time;
        let y = match year_of_timestamp(ts) {
            Some(y) => y,
            None => {
                proof {
                    assert(false);
                }
                0
            },
        };
        let ghost sv = sport@;
        match self.dao.insert(ctx.uid, sport) {
            Ok(_) => {},
            Err(e) => {
                return Err(repository_error(e));
            },
        }
        proof {
            let repo0 = old(self).repo_view();
            let id = choose|id: int|
                0 < id <= 0x7FFF_FFFF && self.repo_view() == repo0.push(
                    StoredV { uid: ctx.uid as int, sport: with_id(sv, id) },
                );
            assert(repo_times_ok(self.repo_view())) by {
                assert forall|i: int|
                    0 <= i < self.repo_view().len() implies ts_in_civil_range(
                    (#[trigger] self.repo_view()[i]).sport.start_time,
                ) by {
                    if i < repo0.len() {
                        assert(self.repo_view()[i] == repo0[i]);
                    } else {
                        assert(self.repo_view()[i] == StoredV {
                            uid: ctx.uid as int,
                            sport: with_id(sv, id),
                        });
                    }
                }
            }
        }
        self.cache_total.invalidate(ctx.uid, 0);
        self.cache_year.invalidate(ctx.uid, y);
        Ok(())
    }

    /// One page of the owner's records.
    pub fn list(&mut self, page: i32, size: i32, ctx: &Context) -> (r: Result<
        Vec<Sport>,
        ServiceError,
    >)
        requires
            old(self).wf(),
        ensures
            final(self).wf(),
            final(self).repo_view() == old(self).repo_view(),
            final(self).total_cache() == old(self).total_cache(),
            final(self).year_cache() == old(self).year_cache(),
            match r {
                Ok(v) => records_view(v@) == page_slice(
                    sort_desc(records_of(old(self).repo_view(), ctx.uid as int)),
                    page as int,
                    size as int,
                ),
                Err(e) => e.code == 500,
            },
    {
        match self.dao.list(ctx.uid, page, size) {
            Ok(v) => Ok(v),
            Err(e) => Err(repository_error(e)),
        }
    }

    /// Replaces a record and invalidates the owner's all-time entry, the
    /// entry of the replaced record's year, and the entry of the new
    /// start time's year.
    pub fn update(&mut self, sport: Sport, ctx: &Context) -> (r: Result<(), ServiceError>)
        requires
            old(self).wf(),
        ensures
            final(self).wf(),
            !ts_in_civil_range(sport@.start_time) ==> (r matches Err(e) && e.code == 400),
            match r {
                Ok(_) => {
                    &&& ts_in_civil_range(sport@.start_time)
                    &&& exists|j1: int, j2: int|
                        {
                            &&& 0 <= j1 < old(self).repo_view().len()
                            &&& 0 <= j2 < old(self).repo_view().len()
                            &&& (#[trigger] old(self).repo_view()[j1]).uid == ctx.uid as int
                            &&& old(self).repo_view()[j1].sport.id == sport@.id
                            &&& (#[trigger] old(self).repo_view()[j2]).uid == ctx.uid as int
                            &&& old(self).repo_view()[j2].sport.id == sport@.id
                            &&& final(self).repo_view() == old(self).repo_view().update(
                                j2,
                                StoredV { uid: ctx.uid as int, sport: sport@ },
                            )
                            &&& final(self).year_cache() == old(self).year_cache().remove(
                                (
                                    ctx.uid as int,
                                    utc_year_of(old(self).repo_view()[j1].sport.start_time),
                                ),
                            ).remove((ctx.uid as int, utc_year_of(sport@.start_time)))
                        }
                    &&& final(self).total_cache() == old(self).total_cache().remove(
                        (ctx.uid as int, 0),
                    )
                },
                Err(e) => {
                    &&& (e.code == 400 || e.code == 500)
                    &&& (e.code == 400 <==> !ts_in_civil_range(sport@.start_time))
                    &&& (e.code == 400 ==> e.message@ == "start_time out of range"@)
                    &&& final(self).repo_view() == old(self).repo_view()
                    &&& final(self).total_cache() == old(self).total_cache()
                    &&& final(self).year_cache() == old(self).year_cache()
                },
            },
    {
        if !(-62135596800 <= sport.start_time && sport.start_time <= 253402300799) {
            return Err(
                ServiceError { code: 400, message: "start_time out of range".to_owned() },
            );
        }
        let old_rec = match self.dao.get_by_id(ctx.uid, sport.id) {
            Ok(o) => o,
            Err(e) => {
                return Err(repository_error(e));
            },
        };
        let old_rec = match old_rec {
            Some(o) => o,
            None => {
                // with no such record the replacement below cannot succeed
                match self.dao.update(ctx.uid, sport) {
                    Ok(_) => {
                        proof {
                            assert(false);
                        }
                        return Err(
                            ServiceError { code: 500, message: "update failed".to_owned() },
                        );
                    },
                    Err(e) => {
                        return Err(repository_error(e));
                    },
                }
            },
        };
        let new_ts = sport.start_time;
        let ghost sv = sport@;
        match self.dao.update(ctx.uid, sport) {
            Ok(_) => {},
            Err(e) => {
                return Err(repository_error(e));
            },
        }
        proof {
            let repo0 = old(self).repo_view();
            let j2 = choose|j2: int|
                {
                    &&& 0 <= j2 < repo0.len()
                    &&& (#[trigger] repo0[j2]).uid == ctx.uid as int
                    &&& repo0[j2].sport.id == sv.id
                    &&& self.repo_view() == repo0.update(
                        j2,
                        StoredV { uid: ctx.uid as int, sport: sv },
                    )
                };
            assert(repo_times_ok(self.repo_view())) by {
                assert forall|i: int|
                    0 <= i < self.repo_view().len() implies ts_in_civil_range(
                    (#[trigger] self.repo_view()[i]).sport.start_time,
                ) by {
                    if i != j2 {
                        assert(self.repo_view()[i] == repo0[i]);
                    }
                }
            }
        }
        self.cache_total.invalidate(ctx.uid, 0);
        proof {
            assert(ts_in_civil_range(old_rec@.start_time));
        }
        let oy = match year_of_timestamp(old_rec.start_time) {
            Some(y) => y,
            None => {
                proof {
                    assert(false);
                }
                0
            },
        };
        self.cache_year.invalidate(ctx.uid, oy);
        let ny = match year_of_timestamp(new_ts) {
            Some(y) => y,
            None => {
                proof {
                    assert(false);
                }
                0
            },
        };
        self.cache_year.invalidate(ctx.uid, ny);
        Ok(())
    }

    /// Imports a vendor CSV: every record the vendor adapter yields is
    /// stored in one batch, the owner's all-time entry is invalidated,
    /// and so is the year entry of every calendar year the batch
    /// touches. An unsupported vendor, an import yielding no usable
    /// rows, and an out-of-range start time are validation failures with
    /// nothing stored.
    pub fn import(&mut self, vendor: &str, csv_data: &str, ctx: &Context) -> (r: Result<
        usize,
        ServiceError,
    >)
        requires
            old(self).wf(),
        ensures
            final(self).wf(),
            !crate::text::ieq_spec(vendor@, "xiaomi"@) ==> (r matches Err(e) && e.code == 400),
            ({
                let recs = crate::csv_import::xiaomi_records_spec(
                    crate::csvio::csv_rows_of(csv_data@),
                );
                &&& match r {
                    Ok(n) => {
                        &&& crate::text::ieq_spec(vendor@, "xiaomi"@)
                        &&& n == recs.len()
                        &&& n > 0
                        &&& appended_records(
                            old(self).repo_view(),
                            final(self).repo_view(),
                            ctx.uid as int,
                            recs,
                        )
                        &&& final(self).total_cache() == old(self).total_cache().remove(
                            (ctx.uid as int, 0),
                        )
                        &&& final(self).year_cache() == old(self).year_cache().remove_keys(
                            import_year_keys(ctx.uid as int, recs, recs.len() as int),
                        )
                    },
                    Err(e) => {
                        &&& (e.code == 400 || e.code == 500)
                        &&& final(self).repo_view() == old(self).repo_view()
                        &&& final(self).total_cache() == old(self).total_cache()
                        &&& final(self).year_cache() == old(self).year_cache()
                    },
                }
                // the validation failure, exactly: a vendor that is not
                // supported, a CSV without usable rows, or a row whose
                // start time the calendar cannot place
                &&& ((r matches Err(e2) && e2.code == 400) <==> (!crate::text::ieq_spec(
                    vendor@,
                    "xiaomi"@,
                ) || recs.len() == 0 || exists|t: int|
                    0 <= t < recs.len() && !ts_in_civil_range(
                        (#[trigger] recs[t]).start_time,
                    )))
                // success is owed up to the repository: a supported vendor
                // with usable, well-timed rows imports or fails with 500
                &&& ((crate::text::ieq_spec(vendor@, "xiaomi"@) && recs.len() > 0 && (forall|
                    t: int,
                |
                    0 <= t < recs.len() ==> ts_in_civil_range(
                        (#[trigger] recs[t]).start_time,
                    )) ==> (r is Ok || (r matches Err(e3) && e3.code == 500))))
            }),
            (crate::text::ieq_spec(vendor@, "xiaomi"@) && crate::csv_import::xiaomi_records_spec(
                crate::csvio::csv_rows_of(csv_data@),
            ).len() == 0) ==> (r matches Err(e) && e.code == 400),
    {
        let sports = match crate::csv_import::parse_sports_from_csv(vendor, csv_data) {
            Ok(v) => v,
            Err(m) => {
                return Err(ServiceError { code: 400, message: m });
            },
        };
        if sports.len() == 0 {
            return Err(ServiceError { code: 400, message: "no valid rows".to_owned() });
        }
        let ghost rv = records_view(sports@);
        let ghost recs = crate::csv_import::xiaomi_records_spec(
            crate::csvio::csv_rows_of(csv_data@),
        );
        proof {
            assert(rv == recs);
            crate::csv_import::lemma_xiaomi_records_consistent(
                crate::csvio::csv_rows_of(csv_data@),
            );
        }
        // the variant of each record and track must match its kind; the
        // adapter only yields consistent records, so this cannot fail
        let mut i: usize = 0;
        while i < sports.len()
            invariant
                i <= sports@.len(),
                self.wf(),
                self.repo_view() == old(self).repo_view(),
                self.total_cache() == old(self).total_cache(),
                self.year_cache() == old(self).year_cache(),
                rv == records_view(sports@),
                rv == recs,
                recs == crate::csv_import::xiaomi_records_spec(
                    crate::csvio::csv_rows_of(csv_data@),
                ),
                forall|k: int|
                    0 <= k < recs.len() ==> crate::model::sport_consistent(#[trigger] recs[k]),
            decreases sports@.len() - i,
        {
            match sports[i].validate_type_consistency() {
                Ok(_) => {},
                Err(m) => {
                    proof {
                        assert(sports@[i as int]@ == rv[i as int]);
                        assert(crate::model::sport_consistent(sports@[i as int]@));
                        assert(false);
                    }
                    return Err(ServiceError { code: 400, message: m });
                },
            }
            i += 1;
        }
        // every start time must lie in the calendar range
        let mut years: Vec<i32> = Vec::new();
        let mut t: usize = 0;
        while t < sports.len()
            invariant
                t <= sports@.len(),
                self.wf(),
                self.repo_view() == old(self).repo_view(),
                self.total_cache() == old(self).total_cache(),
                self.year_cache() == old(self).year_cache(),
                rv == records_view(sports@),
                rv == recs,
                recs == crate::csv_import::xiaomi_records_spec(
                    crate::csvio::csv_rows_of(csv_data@),
                ),
                rv.len() == sports@.len(),
                years@.len() == t,
                forall|j: int| 0 <= j < t ==> ts_in_civil_range((#[trigger] rv[j]).start_time),
                forall|j: int|
                    0 <= j < t ==> #[trigger] years@[j] as int == utc_year_of(rv[j].start_time),
            decreases sports@.len() - t,
        {
            let ts = sports[t].start_time;
            proof {
                assert(rv[t as int] == sports@[t as int]@);
            }
            if !(-62135596800 <= ts && ts <= 253402300799) {
                proof {
                    assert(!ts_in_civil_range((recs[t as int]).start_time));
                    assert(!ts_in_civil_range(
                        crate::csv_import::xiaomi_records_spec(
                            crate::csvio::csv_rows_of(csv_data@),
                        )[t as int].start_time,
                    ));
                }
                return Err(
                    ServiceError { code: 400, message: "start_time out of range".to_owned() },
                );
            }
            let y = match year_of_timestamp(ts) {
                Some(y) => y,
                None => {
                    proof {
                        assert(false);
                    }
                    0
                },
            };
            years.push(y);
            t += 1;
        }
        let n = match self.dao.insert_many(ctx.uid, sports) {
            Ok(n) => n,
            Err(e) => {
                return Err(repository_error(e));
            },
        };
        proof {
            let repo0 = old(self).repo_view();
            assert(repo_times_ok(self.repo_view())) by {
                assert forall|k: int|
                    0 <= k < self.repo_view().len() implies ts_in_civil_range(
                    (#[trigger] self.repo_view()[k]).sport.start_time,
                ) by {
                    if k < repo0.len() {
                        assert(self.repo_view()[k] == repo0[k]);
                    } else {
                        let idx = k - repo0.len();
                        assert(self.repo_view()[repo0.len() + idx].sport == with_id(
                            rv[idx],
                            self.repo_view()[repo0.len() + idx].sport.id,
                        ));
                        assert(ts_in_civil_range(rv[idx].start_time));
                    }
                }
            }
        }
        self.cache_total.invalidate(ctx.uid, 0);
        let ghost cache0 = self.cache_year@;
        let mut t2: usize = 0;
        proof {
            assert_maps_equal!(self.cache_year@, cache0.remove_keys(import_year_keys(ctx.uid as int, rv, 0)), k2 => {
                if cache0.dom().contains(k2) {
                    assert(!import_year_keys(ctx.uid as int, rv, 0).contains(k2));
                }
            });
        }
        while t2 < years.len()
            invariant
                t2 <= years@.len(),
                years@.len() == rv.len(),
                rv == recs,
                recs == crate::csv_import::xiaomi_records_spec(
                    crate::csvio::csv_rows_of(csv_data@),
                ),
                forall|j: int| 0 <= j < rv.len() ==> ts_in_civil_range((#[trigger] rv[j]).start_time),
                forall|j: int|
                    0 <= j < rv.len() ==> #[trigger] years@[j] as int == utc_year_of(
                        rv[j].start_time,
                    ),
                self.cache_year.wf(),
                self.cache_total.wf(),
                repo_times_ok(self.repo_view()),
                self.cache_year@ == cache0.remove_keys(
                    import_year_keys(ctx.uid as int, rv, t2 as int),
                ),
                self.cache_total@ == old(self).total_cache().remove((ctx.uid as int, 0)),
                appended_records(
                    old(self).repo_view(),
                    self.repo_view(),
                    ctx.uid as int,
                    rv,
                ),
            decreases years@.len() - t2,
        {
            let y = years[t2];
            let ghost before = self.cache_year@;
            self.cache_year.invalidate(ctx.uid, y);
            proof {
                let s_old = import_year_keys(ctx.uid as int, rv, t2 as int);
                let s_new = import_year_keys(ctx.uid as int, rv, t2 + 1);
                assert_maps_equal!(self.cache_year@, cache0.remove_keys(s_new), k2 => {
                    if s_new.contains(k2) {
                        let w = choose|w: int|
                            0 <= w < t2 + 1 && k2 == (
                                ctx.uid as int,
                                utc_year_of((#[trigger] rv[w]).start_time),
                            );
                        if w < t2 {
                            assert(s_old.contains(k2));
                        } else {
                            assert(k2 == (ctx.uid as int, y as int));
                        }
                    }
                    if s_old.contains(k2) {
                        let w = choose|w: int|
                            0 <= w < t2 && k2 == (
                                ctx.uid as int,
                                utc_year_of((#[trigger] rv[w]).start_time),
                            );
                        assert(s_new.contains(k2));
                    }
                    if k2 == (ctx.uid as int, y as int) {
                        assert(k2 == (ctx.uid as int, utc_year_of(rv[t2 as int].start_time)));
                        assert(s_new.contains(k2));
                    }
                });
            }
            t2 += 1;
        }
        proof {
            assert(import_year_keys(ctx.uid as int, rv, rv.len() as int) =~= import_year_keys(
                ctx.uid as int,
                records_view(sports@),
                records_view(sports@).len() as int,
            ));
        }
        Ok(n)
    }

    /// Serves one statistics request. The all-time and year scopes
    /// consult their cache first: a hit returns the stored value
    /// unchanged and performs no repository operation; a miss computes
    /// the summary over the scope's window and stores it. The month and
    /// week scopes are never cached. A missing or invalid month or week
    /// is a validation failure.
    pub fn stats(&mut self, param: StatsParam, ctx: &Context) -> (r: Result<
        StatSummary,
        ServiceError,
    >)
        requires
            old(self).wf(),
        ensures
            final(self).wf(),
            // cache hit: the stored value, bit for bit, with nothing
            // touched — in particular no repository operation
            ({
                let key = (
                    ctx.uid as int,
                    if param.kind == StatKind::Total {
                        0int
                    } else {
                        param.year as int
                    },
                );
                let cached = if param.kind == StatKind::Total {
                    old(self).total_cache()
                } else {
                    old(self).year_cache()
                };
                (param.kind == StatKind::Total || param.kind == StatKind::Year)
                    && cached.dom().contains(key) ==> {
                    &&& (r matches Ok(s) && s@ == cached[key]@)
                    &&& final(self).repo_view() == old(self).repo_view()
                    &&& final(self).op_count() == old(self).op_count()
                    &&& final(self).total_cache() == old(self).total_cache()
                    &&& final(self).year_cache() == old(self).year_cache()
                }
            }),
            // all-time miss: the summary of every record, cached
            (param.kind == StatKind::Total && !old(self).total_cache().dom().contains(
                (ctx.uid as int, 0),
            )) ==> match r {
                Ok(s) => {
                    &&& summary_core_ok(
                        s@,
                        sort_desc(records_in_window(
                            old(self).repo_view(),
                            ctx.uid as int,
                            0,
                            0x7FFF_FFFF_FFFF_FFFF,
                        )),
                        StatKind::Total,
                    )
                    &&& s@.earliest_year is None
                    &&& exists|c: StatSummary|
                        c@ == s@ && final(self).total_cache() == old(self).total_cache().insert(
                            (ctx.uid as int, 0),
                            c,
                        )
                    &&& final(self).year_cache() == old(self).year_cache()
                    &&& final(self).repo_view() == old(self).repo_view()
                },
                Err(e) => {
                    &&& e.code == 500
                    &&& final(self).repo_view() == old(self).repo_view()
                    &&& final(self).total_cache() == old(self).total_cache()
                    &&& final(self).year_cache() == old(self).year_cache()
                },
            },
            // year miss: the summary of the year's window plus the
            // owner's earliest year, cached under (owner, year)
            (param.kind == StatKind::Year && !old(self).year_cache().dom().contains(
                (ctx.uid as int, param.year as int),
            )) ==> match r {
                Ok(s) => {
                    &&& summary_core_ok(
                        s@,
                        sort_desc(records_in_window(
                            old(self).repo_view(),
                            ctx.uid as int,
                            year_window(param.year as int).0,
                            year_window(param.year as int).1,
                        )),
                        StatKind::Year,
                    )
                    &&& bucket_sums_ok(s@)
                    &&& earliest_ok(s@.earliest_year, old(self).repo_view(), ctx.uid as int)
                    &&& exists|c: StatSummary|
                        c@ == s@ && final(self).year_cache() == old(self).year_cache().insert(
                            (ctx.uid as int, param.year as int),
                            c,
                        )
                    &&& final(self).total_cache() == old(self).total_cache()
                    &&& final(self).repo_view() == old(self).repo_view()
                },
                Err(e) => {
                    &&& (e.code == 400 || e.code == 500)
                    &&& (e.code == 400 <==> year_param_invalid(param.year as int))
                    &&& (e.code == 400 ==> e.message@ == "invalid year"@)
                    &&& final(self).repo_view() == old(self).repo_view()
                    &&& final(self).total_cache() == old(self).total_cache()
                    &&& final(self).year_cache() == old(self).year_cache()
                },
            },
            (param.kind == StatKind::Year && !old(self).year_cache().dom().contains(
                (ctx.uid as int, param.year as int),
            ) && year_param_invalid(param.year as int)) ==> r is Err,
            // month scope: never cached; a missing, out-of-range or
            // unplaceable month is the validation failure, exactly
            param.kind == StatKind::Month ==> {
                &&& (month_param_invalid(param.year as int, param.month) ==> r is Err)
                &&& final(self).total_cache() == old(self).total_cache()
                &&& final(self).year_cache() == old(self).year_cache()
                &&& final(self).repo_view() == old(self).repo_view()
                &&& match r {
                    Ok(s) => param.month matches Some(m) && 1 <= m <= 12 && summary_core_ok(
                        s@,
                        sort_desc(records_in_window(
                            old(self).repo_view(),
                            ctx.uid as int,
                            month_window(param.year as int, m as int).0,
                            month_window(param.year as int, m as int).1,
                        )),
                        StatKind::Month,
                    ) && s@.earliest_year is None && bucket_sums_ok(s@),
                    Err(e) => {
                        &&& (e.code == 400 || e.code == 500)
                        &&& (e.code == 400 <==> month_param_invalid(
                            param.year as int,
                            param.month,
                        ))
                        &&& (e.code == 400 ==> e.message@ == "invalid month"@)
                    },
                }
            },
            // week scope: never cached; a missing week or an invalid ISO
            // week-date is the validation failure, exactly
            param.kind == StatKind::Week ==> {
                &&& (week_param_invalid(param.year as int, param.week) ==> r is Err)
                &&& final(self).total_cache() == old(self).total_cache()
                &&& final(self).year_cache() == old(self).year_cache()
                &&& final(self).repo_view() == old(self).repo_view()
                &&& match r {
                    Ok(s) => param.week matches Some(w) && summary_core_ok(
                        s@,
                        sort_desc(records_in_window(
                            old(self).repo_view(),
                            ctx.uid as int,
                            week_window(param.year as int, w as int).0,
                            week_window(param.year as int, w as int).1,
                        )),
                        StatKind::Week,
                    ) && s@.earliest_year is None && bucket_sums_ok(s@),
                    Err(e) => {
                        &&& (e.code == 400 || e.code == 500)
                        &&& (e.code == 400 <==> week_param_invalid(
                            param.year as int,
                            param.week,
                        ))
                        &&& (e.code == 400 ==> (param.week is None && e.message@
                            == "invalid week"@) || (param.week is Some && e.message@
                            == "invalid iso week"@))
                    },
                }
            },
    {
        let uid = ctx.uid;
        match param.kind {
            StatKind::Total => {
                let hit = match self.cache_total.lookup(uid, 0) {
                    Some(c) => Some(c.duplicate()),
                    None => None,
                };
                if let Some(s) = hit {
                    return Ok(s);
                }
                let listed = match self.dao.list_by_time_range(uid, 0, i64::MAX) {
                    Ok(v) => v,
                    Err(e) => {
                        return Err(repository_error(e));
                    },
                };
                if !check_sums_fit(&listed) {
                    return Err(ServiceError { code: 500, message: "stats overflow".to_owned() });
                }
                proof {
                    lemma_window_times(
                        old(self).repo_view(),
                        uid as int,
                        0,
                        0x7FFF_FFFF_FFFF_FFFF,
                    );
                }
                let summary = summarize(StatKind::Total, listed);
                let copy = summary.duplicate();
                self.cache_total.store(uid, 0, copy);
                Ok(summary)
            },
            StatKind::Year => {
                let hit = match self.cache_year.lookup(uid, param.year) {
                    Some(c) => Some(c.duplicate()),
                    None => None,
                };
                if let Some(s) = hit {
                    return Ok(s);
                }
                let ws = match month_start_timestamp(param.year, 1) {
                    Some(t) => t,
                    None => {
                        return Err(
                            ServiceError { code: 400, message: "invalid year".to_owned() },
                        );
                    },
                };
                let we = match month_start_timestamp(param.year + 1, 1) {
                    Some(t) => t,
                    None => {
                        return Err(
                            ServiceError { code: 400, message: "invalid year".to_owned() },
                        );
                    },
                };
                let listed = match self.dao.list_by_time_range(uid, ws, we) {
                    Ok(v) => v,
                    Err(e) => {
                        return Err(repository_error(e));
                    },
                };
                if !check_sums_fit(&listed) {
                    return Err(ServiceError { code: 500, message: "stats overflow".to_owned() });
                }
                proof {
                    lemma_window_times(old(self).repo_view(), uid as int, ws as int, we as int);
                }
                let mut summary = summarize(StatKind::Year, listed);
                match self.dao.get_first(uid) {
                    Ok(Some(first)) => {
                        proof {
                            assert(ts_in_civil_range(first@.start_time));
                        }
                        match year_of_timestamp(first.start_time) {
                            Some(y) => {
                                summary.earliest_year = Some(y);
                            },
                            None => {
                                proof {
                                    assert(false);
                                }
                            },
                        }
                    },
                    Ok(None) => {},
                    Err(_) => {},
                }
                let copy = summary.duplicate();
                self.cache_year.store(uid, param.year, copy);
                Ok(summary)
            },
            StatKind::Month => {
                let m = match param.month {
                    Some(m) => m,
                    None => {
                        return Err(
                            ServiceError { code: 400, message: "invalid month".to_owned() },
                        );
                    },
                };
                if !(1 <= m && m <= 12) {
                    return Err(ServiceError { code: 400, message: "invalid month".to_owned() });
                }
                let ws = match month_start_timestamp(param.year, m) {
                    Some(t) => t,
                    None => {
                        return Err(
                            ServiceError { code: 400, message: "invalid month".to_owned() },
                        );
                    },
                };
                let we = if m == 12 {
                    match month_start_timestamp(param.year + 1, 1) {
                        Some(t) => t,
                        None => {
                            return Err(
                                ServiceError { code: 400, message: "invalid month".to_owned() },
                            );
                        },
                    }
                } else {
                    match month_start_timestamp(param.year, m + 1) {
                        Some(t) => t,
                        None => {
                            return Err(
                                ServiceError { code: 400, message: "invalid month".to_owned() },
                            );
                        },
                    }
                };
                let listed = match self.dao.list_by_time_range(uid, ws, we) {
                    Ok(v) => v,
                    Err(e) => {
                        return Err(repository_error(e));
                    },
                };
                if !check_sums_fit(&listed) {
                    return Err(ServiceError { code: 500, message: "stats overflow".to_owned() });
                }
                proof {
                    lemma_window_times(old(self).repo_view(), uid as int, ws as int, we as int);
                }
                Ok(summarize(StatKind::Month, listed))
            },
            StatKind::Week => {
                let w = match param.week {
                    Some(w) => w,
                    None => {
                        return Err(
                            ServiceError { code: 400, message: "invalid week".to_owned() },
                        );
                    },
                };
                let ws = match iso_week_start_timestamp(param.year, w) {
                    Some(t) => t,
                    None => {
                        return Err(
                            ServiceError { code: 400, message: "invalid iso week".to_owned() },
                        );
                    },
                };
                let we = ws + 604800;
                let listed = match self.dao.list_by_time_range(uid, ws, we) {
                    Ok(v) => v,
                    Err(e) => {
                        return Err(repository_error(e));
                    },
                };
                if !check_sums_fit(&listed) {
                    return Err(ServiceError { code: 500, message: "stats overflow".to_owned() });
                }
                proof {
                    lemma_window_times(old(self).repo_view(), uid as int, ws as int, we as int);
                }
                Ok(summarize(StatKind::Week, listed))
            },
        }
    }

    /// The month buckets of a caller-chosen window.
    pub fn group_by_year(&mut self, uid: i32, start_time: i64, end_time: i64) -> (r: Result<
        Vec<StatBucket>,
        ServiceError,
    >)
        requires
            old(self).wf(),
        ensures
            final(self).wf(),
            final(self).repo_view() == old(self).repo_view(),
            final(self).total_cache() == old(self).total_cache(),
            final(self).year_cache() == old(self).year_cache(),
            match r {
                Ok(v) => crate::stats::buckets_view(v@) == buckets_spec(
                    sort_desc(
                        records_in_window(
                            old(self).repo_view(),
                            uid as int,
                            start_time as int,
                            end_time as int,
                        ),
                    ),
                    StatKind::Year,
                    1,
                    13,
                ),
                Err(e) => e.code == 500,
            },
    {
        let listed = match self.dao.list_by_time_range(uid, start_time, end_time) {
            Ok(v) => v,
            Err(e) => {
                return Err(repository_error(e));
            },
        };
        if !check_sums_fit(&listed) {
            return Err(ServiceError { code: 500, message: "stats overflow".to_owned() });
        }
        proof {
            lemma_window_times(
                old(self).repo_view(),
                uid as int,
                start_time as int,
                end_time as int,
            );
        }
        let summary = summarize(StatKind::Year, listed);
        Ok(summary.buckets)
    }

    /// Deletes a record and invalidates the owner's all-time entry and
    /// the entry of the deleted record's year.
    pub fn delete(&mut self, id: i32, ctx: &Context) -> (r: Result<(), ServiceError>)
        requires
            old(self).wf(),
        ensures
            final(self).wf(),
            match r {
                Ok(_) => {
                    &&& exists|j1: int, j2: int|
                        {
                            &&& 0 <= j1 < old(self).repo_view().len()
                            &&& 0 <= j2 < old(self).repo_view().len()
                            &&& (#[trigger] old(self).repo_view()[j1]).uid == ctx.uid as int
                            &&& old(self).repo_view()[j1].sport.id == id as int
                            &&& (#[trigger] old(self).repo_view()[j2]).uid == ctx.uid as int
                            &&& old(self).repo_view()[j2].sport.id == id as int
                            &&& final(self).repo_view() == old(self).repo_view().remove(j2)
                            &&& final(self).year_cache() == old(self).year_cache().remove(
                                (
                                    ctx.uid as int,
                                    utc_year_of(old(self).repo_view()[j1].sport.start_time),
                                ),
                            )
                        }
                    &&& final(self).total_cache() == old(self).total_cache().remove(
                        (ctx.uid as int, 0),
                    )
                },
                Err(e) => {
                    &&& e.code == 500
                    &&& final(self).repo_view() == old(self).repo_view()
                    &&& final(self).total_cache() == old(self).total_cache()
                    &&& final(self).year_cache() == old(self).year_cache()
                },
            },
    {
        let old_rec = match self.dao.get_by_id(ctx.uid, id) {
            Ok(o) => o,
            Err(e) => {
                return Err(repository_error(e));
            },
        };
        match self.dao.remove(ctx.uid, id) {
            Ok(_) => {},
            Err(e) => {
                return Err(repository_error(e));
            },
        }
        proof {
            let repo = old(self).repo_view();
            let j = choose|j: int|
                {
                    &&& 0 <= j < repo.len()
                    &&& (#[trigger] repo[j]).uid == ctx.uid as int
                    &&& repo[j].sport.id == id as int
                    &&& self.repo_view() == repo.remove(j)
                };
            assert(repo_times_ok(self.repo_view())) by {
                assert forall|i: int|
                    0 <= i < self.repo_view().len() implies ts_in_civil_range(
                    (#[trigger] self.repo_view()[i]).sport.start_time,
                ) by {
                    if i < j {
                        assert(self.repo_view()[i] == repo[i]);
                    } else {
                        assert(self.repo_view()[i] == repo[i + 1]);
                    }
                }
            }
        }
        self.cache_total.invalidate(ctx.uid, 0);
        let old_rec = match old_rec {
            Some(o) => o,
            None => {
                // removal succeeded, so the row existed; the lookup that
                // came back empty cannot happen with a positive id
                proof {
                    assert(false);
                }
                return Ok(());
            },
        };
        proof {
            assert(ts_in_civil_range(old_rec@.start_time));
        }
        let oy = match year_of_timestamp(old_rec.start_time) {
            Some(y) => y,
            None => {
                proof {
                    assert(false);
                }
                0
            },
        };
        self.cache_year.invalidate(ctx.uid, oy);
        Ok(())
    }
}

} // verus!
