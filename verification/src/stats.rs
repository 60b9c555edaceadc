//! The statistics aggregation engine.
//!
//! Given the records of a time window it computes grand totals, per-kind
//! totals, and time buckets: by calendar month for a year scope, by day
//! of month for a month scope, by ISO weekday for a week scope, and no
//! time buckets for the all-time scope. Buckets are ascending by key and
//! only present keys appear.
use vstd::prelude::*;

use crate::calendar::{ts_in_civil_range, utc_mday_of, utc_month_of, utc_weekday_of};
use crate::kind::SportType;
use crate::model::{records_view, Sport, SportV};

verus! {

/// The four statistics scopes.
#[derive(Debug, Clone, Copy, PartialEq, Eq, Structural)]
pub enum StatKind {
    Year,
    Month,
    Week,
    Total,
}

/// A statistics request: the scope kind, its year, and the month or ISO
/// week where the scope needs one.
#[derive(Debug, Clone, Copy)]
pub struct StatsParam {
    pub kind: StatKind,
    pub year: i32,
    pub month: Option<u32>,
    pub week: Option<u32>,
}

/// Mathematical view of `StatBucket`.
pub ghost struct BucketV {
    pub date: int,
    pub duration: int,
    pub calories: int,
    pub count: int,
}

/// One time bucket: `date` is the month, day-of-month or weekday index.
#[derive(Debug, Clone, Copy)]
pub struct StatBucket {
    pub date: i32,
    pub duration: i32,
    pub calories: i32,
    pub count: i32,
}

impl View for StatBucket {
    type V = BucketV;

    open spec fn view(&self) -> BucketV {
        BucketV {
            date: self.date as int,
            duration: self.duration as int,
            calories: self.calories as int,
            count: self.count as int,
        }
    }
}

/// Mathematical view of `TypeBucket`.
pub ghost struct TypeBucketV {
    pub kind: SportType,
    pub duration: int,
    pub calories: int,
    pub count: int,
    pub distance_meter: int,
}

/// One per-kind bucket.
#[derive(Debug, Clone, Copy)]
pub struct TypeBucket {
    pub kind: SportType,
    pub duration: i32,
    pub calories: i32,
    pub count: i32,
    pub distance_meter: i32,
}

impl View for TypeBucket {
    type V = TypeBucketV;

    open spec fn view(&self) -> TypeBucketV {
        TypeBucketV {
            kind: self.kind,
            duration: self.duration as int,
            calories: self.calories as int,
            count: self.count as int,
            distance_meter: self.distance_meter as int,
        }
    }
}

/// Mathematical view of `StatSummary`.
pub ghost struct SummaryV {
    pub buckets: Seq<BucketV>,
    pub type_buckets: Seq<TypeBucketV>,
    pub total_count: int,
    pub total_calories: int,
    pub total_duration_second: int,
    pub total_distance_meter: int,
    pub sports: Seq<SportV>,
    pub earliest_year: Option<int>,
}

/// The aggregate result of one statistics request.
#[derive(Debug, Clone)]
pub struct StatSummary {
    pub buckets: Vec<StatBucket>,
    pub type_buckets: Vec<TypeBucket>,
    pub total_count: i32,
    pub total_calories: i32,
    pub total_duration_second: i32,
    pub total_distance_meter: i32,
    pub sports: Vec<Sport>,
    pub earliest_year: Option<i32>,
}

/// The view of a bucket list.
pub open spec fn buckets_view(bs: Seq<StatBucket>) -> Seq<BucketV> {
    Seq::new(bs.len(), |i: int| bs[i]@)
}

/// The view of a kind-bucket list.
pub open spec fn type_buckets_view(bs: Seq<TypeBucket>) -> Seq<TypeBucketV> {
    Seq::new(bs.len(), |i: int| bs[i]@)
}

impl View for StatSummary {
    type V = SummaryV;

    open spec fn view(&self) -> SummaryV {
        SummaryV {
            buckets: buckets_view(self.buckets@),
            type_buckets: type_buckets_view(self.type_buckets@),
            total_count: self.total_count as int,
            total_calories: self.total_calories as int,
            total_duration_second: self.total_duration_second as int,
            total_distance_meter: self.total_distance_meter as int,
            sports: records_view(self.sports@),
            earliest_year: (match self.earliest_year {
                Some(y) => Some(y as int),
                None => None,
            }),
        }
    }
}

/// The bucket key of a record's start time under a scope: the UTC month
/// for a year scope, the day of month for a month scope, the ISO weekday
/// for a week scope; the all-time scope has a single nominal key.
pub open spec fn bucket_key(kind: StatKind, ts: int) -> int {
    match kind {
        StatKind::Year => utc_month_of(ts),
        StatKind::Month => utc_mday_of(ts),
        StatKind::Week => utc_weekday_of(ts),
        StatKind::Total => 0,
    }
}

/// The records with bucket key `k`.
pub open spec fn key_pred(kind: StatKind, k: int) -> spec_fn(SportV) -> bool {
    |r: SportV| bucket_key(kind, r.start_time) == k
}

/// The records of sport kind `sk`.
pub open spec fn kind_pred(sk: SportType) -> spec_fn(SportV) -> bool {
    |r: SportV| r.kind == sk
}

/// All records.
pub open spec fn all_pred() -> spec_fn(SportV) -> bool {
    |r: SportV| true
}

pub open spec fn cal_of() -> spec_fn(SportV) -> int {
    |r: SportV| r.calories
}

pub open spec fn dur_of() -> spec_fn(SportV) -> int {
    |r: SportV| r.duration_second
}

pub open spec fn dist_of() -> spec_fn(SportV) -> int {
    |r: SportV| r.distance_meter
}

/// How many records satisfy `p`.
pub open spec fn count_if(rs: Seq<SportV>, p: spec_fn(SportV) -> bool) -> int
    decreases rs.len(),
{
    if rs.len() == 0 {
        0
    } else {
        count_if(rs.drop_last(), p) + (if p(rs.last()) {
            1int
        } else {
            0int
        })
    }
}

/// The sum of `f` over the records satisfying `p`.
pub open spec fn sum_if(rs: Seq<SportV>, p: spec_fn(SportV) -> bool, f: spec_fn(SportV) -> int) -> int
    decreases rs.len(),
{
    if rs.len() == 0 {
        0
    } else {
        sum_if(rs.drop_last(), p, f) + (if p(rs.last()) {
            f(rs.last())
        } else {
            0int
        })
    }
}

/// The sum of `|f|` over all records.
pub open spec fn abs_sum(rs: Seq<SportV>, f: spec_fn(SportV) -> int) -> int
    decreases rs.len(),
{
    if rs.len() == 0 {
        0
    } else {
        abs_sum(rs.drop_last(), f) + (if f(rs.last()) < 0 {
            -f(rs.last())
        } else {
            f(rs.last())
        })
    }
}

/// The bucket of one key.
pub open spec fn bucket_of(rs: Seq<SportV>, kind: StatKind, k: int) -> BucketV {
    BucketV {
        date: k,
        duration: sum_if(rs, key_pred(kind, k), dur_of()),
        calories: sum_if(rs, key_pred(kind, k), cal_of()),
        count: count_if(rs, key_pred(kind, k)),
    }
}

/// The ascending bucket list for the keys `lo..hi`, keeping only keys
/// that some record hits.
pub open spec fn buckets_spec(rs: Seq<SportV>, kind: StatKind, lo: int, hi: int) -> Seq<BucketV>
    decreases hi - lo,
{
    if lo >= hi {
        Seq::empty()
    } else {
        let rest = buckets_spec(rs, kind, lo + 1, hi);
        if count_if(rs, key_pred(kind, lo)) > 0 {
            seq![bucket_of(rs, kind, lo)] + rest
        } else {
            rest
        }
    }
}

/// The key range of a scope's buckets: months 1..=12, days 1..=31,
/// weekdays 1..=7; the all-time scope has no buckets.
pub open spec fn key_range(kind: StatKind) -> (int, int) {
    match kind {
        StatKind::Year => (1, 13),
        StatKind::Month => (1, 32),
        StatKind::Week => (1, 8),
        StatKind::Total => (0, 0),
    }
}

/// The bucket of one sport kind.
pub open spec fn type_bucket_of(rs: Seq<SportV>, sk: SportType) -> TypeBucketV {
    TypeBucketV {
        kind: sk,
        duration: sum_if(rs, kind_pred(sk), dur_of()),
        calories: sum_if(rs, kind_pred(sk), cal_of()),
        count: count_if(rs, kind_pred(sk)),
        distance_meter: sum_if(rs, kind_pred(sk), dist_of()),
    }
}

/// The kind-bucket list: the kinds present in the window, ascending by
/// their canonical names (Cycling, Running, Swimming, Unknown).
pub open spec fn type_buckets_spec(rs: Seq<SportV>) -> Seq<TypeBucketV> {
    kind_order().filter(|sk: SportType| count_if(rs, kind_pred(sk)) > 0).map_values(
        |sk: SportType| type_bucket_of(rs, sk),
    )
}

/// The four kinds, ascending by canonical name.
pub open spec fn kind_order() -> Seq<SportType> {
    seq![SportType::Cycling, SportType::Running, SportType::Swimming, SportType::Unknown]
}

/// The sums over a bucket list.
pub open spec fn buckets_count_sum(bs: Seq<BucketV>) -> int
    decreases bs.len(),
{
    if bs.len() == 0 {
        0
    } else {
        buckets_count_sum(bs.drop_last()) + bs.last().count
    }
}

pub open spec fn buckets_cal_sum(bs: Seq<BucketV>) -> int
    decreases bs.len(),
{
    if bs.len() == 0 {
        0
    } else {
        buckets_cal_sum(bs.drop_last()) + bs.last().calories
    }
}

pub open spec fn buckets_dur_sum(bs: Seq<BucketV>) -> int
    decreases bs.len(),
{
    if bs.len() == 0 {
        0
    } else {
        buckets_dur_sum(bs.drop_last()) + bs.last().duration
    }
}

/// Sums indexed by a key interval.
pub open spec fn range_count(rs: Seq<SportV>, kind: StatKind, lo: int, hi: int) -> int
    decreases hi - lo,
{
    if lo >= hi {
        0
    } else {
        count_if(rs, key_pred(kind, lo)) + range_count(rs, kind, lo + 1, hi)
    }
}

pub open spec fn range_sum(
    rs: Seq<SportV>,
    kind: StatKind,
    f: spec_fn(SportV) -> int,
    lo: int,
    hi: int,
) -> int
    decreases hi - lo,
{
    if lo >= hi {
        0
    } else {
        sum_if(rs, key_pred(kind, lo), f) + range_sum(rs, kind, f, lo + 1, hi)
    }
}

proof fn lemma_range_count_step(rs: Seq<SportV>, kind: StatKind, lo: int, hi: int)
    requires
        rs.len() > 0,
    ensures
        range_count(rs, kind, lo, hi) == range_count(rs.drop_last(), kind, lo, hi) + (if lo
            <= bucket_key(kind, rs.last().start_time) < hi {
            1int
        } else {
            0int
        }),
        range_sum(rs, kind, cal_of(), lo, hi) == range_sum(rs.drop_last(), kind, cal_of(), lo, hi)
            + (if lo <= bucket_key(kind, rs.last().start_time) < hi {
            cal_of()(rs.last())
        } else {
            0int
        }),
        range_sum(rs, kind, dur_of(), lo, hi) == range_sum(rs.drop_last(), kind, dur_of(), lo, hi)
            + (if lo <= bucket_key(kind, rs.last().start_time) < hi {
            dur_of()(rs.last())
        } else {
            0int
        }),
    decreases hi - lo,
{
    if lo < hi {
        lemma_range_count_step(rs, kind, lo + 1, hi);
    }
}

/// Every record's key inside `lo..hi` partitions the records: summing
/// bucket contributions over the whole key range gives the grand totals.
proof fn lemma_partition(rs: Seq<SportV>, kind: StatKind, lo: int, hi: int)
    requires
        forall|i: int|
            0 <= i < rs.len() ==> lo <= bucket_key(kind, #[trigger] rs[i].start_time) < hi,
    ensures
        range_count(rs, kind, lo, hi) == rs.len(),
        range_sum(rs, kind, cal_of(), lo, hi) == sum_if(rs, all_pred(), cal_of()),
        range_sum(rs, kind, dur_of(), lo, hi) == sum_if(rs, all_pred(), dur_of()),
    decreases rs.len(),
{
    if rs.len() == 0 {
        lemma_range_empty(rs, kind, lo, hi);
    } else {
        let head = rs.drop_last();
        assert(forall|i: int|
            0 <= i < head.len() ==> lo <= bucket_key(kind, #[trigger] head[i].start_time) < hi)
            by {
            assert forall|i: int| 0 <= i < head.len() implies lo <= bucket_key(
                kind,
                #[trigger] head[i].start_time,
            ) < hi by {
                assert(head[i] == rs[i]);
            }
        }
        lemma_partition(head, kind, lo, hi);
        lemma_range_count_step(rs, kind, lo, hi);
        assert(lo <= bucket_key(kind, rs[rs.len() - 1].start_time) < hi);
    }
}

proof fn lemma_range_empty(rs: Seq<SportV>, kind: StatKind, lo: int, hi: int)
    requires
        rs.len() == 0,
    ensures
        range_count(rs, kind, lo, hi) == 0,
        range_sum(rs, kind, cal_of(), lo, hi) == 0,
        range_sum(rs, kind, dur_of(), lo, hi) == 0,
    decreases hi - lo,
{
    if lo < hi {
        lemma_range_empty(rs, kind, lo + 1, hi);
    }
}

/// A key no record hits contributes nothing.
proof fn lemma_zero_key(rs: Seq<SportV>, p: spec_fn(SportV) -> bool, f: spec_fn(SportV) -> int)
    requires
        count_if(rs, p) == 0,
    ensures
        sum_if(rs, p, f) == 0,
    decreases rs.len(),
{
    if rs.len() > 0 {
        assert(count_if(rs.drop_last(), p) >= 0) by {
            lemma_count_nonneg(rs.drop_last(), p);
        }
        lemma_zero_key(rs.drop_last(), p, f);
    }
}

proof fn lemma_count_nonneg(rs: Seq<SportV>, p: spec_fn(SportV) -> bool)
    ensures
        count_if(rs, p) >= 0,
    decreases rs.len(),
{
    if rs.len() > 0 {
        lemma_count_nonneg(rs.drop_last(), p);
    }
}

/// The sums over the (sparse) bucket list equal the sums over the full
/// key range: omitted keys are exactly those contributing nothing.
proof fn lemma_bucket_sums(rs: Seq<SportV>, kind: StatKind, lo: int, hi: int)
    ensures
        buckets_count_sum(buckets_spec(rs, kind, lo, hi)) == range_count(rs, kind, lo, hi),
        buckets_cal_sum(buckets_spec(rs, kind, lo, hi)) == range_sum(rs, kind, cal_of(), lo, hi),
        buckets_dur_sum(buckets_spec(rs, kind, lo, hi)) == range_sum(rs, kind, dur_of(), lo, hi),
    decreases hi - lo,
{
    if lo < hi {
        lemma_bucket_sums(rs, kind, lo + 1, hi);
        let rest = buckets_spec(rs, kind, lo + 1, hi);
        if count_if(rs, key_pred(kind, lo)) > 0 {
            let whole = seq![bucket_of(rs, kind, lo)] + rest;
            lemma_sums_prepend(bucket_of(rs, kind, lo), rest);
        } else {
            lemma_count_nonneg(rs, key_pred(kind, lo));
            lemma_zero_key(rs, key_pred(kind, lo), cal_of());
            lemma_zero_key(rs, key_pred(kind, lo), dur_of());
        }
    }
}

/// Prepending one bucket adds its fields to the sums.
proof fn lemma_sums_prepend(b: BucketV, bs: Seq<BucketV>)
    ensures
        buckets_count_sum(seq![b] + bs) == b.count + buckets_count_sum(bs),
        buckets_cal_sum(seq![b] + bs) == b.calories + buckets_cal_sum(bs),
        buckets_dur_sum(seq![b] + bs) == b.duration + buckets_dur_sum(bs),
    decreases bs.len(),
{
    let whole = seq![b] + bs;
    assert(whole.len() == 1 + bs.len());
    assert(buckets_count_sum(whole) == buckets_count_sum(whole.drop_last()) + whole.last().count);
    assert(buckets_cal_sum(whole) == buckets_cal_sum(whole.drop_last()) + whole.last().calories);
    assert(buckets_dur_sum(whole) == buckets_dur_sum(whole.drop_last()) + whole.last().duration);
    if bs.len() == 0 {
        assert(whole.drop_last() =~= Seq::<BucketV>::empty());
        assert(whole.last() == b);
        assert(buckets_count_sum(Seq::<BucketV>::empty()) == 0);
        assert(buckets_count_sum(bs) == 0);
        assert(buckets_cal_sum(bs) == 0);
        assert(buckets_dur_sum(bs) == 0);
    } else {
        lemma_sums_prepend(b, bs.drop_last());
        assert(whole.drop_last() =~= seq![b] + bs.drop_last());
        assert(whole.last() == bs.last());
        assert(buckets_count_sum(bs) == buckets_count_sum(bs.drop_last()) + bs.last().count);
        assert(buckets_cal_sum(bs) == buckets_cal_sum(bs.drop_last()) + bs.last().calories);
        assert(buckets_dur_sum(bs) == buckets_dur_sum(bs.drop_last()) + bs.last().duration);
    }
}

/// `sum_if` never exceeds the absolute sum, on any predicate.
proof fn lemma_sum_bound(rs: Seq<SportV>, p: spec_fn(SportV) -> bool, f: spec_fn(SportV) -> int)
    ensures
        -abs_sum(rs, f) <= sum_if(rs, p, f) <= abs_sum(rs, f),
        abs_sum(rs, f) >= 0,
    decreases rs.len(),
{
    if rs.len() > 0 {
        lemma_sum_bound(rs.drop_last(), p, f);
    }
}

/// Absolute sums grow along prefixes.
proof fn lemma_abs_prefix(rs: Seq<SportV>, f: spec_fn(SportV) -> int, j: int)
    requires
        0 <= j <= rs.len(),
    ensures
        abs_sum(rs.take(j), f) <= abs_sum(rs, f),
    decreases rs.len() - j,
{
    if j < rs.len() {
        lemma_abs_prefix(rs, f, j + 1);
        assert(rs.take(j + 1).drop_last() =~= rs.take(j));
        assert(rs.take(j + 1).last() == rs[j]);
        assert(abs_sum(rs.take(j), f) <= abs_sum(rs.take(j + 1), f));
    } else {
        assert(rs.take(j) =~= rs);
    }
}

/// The absolute-sum bounds under which aggregation cannot overflow.
pub open spec fn sums_fit(rs: Seq<SportV>) -> bool {
    &&& rs.len() <= 0x7FFF_FFFF
    &&& abs_sum(rs, cal_of()) <= 0x7FFF_FFFF
    &&& abs_sum(rs, dur_of()) <= 0x7FFF_FFFF
    &&& abs_sum(rs, dist_of()) <= 0x7FFF_FFFF
}

/// Every record's start time lies in the range on which the calendar
/// lookups are total.
pub open spec fn times_in_range(rs: Seq<SportV>) -> bool {
    forall|i: int| 0 <= i < rs.len() ==> ts_in_civil_range(#[trigger] rs[i].start_time)
}

proof fn lemma_count_le_len(rs: Seq<SportV>, p: spec_fn(SportV) -> bool)
    ensures
        0 <= count_if(rs, p) <= rs.len(),
    decreases rs.len(),
{
    if rs.len() > 0 {
        lemma_count_le_len(rs.drop_last(), p);
    }
}

/// Absolute sums of `i32`-bounded fields grow at most `2^31` per record.
proof fn lemma_abs_growth(rs: Seq<SportV>, f: spec_fn(SportV) -> int)
    requires
        forall|i: int| 0 <= i < rs.len() ==> -0x8000_0000 <= #[trigger] f(rs[i]) <= 0x7FFF_FFFF,
    ensures
        0 <= abs_sum(rs, f) <= rs.len() * 0x8000_0000,
    decreases rs.len(),
{
    if rs.len() > 0 {
        let head = rs.drop_last();
        assert(forall|i: int|
            0 <= i < head.len() ==> -0x8000_0000 <= #[trigger] f(head[i]) <= 0x7FFF_FFFF) by {
            assert forall|i: int|
                0 <= i < head.len() implies -0x8000_0000 <= #[trigger] f(head[i])
                <= 0x7FFF_FFFF by {
                assert(head[i] == rs[i]);
            }
        }
        lemma_abs_growth(head, f);
        assert(-0x8000_0000 <= f(rs[rs.len() - 1]) <= 0x7FFF_FFFF);
        assert((rs.len() - 1) * 0x8000_0000 + 0x8000_0000 == rs.len() * 0x8000_0000) by (nonlinear_arith);
    }
}

/// Checks the absolute-sum bounds under which aggregation is exact.
pub fn check_sums_fit(records: &Vec<Sport>) -> (r: bool)
    ensures
        r == sums_fit(records_view(records@)),
{
    let ghost rv = records_view(records@);
    if records.len() > 0x7FFF_FFFF {
        return false;
    }
    proof {
        assert forall|i: int|
            0 <= i < rv.len() implies -0x8000_0000 <= #[trigger] cal_of()(rv[i])
            <= 0x7FFF_FFFF by {
            assert(rv[i] == records@[i]@);
        }
        assert forall|i: int|
            0 <= i < rv.len() implies -0x8000_0000 <= #[trigger] dur_of()(rv[i])
            <= 0x7FFF_FFFF by {
            assert(rv[i] == records@[i]@);
        }
        assert forall|i: int|
            0 <= i < rv.len() implies -0x8000_0000 <= #[trigger] dist_of()(rv[i])
            <= 0x7FFF_FFFF by {
            assert(rv[i] == records@[i]@);
        }
    }
    let n = records.len();
    let mut cal: u64 = 0;
    let mut dur: u64 = 0;
    let mut dist: u64 = 0;
    let mut j: usize = 0;
    while j < n
        invariant
            j <= n,
            n == records@.len(),
            n <= 0x7FFF_FFFF,
            rv == records_view(records@),
            forall|i: int|
                0 <= i < rv.len() ==> -0x8000_0000 <= #[trigger] cal_of()(rv[i]) <= 0x7FFF_FFFF,
            forall|i: int|
                0 <= i < rv.len() ==> -0x8000_0000 <= #[trigger] dur_of()(rv[i]) <= 0x7FFF_FFFF,
            forall|i: int|
                0 <= i < rv.len() ==> -0x8000_0000 <= #[trigger] dist_of()(rv[i]) <= 0x7FFF_FFFF,
            cal as int == abs_sum(rv.take(j as int), cal_of()),
            dur as int == abs_sum(rv.take(j as int), dur_of()),
            dist as int == abs_sum(rv.take(j as int), dist_of()),
        decreases n - j,
    {
        proof {
            lemma_take_growth(rv, j as int);
            lemma_abs_growth(rv.take(j as int), cal_of());
            lemma_abs_growth(rv.take(j as int), dur_of());
            lemma_abs_growth(rv.take(j as int), dist_of());
            assert((j as int) * 0x8000_0000 <= 0x7FFF_FFFF * 0x8000_0000) by (nonlinear_arith)
                requires 0 <= j as int <= 0x7FFF_FFFF;
            assert(rv.take(j + 1).drop_last() =~= rv.take(j as int));
            assert(rv.take(j + 1).last() == rv[j as int]);
            assert(rv[j as int] == records@[j as int]@);
        }
        let c = records[j].calories;
        let d = records[j].duration_second;
        let m = records[j].distance_meter;
        cal = cal + abs_i32(c);
        dur = dur + abs_i32(d);
        dist = dist + abs_i32(m);
        j += 1;
    }
    proof {
        assert(rv.take(j as int) =~= rv);
    }
    cal <= 0x7FFF_FFFF && dur <= 0x7FFF_FFFF && dist <= 0x7FFF_FFFF
}

proof fn lemma_take_growth(rs: Seq<SportV>, j: int)
    requires
        0 <= j < rs.len(),
    ensures
        forall|i: int| 0 <= i < j ==> rs.take(j)[i] == rs[i],
{
}

fn abs_i32(x: i32) -> (r: u64)
    ensures
        r as int == (if (x as int) < 0 {
            -(x as int)
        } else {
            x as int
        }),
{
    if x < 0 {
        (-(x as i64)) as u64
    } else {
        x as u64
    }
}

/// The bucket key of one record, by the scope kind.
fn key_of(kind: StatKind, ts: i64) -> (k: u32)
    requires
        ts_in_civil_range(ts as int),
    ensures
        k as int == bucket_key(kind, ts as int),
        kind != StatKind::Total ==> key_range(kind).0 <= k as int && (k as int) < key_range(
            kind,
        ).1,
        kind == StatKind::Total ==> k == 0,
{
    match kind {
        StatKind::Year => match crate::calendar::month_of_timestamp(ts) {
            Some(m) => m,
            None => {
                proof {
                    assert(false);
                }
                0
            },
        },
        StatKind::Month => match crate::calendar::mday_of_timestamp(ts) {
            Some(d) => d,
            None => {
                proof {
                    assert(false);
                }
                0
            },
        },
        StatKind::Week => match crate::calendar::weekday_of_timestamp(ts) {
            Some(w) => w,
            None => {
                proof {
                    assert(false);
                }
                0
            },
        },
        StatKind::Total => 0,
    }
}

/// Computes the ascending time-bucket list of a scope.
fn compute_buckets(kind: StatKind, records: &Vec<Sport>) -> (out: Vec<StatBucket>)
    requires
        sums_fit(records_view(records@)),
        times_in_range(records_view(records@)),
    ensures
        ({
            let rv = records_view(records@);
            let (lo, hi) = key_range(kind);
            buckets_view(out@) == buckets_spec(rv, kind, lo, hi) && (kind != StatKind::Total
                ==> forall|i: int|
                    0 <= i < rv.len() ==> lo <= bucket_key(kind, #[trigger] rv[i].start_time) < hi)
        }),
{
    let ghost rv = records_view(records@);
    let (lo, hi): (u32, u32) = match kind {
        StatKind::Year => (1, 13),
        StatKind::Month => (1, 32),
        StatKind::Week => (1, 8),
        StatKind::Total => (0, 0),
    };
    let n = records.len();
    // the bucket key of each record, computed once
    let mut keys: Vec<u32> = Vec::new();
    let mut i: usize = 0;
    while i < n
        invariant
            i <= n,
            n == records@.len(),
            rv == records_view(records@),
            times_in_range(rv),
            lo as int == key_range(kind).0 || kind == StatKind::Total,
            hi as int == key_range(kind).1 || kind == StatKind::Total,
            kind == StatKind::Total ==> lo == 0 && hi == 0,
            keys@.len() == i,
            forall|j: int|
                0 <= j < i ==> #[trigger] keys@[j] as int == bucket_key(kind, rv[j].start_time),
            kind != StatKind::Total ==> forall|j: int|
                0 <= j < i ==> lo <= #[trigger] keys@[j] < hi,
        decreases n - i,
    {
        proof {
            assert(rv[i as int] == records@[i as int]@);
            assert(ts_in_civil_range(rv[i as int].start_time));
        }
        let k = key_of(kind, records[i].start_time);
        keys.push(k);
        i += 1;
    }
    let mut out: Vec<StatBucket> = Vec::new();
    if lo >= hi {
        proof {
            assert(buckets_view(out@) =~= Seq::<BucketV>::empty());
        }
        return out;
    }
    let mut k: u32 = lo;
    proof {
        assert(buckets_view(out@) =~= Seq::<BucketV>::empty());
        assert(buckets_spec(rv, kind, lo as int, hi as int) =~= buckets_view(out@)
            + buckets_spec(rv, kind, lo as int, hi as int));
    }
    while k < hi
        invariant
            lo <= k <= hi,
            hi <= 32,
            n == records@.len(),
            rv == records_view(records@),
            sums_fit(rv),
            keys@.len() == n,
            forall|j: int|
                0 <= j < n ==> #[trigger] keys@[j] as int == bucket_key(kind, rv[j].start_time),
            kind != StatKind::Total ==> lo as int == key_range(kind).0 && hi as int == key_range(
                kind,
            ).1,
            kind != StatKind::Total ==> forall|j: int|
                0 <= j < n ==> lo <= #[trigger] keys@[j] < hi,
            buckets_spec(rv, kind, lo as int, hi as int) == buckets_view(out@) + buckets_spec(
                rv,
                kind,
                k as int,
                hi as int,
            ),
        decreases hi - k,
    {
        let mut cnt: i64 = 0;
        let mut cal: i64 = 0;
        let mut dur: i64 = 0;
        let mut j: usize = 0;
        while j < n
            invariant
                j <= n,
                n == records@.len(),
                rv == records_view(records@),
                sums_fit(rv),
                keys@.len() == n,
                forall|jj: int|
                    0 <= jj < n ==> #[trigger] keys@[jj] as int == bucket_key(
                        kind,
                        rv[jj].start_time,
                    ),
                cnt as int == count_if(rv.take(j as int), key_pred(kind, k as int)),
                cal as int == sum_if(rv.take(j as int), key_pred(kind, k as int), cal_of()),
                dur as int == sum_if(rv.take(j as int), key_pred(kind, k as int), dur_of()),
                0 <= cnt <= j,
                -0x7FFF_FFFF <= cal <= 0x7FFF_FFFF,
                -0x7FFF_FFFF <= dur <= 0x7FFF_FFFF,
            decreases n - j,
        {
            proof {
                assert(rv.take(j + 1).drop_last() =~= rv.take(j as int));
                assert(rv.take(j + 1).last() == rv[j as int]);
                assert(rv[j as int] == records@[j as int]@);
                lemma_count_le_len(rv.take(j + 1), key_pred(kind, k as int));
                lemma_sum_bound(rv.take(j + 1), key_pred(kind, k as int), cal_of());
                lemma_sum_bound(rv.take(j + 1), key_pred(kind, k as int), dur_of());
                lemma_abs_prefix(rv, cal_of(), j + 1);
                lemma_abs_prefix(rv, dur_of(), j + 1);
            }
            if keys[j] == k {
                proof {
                    assert(key_pred(kind, k as int)(rv[j as int]));
                }
                cnt = cnt + 1;
                cal = cal + records[j].calories as i64;
                dur = dur + records[j].duration_second as i64;
            } else {
                proof {
                    assert(!key_pred(kind, k as int)(rv[j as int]));
                }
            }
            j += 1;
        }
        proof {
            assert(rv.take(n as int) =~= rv);
        }
        let ghost before = out@;
        if cnt > 0 {
            let b = StatBucket {
                date: k as i32,
                duration: dur as i32,
                calories: cal as i32,
                count: cnt as i32,
            };
            proof {
                assert(b@ == bucket_of(rv, kind, k as int));
            }
            out.push(b);
            proof {
                assert(buckets_view(out@) =~= buckets_view(before) + seq![
                    bucket_of(rv, kind, k as int),
                ]);
                assert(buckets_spec(rv, kind, k as int, hi as int) == seq![
                    bucket_of(rv, kind, k as int),
                ] + buckets_spec(rv, kind, k + 1, hi as int));
                assert(buckets_view(out@) + buckets_spec(rv, kind, k + 1, hi as int)
                    =~= buckets_view(before) + buckets_spec(rv, kind, k as int, hi as int));
            }
        } else {
            proof {
                lemma_count_nonneg(rv, key_pred(kind, k as int));
                assert(buckets_spec(rv, kind, k as int, hi as int) == buckets_spec(
                    rv,
                    kind,
                    k + 1,
                    hi as int,
                ));
            }
        }
        k += 1;
    }
    proof {
        assert(buckets_spec(rv, kind, k as int, hi as int) =~= Seq::<BucketV>::empty());
        assert(buckets_view(out@) + Seq::<BucketV>::empty() =~= buckets_view(out@));
        assert(buckets_view(out@) == buckets_spec(rv, kind, lo as int, hi as int));
        if kind != StatKind::Total {
            assert forall|i2: int| 0 <= i2 < rv.len() implies key_range(kind).0 <= bucket_key(
                kind,
                #[trigger] rv[i2].start_time,
            ) < key_range(kind).1 by {
                assert(keys@[i2] as int == bucket_key(kind, rv[i2].start_time));
                assert(lo <= keys@[i2] < hi);
            }
        }
    }
    out
}

/// The kind-bucket list from index `i` of the fixed kind order onward.
pub open spec fn tb_from(rs: Seq<SportV>, ks: Seq<SportType>, i: int) -> Seq<TypeBucketV>
    decreases ks.len() - i,
{
    if i < 0 || i >= ks.len() {
        Seq::empty()
    } else {
        let rest = tb_from(rs, ks, i + 1);
        if count_if(rs, kind_pred(ks[i])) > 0 {
            seq![type_bucket_of(rs, ks[i])] + rest
        } else {
            rest
        }
    }
}

/// Sums one kind's bucket, `None` when no record has that kind.
fn one_kind_bucket(records: &Vec<Sport>, sk: SportType) -> (r: Option<TypeBucket>)
    requires
        sums_fit(records_view(records@)),
    ensures
        ({
            let rv = records_view(records@);
            match r {
                Some(b) => count_if(rv, kind_pred(sk)) > 0 && b@ == type_bucket_of(rv, sk),
                None => count_if(rv, kind_pred(sk)) == 0,
            }
        }),
{
    let ghost rv = records_view(records@);
    let n = records.len();
    let mut cnt: i64 = 0;
    let mut cal: i64 = 0;
    let mut dur: i64 = 0;
    let mut dist: i64 = 0;
    let mut j: usize = 0;
    while j < n
        invariant
            j <= n,
            n == records@.len(),
            rv == records_view(records@),
            sums_fit(rv),
            cnt as int == count_if(rv.take(j as int), kind_pred(sk)),
            cal as int == sum_if(rv.take(j as int), kind_pred(sk), cal_of()),
            dur as int == sum_if(rv.take(j as int), kind_pred(sk), dur_of()),
            dist as int == sum_if(rv.take(j as int), kind_pred(sk), dist_of()),
            0 <= cnt <= j,
            -0x7FFF_FFFF <= cal <= 0x7FFF_FFFF,
            -0x7FFF_FFFF <= dur <= 0x7FFF_FFFF,
            -0x7FFF_FFFF <= dist <= 0x7FFF_FFFF,
        decreases n - j,
    {
        proof {
            assert(rv.take(j + 1).drop_last() =~= rv.take(j as int));
            assert(rv.take(j + 1).last() == rv[j as int]);
            assert(rv[j as int] == records@[j as int]@);
            lemma_count_le_len(rv.take(j + 1), kind_pred(sk));
            lemma_sum_bound(rv.take(j + 1), kind_pred(sk), cal_of());
            lemma_sum_bound(rv.take(j + 1), kind_pred(sk), dur_of());
            lemma_sum_bound(rv.take(j + 1), kind_pred(sk), dist_of());
            lemma_abs_prefix(rv, cal_of(), j + 1);
            lemma_abs_prefix(rv, dur_of(), j + 1);
            lemma_abs_prefix(rv, dist_of(), j + 1);
        }
        if records[j].kind == sk {
            proof {
                assert(kind_pred(sk)(rv[j as int]));
            }
            cnt = cnt + 1;
            cal = cal + records[j].calories as i64;
            dur = dur + records[j].duration_second as i64;
            dist = dist + records[j].distance_meter as i64;
        } else {
            proof {
                assert(!kind_pred(sk)(rv[j as int]));
            }
        }
        j += 1;
    }
    proof {
        assert(rv.take(n as int) =~= rv);
    }
    if cnt > 0 {
        Some(
            TypeBucket {
                kind: sk,
                duration: dur as i32,
                calories: cal as i32,
                count: cnt as i32,
                distance_meter: dist as i32,
            },
        )
    } else {
        None
    }
}

/// Computes the kind buckets, ascending by canonical name.
fn compute_type_buckets(records: &Vec<Sport>) -> (out: Vec<TypeBucket>)
    requires
        sums_fit(records_view(records@)),
    ensures
        type_buckets_view(out@) == tb_from(records_view(records@), kind_order(), 0),
{
    let ghost rv = records_view(records@);
    let kinds: [SportType; 4] = [
        SportType::Cycling,
        SportType::Running,
        SportType::Swimming,
        SportType::Unknown,
    ];
    proof {
        assert(kind_order().len() == 4);
        assert(kinds@.len() == 4);
        assert(kinds@[0] == kind_order()[0]);
        assert(kinds@[1] == kind_order()[1]);
        assert(kinds@[2] == kind_order()[2]);
        assert(kinds@[3] == kind_order()[3]);
    }
    let mut out: Vec<TypeBucket> = Vec::new();
    let mut i: usize = 0;
    proof {
        assert(type_buckets_view(out@) =~= Seq::<TypeBucketV>::empty());
        assert(tb_from(rv, kind_order(), 0) =~= type_buckets_view(out@) + tb_from(
            rv,
            kind_order(),
            0,
        ));
    }
    while i < 4
        invariant
            i <= 4,
            rv == records_view(records@),
            sums_fit(rv),
            kinds@.len() == 4,
            forall|j: int| 0 <= j < 4 ==> #[trigger] kinds@[j] == kind_order()[j],
            tb_from(rv, kind_order(), 0) == type_buckets_view(out@) + tb_from(
                rv,
                kind_order(),
                i as int,
            ),
        decreases 4 - i,
    {
        let ghost before = out@;
        let sk = kinds[i];
        match one_kind_bucket(records, sk) {
            Some(b) => {
                proof {
                    lemma_count_nonneg(rv, kind_pred(kind_order()[i as int]));
                }
                out.push(b);
                proof {
                    assert(type_buckets_view(out@) =~= type_buckets_view(before) + seq![
                        type_bucket_of(rv, kind_order()[i as int]),
                    ]);
                    assert(tb_from(rv, kind_order(), i as int) == seq![
                        type_bucket_of(rv, kind_order()[i as int]),
                    ] + tb_from(rv, kind_order(), i + 1));
                    assert(type_buckets_view(out@) + tb_from(rv, kind_order(), i + 1)
                        =~= type_buckets_view(before) + tb_from(rv, kind_order(), i as int));
                }
            },
            None => {
                proof {
                    assert(tb_from(rv, kind_order(), i as int) == tb_from(
                        rv,
                        kind_order(),
                        i + 1,
                    ));
                }
            },
        }
        i += 1;
    }
    proof {
        assert(tb_from(rv, kind_order(), 4) =~= Seq::<TypeBucketV>::empty());
        assert(type_buckets_view(out@) + Seq::<TypeBucketV>::empty() =~= type_buckets_view(out@));
    }
    out
}

/// Computes the grand totals.
fn compute_totals(records: &Vec<Sport>) -> (r: (i32, i32, i32))
    requires
        sums_fit(records_view(records@)),
    ensures
        ({
            let rv = records_view(records@);
            r.0 as int == sum_if(rv, all_pred(), cal_of()) && r.1 as int == sum_if(
                rv,
                all_pred(),
                dur_of(),
            ) && r.2 as int == sum_if(rv, all_pred(), dist_of())
        }),
{
    let ghost rv = records_view(records@);
    let n = records.len();
    let mut cal: i64 = 0;
    let mut dur: i64 = 0;
    let mut dist: i64 = 0;
    let mut j: usize = 0;
    while j < n
        invariant
            j <= n,
            n == records@.len(),
            rv == records_view(records@),
            sums_fit(rv),
            cal as int == sum_if(rv.take(j as int), all_pred(), cal_of()),
            dur as int == sum_if(rv.take(j as int), all_pred(), dur_of()),
            dist as int == sum_if(rv.take(j as int), all_pred(), dist_of()),
            -0x7FFF_FFFF <= cal <= 0x7FFF_FFFF,
            -0x7FFF_FFFF <= dur <= 0x7FFF_FFFF,
            -0x7FFF_FFFF <= dist <= 0x7FFF_FFFF,
        decreases n - j,
    {
        proof {
            assert(rv.take(j + 1).drop_last() =~= rv.take(j as int));
            assert(rv.take(j + 1).last() == rv[j as int]);
            assert(rv[j as int] == records@[j as int]@);
            assert(all_pred()(rv[j as int]));
            lemma_sum_bound(rv.take(j + 1), all_pred(), cal_of());
            lemma_sum_bound(rv.take(j + 1), all_pred(), dur_of());
            lemma_sum_bound(rv.take(j + 1), all_pred(), dist_of());
            lemma_abs_prefix(rv, cal_of(), j + 1);
            lemma_abs_prefix(rv, dur_of(), j + 1);
            lemma_abs_prefix(rv, dist_of(), j + 1);
        }
        cal = cal + records[j].calories as i64;
        dur = dur + records[j].duration_second as i64;
        dist = dist + records[j].distance_meter as i64;
        j += 1;
    }
    proof {
        assert(rv.take(n as int) =~= rv);
    }
    (cal as i32, dur as i32, dist as i32)
}

impl StatSummary {
    /// An exact copy.
    pub fn duplicate(&self) -> (r: Self)
        ensures
            r@ == self@,
    {
        let mut buckets: Vec<StatBucket> = Vec::new();
        let mut i: usize = 0;
        while i < self.buckets.len()
            invariant
                i <= self.buckets@.len(),
                buckets@.len() == i,
                forall|j: int| 0 <= j < i ==> #[trigger] buckets@[j] == self.buckets@[j],
            decreases self.buckets@.len() - i,
        {
            buckets.push(self.buckets[i]);
            i += 1;
        }
        let mut type_buckets: Vec<TypeBucket> = Vec::new();
        let mut k: usize = 0;
        while k < self.type_buckets.len()
            invariant
                k <= self.type_buckets@.len(),
                type_buckets@.len() == k,
                forall|j: int| 0 <= j < k ==> #[trigger] type_buckets@[j] == self.type_buckets@[j],
            decreases self.type_buckets@.len() - k,
        {
            type_buckets.push(self.type_buckets[k]);
            k += 1;
        }
        let r = StatSummary {
            buckets,
            type_buckets,
            total_count: self.total_count,
            total_calories: self.total_calories,
            total_duration_second: self.total_duration_second,
            total_distance_meter: self.total_distance_meter,
            sports: crate::model::duplicate_records(&self.sports),
            earliest_year: self.earliest_year,
        };
        proof {
            assert(buckets_view(r.buckets@) =~= buckets_view(self.buckets@));
            assert(type_buckets_view(r.type_buckets@) =~= type_buckets_view(self.type_buckets@));
        }
        r
    }
}

/// Aggregates one window of records under a scope kind: grand totals,
/// kind buckets, time buckets, and the record list itself — which the
/// all-time scope omits to bound the result's size. For the year, month
/// and week scopes the time buckets partition the window: their counts,
/// calories and durations sum to the grand totals.
pub fn summarize(kind: StatKind, records: Vec<Sport>) -> (r: StatSummary)
    requires
        sums_fit(records_view(records@)),
        times_in_range(records_view(records@)),
    ensures
        ({
            let rv = records_view(records@);
            &&& r@.total_count == rv.len()
            &&& r@.total_calories == sum_if(rv, all_pred(), cal_of())
            &&& r@.total_duration_second == sum_if(rv, all_pred(), dur_of())
            &&& r@.total_distance_meter == sum_if(rv, all_pred(), dist_of())
            &&& r@.buckets == buckets_spec(rv, kind, key_range(kind).0, key_range(kind).1)
            &&& r@.type_buckets == tb_from(rv, kind_order(), 0)
            &&& r@.sports == (if kind == StatKind::Total {
                Seq::<SportV>::empty()
            } else {
                rv
            })
            &&& r@.earliest_year is None
            &&& (kind != StatKind::Total ==> {
                &&& buckets_count_sum(r@.buckets) == r@.total_count
                &&& buckets_cal_sum(r@.buckets) == r@.total_calories
                &&& buckets_dur_sum(r@.buckets) == r@.total_duration_second
            })
        }),
{
    let ghost rv = records_view(records@);
    let buckets = compute_buckets(kind, &records);
    let type_buckets = compute_type_buckets(&records);
    let (total_calories, total_duration_second, total_distance_meter) = compute_totals(&records);
    let total_count = records.len() as i32;
    proof {
        if kind != StatKind::Total {
            let (lo, hi) = key_range(kind);
            lemma_partition(rv, kind, lo, hi);
            lemma_bucket_sums(rv, kind, lo, hi);
        }
    }
    let is_total = match kind {
        StatKind::Total => true,
        _ => false,
    };
    let sports: Vec<Sport> = if is_total {
        Vec::new()
    } else {
        records
    };
    proof {
        if is_total {
            assert(records_view(sports@) =~= Seq::<SportV>::empty());
        }
    }
    StatSummary {
        buckets,
        type_buckets,
        total_count,
        total_calories,
        total_duration_second,
        total_distance_meter,
        sports,
        earliest_year: None,
    }
}

} // verus!
