//! The canonical record model: `Sport`, its per-segment `Track` entries, and
//! the tagged union `SportExtra` whose variant must match the owning kind.
use vstd::prelude::*;

use crate::kind::SportType;
use crate::text;

verus! {

/// Mathematical view of `Swimming`.
pub ghost struct SwimmingV {
    pub main_stroke: Seq<char>,
    pub stroke_avg: int,
    pub swolf_avg: int,
}

/// Mathematical view of `Running`.
pub ghost struct RunningV {
    pub speed_avg: Seq<char>,
    pub cadence_avg: int,
    pub stride_length_avg: int,
    pub steps_total: int,
    pub pace_min: Seq<char>,
    pub pace_max: Seq<char>,
}

/// Mathematical view of `SportExtra`.
pub ghost enum SportExtraV {
    Swimming(SwimmingV),
    Running(RunningV),
}

/// Mathematical view of `Track`.
pub ghost struct TrackV {
    pub distance_meter: int,
    pub duration_second: int,
    pub pace_average: Seq<char>,
    pub extra: Option<SportExtraV>,
}

/// Mathematical view of `Sport`.
pub ghost struct SportV {
    pub id: int,
    pub kind: SportType,
    pub start_time: int,
    pub calories: int,
    pub distance_meter: int,
    pub duration_second: int,
    pub heart_rate_avg: int,
    pub heart_rate_max: int,
    pub pace_average: Seq<char>,
    pub extra: Option<SportExtraV>,
    pub tracks: Seq<TrackV>,
}

/// Swimming-specific fields. `main_stroke` is normalized at construction
/// into the fixed vocabulary.
#[derive(Debug, Clone)]
pub struct Swimming {
    pub main_stroke: String,
    pub stroke_avg: i32,
    pub swolf_avg: i32,
}

/// Running-specific fields. The average speed is carried as the decimal
/// text it arrived with; no arithmetic is ever done on it.
#[derive(Debug, Clone)]
pub struct Running {
    pub speed_avg: String,
    pub cadence_avg: i32,
    pub stride_length_avg: i32,
    pub steps_total: i32,
    pub pace_min: String,
    pub pace_max: String,
}

/// The extra data of a record; the variant must match the owning kind.
#[derive(Debug, Clone)]
pub enum SportExtra {
    Swimming(Swimming),
    Running(Running),
}

/// One segment or lap of a record.
#[derive(Debug, Clone)]
pub struct Track {
    pub distance_meter: i32,
    pub duration_second: i32,
    pub pace_average: String,
    pub extra: Option<SportExtra>,
}

/// The canonical sport record. `id` is assigned by the repository;
/// `0` means unsaved. `start_time` is epoch seconds.
#[derive(Debug, Clone)]
pub struct Sport {
    pub id: i32,
    pub kind: SportType,
    pub start_time: i64,
    pub calories: i32,
    pub distance_meter: i32,
    pub duration_second: i32,
    pub heart_rate_avg: i32,
    pub heart_rate_max: i32,
    pub pace_average: String,
    pub extra: Option<SportExtra>,
    pub tracks: Vec<Track>,
}

impl View for Swimming {
    type V = SwimmingV;

    open spec fn view(&self) -> SwimmingV {
        SwimmingV {
            main_stroke: self.main_stroke@,
            stroke_avg: self.stroke_avg as int,
            swolf_avg: self.swolf_avg as int,
        }
    }
}

impl View for Running {
    type V = RunningV;

    open spec fn view(&self) -> RunningV {
        RunningV {
            speed_avg: self.speed_avg@,
            cadence_avg: self.cadence_avg as int,
            stride_length_avg: self.stride_length_avg as int,
            steps_total: self.steps_total as int,
            pace_min: self.pace_min@,
            pace_max: self.pace_max@,
        }
    }
}

impl View for SportExtra {
    type V = SportExtraV;

    open spec fn view(&self) -> SportExtraV {
        match self {
            SportExtra::Swimming(s) => SportExtraV::Swimming(s@),
            SportExtra::Running(r) => SportExtraV::Running(r@),
        }
    }
}

/// The view of an optional extra.
pub open spec fn extra_view(e: Option<SportExtra>) -> Option<SportExtraV> {
    match e {
        None => None,
        Some(x) => Some(x@),
    }
}

impl View for Track {
    type V = TrackV;

    open spec fn view(&self) -> TrackV {
        TrackV {
            distance_meter: self.distance_meter as int,
            duration_second: self.duration_second as int,
            pace_average: self.pace_average@,
            extra: extra_view(self.extra),
        }
    }
}

/// The view of a track list.
pub open spec fn tracks_view(ts: Seq<Track>) -> Seq<TrackV> {
    Seq::new(
        ts.len(),
        |i: int|
            if 0 <= i < ts.len() {
                ts[i]@
            } else {
                TrackV {
                    distance_meter: 0,
                    duration_second: 0,
                    pace_average: Seq::empty(),
                    extra: None,
                }
            },
    )
}

/// The view of a record list.
pub open spec fn records_view(rs: Seq<Sport>) -> Seq<SportV> {
    Seq::new(rs.len(), |i: int| rs[i]@)
}

impl View for Sport {
    type V = SportV;

    open spec fn view(&self) -> SportV {
        SportV {
            id: self.id as int,
            kind: self.kind,
            start_time: self.start_time as int,
            calories: self.calories as int,
            distance_meter: self.distance_meter as int,
            duration_second: self.duration_second as int,
            heart_rate_avg: self.heart_rate_avg as int,
            heart_rate_max: self.heart_rate_max as int,
            pace_average: self.pace_average@,
            extra: extra_view(self.extra),
            tracks: tracks_view(self.tracks@),
        }
    }
}

impl Default for Swimming {
    fn default() -> (r: Self)
        ensures
            r@.main_stroke == Seq::<char>::empty(),
            r@.stroke_avg == 0,
            r@.swolf_avg == 0,
    {
        Swimming { main_stroke: String::new(), stroke_avg: 0, swolf_avg: 0 }
    }
}

impl Default for Track {
    fn default() -> (r: Self)
        ensures
            r@.distance_meter == 0,
            r@.duration_second == 0,
            r@.pace_average == Seq::<char>::empty(),
            r@.extra is None,
    {
        Track {
            distance_meter: 0,
            duration_second: 0,
            pace_average: String::new(),
            extra: None,
        }
    }
}

impl Default for Sport {
    fn default() -> (r: Self)
        ensures
            r@.id == 0,
            r@.kind == SportType::Unknown,
            r@.start_time == 0,
            r@.calories == 0,
            r@.distance_meter == 0,
            r@.duration_second == 0,
            r@.heart_rate_avg == 0,
            r@.heart_rate_max == 0,
            r@.pace_average == Seq::<char>::empty(),
            r@.extra is None,
            r@.tracks == Seq::<TrackV>::empty(),
    {
        let s = Sport {
            id: 0,
            kind: SportType::Unknown,
            start_time: 0,
            calories: 0,
            distance_meter: 0,
            duration_second: 0,
            heart_rate_avg: 0,
            heart_rate_max: 0,
            pace_average: String::new(),
            extra: None,
            tracks: Vec::new(),
        };
        proof {
            assert(s@.tracks =~= Seq::<TrackV>::empty());
        }
        s
    }
}

impl Swimming {
    /// An exact copy.
    pub fn duplicate(&self) -> (r: Self)
        ensures
            r@ == self@,
    {
        Swimming {
            main_stroke: self.main_stroke.clone(),
            stroke_avg: self.stroke_avg,
            swolf_avg: self.swolf_avg,
        }
    }
}

impl Running {
    /// An exact copy.
    pub fn duplicate(&self) -> (r: Self)
        ensures
            r@ == self@,
    {
        Running {
            speed_avg: self.speed_avg.clone(),
            cadence_avg: self.cadence_avg,
            stride_length_avg: self.stride_length_avg,
            steps_total: self.steps_total,
            pace_min: self.pace_min.clone(),
            pace_max: self.pace_max.clone(),
        }
    }
}

impl SportExtra {
    /// An exact copy.
    pub fn duplicate(&self) -> (r: Self)
        ensures
            r@ == self@,
    {
        match self {
            SportExtra::Swimming(s) => SportExtra::Swimming(s.duplicate()),
            SportExtra::Running(r) => SportExtra::Running(r.duplicate()),
        }
    }
}

fn duplicate_extra(e: &Option<SportExtra>) -> (r: Option<SportExtra>)
    ensures
        extra_view(r) == extra_view(*e),
{
    match e {
        None => None,
        Some(x) => Some(x.duplicate()),
    }
}

impl Track {
    /// An exact copy.
    pub fn duplicate(&self) -> (r: Self)
        ensures
            r@ == self@,
    {
        Track {
            distance_meter: self.distance_meter,
            duration_second: self.duration_second,
            pace_average: self.pace_average.clone(),
            extra: duplicate_extra(&self.extra),
        }
    }
}

impl Sport {
    /// An exact copy.
    pub fn duplicate(&self) -> (r: Self)
        ensures
            r@ == self@,
    {
        let mut tracks: Vec<Track> = Vec::new();
        let mut i: usize = 0;
        while i < self.tracks.len()
            invariant
                i <= self.tracks@.len(),
                tracks@.len() == i,
                forall|j: int| 0 <= j < i ==> #[trigger] tracks@[j]@ == self.tracks@[j]@,
            decreases self.tracks@.len() - i,
        {
            tracks.push(self.tracks[i].duplicate());
            i += 1;
        }
        let r = Sport {
            id: self.id,
            kind: self.kind,
            start_time: self.start_time,
            calories: self.calories,
            distance_meter: self.distance_meter,
            duration_second: self.duration_second,
            heart_rate_avg: self.heart_rate_avg,
            heart_rate_max: self.heart_rate_max,
            pace_average: self.pace_average.clone(),
            extra: duplicate_extra(&self.extra),
            tracks,
        };
        proof {
            assert(tracks_view(r.tracks@) =~= tracks_view(self.tracks@));
        }
        r
    }
}

/// An exact copy of a record list.
pub fn duplicate_records(rs: &Vec<Sport>) -> (r: Vec<Sport>)
    ensures
        records_view(r@) == records_view(rs@),
{
    let mut out: Vec<Sport> = Vec::new();
    let mut i: usize = 0;
    while i < rs.len()
        invariant
            i <= rs@.len(),
            out@.len() == i,
            forall|j: int| 0 <= j < i ==> #[trigger] out@[j]@ == rs@[j]@,
        decreases rs@.len() - i,
    {
        out.push(rs[i].duplicate());
        i += 1;
    }
    proof {
        assert(records_view(out@) =~= records_view(rs@));
    }
    out
}

/// The normalized stroke for a raw stroke description: case-insensitive
/// substring matching against an English and Chinese vocabulary, with
/// `"unknown"` for anything unmatched.
pub open spec fn normalize_stroke_spec(s: Seq<char>) -> Seq<char> {
    if text::contains_ci_spec(s, "mix"@) || text::contains_ci_spec(s, "混合"@)
        || text::contains_ci_spec(s, "medley"@) {
        "medley"@
    } else if text::contains_ci_spec(s, "free"@) || text::contains_ci_spec(s, "自由"@) {
        "freestyle"@
    } else if text::contains_ci_spec(s, "fly"@) || text::contains_ci_spec(s, "蝶"@) {
        "butterfly"@
    } else if text::contains_ci_spec(s, "breast"@) || text::contains_ci_spec(s, "蛙"@) {
        "breaststroke"@
    } else if text::contains_ci_spec(s, "back"@) || text::contains_ci_spec(s, "仰"@) {
        "backstroke"@
    } else {
        "unknown"@
    }
}

/// Normalizes a raw stroke description into the fixed vocabulary.
pub fn normalize_stroke(s: &str) -> (r: String)
    ensures
        r@ == normalize_stroke_spec(s@),
{
    let name: &str = if text::contains_ci(s, "mix") || text::contains_ci(s, "混合")
        || text::contains_ci(s, "medley") {
        "medley"
    } else if text::contains_ci(s, "free") || text::contains_ci(s, "自由") {
        "freestyle"
    } else if text::contains_ci(s, "fly") || text::contains_ci(s, "蝶") {
        "butterfly"
    } else if text::contains_ci(s, "breast") || text::contains_ci(s, "蛙") {
        "breaststroke"
    } else if text::contains_ci(s, "back") || text::contains_ci(s, "仰") {
        "backstroke"
    } else {
        "unknown"
    };
    name.to_owned()
}

impl Swimming {
    /// Builds swimming extra data, normalizing the stroke description.
    pub fn new(main_stroke: String, stroke_avg: i32, swolf_avg: i32) -> (r: Self)
        ensures
            r@.main_stroke == normalize_stroke_spec(main_stroke@),
            r@.stroke_avg == stroke_avg as int,
            r@.swolf_avg == swolf_avg as int,
    {
        let normalized = normalize_stroke(main_stroke.as_str());
        Swimming { main_stroke: normalized, stroke_avg, swolf_avg }
    }
}

/// Whether an optional extra is allowed on a record of kind `k`: swimming
/// extra only on swimming records, running extra only on running records.
pub open spec fn extra_matches_kind(k: SportType, e: Option<SportExtraV>) -> bool {
    match e {
        None => true,
        Some(SportExtraV::Swimming(_)) => k == SportType::Swimming,
        Some(SportExtraV::Running(_)) => k == SportType::Running,
    }
}

/// The record-level invariant: the extra of the record and of every track
/// matches the record's kind.
pub open spec fn sport_consistent(s: SportV) -> bool {
    &&& extra_matches_kind(s.kind, s.extra)
    &&& forall|i: int| 0 <= i < s.tracks.len() ==> extra_matches_kind(s.kind, #[trigger] s.tracks[i].extra)
}

impl Sport {
    /// Checks the variant-matches-kind invariant on the record and all of
    /// its tracks.
    pub fn validate_type_consistency(&self) -> (r: Result<(), String>)
        ensures
            r is Ok <==> sport_consistent(self@),
    {
        if !extra_ok(self.kind, &self.extra) {
            return Err("extra does not match sport type".to_owned());
        }
        let mut i: usize = 0;
        while i < self.tracks.len()
            invariant
                i <= self.tracks@.len(),
                extra_matches_kind(self@.kind, self@.extra),
                forall|j: int| 0 <= j < i ==> extra_matches_kind(self@.kind, #[trigger] self@.tracks[j].extra),
            decreases self.tracks@.len() - i,
        {
            if !extra_ok(self.kind, &self.tracks[i].extra) {
                assert(!extra_matches_kind(self@.kind, self@.tracks[i as int].extra));
                return Err("track extra does not match sport type".to_owned());
            }
            assert(extra_matches_kind(self@.kind, self@.tracks[i as int].extra));
            i += 1;
        }
        Ok(())
    }
}

fn extra_ok(k: SportType, e: &Option<SportExtra>) -> (r: bool)
    ensures
        r == extra_matches_kind(k, extra_view(*e)),
{
    match e {
        None => true,
        Some(SportExtra::Swimming(_)) => k == SportType::Swimming,
        Some(SportExtra::Running(_)) => k == SportType::Running,
    }
}

/// ASCII lower-casing fixes a sequence with no upper-case letters.
proof fn lemma_lower_fixed(s: Seq<char>)
    requires
        forall|i: int| 0 <= i < s.len() ==> !('A' <= #[trigger] s[i] && s[i] <= 'Z'),
    ensures
        text::lower_seq(s) == s,
{
    assert(text::lower_seq(s) =~= s);
}

/// A needle whose first character never occurs at a viable position does
/// not occur.
proof fn lemma_no_first(h: Seq<char>, n: Seq<char>)
    requires
        n.len() >= 1,
        forall|i: int| 0 <= i && i + n.len() <= h.len() ==> #[trigger] h[i] != n[0],
    ensures
        !text::has_substring(h, n),
{
    assert forall|i: int| 0 <= i && i + n.len() <= h.len() implies #[trigger] h.subrange(
        i,
        i + n.len(),
    ) != n by {
        assert(h.subrange(i, i + n.len())[0] == h[i]);
    }
}

/// A needle failing on its first or second character at every viable
/// position does not occur.
proof fn lemma_no_two(h: Seq<char>, n: Seq<char>)
    requires
        n.len() >= 2,
        forall|i: int|
            0 <= i && i + n.len() <= h.len() ==> #[trigger] h[i] != n[0] || h[i + 1] != n[1],
    ensures
        !text::has_substring(h, n),
{
    assert forall|i: int| 0 <= i && i + n.len() <= h.len() implies #[trigger] h.subrange(
        i,
        i + n.len(),
    ) != n by {
        assert(h.subrange(i, i + n.len())[0] == h[i]);
        assert(h.subrange(i, i + n.len())[1] == h[i + 1]);
    }
}

/// Normalizing a stroke description twice gives what one pass gives: the
/// vocabulary entries are fixed points of the normalization.
pub proof fn lemma_normalize_stroke_idempotent(s: Seq<char>)
    ensures
        normalize_stroke_spec(normalize_stroke_spec(s)) == normalize_stroke_spec(s),
{
    reveal_strlit("medley");
    reveal_strlit("freestyle");
    reveal_strlit("butterfly");
    reveal_strlit("breaststroke");
    reveal_strlit("backstroke");
    reveal_strlit("unknown");
    reveal_strlit("mix");
    reveal_strlit("混合");
    reveal_strlit("free");
    reveal_strlit("自由");
    reveal_strlit("fly");
    reveal_strlit("蝶");
    reveal_strlit("breast");
    reveal_strlit("蛙");
    reveal_strlit("back");
    reveal_strlit("仰");
    let r = normalize_stroke_spec(s);
    lemma_vocabulary_fixed_point(r);
}

/// Every vocabulary entry normalizes to itself.
proof fn lemma_vocabulary_fixed_point(r: Seq<char>)
    requires
        r == "medley"@ || r == "freestyle"@ || r == "butterfly"@ || r == "breaststroke"@ || r
            == "backstroke"@ || r == "unknown"@,
    ensures
        normalize_stroke_spec(r) == r,
{
    reveal_strlit("medley");
    reveal_strlit("freestyle");
    reveal_strlit("butterfly");
    reveal_strlit("breaststroke");
    reveal_strlit("backstroke");
    reveal_strlit("unknown");
    reveal_strlit("mix");
    reveal_strlit("混合");
    reveal_strlit("free");
    reveal_strlit("自由");
    reveal_strlit("fly");
    reveal_strlit("蝶");
    reveal_strlit("breast");
    reveal_strlit("蛙");
    reveal_strlit("back");
    reveal_strlit("仰");
    lemma_lower_fixed(r);
    let l = text::lower_seq(r);
    assert(l == r);
    if r == "medley"@ {
        assert(l.subrange(0, 0 + "medley"@.len() as int) =~= "medley"@);
        assert(text::contains_ci_spec(r, "medley"@));
    } else if r == "freestyle"@ {
        lemma_no_first(l, "mix"@);
        lemma_no_first(l, "混合"@);
        lemma_no_first(l, "medley"@);
        assert(l.subrange(0, 0 + "free"@.len() as int) =~= "free"@);
        assert(text::contains_ci_spec(r, "free"@));
    } else if r == "butterfly"@ {
        lemma_no_first(l, "mix"@);
        lemma_no_first(l, "混合"@);
        lemma_no_first(l, "medley"@);
        lemma_no_first(l, "free"@);
        lemma_no_first(l, "自由"@);
        assert(l.subrange(6, 6 + "fly"@.len() as int) =~= "fly"@);
        assert(text::contains_ci_spec(r, "fly"@));
    } else if r == "breaststroke"@ {
        lemma_no_first(l, "mix"@);
        lemma_no_first(l, "混合"@);
        lemma_no_first(l, "medley"@);
        lemma_no_first(l, "free"@);
        lemma_no_first(l, "自由"@);
        lemma_no_first(l, "fly"@);
        lemma_no_first(l, "蝶"@);
        assert(l.subrange(0, 0 + "breast"@.len() as int) =~= "breast"@);
        assert(text::contains_ci_spec(r, "breast"@));
    } else if r == "backstroke"@ {
        lemma_no_first(l, "mix"@);
        lemma_no_first(l, "混合"@);
        lemma_no_first(l, "medley"@);
        lemma_no_first(l, "free"@);
        lemma_no_first(l, "自由"@);
        lemma_no_first(l, "fly"@);
        lemma_no_first(l, "蝶"@);
        lemma_no_two(l, "breast"@);
        lemma_no_first(l, "蛙"@);
        assert(l.subrange(0, 0 + "back"@.len() as int) =~= "back"@);
        assert(text::contains_ci_spec(r, "back"@));
    } else {
        lemma_no_first(l, "mix"@);
        lemma_no_first(l, "混合"@);
        lemma_no_first(l, "medley"@);
        lemma_no_first(l, "free"@);
        lemma_no_first(l, "自由"@);
        lemma_no_first(l, "fly"@);
        lemma_no_first(l, "蝶"@);
        lemma_no_first(l, "breast"@);
        lemma_no_first(l, "蛙"@);
        lemma_no_first(l, "back"@);
        lemma_no_first(l, "仰"@);
    }
}

} // verus!
