//! Vendor CSV import.
//!
//! Each vendor has its own adapter deciding row schema and category
//! filter; an unsupported vendor name is a hard failure. The Xiaomi
//! adapter reads `Time, Category, Value` columns, keeps swimming rows,
//! reads the `Value` JSON with fallback field pairs, and skips rows it
//! cannot read.
use vstd::prelude::*;

use crate::csvio::{csv_rows, csv_rows_of};
use crate::json::{obj_get, members_view, json_of, json_parse, lookup, JsonV, JsonValue};
use crate::kind::SportType;
use crate::model::{records_view, sport_consistent, tracks_view, Sport, SportV, SportExtra, SportExtraV, Swimming, SwimmingV, TrackV};
use crate::numtext::{parse_i64, parse_int_spec};
use crate::compat::in_i32_range;
use crate::text;

verus! {

/// The first column with the given header name.
pub open spec fn col_index(hdr: Seq<Seq<char>>, name: Seq<char>, from: int) -> Option<int>
    decreases hdr.len() - from,
{
    if from < 0 || from >= hdr.len() {
        None
    } else if hdr[from] == name {
        Some(from)
    } else {
        col_index(hdr, name, from + 1)
    }
}

/// The numbers read out of one Xiaomi `Value` JSON.
pub ghost struct XiaomiValsV {
    pub calories: int,
    pub distance: int,
    pub duration: int,
    pub swolf: int,
    pub stroke: int,
    pub posture: int,
}

/// An optional `i32` member of the value object: missing or `null` reads
/// as absent, an in-range integer as present; anything else is a type
/// error failing the whole value.
pub open spec fn xv_field(fs: Seq<(Seq<char>, JsonV)>, key: Seq<char>) -> Option<Option<int>> {
    match obj_get(fs, key) {
        None => Some(None),
        Some(JsonV::Null) => Some(None),
        Some(JsonV::Int(i)) => if in_i32_range(i) {
            Some(Some(i))
        } else {
            None
        },
        Some(_) => None,
    }
}

pub open spec fn or_zero(a: Option<int>, b: Option<int>) -> int {
    match a {
        Some(x) => x,
        None => match b {
            Some(y) => y,
            None => 0,
        },
    }
}

pub open spec fn zero_vals() -> XiaomiValsV {
    XiaomiValsV { calories: 0, distance: 0, duration: 0, swolf: 0, stroke: 0, posture: 0 }
}

/// What a `Value` JSON reads as: the fallback pairs applied, absent
/// fields zero; a malformed document, a non-object, or a mistyped field
/// degrades to all zeros.
pub open spec fn xiaomi_vals(j: Option<JsonV>) -> XiaomiValsV {
    match j {
        Some(JsonV::Obj(fs)) => {
            match (
                xv_field(fs, "calories"@),
                xv_field(fs, "total_cal"@),
                xv_field(fs, "distance"@),
                xv_field(fs, "duration"@),
                xv_field(fs, "valid_duration"@),
                xv_field(fs, "avg_swolf"@),
                xv_field(fs, "main_posture"@),
                xv_field(fs, "max_stroke_freq"@),
            ) {
                (
                    Some(cal),
                    Some(total_cal),
                    Some(dist),
                    Some(dur),
                    Some(valid_dur),
                    Some(swolf),
                    Some(posture),
                    Some(stroke),
                ) => XiaomiValsV {
                    calories: or_zero(cal, total_cal),
                    distance: or_zero(dist, None),
                    duration: or_zero(valid_dur, dur),
                    swolf: or_zero(swolf, None),
                    stroke: or_zero(stroke, None),
                    posture: or_zero(posture, None),
                },
                _ => zero_vals(),
            }
        },
        _ => zero_vals(),
    }
}

/// The stroke vocabulary entry of a Xiaomi posture code.
pub open spec fn posture_stroke(p: int) -> Seq<char> {
    if p == 1 {
        "freestyle"@
    } else if p == 2 {
        "backstroke"@
    } else if p == 3 {
        "breaststroke"@
    } else if p == 4 {
        "butterfly"@
    } else {
        "unknown"@
    }
}

/// The record of one data row, `None` for a row that is skipped: an
/// unreadable record, a missing column, an unparsable or out-of-range
/// time, or a category other than swimming. A time above `10^12` is taken
/// as milliseconds.
pub open spec fn xiaomi_row_record(row: Option<Seq<Seq<char>>>, ti: int, ci: int, vi: int) -> Option<
    SportV,
> {
    match row {
        None => None,
        Some(fs) => {
            if !(0 <= ti < fs.len() && 0 <= ci < fs.len() && 0 <= vi < fs.len()) {
                None
            } else {
                match parse_int_spec(fs[ti]) {
                    Some(t) => {
                        if t < i64::MIN || t > i64::MAX {
                            None
                        } else if !text::ieq_spec(fs[ci], "swimming"@) {
                            None
                        } else {
                            let t2 = if t > 1_000_000_000_000 {
                                t / 1000
                            } else {
                                t
                            };
                            let xv = xiaomi_vals(json_of(fs[vi]));
                            Some(
                                SportV {
                                    id: 0,
                                    kind: SportType::Swimming,
                                    start_time: t2,
                                    calories: xv.calories,
                                    distance_meter: xv.distance,
                                    duration_second: xv.duration,
                                    heart_rate_avg: 0,
                                    heart_rate_max: 0,
                                    pace_average: Seq::empty(),
                                    extra: Some(
                                        SportExtraV::Swimming(
                                            SwimmingV {
                                                main_stroke: posture_stroke(xv.posture),
                                                stroke_avg: xv.stroke,
                                                swolf_avg: xv.swolf,
                                            },
                                        ),
                                    ),
                                    tracks: Seq::empty(),
                                },
                            )
                        }
                    },
                    None => None,
                }
            }
        },
    }
}

/// The records of the data rows from `i` on, in order.
pub open spec fn rows_records(
    rows: Seq<Option<Seq<Seq<char>>>>,
    i: int,
    ti: int,
    ci: int,
    vi: int,
) -> Seq<SportV>
    decreases rows.len() - i,
{
    if i < 0 || i >= rows.len() {
        Seq::empty()
    } else {
        (match xiaomi_row_record(rows[i], ti, ci, vi) {
            Some(s) => seq![s],
            None => Seq::empty(),
        }) + rows_records(rows, i + 1, ti, ci, vi)
    }
}

/// Everything the Xiaomi adapter yields from a CSV: nothing without a
/// readable header row naming the three columns, otherwise the records of
/// the data rows.
pub open spec fn xiaomi_records_spec(rows: Seq<Option<Seq<Seq<char>>>>) -> Seq<SportV> {
    if rows.len() == 0 {
        Seq::empty()
    } else {
        match rows[0] {
            None => Seq::empty(),
            Some(hdr) => match (
                col_index(hdr, "Time"@, 0),
                col_index(hdr, "Category"@, 0),
                col_index(hdr, "Value"@, 0),
            ) {
                (Some(ti), Some(ci), Some(vi)) => rows_records(rows, 1, ti, ci, vi),
                _ => Seq::empty(),
            },
        }
    }
}

fn find_col(hdr: &Vec<String>, name: &str) -> (r: Option<usize>)
    ensures
        match r {
            Some(i) => col_index(crate::csvio::fields_view(hdr@), name@, 0) == Some(i as int),
            None => col_index(crate::csvio::fields_view(hdr@), name@, 0) is None,
        },
{
    let ghost hv = crate::csvio::fields_view(hdr@);
    let mut i: usize = 0;
    while i < hdr.len()
        invariant
            i <= hdr@.len(),
            hv == crate::csvio::fields_view(hdr@),
            col_index(hv, name@, 0) == col_index(hv, name@, i as int),
        decreases hdr@.len() - i,
    {
        if text::str_eq(hdr[i].as_str(), name) {
            proof {
                assert(hv[i as int] == hdr@[i as int]@);
            }
            return Some(i);
        }
        proof {
            assert(hv[i as int] == hdr@[i as int]@);
        }
        i += 1;
    }
    None
}

fn xv_get(fs: &Vec<(String, JsonValue)>, key: &str) -> (r: Result<Option<i32>, ()>)
    ensures
        match r {
            Ok(x) => xv_field(members_view(fs@), key@) == Some(
                match x {
                    Some(v) => Some(v as int),
                    None => None,
                },
            ),
            Err(_) => xv_field(members_view(fs@), key@) is None,
        },
{
    match lookup(fs, key) {
        None => Ok(None),
        Some(JsonValue::Null) => Ok(None),
        Some(JsonValue::Int(i)) => {
            let iv = *i;
            if -2147483648 <= iv && iv <= 2147483647 {
                Ok(Some(iv as i32))
            } else {
                Err(())
            }
        },
        Some(_) => Err(()),
    }
}

struct XiaomiVals {
    calories: i32,
    distance: i32,
    duration: i32,
    swolf: i32,
    stroke: i32,
    posture: i32,
}

impl View for XiaomiVals {
    type V = XiaomiValsV;

    closed spec fn view(&self) -> XiaomiValsV {
        XiaomiValsV {
            calories: self.calories as int,
            distance: self.distance as int,
            duration: self.duration as int,
            swolf: self.swolf as int,
            stroke: self.stroke as int,
            posture: self.posture as int,
        }
    }
}

fn read_xiaomi_vals(value_text: &str) -> (r: XiaomiVals)
    ensures
        r@ == xiaomi_vals(json_of(value_text@)),
{
    let zero = XiaomiVals {
        calories: 0,
        distance: 0,
        duration: 0,
        swolf: 0,
        stroke: 0,
        posture: 0,
    };
    let parsed = match json_parse(value_text) {
        Some(v) => v,
        None => {
            return zero;
        },
    };
    match &parsed {
        JsonValue::Obj(fs) => {
            proof {
                assert(parsed@ == JsonV::Obj(members_view(fs@)));
            }
            let cal = xv_get(fs, "calories");
            let total_cal = xv_get(fs, "total_cal");
            let dist = xv_get(fs, "distance");
            let dur = xv_get(fs, "duration");
            let valid_dur = xv_get(fs, "valid_duration");
            let swolf = xv_get(fs, "avg_swolf");
            let posture = xv_get(fs, "main_posture");
            let stroke = xv_get(fs, "max_stroke_freq");
            match (cal, total_cal, dist, dur, valid_dur, swolf, posture, stroke) {
                (
                    Ok(c),
                    Ok(tc),
                    Ok(d),
                    Ok(du),
                    Ok(vd),
                    Ok(sw),
                    Ok(po),
                    Ok(st),
                ) => XiaomiVals {
                    calories: or_zero_exec(c, tc),
                    distance: or_zero_exec(d, None),
                    duration: or_zero_exec(vd, du),
                    swolf: or_zero_exec(sw, None),
                    stroke: or_zero_exec(st, None),
                    posture: or_zero_exec(po, None),
                },
                _ => zero,
            }
        },
        _ => zero,
    }
}

fn or_zero_exec(a: Option<i32>, b: Option<i32>) -> (r: i32)
    ensures
        r as int == or_zero(
            match a {
                Some(x) => Some(x as int),
                None => None,
            },
            match b {
                Some(y) => Some(y as int),
                None => None,
            },
        ),
{
    match a {
        Some(x) => x,
        None => match b {
            Some(y) => y,
            None => 0,
        },
    }
}

fn posture_stroke_exec(p: i32) -> (r: String)
    ensures
        r@ == posture_stroke(p as int),
{
    let name: &str = if p == 1 {
        "freestyle"
    } else if p == 2 {
        "backstroke"
    } else if p == 3 {
        "breaststroke"
    } else if p == 4 {
        "butterfly"
    } else {
        "unknown"
    };
    name.to_owned()
}

fn decode_row(row: &Option<Vec<String>>, ti: usize, ci: usize, vi: usize) -> (r: Option<Sport>)
    ensures
        ({
            let rv = match *row {
                None => None,
                Some(fs) => Some(crate::csvio::fields_view(fs@)),
            };
            match r {
                Some(s) => xiaomi_row_record(rv, ti as int, ci as int, vi as int) == Some(s@),
                None => xiaomi_row_record(rv, ti as int, ci as int, vi as int) is None,
            }
        }),
{
    let fs = match row {
        Some(fs) => fs,
        None => {
            return None;
        },
    };
    let ghost fv = crate::csvio::fields_view(fs@);
    if !(ti < fs.len() && ci < fs.len() && vi < fs.len()) {
        return None;
    }
    proof {
        assert(fv[ti as int] == fs@[ti as int]@);
        assert(fv[ci as int] == fs@[ci as int]@);
        assert(fv[vi as int] == fs@[vi as int]@);
    }
    let t = match parse_i64(fs[ti].as_str()) {
        Some(t) => t,
        None => {
            return None;
        },
    };
    if !text::str_ieq(fs[ci].as_str(), "swimming") {
        return None;
    }
    let t2: i64 = if t > 1_000_000_000_000 {
        t / 1000
    } else {
        t
    };
    let vals = read_xiaomi_vals(fs[vi].as_str());
    let stroke_name = posture_stroke_exec(vals.posture);
    let sport = Sport {
        id: 0,
        kind: SportType::Swimming,
        start_time: t2,
        calories: vals.calories,
        distance_meter: vals.distance,
        duration_second: vals.duration,
        heart_rate_avg: 0,
        heart_rate_max: 0,
        pace_average: String::new(),
        extra: Some(
            SportExtra::Swimming(
                Swimming {
                    main_stroke: stroke_name,
                    stroke_avg: vals.stroke,
                    swolf_avg: vals.swolf,
                },
            ),
        ),
        tracks: Vec::new(),
    };
    proof {
        assert(tracks_view(sport.tracks@) =~= Seq::<TrackV>::empty());
        assert(xiaomi_row_record(Some(fv), ti as int, ci as int, vi as int) == Some(sport@));
    }
    Some(sport)
}

/// Parses a vendor CSV export into canonical records: dispatch is by
/// vendor name, case-insensitively; an unsupported vendor is a hard
/// failure with nothing imported. Succeeds exactly for the Xiaomi vendor.
pub fn parse_sports_from_csv(vendor: &str, data: &str) -> (r: Result<Vec<Sport>, String>)
    ensures
        r is Ok <==> text::ieq_spec(vendor@, "xiaomi"@),
        r matches Ok(v) ==> records_view(v@) == xiaomi_records_spec(csv_rows_of(data@)),
{
    if text::str_ieq(vendor, "huawei") {
        proof {
            lemma_huawei_not_xiaomi(vendor@);
        }
        return Err("huawei parser not implemented".to_owned());
    }
    if !text::str_ieq(vendor, "xiaomi") {
        return Err("unsupported vendor".to_owned());
    }
    let rows = csv_rows(data);
    let ghost rv = csv_rows_of(data@);
    proof {
        assert(crate::csvio::rows_view(rows@) == rv);
    }
    let mut out: Vec<Sport> = Vec::new();
    if rows.len() == 0 {
        proof {
            assert(records_view(out@) =~= Seq::<SportV>::empty());
        }
        return Ok(out);
    }
    let hdr = match &rows[0] {
        Some(h) => h,
        None => {
            proof {
                assert(rv[0] is None);
                assert(records_view(out@) =~= Seq::<SportV>::empty());
            }
            return Ok(out);
        },
    };
    proof {
        assert(rv[0] == Some(crate::csvio::fields_view(hdr@)));
    }
    let ti = find_col(hdr, "Time");
    let ci = find_col(hdr, "Category");
    let vi = find_col(hdr, "Value");
    let (ti, ci, vi) = match (ti, ci, vi) {
        (Some(a), Some(b), Some(c)) => (a, b, c),
        _ => {
            proof {
                assert(records_view(out@) =~= Seq::<SportV>::empty());
            }
            return Ok(out);
        },
    };
    let mut i: usize = 1;
    proof {
        assert(records_view(out@) =~= Seq::<SportV>::empty());
        assert(rows_records(rv, 1, ti as int, ci as int, vi as int) =~= records_view(out@)
            + rows_records(rv, 1, ti as int, ci as int, vi as int));
    }
    while i < rows.len()
        invariant
            1 <= i <= rows@.len(),
            rv == crate::csvio::rows_view(rows@),
            rv.len() == rows@.len(),
            rows_records(rv, 1, ti as int, ci as int, vi as int) == records_view(out@)
                + rows_records(rv, i as int, ti as int, ci as int, vi as int),
        decreases rows@.len() - i,
    {
        let ghost before = out@;
        proof {
            assert(rv[i as int] == (match rows@[i as int] {
                None => None,
                Some(fsx) => Some(crate::csvio::fields_view(fsx@)),
            }));
        }
        match decode_row(&rows[i], ti, ci, vi) {
            Some(s) => {
                proof {
                    assert(xiaomi_row_record(rv[i as int], ti as int, ci as int, vi as int)
                        == Some(s@));
                }
                out.push(s);
                proof {
                    assert(records_view(out@) =~= records_view(before).push(
                        rows_records(rv, i as int, ti as int, ci as int, vi as int)[0],
                    ));
                    assert(rows_records(rv, i as int, ti as int, ci as int, vi as int)
                        =~= seq![
                        xiaomi_row_record(rv[i as int], ti as int, ci as int, vi as int)->Some_0,
                    ] + rows_records(rv, i + 1, ti as int, ci as int, vi as int));
                    assert(records_view(out@) + rows_records(rv, i + 1, ti as int, ci as int, vi as int)
                        =~= records_view(before) + rows_records(rv, i as int, ti as int, ci as int, vi as int));
                }
            },
            None => {
                proof {
                    assert(rows_records(rv, i as int, ti as int, ci as int, vi as int)
                        == rows_records(rv, i + 1, ti as int, ci as int, vi as int));
                }
            },
        }
        i += 1;
    }
    proof {
        assert(rows_records(rv, i as int, ti as int, ci as int, vi as int)
            =~= Seq::<SportV>::empty());
        assert(records_view(out@) + Seq::<SportV>::empty() =~= records_view(out@));
        assert(records_view(out@) == xiaomi_records_spec(rv));
    }
    Ok(out)
}

/// The two vendor names differ.
proof fn lemma_huawei_not_xiaomi(v: Seq<char>)
    requires
        text::ieq_spec(v, "huawei"@),
    ensures
        !text::ieq_spec(v, "xiaomi"@),
{
    reveal_strlit("huawei");
    reveal_strlit("xiaomi");
    assert("huawei"@[0] != "xiaomi"@[0]);
}

proof fn lemma_rows_records_consistent(
    rows: Seq<Option<Seq<Seq<char>>>>,
    i: int,
    ti: int,
    ci: int,
    vi: int,
)
    ensures
        forall|k: int|
            0 <= k < rows_records(rows, i, ti, ci, vi).len() ==> sport_consistent(
                #[trigger] rows_records(rows, i, ti, ci, vi)[k],
            ),
    decreases rows.len() - i,
{
    if 0 <= i < rows.len() {
        lemma_rows_records_consistent(rows, i + 1, ti, ci, vi);
        let rest = rows_records(rows, i + 1, ti, ci, vi);
        match xiaomi_row_record(rows[i], ti, ci, vi) {
            Some(s) => {
                assert(sport_consistent(s));
                assert forall|k: int|
                    0 <= k < rows_records(rows, i, ti, ci, vi).len() implies sport_consistent(
                    #[trigger] rows_records(rows, i, ti, ci, vi)[k],
                ) by {
                    if k == 0 {
                        assert(rows_records(rows, i, ti, ci, vi)[0] == s);
                    } else {
                        assert(rows_records(rows, i, ti, ci, vi)[k] == rest[k - 1]);
                    }
                }
            },
            None => {},
        }
    }
}

/// Every record the Xiaomi adapter yields is consistent: a swimming
/// record with swimming extra data and no tracks.
pub proof fn lemma_xiaomi_records_consistent(rows: Seq<Option<Seq<Seq<char>>>>)
    ensures
        forall|k: int|
            0 <= k < xiaomi_records_spec(rows).len() ==> sport_consistent(
                #[trigger] xiaomi_records_spec(rows)[k],
            ),
{
    if rows.len() > 0 {
        match rows[0] {
            None => {},
            Some(hdr) => {
                match (
                    col_index(hdr, "Time"@, 0),
                    col_index(hdr, "Category"@, 0),
                    col_index(hdr, "Value"@, 0),
                ) {
                    (Some(ti), Some(ci), Some(vi)) => {
                        lemma_rows_records_consistent(rows, 1, ti, ci, vi);
                    },
                    _ => {},
                }
            },
        }
    }
}

} // verus!
