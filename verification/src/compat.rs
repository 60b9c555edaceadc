//! Backward-compatible decoding of the persisted `extra` and `tracks`
//! JSON columns.
//!
//! Rows written before a schema change must stay readable: each column is
//! decoded by an ordered list of attempts — the current tagged shape
//! first, then the historical shape — and a row on which every attempt
//! fails degrades to "no extra data" / "no tracks" instead of failing the
//! read.
use vstd::prelude::*;

use crate::json::{obj_get, members_view, lookup, json_of, json_parse, JsonV, JsonValue};
use crate::model::{Swimming, SwimmingV, Running, RunningV, SportExtra, SportExtraV, Track, TrackV};
use crate::numtext::int_chars;

verus! {

pub open spec fn in_i32_range(i: int) -> bool {
    -0x8000_0000 <= i <= 0x7FFF_FFFF
}

/// An optional member that must be an `i32` number when present,
/// defaulting to 0; `None` is a type error.
pub open spec fn field_i32(fs: Seq<(Seq<char>, JsonV)>, key: Seq<char>) -> Option<int> {
    match obj_get(fs, key) {
        None => Some(0),
        Some(JsonV::Int(i)) => if in_i32_range(i) {
            Some(i)
        } else {
            None
        },
        Some(_) => None,
    }
}

/// An optional member that must be a string when present, defaulting to
/// the empty string; `None` is a type error.
pub open spec fn field_str(fs: Seq<(Seq<char>, JsonV)>, key: Seq<char>) -> Option<Seq<char>> {
    match obj_get(fs, key) {
        None => Some(Seq::empty()),
        Some(JsonV::Str(s)) => Some(s),
        Some(_) => None,
    }
}

/// A required member that must be an `i32` number.
pub open spec fn req_i32(fs: Seq<(Seq<char>, JsonV)>, key: Seq<char>) -> Option<int> {
    match obj_get(fs, key) {
        Some(JsonV::Int(i)) => if in_i32_range(i) {
            Some(i)
        } else {
            None
        },
        _ => None,
    }
}

/// A required member that must be a string.
pub open spec fn req_str(fs: Seq<(Seq<char>, JsonV)>, key: Seq<char>) -> Option<Seq<char>> {
    match obj_get(fs, key) {
        Some(JsonV::Str(s)) => Some(s),
        _ => None,
    }
}

/// A required numeric member carried as decimal text: an integer keeps
/// its canonical rendering, any other number the rendering it arrived
/// with.
pub open spec fn req_numtext(fs: Seq<(Seq<char>, JsonV)>, key: Seq<char>) -> Option<Seq<char>> {
    match obj_get(fs, key) {
        Some(JsonV::Int(i)) => Some(int_chars(i)),
        Some(JsonV::Num(t)) => Some(t),
        _ => None,
    }
}

/// `k` is one of `keys`.
pub open spec fn key_among(k: Seq<char>, keys: Seq<Seq<char>>) -> bool {
    exists|j: int| 0 <= j < keys.len() && k == #[trigger] keys[j]
}

/// Every member key of `fs` is one of `keys`.
pub open spec fn keys_among(fs: Seq<(Seq<char>, JsonV)>, keys: Seq<Seq<char>>) -> bool {
    forall|i: int| 0 <= i < fs.len() ==> key_among(#[trigger] fs[i].0, keys)
}

/// The historical bare swimming shape: an object with no keys beyond the
/// three swimming fields, each of the right type when present, missing
/// fields defaulting.
pub open spec fn decode_swimming_spec(v: JsonV) -> Option<SwimmingV> {
    match v {
        JsonV::Obj(fs) => {
            if !keys_among(fs, seq!["main_stroke"@, "stroke_avg"@, "swolf_avg"@]) {
                None
            } else {
                match (field_str(fs, "main_stroke"@), field_i32(fs, "stroke_avg"@), field_i32(
                    fs,
                    "swolf_avg"@,
                )) {
                    (Some(ms), Some(sa), Some(sw)) => Some(
                        SwimmingV { main_stroke: ms, stroke_avg: sa, swolf_avg: sw },
                    ),
                    _ => None,
                }
            }
        },
        _ => None,
    }
}

/// The running shape: an object with exactly the six running fields, all
/// required and typed.
pub open spec fn decode_running_spec(v: JsonV) -> Option<RunningV> {
    match v {
        JsonV::Obj(fs) => {
            if !keys_among(
                fs,
                seq![
                    "speed_avg"@,
                    "cadence_avg"@,
                    "stride_length_avg"@,
                    "steps_total"@,
                    "pace_min"@,
                    "pace_max"@,
                ],
            ) {
                None
            } else {
                match (req_numtext(fs, "speed_avg"@), req_i32(fs, "cadence_avg"@), req_i32(
                    fs,
                    "stride_length_avg"@,
                ), req_i32(fs, "steps_total"@), req_str(fs, "pace_min"@), req_str(
                    fs,
                    "pace_max"@,
                )) {
                    (Some(sp), Some(ca), Some(st), Some(tot), Some(pmin), Some(pmax)) => Some(
                        RunningV {
                            speed_avg: sp,
                            cadence_avg: ca,
                            stride_length_avg: st,
                            steps_total: tot,
                            pace_min: pmin,
                            pace_max: pmax,
                        },
                    ),
                    _ => None,
                }
            }
        },
        _ => None,
    }
}

/// The current tagged shape: `{"type": "Swimming"|"Running", "data": ...}`,
/// the data decoding as the tagged variant. Members beside `type` and
/// `data` are ignored, as the adjacently-tagged decoding of the original
/// ignored them.
pub open spec fn decode_tagged_spec(v: JsonV) -> Option<SportExtraV> {
    match v {
        JsonV::Obj(fs) => {
            match (obj_get(fs, "type"@), obj_get(fs, "data"@)) {
                (Some(JsonV::Str(tag)), Some(data)) => {
                    if tag == "Swimming"@ {
                        match decode_swimming_spec(data) {
                            Some(sw) => Some(SportExtraV::Swimming(sw)),
                            None => None,
                        }
                    } else if tag == "Running"@ {
                        match decode_running_spec(data) {
                            Some(rn) => Some(SportExtraV::Running(rn)),
                            None => None,
                        }
                    } else {
                        None
                    }
                },
                _ => None,
            }
        },
        _ => None,
    }
}

/// The whole `extra` column: the tagged shape first (JSON `null` standing
/// for "no extra"), then the historical bare swimming shape; `None` when
/// every attempt fails or the column is empty.
pub open spec fn decode_extra_compat_spec(s: Seq<char>) -> Option<SportExtraV> {
    match json_of(s) {
        None => None,
        Some(v) => {
            if v is Null {
                None
            } else {
                extra_chain_spec(v)
            }
        },
    }
}

fn key_in(k: &str, keys: &Vec<&str>) -> (r: bool)
    ensures
        r == exists|j: int|
            0 <= j < keys@.len() && k@ == #[trigger] keys@[j]@,
{
    let mut j: usize = 0;
    while j < keys.len()
        invariant
            j <= keys@.len(),
            forall|jj: int| 0 <= jj < j ==> k@ != #[trigger] keys@[jj]@,
        decreases keys@.len() - j,
    {
        if crate::text::str_eq(k, keys[j]) {
            return true;
        }
        j += 1;
    }
    false
}

/// Whether every member key of `fs` occurs in `keys` (whose view is `ks`).
fn keys_among_exec(fs: &Vec<(String, JsonValue)>, keys: &Vec<&str>, Ghost(ks): Ghost<Seq<Seq<char>>>) -> (r: bool)
    requires
        ks.len() == keys@.len(),
        forall|j: int| 0 <= j < ks.len() ==> ks[j] == #[trigger] keys@[j]@,
    ensures
        r == keys_among(members_view(fs@), ks),
{
    let ghost m = members_view(fs@);
    let mut i: usize = 0;
    while i < fs.len()
        invariant
            i <= fs@.len(),
            m == members_view(fs@),
            ks.len() == keys@.len(),
            forall|j: int| 0 <= j < ks.len() ==> ks[j] == #[trigger] keys@[j]@,
            forall|k: int| 0 <= k < i ==> key_among(#[trigger] m[k].0, ks),
        decreases fs@.len() - i,
    {
        if !key_in(fs[i].0.as_str(), keys) {
            proof {
                let key_i = m[i as int].0;
                assert(key_i == fs@[i as int].0@);
                assert forall|j: int| 0 <= j < ks.len() implies key_i != #[trigger] ks[j] by {
                    assert(ks[j] == keys@[j]@);
                }
                assert(!key_among(m[i as int].0, ks));
                assert(!keys_among(m, ks));
            }
            return false;
        }
        proof {
            let key_i = m[i as int].0;
            let j = choose|j: int| 0 <= j < keys@.len() && fs@[i as int].0@ == #[trigger] keys@[j]@;
            assert(key_i == ks[j]);
            assert(key_among(m[i as int].0, ks));
        }
        i += 1;
    }
    true
}

/// Decodes the historical bare swimming object.
pub fn decode_swimming(v: &JsonValue) -> (r: Option<Swimming>)
    ensures
        match r {
            Some(sw) => decode_swimming_spec(v@) == Some(sw@),
            None => decode_swimming_spec(v@) is None,
        },
{
    match v {
        JsonValue::Obj(fs) => {
            let ghost m = members_view(fs@);
            proof {
                assert(v@ == JsonV::Obj(m));
            }
            let mut keys: Vec<&str> = Vec::new();
            keys.push("main_stroke");
            keys.push("stroke_avg");
            keys.push("swolf_avg");
            let ghost ks = seq!["main_stroke"@, "stroke_avg"@, "swolf_avg"@];
            if !keys_among_exec(fs, &keys, Ghost(ks)) {
                return None;
            }
            let ms: String = match lookup(fs, "main_stroke") {
                None => String::new(),
                Some(JsonValue::Str(s)) => s.clone(),
                Some(_) => {
                    return None;
                },
            };
            let sa: i32 = match get_i32(fs, "stroke_avg") {
                Ok(x) => x,
                Err(()) => {
                    return None;
                },
            };
            let sw: i32 = match get_i32(fs, "swolf_avg") {
                Ok(x) => x,
                Err(()) => {
                    return None;
                },
            };
            Some(Swimming { main_stroke: ms, stroke_avg: sa, swolf_avg: sw })
        },
        _ => None,
    }
}

/// An optional `i32` member with default 0; `Err` is a type error.
fn get_i32(fs: &Vec<(String, JsonValue)>, key: &str) -> (r: Result<i32, ()>)
    ensures
        match r {
            Ok(x) => field_i32(members_view(fs@), key@) == Some(x as int),
            Err(_) => field_i32(members_view(fs@), key@) is None,
        },
{
    match lookup(fs, key) {
        None => Ok(0),
        Some(JsonValue::Int(i)) => {
            let iv = *i;
            if -2147483648 <= iv && iv <= 2147483647 {
                Ok(iv as i32)
            } else {
                Err(())
            }
        },
        Some(_) => Err(()),
    }
}

/// A required `i32` member; `Err` when missing or mistyped.
fn get_req_i32(fs: &Vec<(String, JsonValue)>, key: &str) -> (r: Result<i32, ()>)
    ensures
        match r {
            Ok(x) => req_i32(members_view(fs@), key@) == Some(x as int),
            Err(_) => req_i32(members_view(fs@), key@) is None,
        },
{
    match lookup(fs, key) {
        Some(JsonValue::Int(i)) => {
            let iv = *i;
            if -2147483648 <= iv && iv <= 2147483647 {
                Ok(iv as i32)
            } else {
                Err(())
            }
        },
        _ => Err(()),
    }
}

/// A required string member; `Err` when missing or mistyped.
fn get_req_str(fs: &Vec<(String, JsonValue)>, key: &str) -> (r: Result<String, ()>)
    ensures
        match r {
            Ok(x) => req_str(members_view(fs@), key@) == Some(x@),
            Err(_) => req_str(members_view(fs@), key@) is None,
        },
{
    match lookup(fs, key) {
        Some(JsonValue::Str(s)) => Ok(s.clone()),
        _ => Err(()),
    }
}

/// A required numeric member, carried over as decimal text.
fn get_req_numtext(fs: &Vec<(String, JsonValue)>, key: &str) -> (r: Result<String, ()>)
    ensures
        match r {
            Ok(x) => req_numtext(members_view(fs@), key@) == Some(x@),
            Err(_) => req_numtext(members_view(fs@), key@) is None,
        },
{
    match lookup(fs, key) {
        Some(JsonValue::Int(i)) => Ok(crate::numtext::i64_to_string(*i)),
        Some(JsonValue::Num(t)) => Ok(t.clone()),
        _ => Err(()),
    }
}


/// Decodes the running object.
pub fn decode_running(v: &JsonValue) -> (r: Option<Running>)
    ensures
        match r {
            Some(rn) => decode_running_spec(v@) == Some(rn@),
            None => decode_running_spec(v@) is None,
        },
{
    match v {
        JsonValue::Obj(fs) => {
            let ghost m = members_view(fs@);
            proof {
                assert(v@ == JsonV::Obj(m));
            }
            let mut keys: Vec<&str> = Vec::new();
            keys.push("speed_avg");
            keys.push("cadence_avg");
            keys.push("stride_length_avg");
            keys.push("steps_total");
            keys.push("pace_min");
            keys.push("pace_max");
            let ghost ks = seq![
                "speed_avg"@,
                "cadence_avg"@,
                "stride_length_avg"@,
                "steps_total"@,
                "pace_min"@,
                "pace_max"@,
            ];
            if !keys_among_exec(fs, &keys, Ghost(ks)) {
                return None;
            }
            let sp = match get_req_numtext(fs, "speed_avg") {
                Ok(x) => x,
                Err(()) => {
                    return None;
                },
            };
            let ca = match get_req_i32(fs, "cadence_avg") {
                Ok(x) => x,
                Err(()) => {
                    return None;
                },
            };
            let st = match get_req_i32(fs, "stride_length_avg") {
                Ok(x) => x,
                Err(()) => {
                    return None;
                },
            };
            let tot = match get_req_i32(fs, "steps_total") {
                Ok(x) => x,
                Err(()) => {
                    return None;
                },
            };
            let pmin = match get_req_str(fs, "pace_min") {
                Ok(x) => x,
                Err(()) => {
                    return None;
                },
            };
            let pmax = match get_req_str(fs, "pace_max") {
                Ok(x) => x,
                Err(()) => {
                    return None;
                },
            };
            Some(
                Running {
                    speed_avg: sp,
                    cadence_avg: ca,
                    stride_length_avg: st,
                    steps_total: tot,
                    pace_min: pmin,
                    pace_max: pmax,
                },
            )
        },
        _ => None,
    }
}



/// Decodes the current tagged extra shape.
pub fn decode_tagged(v: &JsonValue) -> (r: Option<SportExtra>)
    ensures
        match r {
            Some(e) => decode_tagged_spec(v@) == Some(e@),
            None => decode_tagged_spec(v@) is None,
        },
{
    match v {
        JsonValue::Obj(fs) => {
            let ghost m = members_view(fs@);
            proof {
                assert(v@ == JsonV::Obj(m));
            }
            let tag: &JsonValue = match lookup(fs, "type") {
                Some(t) => t,
                None => {
                    return None;
                },
            };
            let data: &JsonValue = match lookup(fs, "data") {
                Some(d) => d,
                None => {
                    return None;
                },
            };
            match tag {
                JsonValue::Str(tg) => {
                    if crate::text::str_eq(tg.as_str(), "Swimming") {
                        match decode_swimming(data) {
                            Some(sw) => Some(SportExtra::Swimming(sw)),
                            None => None,
                        }
                    } else if crate::text::str_eq(tg.as_str(), "Running") {
                        match decode_running(data) {
                            Some(rn) => Some(SportExtra::Running(rn)),
                            None => None,
                        }
                    } else {
                        None
                    }
                },
                _ => None,
            }
        },
        _ => None,
    }
}

/// Decodes the persisted `extra` column with the fallback chain; a column
/// that no attempt can read degrades to `None`, never an error.
pub fn parse_extra_compat(extra_json: &str) -> (r: Option<SportExtra>)
    ensures
        match r {
            Some(e) => decode_extra_compat_spec(extra_json@) == Some(e@),
            None => decode_extra_compat_spec(extra_json@) is None,
        },
{
    match json_parse(extra_json) {
        None => None,
        Some(v) => {
            if let JsonValue::Null = &v {
                return None;
            }
            match decode_tagged(&v) {
                Some(e) => Some(e),
                None => match decode_swimming(&v) {
                    Some(sw) => Some(SportExtra::Swimming(sw)),
                    None => None,
                },
            }
        },
    }
}

/// The optional per-track extra in the current tagged shape: missing or
/// `null` means none; anything else must decode as the tagged union.
pub open spec fn opt_tagged_extra(fs: Seq<(Seq<char>, JsonV)>) -> Option<Option<SportExtraV>> {
    match obj_get(fs, "extra"@) {
        None => Some(None),
        Some(JsonV::Null) => Some(None),
        Some(e) => match decode_tagged_spec(e) {
            Some(x) => Some(Some(x)),
            None => None,
        },
    }
}

/// The optional per-track extra in the historical untagged shape: the
/// bare swimming shape is tried first, then the running shape.
pub open spec fn opt_untagged_extra(fs: Seq<(Seq<char>, JsonV)>) -> Option<Option<SportExtraV>> {
    match obj_get(fs, "extra"@) {
        None => Some(None),
        Some(JsonV::Null) => Some(None),
        Some(e) => match decode_swimming_spec(e) {
            Some(sw) => Some(Some(SportExtraV::Swimming(sw))),
            None => match decode_running_spec(e) {
                Some(rn) => Some(Some(SportExtraV::Running(rn))),
                None => None,
            },
        },
    }
}

/// One track in the current tagged shape: an object (unknown keys
/// ignored), numeric and string fields defaulting, the extra tagged.
pub open spec fn decode_db_track_spec(v: JsonV) -> Option<TrackV> {
    match v {
        JsonV::Obj(fs) => match (
            field_i32(fs, "distance_meter"@),
            field_i32(fs, "duration_second"@),
            field_str(fs, "pace_average"@),
            opt_tagged_extra(fs),
        ) {
            (Some(dm), Some(ds), Some(pa), Some(e)) => Some(
                TrackV { distance_meter: dm, duration_second: ds, pace_average: pa, extra: e },
            ),
            _ => None,
        },
        _ => None,
    }
}

/// One track in the historical canonical shape: as the tagged shape, but
/// with the untagged extra.
pub open spec fn decode_plain_track_spec(v: JsonV) -> Option<TrackV> {
    match v {
        JsonV::Obj(fs) => match (
            field_i32(fs, "distance_meter"@),
            field_i32(fs, "duration_second"@),
            field_str(fs, "pace_average"@),
            opt_untagged_extra(fs),
        ) {
            (Some(dm), Some(ds), Some(pa), Some(e)) => Some(
                TrackV { distance_meter: dm, duration_second: ds, pace_average: pa, extra: e },
            ),
            _ => None,
        },
        _ => None,
    }
}

/// A whole track list, every element decoding, in order.
pub open spec fn decode_track_list(es: Seq<JsonV>, tagged: bool) -> Option<Seq<TrackV>>
    decreases es.len(),
{
    if es.len() == 0 {
        Some(Seq::empty())
    } else {
        let head = decode_track_list(es.drop_last(), tagged);
        let last = if tagged {
            decode_db_track_spec(es.last())
        } else {
            decode_plain_track_spec(es.last())
        };
        match (head, last) {
            (Some(hs), Some(t)) => Some(hs.push(t)),
            _ => None,
        }
    }
}

/// The whole `tracks` column: the current tagged per-track shape first,
/// then the historical canonical shape; a column that neither attempt can
/// read degrades to the empty list, never an error.
pub open spec fn decode_tracks_compat_spec(s: Seq<char>) -> Seq<TrackV> {
    match json_of(s) {
        None => Seq::empty(),
        Some(v) => match v {
            JsonV::Arr(es) => match decode_track_list(es, true) {
                Some(ts) => ts,
                None => match decode_track_list(es, false) {
                    Some(ts) => ts,
                    None => Seq::empty(),
                },
            },
            _ => Seq::empty(),
        },
    }
}

/// Decodes one track element.
fn decode_track(v: &JsonValue, tagged: bool) -> (r: Option<Track>)
    ensures
        ({
            let spec = if tagged {
                decode_db_track_spec(v@)
            } else {
                decode_plain_track_spec(v@)
            };
            match r {
                Some(t) => spec == Some(t@),
                None => spec is None,
            }
        }),
{
    match v {
        JsonValue::Obj(fs) => {
            let ghost m = members_view(fs@);
            proof {
                assert(v@ == JsonV::Obj(m));
            }
            let dm = match get_i32(fs, "distance_meter") {
                Ok(x) => x,
                Err(()) => {
                    return None;
                },
            };
            let ds = match get_i32(fs, "duration_second") {
                Ok(x) => x,
                Err(()) => {
                    return None;
                },
            };
            let pa: String = match lookup(fs, "pace_average") {
                None => String::new(),
                Some(JsonValue::Str(t)) => t.clone(),
                Some(_) => {
                    return None;
                },
            };
            let extra: Option<SportExtra> = match lookup(fs, "extra") {
                None => None,
                Some(JsonValue::Null) => None,
                Some(e) => {
                    if tagged {
                        match decode_tagged(e) {
                            Some(x) => Some(x),
                            None => {
                                return None;
                            },
                        }
                    } else {
                        match decode_swimming(e) {
                            Some(sw) => Some(SportExtra::Swimming(sw)),
                            None => match decode_running(e) {
                                Some(rn) => Some(SportExtra::Running(rn)),
                                None => {
                                    return None;
                                },
                            },
                        }
                    }
                },
            };
            Some(Track { distance_meter: dm, duration_second: ds, pace_average: pa, extra })
        },
        _ => None,
    }
}

/// Decodes a whole track list of either shape.
fn decode_tracks(v: &JsonValue, tagged: bool) -> (r: Option<Vec<Track>>)
    ensures
        ({
            let spec = match v@ {
                JsonV::Arr(es) => decode_track_list(es, tagged),
                _ => None,
            };
            match r {
                Some(ts) => spec == Some(crate::model::tracks_view(ts@)),
                None => spec is None,
            }
        }),
{
    match v {
        JsonValue::Arr(es) => {
            let ghost ev = crate::json::elems_view(es@);
            proof {
                assert(v@ == JsonV::Arr(ev));
            }
            let mut out: Vec<Track> = Vec::new();
            let mut i: usize = 0;
            proof {
                assert(ev.take(0) =~= Seq::<JsonV>::empty());
                assert(crate::model::tracks_view(out@) =~= Seq::<TrackV>::empty());
            }
            while i < es.len()
                invariant
                    i <= es@.len(),
                    ev == crate::json::elems_view(es@),
                    v@ == JsonV::Arr(ev),
                    out@.len() == i,
                    decode_track_list(ev.take(i as int), tagged) == Some(
                        crate::model::tracks_view(out@),
                    ),
                decreases es@.len() - i,
            {
                let t = match decode_track(&es[i], tagged) {
                    Some(t) => t,
                    None => {
                        proof {
                            assert(ev[i as int] == es@[i as int]@);
                            lemma_track_list_bad(ev, i as int, tagged);
                        }
                        return None;
                    },
                };
                proof {
                    assert(ev.take(i + 1).drop_last() =~= ev.take(i as int));
                    assert(ev.take(i + 1).last() == ev[i as int]);
                    assert(ev[i as int] == es@[i as int]@);
                    assert(crate::model::tracks_view(out@.push(t)) =~= crate::model::tracks_view(
                        out@,
                    ).push(t@));
                }
                out.push(t);
                i += 1;
            }
            proof {
                assert(ev.take(i as int) =~= ev);
            }
            Some(out)
        },
        _ => None,
    }
}

/// A list with one undecodable element fails as a whole.
proof fn lemma_track_list_bad(es: Seq<JsonV>, i: int, tagged: bool)
    requires
        0 <= i < es.len(),
        (if tagged {
            decode_db_track_spec(es[i])
        } else {
            decode_plain_track_spec(es[i])
        }) is None,
    ensures
        decode_track_list(es, tagged) is None,
    decreases es.len(),
{
    if es.len() > 0 {
        if i == es.len() - 1 {
        } else {
            lemma_track_list_bad(es.drop_last(), i, tagged);
        }
    }
}

/// Decodes the persisted `tracks` column with the fallback chain; a
/// column that no attempt can read degrades to the empty list.
pub fn parse_tracks_compat(tracks_json: &str) -> (r: Vec<Track>)
    ensures
        crate::model::tracks_view(r@) == decode_tracks_compat_spec(tracks_json@),
{
    let empty_tracks: Vec<Track> = Vec::new();
    proof {
        assert(crate::model::tracks_view(empty_tracks@) =~= Seq::<TrackV>::empty());
    }
    match json_parse(tracks_json) {
        None => empty_tracks,
        Some(v) => {
            match &v {
                JsonValue::Arr(_) => {},
                _ => {
                    return empty_tracks;
                },
            }
            match decode_tracks(&v, true) {
                Some(ts) => ts,
                None => match decode_tracks(&v, false) {
                    Some(ts) => ts,
                    None => empty_tracks,
                },
            }
        },
    }
}

/// Wrapping a bare swimming object as the current tagged shape decodes,
/// through the whole fallback chain, to exactly what the bare historical
/// shape decodes to: the two encodings of one swimming extra are
/// equivalent.
pub proof fn lemma_legacy_shapes_equivalent(data: JsonV)
    requires
        decode_swimming_spec(data) is Some,
    ensures
        extra_chain_spec(JsonV::Obj(seq![("type"@, JsonV::Str("Swimming"@)), ("data"@, data)]))
            == extra_chain_spec(data),
{
    reveal_strlit("type");
    reveal_strlit("data");
    reveal_strlit("main_stroke");
    reveal_strlit("stroke_avg");
    reveal_strlit("swolf_avg");
    reveal_strlit("Swimming");
    reveal_strlit("Running");
    let fs = seq![("type"@, JsonV::Str("Swimming"@)), ("data"@, data)];
    let tagged = JsonV::Obj(fs);
    let sw = decode_swimming_spec(data)->Some_0;
    // the tagged wrapper decodes by the tagged attempt
    assert("type"@ != "data"@) by {
        assert("type"@[0] == 't');
        assert("data"@[0] == 'd');
    }
    assert(obj_get(fs, "type"@) == Some(JsonV::Str("Swimming"@)));
    assert(fs.drop_first().len() == 1);
    assert(fs.drop_first()[0] == fs[1]);
    assert(obj_get(fs.drop_first(), "data"@) == Some(data));
    assert(obj_get(fs, "data"@) == Some(data));
    assert(decode_tagged_spec(tagged) == Some(SportExtraV::Swimming(sw)));
    // the bare object never decodes by the tagged attempt: an object of
    // swimming keys has no "type" member
    let dfs = data->Obj_0;
    let allowed = seq!["main_stroke"@, "stroke_avg"@, "swolf_avg"@];
    assert(allowed[0] != "type"@) by {
        assert(allowed[0].len() == 11);
        assert("type"@.len() == 4);
    }
    assert(allowed[1] != "type"@) by {
        assert(allowed[1].len() == 10);
    }
    assert(allowed[2] != "type"@) by {
        assert(allowed[2].len() == 9);
    }
    assert forall|j: int| 0 <= j < allowed.len() implies allowed[j] != "type"@ by {
        if j == 0 {
        } else if j == 1 {
        } else {
        }
    }
    assert(obj_get(dfs, "type"@) is None) by {
        lemma_no_such_key(dfs, "type"@, allowed);
    }
    assert(decode_tagged_spec(data) is None);
}

/// An object whose keys all lie in `allowed` has no member named `key`
/// when `key` is not one of `allowed`.
proof fn lemma_no_such_key(fs: Seq<(Seq<char>, JsonV)>, key: Seq<char>, allowed: Seq<Seq<char>>)
    requires
        keys_among(fs, allowed),
        forall|j: int| 0 <= j < allowed.len() ==> allowed[j] != key,
    ensures
        obj_get(fs, key) is None,
    decreases fs.len(),
{
    if fs.len() > 0 {
        assert(key_among(fs[0].0, allowed));
        assert(fs[0].0 != key);
        assert(keys_among(fs.drop_first(), allowed)) by {
            assert forall|i: int| 0 <= i < fs.drop_first().len() implies key_among(
                #[trigger] fs.drop_first()[i].0,
                allowed,
            ) by {
                assert(fs.drop_first()[i] == fs[i + 1]);
            }
        }
        lemma_no_such_key(fs.drop_first(), key, allowed);
    }
}

/// The non-empty decoding chain for the `extra` column, shared by the
/// equivalence law above.
pub open spec fn extra_chain_spec(v: JsonV) -> Option<SportExtraV> {
    match decode_tagged_spec(v) {
        Some(e) => Some(e),
        None => match decode_swimming_spec(v) {
            Some(sw) => Some(SportExtraV::Swimming(sw)),
            None => None,
        },
    }
}

} // verus!
