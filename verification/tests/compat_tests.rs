use slam_core::compat::{parse_extra_compat, parse_tracks_compat};
use slam_core::model::SportExtra;

// P-law at the value level: a tagged extra and its bare historical
// equivalent decode to the same value
#[test]
fn tagged_and_untagged_extra_decode_alike() {
    let tagged = r#"{"type":"Swimming","data":{"main_stroke":"freestyle","stroke_avg":20,"swolf_avg":80}}"#;
    let bare = r#"{"main_stroke":"freestyle","stroke_avg":20,"swolf_avg":80}"#;
    let a = parse_extra_compat(tagged).expect("tagged decodes");
    let b = parse_extra_compat(bare).expect("bare decodes");
    match (a, b) {
        (SportExtra::Swimming(x), SportExtra::Swimming(y)) => {
            assert_eq!(x.main_stroke, y.main_stroke);
            assert_eq!(x.stroke_avg, y.stroke_avg);
            assert_eq!(x.swolf_avg, y.swolf_avg);
        }
        _ => panic!("wrong variants"),
    }
}

#[test]
fn tagged_running_extra_decodes() {
    let tagged = r#"{"type":"Running","data":{"speed_avg":9.26,"cadence_avg":164,"stride_length_avg":94,"steps_total":5122,"pace_min":"6'08''","pace_max":"6'22''"}}"#;
    match parse_extra_compat(tagged) {
        Some(SportExtra::Running(r)) => {
            assert_eq!(r.speed_avg, "9.26");
            assert_eq!(r.cadence_avg, 164);
            assert_eq!(r.stride_length_avg, 94);
            assert_eq!(r.steps_total, 5122);
            assert_eq!(r.pace_min, "6'08''");
            assert_eq!(r.pace_max, "6'22''");
        }
        _ => panic!("running extra should decode"),
    }
}

#[test]
fn bare_swimming_defaults_missing_fields() {
    match parse_extra_compat(r#"{"main_stroke":"butterfly"}"#) {
        Some(SportExtra::Swimming(s)) => {
            assert_eq!(s.main_stroke, "butterfly");
            assert_eq!(s.stroke_avg, 0);
            assert_eq!(s.swolf_avg, 0);
        }
        _ => panic!("bare swimming should decode"),
    }
}

// decode failures degrade to no extra data, never an error
#[test]
fn unreadable_extra_degrades_to_none() {
    assert!(parse_extra_compat("").is_none());
    assert!(parse_extra_compat("   ").is_none());
    assert!(parse_extra_compat("null").is_none());
    assert!(parse_extra_compat("{broken").is_none());
    assert!(parse_extra_compat(r#"{"type":"Cycling","data":{}}"#).is_none());
    assert!(parse_extra_compat(r#"{"main_stroke":"x","unexpected":1}"#).is_none());
    assert!(parse_extra_compat(r#"{"main_stroke":7}"#).is_none());
}

#[test]
fn tracks_decode_current_tagged_format() {
    let tracks = r#"[{"distance_meter":25,"duration_second":30,"pace_average":"4'00''",
        "extra":{"type":"Swimming","data":{"main_stroke":"freestyle","stroke_avg":20,"swolf_avg":80}}}]"#;
    let ts = parse_tracks_compat(tracks);
    assert_eq!(ts.len(), 1);
    assert_eq!(ts[0].distance_meter, 25);
    assert_eq!(ts[0].duration_second, 30);
    assert_eq!(ts[0].pace_average, "4'00''");
    match &ts[0].extra {
        Some(SportExtra::Swimming(s)) => assert_eq!(s.main_stroke, "freestyle"),
        _ => panic!("track extra should decode"),
    }
}

#[test]
fn tracks_fall_back_to_historical_untagged_format() {
    let tracks = r#"[{"distance_meter":25,"duration_second":30,"pace_average":"4'00''",
        "extra":{"main_stroke":"freestyle","stroke_avg":20,"swolf_avg":80}},
        {"distance_meter":25,"duration_second":40,"pace_average":"4'00''"}]"#;
    let ts = parse_tracks_compat(tracks);
    assert_eq!(ts.len(), 2);
    match &ts[0].extra {
        Some(SportExtra::Swimming(s)) => assert_eq!(s.swolf_avg, 80),
        _ => panic!("untagged track extra should decode"),
    }
    assert!(ts[1].extra.is_none());
}

#[test]
fn unreadable_tracks_degrade_to_empty() {
    assert_eq!(parse_tracks_compat("").len(), 0);
    assert_eq!(parse_tracks_compat("null").len(), 0);
    assert_eq!(parse_tracks_compat("{}").len(), 0);
    assert_eq!(parse_tracks_compat("[{\"distance_meter\":\"oops\"}]").len(), 0);
    assert_eq!(parse_tracks_compat("[]").len(), 0);
}

// unknown members beside the tag pair are ignored, as the tagged
// decoding always did; the data object keeps its strict keys
#[test]
fn tagged_extra_ignores_unknown_outer_members() {
    let tagged = r#"{"type":"Swimming","data":{"main_stroke":"freestyle","stroke_avg":20,"swolf_avg":80},"schema":2}"#;
    match parse_extra_compat(tagged) {
        Some(SportExtra::Swimming(s)) => {
            assert_eq!(s.main_stroke, "freestyle");
            assert_eq!(s.stroke_avg, 20);
            assert_eq!(s.swolf_avg, 80);
        }
        _ => panic!("tagged extra with an unknown outer member should decode"),
    }
    let bad_data = r#"{"type":"Swimming","data":{"main_stroke":"freestyle","other":1},"schema":2}"#;
    assert!(parse_extra_compat(bad_data).is_none());
}
