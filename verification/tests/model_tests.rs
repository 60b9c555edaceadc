use chrono::{Local, NaiveDateTime, TimeZone};
use slam_core::ai::{SAMPLE_XML_RUNNING, SAMPLE_XML_SWIMMING};
use slam_core::calendar::{format_timestamp, parse_timestamp};
use slam_core::kind::SportType;
use slam_core::model::{normalize_stroke, Sport, SportExtra, Swimming, Track};
use slam_core::xml::parse_sport_xml;

#[test]
fn test_parse_sample_swim() {
    let sport = Sport::parse_from_xml(SAMPLE_XML_SWIMMING).expect("parse_sample_swim 应该成功");

    assert_eq!(sport.kind, SportType::Swimming);
    let ndt = NaiveDateTime::parse_from_str("2025-11-05 20:02:00", "%Y-%m-%d %H:%M:%S").unwrap();
    let expected = Local.from_local_datetime(&ndt).earliest().unwrap().timestamp();
    assert_eq!(sport.start_time, expected);
    assert_eq!(sport.calories, 200);
    assert_eq!(sport.distance_meter, 1000);
    assert_eq!(sport.duration_second, 600);
    assert_eq!(sport.heart_rate_avg, 120);
    assert_eq!(sport.heart_rate_max, 150);

    let swim = match sport.extra {
        Some(SportExtra::Swimming(s)) => s,
        _ => panic!("extra 类型错误"),
    };
    assert_eq!(swim.stroke_avg, 20);
    assert_eq!(swim.swolf_avg, 80);

    assert_eq!(sport.id, 0);

    assert_eq!(sport.tracks.len(), 2);

    let t1 = &sport.tracks[0];
    assert_eq!(t1.distance_meter, 25);
    assert_eq!(t1.duration_second, 30);
    assert_eq!(t1.pace_average, "4'00''");
    let t1e = match &t1.extra {
        Some(SportExtra::Swimming(s)) => s,
        _ => panic!("track extra 类型错误"),
    };
    assert_eq!(t1e.main_stroke, "freestyle");
    assert_eq!(t1e.stroke_avg, 20);
    assert_eq!(t1e.swolf_avg, 80);

    let t2 = &sport.tracks[1];
    assert_eq!(t2.distance_meter, 25);
    assert_eq!(t2.duration_second, 40);
    assert_eq!(t2.pace_average, "4'00''");
    let t2e = match &t2.extra {
        Some(SportExtra::Swimming(s)) => s,
        _ => panic!("track extra 类型错误"),
    };
    assert_eq!(t2e.main_stroke, "freestyle");
    assert_eq!(t2e.stroke_avg, 20);
    assert_eq!(t2e.swolf_avg, 80);
}

#[test]
fn test_parse_sample_running() {
    let sport = Sport::parse_from_xml(SAMPLE_XML_RUNNING).expect("parse_sample_running 应该成功");
    assert_eq!(sport.kind, SportType::Running);
    assert_eq!(sport.distance_meter, 4820);
    assert_eq!(sport.duration_second, 1872);
    let run = match sport.extra {
        Some(SportExtra::Running(r)) => r,
        _ => panic!("extra 类型错误"),
    };
    assert_eq!(run.cadence_avg, 164);
    assert_eq!(run.steps_total, 5122);
    assert_eq!(sport.tracks.len(), 5);
    assert_eq!(sport.tracks[0].distance_meter, 1000);
    assert_eq!(sport.tracks[0].duration_second, 377);
}

fn swimming_record(start_time: i64) -> Sport {
    Sport {
        id: 0,
        kind: SportType::Swimming,
        start_time,
        calories: 200,
        distance_meter: 1000,
        duration_second: 600,
        heart_rate_avg: 120,
        heart_rate_max: 150,
        pace_average: "3'59''".to_string(),
        extra: Some(SportExtra::Swimming(Swimming {
            main_stroke: "freestyle".to_string(),
            stroke_avg: 20,
            swolf_avg: 80,
        })),
        tracks: vec![
            Track {
                distance_meter: 25,
                duration_second: 30,
                pace_average: "4'00''".to_string(),
                extra: Some(SportExtra::Swimming(Swimming {
                    main_stroke: "freestyle".to_string(),
                    stroke_avg: 20,
                    swolf_avg: 80,
                })),
            },
            Track {
                distance_meter: 25,
                duration_second: 40,
                pace_average: "4'00''".to_string(),
                extra: Some(SportExtra::Swimming(Swimming {
                    main_stroke: "freestyle".to_string(),
                    stroke_avg: 20,
                    swolf_avg: 80,
                })),
            },
        ],
    }
}

#[test]
fn test_serialize_sport_to_xml() {
    let mut sport = swimming_record(1694560000);
    sport.id = 1;
    let xml = sport.to_xml();
    println!("{}", xml);
    assert!(!xml.is_empty());
}

#[test]
fn test_serialize_running_to_xml() {
    let sport = Sport {
        id: 2,
        kind: SportType::Running,
        start_time: 1694560000,
        calories: 291,
        distance_meter: 4820,
        duration_second: 1872,
        heart_rate_avg: 158,
        heart_rate_max: 172,
        pace_average: "6'29''".to_string(),
        extra: Some(SportExtra::Running(slam_core::model::Running {
            speed_avg: "9.26".to_string(),
            cadence_avg: 164,
            stride_length_avg: 94,
            steps_total: 5122,
            pace_min: "6'08''".to_string(),
            pace_max: "6'22''".to_string(),
        })),
        tracks: vec![Track {
            distance_meter: 1000,
            duration_second: 377,
            pace_average: "6'17''".to_string(),
            extra: None,
        }],
    };
    let xml = sport.to_xml();
    assert!(!xml.is_empty());
}

#[test]
fn test_parse_timestamp_local_full() {
    let s = "2025-11-6 10:22:00";
    let ts = parse_timestamp(s).expect("parse should succeed");
    let ndt = NaiveDateTime::parse_from_str(s, "%Y-%m-%d %H:%M:%S").expect("format ok");
    let expected = Local
        .from_local_datetime(&ndt)
        .earliest()
        .expect("local mapping should exist")
        .timestamp();
    println!("parsed timestamp: {}", ts);
    assert_eq!(ts, expected);
}

fn assert_sports_equal(a: &Sport, b: &Sport) {
    assert_eq!(a.id, b.id);
    assert_eq!(a.kind, b.kind);
    assert_eq!(a.start_time, b.start_time);
    assert_eq!(a.calories, b.calories);
    assert_eq!(a.distance_meter, b.distance_meter);
    assert_eq!(a.duration_second, b.duration_second);
    assert_eq!(a.heart_rate_avg, b.heart_rate_avg);
    assert_eq!(a.heart_rate_max, b.heart_rate_max);
    assert_eq!(a.pace_average, b.pace_average);
    match (&a.extra, &b.extra) {
        (None, None) => {}
        (Some(SportExtra::Swimming(x)), Some(SportExtra::Swimming(y))) => {
            assert_eq!(x.main_stroke, y.main_stroke);
            assert_eq!(x.stroke_avg, y.stroke_avg);
            assert_eq!(x.swolf_avg, y.swolf_avg);
        }
        (Some(SportExtra::Running(x)), Some(SportExtra::Running(y))) => {
            assert_eq!(x.speed_avg, y.speed_avg);
            assert_eq!(x.cadence_avg, y.cadence_avg);
            assert_eq!(x.stride_length_avg, y.stride_length_avg);
            assert_eq!(x.steps_total, y.steps_total);
            assert_eq!(x.pace_min, y.pace_min);
            assert_eq!(x.pace_max, y.pace_max);
        }
        _ => panic!("extra variants differ"),
    }
    assert_eq!(a.tracks.len(), b.tracks.len());
    for (ta, tb) in a.tracks.iter().zip(b.tracks.iter()) {
        assert_eq!(ta.distance_meter, tb.distance_meter);
        assert_eq!(ta.duration_second, tb.duration_second);
        assert_eq!(ta.pace_average, tb.pace_average);
        match (&ta.extra, &tb.extra) {
            (None, None) => {}
            (Some(SportExtra::Swimming(x)), Some(SportExtra::Swimming(y))) => {
                assert_eq!(x.main_stroke, y.main_stroke);
                assert_eq!(x.stroke_avg, y.stroke_avg);
                assert_eq!(x.swolf_avg, y.swolf_avg);
            }
            _ => panic!("track extra variants differ"),
        }
    }
}

// printing a record and parsing the document back yields the same record
// in every field: the start time is printed at full civil precision,
// which the parser's timestamp grammar accepts back
#[test]
fn xml_round_trip_keeps_every_field() {
    let sport = swimming_record(1694560000);
    let reparsed = Sport::parse_from_xml(&sport.to_xml()).expect("printed record parses back");
    assert_sports_equal(&reparsed, &sport);
}

#[test]
fn xml_round_trip_from_sample() {
    let sport = Sport::parse_from_xml(SAMPLE_XML_SWIMMING).expect("sample parses");
    let reparsed = Sport::parse_from_xml(&sport.to_xml()).expect("printed document parses");
    assert_sports_equal(&reparsed, &sport);
}

#[test]
fn xml_round_trip_running_record() {
    let sport = Sport::parse_from_xml(SAMPLE_XML_RUNNING).expect("sample parses");
    let reparsed = Sport::parse_from_xml(&sport.to_xml()).expect("printed document parses");
    assert_sports_equal(&reparsed, &sport);
}

// the printer with a caller-chosen start text carries the text verbatim
#[test]
fn xml_printer_keeps_given_start_text() {
    let sport = swimming_record(1694560000);
    let xml = sport.to_xml_with_start("2025-01-02 03:04:05");
    let raw = parse_sport_xml(&xml).expect("document parses");
    assert_eq!(raw.start_time, "2025-01-02 03:04:05");
    assert_eq!(raw.calories, 200);
    assert_eq!(raw.tracks.len(), 2);
}

// escaped text survives the print/parse cycle
#[test]
fn xml_escaping_round_trip() {
    let mut sport = swimming_record(1694560000);
    sport.pace_average = "a<b&c>d".to_string();
    sport.tracks.clear();
    sport.extra = None;
    let xml = sport.to_xml();
    assert!(xml.contains("a&lt;b&amp;c&gt;d"));
    let raw = parse_sport_xml(&xml).expect("escaped document parses");
    assert_eq!(raw.pace_average, "a<b&c>d");
}

// the four accepted timestamp shapes parse, and re-formatting with full
// precision and re-parsing gives the same epoch second
#[test]
fn timestamp_formats_round_trip() {
    for s in [
        "2025-11-06 10:22:33",
        "2025-11-06 10:22",
        "2025-11-06 10",
        "2025-11-06",
    ] {
        let ts = parse_timestamp(s).expect("format accepted");
        let full = format_timestamp(ts).expect("formats back");
        let ts2 = parse_timestamp(&full).expect("full form accepted");
        assert_eq!(ts, ts2, "round trip for {}", s);
    }
}

#[test]
fn timestamp_rejects_other_shapes() {
    for s in ["", "2025", "2025-13-01", "2025-02-30", "12:00:00", "2025-11-06T10:22:33"] {
        assert!(parse_timestamp(s).is_err(), "{} should be rejected", s);
    }
}

#[test]
fn stroke_normalization_vocabulary() {
    assert_eq!(normalize_stroke("Freestyle"), "freestyle");
    assert_eq!(normalize_stroke("自由泳"), "freestyle");
    assert_eq!(normalize_stroke("MIXED"), "medley");
    assert_eq!(normalize_stroke("混合泳"), "medley");
    assert_eq!(normalize_stroke("Butterfly"), "butterfly");
    assert_eq!(normalize_stroke("蝶泳"), "butterfly");
    assert_eq!(normalize_stroke("BREASTstroke"), "breaststroke");
    assert_eq!(normalize_stroke("蛙泳"), "breaststroke");
    assert_eq!(normalize_stroke("backstroke"), "backstroke");
    assert_eq!(normalize_stroke("仰泳"), "backstroke");
    assert_eq!(normalize_stroke("whatever"), "unknown");
    assert_eq!(normalize_stroke(""), "unknown");
}

#[test]
fn stroke_normalization_is_idempotent_on_outputs() {
    for s in ["Mixed", "free", "FLY", "breast", "back", "??", "medley"] {
        let once = normalize_stroke(s);
        assert_eq!(normalize_stroke(&once), once);
    }
}

#[test]
fn kind_decoding_is_case_insensitive_and_total() {
    assert_eq!(SportType::from_str("swimming"), SportType::Swimming);
    assert_eq!(SportType::from_str("SWIMMING"), SportType::Swimming);
    assert_eq!(SportType::from_str("Running"), SportType::Running);
    assert_eq!(SportType::from_str("cYcLiNg"), SportType::Cycling);
    assert_eq!(SportType::from_str("rowing"), SportType::Unknown);
    assert_eq!(SportType::from_str(""), SportType::Unknown);
    for k in [SportType::Unknown, SportType::Swimming, SportType::Running, SportType::Cycling] {
        assert_eq!(SportType::from_str(k.as_str()), k);
    }
}

#[test]
fn kind_of_extra_must_match() {
    let mut sport = swimming_record(0);
    assert!(sport.validate_type_consistency().is_ok());
    sport.kind = SportType::Cycling;
    assert!(sport.validate_type_consistency().is_err());
}

#[test]
fn xml_missing_required_field_is_an_error() {
    // no calories element
    let xml = "<sport><type>Swimming</type><start_time>2025-11-05 20:02:00</start_time>\
               <distance_meter>5</distance_meter><duration_second>6</duration_second>\
               <heart_rate_avg>7</heart_rate_avg><heart_rate_max>8</heart_rate_max></sport>";
    assert!(Sport::parse_from_xml(xml).is_err());
    assert!(Sport::parse_from_xml("not xml at all").is_err());
    assert!(Sport::parse_from_xml("<sport><type>Swimming</type>").is_err());
}

#[test]
fn xml_unknown_kind_text_decodes_to_unknown() {
    let xml = "<sport><type>Skating</type><start_time>2025-11-05</start_time>\
               <calories>1</calories><distance_meter>2</distance_meter>\
               <duration_second>3</duration_second><heart_rate_avg>4</heart_rate_avg>\
               <heart_rate_max>5</heart_rate_max><extra><main_stroke>free</main_stroke></extra></sport>";
    let sport = Sport::parse_from_xml(xml).expect("parses");
    assert_eq!(sport.kind, SportType::Unknown);
    // an unsupported kind discards the extra block entirely
    assert!(sport.extra.is_none());
}

// a leading declaration and comments around the root element are skipped
#[test]
fn xml_prolog_and_comments_are_skipped() {
    let sport = swimming_record(1694560000);
    let xml = format!(
        "<?xml version=\"1.0\" encoding=\"UTF-8\"?>\n<!-- exported record -->\n{}\n<!-- end of document -->\n",
        sport.to_xml_with_start("2025-01-02 03:04:05")
    );
    let raw = parse_sport_xml(&xml).expect("decorated document parses");
    assert_eq!(raw.start_time, "2025-01-02 03:04:05");
    assert_eq!(raw.calories, 200);
    assert_eq!(raw.tracks.len(), 2);
}
