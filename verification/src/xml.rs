//! The XML ingestion wire shape and its parser and printer.
//!
//! The upstream recognizer produces a `sport` document whose fields may
//! all be missing or unpadded; this module parses that shape into the raw
//! intermediate form and resolves it into a canonical record, and prints
//! a record back into the same shape. The grammar is the element subset
//! the wire shape uses: named elements, text content with the five
//! standard entities, and whitespace between elements.
use vstd::prelude::*;

use crate::kind::{kind_from_chars, kind_name, SportType};
use crate::model::{
    normalize_stroke_spec, Running, RunningV, Sport, SportExtra, SportExtraV, SportV, Swimming,
    SwimmingV, Track, TrackV,
};
use crate::numtext::{int_chars, parse_int_spec};

verus! {

/// Mathematical view of `XMLSportExtra`.
pub ghost struct XMLExtraV {
    pub main_stroke: Option<Seq<char>>,
    pub stroke_avg: Option<int>,
    pub swolf_avg: Option<int>,
    pub speed_avg: Option<Seq<char>>,
    pub cadence_avg: Option<int>,
    pub stride_length_avg: Option<int>,
    pub steps_total: Option<int>,
    pub pace_min: Option<Seq<char>>,
    pub pace_max: Option<Seq<char>>,
}

/// The raw extra block: a superset of the fields of both variants, all
/// optional — the recognizer may omit anything.
pub struct XMLSportExtra {
    pub main_stroke: Option<String>,
    pub stroke_avg: Option<i32>,
    pub swolf_avg: Option<i32>,
    pub speed_avg: Option<String>,
    pub cadence_avg: Option<i32>,
    pub stride_length_avg: Option<i32>,
    pub steps_total: Option<i32>,
    pub pace_min: Option<String>,
    pub pace_max: Option<String>,
}

pub open spec fn opt_text(o: Option<String>) -> Option<Seq<char>> {
    match o {
        None => None,
        Some(s) => Some(s@),
    }
}

pub open spec fn opt_int(o: Option<i32>) -> Option<int> {
    match o {
        None => None,
        Some(v) => Some(v as int),
    }
}

impl View for XMLSportExtra {
    type V = XMLExtraV;

    open spec fn view(&self) -> XMLExtraV {
        XMLExtraV {
            main_stroke: opt_text(self.main_stroke),
            stroke_avg: opt_int(self.stroke_avg),
            swolf_avg: opt_int(self.swolf_avg),
            speed_avg: opt_text(self.speed_avg),
            cadence_avg: opt_int(self.cadence_avg),
            stride_length_avg: opt_int(self.stride_length_avg),
            steps_total: opt_int(self.steps_total),
            pace_min: opt_text(self.pace_min),
            pace_max: opt_text(self.pace_max),
        }
    }
}

pub open spec fn empty_extra() -> XMLExtraV {
    XMLExtraV {
        main_stroke: None,
        stroke_avg: None,
        swolf_avg: None,
        speed_avg: None,
        cadence_avg: None,
        stride_length_avg: None,
        steps_total: None,
        pace_min: None,
        pace_max: None,
    }
}

/// Mathematical view of `XMLSportTrack`.
pub ghost struct XMLTrackV {
    pub distance_meter: int,
    pub duration_second: int,
    pub pace_average: Seq<char>,
    pub extra: Option<XMLExtraV>,
}

/// One raw track element; absent fields default.
pub struct XMLSportTrack {
    pub distance_meter: i32,
    pub duration_second: i32,
    pub pace_average: String,
    pub extra: Option<XMLSportExtra>,
}

pub open spec fn opt_extra_view(o: Option<XMLSportExtra>) -> Option<XMLExtraV> {
    match o {
        None => None,
        Some(e) => Some(e@),
    }
}

impl View for XMLSportTrack {
    type V = XMLTrackV;

    open spec fn view(&self) -> XMLTrackV {
        XMLTrackV {
            distance_meter: self.distance_meter as int,
            duration_second: self.duration_second as int,
            pace_average: self.pace_average@,
            extra: opt_extra_view(self.extra),
        }
    }
}

pub open spec fn empty_track() -> XMLTrackV {
    XMLTrackV { distance_meter: 0, duration_second: 0, pace_average: Seq::empty(), extra: None }
}

/// Mathematical view of `SportXML`.
pub ghost struct SportXMLV {
    pub kind: SportType,
    pub start_time: Seq<char>,
    pub calories: int,
    pub distance_meter: int,
    pub duration_second: int,
    pub heart_rate_avg: int,
    pub heart_rate_max: int,
    pub pace_average: Seq<char>,
    pub extra: Option<XMLExtraV>,
    pub tracks: Seq<XMLTrackV>,
}

/// The raw document shape after parsing, before resolution into the
/// canonical record.
pub struct SportXML {
    pub kind: SportType,
    pub start_time: String,
    pub calories: i32,
    pub distance_meter: i32,
    pub duration_second: i32,
    pub heart_rate_avg: i32,
    pub heart_rate_max: i32,
    pub pace_average: String,
    pub extra: Option<XMLSportExtra>,
    pub tracks: Vec<XMLSportTrack>,
}

pub open spec fn xml_tracks_view(ts: Seq<XMLSportTrack>) -> Seq<XMLTrackV> {
    Seq::new(ts.len(), |i: int| ts[i]@)
}

impl View for SportXML {
    type V = SportXMLV;

    open spec fn view(&self) -> SportXMLV {
        SportXMLV {
            kind: self.kind,
            start_time: self.start_time@,
            calories: self.calories as int,
            distance_meter: self.distance_meter as int,
            duration_second: self.duration_second as int,
            heart_rate_avg: self.heart_rate_avg as int,
            heart_rate_max: self.heart_rate_max as int,
            pace_average: self.pace_average@,
            extra: opt_extra_view(self.extra),
            tracks: xml_tracks_view(self.tracks@),
        }
    }
}

/// Mathematical view of the document accumulator: required fields keep
/// their presence.
pub ghost struct RawAccV {
    pub type_txt: Option<Seq<char>>,
    pub start_time: Option<Seq<char>>,
    pub calories: Option<int>,
    pub distance_meter: Option<int>,
    pub duration_second: Option<int>,
    pub heart_rate_avg: Option<int>,
    pub heart_rate_max: Option<int>,
    pub pace_average: Option<Seq<char>>,
    pub extra: Option<XMLExtraV>,
    pub tracks: Seq<XMLTrackV>,
}

pub open spec fn empty_acc() -> RawAccV {
    RawAccV {
        type_txt: None,
        start_time: None,
        calories: None,
        distance_meter: None,
        duration_second: None,
        heart_rate_avg: None,
        heart_rate_max: None,
        pace_average: None,
        extra: None,
        tracks: Seq::empty(),
    }
}

/// A numeric field's value: the trimmed text as an `i32`-ranged decimal.
pub open spec fn parse_i32_field(txt: Seq<char>) -> Option<int> {
    match parse_int_spec(trim_spec(txt)) {
        Some(n) => if -0x8000_0000 <= n <= 0x7FFF_FFFF {
            Some(n)
        } else {
            None
        },
        None => None,
    }
}

/// One field assignment inside an extra block; an unknown name is
/// ignored, a malformed number fails the document.
pub open spec fn set_extra_field(e: XMLExtraV, name: Seq<char>, txt: Seq<char>) -> Option<
    XMLExtraV,
> {
    if name == "main_stroke"@ {
        Some(XMLExtraV { main_stroke: Some(txt), ..e })
    } else if name == "stroke_avg"@ {
        match parse_i32_field(txt) {
            Some(v) => Some(XMLExtraV { stroke_avg: Some(v), ..e }),
            None => None,
        }
    } else if name == "swolf_avg"@ {
        match parse_i32_field(txt) {
            Some(v) => Some(XMLExtraV { swolf_avg: Some(v), ..e }),
            None => None,
        }
    } else if name == "speed_avg"@ {
        Some(XMLExtraV { speed_avg: Some(trim_spec(txt)), ..e })
    } else if name == "cadence_avg"@ {
        match parse_i32_field(txt) {
            Some(v) => Some(XMLExtraV { cadence_avg: Some(v), ..e }),
            None => None,
        }
    } else if name == "stride_length_avg"@ {
        match parse_i32_field(txt) {
            Some(v) => Some(XMLExtraV { stride_length_avg: Some(v), ..e }),
            None => None,
        }
    } else if name == "steps_total"@ {
        match parse_i32_field(txt) {
            Some(v) => Some(XMLExtraV { steps_total: Some(v), ..e }),
            None => None,
        }
    } else if name == "pace_min"@ {
        Some(XMLExtraV { pace_min: Some(txt), ..e })
    } else if name == "pace_max"@ {
        Some(XMLExtraV { pace_max: Some(txt), ..e })
    } else {
        Some(e)
    }
}

/// One field assignment inside a track element.
pub open spec fn set_track_field(t: XMLTrackV, name: Seq<char>, txt: Seq<char>) -> Option<
    XMLTrackV,
> {
    if name == "distance_meter"@ {
        match parse_i32_field(txt) {
            Some(v) => Some(XMLTrackV { distance_meter: v, ..t }),
            None => None,
        }
    } else if name == "duration_second"@ {
        match parse_i32_field(txt) {
            Some(v) => Some(XMLTrackV { duration_second: v, ..t }),
            None => None,
        }
    } else if name == "pace_average"@ {
        Some(XMLTrackV { pace_average: txt, ..t })
    } else {
        Some(t)
    }
}

/// One field assignment at the document's top level.
pub open spec fn set_sport_field(a: RawAccV, name: Seq<char>, txt: Seq<char>) -> Option<RawAccV> {
    if name == "type"@ {
        Some(RawAccV { type_txt: Some(txt), ..a })
    } else if name == "start_time"@ {
        Some(RawAccV { start_time: Some(txt), ..a })
    } else if name == "pace_average"@ {
        Some(RawAccV { pace_average: Some(txt), ..a })
    } else if name == "calories"@ {
        match parse_i32_field(txt) {
            Some(v) => Some(RawAccV { calories: Some(v), ..a }),
            None => None,
        }
    } else if name == "distance_meter"@ {
        match parse_i32_field(txt) {
            Some(v) => Some(RawAccV { distance_meter: Some(v), ..a }),
            None => None,
        }
    } else if name == "duration_second"@ {
        match parse_i32_field(txt) {
            Some(v) => Some(RawAccV { duration_second: Some(v), ..a }),
            None => None,
        }
    } else if name == "heart_rate_avg"@ {
        match parse_i32_field(txt) {
            Some(v) => Some(RawAccV { heart_rate_avg: Some(v), ..a }),
            None => None,
        }
    } else if name == "heart_rate_max"@ {
        match parse_i32_field(txt) {
            Some(v) => Some(RawAccV { heart_rate_max: Some(v), ..a }),
            None => None,
        }
    } else {
        Some(a)
    }
}

/// One scalar field `<name>text</name>` at `pos` (after the opening tag
/// has been read): the unescaped text and the position after the closing
/// tag.
pub open spec fn parse_scalar(s: Seq<char>, np: int, name: Seq<char>) -> Option<(Seq<char>, int)> {
    let tl = text_run(s, np);
    match unescape(s.subrange(np, np + tl)) {
        Some(txt) => match parse_close(s, np + tl, name) {
            Some(np2) => Some((txt, np2)),
            None => None,
        },
        None => None,
    }
}

/// The fields of an extra block, folded in order, up to `</extra>`.
pub open spec fn extra_items(s: Seq<char>, pos: int, acc: XMLExtraV) -> Option<(XMLExtraV, int)>
    decreases s.len() - pos,
{
    let p = pos + ws_run(s, pos);
    if is_close_at(s, p) {
        match parse_close(s, p, "extra"@) {
            Some(np) => Some((acc, np)),
            None => None,
        }
    } else {
        match parse_open(s, p) {
            Some((name, np)) => match parse_scalar(s, np, name) {
                Some((txt, np2)) => match set_extra_field(acc, name, txt) {
                    Some(acc2) => if np2 <= pos {
                        None
                    } else {
                        extra_items(s, np2, acc2)
                    },
                    None => None,
                },
                None => None,
            },
            None => None,
        }
    }
}

/// The children of one track element, folded in order, up to
/// `</tracks>`.
pub open spec fn track_items(s: Seq<char>, pos: int, acc: XMLTrackV) -> Option<(XMLTrackV, int)>
    decreases s.len() - pos,
{
    let p = pos + ws_run(s, pos);
    if is_close_at(s, p) {
        match parse_close(s, p, "tracks"@) {
            Some(np) => Some((acc, np)),
            None => None,
        }
    } else {
        match parse_open(s, p) {
            Some((name, np)) => {
                if name == "extra"@ {
                    match extra_items(s, np, empty_extra()) {
                        Some((e, np2)) => if np2 <= pos || np2 > s.len() {
                            None
                        } else {
                            track_items(s, np2, XMLTrackV { extra: Some(e), ..acc })
                        },
                        None => None,
                    }
                } else {
                    match parse_scalar(s, np, name) {
                        Some((txt, np2)) => match set_track_field(acc, name, txt) {
                            Some(acc2) => if np2 <= pos {
                                None
                            } else {
                                track_items(s, np2, acc2)
                            },
                            None => None,
                        },
                        None => None,
                    }
                }
            },
            None => None,
        }
    }
}

/// The children of the document element, folded in order, up to
/// `</sport>`.
pub open spec fn sport_items(s: Seq<char>, pos: int, acc: RawAccV) -> Option<(RawAccV, int)>
    decreases s.len() - pos,
{
    let p = pos + ws_run(s, pos);
    if is_close_at(s, p) {
        match parse_close(s, p, "sport"@) {
            Some(np) => Some((acc, np)),
            None => None,
        }
    } else {
        match parse_open(s, p) {
            Some((name, np)) => {
                if name == "extra"@ {
                    match extra_items(s, np, empty_extra()) {
                        Some((e, np2)) => if np2 <= pos || np2 > s.len() {
                            None
                        } else {
                            sport_items(s, np2, RawAccV { extra: Some(e), ..acc })
                        },
                        None => None,
                    }
                } else if name == "tracks"@ {
                    match track_items(s, np, empty_track()) {
                        Some((t, np2)) => if np2 <= pos || np2 > s.len() {
                            None
                        } else {
                            sport_items(s, np2, RawAccV { tracks: acc.tracks.push(t), ..acc })
                        },
                        None => None,
                    }
                } else {
                    match parse_scalar(s, np, name) {
                        Some((txt, np2)) => match set_sport_field(acc, name, txt) {
                            Some(acc2) => if np2 <= pos {
                                None
                            } else {
                                sport_items(s, np2, acc2)
                            },
                            None => None,
                        },
                        None => None,
                    }
                }
            },
            None => None,
        }
    }
}

/// The whole document: a `sport` element with only whitespace,
/// declarations `<?...?>` and comments `<!--...-->` around it.
pub open spec fn parse_document(s: Seq<char>) -> Option<RawAccV> {
    let p = misc_skip(s, 0);
    match parse_open(s, p) {
        Some((name, np)) => {
            if name == "sport"@ {
                match sport_items(s, np, empty_acc()) {
                    Some((acc, end)) => if misc_skip(s, end) == s.len() {
                        Some(acc)
                    } else {
                        None
                    },
                    None => None,
                }
            } else {
                None
            }
        },
        None => None,
    }
}

/// The resolved raw shape: the `type`, the `start_time` text and every
/// numeric field must be present; `pace_average` defaults to empty.
pub open spec fn resolve_spec(a: RawAccV) -> Option<SportXMLV> {
    match (a.type_txt, a.start_time, a.calories, a.distance_meter, a.duration_second,
        a.heart_rate_avg, a.heart_rate_max) {
        (Some(t), Some(st), Some(cal), Some(dm), Some(ds), Some(ha), Some(hm)) => Some(
            SportXMLV {
                kind: kind_from_chars(t),
                start_time: st,
                calories: cal,
                distance_meter: dm,
                duration_second: ds,
                heart_rate_avg: ha,
                heart_rate_max: hm,
                pace_average: (match a.pace_average {
                    Some(pa) => pa,
                    None => Seq::empty(),
                }),
                extra: a.extra,
                tracks: a.tracks,
            },
        ),
        _ => None,
    }
}

/// What an XML text parses to as the raw document shape.
pub open spec fn parse_sport_xml_spec(s: Seq<char>) -> Option<SportXMLV> {
    match parse_document(s) {
        Some(a) => resolve_spec(a),
        None => None,
    }
}

pub open spec fn is_ws(c: char) -> bool {
    c == ' ' || c == '\n' || c == '\t' || c == '\r'
}

pub open spec fn is_name_char(c: char) -> bool {
    ('a' <= c && c <= 'z') || ('A' <= c && c <= 'Z') || ('0' <= c && c <= '9') || c == '_'
}

/// The count of consecutive whitespace characters at `pos`.
pub open spec fn ws_run(s: Seq<char>, pos: int) -> int
    decreases s.len() - pos,
{
    if pos < 0 || pos >= s.len() || !is_ws(s[pos]) {
        0
    } else {
        1 + ws_run(s, pos + 1)
    }
}

/// The count of consecutive name characters at `pos`.
pub open spec fn name_run(s: Seq<char>, pos: int) -> int
    decreases s.len() - pos,
{
    if pos < 0 || pos >= s.len() || !is_name_char(s[pos]) {
        0
    } else {
        1 + name_run(s, pos + 1)
    }
}

/// The count of consecutive content characters (anything but `<`) at
/// `pos`.
pub open spec fn text_run(s: Seq<char>, pos: int) -> int
    decreases s.len() - pos,
{
    if pos < 0 || pos >= s.len() || s[pos] == '<' {
        0
    } else {
        1 + text_run(s, pos + 1)
    }
}

/// The position just past the first occurrence of the two-character
/// terminator `a b` at or after `pos`, `None` when none occurs.
pub open spec fn scan_past2(s: Seq<char>, pos: int, a: char, b: char) -> Option<int>
    decreases s.len() - pos,
{
    if pos < 0 || pos + 2 > s.len() {
        None
    } else if s[pos] == a && s[pos + 1] == b {
        Some(pos + 2)
    } else {
        scan_past2(s, pos + 1, a, b)
    }
}

/// The position just past the first occurrence of the three-character
/// terminator `a b c` at or after `pos`, `None` when none occurs.
pub open spec fn scan_past3(s: Seq<char>, pos: int, a: char, b: char, c: char) -> Option<int>
    decreases s.len() - pos,
{
    if pos < 0 || pos + 3 > s.len() {
        None
    } else if s[pos] == a && s[pos + 1] == b && s[pos + 2] == c {
        Some(pos + 3)
    } else {
        scan_past3(s, pos + 1, a, b, c)
    }
}

/// The position after the run of skippable clutter around the root
/// element at `pos`: whitespace, a declaration or processing instruction
/// `<?...?>`, or a comment `<!--...-->`, in any number and order. An
/// unterminated section is not skipped: parsing then fails at its `<`.
pub open spec fn misc_skip(s: Seq<char>, pos: int) -> int
    decreases s.len() - pos,
{
    if pos < 0 || pos >= s.len() {
        pos
    } else if is_ws(s[pos]) {
        misc_skip(s, pos + 1)
    } else if pos + 2 <= s.len() && s[pos] == '<' && s[pos + 1] == '?' {
        match scan_past2(s, pos + 2, '?', '>') {
            Some(np) => if pos < np <= s.len() {
                misc_skip(s, np)
            } else {
                pos
            },
            None => pos,
        }
    } else if pos + 4 <= s.len() && s[pos] == '<' && s[pos + 1] == '!' && s[pos + 2] == '-' && s[
        pos + 3
    ] == '-' {
        match scan_past3(s, pos + 4, '-', '-', '>') {
            Some(np) => if pos < np <= s.len() {
                misc_skip(s, np)
            } else {
                pos
            },
            None => pos,
        }
    } else {
        pos
    }
}

/// An opening tag `<name>` at `pos`: the name and the position after it.
pub open spec fn parse_open(s: Seq<char>, pos: int) -> Option<(Seq<char>, int)> {
    if pos < 0 || pos >= s.len() || s[pos] != '<' {
        None
    } else {
        let n = name_run(s, pos + 1);
        if n < 1 || pos + 1 + n >= s.len() || s[pos + 1 + n] != '>' {
            None
        } else {
            Some((s.subrange(pos + 1, pos + 1 + n), pos + n + 2))
        }
    }
}

/// A closing tag `</name>` at `pos`: the position after it.
pub open spec fn parse_close(s: Seq<char>, pos: int, name: Seq<char>) -> Option<int> {
    if pos < 0 || pos + 3 + name.len() > s.len() || s[pos] != '<' || s[pos + 1] != '/' {
        None
    } else if s.subrange(pos + 2, pos + 2 + name.len()) != name {
        None
    } else if s[pos + 2 + name.len()] != '>' {
        None
    } else {
        Some(pos + 3 + name.len())
    }
}

/// Whether a closing tag begins at `pos`.
pub open spec fn is_close_at(s: Seq<char>, pos: int) -> bool {
    0 <= pos && pos + 1 < s.len() && s[pos] == '<' && s[pos + 1] == '/'
}

/// Entity-decoding of a text run: the five standard entities are
/// rewritten, a bare `&` with any other continuation is an error.
pub open spec fn unescape(s: Seq<char>) -> Option<Seq<char>>
    decreases s.len(),
{
    if s.len() == 0 {
        Some(Seq::empty())
    } else if s[0] == '&' {
        if s.len() >= 5 && s.subrange(0, 5) == "&amp;"@ {
            match unescape(s.skip(5)) {
                Some(r) => Some(seq!['&'] + r),
                None => None,
            }
        } else if s.len() >= 4 && s.subrange(0, 4) == "&lt;"@ {
            match unescape(s.skip(4)) {
                Some(r) => Some(seq!['<'] + r),
                None => None,
            }
        } else if s.len() >= 4 && s.subrange(0, 4) == "&gt;"@ {
            match unescape(s.skip(4)) {
                Some(r) => Some(seq!['>'] + r),
                None => None,
            }
        } else if s.len() >= 6 && s.subrange(0, 6) == "&apos;"@ {
            match unescape(s.skip(6)) {
                Some(r) => Some(seq!['\''] + r),
                None => None,
            }
        } else if s.len() >= 6 && s.subrange(0, 6) == "&quot;"@ {
            match unescape(s.skip(6)) {
                Some(r) => Some(seq!['"'] + r),
                None => None,
            }
        } else {
            None
        }
    } else {
        match unescape(s.skip(1)) {
            Some(r) => Some(seq![s[0]] + r),
            None => None,
        }
    }
}

/// Entity-encoding of arbitrary text: `&`, `<` and `>` are rewritten.
pub open spec fn escape(s: Seq<char>) -> Seq<char>
    decreases s.len(),
{
    if s.len() == 0 {
        Seq::empty()
    } else {
        let head: Seq<char> = if s[0] == '&' {
            "&amp;"@
        } else if s[0] == '<' {
            "&lt;"@
        } else if s[0] == '>' {
            "&gt;"@
        } else {
            seq![s[0]]
        };
        head + escape(s.skip(1))
    }
}

/// ASCII-whitespace trimming on both ends.
pub open spec fn trim_spec(s: Seq<char>) -> Seq<char> {
    let l = ws_run(s, 0);
    if l >= s.len() {
        Seq::empty()
    } else {
        let r = s.len() - trailing_ws(s);
        s.subrange(l, r as int)
    }
}

/// The count of trailing whitespace characters.
pub open spec fn trailing_ws(s: Seq<char>) -> int
    decreases s.len(),
{
    if s.len() == 0 || !is_ws(s.last()) {
        0
    } else {
        1 + trailing_ws(s.drop_last())
    }
}

proof fn lemma_ws_run_is(s: Seq<char>, from: int, to: int)
    requires
        0 <= from <= to <= s.len(),
        forall|k: int| from <= k < to ==> is_ws(s[k]),
        to == s.len() || !is_ws(s[to]),
    ensures
        ws_run(s, from) == to - from,
    decreases to - from,
{
    if from < to {
        lemma_ws_run_is(s, from + 1, to);
    }
}

proof fn lemma_name_run_is(s: Seq<char>, from: int, to: int)
    requires
        0 <= from <= to <= s.len(),
        forall|k: int| from <= k < to ==> is_name_char(s[k]),
        to == s.len() || !is_name_char(s[to]),
    ensures
        name_run(s, from) == to - from,
    decreases to - from,
{
    if from < to {
        lemma_name_run_is(s, from + 1, to);
    }
}

proof fn lemma_text_run_is(s: Seq<char>, from: int, to: int)
    requires
        0 <= from <= to <= s.len(),
        forall|k: int| from <= k < to ==> s[k] != '<',
        to == s.len() || s[to] == '<',
    ensures
        text_run(s, from) == to - from,
    decreases to - from,
{
    if from < to {
        lemma_text_run_is(s, from + 1, to);
    }
}

fn is_ws_exec(c: char) -> (r: bool)
    ensures
        r == is_ws(c),
{
    c == ' ' || c == '\n' || c == '\t' || c == '\r'
}

fn is_name_char_exec(c: char) -> (r: bool)
    ensures
        r == is_name_char(c),
{
    ('a' <= c && c <= 'z') || ('A' <= c && c <= 'Z') || ('0' <= c && c <= '9') || c == '_'
}

/// Skips whitespace from `pos`.
fn scan_ws(s: &Vec<char>, pos: usize) -> (r: usize)
    requires
        pos <= s@.len(),
    ensures
        r as int == pos + ws_run(s@, pos as int),
        pos <= r <= s@.len(),
{
    let mut i = pos;
    while i < s.len()
        invariant
            pos <= i <= s@.len(),
            forall|k: int| pos <= k < i ==> is_ws(s@[k]),
        decreases s@.len() - i,
    {
        if !is_ws_exec(s[i]) {
            proof {
                lemma_ws_run_is(s@, pos as int, i as int);
            }
            return i;
        }
        i += 1;
    }
    proof {
        lemma_ws_run_is(s@, pos as int, s@.len() as int);
    }
    i
}

fn scan_term2(s: &Vec<char>, pos: usize, a: char, b: char) -> (r: Option<usize>)
    requires
        pos <= s@.len(),
    ensures
        match r {
            Some(np) => scan_past2(s@, pos as int, a, b) == Some(np as int) && pos + 2 <= np
                <= s@.len(),
            None => scan_past2(s@, pos as int, a, b) is None,
        },
{
    let mut i = pos;
    loop
        invariant
            pos <= i <= s@.len(),
            scan_past2(s@, pos as int, a, b) == scan_past2(s@, i as int, a, b),
        decreases s@.len() - i,
    {
        if i >= s.len() || s.len() - i < 2 {
            proof {
                assert(scan_past2(s@, i as int, a, b) is None);
            }
            return None;
        }
        if s[i] == a && s[i + 1] == b {
            proof {
                assert(scan_past2(s@, i as int, a, b) == Some(i + 2int));
            }
            return Some(i + 2);
        }
        proof {
            assert(scan_past2(s@, i as int, a, b) == scan_past2(s@, i as int + 1, a, b));
        }
        i += 1;
    }
}

fn scan_term3(s: &Vec<char>, pos: usize, a: char, b: char, c: char) -> (r: Option<usize>)
    requires
        pos <= s@.len(),
    ensures
        match r {
            Some(np) => scan_past3(s@, pos as int, a, b, c) == Some(np as int) && pos + 3 <= np
                <= s@.len(),
            None => scan_past3(s@, pos as int, a, b, c) is None,
        },
{
    let mut i = pos;
    loop
        invariant
            pos <= i <= s@.len(),
            scan_past3(s@, pos as int, a, b, c) == scan_past3(s@, i as int, a, b, c),
        decreases s@.len() - i,
    {
        if i >= s.len() || s.len() - i < 3 {
            proof {
                assert(scan_past3(s@, i as int, a, b, c) is None);
            }
            return None;
        }
        if s[i] == a && s[i + 1] == b && s[i + 2] == c {
            proof {
                assert(scan_past3(s@, i as int, a, b, c) == Some(i + 3int));
            }
            return Some(i + 3);
        }
        proof {
            assert(scan_past3(s@, i as int, a, b, c) == scan_past3(s@, i as int + 1, a, b, c));
        }
        i += 1;
    }
}

fn scan_misc(s: &Vec<char>, pos: usize) -> (r: usize)
    requires
        pos <= s@.len(),
    ensures
        r as int == misc_skip(s@, pos as int),
        pos <= r <= s@.len(),
{
    let mut i = pos;
    loop
        invariant
            pos <= i <= s@.len(),
            misc_skip(s@, pos as int) == misc_skip(s@, i as int),
        decreases s@.len() - i,
    {
        if i >= s.len() {
            proof {
                assert(misc_skip(s@, i as int) == i as int);
            }
            return i;
        }
        let ch = s[i];
        if ch == ' ' || ch == '\n' || ch == '\t' || ch == '\r' {
            proof {
                assert(misc_skip(s@, i as int) == misc_skip(s@, i as int + 1));
            }
            i += 1;
        } else if ch == '<' && s.len() - i >= 2 && s[i + 1] == '?' {
            match scan_term2(s, i + 2, '?', '>') {
                Some(np) => {
                    proof {
                        assert(misc_skip(s@, i as int) == misc_skip(s@, np as int));
                    }
                    i = np;
                },
                None => {
                    proof {
                        assert(misc_skip(s@, i as int) == i as int);
                    }
                    return i;
                },
            }
        } else if ch == '<' && s.len() - i >= 4 && s[i + 1] == '!' && s[i + 2] == '-' && s[i + 3]
            == '-' {
            match scan_term3(s, i + 4, '-', '-', '>') {
                Some(np) => {
                    proof {
                        assert(misc_skip(s@, i as int) == misc_skip(s@, np as int));
                    }
                    i = np;
                },
                None => {
                    proof {
                        assert(misc_skip(s@, i as int) == i as int);
                    }
                    return i;
                },
            }
        } else {
            proof {
                assert(misc_skip(s@, i as int) == i as int);
            }
            return i;
        }
    }
}

fn scan_name(s: &Vec<char>, pos: usize) -> (r: usize)
    requires
        pos <= s@.len(),
    ensures
        r as int == name_run(s@, pos as int),
        pos + r <= s@.len(),
{
    let mut i = pos;
    while i < s.len()
        invariant
            pos <= i <= s@.len(),
            forall|k: int| pos <= k < i ==> is_name_char(s@[k]),
        decreases s@.len() - i,
    {
        if !is_name_char_exec(s[i]) {
            proof {
                lemma_name_run_is(s@, pos as int, i as int);
            }
            return i - pos;
        }
        i += 1;
    }
    proof {
        lemma_name_run_is(s@, pos as int, s@.len() as int);
    }
    i - pos
}

fn scan_text(s: &Vec<char>, pos: usize) -> (r: usize)
    requires
        pos <= s@.len(),
    ensures
        r as int == text_run(s@, pos as int),
        pos + r <= s@.len(),
{
    let mut i = pos;
    while i < s.len()
        invariant
            pos <= i <= s@.len(),
            forall|k: int| pos <= k < i ==> s@[k] != '<',
        decreases s@.len() - i,
    {
        if s[i] == '<' {
            proof {
                lemma_text_run_is(s@, pos as int, i as int);
            }
            return i - pos;
        }
        i += 1;
    }
    proof {
        lemma_text_run_is(s@, pos as int, s@.len() as int);
    }
    i - pos
}

/// Reads an opening tag at `pos`.
fn read_open(s: &Vec<char>, pos: usize) -> (r: Option<(String, usize)>)
    requires
        pos <= s@.len(),
    ensures
        match r {
            Some(v) => parse_open(s@, pos as int) == Some((v.0@, v.1 as int)) && pos < v.1
                <= s@.len(),
            None => parse_open(s@, pos as int) is None,
        },
{
    if pos >= s.len() || s[pos] != '<' {
        return None;
    }
    let n = scan_name(s, pos + 1);
    proof {
        assert(pos + 1 + n <= s@.len());
    }
    if n < 1 || n == s.len() - pos - 1 || s[pos + 1 + n] != '>' {
        return None;
    }
    let end = pos + 1 + n;
    let mut name = String::new();
    let mut k = pos + 1;
    while k < end
        invariant
            pos + 1 <= k <= end,
            end == pos + 1 + n,
            end < s@.len(),
            name@ == s@.subrange(pos + 1, k as int),
        decreases end - k,
    {
        crate::text::push_char(&mut name, s[k]);
        proof {
            assert(s@.subrange(pos + 1, k + 1) =~= s@.subrange(pos + 1, k as int).push(
                s@[k as int],
            ));
        }
        k += 1;
    }
    Some((name, end + 1))
}

/// Reads the closing tag `</name>` at `pos`.
fn read_close(s: &Vec<char>, pos: usize, name: &str) -> (r: Option<usize>)
    requires
        pos <= s@.len(),
    ensures
        match r {
            Some(np) => parse_close(s@, pos as int, name@) == Some(np as int) && pos < np
                <= s@.len(),
            None => parse_close(s@, pos as int, name@) is None,
        },
{
    let nl = name.unicode_len();
    if pos >= s.len() || s.len() - pos < 3 || s.len() - pos - 3 < nl {
        return None;
    }
    if s[pos] != '<' || s[pos + 1] != '/' {
        return None;
    }
    let base = pos + 2;
    let mut k: usize = 0;
    while k < nl
        invariant
            k <= nl,
            nl == name@.len(),
            base == pos + 2,
            base + nl < s@.len(),
            s@.len() <= usize::MAX,
            forall|j: int| 0 <= j < k ==> s@[base + j] == name@[j],
        decreases nl - k,
    {
        if s[base + k] != name.get_char(k) {
            proof {
                assert(s@.subrange(pos + 2, pos + 2 + name@.len())[k as int] != name@[k as int]);
            }
            return None;
        }
        k += 1;
    }
    if s[base + nl] != '>' {
        return None;
    }
    proof {
        assert(s@.subrange(pos + 2, pos + 2 + name@.len()) =~= name@);
    }
    Some(pos + 3 + nl)
}

/// Decodes the text run `[from, to)`.
fn unescape_range(s: &Vec<char>, from: usize, to: usize) -> (r: Option<String>)
    requires
        from <= to <= s@.len(),
    ensures
        match r {
            Some(t) => unescape(s@.subrange(from as int, to as int)) == Some(t@),
            None => unescape(s@.subrange(from as int, to as int)) is None,
        },
{
    proof {
        reveal_strlit("&amp;");
        reveal_strlit("&lt;");
        reveal_strlit("&gt;");
        reveal_strlit("&apos;");
        reveal_strlit("&quot;");
    }
    let mut out = String::new();
    let mut i = from;
    while i < to
        invariant
            from <= i <= to <= s@.len(),
            unescape(s@.subrange(from as int, to as int)) == (match unescape(
                s@.subrange(i as int, to as int),
            ) {
                Some(rest) => Some(out@ + rest),
                None => None,
            }),
        decreases to - i,
    {
        let ghost sub = s@.subrange(i as int, to as int);
        let c = s[i];
        proof {
            reveal_strlit("&amp;");
            reveal_strlit("&lt;");
            reveal_strlit("&gt;");
            reveal_strlit("&apos;");
            reveal_strlit("&quot;");
            assert(sub[0] == s@[i as int]);
        }
        if c == '&' {
            if to - i >= 5 && s[i + 1] == 'a' && s[i + 2] == 'm' && s[i + 3] == 'p' && s[i + 4]
                == ';' {
                proof {
                    assert(sub.len() >= 5 && sub.subrange(0, 5) =~= "&amp;"@);
                    assert(sub.skip(5) =~= s@.subrange(i + 5, to as int));
                }
                proof {
                    lemma_concat_push(out@, '&', s@.subrange(i + 5, to as int));
                }
crate::text::push_char(&mut out, '&');
                i += 5;
            } else if to - i >= 4 && s[i + 1] == 'l' && s[i + 2] == 't' && s[i + 3] == ';' {
                proof {
                    assert(!(sub.len() >= 5 && sub.subrange(0, 5) == "&amp;"@)) by {
                        if sub.len() >= 5 && sub.subrange(0, 5) == "&amp;"@ {
                            assert(sub.subrange(0, 5)[1] == 'a');
                        }
                    }
                    assert(sub.len() >= 4 && sub.subrange(0, 4) =~= "&lt;"@);
                    assert(sub.skip(4) =~= s@.subrange(i + 4, to as int));
                }
                proof {
                    lemma_concat_push(out@, '<', s@.subrange(i + 4, to as int));
                }
crate::text::push_char(&mut out, '<');
                i += 4;
            } else if to - i >= 4 && s[i + 1] == 'g' && s[i + 2] == 't' && s[i + 3] == ';' {
                proof {
                    assert(!(sub.len() >= 5 && sub.subrange(0, 5) == "&amp;"@)) by {
                        if sub.len() >= 5 && sub.subrange(0, 5) == "&amp;"@ {
                            assert(sub.subrange(0, 5)[1] == 'a');
                        }
                    }
                    assert(!(sub.len() >= 4 && sub.subrange(0, 4) == "&lt;"@)) by {
                        if sub.len() >= 4 && sub.subrange(0, 4) == "&lt;"@ {
                            assert(sub.subrange(0, 4)[1] == 'l');
                        }
                    }
                    assert(sub.len() >= 4 && sub.subrange(0, 4) =~= "&gt;"@);
                    assert(sub.skip(4) =~= s@.subrange(i + 4, to as int));
                }
                proof {
                    lemma_concat_push(out@, '>', s@.subrange(i + 4, to as int));
                }
crate::text::push_char(&mut out, '>');
                i += 4;
            } else if to - i >= 6 && s[i + 1] == 'a' && s[i + 2] == 'p' && s[i + 3] == 'o' && s[i
                + 4] == 's' && s[i + 5] == ';' {
                proof {
                    assert(!(sub.len() >= 5 && sub.subrange(0, 5) == "&amp;"@)) by {
                        if sub.len() >= 5 && sub.subrange(0, 5) == "&amp;"@ {
                            assert(sub.subrange(0, 5)[2] == 'm');
                        }
                    }
                    assert(!(sub.len() >= 4 && sub.subrange(0, 4) == "&lt;"@)) by {
                        if sub.len() >= 4 && sub.subrange(0, 4) == "&lt;"@ {
                            assert(sub.subrange(0, 4)[1] == 'l');
                        }
                    }
                    assert(!(sub.len() >= 4 && sub.subrange(0, 4) == "&gt;"@)) by {
                        if sub.len() >= 4 && sub.subrange(0, 4) == "&gt;"@ {
                            assert(sub.subrange(0, 4)[1] == 'g');
                        }
                    }
                    assert(sub.len() >= 6 && sub.subrange(0, 6) =~= "&apos;"@);
                    assert(sub.skip(6) =~= s@.subrange(i + 6, to as int));
                }
                proof {
                    lemma_concat_push(out@, '\'', s@.subrange(i + 6, to as int));
                }
crate::text::push_char(&mut out, '\'');
                i += 6;
            } else if to - i >= 6 && s[i + 1] == 'q' && s[i + 2] == 'u' && s[i + 3] == 'o' && s[i
                + 4] == 't' && s[i + 5] == ';' {
                proof {
                    assert(!(sub.len() >= 5 && sub.subrange(0, 5) == "&amp;"@)) by {
                        if sub.len() >= 5 && sub.subrange(0, 5) == "&amp;"@ {
                            assert(sub.subrange(0, 5)[1] == 'a');
                        }
                    }
                    assert(!(sub.len() >= 4 && sub.subrange(0, 4) == "&lt;"@)) by {
                        if sub.len() >= 4 && sub.subrange(0, 4) == "&lt;"@ {
                            assert(sub.subrange(0, 4)[1] == 'l');
                        }
                    }
                    assert(!(sub.len() >= 4 && sub.subrange(0, 4) == "&gt;"@)) by {
                        if sub.len() >= 4 && sub.subrange(0, 4) == "&gt;"@ {
                            assert(sub.subrange(0, 4)[1] == 'g');
                        }
                    }
                    assert(!(sub.len() >= 6 && sub.subrange(0, 6) == "&apos;"@)) by {
                        if sub.len() >= 6 && sub.subrange(0, 6) == "&apos;"@ {
                            assert(sub.subrange(0, 6)[1] == 'a');
                        }
                    }
                    assert(sub.len() >= 6 && sub.subrange(0, 6) =~= "&quot;"@);
                    assert(sub.skip(6) =~= s@.subrange(i + 6, to as int));
                }
                proof {
                    lemma_concat_push(out@, '"', s@.subrange(i + 6, to as int));
                }
crate::text::push_char(&mut out, '"');
                i += 6;
            } else {
                proof {
                    lemma_unescape_no_entity(s@, i as int, to as int);
                }
                return None;
            }
        } else {
            proof {
                assert(sub.skip(1) =~= s@.subrange(i + 1, to as int));
            }
            proof {
                lemma_concat_push(out@, c, s@.subrange(i + 1, to as int));
            }
crate::text::push_char(&mut out, c);
            i += 1;
        }
    }
    proof {
        assert(s@.subrange(i as int, to as int).len() == 0);
        assert(unescape(s@.subrange(i as int, to as int)) == Some(Seq::<char>::empty()));
        assert(out@ + Seq::<char>::empty() =~= out@);
    }
    Some(out)
}

/// Concatenation associates over a one-character head.
proof fn lemma_concat_push(o: Seq<char>, c: char, suffix: Seq<char>)
    ensures
        match unescape(suffix) {
            Some(rest) => o + (seq![c] + rest) == o.push(c) + rest,
            None => true,
        },
{
    match unescape(suffix) {
        Some(rest) => {
            assert(o + (seq![c] + rest) =~= o.push(c) + rest);
        },
        None => {},
    }
}

/// At a bare `&` that begins no entity, decoding fails.
proof fn lemma_unescape_no_entity(s: Seq<char>, i: int, to: int)
    requires
        0 <= i < to <= s.len(),
        s[i] == '&',
        !(i + 5 <= to && s[i + 1] == 'a' && s[i + 2] == 'm' && s[i + 3] == 'p' && s[i + 4] == ';'),
        !(i + 4 <= to && s[i + 1] == 'l' && s[i + 2] == 't' && s[i + 3] == ';'),
        !(i + 4 <= to && s[i + 1] == 'g' && s[i + 2] == 't' && s[i + 3] == ';'),
        !(i + 6 <= to && s[i + 1] == 'a' && s[i + 2] == 'p' && s[i + 3] == 'o' && s[i + 4] == 's'
            && s[i + 5] == ';'),
        !(i + 6 <= to && s[i + 1] == 'q' && s[i + 2] == 'u' && s[i + 3] == 'o' && s[i + 4] == 't'
            && s[i + 5] == ';'),
    ensures
        unescape(s.subrange(i, to)) is None,
{
    reveal_strlit("&amp;");
    reveal_strlit("&lt;");
    reveal_strlit("&gt;");
    reveal_strlit("&apos;");
    reveal_strlit("&quot;");
    let sub = s.subrange(i, to);
    assert(sub[0] == '&');
    if sub.len() >= 5 && sub.subrange(0, 5) == "&amp;"@ {
        assert(sub.subrange(0, 5)[1] == 'a' && sub.subrange(0, 5)[2] == 'm' && sub.subrange(
            0,
            5,
        )[3] == 'p' && sub.subrange(0, 5)[4] == ';');
        assert(false);
    }
    if sub.len() >= 4 && sub.subrange(0, 4) == "&lt;"@ {
        assert(sub.subrange(0, 4)[1] == 'l' && sub.subrange(0, 4)[2] == 't' && sub.subrange(
            0,
            4,
        )[3] == ';');
        assert(false);
    }
    if sub.len() >= 4 && sub.subrange(0, 4) == "&gt;"@ {
        assert(sub.subrange(0, 4)[1] == 'g' && sub.subrange(0, 4)[2] == 't' && sub.subrange(
            0,
            4,
        )[3] == ';');
        assert(false);
    }
    if sub.len() >= 6 && sub.subrange(0, 6) == "&apos;"@ {
        assert(sub.subrange(0, 6)[1] == 'a' && sub.subrange(0, 6)[2] == 'p' && sub.subrange(
            0,
            6,
        )[3] == 'o' && sub.subrange(0, 6)[4] == 's' && sub.subrange(0, 6)[5] == ';');
        assert(false);
    }
    if sub.len() >= 6 && sub.subrange(0, 6) == "&quot;"@ {
        assert(sub.subrange(0, 6)[1] == 'q' && sub.subrange(0, 6)[2] == 'u' && sub.subrange(
            0,
            6,
        )[3] == 'o' && sub.subrange(0, 6)[4] == 't' && sub.subrange(0, 6)[5] == ';');
        assert(false);
    }
}

/// Trims ASCII whitespace from both ends.
pub fn trim_ascii(t: &str) -> (r: String)
    ensures
        r@ == trim_spec(t@),
{
    let len = t.unicode_len();
    let mut l: usize = 0;
    while l < len && is_ws_exec(t.get_char(l))
        invariant
            l <= len,
            len == t@.len(),
            forall|k: int| 0 <= k < l ==> is_ws(t@[k]),
        decreases len - l,
    {
        l += 1;
    }
    proof {
        lemma_ws_run_is(t@, 0, l as int);
    }
    if l >= len {
        let empty_out = String::new();
        proof {
            assert(empty_out@ =~= trim_spec(t@));
        }
        return empty_out;
    }
    let mut rr: usize = len;
    while rr > l && is_ws_exec(t.get_char(rr - 1))
        invariant
            l <= rr <= len,
            len == t@.len(),
            forall|k: int| rr <= k < len ==> is_ws(t@[k]),
        decreases rr,
    {
        rr -= 1;
    }
    // rr stopped above l because some non-blank exists at l
    proof {
        if rr == l {
            assert(!is_ws(t@[l as int]));
            assert(rr <= l ==> is_ws(t@[l as int]));
        }
        assert(rr > l);
        assert(!is_ws(t@[rr - 1]));
        lemma_trailing_is(t@, rr as int);
    }
    let mut out = String::new();
    let mut k = l;
    while k < rr
        invariant
            l <= k <= rr <= len,
            len == t@.len(),
            out@ == t@.subrange(l as int, k as int),
        decreases rr - k,
    {
        crate::text::push_char(&mut out, t.get_char(k));
        proof {
            assert(t@.subrange(l as int, k + 1) =~= t@.subrange(l as int, k as int).push(
                t@[k as int],
            ));
        }
        k += 1;
    }
    proof {
        assert(out@ == trim_spec(t@));
    }
    out
}

proof fn lemma_trailing_is(s: Seq<char>, r: int)
    requires
        0 <= r <= s.len(),
        forall|k: int| r <= k < s.len() ==> is_ws(s[k]),
        r == 0 || !is_ws(s[r - 1]),
    ensures
        trailing_ws(s) == s.len() - r,
    decreases s.len() - r,
{
    if r < s.len() {
        assert(is_ws(s.last()));
        let head = s.drop_last();
        assert(forall|k: int| r <= k < head.len() ==> is_ws(#[trigger] head[k]));
        lemma_trailing_is(head, r);
    } else {
        if s.len() > 0 {
            assert(!is_ws(s.last()));
        }
    }
}

fn set_extra_field_exec(acc: &mut XMLSportExtra, name: &str, txt: String) -> (ok: bool)
    ensures
        match set_extra_field(old(acc)@, name@, txt@) {
            Some(a2) => ok && final(acc)@ == a2,
            None => !ok,
        },
{
    if crate::text::str_eq(name, "main_stroke") {
        acc.main_stroke = Some(txt);
        true
    } else if crate::text::str_eq(name, "stroke_avg") {
        match crate::numtext::parse_i32(trim_ascii(txt.as_str()).as_str()) {
            Some(v) => {
                acc.stroke_avg = Some(v);
                true
            },
            None => false,
        }
    } else if crate::text::str_eq(name, "swolf_avg") {
        match crate::numtext::parse_i32(trim_ascii(txt.as_str()).as_str()) {
            Some(v) => {
                acc.swolf_avg = Some(v);
                true
            },
            None => false,
        }
    } else if crate::text::str_eq(name, "speed_avg") {
        acc.speed_avg = Some(trim_ascii(txt.as_str()));
        true
    } else if crate::text::str_eq(name, "cadence_avg") {
        match crate::numtext::parse_i32(trim_ascii(txt.as_str()).as_str()) {
            Some(v) => {
                acc.cadence_avg = Some(v);
                true
            },
            None => false,
        }
    } else if crate::text::str_eq(name, "stride_length_avg") {
        match crate::numtext::parse_i32(trim_ascii(txt.as_str()).as_str()) {
            Some(v) => {
                acc.stride_length_avg = Some(v);
                true
            },
            None => false,
        }
    } else if crate::text::str_eq(name, "steps_total") {
        match crate::numtext::parse_i32(trim_ascii(txt.as_str()).as_str()) {
            Some(v) => {
                acc.steps_total = Some(v);
                true
            },
            None => false,
        }
    } else if crate::text::str_eq(name, "pace_min") {
        acc.pace_min = Some(txt);
        true
    } else if crate::text::str_eq(name, "pace_max") {
        acc.pace_max = Some(txt);
        true
    } else {
        true
    }
}

/// Parses an extra block from just after `<extra>` through `</extra>`.
fn parse_extra_exec(s: &Vec<char>, pos: usize) -> (r: Option<(XMLSportExtra, usize)>)
    requires
        pos <= s@.len(),
    ensures
        match r {
            Some(v) => extra_items(s@, pos as int, empty_extra()) == Some((v.0@, v.1 as int))
                && pos < v.1 <= s@.len(),
            None => extra_items(s@, pos as int, empty_extra()) is None,
        },
{
    let mut acc = XMLSportExtra {
        main_stroke: None,
        stroke_avg: None,
        swolf_avg: None,
        speed_avg: None,
        cadence_avg: None,
        stride_length_avg: None,
        steps_total: None,
        pace_min: None,
        pace_max: None,
    };
    let mut cur = pos;
    loop
        invariant
            pos <= cur <= s@.len(),
            extra_items(s@, pos as int, empty_extra()) == extra_items(s@, cur as int, acc@),
        decreases s@.len() - cur,
    {
        let p = scan_ws(s, cur);
        if p < s.len() && s[p] == '<' && p + 1 < s.len() && s[p + 1] == '/' {
            proof {
                assert(is_close_at(s@, p as int));
            }
            match read_close(s, p, "extra") {
                Some(np) => {
                    return Some((acc, np));
                },
                None => {
                    return None;
                },
            }
        }
        proof {
            assert(!is_close_at(s@, p as int));
        }
        let (name, np) = match read_open(s, p) {
            Some(v) => v,
            None => {
                return None;
            },
        };
        let tl = scan_text(s, np);
        let txt = match unescape_range(s, np, np + tl) {
            Some(t) => t,
            None => {
                return None;
            },
        };
        let np2 = match read_close(s, np + tl, name.as_str()) {
            Some(v) => v,
            None => {
                return None;
            },
        };
        let ghost acc0 = acc@;
        if !set_extra_field_exec(&mut acc, name.as_str(), txt) {
            return None;
        }
        proof {
            assert(parse_scalar(s@, np as int, name@) == Some((txt@, np2 as int)));
            assert(extra_items(s@, cur as int, acc0) == extra_items(s@, np2 as int, acc@));
        }
        cur = np2;
    }
}

/// Parses one track element from just after `<tracks>` through
/// `</tracks>`.
fn parse_track_exec(s: &Vec<char>, pos: usize) -> (r: Option<(XMLSportTrack, usize)>)
    requires
        pos <= s@.len(),
    ensures
        match r {
            Some(v) => track_items(s@, pos as int, empty_track()) == Some((v.0@, v.1 as int))
                && pos < v.1 <= s@.len(),
            None => track_items(s@, pos as int, empty_track()) is None,
        },
{
    let mut acc = XMLSportTrack {
        distance_meter: 0,
        duration_second: 0,
        pace_average: String::new(),
        extra: None,
    };
    proof {
        assert(acc@ == empty_track());
    }
    let mut cur = pos;
    loop
        invariant
            pos <= cur <= s@.len(),
            track_items(s@, pos as int, empty_track()) == track_items(s@, cur as int, acc@),
        decreases s@.len() - cur,
    {
        let p = scan_ws(s, cur);
        if p < s.len() && s[p] == '<' && p + 1 < s.len() && s[p + 1] == '/' {
            proof {
                assert(is_close_at(s@, p as int));
            }
            match read_close(s, p, "tracks") {
                Some(np) => {
                    return Some((acc, np));
                },
                None => {
                    return None;
                },
            }
        }
        proof {
            assert(!is_close_at(s@, p as int));
        }
        let (name, np) = match read_open(s, p) {
            Some(v) => v,
            None => {
                return None;
            },
        };
        if crate::text::str_eq(name.as_str(), "extra") {
            let (e, np2) = match parse_extra_exec(s, np) {
                Some(v) => v,
                None => {
                    return None;
                },
            };
            let ghost acc0 = acc@;
            acc.extra = Some(e);
            proof {
                assert(acc@ == XMLTrackV { extra: Some(e@), ..acc0 });
                assert(track_items(s@, cur as int, acc0) == track_items(s@, np2 as int, acc@));
            }
            cur = np2;
        } else {
            let tl = scan_text(s, np);
            let txt = match unescape_range(s, np, np + tl) {
                Some(t) => t,
                None => {
                    return None;
                },
            };
            let np2 = match read_close(s, np + tl, name.as_str()) {
                Some(v) => v,
                None => {
                    return None;
                },
            };
            let ghost acc0 = acc@;
            let updated = set_track_field_exec(&mut acc, name.as_str(), txt);
            if !updated {
                return None;
            }
            proof {
                assert(parse_scalar(s@, np as int, name@) == Some((txt@, np2 as int)));
                assert(track_items(s@, cur as int, acc0) == track_items(s@, np2 as int, acc@));
            }
            cur = np2;
        }
    }
}

fn set_track_field_exec(acc: &mut XMLSportTrack, name: &str, txt: String) -> (ok: bool)
    ensures
        match set_track_field(old(acc)@, name@, txt@) {
            Some(a2) => ok && final(acc)@ == a2,
            None => !ok,
        },
{
    if crate::text::str_eq(name, "distance_meter") {
        match crate::numtext::parse_i32(trim_ascii(txt.as_str()).as_str()) {
            Some(v) => {
                acc.distance_meter = v;
                true
            },
            None => false,
        }
    } else if crate::text::str_eq(name, "duration_second") {
        match crate::numtext::parse_i32(trim_ascii(txt.as_str()).as_str()) {
            Some(v) => {
                acc.duration_second = v;
                true
            },
            None => false,
        }
    } else if crate::text::str_eq(name, "pace_average") {
        acc.pace_average = txt;
        true
    } else {
        true
    }
}

struct RawAcc {
    type_txt: Option<String>,
    start_time: Option<String>,
    calories: Option<i32>,
    distance_meter: Option<i32>,
    duration_second: Option<i32>,
    heart_rate_avg: Option<i32>,
    heart_rate_max: Option<i32>,
    pace_average: Option<String>,
    extra: Option<XMLSportExtra>,
    tracks: Vec<XMLSportTrack>,
}

impl View for RawAcc {
    type V = RawAccV;

    closed spec fn view(&self) -> RawAccV {
        RawAccV {
            type_txt: opt_text(self.type_txt),
            start_time: opt_text(self.start_time),
            calories: opt_int(self.calories),
            distance_meter: opt_int(self.distance_meter),
            duration_second: opt_int(self.duration_second),
            heart_rate_avg: opt_int(self.heart_rate_avg),
            heart_rate_max: opt_int(self.heart_rate_max),
            pace_average: opt_text(self.pace_average),
            extra: opt_extra_view(self.extra),
            tracks: xml_tracks_view(self.tracks@),
        }
    }
}

fn set_sport_field_exec(acc: &mut RawAcc, name: &str, txt: String) -> (ok: bool)
    ensures
        match set_sport_field(old(acc)@, name@, txt@) {
            Some(a2) => ok && final(acc)@ == a2,
            None => !ok,
        },
{
    if crate::text::str_eq(name, "type") {
        acc.type_txt = Some(txt);
        true
    } else if crate::text::str_eq(name, "start_time") {
        acc.start_time = Some(txt);
        true
    } else if crate::text::str_eq(name, "pace_average") {
        acc.pace_average = Some(txt);
        true
    } else if crate::text::str_eq(name, "calories") {
        match crate::numtext::parse_i32(trim_ascii(txt.as_str()).as_str()) {
            Some(v) => {
                acc.calories = Some(v);
                true
            },
            None => false,
        }
    } else if crate::text::str_eq(name, "distance_meter") {
        match crate::numtext::parse_i32(trim_ascii(txt.as_str()).as_str()) {
            Some(v) => {
                acc.distance_meter = Some(v);
                true
            },
            None => false,
        }
    } else if crate::text::str_eq(name, "duration_second") {
        match crate::numtext::parse_i32(trim_ascii(txt.as_str()).as_str()) {
            Some(v) => {
                acc.duration_second = Some(v);
                true
            },
            None => false,
        }
    } else if crate::text::str_eq(name, "heart_rate_avg") {
        match crate::numtext::parse_i32(trim_ascii(txt.as_str()).as_str()) {
            Some(v) => {
                acc.heart_rate_avg = Some(v);
                true
            },
            None => false,
        }
    } else if crate::text::str_eq(name, "heart_rate_max") {
        match crate::numtext::parse_i32(trim_ascii(txt.as_str()).as_str()) {
            Some(v) => {
                acc.heart_rate_max = Some(v);
                true
            },
            None => false,
        }
    } else {
        true
    }
}

/// Parses the whole document into the raw shape.
pub fn parse_sport_xml(xml: &str) -> (r: Option<SportXML>)
    ensures
        match r {
            Some(raw) => parse_sport_xml_spec(xml@) == Some(raw@),
            None => parse_sport_xml_spec(xml@) is None,
        },
{
    let s = crate::text::str_chars(xml);
    let p = scan_misc(&s, 0);
    let (root, np0) = match read_open(&s, p) {
        Some(v) => v,
        None => {
            return None;
        },
    };
    if !crate::text::str_eq(root.as_str(), "sport") {
        return None;
    }
    let mut acc = RawAcc {
        type_txt: None,
        start_time: None,
        calories: None,
        distance_meter: None,
        duration_second: None,
        heart_rate_avg: None,
        heart_rate_max: None,
        pace_average: None,
        extra: None,
        tracks: Vec::new(),
    };
    proof {
        assert(acc@.tracks =~= Seq::<XMLTrackV>::empty());
        assert(acc@ == empty_acc());
    }
    let mut cur = np0;
    loop
        invariant
            np0 <= cur <= s@.len(),
            s@ == xml@,
            parse_open(s@, misc_skip(s@, 0)) == Some(("sport"@, np0 as int)),
            sport_items(s@, np0 as int, empty_acc()) == sport_items(s@, cur as int, acc@),
        decreases s@.len() - cur,
    {
        let p2 = scan_ws(&s, cur);
        if p2 < s.len() && s[p2] == '<' && p2 + 1 < s.len() && s[p2 + 1] == '/' {
            proof {
                assert(is_close_at(s@, p2 as int));
            }
            match read_close(&s, p2, "sport") {
                Some(np) => {
                    proof {
                        assert(sport_items(s@, cur as int, acc@) == Some((acc@, np as int)));
                    }
                    let after = scan_misc(&s, np);
                    if after != s.len() {
                        proof {
                            assert(parse_document(s@) is None);
                        }
                        return None;
                    }
                    proof {
                        assert(parse_document(s@) == Some(acc@));
                    }
                    return resolve_exec(acc);
                },
                None => {
                    proof {
                        assert(sport_items(s@, cur as int, acc@) is None);
                        assert(parse_document(s@) is None);
                    }
                    return None;
                },
            }
        }
        proof {
            assert(!is_close_at(s@, p2 as int));
        }
        let (name, np) = match read_open(&s, p2) {
            Some(v) => v,
            None => {
                proof {
                    assert(sport_items(s@, cur as int, acc@) is None);
                    assert(parse_document(s@) is None);
                }
                return None;
            },
        };
        if crate::text::str_eq(name.as_str(), "extra") {
            let (e, np2) = match parse_extra_exec(&s, np) {
                Some(v) => v,
                None => {
                    proof {
                        assert(sport_items(s@, cur as int, acc@) is None);
                        assert(parse_document(s@) is None);
                    }
                    return None;
                },
            };
            let ghost acc0 = acc@;
            acc.extra = Some(e);
            proof {
                assert(acc@ == RawAccV { extra: Some(e@), ..acc0 });
                assert(sport_items(s@, cur as int, acc0) == sport_items(s@, np2 as int, acc@));
            }
            cur = np2;
        } else if crate::text::str_eq(name.as_str(), "tracks") {
            let (t, np2) = match parse_track_exec(&s, np) {
                Some(v) => v,
                None => {
                    proof {
                        assert(sport_items(s@, cur as int, acc@) is None);
                        assert(parse_document(s@) is None);
                    }
                    return None;
                },
            };
            let ghost acc0 = acc@;
            acc.tracks.push(t);
            proof {
                assert(xml_tracks_view(acc.tracks@) =~= acc0.tracks.push(t@));
                assert(acc@ == RawAccV { tracks: acc0.tracks.push(t@), ..acc0 });
                assert(sport_items(s@, cur as int, acc0) == sport_items(s@, np2 as int, acc@));
            }
            cur = np2;
        } else {
            let tl = scan_text(&s, np);
            let txt = match unescape_range(&s, np, np + tl) {
                Some(t) => t,
                None => {
                    proof {
                        assert(sport_items(s@, cur as int, acc@) is None);
                        assert(parse_document(s@) is None);
                    }
                    return None;
                },
            };
            let np2 = match read_close(&s, np + tl, name.as_str()) {
                Some(v) => v,
                None => {
                    proof {
                        assert(sport_items(s@, cur as int, acc@) is None);
                        assert(parse_document(s@) is None);
                    }
                    return None;
                },
            };
            let ghost acc0 = acc@;
            let updated = set_sport_field_exec(&mut acc, name.as_str(), txt);
            if !updated {
                proof {
                    assert(sport_items(s@, cur as int, acc@) is None);
                    assert(parse_document(s@) is None);
                }
                return None;
            }
            proof {
                assert(parse_scalar(s@, np as int, name@) == Some((txt@, np2 as int)));
                assert(sport_items(s@, cur as int, acc0) == sport_items(s@, np2 as int, acc@));
            }
            cur = np2;
        }
    }
}

/// Resolves the accumulated document: the required fields must be
/// present.
fn resolve_exec(acc: RawAcc) -> (r: Option<SportXML>)
    ensures
        match r {
            Some(raw) => resolve_spec(acc@) == Some(raw@),
            None => resolve_spec(acc@) is None,
        },
{
    let type_txt = match acc.type_txt {
        Some(t) => t,
        None => {
            return None;
        },
    };
    let start_time = match acc.start_time {
        Some(t) => t,
        None => {
            return None;
        },
    };
    let calories = match acc.calories {
        Some(v) => v,
        None => {
            return None;
        },
    };
    let distance_meter = match acc.distance_meter {
        Some(v) => v,
        None => {
            return None;
        },
    };
    let duration_second = match acc.duration_second {
        Some(v) => v,
        None => {
            return None;
        },
    };
    let heart_rate_avg = match acc.heart_rate_avg {
        Some(v) => v,
        None => {
            return None;
        },
    };
    let heart_rate_max = match acc.heart_rate_max {
        Some(v) => v,
        None => {
            return None;
        },
    };
    let pace_average = match acc.pace_average {
        Some(t) => t,
        None => String::new(),
    };
    let kind = SportType::from_str(type_txt.as_str());
    Some(
        SportXML {
            kind,
            start_time,
            calories,
            distance_meter,
            duration_second,
            heart_rate_avg,
            heart_rate_max,
            pace_average,
            extra: acc.extra,
            tracks: acc.tracks,
        },
    )
}

pub open spec fn or_empty(o: Option<Seq<char>>) -> Seq<char> {
    match o {
        Some(t) => t,
        None => Seq::empty(),
    }
}

pub open spec fn or0(o: Option<int>) -> int {
    match o {
        Some(v) => v,
        None => 0,
    }
}

/// The extra data a raw block resolves to, decided by the record's kind:
/// a swimming kind always yields the swimming variant (missing fields
/// defaulting, the stroke normalized), a running kind the running
/// variant, and any other kind discards the block.
pub open spec fn from_raw_spec(kind: SportType, raw: XMLExtraV) -> Option<SportExtraV> {
    match kind {
        SportType::Swimming => Some(
            SportExtraV::Swimming(
                SwimmingV {
                    main_stroke: normalize_stroke_spec(or_empty(raw.main_stroke)),
                    stroke_avg: or0(raw.stroke_avg),
                    swolf_avg: or0(raw.swolf_avg),
                },
            ),
        ),
        SportType::Running => Some(
            SportExtraV::Running(
                RunningV {
                    speed_avg: (match raw.speed_avg {
                        Some(t) => t,
                        None => "0"@,
                    }),
                    cadence_avg: or0(raw.cadence_avg),
                    stride_length_avg: or0(raw.stride_length_avg),
                    steps_total: or0(raw.steps_total),
                    pace_min: or_empty(raw.pace_min),
                    pace_max: or_empty(raw.pace_max),
                },
            ),
        ),
        _ => None,
    }
}

fn from_raw_ref(kind: SportType, raw: &XMLSportExtra) -> (r: Option<SportExtra>)
    ensures
        match r {
            Some(e) => from_raw_spec(kind, raw@) == Some(e@),
            None => from_raw_spec(kind, raw@) is None,
        },
{
    match kind {
        SportType::Swimming => {
            let ms = match &raw.main_stroke {
                Some(t) => t.clone(),
                None => String::new(),
            };
            let sa = match raw.stroke_avg {
                Some(v) => v,
                None => 0,
            };
            let sw = match raw.swolf_avg {
                Some(v) => v,
                None => 0,
            };
            Some(SportExtra::Swimming(Swimming::new(ms, sa, sw)))
        },
        SportType::Running => {
            let sp = match &raw.speed_avg {
                Some(t) => t.clone(),
                None => "0".to_owned(),
            };
            let ca = match raw.cadence_avg {
                Some(v) => v,
                None => 0,
            };
            let st = match raw.stride_length_avg {
                Some(v) => v,
                None => 0,
            };
            let tot = match raw.steps_total {
                Some(v) => v,
                None => 0,
            };
            let pmin = match &raw.pace_min {
                Some(t) => t.clone(),
                None => String::new(),
            };
            let pmax = match &raw.pace_max {
                Some(t) => t.clone(),
                None => String::new(),
            };
            Some(
                SportExtra::Running(
                    Running {
                        speed_avg: sp,
                        cadence_avg: ca,
                        stride_length_avg: st,
                        steps_total: tot,
                        pace_min: pmin,
                        pace_max: pmax,
                    },
                ),
            )
        },
        _ => None,
    }
}

impl SportExtra {
    /// Resolves a raw extra block against the owning kind.
    pub fn from_raw(kind: SportType, raw: XMLSportExtra) -> (r: Option<SportExtra>)
        ensures
            match r {
                Some(e) => from_raw_spec(kind, raw@) == Some(e@),
                None => from_raw_spec(kind, raw@) is None,
            },
    {
        from_raw_ref(kind, &raw)
    }
}

/// One resolved track.
pub open spec fn resolved_track(kind: SportType, t: XMLTrackV) -> TrackV {
    TrackV {
        distance_meter: t.distance_meter,
        duration_second: t.duration_second,
        pace_average: t.pace_average,
        extra: (match t.extra {
            None => None,
            Some(e) => from_raw_spec(kind, e),
        }),
    }
}

/// The canonical record a raw document resolves to, given the epoch
/// second its timestamp text anchors to.
pub open spec fn resolved_sport(raw: SportXMLV, ts: int) -> SportV {
    SportV {
        id: 0,
        kind: raw.kind,
        start_time: ts,
        calories: raw.calories,
        distance_meter: raw.distance_meter,
        duration_second: raw.duration_second,
        heart_rate_avg: raw.heart_rate_avg,
        heart_rate_max: raw.heart_rate_max,
        pace_average: raw.pace_average,
        extra: (match raw.extra {
            None => None,
            Some(e) => from_raw_spec(raw.kind, e),
        }),
        tracks: Seq::new(raw.tracks.len(), |i: int| resolved_track(raw.kind, raw.tracks[i])),
    }
}

impl Sport {
    /// Parses an XML document into a canonical record: the raw shape is
    /// decoded, the timestamp text is anchored in the local timezone, the
    /// extra blocks are resolved by the declared kind, and the id is 0
    /// (unsaved). Fails on a document the wire shape does not admit, on a
    /// missing required field, and on an unrecognized timestamp.
    pub fn parse_from_xml(xml: &str) -> (r: Result<Sport, String>)
        ensures
            parse_sport_xml_spec(xml@) is None <==> (r matches Err(m) && m@
                == "malformed sport document"@),
            r matches Err(m) ==> (parse_sport_xml_spec(xml@) is Some ==> m@
                == "bad timestamp"@),
            parse_sport_xml_spec(xml@) matches Some(raw) ==> (
            crate::timeparse::parse_civil_spec(raw.start_time) is None ==> (r matches Err(m)
                && m@ == "bad timestamp"@)),
            match r {
                Ok(sp) => parse_sport_xml_spec(xml@) matches Some(raw)
                    && crate::timeparse::parse_civil_spec(raw.start_time) is Some && sp@
                    == resolved_sport(raw, sp@.start_time),
                Err(_) => true,
            },
    {
        proof {
            reveal_strlit("malformed sport document");
            reveal_strlit("bad timestamp");
        }
        let raw = match parse_sport_xml(xml) {
            Some(raw) => raw,
            None => {
                return Err("malformed sport document".to_owned());
            },
        };
        let ts = match crate::calendar::parse_timestamp(raw.start_time.as_str()) {
            Ok(t) => t,
            Err(e) => {
                proof {
                    assert(e@ == "bad timestamp"@);
                    assert(e@ != "malformed sport document"@) by {
                        assert(e@.len() == 13);
                        assert("malformed sport document"@.len() == 24);
                    }
                }
                return Err(e);
            },
        };
        let kind = raw.kind;
        let extra = match &raw.extra {
            None => None,
            Some(e) => from_raw_ref(kind, e),
        };
        let mut tracks: Vec<Track> = Vec::new();
        let mut i: usize = 0;
        while i < raw.tracks.len()
            invariant
                i <= raw.tracks@.len(),
                tracks@.len() == i,
                forall|j: int|
                    0 <= j < i ==> #[trigger] tracks@[j]@ == resolved_track(
                        kind,
                        raw.tracks@[j]@,
                    ),
            decreases raw.tracks@.len() - i,
        {
            let t = &raw.tracks[i];
            let textra = match &t.extra {
                None => None,
                Some(e) => from_raw_ref(kind, e),
            };
            tracks.push(
                Track {
                    distance_meter: t.distance_meter,
                    duration_second: t.duration_second,
                    pace_average: t.pace_average.clone(),
                    extra: textra,
                },
            );
            i += 1;
        }
        let sp = Sport {
            id: 0,
            kind,
            start_time: ts,
            calories: raw.calories,
            distance_meter: raw.distance_meter,
            duration_second: raw.duration_second,
            heart_rate_avg: raw.heart_rate_avg,
            heart_rate_max: raw.heart_rate_max,
            pace_average: raw.pace_average,
            extra,
            tracks,
        };
        proof {
            assert(sp@.tracks =~= Seq::new(
                raw@.tracks.len(),
                |j: int| resolved_track(kind, raw@.tracks[j]),
            ));
            assert(sp@ == resolved_sport(raw@, ts as int));
        }
        Ok(sp)
    }
}

/// One printed element.
pub open spec fn elem(name: Seq<char>, content: Seq<char>) -> Seq<char> {
    seq!['<'] + name + seq!['>'] + content + seq!['<', '/'] + name + seq!['>']
}

pub open spec fn num_elem(name: Seq<char>, v: int) -> Seq<char> {
    elem(name, int_chars(v))
}

/// The printed form of an extra block.
pub open spec fn serialize_extra_spec(e: SportExtraV) -> Seq<char> {
    match e {
        SportExtraV::Swimming(sw) => elem(
            "extra"@,
            elem("main_stroke"@, escape(sw.main_stroke)) + num_elem("stroke_avg"@, sw.stroke_avg)
                + num_elem("swolf_avg"@, sw.swolf_avg),
        ),
        SportExtraV::Running(rn) => elem(
            "extra"@,
            elem("speed_avg"@, escape(rn.speed_avg)) + num_elem("cadence_avg"@, rn.cadence_avg)
                + num_elem("stride_length_avg"@, rn.stride_length_avg) + num_elem(
                "steps_total"@,
                rn.steps_total,
            ) + elem("pace_min"@, escape(rn.pace_min)) + elem("pace_max"@, escape(rn.pace_max)),
        ),
    }
}

/// The printed form of one track.
pub open spec fn serialize_track_spec(t: TrackV) -> Seq<char> {
    elem(
        "tracks"@,
        num_elem("distance_meter"@, t.distance_meter) + num_elem(
            "duration_second"@,
            t.duration_second,
        ) + elem("pace_average"@, escape(t.pace_average)) + (match t.extra {
            None => Seq::<char>::empty(),
            Some(e) => serialize_extra_spec(e),
        }),
    )
}

pub open spec fn serialize_tracks_spec(ts: Seq<TrackV>) -> Seq<char>
    decreases ts.len(),
{
    if ts.len() == 0 {
        Seq::empty()
    } else {
        serialize_tracks_spec(ts.drop_last()) + serialize_track_spec(ts.last())
    }
}

/// The printed form of a whole record, in the wire shape, with the
/// start time printed as the given text.
pub open spec fn serialize_sport_spec(s: SportV, st: Seq<char>) -> Seq<char> {
    elem(
        "sport"@,
        num_elem("id"@, s.id) + elem("type"@, kind_name(s.kind)) + elem(
            "start_time"@,
            escape(st),
        ) + num_elem("calories"@, s.calories) + num_elem("distance_meter"@, s.distance_meter)
            + num_elem("duration_second"@, s.duration_second) + num_elem(
            "heart_rate_avg"@,
            s.heart_rate_avg,
        ) + num_elem("heart_rate_max"@, s.heart_rate_max) + elem(
            "pace_average"@,
            escape(s.pace_average),
        ) + (match s.extra {
            None => Seq::<char>::empty(),
            Some(e) => serialize_extra_spec(e),
        }) + serialize_tracks_spec(s.tracks),
    )
}

/// Entity-encodes text.
fn escape_exec(t: &str) -> (r: String)
    ensures
        r@ == escape(t@),
{
    let len = t.unicode_len();
    let mut out = String::new();
    let mut i: usize = 0;
    proof {
        assert(t@.skip(0) =~= t@);
        assert(out@ + escape(t@.skip(0)) =~= escape(t@));
    }
    while i < len
        invariant
            i <= len,
            len == t@.len(),
            escape(t@) == out@ + escape(t@.skip(i as int)),
        decreases len - i,
    {
        let c = t.get_char(i);
        let ghost suffix = t@.skip(i as int);
        proof {
            reveal_strlit("&amp;");
            reveal_strlit("&lt;");
            reveal_strlit("&gt;");
            assert(suffix[0] == t@[i as int]);
            assert(suffix.skip(1) =~= t@.skip(i + 1));
        }
        let ghost ob = out@;
        if c == '&' {
            out.append("&amp;");
            proof {
                assert(out@ =~= ob + "&amp;"@);
                assert(ob + ("&amp;"@ + escape(t@.skip(i + 1))) =~= out@ + escape(t@.skip(i + 1)));
            }
        } else if c == '<' {
            out.append("&lt;");
            proof {
                assert(out@ =~= ob + "&lt;"@);
                assert(ob + ("&lt;"@ + escape(t@.skip(i + 1))) =~= out@ + escape(t@.skip(i + 1)));
            }
        } else if c == '>' {
            out.append("&gt;");
            proof {
                assert(out@ =~= ob + "&gt;"@);
                assert(ob + ("&gt;"@ + escape(t@.skip(i + 1))) =~= out@ + escape(t@.skip(i + 1)));
            }
        } else {
            crate::text::push_char(&mut out, c);
            proof {
                assert(ob + (seq![c] + escape(t@.skip(i + 1))) =~= out@ + escape(t@.skip(i + 1)));
            }
        }
        i += 1;
    }
    proof {
        assert(t@.skip(len as int).len() == 0);
        assert(out@ + Seq::<char>::empty() =~= out@);
    }
    out
}

/// Appends `<name>content</name>` with the content as given.
fn append_elem(out: &mut String, name: &str, content: &str)
    ensures
        final(out)@ == old(out)@ + elem(name@, content@),
{
    let ghost ob = out@;
    crate::text::push_char(out, '<');
    out.append(name);
    crate::text::push_char(out, '>');
    out.append(content);
    crate::text::push_char(out, '<');
    crate::text::push_char(out, '/');
    out.append(name);
    crate::text::push_char(out, '>');
    proof {
        assert(out@ =~= ob + elem(name@, content@));
    }
}

fn append_num_elem(out: &mut String, name: &str, v: i64)
    ensures
        final(out)@ == old(out)@ + num_elem(name@, v as int),
{
    let text = crate::numtext::i64_to_string(v);
    append_elem(out, name, text.as_str());
}

fn append_extra(out: &mut String, e: &SportExtra)
    ensures
        final(out)@ == old(out)@ + serialize_extra_spec(e@),
{
    let ghost ob = out@;
    let mut inner = String::new();
    match e {
        SportExtra::Swimming(sw) => {
            append_elem(&mut inner, "main_stroke", escape_exec(sw.main_stroke.as_str()).as_str());
            append_num_elem(&mut inner, "stroke_avg", sw.stroke_avg as i64);
            append_num_elem(&mut inner, "swolf_avg", sw.swolf_avg as i64);
            append_elem(out, "extra", inner.as_str());
            proof {
                assert(inner@ =~= elem("main_stroke"@, escape(sw.main_stroke@)) + num_elem(
                    "stroke_avg"@,
                    sw.stroke_avg as int,
                ) + num_elem("swolf_avg"@, sw.swolf_avg as int));
                assert(out@ =~= ob + serialize_extra_spec(e@));
            }
        },
        SportExtra::Running(rn) => {
            append_elem(&mut inner, "speed_avg", escape_exec(rn.speed_avg.as_str()).as_str());
            append_num_elem(&mut inner, "cadence_avg", rn.cadence_avg as i64);
            append_num_elem(&mut inner, "stride_length_avg", rn.stride_length_avg as i64);
            append_num_elem(&mut inner, "steps_total", rn.steps_total as i64);
            append_elem(&mut inner, "pace_min", escape_exec(rn.pace_min.as_str()).as_str());
            append_elem(&mut inner, "pace_max", escape_exec(rn.pace_max.as_str()).as_str());
            append_elem(out, "extra", inner.as_str());
            proof {
                assert(inner@ =~= elem("speed_avg"@, escape(rn.speed_avg@)) + num_elem(
                    "cadence_avg"@,
                    rn.cadence_avg as int,
                ) + num_elem("stride_length_avg"@, rn.stride_length_avg as int) + num_elem(
                    "steps_total"@,
                    rn.steps_total as int,
                ) + elem("pace_min"@, escape(rn.pace_min@)) + elem(
                    "pace_max"@,
                    escape(rn.pace_max@),
                ));
                assert(out@ =~= ob + serialize_extra_spec(e@));
            }
        },
    }
}

impl Sport {
    /// Prints the record in the XML wire shape with the given start-time
    /// text: every field, the extra block of its variant, and one
    /// `tracks` element per track.
    pub fn to_xml_with_start(&self, start_text: &str) -> (r: String)
        ensures
            r@ == serialize_sport_spec(self@, start_text@),
    {
        let mut inner = String::new();
        append_num_elem(&mut inner, "id", self.id as i64);
        append_elem(&mut inner, "type", self.kind.as_str());
        append_elem(&mut inner, "start_time", escape_exec(start_text).as_str());
        append_num_elem(&mut inner, "calories", self.calories as i64);
        append_num_elem(&mut inner, "distance_meter", self.distance_meter as i64);
        append_num_elem(&mut inner, "duration_second", self.duration_second as i64);
        append_num_elem(&mut inner, "heart_rate_avg", self.heart_rate_avg as i64);
        append_num_elem(&mut inner, "heart_rate_max", self.heart_rate_max as i64);
        append_elem(&mut inner, "pace_average", escape_exec(self.pace_average.as_str()).as_str());
        match &self.extra {
            None => {},
            Some(e) => {
                append_extra(&mut inner, e);
            },
        }
        let ghost header = num_elem("id"@, self@.id) + elem("type"@, kind_name(self@.kind))
            + elem("start_time"@, escape(start_text@)) + num_elem("calories"@, self@.calories)
            + num_elem("distance_meter"@, self@.distance_meter) + num_elem(
            "duration_second"@,
            self@.duration_second,
        ) + num_elem("heart_rate_avg"@, self@.heart_rate_avg) + num_elem(
            "heart_rate_max"@,
            self@.heart_rate_max,
        ) + elem("pace_average"@, escape(self@.pace_average)) + (match self@.extra {
            None => Seq::<char>::empty(),
            Some(e) => serialize_extra_spec(e),
        });
        proof {
            assert(inner@ =~= header);
            assert(serialize_tracks_spec(self@.tracks.take(0)) =~= Seq::<char>::empty());
            assert(inner@ =~= header + serialize_tracks_spec(self@.tracks.take(0)));
        }
        let mut i: usize = 0;
        while i < self.tracks.len()
            invariant
                i <= self.tracks@.len(),
                self@.tracks.len() == self.tracks@.len(),
                inner@ == header + serialize_tracks_spec(self@.tracks.take(i as int)),
            decreases self.tracks@.len() - i,
        {
            let t = &self.tracks[i];
            let mut tin = String::new();
            append_num_elem(&mut tin, "distance_meter", t.distance_meter as i64);
            append_num_elem(&mut tin, "duration_second", t.duration_second as i64);
            append_elem(&mut tin, "pace_average", escape_exec(t.pace_average.as_str()).as_str());
            match &t.extra {
                None => {},
                Some(e) => {
                    append_extra(&mut tin, e);
                },
            }
            let ghost ib = inner@;
            append_elem(&mut inner, "tracks", tin.as_str());
            proof {
                assert(t@ == self@.tracks[i as int]);
                assert(tin@ =~= num_elem("distance_meter"@, t@.distance_meter) + num_elem(
                    "duration_second"@,
                    t@.duration_second,
                ) + elem("pace_average"@, escape(t@.pace_average)) + (match t@.extra {
                    None => Seq::<char>::empty(),
                    Some(e) => serialize_extra_spec(e),
                }));
                assert(elem("tracks"@, tin@) == serialize_track_spec(t@));
                assert(self@.tracks.take(i + 1).drop_last() =~= self@.tracks.take(i as int));
                assert(self@.tracks.take(i + 1).last() == self@.tracks[i as int]);
                assert(inner@ =~= header + serialize_tracks_spec(self@.tracks.take(i + 1)));
            }
            i += 1;
        }
        proof {
            assert(self@.tracks.take(self.tracks@.len() as int) =~= self@.tracks);
        }
        let mut out = String::new();
        append_elem(&mut out, "sport", inner.as_str());
        proof {
            assert(out@ =~= serialize_sport_spec(self@, start_text@));
        }
        out
    }

    /// Prints the record in the XML wire shape, the start time rendered
    /// as the full-precision local civil text — the form the timestamp
    /// grammar accepts back — falling back to the epoch decimal for an
    /// instant with no such rendering.
    pub fn to_xml(&self) -> (r: String)
        ensures
            exists|st: Seq<char>|
                {
                    &&& r@ == serialize_sport_spec(self@, st)
                    &&& ((exists|c: crate::timeparse::CivilV|
                        crate::timeparse::civil_fields_valid(c) && st
                            == crate::timeparse::format_civil_spec(c)) || st == int_chars(
                        self@.start_time,
                    ))
                },
    {
        match crate::calendar::format_timestamp(self.start_time) {
            Some(t) => self.to_xml_with_start(t.as_str()),
            None => {
                let fallback = crate::numtext::i64_to_string(self.start_time);
                self.to_xml_with_start(fallback.as_str())
            },
        }
    }
}

/// Entity-decoding inverts entity-encoding on every text: what the
/// printer writes into an element, the parser reads back exactly.
pub proof fn lemma_unescape_escape(t: Seq<char>)
    ensures
        unescape(escape(t)) == Some(t),
    decreases t.len(),
{
    reveal_strlit("&amp;");
    reveal_strlit("&lt;");
    reveal_strlit("&gt;");
    reveal_strlit("&apos;");
    reveal_strlit("&quot;");
    if t.len() == 0 {
        assert(escape(t).len() == 0);
    } else {
        lemma_unescape_escape(t.skip(1));
        let e = escape(t);
        let rest = escape(t.skip(1));
        if t[0] == '&' {
            assert(e =~= "&amp;"@ + rest);
            assert(e.len() >= 5);
            assert(e[0] == '&');
            assert(e.subrange(0, 5) =~= "&amp;"@);
            assert(e.skip(5) =~= rest);
            assert(unescape(e) == Some(seq!['&'] + t.skip(1)));
            assert(seq!['&'] + t.skip(1) =~= t);
        } else if t[0] == '<' {
            assert(e =~= "&lt;"@ + rest);
            assert(e.len() >= 4);
            assert(e[0] == '&');
            if e.len() >= 5 && e.subrange(0, 5) == "&amp;"@ {
                assert(e.subrange(0, 5)[1] == 'a');
                assert(e[1] == 'l');
                assert(false);
            }
            assert(e.subrange(0, 4) =~= "&lt;"@);
            assert(e.skip(4) =~= rest);
            assert(unescape(e) == Some(seq!['<'] + t.skip(1)));
            assert(seq!['<'] + t.skip(1) =~= t);
        } else if t[0] == '>' {
            assert(e =~= "&gt;"@ + rest);
            assert(e.len() >= 4);
            assert(e[0] == '&');
            if e.len() >= 5 && e.subrange(0, 5) == "&amp;"@ {
                assert(e.subrange(0, 5)[1] == 'a');
                assert(e[1] == 'g');
                assert(false);
            }
            if e.subrange(0, 4) == "&lt;"@ {
                assert(e.subrange(0, 4)[1] == 'l');
                assert(e[1] == 'g');
                assert(false);
            }
            assert(e.subrange(0, 4) =~= "&gt;"@);
            assert(e.skip(4) =~= rest);
            assert(unescape(e) == Some(seq!['>'] + t.skip(1)));
            assert(seq!['>'] + t.skip(1) =~= t);
        } else {
            assert(e =~= seq![t[0]] + rest);
            assert(e[0] == t[0]);
            assert(e[0] != '&');
            assert(e.skip(1) =~= rest);
            assert(unescape(e) == Some(seq![t[0]] + t.skip(1)));
            assert(seq![t[0]] + t.skip(1) =~= t);
        }
    }
}

/// Entity-encoded text never contains `<` (nor a bare `&`), so it forms
/// one whole text run.
proof fn lemma_escape_no_lt(t: Seq<char>)
    ensures
        forall|i: int| 0 <= i < escape(t).len() ==> #[trigger] escape(t)[i] != '<',
    decreases t.len(),
{
    reveal_strlit("&amp;");
    reveal_strlit("&lt;");
    reveal_strlit("&gt;");
    if t.len() > 0 {
        lemma_escape_no_lt(t.skip(1));
        let e = escape(t);
        let head: Seq<char> = if t[0] == '&' {
            "&amp;"@
        } else if t[0] == '<' {
            "&lt;"@
        } else if t[0] == '>' {
            "&gt;"@
        } else {
            seq![t[0]]
        };
        assert(forall|i: int| 0 <= i < head.len() ==> #[trigger] head[i] != '<');
        assert forall|i: int| 0 <= i < e.len() implies #[trigger] e[i] != '<' by {
            if i < head.len() {
                assert(e[i] == head[i]);
            } else {
                assert(e[i] == escape(t.skip(1))[i - head.len()]);
            }
        }
    }
}

/// One printed element reads back exactly: the opening tag gives the
/// name, the text run decodes to the original text, and the closing tag
/// ends at the element's end.
pub proof fn lemma_element_round_trip(nm: Seq<char>, txt: Seq<char>)
    requires
        nm.len() >= 1,
        forall|i: int| 0 <= i < nm.len() ==> is_name_char(#[trigger] nm[i]),
    ensures
        parse_open(elem(nm, escape(txt)), 0) == Some((nm, nm.len() as int + 2)),
        parse_scalar(elem(nm, escape(txt)), nm.len() as int + 2, nm) == Some(
            (txt, elem(nm, escape(txt)).len() as int),
        ),
{
    let enc = escape(txt);
    let s = elem(nm, enc);
    let open_end = nm.len() as int + 2;
    let text_end = open_end + enc.len();
    assert(s.len() == nm.len() + enc.len() + nm.len() + 5);
    // the element laid out by absolute position
    assert(s[0] == '<');
    assert(forall|i: int| 0 <= i < nm.len() ==> #[trigger] s[1 + i] == nm[i]);
    assert(s[1 + nm.len() as int] == '>');
    assert(forall|i: int| 0 <= i < enc.len() ==> #[trigger] s[open_end + i] == enc[i]);
    assert(s[text_end] == '<');
    assert(s[text_end + 1] == '/');
    assert(forall|i: int| 0 <= i < nm.len() ==> #[trigger] s[text_end + 2 + i] == nm[i]);
    assert(s[text_end + 2 + nm.len() as int] == '>');
    // the opening tag
    assert(!is_name_char('>'));
    lemma_name_run_is(s, 1, 1 + nm.len() as int);
    assert(s.subrange(1, 1 + nm.len() as int) =~= nm);
    assert(parse_open(s, 0) == Some((nm, open_end)));
    // the text run covers exactly the encoded text
    lemma_escape_no_lt(txt);
    assert(forall|k: int| open_end <= k < text_end ==> #[trigger] s[k] != '<');
    lemma_text_run_is(s, open_end, text_end);
    assert(s.subrange(open_end, text_end) =~= enc);
    lemma_unescape_escape(txt);
    // the closing tag
    assert(s.subrange(text_end + 2, text_end + 2 + nm.len() as int) =~= nm);
    assert(parse_close(s, text_end, nm) == Some(s.len() as int));
    assert(parse_scalar(s, open_end, nm) == Some((txt, s.len() as int)));
}

/// Entity-encoding fixes text without `&`, `<` or `>`.
proof fn lemma_escape_id(t: Seq<char>)
    requires
        forall|i: int| 0 <= i < t.len() ==> #[trigger] t[i] != '&' && t[i] != '<' && t[i] != '>',
    ensures
        escape(t) == t,
    decreases t.len(),
{
    if t.len() == 0 {
        assert(escape(t) =~= t);
    } else {
        assert(forall|i: int|
            0 <= i < t.skip(1).len() ==> #[trigger] t.skip(1)[i] != '&' && t.skip(1)[i] != '<'
                && t.skip(1)[i] != '>');
        lemma_escape_id(t.skip(1));
        assert(escape(t) =~= seq![t[0]] + t.skip(1));
        assert(seq![t[0]] + t.skip(1) =~= t);
    }
}

/// Trimming fixes text without blanks.
proof fn lemma_trim_id(t: Seq<char>)
    requires
        forall|i: int| 0 <= i < t.len() ==> !is_ws(#[trigger] t[i]),
    ensures
        trim_spec(t) == t,
{
    if t.len() == 0 {
        assert(trim_spec(t) =~= t);
    } else {
        assert(ws_run(t, 0) == 0);
        assert(trailing_ws(t) == 0);
        assert(trim_spec(t) =~= t);
    }
}

/// The decimal rendering of an integer passes untouched through the
/// escape, trim and parse of a numeric element: numeric fields survive
/// a print/parse cycle exactly.
pub proof fn lemma_numeric_element_round_trip(v: int)
    ensures
        escape(int_chars(v)) == int_chars(v),
        trim_spec(int_chars(v)) == int_chars(v),
        parse_i32_field(int_chars(v)) == (if -0x8000_0000 <= v <= 0x7FFF_FFFF {
            Some(v)
        } else {
            None
        }),
{
    crate::numtext::lemma_int_chars_chars(v);
    let t = int_chars(v);
    assert forall|i: int| 0 <= i < t.len() implies #[trigger] t[i] != '&' && t[i] != '<' && t[i]
        != '>' by {
        assert(crate::timeparse::is_digit(t[i]) || t[i] == '-');
    }
    lemma_escape_id(t);
    assert forall|i: int| 0 <= i < t.len() implies !is_ws(#[trigger] t[i]) by {
        assert(crate::timeparse::is_digit(t[i]) || t[i] == '-');
    }
    lemma_trim_id(t);
    crate::numtext::lemma_int_chars_round_trip(v);
}

/// The printed scalar elements of a record without extra data, the
/// start time printed as `st`.
spec fn scalar_elems(v: SportV, st: Seq<char>) -> Seq<Seq<char>> {
    seq![
        elem("id"@, escape(int_chars(v.id))),
        elem("type"@, escape(kind_name(v.kind))),
        elem("start_time"@, escape(st)),
        elem("calories"@, escape(int_chars(v.calories))),
        elem("distance_meter"@, escape(int_chars(v.distance_meter))),
        elem("duration_second"@, escape(int_chars(v.duration_second))),
        elem("heart_rate_avg"@, escape(int_chars(v.heart_rate_avg))),
        elem("heart_rate_max"@, escape(int_chars(v.heart_rate_max))),
        elem("pace_average"@, escape(v.pace_average)),
    ]
}

/// The closing tag of the document element.
spec fn closing_tag() -> Seq<char> {
    seq!['<', '/'] + "sport"@ + seq!['>']
}

/// The document text from the `k`-th scalar element on.
spec fn tails(v: SportV, st: Seq<char>, k: int) -> Seq<char>
    decreases 9 - k,
{
    if k >= 9 || k < 0 {
        closing_tag()
    } else {
        scalar_elems(v, st)[k] + tails(v, st, k + 1)
    }
}

/// The position of the `k`-th scalar element.
spec fn poss(v: SportV, st: Seq<char>, k: int) -> int
    decreases k,
{
    if k <= 0 {
        7
    } else {
        poss(v, st, k - 1) + scalar_elems(v, st)[k - 1].len()
    }
}

/// The accumulator after folding the first `k` scalar elements.
spec fn accs(v: SportV, st: Seq<char>, k: int) -> RawAccV {
    RawAccV {
        type_txt: if k >= 2 { Some(kind_name(v.kind)) } else { None },
        start_time: if k >= 3 { Some(st) } else { None },
        calories: if k >= 4 { Some(v.calories) } else { None },
        distance_meter: if k >= 5 { Some(v.distance_meter) } else { None },
        duration_second: if k >= 6 { Some(v.duration_second) } else { None },
        heart_rate_avg: if k >= 7 { Some(v.heart_rate_avg) } else { None },
        heart_rate_max: if k >= 8 { Some(v.heart_rate_max) } else { None },
        pace_average: if k >= 9 { Some(v.pace_average) } else { None },
        extra: None,
        tracks: Seq::empty(),
    }
}

/// All numeric fields of the record sit in their machine ranges.
pub open spec fn sport_in_ranges(v: SportV) -> bool {
    &&& -0x8000_0000 <= v.id <= 0x7FFF_FFFF
    &&& -0x8000_0000 <= v.calories <= 0x7FFF_FFFF
    &&& -0x8000_0000 <= v.distance_meter <= 0x7FFF_FFFF
    &&& -0x8000_0000 <= v.duration_second <= 0x7FFF_FFFF
    &&& -0x8000_0000 <= v.heart_rate_avg <= 0x7FFF_FFFF
    &&& -0x8000_0000 <= v.heart_rate_max <= 0x7FFF_FFFF
}

/// Splitting a suffix decomposition at its first block.
proof fn lemma_split_at(s: Seq<char>, n: int, mid: Seq<char>, rest: Seq<char>)
    requires
        0 <= n <= s.len(),
        s.subrange(n, s.len() as int) == mid + rest,
    ensures
        n + mid.len() + rest.len() == s.len(),
        s.subrange(n, n + mid.len() as int) == mid,
        s.subrange(n + mid.len() as int, s.len() as int) == rest,
        rest.len() >= 1 ==> s[n + mid.len() as int] == rest[0],
{
    assert(s.subrange(n, s.len() as int).len() == mid.len() + rest.len());
    assert forall|i: int| 0 <= i < mid.len() implies #[trigger] s.subrange(
        n,
        n + mid.len() as int,
    )[i] == mid[i] by {
        assert(s.subrange(n, s.len() as int)[i] == (mid + rest)[i]);
    }
    assert(s.subrange(n, n + mid.len() as int) =~= mid);
    assert forall|i: int| 0 <= i < rest.len() implies #[trigger] s.subrange(
        n + mid.len() as int,
        s.len() as int,
    )[i] == rest[i] by {
        assert(s.subrange(n + mid.len() as int, s.len() as int)[i] == s[n + mid.len() + i]);
        assert(s.subrange(n, s.len() as int)[mid.len() + i] == s[n + mid.len() + i]);
        assert(s.subrange(n, s.len() as int)[mid.len() + i] == (mid + rest)[mid.len() + i]);
    }
    assert(s.subrange(n + mid.len() as int, s.len() as int) =~= rest);
    if rest.len() >= 1 {
        assert(s.subrange(n + mid.len() as int, s.len() as int)[0] == rest[0]);
    }
}

/// The canonical kind names pass untouched through entity encoding and
/// are made of name characters.
proof fn lemma_kind_name_clean(k: SportType)
    ensures
        escape(kind_name(k)) == kind_name(k),
        kind_name(k).len() >= 1,
        forall|i: int| 0 <= i < kind_name(k).len() ==> is_name_char(#[trigger] kind_name(k)[i]),
{
    reveal_strlit("Unknown");
    reveal_strlit("Swimming");
    reveal_strlit("Running");
    reveal_strlit("Cycling");
    let nmk = kind_name(k);
    assert forall|i: int| 0 <= i < nmk.len() implies is_name_char(#[trigger] nmk[i]) && nmk[i]
        != '&' && nmk[i] != '<' && nmk[i] != '>' by {
        match k {
            SportType::Unknown => {},
            SportType::Swimming => {},
            SportType::Running => {},
            SportType::Cycling => {},
        }
    }
    lemma_escape_id(nmk);
}

/// One printed scalar element at `pos` advances the document fold by one
/// field assignment.
#[verifier::rlimit(100)]
#[verifier::spinoff_prover]
proof fn lemma_sport_step(
    s: Seq<char>,
    pos: int,
    nm: Seq<char>,
    txt: Seq<char>,
    acc: RawAccV,
    acc2: RawAccV,
)
    requires
        0 <= pos,
        pos + elem(nm, escape(txt)).len() <= s.len(),
        s.subrange(pos, pos + elem(nm, escape(txt)).len() as int) == elem(nm, escape(txt)),
        pos + elem(nm, escape(txt)).len() < s.len(),
        s[pos + elem(nm, escape(txt)).len() as int] == '<',
        nm.len() >= 1,
        forall|i: int| 0 <= i < nm.len() ==> is_name_char(#[trigger] nm[i]),
        nm != "extra"@,
        nm != "tracks"@,
        set_sport_field(acc, nm, txt) == Some(acc2),
    ensures
        sport_items(s, pos, acc) == sport_items(
            s,
            pos + elem(nm, escape(txt)).len() as int,
            acc2,
        ),
{
    let enc = escape(txt);
    let e = elem(nm, enc);
    let open_end = pos + nm.len() as int + 2;
    let text_end = open_end + enc.len();
    let close_end = pos + e.len() as int;
    assert(e.len() == nm.len() + enc.len() + nm.len() + 5);
    assert forall|k: int| pos <= k < pos + e.len() implies #[trigger] s[k] == e[k - pos] by {
        assert(s.subrange(pos, pos + e.len() as int)[k - pos] == s[k]);
    }
    assert(s[pos] == '<');
    assert(ws_run(s, pos) == 0);
    assert(s[pos + 1] == nm[0]);
    assert(is_name_char(nm[0]));
    assert(!is_close_at(s, pos));
    assert forall|i: int| pos + 1 <= i < pos + 1 + nm.len() implies is_name_char(
        #[trigger] s[i],
    ) by {
        assert(s[i] == e[i - pos]);
        assert(e[i - pos] == nm[i - pos - 1]);
    }
    assert(s[pos + 1 + nm.len() as int] == '>');
    assert(!is_name_char('>'));
    lemma_name_run_is(s, pos + 1, pos + 1 + nm.len() as int);
    assert(s.subrange(pos + 1, pos + 1 + nm.len() as int) =~= nm);
    assert(parse_open(s, pos) == Some((nm, open_end)));
    lemma_escape_no_lt(txt);
    assert forall|k: int| open_end <= k < text_end implies #[trigger] s[k] != '<' by {
        assert(s[k] == e[k - pos]);
        assert(e[k - pos] == enc[k - open_end]);
    }
    assert(s[text_end] == e[text_end - pos]);
    assert(s[text_end] == '<');
    lemma_text_run_is(s, open_end, text_end);
    assert(s.subrange(open_end, text_end) =~= enc);
    lemma_unescape_escape(txt);
    assert(s[text_end + 1] == '/');
    assert(s[text_end + 2 + nm.len() as int] == '>');
    assert(s.subrange(text_end + 2, text_end + 2 + nm.len() as int) =~= nm);
    assert(parse_close(s, text_end, nm) == Some(close_end));
    assert(parse_scalar(s, open_end, nm) == Some((txt, close_end)));
    assert(close_end > pos);
}

/// The document's closing tag ends the fold with the accumulated state.
proof fn lemma_sport_close(s: Seq<char>, pos: int, acc: RawAccV)
    requires
        0 <= pos,
        pos + 8 <= s.len(),
        s.subrange(pos, pos + 8) == "</sport>"@,
    ensures
        sport_items(s, pos, acc) == Some((acc, pos + 8)),
{
    reveal_strlit("</sport>");
    reveal_strlit("sport");
    assert forall|k: int| pos <= k < pos + 8 implies #[trigger] s[k] == "</sport>"@[k - pos] by {
        assert(s.subrange(pos, pos + 8)[k - pos] == s[k]);
    }
    assert(s[pos] == '<');
    assert(ws_run(s, pos) == 0);
    assert(s[pos + 1] == '/');
    assert(is_close_at(s, pos));
    assert(s.subrange(pos + 2, pos + 2 + 5) =~= "sport"@);
    assert(s[pos + 7] == '>');
    assert(parse_close(s, pos, "sport"@) == Some(pos + 8));
}

/// The printed document opens with the `sport` tag followed by the nine
/// scalar elements and the closing tag.
#[verifier::rlimit(100)]
#[verifier::spinoff_prover]
proof fn lemma_doc_shape(v: SportV, st: Seq<char>)
    requires
        v.extra is None,
        v.tracks.len() == 0,
    ensures
        misc_skip(serialize_sport_spec(v, st), 0) == 0,
        parse_open(serialize_sport_spec(v, st), 0) == Some(("sport"@, 7int)),
        serialize_sport_spec(v, st).subrange(7, serialize_sport_spec(v, st).len() as int) == tails(v, st, 0),
{
    reveal_strlit("sport");
    lemma_kind_name_clean(v.kind);
    lemma_numeric_element_round_trip(v.id);
    lemma_numeric_element_round_trip(v.calories);
    lemma_numeric_element_round_trip(v.distance_meter);
    lemma_numeric_element_round_trip(v.duration_second);
    lemma_numeric_element_round_trip(v.heart_rate_avg);
    lemma_numeric_element_round_trip(v.heart_rate_max);
    let s = serialize_sport_spec(v, st);
    let es = scalar_elems(v, st);
    let h1 = seq!['<'];
    let nm = "sport"@;
    let h2 = seq!['>'];
    let h3 = seq!['<', '/'];
    let h4 = seq!['>'];
    let head = h1 + nm + h2;
    let closing = closing_tag();
    let p2 = es[0] + es[1];
    let p3 = p2 + es[2];
    let p4 = p3 + es[3];
    let p5 = p4 + es[4];
    let p6 = p5 + es[5];
    let p7 = p6 + es[6];
    let p8 = p7 + es[7];
    let p9 = p8 + es[8];
    assert(serialize_tracks_spec(v.tracks) =~= Seq::<char>::empty());
    let inner0 = p9 + Seq::<char>::empty() + serialize_tracks_spec(v.tracks);
    assert(s == elem(nm, inner0));
    assert(p9 + Seq::<char>::empty() =~= p9);
    assert(inner0 =~= p9);
    assert(s == elem(nm, p9));
    vstd::seq_lib::lemma_concat_associative(head + p9, h3, nm);
    vstd::seq_lib::lemma_concat_associative(head + p9, h3 + nm, h4);
    vstd::seq_lib::lemma_concat_associative(head, p9, closing);
    assert(s == head + (p9 + closing));
    assert(tails(v, st, 9) == closing);
    assert(tails(v, st, 8) == es[8] + closing);
    assert(tails(v, st, 7) == es[7] + tails(v, st, 8));
    assert(tails(v, st, 6) == es[6] + tails(v, st, 7));
    assert(tails(v, st, 5) == es[5] + tails(v, st, 6));
    assert(tails(v, st, 4) == es[4] + tails(v, st, 5));
    assert(tails(v, st, 3) == es[3] + tails(v, st, 4));
    assert(tails(v, st, 2) == es[2] + tails(v, st, 3));
    assert(tails(v, st, 1) == es[1] + tails(v, st, 2));
    assert(tails(v, st, 0) == es[0] + tails(v, st, 1));
    vstd::seq_lib::lemma_concat_associative(p8, es[8], closing);
    vstd::seq_lib::lemma_concat_associative(p7, es[7], tails(v, st, 8));
    vstd::seq_lib::lemma_concat_associative(p6, es[6], tails(v, st, 7));
    vstd::seq_lib::lemma_concat_associative(p5, es[5], tails(v, st, 6));
    vstd::seq_lib::lemma_concat_associative(p4, es[4], tails(v, st, 5));
    vstd::seq_lib::lemma_concat_associative(p3, es[3], tails(v, st, 4));
    vstd::seq_lib::lemma_concat_associative(p2, es[2], tails(v, st, 3));
    vstd::seq_lib::lemma_concat_associative(es[0], es[1], tails(v, st, 2));
    assert(p9 + closing == tails(v, st, 0));
    assert(s == head + tails(v, st, 0));
    assert(s.subrange(0, s.len() as int) =~= s);
    lemma_split_at(s, 0, head, tails(v, st, 0));
    assert(head.len() == 7);
    assert forall|k: int| 0 <= k < 7 implies #[trigger] s[k] == head[k] by {
        assert(s.subrange(0, 7)[k] == s[k]);
    }
    assert(s[0] == '<');
    assert(s[1] == 's');
    assert(misc_skip(s, 0) == 0);
    assert forall|i: int| 1 <= i < 6 implies is_name_char(#[trigger] s[i]) by {
        assert(s[i] == head[i]);
        assert(head[i] == nm[i - 1]);
    }
    assert(s[6] == '>');
    assert(!is_name_char('>'));
    lemma_name_run_is(s, 1, 6);
    assert(s.subrange(1, 6) =~= nm);
    assert(parse_open(s, 0) == Some((nm, 7int)));
}

/// The document text from the `k`-th element's position on is that
/// element's tail.
proof fn lemma_tail_at(v: SportV, st: Seq<char>, k: int)
    requires
        v.extra is None,
        v.tracks.len() == 0,
        0 <= k <= 9,
    ensures
        7 <= poss(v, st, k),
        poss(v, st, k) + tails(v, st, k).len() == serialize_sport_spec(v, st).len(),
        serialize_sport_spec(v, st).subrange(poss(v, st, k), serialize_sport_spec(v, st).len() as int)
            == tails(v, st, k),
    decreases k,
{
    let s = serialize_sport_spec(v, st);
    if k == 0 {
        lemma_doc_shape(v, st);
        assert(s.subrange(7, s.len() as int).len() == tails(v, st, 0).len());
    } else {
        lemma_tail_at(v, st, k - 1);
        assert(tails(v, st, k - 1) == scalar_elems(v, st)[k - 1] + tails(v, st, k));
        lemma_split_at(s, poss(v, st, k - 1), scalar_elems(v, st)[k - 1], tails(v, st, k));
    }
}

/// Folding the `id` element.
#[verifier::rlimit(100)]
#[verifier::spinoff_prover]
proof fn lemma_walk_0(v: SportV, st: Seq<char>)
    requires
        sport_in_ranges(v),
        v.extra is None,
        v.tracks.len() == 0,
    ensures
        sport_items(serialize_sport_spec(v, st), poss(v, st, 0), accs(v, st, 0)) == sport_items(
            serialize_sport_spec(v, st),
            poss(v, st, 1),
            accs(v, st, 1),
        ),
{
    reveal_strlit("id");
    reveal_strlit("type");
    reveal_strlit("start_time");
    reveal_strlit("calories");
    reveal_strlit("distance_meter");
    reveal_strlit("duration_second");
    reveal_strlit("heart_rate_avg");
    reveal_strlit("heart_rate_max");
    reveal_strlit("pace_average");
    reveal_strlit("extra");
    reveal_strlit("tracks");
    reveal_strlit("sport");
    lemma_kind_name_clean(v.kind);
    lemma_numeric_element_round_trip(v.id);
    let s = serialize_sport_spec(v, st);
    let nm = "id"@;
    let txt = int_chars(v.id);
    lemma_tail_at(v, st, 0);
    lemma_tail_at(v, st, 1);
    assert(tails(v, st, 0) == scalar_elems(v, st)[0] + tails(v, st, 1));
    lemma_split_at(s, poss(v, st, 0), scalar_elems(v, st)[0], tails(v, st, 1));
    assert(tails(v, st, 1).len() >= 1);
    assert(tails(v, st, 1)[0] == '<');
    assert(s[poss(v, st, 1)] == '<');
    assert(set_sport_field(accs(v, st, 0), nm, txt) == Some(accs(v, st, 1)));
    assert(scalar_elems(v, st)[0] == elem(nm, escape(txt)));
    lemma_sport_step(s, poss(v, st, 0), nm, txt, accs(v, st, 0), accs(v, st, 1));
    assert(poss(v, st, 0) + elem(nm, escape(txt)).len() == poss(v, st, 1));
}

/// Folding the `type` element.
#[verifier::rlimit(100)]
#[verifier::spinoff_prover]
proof fn lemma_walk_1(v: SportV, st: Seq<char>)
    requires
        sport_in_ranges(v),
        v.extra is None,
        v.tracks.len() == 0,
    ensures
        sport_items(serialize_sport_spec(v, st), poss(v, st, 1), accs(v, st, 1)) == sport_items(
            serialize_sport_spec(v, st),
            poss(v, st, 2),
            accs(v, st, 2),
        ),
{
    reveal_strlit("id");
    reveal_strlit("type");
    reveal_strlit("start_time");
    reveal_strlit("calories");
    reveal_strlit("distance_meter");
    reveal_strlit("duration_second");
    reveal_strlit("heart_rate_avg");
    reveal_strlit("heart_rate_max");
    reveal_strlit("pace_average");
    reveal_strlit("extra");
    reveal_strlit("tracks");
    reveal_strlit("sport");
    lemma_kind_name_clean(v.kind);
    lemma_kind_name_clean(v.kind);
    let s = serialize_sport_spec(v, st);
    let nm = "type"@;
    let txt = kind_name(v.kind);
    lemma_tail_at(v, st, 1);
    lemma_tail_at(v, st, 2);
    assert(tails(v, st, 1) == scalar_elems(v, st)[1] + tails(v, st, 2));
    lemma_split_at(s, poss(v, st, 1), scalar_elems(v, st)[1], tails(v, st, 2));
    assert(tails(v, st, 2).len() >= 1);
    assert(tails(v, st, 2)[0] == '<');
    assert(s[poss(v, st, 2)] == '<');
    assert(set_sport_field(accs(v, st, 1), nm, txt) == Some(accs(v, st, 2)));
    assert(scalar_elems(v, st)[1] == elem(nm, escape(txt)));
    lemma_sport_step(s, poss(v, st, 1), nm, txt, accs(v, st, 1), accs(v, st, 2));
    assert(poss(v, st, 1) + elem(nm, escape(txt)).len() == poss(v, st, 2));
}

/// Folding the `start_time` element.
#[verifier::rlimit(100)]
#[verifier::spinoff_prover]
proof fn lemma_walk_2(v: SportV, st: Seq<char>)
    requires
        sport_in_ranges(v),
        v.extra is None,
        v.tracks.len() == 0,
    ensures
        sport_items(serialize_sport_spec(v, st), poss(v, st, 2), accs(v, st, 2)) == sport_items(
            serialize_sport_spec(v, st),
            poss(v, st, 3),
            accs(v, st, 3),
        ),
{
    reveal_strlit("id");
    reveal_strlit("type");
    reveal_strlit("start_time");
    reveal_strlit("calories");
    reveal_strlit("distance_meter");
    reveal_strlit("duration_second");
    reveal_strlit("heart_rate_avg");
    reveal_strlit("heart_rate_max");
    reveal_strlit("pace_average");
    reveal_strlit("extra");
    reveal_strlit("tracks");
    reveal_strlit("sport");
    lemma_kind_name_clean(v.kind);
    let s = serialize_sport_spec(v, st);
    let nm = "start_time"@;
    let txt = st;
    lemma_tail_at(v, st, 2);
    lemma_tail_at(v, st, 3);
    assert(tails(v, st, 2) == scalar_elems(v, st)[2] + tails(v, st, 3));
    lemma_split_at(s, poss(v, st, 2), scalar_elems(v, st)[2], tails(v, st, 3));
    assert(tails(v, st, 3).len() >= 1);
    assert(tails(v, st, 3)[0] == '<');
    assert(s[poss(v, st, 3)] == '<');
    assert(set_sport_field(accs(v, st, 2), nm, txt) == Some(accs(v, st, 3)));
    assert(scalar_elems(v, st)[2] == elem(nm, escape(txt)));
    lemma_sport_step(s, poss(v, st, 2), nm, txt, accs(v, st, 2), accs(v, st, 3));
    assert(poss(v, st, 2) + elem(nm, escape(txt)).len() == poss(v, st, 3));
}

/// Folding the `calories` element.
#[verifier::rlimit(100)]
#[verifier::spinoff_prover]
proof fn lemma_walk_3(v: SportV, st: Seq<char>)
    requires
        sport_in_ranges(v),
        v.extra is None,
        v.tracks.len() == 0,
    ensures
        sport_items(serialize_sport_spec(v, st), poss(v, st, 3), accs(v, st, 3)) == sport_items(
            serialize_sport_spec(v, st),
            poss(v, st, 4),
            accs(v, st, 4),
        ),
{
    reveal_strlit("id");
    reveal_strlit("type");
    reveal_strlit("start_time");
    reveal_strlit("calories");
    reveal_strlit("distance_meter");
    reveal_strlit("duration_second");
    reveal_strlit("heart_rate_avg");
    reveal_strlit("heart_rate_max");
    reveal_strlit("pace_average");
    reveal_strlit("extra");
    reveal_strlit("tracks");
    reveal_strlit("sport");
    lemma_kind_name_clean(v.kind);
    lemma_numeric_element_round_trip(v.calories);
    let s = serialize_sport_spec(v, st);
    let nm = "calories"@;
    let txt = int_chars(v.calories);
    lemma_tail_at(v, st, 3);
    lemma_tail_at(v, st, 4);
    assert(tails(v, st, 3) == scalar_elems(v, st)[3] + tails(v, st, 4));
    lemma_split_at(s, poss(v, st, 3), scalar_elems(v, st)[3], tails(v, st, 4));
    assert(tails(v, st, 4).len() >= 1);
    assert(tails(v, st, 4)[0] == '<');
    assert(s[poss(v, st, 4)] == '<');
    assert(set_sport_field(accs(v, st, 3), nm, txt) == Some(accs(v, st, 4)));
    assert(scalar_elems(v, st)[3] == elem(nm, escape(txt)));
    lemma_sport_step(s, poss(v, st, 3), nm, txt, accs(v, st, 3), accs(v, st, 4));
    assert(poss(v, st, 3) + elem(nm, escape(txt)).len() == poss(v, st, 4));
}

/// Folding the `distance_meter` element.
#[verifier::rlimit(100)]
#[verifier::spinoff_prover]
proof fn lemma_walk_4(v: SportV, st: Seq<char>)
    requires
        sport_in_ranges(v),
        v.extra is None,
        v.tracks.len() == 0,
    ensures
        sport_items(serialize_sport_spec(v, st), poss(v, st, 4), accs(v, st, 4)) == sport_items(
            serialize_sport_spec(v, st),
            poss(v, st, 5),
            accs(v, st, 5),
        ),
{
    reveal_strlit("id");
    reveal_strlit("type");
    reveal_strlit("start_time");
    reveal_strlit("calories");
    reveal_strlit("distance_meter");
    reveal_strlit("duration_second");
    reveal_strlit("heart_rate_avg");
    reveal_strlit("heart_rate_max");
    reveal_strlit("pace_average");
    reveal_strlit("extra");
    reveal_strlit("tracks");
    reveal_strlit("sport");
    lemma_kind_name_clean(v.kind);
    lemma_numeric_element_round_trip(v.distance_meter);
    let s = serialize_sport_spec(v, st);
    let nm = "distance_meter"@;
    let txt = int_chars(v.distance_meter);
    lemma_tail_at(v, st, 4);
    lemma_tail_at(v, st, 5);
    assert(tails(v, st, 4) == scalar_elems(v, st)[4] + tails(v, st, 5));
    lemma_split_at(s, poss(v, st, 4), scalar_elems(v, st)[4], tails(v, st, 5));
    assert(tails(v, st, 5).len() >= 1);
    assert(tails(v, st, 5)[0] == '<');
    assert(s[poss(v, st, 5)] == '<');
    assert(set_sport_field(accs(v, st, 4), nm, txt) == Some(accs(v, st, 5)));
    assert(scalar_elems(v, st)[4] == elem(nm, escape(txt)));
    lemma_sport_step(s, poss(v, st, 4), nm, txt, accs(v, st, 4), accs(v, st, 5));
    assert(poss(v, st, 4) + elem(nm, escape(txt)).len() == poss(v, st, 5));
}

/// Folding the `duration_second` element.
#[verifier::rlimit(100)]
#[verifier::spinoff_prover]
proof fn lemma_walk_5(v: SportV, st: Seq<char>)
    requires
        sport_in_ranges(v),
        v.extra is None,
        v.tracks.len() == 0,
    ensures
        sport_items(serialize_sport_spec(v, st), poss(v, st, 5), accs(v, st, 5)) == sport_items(
            serialize_sport_spec(v, st),
            poss(v, st, 6),
            accs(v, st, 6),
        ),
{
    reveal_strlit("id");
    reveal_strlit("type");
    reveal_strlit("start_time");
    reveal_strlit("calories");
    reveal_strlit("distance_meter");
    reveal_strlit("duration_second");
    reveal_strlit("heart_rate_avg");
    reveal_strlit("heart_rate_max");
    reveal_strlit("pace_average");
    reveal_strlit("extra");
    reveal_strlit("tracks");
    reveal_strlit("sport");
    lemma_kind_name_clean(v.kind);
    lemma_numeric_element_round_trip(v.duration_second);
    let s = serialize_sport_spec(v, st);
    let nm = "duration_second"@;
    let txt = int_chars(v.duration_second);
    lemma_tail_at(v, st, 5);
    lemma_tail_at(v, st, 6);
    assert(tails(v, st, 5) == scalar_elems(v, st)[5] + tails(v, st, 6));
    lemma_split_at(s, poss(v, st, 5), scalar_elems(v, st)[5], tails(v, st, 6));
    assert(tails(v, st, 6).len() >= 1);
    assert(tails(v, st, 6)[0] == '<');
    assert(s[poss(v, st, 6)] == '<');
    assert(set_sport_field(accs(v, st, 5), nm, txt) == Some(accs(v, st, 6)));
    assert(scalar_elems(v, st)[5] == elem(nm, escape(txt)));
    lemma_sport_step(s, poss(v, st, 5), nm, txt, accs(v, st, 5), accs(v, st, 6));
    assert(poss(v, st, 5) + elem(nm, escape(txt)).len() == poss(v, st, 6));
}

/// Folding the `heart_rate_avg` element.
#[verifier::rlimit(100)]
#[verifier::spinoff_prover]
proof fn lemma_walk_6(v: SportV, st: Seq<char>)
    requires
        sport_in_ranges(v),
        v.extra is None,
        v.tracks.len() == 0,
    ensures
        sport_items(serialize_sport_spec(v, st), poss(v, st, 6), accs(v, st, 6)) == sport_items(
            serialize_sport_spec(v, st),
            poss(v, st, 7),
            accs(v, st, 7),
        ),
{
    reveal_strlit("id");
    reveal_strlit("type");
    reveal_strlit("start_time");
    reveal_strlit("calories");
    reveal_strlit("distance_meter");
    reveal_strlit("duration_second");
    reveal_strlit("heart_rate_avg");
    reveal_strlit("heart_rate_max");
    reveal_strlit("pace_average");
    reveal_strlit("extra");
    reveal_strlit("tracks");
    reveal_strlit("sport");
    lemma_kind_name_clean(v.kind);
    lemma_numeric_element_round_trip(v.heart_rate_avg);
    let s = serialize_sport_spec(v, st);
    let nm = "heart_rate_avg"@;
    let txt = int_chars(v.heart_rate_avg);
    lemma_tail_at(v, st, 6);
    lemma_tail_at(v, st, 7);
    assert(tails(v, st, 6) == scalar_elems(v, st)[6] + tails(v, st, 7));
    lemma_split_at(s, poss(v, st, 6), scalar_elems(v, st)[6], tails(v, st, 7));
    assert(tails(v, st, 7).len() >= 1);
    assert(tails(v, st, 7)[0] == '<');
    assert(s[poss(v, st, 7)] == '<');
    assert("heart_rate_avg"@ != "distance_meter"@) by {
        assert("heart_rate_avg"@[0] == 'h');
        assert("distance_meter"@[0] == 'd');
    }
    assert(set_sport_field(accs(v, st, 6), nm, txt) == Some(accs(v, st, 7)));
    assert(scalar_elems(v, st)[6] == elem(nm, escape(txt)));
    lemma_sport_step(s, poss(v, st, 6), nm, txt, accs(v, st, 6), accs(v, st, 7));
    assert(poss(v, st, 6) + elem(nm, escape(txt)).len() == poss(v, st, 7));
}


/// The `heart_rate_max` assignment, discharged on its own.
#[verifier::rlimit(100)]
#[verifier::spinoff_prover]
proof fn lemma_set_hrm(a: RawAccV, t: Seq<char>, x: int)
    requires
        parse_i32_field(t) == Some(x),
    ensures
        set_sport_field(a, "heart_rate_max"@, t) == Some(
            RawAccV { heart_rate_max: Some(x), ..a },
        ),
{
    reveal_strlit("type");
    reveal_strlit("start_time");
    reveal_strlit("pace_average");
    reveal_strlit("calories");
    reveal_strlit("distance_meter");
    reveal_strlit("duration_second");
    reveal_strlit("heart_rate_avg");
    reveal_strlit("heart_rate_max");
    assert("heart_rate_max"@.len() == 14);
    assert("type"@.len() == 4);
    assert("start_time"@.len() == 10);
    assert("pace_average"@.len() == 12);
    assert("calories"@.len() == 8);
    assert("duration_second"@.len() == 15);
    assert("heart_rate_max"@ != "distance_meter"@) by {
        assert("heart_rate_max"@[0] == 'h');
        assert("distance_meter"@[0] == 'd');
    }
    assert("heart_rate_max"@ != "heart_rate_avg"@) by {
        assert("heart_rate_max"@[11] == 'm');
        assert("heart_rate_avg"@[11] == 'a');
    }
    assert(set_sport_field(a, "heart_rate_max"@, t) == Some(
        RawAccV { heart_rate_max: Some(x), ..a },
    ));
}

/// Folding the `heart_rate_max` element.
#[verifier::rlimit(100)]
#[verifier::spinoff_prover]
proof fn lemma_walk_7(v: SportV, st: Seq<char>)
    requires
        sport_in_ranges(v),
        v.extra is None,
        v.tracks.len() == 0,
    ensures
        sport_items(serialize_sport_spec(v, st), poss(v, st, 7), accs(v, st, 7)) == sport_items(
            serialize_sport_spec(v, st),
            poss(v, st, 8),
            accs(v, st, 8),
        ),
{
    reveal_strlit("heart_rate_max");
    reveal_strlit("extra");
    reveal_strlit("tracks");
    lemma_kind_name_clean(v.kind);
    lemma_numeric_element_round_trip(v.heart_rate_max);
    let s = serialize_sport_spec(v, st);
    let nm = "heart_rate_max"@;
    let txt = int_chars(v.heart_rate_max);
    lemma_tail_at(v, st, 7);
    lemma_tail_at(v, st, 8);
    assert(tails(v, st, 7) == scalar_elems(v, st)[7] + tails(v, st, 8));
    lemma_split_at(s, poss(v, st, 7), scalar_elems(v, st)[7], tails(v, st, 8));
    assert(tails(v, st, 8).len() >= 1);
    assert(tails(v, st, 8)[0] == '<');
    assert(s[poss(v, st, 8)] == '<');
    lemma_set_hrm(accs(v, st, 7), txt, v.heart_rate_max);
    assert(RawAccV { heart_rate_max: Some(v.heart_rate_max), ..accs(v, st, 7) } == accs(v, st, 8));
    assert(set_sport_field(accs(v, st, 7), nm, txt) == Some(accs(v, st, 8)));
    assert(scalar_elems(v, st)[7] == elem(nm, escape(txt)));
    lemma_sport_step(s, poss(v, st, 7), nm, txt, accs(v, st, 7), accs(v, st, 8));
    assert(poss(v, st, 7) + elem(nm, escape(txt)).len() == poss(v, st, 8));
}

/// Folding the `pace_average` element.
#[verifier::rlimit(100)]
#[verifier::spinoff_prover]
proof fn lemma_walk_8(v: SportV, st: Seq<char>)
    requires
        sport_in_ranges(v),
        v.extra is None,
        v.tracks.len() == 0,
    ensures
        sport_items(serialize_sport_spec(v, st), poss(v, st, 8), accs(v, st, 8)) == sport_items(
            serialize_sport_spec(v, st),
            poss(v, st, 9),
            accs(v, st, 9),
        ),
{
    reveal_strlit("id");
    reveal_strlit("type");
    reveal_strlit("start_time");
    reveal_strlit("calories");
    reveal_strlit("distance_meter");
    reveal_strlit("duration_second");
    reveal_strlit("heart_rate_avg");
    reveal_strlit("heart_rate_max");
    reveal_strlit("pace_average");
    reveal_strlit("extra");
    reveal_strlit("tracks");
    reveal_strlit("sport");
    lemma_kind_name_clean(v.kind);
    let s = serialize_sport_spec(v, st);
    let nm = "pace_average"@;
    let txt = v.pace_average;
    lemma_tail_at(v, st, 8);
    lemma_tail_at(v, st, 9);
    assert(tails(v, st, 8) == scalar_elems(v, st)[8] + tails(v, st, 9));
    lemma_split_at(s, poss(v, st, 8), scalar_elems(v, st)[8], tails(v, st, 9));
    assert(tails(v, st, 9).len() >= 1);
    assert(tails(v, st, 9)[0] == '<');
    assert(s[poss(v, st, 9)] == '<');
    assert(set_sport_field(accs(v, st, 8), nm, txt) == Some(accs(v, st, 9)));
    assert(scalar_elems(v, st)[8] == elem(nm, escape(txt)));
    lemma_sport_step(s, poss(v, st, 8), nm, txt, accs(v, st, 8), accs(v, st, 9));
    assert(poss(v, st, 8) + elem(nm, escape(txt)).len() == poss(v, st, 9));
}

/// Printing a record without extra data or tracks, under any start-time
/// text, and parsing the document back yields the raw shape carrying
/// exactly the record's fields and that text: the wire shape
/// round-trips.
#[verifier::rlimit(100)]
#[verifier::spinoff_prover]
proof fn lemma_walks_all(v: SportV, st: Seq<char>)
    requires
        sport_in_ranges(v),
        v.extra is None,
        v.tracks.len() == 0,
    ensures
        sport_items(serialize_sport_spec(v, st), 7, empty_acc()) == sport_items(
            serialize_sport_spec(v, st),
            poss(v, st, 9),
            accs(v, st, 9),
        ),
{
    lemma_walk_0(v, st);
    lemma_walk_1(v, st);
    lemma_walk_2(v, st);
    lemma_walk_3(v, st);
    lemma_walk_4(v, st);
    lemma_walk_5(v, st);
    lemma_walk_6(v, st);
    lemma_walk_7(v, st);
    lemma_walk_8(v, st);
    assert(poss(v, st, 0) == 7);
    assert(accs(v, st, 0) == empty_acc());
}

#[verifier::rlimit(100)]
#[verifier::spinoff_prover]
proof fn lemma_doc_parse(v: SportV, st: Seq<char>)
    requires
        sport_in_ranges(v),
        v.extra is None,
        v.tracks.len() == 0,
    ensures
        parse_document(serialize_sport_spec(v, st)) == Some(accs(v, st, 9)),
{
    reveal_strlit("</sport>");
    reveal_strlit("sport");
    let s = serialize_sport_spec(v, st);
    lemma_doc_shape(v, st);
    lemma_walks_all(v, st);
    lemma_tail_at(v, st, 9);
    assert(tails(v, st, 9) == closing_tag());
    assert(closing_tag() =~= "</sport>"@);
    assert(poss(v, st, 9) + 8 == s.len());
    lemma_sport_close(s, poss(v, st, 9), accs(v, st, 9));
    assert(sport_items(s, 7, empty_acc()) == Some((accs(v, st, 9), s.len() as int)));
    assert(misc_skip(s, s.len() as int) == s.len());
    assert(parse_document(s) == Some(accs(v, st, 9)));
}

/// Printing a record without extra data or tracks, under any start-time
/// text, and parsing the document back yields the raw shape carrying
/// exactly the record's fields and that text: the wire shape
/// round-trips.
#[verifier::rlimit(100)]
#[verifier::spinoff_prover]
pub proof fn lemma_print_parse_round_trip(v: SportV, st: Seq<char>)
    requires
        sport_in_ranges(v),
        v.extra is None,
        v.tracks.len() == 0,
    ensures
        parse_sport_xml_spec(serialize_sport_spec(v, st)) == Some(
            SportXMLV {
                kind: v.kind,
                start_time: st,
                calories: v.calories,
                distance_meter: v.distance_meter,
                duration_second: v.duration_second,
                heart_rate_avg: v.heart_rate_avg,
                heart_rate_max: v.heart_rate_max,
                pace_average: v.pace_average,
                extra: None,
                tracks: Seq::empty(),
            },
        ),
{
    lemma_doc_parse(v, st);
    crate::kind::lemma_kind_round_trip(v.kind);
    assert(resolve_spec(accs(v, st, 9)) == Some(
        SportXMLV {
            kind: v.kind,
            start_time: st,
            calories: v.calories,
            distance_meter: v.distance_meter,
            duration_second: v.duration_second,
            heart_rate_avg: v.heart_rate_avg,
            heart_rate_max: v.heart_rate_max,
            pace_average: v.pace_average,
            extra: None,
            tracks: Seq::empty(),
        },
    ));
}

/// The round trip with the start time printed at full precision, as
/// `to_xml` prints it: the document parses back to the raw shape with
/// every field of the record, and the start-time text it carries
/// re-parses to the very civil time that was rendered.
pub proof fn lemma_print_parse_civil_round_trip(v: SportV, c: crate::timeparse::CivilV)
    requires
        sport_in_ranges(v),
        v.extra is None,
        v.tracks.len() == 0,
        crate::timeparse::civil_fields_valid(c),
    ensures
        parse_sport_xml_spec(
            serialize_sport_spec(v, crate::timeparse::format_civil_spec(c)),
        ) == Some(
            SportXMLV {
                kind: v.kind,
                start_time: crate::timeparse::format_civil_spec(c),
                calories: v.calories,
                distance_meter: v.distance_meter,
                duration_second: v.duration_second,
                heart_rate_avg: v.heart_rate_avg,
                heart_rate_max: v.heart_rate_max,
                pace_average: v.pace_average,
                extra: None,
                tracks: Seq::empty(),
            },
        ),
        crate::timeparse::parse_civil_spec(crate::timeparse::format_civil_spec(c)) == Some(c),
{
    lemma_print_parse_round_trip(v, crate::timeparse::format_civil_spec(c));
    crate::timeparse::lemma_civil_format_round_trip(c);
}

} // verus!
