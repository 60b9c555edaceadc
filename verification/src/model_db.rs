//! The tagged shapes the repository persists for the extra and track
//! columns, and their conversions to and from the canonical model.
use vstd::prelude::*;

use crate::model::{Running, SportExtra, SportExtraV, Swimming, Track, TrackV};

verus! {

/// The persisted tagged extra: the variant is written out as a tag, so a
/// decoded row knows which variant it holds without guessing.
#[derive(Debug, Clone)]
pub enum DbSportExtra {
    Swimming(Swimming),
    Running(Running),
}

impl View for DbSportExtra {
    type V = SportExtraV;

    open spec fn view(&self) -> SportExtraV {
        match self {
            DbSportExtra::Swimming(s) => SportExtraV::Swimming(s@),
            DbSportExtra::Running(r) => SportExtraV::Running(r@),
        }
    }
}

impl From<SportExtra> for DbSportExtra {
    fn from(e: SportExtra) -> Self {
        match e {
            SportExtra::Swimming(s) => DbSportExtra::Swimming(s),
            SportExtra::Running(r) => DbSportExtra::Running(r),
        }
    }
}

impl vstd::std_specs::convert::FromSpecImpl<SportExtra> for DbSportExtra {
    open spec fn obeys_from_spec() -> bool {
        true
    }

    open spec fn from_spec(e: SportExtra) -> Self {
        match e {
            SportExtra::Swimming(s) => DbSportExtra::Swimming(s),
            SportExtra::Running(r) => DbSportExtra::Running(r),
        }
    }
}

impl From<DbSportExtra> for SportExtra {
    fn from(e: DbSportExtra) -> Self {
        match e {
            DbSportExtra::Swimming(s) => SportExtra::Swimming(s),
            DbSportExtra::Running(r) => SportExtra::Running(r),
        }
    }
}

impl vstd::std_specs::convert::FromSpecImpl<DbSportExtra> for SportExtra {
    open spec fn obeys_from_spec() -> bool {
        true
    }

    open spec fn from_spec(e: DbSportExtra) -> Self {
        match e {
            DbSportExtra::Swimming(s) => SportExtra::Swimming(s),
            DbSportExtra::Running(r) => SportExtra::Running(r),
        }
    }
}

/// The persisted track shape, with the tagged extra.
#[derive(Debug, Clone)]
pub struct DbSportTrack {
    pub distance_meter: i32,
    pub duration_second: i32,
    pub pace_average: String,
    pub extra: Option<DbSportExtra>,
}

impl View for DbSportTrack {
    type V = TrackV;

    open spec fn view(&self) -> TrackV {
        TrackV {
            distance_meter: self.distance_meter as int,
            duration_second: self.duration_second as int,
            pace_average: self.pace_average@,
            extra: (match self.extra {
                None => None,
                Some(e) => Some(e@),
            }),
        }
    }
}

impl From<Track> for DbSportTrack {
    fn from(t: Track) -> Self {
        DbSportTrack {
            distance_meter: t.distance_meter,
            duration_second: t.duration_second,
            pace_average: t.pace_average,
            extra: (match t.extra {
                None => None,
                Some(SportExtra::Swimming(s)) => Some(DbSportExtra::Swimming(s)),
                Some(SportExtra::Running(r)) => Some(DbSportExtra::Running(r)),
            }),
        }
    }
}

impl vstd::std_specs::convert::FromSpecImpl<Track> for DbSportTrack {
    open spec fn obeys_from_spec() -> bool {
        true
    }

    open spec fn from_spec(t: Track) -> Self {
        DbSportTrack {
            distance_meter: t.distance_meter,
            duration_second: t.duration_second,
            pace_average: t.pace_average,
            extra: (match t.extra {
                None => None,
                Some(SportExtra::Swimming(s)) => Some(DbSportExtra::Swimming(s)),
                Some(SportExtra::Running(r)) => Some(DbSportExtra::Running(r)),
            }),
        }
    }
}

impl From<DbSportTrack> for Track {
    fn from(t: DbSportTrack) -> Self {
        Track {
            distance_meter: t.distance_meter,
            duration_second: t.duration_second,
            pace_average: t.pace_average,
            extra: (match t.extra {
                None => None,
                Some(DbSportExtra::Swimming(s)) => Some(SportExtra::Swimming(s)),
                Some(DbSportExtra::Running(r)) => Some(SportExtra::Running(r)),
            }),
        }
    }
}

impl vstd::std_specs::convert::FromSpecImpl<DbSportTrack> for Track {
    open spec fn obeys_from_spec() -> bool {
        true
    }

    open spec fn from_spec(t: DbSportTrack) -> Self {
        Track {
            distance_meter: t.distance_meter,
            duration_second: t.duration_second,
            pace_average: t.pace_average,
            extra: (match t.extra {
                None => None,
                Some(DbSportExtra::Swimming(s)) => Some(SportExtra::Swimming(s)),
                Some(DbSportExtra::Running(r)) => Some(SportExtra::Running(r)),
            }),
        }
    }
}

/// Converting a track to its persisted shape keeps its view.
pub proof fn lemma_db_track_view(t: Track)
    ensures
        (<DbSportTrack as vstd::std_specs::convert::FromSpec<Track>>::from_spec(t))@ == t@,
{
}

} // verus!
