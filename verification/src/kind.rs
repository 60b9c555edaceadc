//! The closed enumeration of sport kinds.
//!
//! Decoding from a string is ASCII-case-insensitive and total: an
//! unrecognized name decodes to `Unknown`, never an error. Encoding uses the
//! fixed canonical spelling.
use vstd::prelude::*;

use crate::text;

verus! {

#[derive(Debug, Clone, Copy, PartialEq, Eq, Hash, Structural)]
pub enum SportType {
    Unknown,
    Swimming,
    Running,
    Cycling,
}

impl Default for SportType {
    fn default() -> (r: Self)
        ensures
            r == SportType::Unknown,
    {
        SportType::Unknown
    }
}

/// The canonical, fixed-case name of a kind.
pub open spec fn kind_name(k: SportType) -> Seq<char> {
    match k {
        SportType::Unknown => "Unknown"@,
        SportType::Swimming => "Swimming"@,
        SportType::Running => "Running"@,
        SportType::Cycling => "Cycling"@,
    }
}

/// The kind a string decodes to, ASCII-case-insensitively; anything
/// unrecognized is `Unknown`.
pub open spec fn kind_from_chars(s: Seq<char>) -> SportType {
    if text::ieq_spec(s, "swimming"@) {
        SportType::Swimming
    } else if text::ieq_spec(s, "running"@) {
        SportType::Running
    } else if text::ieq_spec(s, "cycling"@) {
        SportType::Cycling
    } else {
        SportType::Unknown
    }
}

impl SportType {
    pub fn as_str(&self) -> (r: &'static str)
        ensures
            r@ == kind_name(*self),
    {
        match self {
            SportType::Unknown => "Unknown",
            SportType::Swimming => "Swimming",
            SportType::Running => "Running",
            SportType::Cycling => "Cycling",
        }
    }

    #[allow(clippy::should_implement_trait)]
    pub fn from_str(s: &str) -> (r: Self)
        ensures
            r == kind_from_chars(s@),
    {
        if text::str_ieq(s, "swimming") {
            SportType::Swimming
        } else if text::str_ieq(s, "running") {
            SportType::Running
        } else if text::str_ieq(s, "cycling") {
            SportType::Cycling
        } else {
            SportType::Unknown
        }
    }
}

/// Encoding a kind and decoding it back is the identity: the canonical
/// names fold to the lower-case spellings that decoding recognizes.
pub proof fn lemma_kind_round_trip(k: SportType)
    ensures
        kind_from_chars(kind_name(k)) == k,
{
    reveal_strlit("Unknown");
    reveal_strlit("Swimming");
    reveal_strlit("Running");
    reveal_strlit("Cycling");
    reveal_strlit("swimming");
    reveal_strlit("running");
    reveal_strlit("cycling");
    match k {
        SportType::Unknown => {
            assert(!text::ieq_spec(kind_name(k), "swimming"@)) by {
                assert(text::lower_seq(kind_name(k)).len() == 7);
            }
            assert(!text::ieq_spec(kind_name(k), "running"@)) by {
                assert(text::lower_seq(kind_name(k))[0] == 'u');
            }
            assert(!text::ieq_spec(kind_name(k), "cycling"@)) by {
                assert(text::lower_seq(kind_name(k))[0] == 'u');
            }
        },
        SportType::Swimming => {
            assert(text::lower_seq(kind_name(k)) =~= "swimming"@);
        },
        SportType::Running => {
            assert(!text::ieq_spec(kind_name(k), "swimming"@)) by {
                assert(text::lower_seq(kind_name(k)).len() == 7);
            }
            assert(text::lower_seq(kind_name(k)) =~= "running"@);
        },
        SportType::Cycling => {
            assert(!text::ieq_spec(kind_name(k), "swimming"@)) by {
                assert(text::lower_seq(kind_name(k)).len() == 7);
            }
            assert(!text::ieq_spec(kind_name(k), "running"@)) by {
                assert(text::lower_seq(kind_name(k))[0] == 'c');
            }
            assert(text::lower_seq(kind_name(k)) =~= "cycling"@);
        },
    }
}

} // verus!
