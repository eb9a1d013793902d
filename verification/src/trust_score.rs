//! The trust-score evaluator: a pure function from inspection signals to a
//! compact 0-100 score.

use vstd::prelude::*;

use crate::text::spec_lower;
use crate::text::lower_str;
use crate::text::str_eq;

verus! {

/// The signals one source reports for a facility. The raw numeric score is
/// kept in hundredths of a point.
#[derive(Debug)]
pub struct ScoreSignals {
    pub raw_score_centi: Option<i32>,
    pub letter_grade: Option<String>,
    pub placard_status: Option<String>,
}

impl Default for ScoreSignals {
    /// No signals at all.
    fn default() -> (r: Self)
        ensures
            r.raw_score_centi is None,
            r.letter_grade is None,
            r.placard_status is None,
    {
        ScoreSignals { raw_score_centi: None, letter_grade: None, placard_status: None }
    }
}

/// The score derived from a raw numeric signal in centi-points: clamped to
/// [0, 100] and truncated to a whole number of points.
pub open spec fn spec_numeric_score(centi: i32) -> u8 {
    if centi < 0 {
        0u8
    } else if centi > 10000 {
        100u8
    } else {
        (centi / 100) as u8
    }
}

/// The score derived from a letter grade, compared case-insensitively.
pub open spec fn spec_grade_score(grade: Seq<char>) -> u8 {
    if spec_lower(grade) == "a"@ {
        95u8
    } else if spec_lower(grade) == "b"@ {
        84u8
    } else if spec_lower(grade) == "c"@ {
        74u8
    } else {
        65u8
    }
}

/// The score derived from a placard status, compared case-insensitively.
pub open spec fn spec_placard_score(placard: Seq<char>) -> u8 {
    if spec_lower(placard) == "green"@ || spec_lower(placard) == "pass"@ {
        95u8
    } else if spec_lower(placard) == "yellow"@ || spec_lower(placard) == "conditional"@ {
        74u8
    } else if spec_lower(placard) == "red"@ || spec_lower(placard) == "closed"@ {
        40u8
    } else {
        60u8
    }
}

/// The trust score of a signal triple. Precedence: numeric score, then
/// letter grade, then placard status, then the default of 60.
pub open spec fn spec_trust_score(
    raw_centi: Option<i32>,
    grade: Option<Seq<char>>,
    placard: Option<Seq<char>>,
) -> u8 {
    match raw_centi {
        Some(c) => spec_numeric_score(c),
        None => match grade {
            Some(g) => spec_grade_score(g),
            None => match placard {
                Some(p) => spec_placard_score(p),
                None => 60u8,
            },
        },
    }
}

/// The trust score is always within [0, 100], whatever the signals are.
pub proof fn lemma_trust_score_bounded(
    raw_centi: Option<i32>,
    grade: Option<Seq<char>>,
    placard: Option<Seq<char>>,
)
    ensures
        spec_trust_score(raw_centi, grade, placard) <= 100,
{
}

/// Stateless evaluator of the trust score.
#[derive(Clone, Copy, Debug)]
pub struct TrustScoreService;

impl Default for TrustScoreService {
    /// The evaluator carries no state.
    fn default() -> Self {
        TrustScoreService
    }
}

impl TrustScoreService {
    /// Derives the 0-100 trust score of a signal triple.
    ///
    /// The result is a function of the signals alone (so equal signals always
    /// give equal scores) and never exceeds 100.
    pub fn score(&self, signals: &ScoreSignals) -> (r: u8)
        ensures
            r == spec_trust_score(
                signals.raw_score_centi,
                signals.letter_grade.deep_view(),
                signals.placard_status.deep_view(),
            ),
            r <= 100,
    {
        if let Some(raw) = signals.raw_score_centi {
            if raw < 0 {
                return 0;
            }
            if raw > 10000 {
                return 100;
            }
            return (raw / 100) as u8;
        }
        if let Some(grade) = &signals.letter_grade {
            let g = lower_str(grade.as_str());
            if str_eq(g.as_str(), "a") {
                return 95;
            }
            if str_eq(g.as_str(), "b") {
                return 84;
            }
            if str_eq(g.as_str(), "c") {
                return 74;
            }
            return 65;
        }
        if let Some(placard) = &signals.placard_status {
            let p = lower_str(placard.as_str());
            if str_eq(p.as_str(), "green") || str_eq(p.as_str(), "pass") {
                return 95;
            }
            if str_eq(p.as_str(), "yellow") || str_eq(p.as_str(), "conditional") {
                return 74;
            }
            if str_eq(p.as_str(), "red") || str_eq(p.as_str(), "closed") {
                return 40;
            }
            return 60;
        }
        60
    }
}

} // verus!
