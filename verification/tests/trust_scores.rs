use trustarant::trust_score::ScoreSignals;
use trustarant::trust_score::TrustScoreService;

#[test]
fn maps_numeric_scores_directly() {
    let service = TrustScoreService;
    let score = service.score(&ScoreSignals {
        raw_score_centi: Some(9120),
        ..ScoreSignals::default()
    });

    assert_eq!(score, 91);
}

#[test]
fn maps_placard_scores_when_numeric_missing() {
    let service = TrustScoreService;
    let score = service.score(&ScoreSignals {
        placard_status: Some("yellow".to_owned()),
        ..ScoreSignals::default()
    });

    assert_eq!(score, 74);
}

#[test]
fn clamps_numeric_scores_into_range() {
    let service = TrustScoreService;
    let low = service.score(&ScoreSignals { raw_score_centi: Some(-500), ..ScoreSignals::default() });
    let high = service.score(&ScoreSignals {
        raw_score_centi: Some(20000),
        ..ScoreSignals::default()
    });
    assert_eq!(low, 0);
    assert_eq!(high, 100);
}

#[test]
fn maps_letter_grades_case_insensitively() {
    let service = TrustScoreService;
    let grade = |g: &str| {
        service.score(&ScoreSignals {
            letter_grade: Some(g.to_owned()),
            ..ScoreSignals::default()
        })
    };
    assert_eq!(grade("A"), 95);
    assert_eq!(grade("a"), 95);
    assert_eq!(grade("B"), 84);
    assert_eq!(grade("C"), 74);
    assert_eq!(grade("Z"), 65);
}

#[test]
fn numeric_precedes_letter_precedes_placard_precedes_default() {
    let service = TrustScoreService;
    let all = service.score(&ScoreSignals {
        raw_score_centi: Some(5000),
        letter_grade: Some("A".to_owned()),
        placard_status: Some("green".to_owned()),
    });
    assert_eq!(all, 50);
    let letter_over_placard = service.score(&ScoreSignals {
        raw_score_centi: None,
        letter_grade: Some("B".to_owned()),
        placard_status: Some("red".to_owned()),
    });
    assert_eq!(letter_over_placard, 84);
    let placard = service.score(&ScoreSignals {
        raw_score_centi: None,
        letter_grade: None,
        placard_status: Some("PASS".to_owned()),
    });
    assert_eq!(placard, 95);
    let nothing = service.score(&ScoreSignals::default());
    assert_eq!(nothing, 60);
    assert_eq!(service.score(&ScoreSignals {
        placard_status: Some("closed".to_owned()),
        ..ScoreSignals::default()
    }), 40);
    assert_eq!(service.score(&ScoreSignals {
        placard_status: Some("odd".to_owned()),
        ..ScoreSignals::default()
    }), 60);
}

#[test]
fn equal_signals_always_score_equal() {
    let service = TrustScoreService;
    let make = || ScoreSignals {
        raw_score_centi: None,
        letter_grade: Some("b".to_owned()),
        placard_status: Some("red".to_owned()),
    };
    let first = service.score(&make());
    let second = service.score(&make());
    assert_eq!(first, second);
    assert!(first <= 100);
}
