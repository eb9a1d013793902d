use trustarant::directory::DirectoryService;
use trustarant::directory::VoteService;
use trustarant::entities::Facility;
use trustarant::entities::FacilityVoteSummary;
use trustarant::entities::Inspection;
use trustarant::entities::Jurisdiction;
use trustarant::entities::VoteValue;
use trustarant::rate_limit::RateLimiter;
use trustarant::store::InMemoryFacilityRepository;

fn facility(id: &str, name: &str, trust: u8) -> Facility {
    Facility {
        id: id.to_owned(),
        source_id: id.to_owned(),
        name: name.to_owned(),
        address: "1 Main St".to_owned(),
        city: "Somewhere".to_owned(),
        state: "CA".to_owned(),
        postal_code: "90000".to_owned(),
        latitude_micro: 34_050_000,
        longitude_micro: -118_240_000,
        jurisdiction: Jurisdiction::LosAngelesCounty,
        trust_score: trust,
        inspections: vec![Inspection {
            inspection_id: format!("{id}-1"),
            inspected_at_ms: 1_700_000_000_000,
            raw_score_centi: None,
            letter_grade: None,
            placard_status: None,
            violations: Vec::new(),
        }],
        updated_at_ms: 1_700_000_000_000,
    }
}

#[test]
fn vote_flip_moves_exactly_one_vote() {
    let mut repo = InMemoryFacilityRepository::new();
    repo.replace_all(vec![facility("lac::f1", "First", 90)]).unwrap();
    let votes = VoteService::new();

    let s1 = votes.record_vote(&mut repo, "lac::f1", "v1", VoteValue::Like).unwrap();
    assert_eq!((s1.likes, s1.dislikes), (1, 0));

    let s2 = votes.record_vote(&mut repo, "lac::f1", "v1", VoteValue::Dislike).unwrap();
    assert_eq!((s2.likes, s2.dislikes), (0, 1));

    let s3 = votes.record_vote(&mut repo, "lac::f1", "v2", VoteValue::Like).unwrap();
    assert_eq!((s3.likes, s3.dislikes), (1, 1));

    let picks = DirectoryService::new().top_picks(&repo, 10).unwrap();
    assert_eq!(picks.len(), 1);
    assert_eq!(picks[0].id, "lac::f1");
    assert_eq!(picks[0].likes, 1);
    assert_eq!(picks[0].dislikes, 1);
}

#[test]
fn repeating_the_same_vote_changes_nothing() {
    let mut repo = InMemoryFacilityRepository::new();
    repo.replace_all(vec![facility("lac::f1", "First", 90)]).unwrap();
    let votes = VoteService::new();
    votes.record_vote(&mut repo, "lac::f1", "v1", VoteValue::Like).unwrap();
    let again = votes.record_vote(&mut repo, "lac::f1", "v1", VoteValue::Like).unwrap();
    assert_eq!((again.likes, again.dislikes), (1, 0));
}

#[test]
fn vote_score_is_likes_minus_dislikes() {
    let summary = FacilityVoteSummary { likes: 5, dislikes: 2 };
    assert_eq!(summary.score(), 3);
    let negative = FacilityVoteSummary { likes: 1, dislikes: 4 };
    assert_eq!(negative.score(), -3);
}

#[test]
fn votes_survive_snapshot_swaps() {
    let mut repo = InMemoryFacilityRepository::new();
    repo.replace_all(vec![facility("lac::f1", "First", 90)]).unwrap();
    let votes = VoteService::new();
    votes.record_vote(&mut repo, "lac::f1", "v1", VoteValue::Like).unwrap();
    repo.replace_all(vec![facility("lac::f1", "First Again", 91)]).unwrap();
    let summary = repo.vote_summary_for("lac::f1");
    assert_eq!((summary.likes, summary.dislikes), (1, 0));
}

#[test]
fn top_picks_excludes_facilities_without_likes() {
    let mut repo = InMemoryFacilityRepository::new();
    repo.replace_all(vec![
        facility("lac::liked", "Liked", 70),
        facility("lac::disliked", "Disliked", 99),
        facility("lac::silent", "Silent", 99),
    ])
    .unwrap();
    let votes = VoteService::new();
    votes.record_vote(&mut repo, "lac::liked", "v1", VoteValue::Like).unwrap();
    votes.record_vote(&mut repo, "lac::disliked", "v1", VoteValue::Dislike).unwrap();
    let picks = DirectoryService::new().top_picks(&repo, 10).unwrap();
    assert_eq!(picks.len(), 1);
    assert_eq!(picks[0].id, "lac::liked");
}

#[test]
fn top_picks_orders_by_likes_then_score_then_trust() {
    let mut repo = InMemoryFacilityRepository::new();
    repo.replace_all(vec![
        facility("lac::two_likes", "Two", 50),
        facility("lac::one_clean", "OneClean", 50),
        facility("lac::one_mixed", "OneMixed", 99),
    ])
    .unwrap();
    let votes = VoteService::new();
    votes.record_vote(&mut repo, "lac::two_likes", "v1", VoteValue::Like).unwrap();
    votes.record_vote(&mut repo, "lac::two_likes", "v2", VoteValue::Like).unwrap();
    votes.record_vote(&mut repo, "lac::one_clean", "v1", VoteValue::Like).unwrap();
    votes.record_vote(&mut repo, "lac::one_mixed", "v1", VoteValue::Like).unwrap();
    votes.record_vote(&mut repo, "lac::one_mixed", "v2", VoteValue::Dislike).unwrap();
    let picks = DirectoryService::new().top_picks(&repo, 10).unwrap();
    let ids: Vec<&str> = picks.iter().map(|p| p.id.as_str()).collect();
    assert_eq!(ids, vec!["lac::two_likes", "lac::one_clean", "lac::one_mixed"]);
}

#[test]
fn rate_limit_sliding_window() {
    // max_requests = 5, window = 60 s
    let mut limiter = RateLimiter::new(5, 60_000);
    let base: i64 = 1_700_000_000_000;
    for i in 0..5 {
        assert!(limiter.allow("v:f", base + i * 1_000), "accept {i}");
    }
    // the sixth call inside the window is rejected
    assert!(!limiter.allow("v:f", base + 5_000));
    // another key is unaffected
    assert!(limiter.allow("w:f", base + 5_000));
    // once the first accept has left the window, one slot opens up
    assert!(limiter.allow("v:f", base + 60_001));
    // and the very next call is rejected again
    assert!(!limiter.allow("v:f", base + 60_002));
}

#[test]
fn rate_limit_fresh_key_always_accepts_once() {
    let mut limiter = RateLimiter::new(0, 60_000);
    let base: i64 = 1_700_000_000_000;
    assert!(limiter.allow("v:f", base));
    assert!(!limiter.allow("v:f", base + 1));
    // after the window empties, the key starts fresh again
    assert!(limiter.allow("v:f", base + 120_000));
}
