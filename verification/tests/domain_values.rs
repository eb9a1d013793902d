use trustarant::entities::FacilityVoteSummary;
use trustarant::entities::Jurisdiction;
use trustarant::entities::VoteValue;
use trustarant::errors::RepositoryError;

#[test]
fn jurisdiction_codes_round_trip() {
    let all = [
        Jurisdiction::LosAngelesCounty,
        Jurisdiction::SanDiegoCounty,
        Jurisdiction::LongBeach,
        Jurisdiction::RiversideCounty,
        Jurisdiction::SanBernardinoCounty,
        Jurisdiction::OrangeCounty,
        Jurisdiction::Pasadena,
    ];
    for j in all {
        assert_eq!(Jurisdiction::from_code(j.code()), Some(j));
        assert_eq!(Jurisdiction::from_label(j.label()), Some(j));
    }
    assert_eq!(Jurisdiction::from_code("lac"), Some(Jurisdiction::LosAngelesCounty));
    assert_eq!(Jurisdiction::from_code("xyz"), None);
    assert_eq!(Jurisdiction::from_label("ORANGE COUNTY"), Some(Jurisdiction::OrangeCounty));
    assert_eq!(Jurisdiction::from_label("nowhere"), None);
    assert_eq!(Jurisdiction::OrangeCounty.code(), "oc");
    assert_eq!(Jurisdiction::Pasadena.label(), "Pasadena");
}

#[test]
fn votes_persist_as_signed_units() {
    assert_eq!(VoteValue::Like.to_i16(), 1);
    assert_eq!(VoteValue::Dislike.to_i16(), -1);
}

#[test]
fn default_summary_is_empty() {
    let summary = FacilityVoteSummary::default();
    assert_eq!(summary.likes, 0);
    assert_eq!(summary.dislikes, 0);
    assert_eq!(summary.score(), 0);
}

#[test]
fn repository_errors_carry_their_message() {
    let err = RepositoryError::message("boom".to_owned());
    assert_eq!(err.text(), "boom");
}
