use trustarant::dto::SourceFacilityInput;
use trustarant::entities::Jurisdiction;
use trustarant::ingestion::ConnectorFetchOutcome;
use trustarant::ingestion::IngestionService;
use trustarant::ingestion::RefreshError;
use trustarant::ingestion::retry_backoff_seconds;
use trustarant::store::InMemoryFacilityRepository;

fn record(source_id: &str, name: &str, inspected_at_ms: i64) -> SourceFacilityInput {
    SourceFacilityInput {
        source_id: source_id.to_owned(),
        name: name.to_owned(),
        address: "1 Main St".to_owned(),
        city: "Somewhere".to_owned(),
        state: "CA".to_owned(),
        postal_code: "90000".to_owned(),
        latitude_micro: 34_050_000,
        longitude_micro: -118_240_000,
        jurisdiction: Jurisdiction::LosAngelesCounty,
        inspected_at_ms,
        raw_score_centi: Some(9100),
        letter_grade: None,
        placard_status: None,
        violations: Vec::new(),
    }
}

fn ok_outcome(source: &str, records: Vec<SourceFacilityInput>) -> ConnectorFetchOutcome {
    ConnectorFetchOutcome { source: source.to_owned(), result: Ok(records) }
}

fn err_outcome(source: &str, message: &str) -> ConnectorFetchOutcome {
    ConnectorFetchOutcome { source: source.to_owned(), result: Err(message.to_owned()) }
}

#[test]
fn dedup_keeps_most_recent() {
    // 2024-01-01 and 2024-06-01, as epoch milliseconds
    let january: i64 = 1_704_067_200_000;
    let june: i64 = 1_717_200_000_000;
    let mut repo = InMemoryFacilityRepository::new();
    let coordinator = IngestionService::new();
    let outcomes = vec![ok_outcome("county", vec![
        record("early", "Same Place", january),
        record("late", "Same Place", june),
    ])];
    coordinator.refresh_from_results(&mut repo, &outcomes, 1_720_000_000_000).unwrap();
    let facilities = repo.list().unwrap();
    assert_eq!(facilities.len(), 1);
    assert_eq!(facilities[0].inspections[0].inspected_at_ms, june);
    assert_eq!(facilities[0].source_id, "late");
}

#[test]
fn dedup_ties_keep_the_first_record() {
    let at: i64 = 1_704_067_200_000;
    let mut repo = InMemoryFacilityRepository::new();
    let coordinator = IngestionService::new();
    let outcomes = vec![ok_outcome("county", vec![
        record("first", "Same Place", at),
        record("second", "Same Place", at),
    ])];
    coordinator.refresh_from_results(&mut repo, &outcomes, 1_720_000_000_000).unwrap();
    let facilities = repo.list().unwrap();
    assert_eq!(facilities.len(), 1);
    assert_eq!(facilities[0].source_id, "first");
}

#[test]
fn safety_gate_aborts_shrunken_cycles() {
    let mut repo = InMemoryFacilityRepository::new();
    let coordinator = IngestionService::new();

    // First cycle: a healthy snapshot of 1000 facilities.
    let mut many = Vec::new();
    for i in 0..1000 {
        many.push(record(&format!("id{i}"), &format!("Place {i}"), 1_700_000_000_000));
    }
    coordinator
        .refresh_from_results(&mut repo, &vec![ok_outcome("county", many)], 1_700_000_000_000)
        .unwrap();
    assert_eq!(repo.list().unwrap().len(), 1000);
    let status_before = repo.get_system_ingestion_status().unwrap().unwrap();
    assert_eq!(status_before.unique_facilities, 1000);

    // Second cycle stitches only 400 records: the refresh errors and the
    // snapshot and status stay as they were.
    let mut few = Vec::new();
    for i in 0..400 {
        few.push(record(&format!("id{i}"), &format!("Place {i}"), 1_700_000_000_000));
    }
    let err = coordinator
        .refresh_from_results(&mut repo, &vec![ok_outcome("county", few)], 1_710_000_000_000)
        .unwrap_err();
    assert_eq!(err, RefreshError::BelowSafetyThreshold);
    assert_eq!(repo.list().unwrap().len(), 1000);
    let status_after = repo.get_system_ingestion_status().unwrap().unwrap();
    assert_eq!(status_after.unique_facilities, 1000);
    assert_eq!(status_after.last_refresh_at_ms, status_before.last_refresh_at_ms);
}

#[test]
fn failed_refresh_leaves_everything_untouched() {
    let mut repo = InMemoryFacilityRepository::new();
    let coordinator = IngestionService::new();
    coordinator
        .refresh_from_results(
            &mut repo,
            &vec![ok_outcome("county", vec![record("a", "Alpha", 1_700_000_000_000)])],
            1_700_000_000_000,
        )
        .unwrap();
    let before = repo.list().unwrap();

    let err = coordinator
        .refresh_from_results(
            &mut repo,
            &vec![err_outcome("county", "upstream down")],
            1_710_000_000_000,
        )
        .unwrap_err();
    assert_eq!(err, RefreshError::NoConnectorSucceeded);

    let after = repo.list().unwrap();
    assert_eq!(after.len(), before.len());
    assert_eq!(after[0].id, before[0].id);
    let status = repo.get_system_ingestion_status().unwrap().unwrap();
    assert_eq!(status.last_refresh_at_ms, 1_700_000_000_000);
}

#[test]
fn zero_records_abort_the_cycle() {
    let mut repo = InMemoryFacilityRepository::new();
    let coordinator = IngestionService::new();
    let err = coordinator
        .refresh_from_results(&mut repo, &vec![ok_outcome("county", Vec::new())], 1_700_000_000_000)
        .unwrap_err();
    assert_eq!(err, RefreshError::NoRecords);
    assert!(repo.list().unwrap().is_empty());
    assert!(repo.get_system_ingestion_status().unwrap().is_none());
}

#[test]
fn successful_refresh_normalizes_and_records_status() {
    let mut repo = InMemoryFacilityRepository::new();
    let coordinator = IngestionService::new();
    let outcomes = vec![
        ok_outcome("county", vec![record("123", "Alpha", 1_700_000_000_000)]),
        err_outcome("scraper", "timeout"),
    ];
    coordinator.refresh_from_results(&mut repo, &outcomes, 1_705_000_000_000).unwrap();

    let facilities = repo.list().unwrap();
    assert_eq!(facilities.len(), 1);
    let f = &facilities[0];
    assert_eq!(f.id, "lac::123");
    assert_eq!(f.trust_score, 91);
    assert_eq!(f.inspections.len(), 1);
    assert_eq!(f.inspections[0].inspection_id, "lac-123");
    assert_eq!(f.updated_at_ms, 1_705_000_000_000);

    let stats = coordinator.stats(&repo);
    assert_eq!(stats.last_refresh_at_ms, Some(1_705_000_000_000));
    assert_eq!(stats.unique_facilities, 1);
    assert_eq!(stats.connector_stats.len(), 2);
    assert_eq!(stats.connector_stats[0].source, "county");
    assert_eq!(stats.connector_stats[0].fetched_records, 1);
    assert!(stats.connector_stats[0].error.is_none());
    assert_eq!(stats.connector_stats[1].source, "scraper");
    assert_eq!(stats.connector_stats[1].fetched_records, 0);
    assert_eq!(stats.connector_stats[1].error.as_deref(), Some("timeout"));
}

#[test]
fn one_failed_connector_does_not_abort_the_cycle() {
    let mut repo = InMemoryFacilityRepository::new();
    let coordinator = IngestionService::new();
    let outcomes = vec![
        err_outcome("flaky", "boom"),
        ok_outcome("county", vec![record("a", "Alpha", 1_700_000_000_000)]),
    ];
    assert!(coordinator.refresh_from_results(&mut repo, &outcomes, 1_700_000_000_000).is_ok());
    assert_eq!(repo.list().unwrap().len(), 1);
}

#[test]
fn retry_schedule_backs_off_twice_then_stops() {
    assert_eq!(retry_backoff_seconds(1), Some(2));
    assert_eq!(retry_backoff_seconds(2), Some(4));
    assert_eq!(retry_backoff_seconds(3), None);
    assert_eq!(retry_backoff_seconds(4), None);
}
