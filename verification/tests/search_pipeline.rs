use trustarant::directory::DirectoryService;
use trustarant::entities::Facility;
use trustarant::entities::FacilitySearchQuery;
use trustarant::entities::Inspection;
use trustarant::entities::Jurisdiction;
use trustarant::store::InMemoryFacilityRepository;

fn facility(id: &str, name: &str, trust: u8, jurisdiction: Jurisdiction) -> Facility {
    Facility {
        id: id.to_owned(),
        source_id: id.to_owned(),
        name: name.to_owned(),
        address: "1 Main St".to_owned(),
        city: "Somewhere".to_owned(),
        state: "CA".to_owned(),
        postal_code: "90000".to_owned(),
        latitude_micro: 34_050_000,
        longitude_micro: -118_240_000,
        jurisdiction,
        trust_score: trust,
        inspections: vec![Inspection {
            inspection_id: format!("{id}-1"),
            inspected_at_ms: 1_700_000_000_000,
            raw_score_centi: None,
            letter_grade: None,
            placard_status: None,
            violations: Vec::new(),
        }],
        updated_at_ms: 1_700_000_000_000,
    }
}

fn query() -> FacilitySearchQuery {
    FacilitySearchQuery {
        q: None,
        geo_within: None,
        jurisdiction: None,
        sort: None,
        score_slice: None,
        recent_only: None,
        page: None,
        page_size: None,
        limit: None,
    }
}

fn four_county_snapshot() -> InMemoryFacilityRepository {
    let mut repo = InMemoryFacilityRepository::new();
    repo.replace_all(vec![
        facility("lac::a", "Alpha", 95, Jurisdiction::LosAngelesCounty),
        facility("lac::b", "Beta", 85, Jurisdiction::LosAngelesCounty),
        facility("oc::c", "Gamma", 72, Jurisdiction::OrangeCounty),
        facility("oc::d", "Delta", 60, Jurisdiction::OrangeCounty),
    ])
    .unwrap();
    repo
}

#[test]
fn search_filter_precedence() {
    let repo = four_county_snapshot();
    let directory = DirectoryService::new();
    let now = 1_700_000_100_000;

    let mut q = query();
    q.jurisdiction = Some("all".to_owned());
    let all = directory.search(&repo, &q, now).unwrap();
    assert_eq!(all.slice_counts.all, 4);
    assert_eq!(all.slice_counts.elite, 1);
    assert_eq!(all.slice_counts.solid, 1);
    assert_eq!(all.slice_counts.watch, 2);
    assert_eq!(all.total_count, 4);

    let mut q = query();
    q.jurisdiction = Some("all".to_owned());
    q.score_slice = Some("watch".to_owned());
    let watch = directory.search(&repo, &q, now).unwrap();
    let ids: Vec<&str> = watch.data.iter().map(|r| r.id.as_str()).collect();
    assert!(ids.contains(&"oc::c"));
    assert!(ids.contains(&"oc::d"));
    assert_eq!(watch.total_count, 2);
    assert_eq!(watch.slice_counts.all, 4);
    assert_eq!(watch.slice_counts.elite, 1);
    assert_eq!(watch.slice_counts.solid, 1);
    assert_eq!(watch.slice_counts.watch, 2);

    let mut q = query();
    q.jurisdiction = Some("oc".to_owned());
    let oc = directory.search(&repo, &q, now).unwrap();
    assert_eq!(oc.slice_counts.all, 2);
    assert_eq!(oc.slice_counts.elite, 0);
    assert_eq!(oc.slice_counts.solid, 0);
    assert_eq!(oc.slice_counts.watch, 2);
}

#[test]
fn text_mode_ignores_geo_radius_filter() {
    let mut repo = InMemoryFacilityRepository::new();
    let mut m = facility("lac::m", "Mastros Ocean Club", 90, Jurisdiction::LosAngelesCounty);
    m.latitude_micro = 34_150_000;
    m.longitude_micro = -118_130_000;
    repo.replace_all(vec![
        m,
        facility("lac::n", "Nearby Diner", 80, Jurisdiction::LosAngelesCounty),
    ])
    .unwrap();
    let directory = DirectoryService::new();
    let now = 1_700_000_100_000;

    // The caller resolved the browse radius to the nearby facility only.
    let geo_within = Some(vec!["lac::n".to_owned()]);

    let mut q = query();
    q.q = Some("mastros".to_owned());
    q.geo_within = geo_within.clone();
    let text = directory.search(&repo, &q, now).unwrap();
    assert_eq!(text.data.len(), 1);
    assert_eq!(text.data[0].id, "lac::m");

    // Browse mode with the same geo scope prunes the distant facility.
    let mut q = query();
    q.geo_within = geo_within;
    let browse = directory.search(&repo, &q, now).unwrap();
    assert_eq!(browse.data.len(), 1);
    assert_eq!(browse.data[0].id, "lac::n");
}

#[test]
fn count_bounded_by_page_size_and_total() {
    let repo = four_county_snapshot();
    let directory = DirectoryService::new();
    let mut q = query();
    q.page_size = Some(2);
    let page = directory.search(&repo, &q, 1_700_000_100_000).unwrap();
    assert_eq!(page.count, 2);
    assert!(page.count <= page.page_size);
    assert!(page.count <= page.total_count);
    assert_eq!(page.total_count, 4);
    // beyond the last page the rows run out but the totals stay
    let mut q = query();
    q.page_size = Some(3);
    q.page = Some(2);
    let tail = directory.search(&repo, &q, 1_700_000_100_000).unwrap();
    assert_eq!(tail.count, 1);
    assert_eq!(tail.total_count, 4);
}

#[test]
fn default_order_is_trust_score_descending() {
    let repo = four_county_snapshot();
    let directory = DirectoryService::new();
    let page = directory.search(&repo, &query(), 1_700_000_100_000).unwrap();
    let trusts: Vec<u8> = page.data.iter().map(|r| r.trust_score).collect();
    assert_eq!(trusts, vec![95, 85, 72, 60]);
}

#[test]
fn name_sort_orders_alphabetically() {
    let repo = four_county_snapshot();
    let directory = DirectoryService::new();
    let mut q = query();
    q.sort = Some("name_asc".to_owned());
    let page = directory.search(&repo, &q, 1_700_000_100_000).unwrap();
    let names: Vec<&str> = page.data.iter().map(|r| r.name.as_str()).collect();
    assert_eq!(names, vec!["Alpha", "Beta", "Delta", "Gamma"]);
}

#[test]
fn recent_only_drops_stale_facilities() {
    let mut repo = InMemoryFacilityRepository::new();
    let mut fresh = facility("lac::f", "Fresh", 90, Jurisdiction::LosAngelesCounty);
    fresh.inspections[0].inspected_at_ms = 1_700_000_000_000;
    let mut stale = facility("lac::s", "Stale", 90, Jurisdiction::LosAngelesCounty);
    stale.inspections[0].inspected_at_ms = 1_000_000_000_000;
    repo.replace_all(vec![fresh, stale]).unwrap();
    let directory = DirectoryService::new();
    let mut q = query();
    q.recent_only = Some(true);
    // one day after the fresh inspection
    let page = directory.search(&repo, &q, 1_700_086_400_000).unwrap();
    assert_eq!(page.data.len(), 1);
    assert_eq!(page.data[0].id, "lac::f");
}

#[test]
fn repository_search_matches_substrings() {
    let repo = four_county_snapshot();
    let mut q = query();
    q.q = Some("gam".to_owned());
    let (rows, total, counts) = repo.search_facilities(&q, 1_700_000_100_000).unwrap();
    assert_eq!(rows.len(), 1);
    assert_eq!(rows[0].id, "oc::c");
    assert_eq!(total, 1);
    assert_eq!(counts.all, 1);
    assert_eq!(counts.all, counts.elite + counts.solid + counts.watch);
}

#[test]
fn autocomplete_limits_and_matches() {
    let repo = four_county_snapshot();
    let matches = repo.autocomplete("alp", 10).unwrap();
    assert_eq!(matches.len(), 1);
    assert_eq!(matches[0].name, "Alpha");
    let by_postal = repo.autocomplete("900", 10).unwrap();
    assert_eq!(by_postal.len(), 4);
    let capped = repo.autocomplete("900", 2).unwrap();
    assert_eq!(capped.len(), 2);
    let none = repo.autocomplete("zzz", 10).unwrap();
    assert!(none.is_empty());
}

#[test]
fn get_by_id_round_trips() {
    let repo = four_county_snapshot();
    let directory = DirectoryService::new();
    let found = directory.get(&repo, "lac::a").unwrap().unwrap();
    assert_eq!(found.name, "Alpha");
    assert_eq!(found.jurisdiction, "Los Angeles County");
    assert_eq!(found.inspections_count, 1);
    assert!(directory.get(&repo, "lac::nope").unwrap().is_none());
}
