use trustarant::api::derive_voter_key;
use trustarant::api::parse_bool_flag;
use trustarant::api::parse_run_mode;
use trustarant::api::parse_vote;
use trustarant::api::RunMode;
use trustarant::entities::Jurisdiction;
use trustarant::entities::VoteValue;
use trustarant::numbers::parse_i64;
use trustarant::numbers::parse_micro;
use trustarant::numbers::u64_to_dec;
use trustarant::numbers::u64_to_hex16;
use trustarant::records::default_orange_county_search_terms;
use trustarant::records::derive_scoring_signals;
use trustarant::records::city_fallback_coordinates;
use trustarant::records::map_long_beach_row;
use trustarant::records::la_violation;
use trustarant::records::merge_la_row;
use trustarant::records::LaInspectionRow;
use trustarant::records::LaInventoryRow;
use trustarant::records::map_record;
use trustarant::records::map_row_to_source_input;
use trustarant::records::parse_datetime_text;
use trustarant::records::parse_json_records;
use trustarant::records::parse_search_terms;
use trustarant::records::rec_datetime;
use trustarant::records::rec_micro;
use trustarant::records::rec_string;
use trustarant::records::sanitize_json_control_chars;
use trustarant::records::score_to_grade;
use trustarant::records::slugify;
use trustarant::records::stable_id;
use trustarant::records::JsonNumber;
use trustarant::records::JsonRecord;
use trustarant::records::JsonValue;
use trustarant::records::SdPermitRow;

fn str_field(key: &str, value: &str) -> (String, JsonValue) {
    (key.to_owned(), JsonValue::Str(value.to_owned()))
}

fn num_field(key: &str, int: Option<i64>, micro: i64, text: &str) -> (String, JsonValue) {
    (key.to_owned(), JsonValue::Num(JsonNumber { int, micro, text: text.to_owned() }))
}

#[test]
fn numbers_parse_and_format() {
    assert_eq!(parse_i64("12345"), Some(12345));
    assert_eq!(parse_i64("-17"), Some(-17));
    assert_eq!(parse_i64("12a"), None);
    assert_eq!(parse_i64(""), None);
    assert_eq!(parse_i64("99999999999999999999999"), None);
    assert_eq!(parse_micro("34.0522"), Some(34_052_200));
    assert_eq!(parse_micro("-118.2437"), Some(-118_243_700));
    assert_eq!(parse_micro("90"), Some(90_000_000));
    assert_eq!(parse_micro("0.1234567"), Some(123_456));
    assert_eq!(parse_micro("1."), Some(1_000_000));
    assert_eq!(parse_micro(".5"), Some(500_000));
    assert_eq!(parse_micro("."), None);
    assert_eq!(parse_micro("abc"), None);
    assert_eq!(u64_to_dec(907), "907");
    assert_eq!(u64_to_hex16(0xdeadbeef), "00000000deadbeef");
}

#[test]
fn record_getters_resolve_aliases_in_order() {
    let record: JsonRecord = vec![
        str_field("Facility_Name", "The Grill"),
        str_field("name", "Ignored Later Alias"),
        num_field("Score", None, 91_500_000, "91.5"),
        str_field("latitude", "34.05"),
    ];
    assert_eq!(
        rec_string(&record, &["facility_name", "Facility_Name", "name"]).as_deref(),
        Some("The Grill")
    );
    assert_eq!(rec_micro(&record, &["score", "Score"]), Some(91_500_000));
    assert_eq!(rec_micro(&record, &["latitude"]), Some(34_050_000));
    assert_eq!(rec_string(&record, &["missing"]), None);
}

#[test]
fn dates_parse_in_all_accepted_shapes() {
    assert_eq!(parse_datetime_text("2024-01-01"), Some(1_704_067_200_000));
    assert_eq!(parse_datetime_text("01/15/2024"), Some(1_705_276_800_000));
    assert_eq!(parse_datetime_text("2024-01-01T00:00:00Z"), Some(1_704_067_200_000));
    assert_eq!(parse_datetime_text("2024-01-01T08:00:00+08:00"), Some(1_704_067_200_000));
    assert_eq!(parse_datetime_text("1700000000"), Some(1_700_000_000_000));
    assert_eq!(parse_datetime_text("1700000000000"), Some(1_700_000_000_000));
    assert_eq!(parse_datetime_text("2024-01-01 08:30:00"), Some(1_704_097_800_000));
    assert_eq!(parse_datetime_text("not a date"), None);

    let record: JsonRecord = vec![num_field("inspection_date", Some(1_700_000_000), 0, "1700000000")];
    assert_eq!(rec_datetime(&record, &["inspection_date"]), Some(1_700_000_000_000));
}

#[test]
fn map_record_resolves_fields_and_defaults() {
    let record: JsonRecord = vec![
        str_field("facility_name", "  Taco Spot  "),
        str_field("address", "12 Elm St"),
        str_field("city", "Tustin"),
        str_field("zip", "92780"),
        str_field("facility_id", "ABC-1"),
        num_field("score", None, 88_000_000, "88"),
        str_field("inspection_date", "2024-01-01"),
        str_field("violation_description", "Dirty floor"),
    ];
    let input = map_record(&record, Jurisdiction::OrangeCounty, "oc", 0, 42).unwrap();
    assert_eq!(input.name, "Taco Spot");
    assert_eq!(input.address, "12 Elm St");
    assert_eq!(input.city, "Tustin");
    assert_eq!(input.postal_code, "92780");
    assert_eq!(input.state, "CA");
    assert_eq!(input.source_id, "ABC-1");
    assert_eq!(input.raw_score_centi, Some(8800));
    assert_eq!(input.inspected_at_ms, 1_704_067_200_000);
    assert_eq!(input.violations.len(), 1);
    assert_eq!(input.violations[0].code, "CPRA");
    assert_eq!(input.violations[0].description, "Dirty floor");

    // no name: the row is dropped
    let nameless: JsonRecord = vec![str_field("address", "12 Elm St")];
    assert!(map_record(&nameless, Jurisdiction::OrangeCounty, "oc", 0, 42).is_none());

    // no coordinates: the jurisdiction default fills in
    assert_eq!(input.latitude_micro, 33_717_500);
    assert_eq!(input.longitude_micro, -117_831_100);
}

#[test]
fn synthetic_ids_are_stable_and_distinct() {
    let a1 = stable_id("oc", "Taco Spot", "12 Elm St", "Tustin", 3);
    let a2 = stable_id("oc", "Taco Spot", "12 Elm St", "Tustin", 3);
    let b = stable_id("oc", "Other Spot", "12 Elm St", "Tustin", 3);
    assert_eq!(a1, a2);
    assert_ne!(a1, b);
    assert!(a1.starts_with("oc-"));
    assert_eq!(a1.len(), "oc-".len() + 16);
    // the unkeyed row of a mapped record gets exactly this id
    let record: JsonRecord = vec![
        str_field("facility_name", "Taco Spot"),
        str_field("address", "12 Elm St"),
        str_field("city", "Tustin"),
    ];
    let input = map_record(&record, Jurisdiction::OrangeCounty, "oc", 3, 42).unwrap();
    assert_eq!(input.source_id, a1);
}

#[test]
fn slugs_fold_and_trim() {
    assert_eq!(slugify("Joe's  Crab_Shack - Downtown"), "joes-crab-shack-downtown");
    assert_eq!(slugify("--Already-Dashed--"), "already-dashed");
    assert_eq!(slugify("!!!"), "");
}

#[test]
fn sanitizer_escapes_control_characters_inside_strings() {
    assert_eq!(
        sanitize_json_control_chars("{\"a\": \"line\nbreak\"}"),
        "{\"a\": \"line\\nbreak\"}"
    );
    assert_eq!(sanitize_json_control_chars("{\"a\": \"t\tb\"}"), "{\"a\": \"t\\tb\"}");
    assert_eq!(sanitize_json_control_chars("{\"a\": \"x\u{1}y\"}"), "{\"a\": \"x\\u0001y\"}");
    // outside string literals nothing changes
    assert_eq!(sanitize_json_control_chars("{\n}"), "{\n}");
    // an escaped quote does not end the string
    assert_eq!(sanitize_json_control_chars("\"a\\\"\nb\""), "\"a\\\"\\nb\"");
}

#[test]
fn grades_and_permit_signals() {
    assert_eq!(score_to_grade(9500).as_deref(), Some("A"));
    assert_eq!(score_to_grade(8500).as_deref(), Some("B"));
    assert_eq!(score_to_grade(7000).as_deref(), Some("C"));
    assert_eq!(score_to_grade(-100), None);
    assert_eq!(score_to_grade(10100), None);

    let inactive = derive_scoring_signals(Some("Permit Renewed"), false);
    assert_eq!(inactive.0, Some(4000));
    assert_eq!(inactive.2.as_deref(), Some("Red"));
    let renewed = derive_scoring_signals(Some("Permit RENEWED"), true);
    assert_eq!(renewed.0, Some(9200));
    assert_eq!(renewed.1.as_deref(), Some("A"));
    let issued = derive_scoring_signals(Some("issued last week"), true);
    assert_eq!(issued.0, Some(8800));
    let suspended = derive_scoring_signals(Some("Suspended"), true);
    assert_eq!(suspended.0, Some(5500));
    let unknown = derive_scoring_signals(Some("pending"), true);
    assert_eq!(unknown, (None, None, None));
}

#[test]
fn sd_rows_map_with_city_fallbacks() {
    let row = SdPermitRow {
        record_id: Some("R-9".to_owned()),
        record_name: Some("Harbor Fish".to_owned()),
        address: None,
        city: Some("Chula Vista".to_owned()),
        state: None,
        zip: Some("91910".to_owned()),
        latitude: None,
        longitude: Some("-117.0842".to_owned()),
        last_updated: Some("2024-01-01T00:00:00".to_owned()),
        permit_status: Some("Renewed".to_owned()),
        active_permit: Some(true),
    };
    let input = map_row_to_source_input(row, 99).unwrap();
    assert_eq!(input.source_id, "R-9");
    assert_eq!(input.city, "Chula Vista");
    assert_eq!(input.latitude_micro, 32_640_100);
    assert_eq!(input.longitude_micro, -117_084_200);
    assert_eq!(input.inspected_at_ms, 1_704_067_200_000);
    assert_eq!(input.raw_score_centi, Some(9200));
    assert_eq!(input.state, "CA");
    assert_eq!(city_fallback_coordinates("nowhere"), (32_715_700, -117_161_100));

    let no_id = SdPermitRow {
        record_id: None,
        record_name: Some("x".to_owned()),
        address: None,
        city: None,
        state: None,
        zip: None,
        latitude: None,
        longitude: None,
        last_updated: None,
        permit_status: None,
        active_permit: None,
    };
    assert!(map_row_to_source_input(no_id, 99).is_none());
}

#[test]
fn long_beach_rows_carry_closure_signals() {
    let lines = vec!["The Wharf".to_owned(), "100 Pine Ave".to_owned(), "Suite 2".to_owned()];
    let closed = map_long_beach_row(&lines, "06/01/2024", "", "rodents", 0).unwrap();
    assert_eq!(closed.name, "The Wharf");
    assert_eq!(closed.address, "100 Pine Ave, Suite 2");
    assert_eq!(closed.inspected_at_ms, 1_717_200_000_000);
    assert_eq!(closed.raw_score_centi, Some(4000));
    assert_eq!(closed.placard_status.as_deref(), Some("Red"));
    assert_eq!(closed.source_id, "lb-closure-2024-06-01-the-wharf");
    assert_eq!(closed.violations[0].description, "rodents");
    assert!(closed.violations[0].critical);

    let reopened = map_long_beach_row(&lines, "06/01/2024", "06/08/2024", "fixed", 0).unwrap();
    assert_eq!(reopened.raw_score_centi, Some(7400));
    assert_eq!(reopened.placard_status.as_deref(), Some("Yellow"));

    let header = vec!["Restaurant".to_owned()];
    assert!(map_long_beach_row(&header, "06/01/2024", "", "", 0).is_none());
}

#[test]
fn search_terms_split_or_fall_back() {
    let defaults = default_orange_county_search_terms();
    assert_eq!(defaults.len(), 37);
    assert_eq!(defaults[0], "");
    assert_eq!(defaults[1], "a");
    assert_eq!(defaults[26], "z");
    assert_eq!(defaults[27], "0");
    assert_eq!(defaults[36], "9");

    let picked = parse_search_terms(Some("taco, burger ,,".to_owned()), defaults.clone());
    assert_eq!(picked, vec!["taco".to_owned(), "burger".to_owned()]);
    let blank = parse_search_terms(Some("  , ,".to_owned()), defaults.clone());
    assert_eq!(blank.len(), 37);
    let absent = parse_search_terms(None, defaults);
    assert_eq!(absent.len(), 37);
}

#[test]
fn http_words_parse_exactly() {
    assert_eq!(parse_vote(" LIKE "), Some(VoteValue::Like));
    assert_eq!(parse_vote("dislike"), Some(VoteValue::Dislike));
    assert_eq!(parse_vote("meh"), None);
    assert_eq!(parse_run_mode("Worker"), RunMode::Worker);
    assert_eq!(parse_run_mode("refresh_once"), RunMode::RefreshOnce);
    assert_eq!(parse_run_mode("anything"), RunMode::Api);
    assert!(parse_bool_flag("YES"));
    assert!(parse_bool_flag("1"));
    assert!(!parse_bool_flag("off"));
}

#[test]
fn voter_keys_prefer_the_forwarded_chain() {
    assert_eq!(derive_voter_key(Some("1.2.3.4, 5.6.7.8"), Some("9.9.9.9")), "1.2.3.4");
    assert_eq!(derive_voter_key(Some("  , 5.6.7.8"), Some("9.9.9.9")), "9.9.9.9");
    assert_eq!(derive_voter_key(None, Some(" 9.9.9.9 ")), "9.9.9.9");
    assert_eq!(derive_voter_key(None, None), "unknown");
    assert_eq!(derive_voter_key(Some(""), Some("")), "unknown");
}

#[test]
fn county_rows_merge_with_inventory_fallbacks() {
    let inspection = LaInspectionRow {
        activity_date_ms: Some(1_700_000_000_000),
        facility_id: Some("FA001".to_owned()),
        facility_name: None,
        facility_address: Some("500 Spring St".to_owned()),
        facility_city: None,
        facility_state: None,
        facility_zip: None,
        score_centi: Some(9400),
        grade: Some("A".to_owned()),
        serial_number: Some("SN1".to_owned()),
    };
    let inventory = LaInventoryRow {
        facility_name: Some("Spring Cafe".to_owned()),
        facility_address: None,
        facility_city: Some("Glendale".to_owned()),
        facility_state: None,
        facility_zip: Some("91204".to_owned()),
        latitude_micro: Some(34_142_500),
        longitude_micro: None,
    };
    let input = merge_la_row(inspection, Some(&inventory), Vec::new(), 7).unwrap();
    assert_eq!(input.source_id, "FA001");
    assert_eq!(input.name, "Spring Cafe");
    assert_eq!(input.address, "500 Spring St");
    assert_eq!(input.city, "Glendale");
    assert_eq!(input.state, "CA");
    assert_eq!(input.postal_code, "91204");
    assert_eq!(input.latitude_micro, 34_142_500);
    assert_eq!(input.longitude_micro, -118_243_700);
    assert_eq!(input.raw_score_centi, Some(9400));
    assert_eq!(input.inspected_at_ms, 1_700_000_000_000);

    let no_id = LaInspectionRow {
        activity_date_ms: None,
        facility_id: None,
        facility_name: None,
        facility_address: None,
        facility_city: None,
        facility_state: None,
        facility_zip: None,
        score_centi: None,
        grade: None,
        serial_number: None,
    };
    assert!(merge_la_row(no_id, None, Vec::new(), 7).is_none());
}

#[test]
fn county_violations_mark_critical_from_four_points() {
    let severe = la_violation(None, Some("vermin".to_owned()), Some(4));
    assert_eq!(severe.code, "LA-UNKNOWN");
    assert_eq!(severe.points, 4);
    assert!(severe.critical);
    let mild = la_violation(Some("V1".to_owned()), None, Some(3));
    assert_eq!(mild.code, "V1");
    assert_eq!(mild.description, "");
    assert!(!mild.critical);
    let empty = la_violation(None, None, None);
    assert_eq!(empty.points, 0);
    assert!(!empty.critical);
}

#[test]
fn export_envelopes_unwrap_to_records() {
    // a bare array keeps only its objects
    let body = JsonValue::Arr(vec![
        JsonValue::Obj(vec![str_field("name", "A")]),
        JsonValue::Str("noise".to_owned()),
        JsonValue::Obj(vec![str_field("name", "B")]),
    ]);
    let records = parse_json_records(body);
    assert_eq!(records.len(), 2);

    // a feature collection takes each feature's attributes
    let body = JsonValue::Obj(vec![(
        "features".to_owned(),
        JsonValue::Arr(vec![JsonValue::Obj(vec![(
            "attributes".to_owned(),
            JsonValue::Obj(vec![str_field("name", "C")]),
        )])]),
    )]);
    let records = parse_json_records(body);
    assert_eq!(records.len(), 1);
    assert_eq!(records[0][0].0, "name");

    // the data/results/records/value keys are tried in that order
    let body = JsonValue::Obj(vec![
        (
            "results".to_owned(),
            JsonValue::Arr(vec![JsonValue::Obj(vec![str_field("name", "late")])]),
        ),
        (
            "data".to_owned(),
            JsonValue::Arr(vec![JsonValue::Obj(vec![str_field("name", "first")])]),
        ),
    ]);
    let records = parse_json_records(body);
    assert_eq!(records.len(), 1);
    match &records[0][0].1 {
        JsonValue::Str(s) => assert_eq!(s, "first"),
        _ => panic!("expected a string field"),
    }

    // anything else yields nothing
    assert!(parse_json_records(JsonValue::Null).is_empty());
}
