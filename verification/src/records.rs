//! Normalization of raw upstream records into [`SourceFacilityInput`]s:
//! field-alias resolution over a plain JSON model, date parsing in the
//! accepted upstream formats, synthetic stable ids, and the per-feed
//! scoring heuristics.

use vstd::prelude::*;

use crate::numbers::parse_i64;
use crate::numbers::parse_micro;
use crate::numbers::spec_parse_i64;
use crate::numbers::spec_parse_micro;
use crate::numbers::spec_u64_hex16;
use crate::numbers::u64_to_hex16;
use crate::numbers::u64_to_dec;
use crate::numbers::spec_u64_dec;
use crate::text::lower_str;
use crate::text::push_char;
use crate::text::spec_lower;
use crate::text::spec_trim;
use crate::text::str_eq;
use crate::text::trim_str;

verus! {

/// The number leaf of the JSON model: the integer value when the number
/// is one, its value in millionths, and its original rendering.
#[derive(Debug)]
pub struct JsonNumber {
    pub int: Option<i64>,
    pub micro: i64,
    pub text: String,
}

/// A plain JSON value as the normalizers read it. The boundary that
/// fetches and decodes upstream bodies converts into this model.
#[derive(Debug)]
pub enum JsonValue {
    Null,
    Bool(bool),
    Num(JsonNumber),
    Str(String),
    Arr(Vec<JsonValue>),
    Obj(Vec<(String, JsonValue)>),
}

/// One upstream record: JSON object fields in their original order.
pub type JsonRecord = Vec<(String, JsonValue)>;

/// The first field of a record with the given name.
pub open spec fn spec_obj_get(fields: Seq<(String, JsonValue)>, key: Seq<char>) -> Option<JsonValue>
    decreases fields.len(),
{
    if fields.len() == 0 {
        None
    } else if fields[0].0@ == key {
        Some(fields[0].1)
    } else {
        spec_obj_get(fields.drop_first(), key)
    }
}

/// Looks a field up by exact name; the first match wins.
pub fn obj_get<'a>(fields: &'a JsonRecord, key: &str) -> (r: Option<&'a JsonValue>)
    ensures
        match r {
            Some(v) => spec_obj_get(fields@, key@) == Some(*v),
            None => spec_obj_get(fields@, key@) is None,
        },
{
    let n = fields.len();
    let mut i: usize = 0;
    proof {
        assert(fields@.subrange(0, n as int) =~= fields@);
    }
    while i < n
        invariant
            n == fields.len(),
            i <= n,
            spec_obj_get(fields@, key@) == spec_obj_get(
                fields@.subrange(i as int, n as int),
                key@,
            ),
        decreases n - i,
    {
        let ghost rest = fields@.subrange(i as int, n as int);
        proof {
            assert(rest[0] == fields@[i as int]);
            assert(rest.drop_first() =~= fields@.subrange(i + 1, n as int));
        }
        if str_eq(fields[i].0.as_str(), key) {
            return Some(&fields[i].1);
        }
        i = i + 1;
    }
    proof {
        assert(fields@.subrange(n as int, n as int) =~= Seq::<(String, JsonValue)>::empty());
    }
    None
}

/// The views of an alias list.
pub open spec fn spec_key_views(keys: Seq<&str>) -> Seq<Seq<char>> {
    keys.map_values(|k: &str| k@)
}

/// The value of the first listed key that is present at all.
pub open spec fn spec_first_present(fields: Seq<(String, JsonValue)>, keys: Seq<Seq<char>>) -> Option<
    JsonValue,
>
    decreases keys.len(),
{
    if keys.len() == 0 {
        None
    } else {
        match spec_obj_get(fields, keys[0]) {
            Some(v) => Some(v),
            None => spec_first_present(fields, keys.drop_first()),
        }
    }
}

fn first_present<'a>(fields: &'a JsonRecord, keys: &[&str]) -> (r: Option<&'a JsonValue>)
    ensures
        match r {
            Some(v) => spec_first_present(fields@, spec_key_views(keys@)) == Some(*v),
            None => spec_first_present(fields@, spec_key_views(keys@)) is None,
        },
{
    let ghost kv = spec_key_views(keys@);
    let n = keys.len();
    let mut i: usize = 0;
    proof {
        assert(kv.subrange(0, n as int) =~= kv);
    }
    while i < n
        invariant
            n == keys.len(),
            kv == spec_key_views(keys@),
            i <= n,
            spec_first_present(fields@, kv) == spec_first_present(
                fields@,
                kv.subrange(i as int, n as int),
            ),
        decreases n - i,
    {
        let ghost rest = kv.subrange(i as int, n as int);
        proof {
            assert(rest[0] == kv[i as int]);
            assert(rest.drop_first() =~= kv.subrange(i + 1, n as int));
        }
        if let Some(v) = obj_get(fields, keys[i]) {
            return Some(v);
        }
        i = i + 1;
    }
    proof {
        assert(kv.subrange(n as int, n as int) =~= Seq::<Seq<char>>::empty());
    }
    None
}

/// The text a record field yields: a string is trimmed, a number keeps
/// its rendering; blanks and anything else yield nothing.
pub open spec fn spec_text_of(v: JsonValue) -> Option<Seq<char>> {
    match v {
        JsonValue::Str(s) => if spec_trim(s@).len() > 0 {
            Some(spec_trim(s@))
        } else {
            None
        },
        JsonValue::Num(n) => if n.text@.len() > 0 {
            Some(n.text@)
        } else {
            None
        },
        _ => None,
    }
}

/// The text of the first listed key that is present; a present key with
/// no usable text ends the search.
pub open spec fn spec_rec_string(fields: Seq<(String, JsonValue)>, keys: Seq<Seq<char>>) -> Option<
    Seq<char>,
> {
    match spec_first_present(fields, keys) {
        None => None,
        Some(v) => spec_text_of(v),
    }
}

/// Resolves a record's text under a list of field aliases.
pub fn rec_string(record: &JsonRecord, keys: &[&str]) -> (r: Option<String>)
    ensures
        r.deep_view() == spec_rec_string(record@, spec_key_views(keys@)),
{
    match first_present(record, keys) {
        None => None,
        Some(v) => match v {
            JsonValue::Str(s) => {
                let t = trim_str(s.as_str());
                if t.as_str().is_empty() {
                    None
                } else {
                    Some(t)
                }
            },
            JsonValue::Num(n) => {
                if n.text.as_str().is_empty() {
                    None
                } else {
                    Some(n.text.clone())
                }
            },
            _ => None,
        },
    }
}

/// The millionths a field yields: a number directly, a string through
/// plain decimal parsing of its trimmed text.
pub open spec fn spec_micro_of(v: JsonValue) -> Option<i64> {
    match v {
        JsonValue::Num(n) => Some(n.micro),
        JsonValue::Str(s) => spec_parse_micro(spec_trim(s@)),
        _ => None,
    }
}

/// The millionths of the first listed key whose value yields any; unlike
/// text resolution, an unusable value moves on to the next key.
pub open spec fn spec_rec_micro(fields: Seq<(String, JsonValue)>, keys: Seq<Seq<char>>) -> Option<i64>
    decreases keys.len(),
{
    if keys.len() == 0 {
        None
    } else {
        match spec_obj_get(fields, keys[0]) {
            Some(v) => match spec_micro_of(v) {
                Some(m) => Some(m),
                None => spec_rec_micro(fields, keys.drop_first()),
            },
            None => spec_rec_micro(fields, keys.drop_first()),
        }
    }
}

/// Resolves a record's numeric field, in millionths, under field aliases.
pub fn rec_micro(record: &JsonRecord, keys: &[&str]) -> (r: Option<i64>)
    ensures
        r == spec_rec_micro(record@, spec_key_views(keys@)),
{
    let ghost kv = spec_key_views(keys@);
    let n = keys.len();
    let mut i: usize = 0;
    proof {
        assert(kv.subrange(0, n as int) =~= kv);
    }
    while i < n
        invariant
            n == keys.len(),
            kv == spec_key_views(keys@),
            i <= n,
            spec_rec_micro(record@, kv) == spec_rec_micro(
                record@,
                kv.subrange(i as int, n as int),
            ),
        decreases n - i,
    {
        let ghost rest = kv.subrange(i as int, n as int);
        proof {
            assert(rest[0] == kv[i as int]);
            assert(rest.drop_first() =~= kv.subrange(i + 1, n as int));
        }
        if let Some(v) = obj_get(record, keys[i]) {
            match v {
                JsonValue::Num(num) => {
                    return Some(num.micro);
                },
                JsonValue::Str(s) => {
                    if let Some(m) = parse_micro(trim_str(s.as_str()).as_str()) {
                        return Some(m);
                    }
                },
                _ => {},
            }
        }
        i = i + 1;
    }
    proof {
        assert(kv.subrange(n as int, n as int) =~= Seq::<Seq<char>>::empty());
    }
    None
}

/// The boolean a field yields: a JSON boolean directly, or the words
/// `true`/`1`/`yes` and `false`/`0`/`no`, trimmed and case-insensitively.
pub open spec fn spec_bool_of(v: JsonValue) -> Option<bool> {
    match v {
        JsonValue::Bool(b) => Some(b),
        JsonValue::Str(s) => {
            let norm = spec_lower(spec_trim(s@));
            if norm == "true"@ || norm == "1"@ || norm == "yes"@ {
                Some(true)
            } else if norm == "false"@ || norm == "0"@ || norm == "no"@ {
                Some(false)
            } else {
                None
            }
        },
        _ => None,
    }
}

/// The boolean of the first listed key whose value yields one.
pub open spec fn spec_rec_bool(fields: Seq<(String, JsonValue)>, keys: Seq<Seq<char>>) -> Option<bool>
    decreases keys.len(),
{
    if keys.len() == 0 {
        None
    } else {
        match spec_obj_get(fields, keys[0]) {
            Some(v) => match spec_bool_of(v) {
                Some(b) => Some(b),
                None => spec_rec_bool(fields, keys.drop_first()),
            },
            None => spec_rec_bool(fields, keys.drop_first()),
        }
    }
}

/// Resolves a record's boolean field under field aliases.
pub fn rec_bool(record: &JsonRecord, keys: &[&str]) -> (r: Option<bool>)
    ensures
        r == spec_rec_bool(record@, spec_key_views(keys@)),
{
    let ghost kv = spec_key_views(keys@);
    let n = keys.len();
    let mut i: usize = 0;
    proof {
        assert(kv.subrange(0, n as int) =~= kv);
    }
    while i < n
        invariant
            n == keys.len(),
            kv == spec_key_views(keys@),
            i <= n,
            spec_rec_bool(record@, kv) == spec_rec_bool(
                record@,
                kv.subrange(i as int, n as int),
            ),
        decreases n - i,
    {
        let ghost rest = kv.subrange(i as int, n as int);
        proof {
            assert(rest[0] == kv[i as int]);
            assert(rest.drop_first() =~= kv.subrange(i + 1, n as int));
        }
        if let Some(v) = obj_get(record, keys[i]) {
            match v {
                JsonValue::Bool(b) => {
                    return Some(*b);
                },
                JsonValue::Str(s) => {
                    let norm = lower_str(trim_str(s.as_str()).as_str());
                    if str_eq(norm.as_str(), "true") || str_eq(norm.as_str(), "1") || str_eq(
                        norm.as_str(),
                        "yes",
                    ) {
                        return Some(true);
                    }
                    if str_eq(norm.as_str(), "false") || str_eq(norm.as_str(), "0") || str_eq(
                        norm.as_str(),
                        "no",
                    ) {
                        return Some(false);
                    }
                    proof {
                        reveal_strlit("true");
                        reveal_strlit("1");
                        reveal_strlit("yes");
                        reveal_strlit("false");
                        reveal_strlit("0");
                        reveal_strlit("no");
                        assert("true"@.len() == 4 && "1"@.len() == 1 && "yes"@.len() == 3
                            && "false"@.len() == 5 && "0"@.len() == 1 && "no"@.len() == 2);
                    }
                },
                _ => {},
            }
        }
        i = i + 1;
    }
    proof {
        assert(kv.subrange(n as int, n as int) =~= Seq::<Seq<char>>::empty());
    }
    None
}

/// An epoch number turned into milliseconds: values above ten billion are
/// already milliseconds, smaller ones are seconds; seconds whose
/// milliseconds would not fit yield nothing.
pub open spec fn spec_timestamp_to_ms(raw: i64) -> Option<i64> {
    if raw > 10_000_000_000 {
        Some(raw)
    } else if -9_223_372_036_854_775 <= raw <= 9_223_372_036_854_775 {
        Some((raw * 1000) as i64)
    } else {
        None
    }
}

/// Converts an epoch number to milliseconds, treating large values as
/// already in milliseconds.
pub fn timestamp_to_ms(raw: i64) -> (r: Option<i64>)
    ensures
        r == spec_timestamp_to_ms(raw),
{
    if raw > 10_000_000_000 {
        Some(raw)
    } else if -9_223_372_036_854_775i64 <= raw && raw <= 9_223_372_036_854_775i64 {
        Some(raw * 1000)
    } else {
        None
    }
}

/// What chrono's RFC 3339 parser yields for a string, in epoch
/// milliseconds; a function of the text alone.
pub uninterp spec fn rfc3339_ms_of(s: Seq<char>) -> Option<i64>;

/// Relies on chrono's `DateTime::parse_from_rfc3339`: the parse depends
/// on the text alone; the instant is converted to epoch milliseconds.
#[verifier::external_body]
fn parse_rfc3339_ms(s: &str) -> (r: Option<i64>)
    ensures
        r == rfc3339_ms_of(s@),
{
    chrono::DateTime::parse_from_rfc3339(s).ok().map(
        |d| d.with_timezone(&chrono::Utc).timestamp_millis(),
    )
}

/// What chrono's `NaiveDate::parse_from_str` yields for a string and a
/// format, taken at midnight UTC in epoch milliseconds.
pub uninterp spec fn date_fmt_ms_of(s: Seq<char>, fmt: Seq<char>) -> Option<i64>;

/// Relies on chrono's `NaiveDate::parse_from_str`: the parse depends on
/// text and format alone; the date is taken at midnight UTC.
#[verifier::external_body]
fn parse_date_fmt_ms(s: &str, fmt: &str) -> (r: Option<i64>)
    ensures
        r == date_fmt_ms_of(s@, fmt@),
{
    chrono::NaiveDate::parse_from_str(s, fmt).ok().and_then(|d| d.and_hms_opt(0, 0, 0)).map(
        |n| chrono::DateTime::<chrono::Utc>::from_naive_utc_and_offset(n, chrono::Utc)
            .timestamp_millis(),
    )
}

/// What chrono's `NaiveDateTime::parse_from_str` yields for a string and
/// a format, taken as UTC in epoch milliseconds.
pub uninterp spec fn datetime_fmt_ms_of(s: Seq<char>, fmt: Seq<char>) -> Option<i64>;

/// Relies on chrono's `NaiveDateTime::parse_from_str`: the parse depends
/// on text and format alone; the instant is taken as UTC.
#[verifier::external_body]
fn parse_datetime_fmt_ms(s: &str, fmt: &str) -> (r: Option<i64>)
    ensures
        r == datetime_fmt_ms_of(s@, fmt@),
{
    chrono::NaiveDateTime::parse_from_str(s, fmt).ok().map(
        |n| chrono::DateTime::<chrono::Utc>::from_naive_utc_and_offset(n, chrono::Utc)
            .timestamp_millis(),
    )
}

/// What chrono renders for an epoch-millisecond instant's UTC calendar
/// date, `YYYY-MM-DD`; empty for instants chrono cannot represent.
pub uninterp spec fn utc_date_string_of(ms: i64) -> Seq<char>;

/// Relies on chrono's `DateTime::from_timestamp_millis` and the
/// `NaiveDate` rendering: the date string depends on the instant alone.
#[verifier::external_body]
pub(crate) fn format_utc_date(ms: i64) -> (r: String)
    ensures
        r@ == utc_date_string_of(ms),
{
    match chrono::DateTime::from_timestamp_millis(ms) {
        Some(d) => d.date_naive().to_string(),
        None => String::new(),
    }
}

/// The instant a free-form timestamp text yields, trying an epoch
/// number, RFC 3339, and the accepted calendar formats, in that order.
pub open spec fn spec_parse_datetime_text(s: Seq<char>) -> Option<i64> {
    match spec_parse_i64(s) {
        Some(number) => spec_timestamp_to_ms(number),
        None => match rfc3339_ms_of(s) {
            Some(ms) => Some(ms),
            None => match date_fmt_ms_of(s, "%Y-%m-%d"@) {
                Some(ms) => Some(ms),
                None => match date_fmt_ms_of(s, "%m/%d/%Y"@) {
                    Some(ms) => Some(ms),
                    None => match datetime_fmt_ms_of(s, "%Y-%m-%d %H:%M:%S"@) {
                        Some(ms) => Some(ms),
                        None => match datetime_fmt_ms_of(s, "%Y-%m-%d %H:%M:%S%.f"@) {
                            Some(ms) => Some(ms),
                            None => datetime_fmt_ms_of(s, "%m/%d/%Y %H:%M:%S"@),
                        },
                    },
                },
            },
        },
    }
}

/// Parses a free-form timestamp text in the accepted upstream formats.
pub fn parse_datetime_text(s: &str) -> (r: Option<i64>)
    ensures
        r == spec_parse_datetime_text(s@),
{
    if let Some(number) = parse_i64(s) {
        return timestamp_to_ms(number);
    }
    if let Some(ms) = parse_rfc3339_ms(s) {
        return Some(ms);
    }
    if let Some(ms) = parse_date_fmt_ms(s, "%Y-%m-%d") {
        return Some(ms);
    }
    if let Some(ms) = parse_date_fmt_ms(s, "%m/%d/%Y") {
        return Some(ms);
    }
    if let Some(ms) = parse_datetime_fmt_ms(s, "%Y-%m-%d %H:%M:%S") {
        return Some(ms);
    }
    if let Some(ms) = parse_datetime_fmt_ms(s, "%Y-%m-%d %H:%M:%S%.f") {
        return Some(ms);
    }
    parse_datetime_fmt_ms(s, "%m/%d/%Y %H:%M:%S")
}

/// The instant a record's date field yields: an integer number as an
/// epoch value, a non-blank string through the free-form formats.
pub open spec fn spec_datetime_of(v: JsonValue) -> Option<i64> {
    match v {
        JsonValue::Num(n) => match n.int {
            Some(raw) => spec_timestamp_to_ms(raw),
            None => None,
        },
        JsonValue::Str(s) => if spec_trim(s@).len() == 0 {
            None
        } else {
            spec_parse_datetime_text(spec_trim(s@))
        },
        _ => None,
    }
}

/// The instant of the first listed key that is present at all.
pub open spec fn spec_rec_datetime(fields: Seq<(String, JsonValue)>, keys: Seq<Seq<char>>) -> Option<
    i64,
> {
    match spec_first_present(fields, keys) {
        None => None,
        Some(v) => spec_datetime_of(v),
    }
}

/// Resolves a record's inspection date under field aliases.
pub fn rec_datetime(record: &JsonRecord, keys: &[&str]) -> (r: Option<i64>)
    ensures
        r == spec_rec_datetime(record@, spec_key_views(keys@)),
{
    match first_present(record, keys) {
        None => None,
        Some(v) => match v {
            JsonValue::Num(n) => match n.int {
                Some(raw) => timestamp_to_ms(raw),
                None => None,
            },
            JsonValue::Str(s) => {
                let t = trim_str(s.as_str());
                if t.as_str().is_empty() {
                    None
                } else {
                    parse_datetime_text(t.as_str())
                }
            },
            _ => None,
        },
    }
}

/// What std's `DefaultHasher` yields for a string: the same text always
/// digests to the same value.
pub uninterp spec fn digest64_of(s: Seq<char>) -> u64;

/// Relies on std's `DefaultHasher` (`std::hash`): hashing a string slice
/// is a function of its characters alone.
#[verifier::external_body]
fn hash64(s: &str) -> (r: u64)
    ensures
        r == digest64_of(s@),
{
    let mut hasher = std::collections::hash_map::DefaultHasher::new();
    std::hash::Hash::hash(s, &mut hasher);
    std::hash::Hasher::finish(&hasher)
}

/// The synthetic id of a row without a source id: the prefix, a dash,
/// and sixteen hex digits of the digest of `name|address|city|row_index`.
pub open spec fn spec_stable_id(
    prefix: Seq<char>,
    name: Seq<char>,
    address: Seq<char>,
    city: Seq<char>,
    row_index: usize,
) -> Seq<char> {
    prefix + seq!['-'] + spec_u64_hex16(
        digest64_of(
            name + seq!['|'] + address + seq!['|'] + city + seq!['|'] + spec_u64_dec(
                row_index as nat,
            ),
        ) as nat,
    )
}

/// Derives the deterministic synthetic id of an unkeyed source row.
pub fn stable_id(prefix: &str, name: &str, address: &str, city: &str, row_index: usize) -> (r:
    String)
    ensures
        r@ == spec_stable_id(prefix@, name@, address@, city@, row_index),
{
    let mut payload = String::from_str(name);
    push_char(&mut payload, '|');
    payload.append(address);
    push_char(&mut payload, '|');
    payload.append(city);
    push_char(&mut payload, '|');
    payload.append(u64_to_dec(row_index as u64).as_str());
    proof {
        assert(payload@ =~= name@ + seq!['|'] + address@ + seq!['|'] + city@ + seq!['|']
            + spec_u64_dec(row_index as nat));
    }
    let digest = hash64(payload.as_str());
    let mut id = String::from_str(prefix);
    push_char(&mut id, '-');
    id.append(u64_to_hex16(digest).as_str());
    proof {
        assert(id@ =~= spec_stable_id(prefix@, name@, address@, city@, row_index));
    }
    id
}


/// The upstream aliases of the name field.
pub open spec fn spec_name_keys() -> Seq<Seq<char>> {
    seq!["facility_name"@, "Facility_Name"@, "name"@, "record_name"@, "business_name"@, "establishmentName"@, "permitName"@, "PR_Estabname"@, "CERS_Estab_LKPname"@, "Name_of_Restaurant_Cafe"@]
}

/// The upstream aliases of the address field.
pub open spec fn spec_address_keys() -> Seq<Seq<char>> {
    seq!["address"@, "Address"@, "facility_address"@, "FACILITY_ADDRESS"@, "street_address"@, "addressLine1"@, "FacilityAddress"@, "CERS_Est_AddaddressLine1"@, "PR_EstAddressaddressLine1"@, "Business_Address_in_Pasadena"@]
}

/// The upstream aliases of the city field.
pub open spec fn spec_city_keys() -> Seq<Seq<char>> {
    seq!["city"@, "City"@, "facility_city"@, "FACILITY_CITY"@, "facilityCity"@, "CERS_Est_Addcity"@, "PR_EstAddresscity"@]
}

/// The upstream aliases of the postal field.
pub open spec fn spec_postal_keys() -> Seq<Seq<char>> {
    seq!["postal_code"@, "Zip"@, "zip"@, "FACILITY_ZIP"@, "zipcode"@, "facilityZip"@, "CERS_Est_Addzip"@, "PR_EstAddresszip"@]
}

/// The upstream aliases of the state field.
pub open spec fn spec_state_keys() -> Seq<Seq<char>> {
    seq!["state"@, "State"@, "FACILITY_STATE"@, "facilityState"@, "CERS_Est_Addstate"@, "PR_EstAddressstate"@]
}

/// The upstream aliases of the source id field.
pub open spec fn spec_source_id_keys() -> Seq<Seq<char>> {
    seq!["source_id"@, "facility_id"@, "Facility_ID"@, "record_id"@, "SERIAL_NUMBER"@, "id"@, "permitNumber"@, "inspectionID"@, "ObjectID"@]
}

/// The upstream aliases of the raw score field.
pub open spec fn spec_raw_score_keys() -> Seq<Seq<char>> {
    seq!["raw_score"@, "score"@, "Score"@, "SCORE"@]
}

/// The upstream aliases of the grade field.
pub open spec fn spec_grade_keys() -> Seq<Seq<char>> {
    seq!["letter_grade"@, "grade"@, "Grade"@, "GRADE"@]
}

/// The upstream aliases of the placard field.
pub open spec fn spec_placard_keys() -> Seq<Seq<char>> {
    seq!["placard_status"@, "status"@, "Placard_Status"@, "inspection_status"@, "result"@, "FacilityRatingStatus"@]
}

/// The upstream aliases of the lat field.
pub open spec fn spec_lat_keys() -> Seq<Seq<char>> {
    seq!["latitude"@, "Latitude"@, "FACILITY_LATITUDE"@]
}

/// The upstream aliases of the lon field.
pub open spec fn spec_lon_keys() -> Seq<Seq<char>> {
    seq!["longitude"@, "Longitude"@, "FACILITY_LONGITUDE"@]
}

/// The upstream aliases of the date field.
pub open spec fn spec_date_keys() -> Seq<Seq<char>> {
    seq!["inspected_at"@, "inspection_date"@, "Inspection_Date"@, "ACTIVITY_DATE"@, "date"@, "Date"@, "inspectionDate"@, "LastInspection"@]
}

/// The upstream aliases of the violation desc field.
pub open spec fn spec_violation_desc_keys() -> Seq<Seq<char>> {
    seq!["violation_description"@, "VIOLATION_DESCRIPTION"@, "closure_reason"@, "reason"@, "ReasonforClosure"@, "generalComments"@]
}

/// The upstream aliases of the violation code field.
pub open spec fn spec_violation_code_keys() -> Seq<Seq<char>> {
    seq!["violation_code"@, "VIOLATION_CODE"@, "code"@, "closure_code"@]
}

/// The upstream aliases of the points field.
pub open spec fn spec_points_keys() -> Seq<Seq<char>> {
    seq!["violation_points"@, "POINTS"@]
}

/// The upstream aliases of the critical field.
pub open spec fn spec_critical_keys() -> Seq<Seq<char>> {
    seq!["critical"@, "is_critical"@]
}

/// Millionths turned into hundredths, truncated toward zero and
/// saturated to the `i32` range.
pub open spec fn spec_micro_to_centi(m: i64) -> i32 {
    let q = if m >= 0 {
        m / 10000
    } else {
        -((-m) / 10000)
    };
    if q > i32::MAX {
        i32::MAX
    } else if q < i32::MIN {
        i32::MIN
    } else {
        q as i32
    }
}

/// Converts millionths to hundredths.
pub fn micro_to_centi(m: i64) -> (r: i32)
    ensures
        r == spec_micro_to_centi(m),
{
    let q: i128 = if m >= 0 {
        (m as i128) / 10000
    } else {
        -((-(m as i128)) / 10000)
    };
    if q > i32::MAX as i128 {
        i32::MAX
    } else if q < i32::MIN as i128 {
        i32::MIN
    } else {
        q as i32
    }
}

/// Millionths turned into whole points, truncated toward zero and
/// saturated to the `i16` range.
pub open spec fn spec_micro_to_points(m: i64) -> i16 {
    let q = if m >= 0 {
        m / 1000000
    } else {
        -((-m) / 1000000)
    };
    if q > i16::MAX {
        i16::MAX
    } else if q < i16::MIN {
        i16::MIN
    } else {
        q as i16
    }
}

/// Converts millionths to whole points.
pub fn micro_to_points(m: i64) -> (r: i16)
    ensures
        r == spec_micro_to_points(m),
{
    let q: i128 = if m >= 0 {
        (m as i128) / 1000000
    } else {
        -((-(m as i128)) / 1000000)
    };
    if q > i16::MAX as i128 {
        i16::MAX
    } else if q < i16::MIN as i128 {
        i16::MIN
    } else {
        q as i16
    }
}

/// The fallback coordinates of a jurisdiction, in microdegrees.
pub open spec fn spec_jurisdiction_default_coords(j: crate::entities::Jurisdiction) -> (i64, i64) {
    match j {
        crate::entities::Jurisdiction::OrangeCounty => (33_717_500i64, -117_831_100i64),
        crate::entities::Jurisdiction::Pasadena => (34_147_800i64, -118_144_500i64),
        _ => (34_052_200i64, -118_243_700i64),
    }
}

/// The fallback coordinates a jurisdiction supplies when a record has none.
pub fn jurisdiction_default_coords(j: crate::entities::Jurisdiction) -> (r: (i64, i64))
    ensures
        r == spec_jurisdiction_default_coords(j),
{
    match j {
        crate::entities::Jurisdiction::OrangeCounty => (33_717_500, -117_831_100),
        crate::entities::Jurisdiction::Pasadena => (34_147_800, -118_144_500),
        _ => (34_052_200, -118_243_700),
    }
}

/// The normalized record one upstream row yields, if it names a facility
/// at all: aliases resolved in order, the jurisdiction label, `CA` and
/// blank strings as fallbacks, jurisdiction-default coordinates, a
/// synthetic id when the feed has none, `now_ms` when no date parses,
/// and a single violation when a description is present.
pub open spec fn spec_map_record(
    fields: Seq<(String, JsonValue)>,
    jurisdiction: crate::entities::Jurisdiction,
    id_prefix: Seq<char>,
    row_index: usize,
    now_ms: i64,
) -> Option<crate::dto::SourceInputModel> {
    match spec_rec_string(fields, spec_name_keys()) {
        None => None,
        Some(name) => {
            let address = match spec_rec_string(fields, spec_address_keys()) {
                Some(a) => a,
                None => Seq::empty(),
            };
            let city = match spec_rec_string(fields, spec_city_keys()) {
                Some(c) => c,
                None => crate::entities::spec_label(jurisdiction),
            };
            let postal_code = match spec_rec_string(fields, spec_postal_keys()) {
                Some(p) => p,
                None => Seq::empty(),
            };
            let state = match spec_rec_string(fields, spec_state_keys()) {
                Some(s) => s,
                None => "CA"@,
            };
            let source_id = match spec_rec_string(fields, spec_source_id_keys()) {
                Some(s) => s,
                None => spec_stable_id(id_prefix, name, address, city, row_index),
            };
            let raw_score_centi = match spec_rec_micro(fields, spec_raw_score_keys()) {
                Some(m) => Some(spec_micro_to_centi(m)),
                None => None,
            };
            let letter_grade = spec_rec_string(fields, spec_grade_keys());
            let placard_status = spec_rec_string(fields, spec_placard_keys());
            let dflt = spec_jurisdiction_default_coords(jurisdiction);
            let latitude_micro = match spec_rec_micro(fields, spec_lat_keys()) {
                Some(m) => m,
                None => dflt.0,
            };
            let longitude_micro = match spec_rec_micro(fields, spec_lon_keys()) {
                Some(m) => m,
                None => dflt.1,
            };
            let inspected_at_ms = match spec_rec_datetime(fields, spec_date_keys()) {
                Some(ms) => ms,
                None => now_ms,
            };
            let violations = match spec_rec_string(fields, spec_violation_desc_keys()) {
                None => Seq::empty(),
                Some(description) => seq![
                    crate::entities::ViolationModel {
                        code: match spec_rec_string(fields, spec_violation_code_keys()) {
                            Some(c) => c,
                            None => "CPRA"@,
                        },
                        description,
                        points: match spec_rec_micro(fields, spec_points_keys()) {
                            Some(m) => spec_micro_to_points(m),
                            None => 0i16,
                        },
                        critical: match spec_rec_bool(fields, spec_critical_keys()) {
                            Some(b) => b,
                            None => false,
                        },
                    },
                ],
            };
            Some(
                crate::dto::SourceInputModel {
                    source_id,
                    name,
                    address,
                    city,
                    state,
                    postal_code,
                    latitude_micro,
                    longitude_micro,
                    jurisdiction,
                    inspected_at_ms,
                    raw_score_centi,
                    letter_grade,
                    placard_status,
                    violations,
                },
            )
        },
    }
}

fn name_keys() -> (keys: Vec<&'static str>)
    ensures
        spec_key_views(keys@) == spec_name_keys(),
{
    let mut keys: Vec<&str> = Vec::new();
    keys.push("facility_name");
    keys.push("Facility_Name");
    keys.push("name");
    keys.push("record_name");
    keys.push("business_name");
    keys.push("establishmentName");
    keys.push("permitName");
    keys.push("PR_Estabname");
    keys.push("CERS_Estab_LKPname");
    keys.push("Name_of_Restaurant_Cafe");
    proof {
        assert(spec_key_views(keys@) =~= spec_name_keys());
    }
    keys
}

fn address_keys() -> (keys: Vec<&'static str>)
    ensures
        spec_key_views(keys@) == spec_address_keys(),
{
    let mut keys: Vec<&str> = Vec::new();
    keys.push("address");
    keys.push("Address");
    keys.push("facility_address");
    keys.push("FACILITY_ADDRESS");
    keys.push("street_address");
    keys.push("addressLine1");
    keys.push("FacilityAddress");
    keys.push("CERS_Est_AddaddressLine1");
    keys.push("PR_EstAddressaddressLine1");
    keys.push("Business_Address_in_Pasadena");
    proof {
        assert(spec_key_views(keys@) =~= spec_address_keys());
    }
    keys
}

fn city_keys() -> (keys: Vec<&'static str>)
    ensures
        spec_key_views(keys@) == spec_city_keys(),
{
    let mut keys: Vec<&str> = Vec::new();
    keys.push("city");
    keys.push("City");
    keys.push("facility_city");
    keys.push("FACILITY_CITY");
    keys.push("facilityCity");
    keys.push("CERS_Est_Addcity");
    keys.push("PR_EstAddresscity");
    proof {
        assert(spec_key_views(keys@) =~= spec_city_keys());
    }
    keys
}

fn postal_keys() -> (keys: Vec<&'static str>)
    ensures
        spec_key_views(keys@) == spec_postal_keys(),
{
    let mut keys: Vec<&str> = Vec::new();
    keys.push("postal_code");
    keys.push("Zip");
    keys.push("zip");
    keys.push("FACILITY_ZIP");
    keys.push("zipcode");
    keys.push("facilityZip");
    keys.push("CERS_Est_Addzip");
    keys.push("PR_EstAddresszip");
    proof {
        assert(spec_key_views(keys@) =~= spec_postal_keys());
    }
    keys
}

fn state_keys() -> (keys: Vec<&'static str>)
    ensures
        spec_key_views(keys@) == spec_state_keys(),
{
    let mut keys: Vec<&str> = Vec::new();
    keys.push("state");
    keys.push("State");
    keys.push("FACILITY_STATE");
    keys.push("facilityState");
    keys.push("CERS_Est_Addstate");
    keys.push("PR_EstAddressstate");
    proof {
        assert(spec_key_views(keys@) =~= spec_state_keys());
    }
    keys
}

fn source_id_keys() -> (keys: Vec<&'static str>)
    ensures
        spec_key_views(keys@) == spec_source_id_keys(),
{
    let mut keys: Vec<&str> = Vec::new();
    keys.push("source_id");
    keys.push("facility_id");
    keys.push("Facility_ID");
    keys.push("record_id");
    keys.push("SERIAL_NUMBER");
    keys.push("id");
    keys.push("permitNumber");
    keys.push("inspectionID");
    keys.push("ObjectID");
    proof {
        assert(spec_key_views(keys@) =~= spec_source_id_keys());
    }
    keys
}

fn raw_score_keys() -> (keys: Vec<&'static str>)
    ensures
        spec_key_views(keys@) == spec_raw_score_keys(),
{
    let mut keys: Vec<&str> = Vec::new();
    keys.push("raw_score");
    keys.push("score");
    keys.push("Score");
    keys.push("SCORE");
    proof {
        assert(spec_key_views(keys@) =~= spec_raw_score_keys());
    }
    keys
}

fn grade_keys() -> (keys: Vec<&'static str>)
    ensures
        spec_key_views(keys@) == spec_grade_keys(),
{
    let mut keys: Vec<&str> = Vec::new();
    keys.push("letter_grade");
    keys.push("grade");
    keys.push("Grade");
    keys.push("GRADE");
    proof {
        assert(spec_key_views(keys@) =~= spec_grade_keys());
    }
    keys
}

fn placard_keys() -> (keys: Vec<&'static str>)
    ensures
        spec_key_views(keys@) == spec_placard_keys(),
{
    let mut keys: Vec<&str> = Vec::new();
    keys.push("placard_status");
    keys.push("status");
    keys.push("Placard_Status");
    keys.push("inspection_status");
    keys.push("result");
    keys.push("FacilityRatingStatus");
    proof {
        assert(spec_key_views(keys@) =~= spec_placard_keys());
    }
    keys
}

fn lat_keys() -> (keys: Vec<&'static str>)
    ensures
        spec_key_views(keys@) == spec_lat_keys(),
{
    let mut keys: Vec<&str> = Vec::new();
    keys.push("latitude");
    keys.push("Latitude");
    keys.push("FACILITY_LATITUDE");
    proof {
        assert(spec_key_views(keys@) =~= spec_lat_keys());
    }
    keys
}

fn lon_keys() -> (keys: Vec<&'static str>)
    ensures
        spec_key_views(keys@) == spec_lon_keys(),
{
    let mut keys: Vec<&str> = Vec::new();
    keys.push("longitude");
    keys.push("Longitude");
    keys.push("FACILITY_LONGITUDE");
    proof {
        assert(spec_key_views(keys@) =~= spec_lon_keys());
    }
    keys
}

fn date_keys() -> (keys: Vec<&'static str>)
    ensures
        spec_key_views(keys@) == spec_date_keys(),
{
    let mut keys: Vec<&str> = Vec::new();
    keys.push("inspected_at");
    keys.push("inspection_date");
    keys.push("Inspection_Date");
    keys.push("ACTIVITY_DATE");
    keys.push("date");
    keys.push("Date");
    keys.push("inspectionDate");
    keys.push("LastInspection");
    proof {
        assert(spec_key_views(keys@) =~= spec_date_keys());
    }
    keys
}

fn violation_desc_keys() -> (keys: Vec<&'static str>)
    ensures
        spec_key_views(keys@) == spec_violation_desc_keys(),
{
    let mut keys: Vec<&str> = Vec::new();
    keys.push("violation_description");
    keys.push("VIOLATION_DESCRIPTION");
    keys.push("closure_reason");
    keys.push("reason");
    keys.push("ReasonforClosure");
    keys.push("generalComments");
    proof {
        assert(spec_key_views(keys@) =~= spec_violation_desc_keys());
    }
    keys
}

fn violation_code_keys() -> (keys: Vec<&'static str>)
    ensures
        spec_key_views(keys@) == spec_violation_code_keys(),
{
    let mut keys: Vec<&str> = Vec::new();
    keys.push("violation_code");
    keys.push("VIOLATION_CODE");
    keys.push("code");
    keys.push("closure_code");
    proof {
        assert(spec_key_views(keys@) =~= spec_violation_code_keys());
    }
    keys
}

fn points_keys() -> (keys: Vec<&'static str>)
    ensures
        spec_key_views(keys@) == spec_points_keys(),
{
    let mut keys: Vec<&str> = Vec::new();
    keys.push("violation_points");
    keys.push("POINTS");
    proof {
        assert(spec_key_views(keys@) =~= spec_points_keys());
    }
    keys
}

fn critical_keys() -> (keys: Vec<&'static str>)
    ensures
        spec_key_views(keys@) == spec_critical_keys(),
{
    let mut keys: Vec<&str> = Vec::new();
    keys.push("critical");
    keys.push("is_critical");
    proof {
        assert(spec_key_views(keys@) =~= spec_critical_keys());
    }
    keys
}


/// Maps one upstream row to a normalized source record, resolving the
/// known field aliases; rows without any recognizable name are dropped.
pub fn map_record(
    record: &JsonRecord,
    jurisdiction: crate::entities::Jurisdiction,
    id_prefix: &str,
    row_index: usize,
    now_ms: i64,
) -> (r: Option<crate::dto::SourceFacilityInput>)
    ensures
        r.deep_view() == spec_map_record(record@, jurisdiction, id_prefix@, row_index, now_ms),
{
    let name = match rec_string(record, name_keys().as_slice()) {
        Some(n) => n,
        None => {
            return None;
        },
    };
    let address = match rec_string(record, address_keys().as_slice()) {
        Some(a) => a,
        None => String::new(),
    };
    let city = match rec_string(record, city_keys().as_slice()) {
        Some(c) => c,
        None => jurisdiction.label().to_owned(),
    };
    let postal_code = match rec_string(record, postal_keys().as_slice()) {
        Some(p) => p,
        None => String::new(),
    };
    let state = match rec_string(record, state_keys().as_slice()) {
        Some(s) => s,
        None => String::from_str("CA"),
    };
    let source_id = match rec_string(record, source_id_keys().as_slice()) {
        Some(s) => s,
        None => stable_id(id_prefix, name.as_str(), address.as_str(), city.as_str(), row_index),
    };
    let raw_score_centi = match rec_micro(record, raw_score_keys().as_slice()) {
        Some(m) => Some(micro_to_centi(m)),
        None => None,
    };
    let letter_grade = rec_string(record, grade_keys().as_slice());
    let placard_status = rec_string(record, placard_keys().as_slice());
    let dflt = jurisdiction_default_coords(jurisdiction);
    let latitude_micro = match rec_micro(record, lat_keys().as_slice()) {
        Some(m) => m,
        None => dflt.0,
    };
    let longitude_micro = match rec_micro(record, lon_keys().as_slice()) {
        Some(m) => m,
        None => dflt.1,
    };
    let inspected_at_ms = match rec_datetime(record, date_keys().as_slice()) {
        Some(ms) => ms,
        None => now_ms,
    };
    let mut violations: Vec<crate::entities::Violation> = Vec::new();
    if let Some(description) = rec_string(record, violation_desc_keys().as_slice()) {
        let code = match rec_string(record, violation_code_keys().as_slice()) {
            Some(c) => c,
            None => String::from_str("CPRA"),
        };
        let points = match rec_micro(record, points_keys().as_slice()) {
            Some(m) => micro_to_points(m),
            None => 0,
        };
        let critical = match rec_bool(record, critical_keys().as_slice()) {
            Some(b) => b,
            None => false,
        };
        violations.push(crate::entities::Violation { code, description, points, critical });
    }
    let out = crate::dto::SourceFacilityInput {
        source_id,
        name,
        address,
        city,
        state,
        postal_code,
        latitude_micro,
        longitude_micro,
        jurisdiction,
        inspected_at_ms,
        raw_score_centi,
        letter_grade,
        placard_status,
        violations,
    };
    proof {
        let sm = spec_map_record(record@, jurisdiction, id_prefix@, row_index, now_ms);
        assert(sm is Some);
        assert(out.deep_view().violations =~= sm->0.violations);
        assert(out.deep_view() == sm->0);
    }
    Some(out)
}


/// True of the characters `slugify` folds into dashes: ASCII white
/// space, dashes and underscores.
pub open spec fn spec_is_dashable(c: char) -> bool {
    c == ' ' || c == '\t' || c == '\n' || c as u32 == 12 || c == '\r' || c == '-' || c == '_'
}

/// One folding step of slug construction.
pub open spec fn spec_slug_fold(s: Seq<char>, acc: Seq<char>) -> Seq<char>
    decreases s.len(),
{
    if s.len() == 0 {
        acc
    } else {
        let c = s[0];
        if crate::text::spec_is_alnum(c) {
            spec_slug_fold(s.drop_first(), acc.push(crate::text::spec_lower_char(c)))
        } else if spec_is_dashable(c) && !(acc.len() > 0 && acc[acc.len() - 1] == '-') {
            spec_slug_fold(s.drop_first(), acc.push('-'))
        } else {
            spec_slug_fold(s.drop_first(), acc)
        }
    }
}

/// Leading dashes removed.
pub open spec fn spec_trim_dash_start(s: Seq<char>) -> Seq<char>
    decreases s.len(),
{
    if s.len() > 0 && s[0] == '-' {
        spec_trim_dash_start(s.drop_first())
    } else {
        s
    }
}

/// Trailing dashes removed.
pub open spec fn spec_trim_dash_end(s: Seq<char>) -> Seq<char>
    decreases s.len(),
{
    if s.len() > 0 && s[s.len() - 1] == '-' {
        spec_trim_dash_end(s.drop_last())
    } else {
        s
    }
}

/// The slug of free text: letters and digits lower-cased, runs of white
/// space, dashes and underscores folded to one dash, and dashes trimmed
/// from both ends.
pub open spec fn spec_slugify(s: Seq<char>) -> Seq<char> {
    spec_trim_dash_end(spec_trim_dash_start(spec_slug_fold(s, Seq::empty())))
}

proof fn lemma_trim_dash_start_index(s: Seq<char>, i: int)
    requires
        0 <= i <= s.len(),
        forall|j: int| 0 <= j < i ==> s[j] == '-',
        i < s.len() ==> s[i] != '-',
    ensures
        spec_trim_dash_start(s) == s.subrange(i, s.len() as int),
    decreases i,
{
    if i == 0 {
        assert(s.subrange(0, s.len() as int) =~= s);
    } else {
        assert(s[0] == '-');
        lemma_trim_dash_start_index(s.drop_first(), i - 1);
        assert(s.drop_first().subrange(i - 1, s.drop_first().len() as int) =~= s.subrange(
            i,
            s.len() as int,
        ));
    }
}

proof fn lemma_trim_dash_end_index(s: Seq<char>, j: int)
    requires
        0 <= j <= s.len(),
        forall|k: int| j <= k < s.len() ==> s[k] == '-',
        j > 0 ==> s[j - 1] != '-',
    ensures
        spec_trim_dash_end(s) == s.subrange(0, j),
    decreases s.len() - j,
{
    if j == s.len() {
        assert(s.subrange(0, s.len() as int) =~= s);
    } else {
        assert(s[s.len() - 1] == '-');
        lemma_trim_dash_end_index(s.drop_last(), j);
        assert(s.drop_last().subrange(0, j) =~= s.subrange(0, j));
    }
}

/// Slugs free text for use inside synthetic ids.
pub fn slugify(value: &str) -> (r: String)
    ensures
        r@ == spec_slugify(value@),
{
    let n = value.unicode_len();
    let mut out = String::new();
    let mut i: usize = 0;
    proof {
        assert(value@.subrange(0, n as int) =~= value@);
    }
    while i < n
        invariant
            n == value@.len(),
            i <= n,
            spec_slug_fold(value@, Seq::empty()) == spec_slug_fold(
                value@.subrange(i as int, n as int),
                out@,
            ),
        decreases n - i,
    {
        let ghost rest = value@.subrange(i as int, n as int);
        proof {
            assert(rest[0] == value@[i as int]);
            assert(rest.drop_first() =~= value@.subrange(i + 1, n as int));
        }
        let c = value.get_char(i);
        let u = c as u32;
        if (48 <= u && u <= 57) || (65 <= u && u <= 90) || (97 <= u && u <= 122) {
            push_char(&mut out, crate::text::lower_char(c));
        } else if u == 32 || u == 9 || u == 10 || u == 12 || u == 13 || u == 45 || u == 95 {
            let m = out.as_str().unicode_len();
            let ends_dash = m > 0 && out.as_str().get_char(m - 1) == '-';
            if !ends_dash {
                push_char(&mut out, '-');
            }
        }
        i = i + 1;
    }
    proof {
        assert(value@.subrange(n as int, n as int) =~= Seq::<char>::empty());
    }
    // trim dashes from both ends
    let folded = out;
    let fl = folded.as_str().unicode_len();
    let mut start: usize = 0;
    while start < fl && folded.as_str().get_char(start) == '-'
        invariant
            fl == folded@.len(),
            start <= fl,
            forall|j: int| 0 <= j < start ==> folded@[j] == '-',
        decreases fl - start,
    {
        start = start + 1;
    }
    let mut end: usize = fl;
    while end > start && folded.as_str().get_char(end - 1) == '-'
        invariant
            fl == folded@.len(),
            start <= end <= fl,
            forall|k: int| end <= k < fl ==> folded@[k] == '-',
        decreases end,
    {
        end = end - 1;
    }
    proof {
        lemma_trim_dash_start_index(folded@, start as int);
        let t = folded@.subrange(start as int, fl as int);
        if end == start {
            lemma_trim_dash_end_index(t, 0);
        } else {
            lemma_trim_dash_end_index(t, end - start);
        }
        assert(t.subrange(0, end - start) =~= folded@.subrange(start as int, end as int));
    }
    let mut trimmed = String::new();
    let mut w: usize = start;
    while w < end
        invariant
            fl == folded@.len(),
            start <= w <= end <= fl,
            trimmed@ == folded@.subrange(start as int, w as int),
        decreases end - w,
    {
        push_char(&mut trimmed, folded.as_str().get_char(w));
        proof {
            assert(folded@.subrange(start as int, w + 1) =~= folded@.subrange(
                start as int,
                w as int,
            ).push(folded@[w as int]));
        }
        w = w + 1;
    }
    trimmed
}

/// The letter grade a numeric score in hundredths maps to: `A` from 90
/// points, `B` from 80, `C` below, and nothing outside 0..=100 points.
pub open spec fn spec_score_to_grade(centi: i32) -> Option<Seq<char>> {
    if centi < 0 || centi > 10000 {
        None
    } else if centi >= 9000 {
        Some("A"@)
    } else if centi >= 8000 {
        Some("B"@)
    } else {
        Some("C"@)
    }
}

/// Maps a numeric score in hundredths to its letter grade.
pub fn score_to_grade(centi: i32) -> (r: Option<String>)
    ensures
        r.deep_view() == spec_score_to_grade(centi),
{
    if centi < 0 || centi > 10000 {
        None
    } else if centi >= 9000 {
        Some(String::from_str("A"))
    } else if centi >= 8000 {
        Some(String::from_str("B"))
    } else {
        Some(String::from_str("C"))
    }
}

/// The scoring signals a permit status yields: an inactive permit scores
/// 40 `C`/`Red`; a renewed permit 92 `A`; an issued one 88 `A`; an
/// expired, suspended or revoked one 55 `C`/`Yellow`; anything else
/// carries no signal. Scores are in hundredths.
pub open spec fn spec_permit_signals(status: Option<Seq<char>>, active_permit: bool) -> (
    Option<i32>,
    Option<Seq<char>>,
    Option<Seq<char>>,
) {
    if !active_permit {
        (Some(4000i32), Some("C"@), Some("Red"@))
    } else {
        let norm = spec_lower(
            match status {
                Some(s) => s,
                None => Seq::empty(),
            },
        );
        if crate::text::spec_contains(norm, "renewed"@) {
            (Some(9200i32), Some("A"@), None)
        } else if crate::text::spec_contains(norm, "issued"@) {
            (Some(8800i32), Some("A"@), None)
        } else if crate::text::spec_contains(norm, "expired"@) || crate::text::spec_contains(
            norm,
            "suspend"@,
        ) || crate::text::spec_contains(norm, "revok"@) {
            (Some(5500i32), Some("C"@), Some("Yellow"@))
        } else {
            (None, None, None)
        }
    }
}

/// Derives scoring signals from a permit status.
pub fn derive_scoring_signals(permit_status: Option<&str>, active_permit: bool) -> (r: (
    Option<i32>,
    Option<String>,
    Option<String>,
))
    ensures
        r.0 == spec_permit_signals(
            match permit_status {
                Some(s) => Some(s@),
                None => None,
            },
            active_permit,
        ).0,
        r.1.deep_view() == spec_permit_signals(
            match permit_status {
                Some(s) => Some(s@),
                None => None,
            },
            active_permit,
        ).1,
        r.2.deep_view() == spec_permit_signals(
            match permit_status {
                Some(s) => Some(s@),
                None => None,
            },
            active_permit,
        ).2,
{
    if !active_permit {
        return (Some(4000), Some(String::from_str("C")), Some(String::from_str("Red")));
    }
    let status = match permit_status {
        Some(s) => lower_str(s),
        None => String::new(),
    };
    proof {
        assert(spec_lower(Seq::<char>::empty()) =~= Seq::<char>::empty());
    }
    if crate::text::contains_str(status.as_str(), "renewed") {
        (Some(9200), Some(String::from_str("A")), None)
    } else if crate::text::contains_str(status.as_str(), "issued") {
        (Some(8800), Some(String::from_str("A")), None)
    } else if crate::text::contains_str(status.as_str(), "expired") || crate::text::contains_str(
        status.as_str(),
        "suspend",
    ) || crate::text::contains_str(status.as_str(), "revok") {
        (Some(5500), Some(String::from_str("C")), Some(String::from_str("Yellow")))
    } else {
        (None, None, None)
    }
}


/// True of Unicode control characters (the C0 and C1 ranges and DEL).
pub open spec fn spec_is_control(c: char) -> bool {
    c as u32 <= 0x1F || c as u32 == 0x7F || (0x80 <= c as u32 && c as u32 <= 0x9F)
}

/// One folding step of JSON control-character sanitization, tracking
/// whether the scan is inside a string literal and behind a backslash.
pub open spec fn spec_sanitize_fold(s: Seq<char>, in_string: bool, escaped: bool) -> Seq<char>
    decreases s.len(),
{
    if s.len() == 0 {
        Seq::empty()
    } else {
        let c = s[0];
        let rest = s.drop_first();
        if in_string {
            if escaped {
                seq![c] + spec_sanitize_fold(rest, true, false)
            } else if c == '\\' {
                seq![c] + spec_sanitize_fold(rest, true, true)
            } else if c == '"' {
                seq![c] + spec_sanitize_fold(rest, false, false)
            } else if c == '\n' {
                seq!['\\', 'n'] + spec_sanitize_fold(rest, true, false)
            } else if c == '\r' {
                seq!['\\', 'r'] + spec_sanitize_fold(rest, true, false)
            } else if c == '\t' {
                seq!['\\', 't'] + spec_sanitize_fold(rest, true, false)
            } else if spec_is_control(c) {
                seq!['\\', 'u'] + crate::numbers::spec_hex_rec(c as u32 as nat, 4)
                    + spec_sanitize_fold(rest, true, false)
            } else {
                seq![c] + spec_sanitize_fold(rest, true, false)
            }
        } else if c == '"' {
            seq![c] + spec_sanitize_fold(rest, true, false)
        } else {
            seq![c] + spec_sanitize_fold(rest, false, false)
        }
    }
}

/// Escapes raw control characters inside the string literals of an
/// almost-JSON body, so a relaxed parse can succeed.
pub fn sanitize_json_control_chars(input: &str) -> (r: String)
    ensures
        r@ == spec_sanitize_fold(input@, false, false),
{
    let n = input.unicode_len();
    let mut out = String::new();
    let mut in_string = false;
    let mut escaped = false;
    let mut i: usize = 0;
    proof {
        assert(input@.subrange(0, n as int) =~= input@);
        assert(out@ + spec_sanitize_fold(input@, false, false) =~= spec_sanitize_fold(
            input@,
            false,
            false,
        ));
    }
    while i < n
        invariant
            n == input@.len(),
            i <= n,
            in_string || !escaped,
            spec_sanitize_fold(input@, false, false) == out@ + spec_sanitize_fold(
                input@.subrange(i as int, n as int),
                in_string,
                escaped,
            ),
        decreases n - i,
    {
        let ghost rest = input@.subrange(i as int, n as int);
        proof {
            assert(rest[0] == input@[i as int]);
            assert(rest.drop_first() =~= input@.subrange(i + 1, n as int));
        }
        let c = input.get_char(i);
        let u = c as u32;
        let ghost prev = out@;
        if in_string {
            if escaped {
                escaped = false;
                push_char(&mut out, c);
                proof {
                    assert(out@ =~= prev + seq![c]);
                    assert(prev + (seq![c] + spec_sanitize_fold(rest.drop_first(), true, false))
                        =~= (prev + seq![c]) + spec_sanitize_fold(rest.drop_first(), true, false));
                }
            } else if u == 92 {
                escaped = true;
                push_char(&mut out, c);
                proof {
                    assert(out@ =~= prev + seq![c]);
                    assert(prev + (seq![c] + spec_sanitize_fold(rest.drop_first(), true, true))
                        =~= (prev + seq![c]) + spec_sanitize_fold(rest.drop_first(), true, true));
                }
            } else if u == 34 {
                in_string = false;
                push_char(&mut out, c);
                proof {
                    assert(out@ =~= prev + seq![c]);
                    assert(prev + (seq![c] + spec_sanitize_fold(rest.drop_first(), false, false))
                        =~= (prev + seq![c]) + spec_sanitize_fold(rest.drop_first(), false, false));
                }
            } else if u == 10 {
                push_char(&mut out, '\\');
                push_char(&mut out, 'n');
                proof {
                    assert(out@ =~= prev + seq!['\\', 'n']);
                    assert(prev + (seq!['\\', 'n'] + spec_sanitize_fold(
                        rest.drop_first(),
                        true,
                        false,
                    )) =~= (prev + seq!['\\', 'n']) + spec_sanitize_fold(
                        rest.drop_first(),
                        true,
                        false,
                    ));
                }
            } else if u == 13 {
                push_char(&mut out, '\\');
                push_char(&mut out, 'r');
                proof {
                    assert(out@ =~= prev + seq!['\\', 'r']);
                    assert(prev + (seq!['\\', 'r'] + spec_sanitize_fold(
                        rest.drop_first(),
                        true,
                        false,
                    )) =~= (prev + seq!['\\', 'r']) + spec_sanitize_fold(
                        rest.drop_first(),
                        true,
                        false,
                    ));
                }
            } else if u == 9 {
                push_char(&mut out, '\\');
                push_char(&mut out, 't');
                proof {
                    assert(out@ =~= prev + seq!['\\', 't']);
                    assert(prev + (seq!['\\', 't'] + spec_sanitize_fold(
                        rest.drop_first(),
                        true,
                        false,
                    )) =~= (prev + seq!['\\', 't']) + spec_sanitize_fold(
                        rest.drop_first(),
                        true,
                        false,
                    ));
                }
            } else if u <= 0x1F || u == 0x7F || (0x80 <= u && u <= 0x9F) {
                push_char(&mut out, '\\');
                push_char(&mut out, 'u');
                out.append(crate::numbers::hex_rec(u as u64, 4).as_str());
                proof {
                    let enc = seq!['\\', 'u'] + crate::numbers::spec_hex_rec(c as u32 as nat, 4);
                    assert(out@ =~= prev + enc);
                    assert(prev + (enc + spec_sanitize_fold(rest.drop_first(), true, false)) =~= (
                    prev + enc) + spec_sanitize_fold(rest.drop_first(), true, false));
                }
            } else {
                push_char(&mut out, c);
                proof {
                    assert(out@ =~= prev + seq![c]);
                    assert(prev + (seq![c] + spec_sanitize_fold(rest.drop_first(), true, false))
                        =~= (prev + seq![c]) + spec_sanitize_fold(rest.drop_first(), true, false));
                }
            }
        } else {
            if u == 34 {
                in_string = true;
            }
            push_char(&mut out, c);
            proof {
                let st = u == 34;
                assert(out@ =~= prev + seq![c]);
                assert(prev + (seq![c] + spec_sanitize_fold(rest.drop_first(), st, false)) =~= (
                prev + seq![c]) + spec_sanitize_fold(rest.drop_first(), st, false));
            }
        }
        i = i + 1;
    }
    proof {
        assert(input@.subrange(n as int, n as int) =~= Seq::<char>::empty());
        assert(out@ + Seq::<char>::empty() =~= out@);
    }
    out
}

/// Comma splitting of a search-term list: each segment trimmed, blanks
/// dropped.
pub open spec fn spec_comma_terms_acc(s: Seq<char>, cur: Seq<char>) -> Seq<Seq<char>>
    decreases s.len(),
{
    if s.len() == 0 {
        if spec_trim(cur).len() > 0 {
            seq![spec_trim(cur)]
        } else {
            Seq::empty()
        }
    } else if s[0] == ',' {
        if spec_trim(cur).len() > 0 {
            seq![spec_trim(cur)] + spec_comma_terms_acc(s.drop_first(), Seq::empty())
        } else {
            spec_comma_terms_acc(s.drop_first(), Seq::empty())
        }
    } else {
        spec_comma_terms_acc(s.drop_first(), cur.push(s[0]))
    }
}

/// The effective search terms: the comma-separated non-blank terms of
/// the override when it yields any, else the defaults.
pub open spec fn spec_parse_search_terms(
    raw: Option<Seq<char>>,
    defaults: Seq<Seq<char>>,
) -> Seq<Seq<char>> {
    match raw {
        None => defaults,
        Some(v) => {
            let terms = spec_comma_terms_acc(v, Seq::empty());
            if terms.len() == 0 {
                defaults
            } else {
                terms
            }
        },
    }
}

/// Splits a configured term list on commas, trimming each term; an
/// absent or all-blank list falls back to the defaults.
pub fn parse_search_terms(raw: Option<String>, default_terms: Vec<String>) -> (r: Vec<String>)
    ensures
        r.deep_view() == spec_parse_search_terms(raw.deep_view(), default_terms.deep_view()),
{
    let value = match raw {
        None => {
            return default_terms;
        },
        Some(v) => v,
    };
    let s = value.as_str();
    let n = s.unicode_len();
    let mut out: Vec<String> = Vec::new();
    let mut cur = String::new();
    let mut i: usize = 0;
    proof {
        assert(s@.subrange(0, n as int) =~= s@);
        assert(out.deep_view() =~= Seq::<Seq<char>>::empty());
        assert(Seq::<Seq<char>>::empty() + spec_comma_terms_acc(s@, Seq::empty())
            =~~= spec_comma_terms_acc(s@, Seq::empty()));
    }
    while i < n
        invariant
            n == s@.len(),
            i <= n,
            spec_comma_terms_acc(s@, Seq::empty()) == out.deep_view() + spec_comma_terms_acc(
                s@.subrange(i as int, n as int),
                cur@,
            ),
        decreases n - i,
    {
        let ghost rest = s@.subrange(i as int, n as int);
        proof {
            assert(rest[0] == s@[i as int]);
            assert(rest.drop_first() =~= s@.subrange(i + 1, n as int));
        }
        let c = s.get_char(i);
        if c == ',' {
            let term = trim_str(cur.as_str());
            if !term.as_str().is_empty() {
                let ghost prev_out = out.deep_view();
                let ghost tm = term@;
                out.push(term);
                proof {
                    let tail = spec_comma_terms_acc(rest.drop_first(), Seq::empty());
                    assert(out.deep_view() =~~= prev_out + seq![tm]);
                    assert(prev_out + (seq![tm] + tail) =~~= (prev_out + seq![tm]) + tail);
                }
            }
            cur = String::new();
            proof {
                assert(cur@ =~= Seq::<char>::empty());
            }
        } else {
            push_char(&mut cur, c);
        }
        i = i + 1;
    }
    proof {
        assert(s@.subrange(n as int, n as int) =~= Seq::<char>::empty());
    }
    let term = trim_str(cur.as_str());
    if !term.as_str().is_empty() {
        let ghost prev_out = out.deep_view();
        let ghost tm = term@;
        out.push(term);
        proof {
            assert(out.deep_view() =~~= prev_out + seq![tm]);
        }
    }
    proof {
        assert(out.deep_view() =~~= spec_comma_terms_acc(s@, Seq::empty()));
    }
    if out.len() == 0 {
        default_terms
    } else {
        out
    }
}

/// The default crawl terms of the live inspection portal: the empty term
/// followed by every letter and digit.
pub open spec fn spec_default_oc_terms() -> Seq<Seq<char>> {
    Seq::new(
        37,
        |i: int|
            if i == 0 {
                Seq::<char>::empty()
            } else if i <= 26 {
                seq![((96 + i) as u32) as char]
            } else {
                seq![((21 + i) as u32) as char]
            },
    )
}

/// The default crawl terms: one empty term, then `a`..`z`, then `0`..`9`.
pub fn default_orange_county_search_terms() -> (r: Vec<String>)
    ensures
        r.deep_view() == spec_default_oc_terms(),
{
    let mut terms: Vec<String> = Vec::new();
    terms.push(String::new());
    let mut u: u32 = 97;
    while u <= 122
        invariant
            97 <= u <= 123,
            terms.deep_view().len() == u - 96,
            forall|i: int|
                0 <= i < terms.deep_view().len() ==> #[trigger] terms.deep_view()[i]
                    == spec_default_oc_terms()[i],
        decreases 123 - u,
    {
        let mut s = String::new();
        push_char(&mut s, (u as u8) as char);
        let ghost prev = terms.deep_view();
        terms.push(s);
        proof {
            assert(terms.deep_view() =~~= prev.push(seq![(u as u32) as char]));
            assert(spec_default_oc_terms()[u - 96] =~= seq![(u as u32) as char]);
        }
        u = u + 1;
    }
    let mut d: u32 = 48;
    while d <= 57
        invariant
            48 <= d <= 58,
            terms.deep_view().len() == 27 + d - 48,
            forall|i: int|
                0 <= i < terms.deep_view().len() ==> #[trigger] terms.deep_view()[i]
                    == spec_default_oc_terms()[i],
        decreases 58 - d,
    {
        let mut s = String::new();
        push_char(&mut s, (d as u8) as char);
        let ghost prev = terms.deep_view();
        terms.push(s);
        proof {
            assert(terms.deep_view() =~~= prev.push(seq![(d as u32) as char]));
            assert(spec_default_oc_terms()[27 + d - 48] =~= seq![(d as u32) as char]);
        }
        d = d + 1;
    }
    proof {
        assert(terms.deep_view() =~~= spec_default_oc_terms());
    }
    terms
}


/// The fallback coordinates of the known cities of the southern feed, in
/// microdegrees; unknown cities fall back to the county seat.
pub open spec fn spec_city_fallback_coords(city: Seq<char>) -> (i64, i64) {
    let norm = spec_lower(spec_trim(city));
    if norm == "san diego"@ {
        (32_715_700i64, -117_161_100i64)
    } else if norm == "chula vista"@ {
        (32_640_100i64, -117_084_200i64)
    } else if norm == "escondido"@ {
        (33_119_200i64, -117_086_400i64)
    } else if norm == "oceanside"@ {
        (33_195_900i64, -117_379_500i64)
    } else if norm == "carlsbad"@ {
        (33_158_100i64, -117_350_600i64)
    } else if norm == "el cajon"@ {
        (32_794_800i64, -116_962_500i64)
    } else if norm == "vista"@ {
        (33_200_000i64, -117_242_500i64)
    } else if norm == "san marcos"@ {
        (33_143_400i64, -117_166_100i64)
    } else if norm == "national city"@ {
        (32_678_100i64, -117_099_200i64)
    } else if norm == "la mesa"@ {
        (32_767_800i64, -117_023_100i64)
    } else if norm == "encinitas"@ {
        (33_036_900i64, -117_291_900i64)
    } else if norm == "santee"@ {
        (32_838_400i64, -116_973_900i64)
    } else if norm == "poway"@ {
        (32_962_800i64, -117_035_900i64)
    } else if norm == "imperial beach"@ {
        (32_583_900i64, -117_113_100i64)
    } else if norm == "lemon grove"@ {
        (32_742_600i64, -117_031_700i64)
    } else {
        (32_715_700i64, -117_161_100i64)
    }
}

/// City-level fallback coordinates for rows without any of their own.
pub fn city_fallback_coordinates(city: &str) -> (r: (i64, i64))
    ensures
        r == spec_city_fallback_coords(city@),
{
    let norm = lower_str(trim_str(city).as_str());
    if str_eq(norm.as_str(), "san diego") {
        (32_715_700, -117_161_100)
    } else if str_eq(norm.as_str(), "chula vista") {
        (32_640_100, -117_084_200)
    } else if str_eq(norm.as_str(), "escondido") {
        (33_119_200, -117_086_400)
    } else if str_eq(norm.as_str(), "oceanside") {
        (33_195_900, -117_379_500)
    } else if str_eq(norm.as_str(), "carlsbad") {
        (33_158_100, -117_350_600)
    } else if str_eq(norm.as_str(), "el cajon") {
        (32_794_800, -116_962_500)
    } else if str_eq(norm.as_str(), "vista") {
        (33_200_000, -117_242_500)
    } else if str_eq(norm.as_str(), "san marcos") {
        (33_143_400, -117_166_100)
    } else if str_eq(norm.as_str(), "national city") {
        (32_678_100, -117_099_200)
    } else if str_eq(norm.as_str(), "la mesa") {
        (32_767_800, -117_023_100)
    } else if str_eq(norm.as_str(), "encinitas") {
        (33_036_900, -117_291_900)
    } else if str_eq(norm.as_str(), "santee") {
        (32_838_400, -116_973_900)
    } else if str_eq(norm.as_str(), "poway") {
        (32_962_800, -117_035_900)
    } else if str_eq(norm.as_str(), "imperial beach") {
        (32_583_900, -117_113_100)
    } else if str_eq(norm.as_str(), "lemon grove") {
        (32_742_600, -117_031_700)
    } else {
        (32_715_700, -117_161_100)
    }
}

/// The instant a Socrata floating timestamp yields: RFC 3339, else the
/// `T`-separated forms with and without fractional seconds.
pub open spec fn spec_parse_socrata_datetime(s: Seq<char>) -> Option<i64> {
    match rfc3339_ms_of(s) {
        Some(ms) => Some(ms),
        None => match datetime_fmt_ms_of(s, "%Y-%m-%dT%H:%M:%S%.3f"@) {
            Some(ms) => Some(ms),
            None => datetime_fmt_ms_of(s, "%Y-%m-%dT%H:%M:%S"@),
        },
    }
}

/// Parses a Socrata floating timestamp.
pub fn parse_socrata_datetime(value: &str) -> (r: Option<i64>)
    ensures
        r == spec_parse_socrata_datetime(value@),
{
    if let Some(ms) = parse_rfc3339_ms(value) {
        return Some(ms);
    }
    if let Some(ms) = parse_datetime_fmt_ms(value, "%Y-%m-%dT%H:%M:%S%.3f") {
        return Some(ms);
    }
    parse_datetime_fmt_ms(value, "%Y-%m-%dT%H:%M:%S")
}

/// One row of the southern permit feed, as plain optional text fields.
#[derive(Debug)]
pub struct SdPermitRow {
    pub record_id: Option<String>,
    pub record_name: Option<String>,
    pub address: Option<String>,
    pub city: Option<String>,
    pub state: Option<String>,
    pub zip: Option<String>,
    pub latitude: Option<String>,
    pub longitude: Option<String>,
    pub last_updated: Option<String>,
    pub permit_status: Option<String>,
    pub active_permit: Option<bool>,
}

/// Mathematical model of an [`SdPermitRow`].
pub ghost struct SdPermitRowModel {
    pub record_id: Option<Seq<char>>,
    pub record_name: Option<Seq<char>>,
    pub address: Option<Seq<char>>,
    pub city: Option<Seq<char>>,
    pub state: Option<Seq<char>>,
    pub zip: Option<Seq<char>>,
    pub latitude: Option<Seq<char>>,
    pub longitude: Option<Seq<char>>,
    pub last_updated: Option<Seq<char>>,
    pub permit_status: Option<Seq<char>>,
    pub active_permit: Option<bool>,
}

impl DeepView for SdPermitRow {
    type V = SdPermitRowModel;

    open spec fn deep_view(&self) -> SdPermitRowModel {
        SdPermitRowModel {
            record_id: self.record_id.deep_view(),
            record_name: self.record_name.deep_view(),
            address: self.address.deep_view(),
            city: self.city.deep_view(),
            state: self.state.deep_view(),
            zip: self.zip.deep_view(),
            latitude: self.latitude.deep_view(),
            longitude: self.longitude.deep_view(),
            last_updated: self.last_updated.deep_view(),
            permit_status: self.permit_status.deep_view(),
            active_permit: self.active_permit,
        }
    }
}

/// The source record a southern permit row yields: rows without an id or
/// name are dropped, coordinates fall back city-wise, the last-updated
/// instant falls back to `now_ms`, and scoring signals come from the
/// permit status.
pub open spec fn spec_map_sd_row(row: SdPermitRowModel, now_ms: i64) -> Option<
    crate::dto::SourceInputModel,
> {
    match (row.record_id, row.record_name) {
        (Some(source_id), Some(name)) => {
            let city = match row.city {
                Some(c) => c,
                None => "San Diego"@,
            };
            let fallback = spec_city_fallback_coords(city);
            let latitude_micro = match row.latitude {
                Some(t) => match spec_parse_micro(t) {
                    Some(m) => m,
                    None => fallback.0,
                },
                None => fallback.0,
            };
            let longitude_micro = match row.longitude {
                Some(t) => match spec_parse_micro(t) {
                    Some(m) => m,
                    None => fallback.1,
                },
                None => fallback.1,
            };
            let inspected_at_ms = match row.last_updated {
                Some(t) => match spec_parse_socrata_datetime(t) {
                    Some(ms) => ms,
                    None => now_ms,
                },
                None => now_ms,
            };
            let active = match row.active_permit {
                Some(b) => b,
                None => true,
            };
            let signals = spec_permit_signals(row.permit_status, active);
            Some(
                crate::dto::SourceInputModel {
                    source_id,
                    name,
                    address: match row.address {
                        Some(a) => a,
                        None => Seq::empty(),
                    },
                    city,
                    state: match row.state {
                        Some(s) => s,
                        None => "CA"@,
                    },
                    postal_code: match row.zip {
                        Some(z) => z,
                        None => Seq::empty(),
                    },
                    latitude_micro,
                    longitude_micro,
                    jurisdiction: crate::entities::Jurisdiction::SanDiegoCounty,
                    inspected_at_ms,
                    raw_score_centi: signals.0,
                    letter_grade: signals.1,
                    placard_status: signals.2,
                    violations: seq![
                        crate::entities::ViolationModel {
                            code: "SD-PERMIT"@,
                            description: "Derived from public permit status (Socrata Food Facility Permits feed)"@,
                            points: 0i16,
                            critical: false,
                        },
                    ],
                },
            )
        },
        _ => None,
    }
}

/// Maps one southern permit row to a normalized source record.
pub fn map_row_to_source_input(row: SdPermitRow, now_ms: i64) -> (r: Option<
    crate::dto::SourceFacilityInput,
>)
    ensures
        r.deep_view() == spec_map_sd_row(row.deep_view(), now_ms),
{
    let source_id = match row.record_id {
        Some(v) => v,
        None => {
            return None;
        },
    };
    let name = match row.record_name {
        Some(v) => v,
        None => {
            return None;
        },
    };
    let city = match row.city {
        Some(c) => c,
        None => String::from_str("San Diego"),
    };
    let fallback = city_fallback_coordinates(city.as_str());
    let latitude_micro = match &row.latitude {
        Some(t) => match parse_micro(t.as_str()) {
            Some(m) => m,
            None => fallback.0,
        },
        None => fallback.0,
    };
    let longitude_micro = match &row.longitude {
        Some(t) => match parse_micro(t.as_str()) {
            Some(m) => m,
            None => fallback.1,
        },
        None => fallback.1,
    };
    let inspected_at_ms = match &row.last_updated {
        Some(t) => match parse_socrata_datetime(t.as_str()) {
            Some(ms) => ms,
            None => now_ms,
        },
        None => now_ms,
    };
    let active = match row.active_permit {
        Some(b) => b,
        None => true,
    };
    let signals = derive_scoring_signals(
        match &row.permit_status {
            Some(s) => Some(s.as_str()),
            None => None,
        },
        active,
    );
    let mut violations: Vec<crate::entities::Violation> = Vec::new();
    violations.push(
        crate::entities::Violation {
            code: String::from_str("SD-PERMIT"),
            description: String::from_str(
                "Derived from public permit status (Socrata Food Facility Permits feed)",
            ),
            points: 0,
            critical: false,
        },
    );
    let out = crate::dto::SourceFacilityInput {
        source_id,
        name,
        address: match row.address {
            Some(a) => a,
            None => String::new(),
        },
        city,
        state: match row.state {
            Some(s) => s,
            None => String::from_str("CA"),
        },
        postal_code: match row.zip {
            Some(z) => z,
            None => String::new(),
        },
        latitude_micro,
        longitude_micro,
        jurisdiction: crate::entities::Jurisdiction::SanDiegoCounty,
        inspected_at_ms,
        raw_score_centi: signals.0,
        letter_grade: signals.1,
        placard_status: signals.2,
        violations,
    };
    proof {
        let sm = spec_map_sd_row(row.deep_view(), now_ms);
        assert(sm is Some);
        assert(out.deep_view().violations =~= sm->0.violations);
        assert(out.deep_view() == sm->0);
    }
    Some(out)
}

/// The instant a closures-table date yields: `MM/DD/YYYY` or
/// `MM-DD-YYYY`, at midnight UTC; blanks yield nothing.
pub open spec fn spec_parse_long_beach_date(value: Seq<char>) -> Option<i64> {
    let cleaned = spec_trim(value);
    if cleaned.len() == 0 {
        None
    } else {
        match date_fmt_ms_of(cleaned, "%m/%d/%Y"@) {
            Some(ms) => Some(ms),
            None => date_fmt_ms_of(cleaned, "%m-%d-%Y"@),
        }
    }
}

/// Parses a closures-table date.
pub fn parse_long_beach_date(value: &str) -> (r: Option<i64>)
    ensures
        r == spec_parse_long_beach_date(value@),
{
    let cleaned = trim_str(value);
    if cleaned.as_str().is_empty() {
        return None;
    }
    if let Some(ms) = parse_date_fmt_ms(cleaned.as_str(), "%m/%d/%Y") {
        return Some(ms);
    }
    parse_date_fmt_ms(cleaned.as_str(), "%m-%d-%Y")
}


/// The source record one closures-table row yields: the first line of
/// the first cell names the restaurant (the header row is dropped), the
/// remaining lines are its address, a missing reopening date means the
/// place is still closed, and the synthetic id carries the closure date
/// and the slugged name.
pub open spec fn spec_map_long_beach_row(
    restaurant_lines: Seq<Seq<char>>,
    date_closed: Seq<char>,
    date_reopened: Seq<char>,
    reason: Seq<char>,
    now_ms: i64,
) -> Option<crate::dto::SourceInputModel> {
    if restaurant_lines.len() == 0 {
        None
    } else {
        let name = spec_trim(restaurant_lines[0]);
        if spec_lower(name) == spec_lower("restaurant"@) {
            None
        } else {
            let inspected_at_ms = match spec_parse_long_beach_date(date_closed) {
                Some(ms) => ms,
                None => now_ms,
            };
            let closed = spec_trim(date_reopened).len() == 0;
            let signals: (Option<i32>, Option<Seq<char>>, Option<Seq<char>>) = if closed {
                (Some(4000i32), Some("C"@), Some("Red"@))
            } else {
                (Some(7400i32), Some("C"@), Some("Yellow"@))
            };
            Some(
                crate::dto::SourceInputModel {
                    source_id: "lb-closure-"@ + utc_date_string_of(inspected_at_ms) + seq!['-']
                        + spec_slugify(name),
                    name,
                    address: spec_join_lines(restaurant_lines.drop_first()),
                    city: "Long Beach"@,
                    state: "CA"@,
                    postal_code: Seq::empty(),
                    latitude_micro: 33_770_100i64,
                    longitude_micro: -118_193_700i64,
                    jurisdiction: crate::entities::Jurisdiction::LongBeach,
                    inspected_at_ms,
                    raw_score_centi: signals.0,
                    letter_grade: signals.1,
                    placard_status: signals.2,
                    violations: seq![
                        crate::entities::ViolationModel {
                            code: "LB-CLOSURE"@,
                            description: reason,
                            points: 0i16,
                            critical: true,
                        },
                    ],
                },
            )
        }
    }
}

/// Lines joined with `, `.
pub open spec fn spec_join_lines(lines: Seq<Seq<char>>) -> Seq<char>
    decreases lines.len(),
{
    if lines.len() == 0 {
        Seq::empty()
    } else if lines.len() == 1 {
        lines[0]
    } else {
        lines[0] + seq![',', ' '] + spec_join_lines(lines.drop_first())
    }
}

fn join_lines(lines: &[String], from: usize) -> (r: String)
    requires
        from <= lines@.len(),
    ensures
        r@ == spec_join_lines(lines@.subrange(from as int, lines@.len() as int).map_values(
            |s: String| s@,
        )),
    decreases lines@.len() - from,
{
    let ghost tail = lines@.subrange(from as int, lines@.len() as int).map_values(|s: String| s@);
    if from >= lines.len() {
        proof {
            assert(tail =~= Seq::<Seq<char>>::empty());
        }
        String::new()
    } else if from + 1 == lines.len() {
        proof {
            assert(tail.len() == 1);
            assert(tail[0] == lines@[from as int]@);
        }
        lines[from].clone()
    } else {
        let mut s = lines[from].clone();
        s.append(", ");
        s.append(join_lines(lines, from + 1).as_str());
        proof {
            reveal_strlit(", ");
            assert(", "@ =~= seq![',', ' ']);
            assert(tail[0] == lines@[from as int]@);
            assert(tail.drop_first() =~= lines@.subrange(
                from + 1,
                lines@.len() as int,
            ).map_values(|t: String| t@));
            assert(s@ =~= spec_join_lines(tail));
        }
        s
    }
}

/// Maps one closures-table row to a normalized source record.
pub fn map_long_beach_row(
    restaurant_lines: &Vec<String>,
    date_closed: &str,
    date_reopened: &str,
    reason: &str,
    now_ms: i64,
) -> (r: Option<crate::dto::SourceFacilityInput>)
    ensures
        r.deep_view() == spec_map_long_beach_row(
            restaurant_lines.deep_view(),
            date_closed@,
            date_reopened@,
            reason@,
            now_ms,
        ),
{
    if restaurant_lines.len() == 0 {
        return None;
    }
    let name = trim_str(restaurant_lines[0].as_str());
    if crate::text::eq_ignore_case(name.as_str(), "restaurant") {
        return None;
    }
    let inspected_at_ms = match parse_long_beach_date(date_closed) {
        Some(ms) => ms,
        None => now_ms,
    };
    let closed = trim_str(date_reopened).as_str().is_empty();
    let (raw_score_centi, letter_grade, placard_status): (
        Option<i32>,
        Option<String>,
        Option<String>,
    ) = if closed {
        (Some(4000), Some(String::from_str("C")), Some(String::from_str("Red")))
    } else {
        (Some(7400), Some(String::from_str("C")), Some(String::from_str("Yellow")))
    };
    let mut source_id = String::from_str("lb-closure-");
    source_id.append(format_utc_date(inspected_at_ms).as_str());
    push_char(&mut source_id, '-');
    source_id.append(slugify(name.as_str()).as_str());
    let address = join_lines(restaurant_lines.as_slice(), 1);
    let mut violations: Vec<crate::entities::Violation> = Vec::new();
    violations.push(
        crate::entities::Violation {
            code: String::from_str("LB-CLOSURE"),
            description: reason.to_owned(),
            points: 0,
            critical: true,
        },
    );
    let out = crate::dto::SourceFacilityInput {
        source_id,
        name,
        address,
        city: String::from_str("Long Beach"),
        state: String::from_str("CA"),
        postal_code: String::new(),
        latitude_micro: 33_770_100,
        longitude_micro: -118_193_700,
        jurisdiction: crate::entities::Jurisdiction::LongBeach,
        inspected_at_ms,
        raw_score_centi,
        letter_grade,
        placard_status,
        violations,
    };
    proof {
        let sm = spec_map_long_beach_row(
            restaurant_lines.deep_view(),
            date_closed@,
            date_reopened@,
            reason@,
            now_ms,
        );
        assert(restaurant_lines.deep_view()[0] == restaurant_lines@[0]@);
        assert(sm is Some);
        assert(restaurant_lines@.subrange(1, restaurant_lines@.len() as int).map_values(
            |s: String| s@,
        ) =~~= restaurant_lines.deep_view().drop_first());
        assert(out.deep_view().source_id =~= sm->0.source_id);
        assert(out.deep_view().violations =~= sm->0.violations);
        assert(out.deep_view() == sm->0);
    }
    Some(out)
}


/// One row of the county inspection feed, as plain optional fields.
#[derive(Debug)]
pub struct LaInspectionRow {
    pub activity_date_ms: Option<i64>,
    pub facility_id: Option<String>,
    pub facility_name: Option<String>,
    pub facility_address: Option<String>,
    pub facility_city: Option<String>,
    pub facility_state: Option<String>,
    pub facility_zip: Option<String>,
    pub score_centi: Option<i32>,
    pub grade: Option<String>,
    pub serial_number: Option<String>,
}

/// Mathematical model of an [`LaInspectionRow`].
pub ghost struct LaInspectionRowModel {
    pub activity_date_ms: Option<i64>,
    pub facility_id: Option<Seq<char>>,
    pub facility_name: Option<Seq<char>>,
    pub facility_address: Option<Seq<char>>,
    pub facility_city: Option<Seq<char>>,
    pub facility_state: Option<Seq<char>>,
    pub facility_zip: Option<Seq<char>>,
    pub score_centi: Option<i32>,
    pub grade: Option<Seq<char>>,
    pub serial_number: Option<Seq<char>>,
}

impl DeepView for LaInspectionRow {
    type V = LaInspectionRowModel;

    open spec fn deep_view(&self) -> LaInspectionRowModel {
        LaInspectionRowModel {
            activity_date_ms: self.activity_date_ms,
            facility_id: self.facility_id.deep_view(),
            facility_name: self.facility_name.deep_view(),
            facility_address: self.facility_address.deep_view(),
            facility_city: self.facility_city.deep_view(),
            facility_state: self.facility_state.deep_view(),
            facility_zip: self.facility_zip.deep_view(),
            score_centi: self.score_centi,
            grade: self.grade.deep_view(),
            serial_number: self.serial_number.deep_view(),
        }
    }
}

/// One row of the county inventory feed, used to enrich inspections.
#[derive(Debug)]
pub struct LaInventoryRow {
    pub facility_name: Option<String>,
    pub facility_address: Option<String>,
    pub facility_city: Option<String>,
    pub facility_state: Option<String>,
    pub facility_zip: Option<String>,
    pub latitude_micro: Option<i64>,
    pub longitude_micro: Option<i64>,
}

/// Mathematical model of an [`LaInventoryRow`].
pub ghost struct LaInventoryRowModel {
    pub facility_name: Option<Seq<char>>,
    pub facility_address: Option<Seq<char>>,
    pub facility_city: Option<Seq<char>>,
    pub facility_state: Option<Seq<char>>,
    pub facility_zip: Option<Seq<char>>,
    pub latitude_micro: Option<i64>,
    pub longitude_micro: Option<i64>,
}

impl DeepView for LaInventoryRow {
    type V = LaInventoryRowModel;

    open spec fn deep_view(&self) -> LaInventoryRowModel {
        LaInventoryRowModel {
            facility_name: self.facility_name.deep_view(),
            facility_address: self.facility_address.deep_view(),
            facility_city: self.facility_city.deep_view(),
            facility_state: self.facility_state.deep_view(),
            facility_zip: self.facility_zip.deep_view(),
            latitude_micro: self.latitude_micro,
            longitude_micro: self.longitude_micro,
        }
    }
}

/// The source record one county inspection row yields, enriched from the
/// optional inventory row: rows without a facility id are dropped, each
/// address field falls back from the inspection to the inventory to a
/// constant, coordinates come from the inventory or the county seat, and
/// a missing activity date falls back to `now_ms`.
pub open spec fn spec_merge_la_row(
    inspection: LaInspectionRowModel,
    inventory: Option<LaInventoryRowModel>,
    violations: Seq<crate::entities::ViolationModel>,
    now_ms: i64,
) -> Option<crate::dto::SourceInputModel> {
    match inspection.facility_id {
        None => None,
        Some(facility_id) => {
            let latitude_micro = match inventory {
                Some(inv) => match inv.latitude_micro {
                    Some(lat) => lat,
                    None => 34_052_200i64,
                },
                None => 34_052_200i64,
            };
            let longitude_micro = match inventory {
                Some(inv) => match inv.longitude_micro {
                    Some(lon) => lon,
                    None => -118_243_700i64,
                },
                None => -118_243_700i64,
            };
            Some(
                crate::dto::SourceInputModel {
                    source_id: facility_id,
                    name: spec_or_else(
                        inspection.facility_name,
                        spec_opt_field(inventory, |inv: LaInventoryRowModel| inv.facility_name),
                        "Unknown Facility"@,
                    ),
                    address: spec_or_else(
                        inspection.facility_address,
                        spec_opt_field(inventory, |inv: LaInventoryRowModel| inv.facility_address),
                        Seq::empty(),
                    ),
                    city: spec_or_else(
                        inspection.facility_city,
                        spec_opt_field(inventory, |inv: LaInventoryRowModel| inv.facility_city),
                        "Los Angeles"@,
                    ),
                    state: spec_or_else(
                        inspection.facility_state,
                        spec_opt_field(inventory, |inv: LaInventoryRowModel| inv.facility_state),
                        "CA"@,
                    ),
                    postal_code: spec_or_else(
                        inspection.facility_zip,
                        spec_opt_field(inventory, |inv: LaInventoryRowModel| inv.facility_zip),
                        Seq::empty(),
                    ),
                    latitude_micro,
                    longitude_micro,
                    jurisdiction: crate::entities::Jurisdiction::LosAngelesCounty,
                    inspected_at_ms: match inspection.activity_date_ms {
                        Some(ms) => ms,
                        None => now_ms,
                    },
                    raw_score_centi: inspection.score_centi,
                    letter_grade: inspection.grade,
                    placard_status: None,
                    violations,
                },
            )
        },
    }
}

/// The primary value, else the fallback, else the default.
pub open spec fn spec_or_else(
    primary: Option<Seq<char>>,
    fallback: Option<Seq<char>>,
    default: Seq<char>,
) -> Seq<char> {
    match primary {
        Some(v) => v,
        None => match fallback {
            Some(v) => v,
            None => default,
        },
    }
}

/// A field read through an optional row.
pub open spec fn spec_opt_field(
    row: Option<LaInventoryRowModel>,
    field: spec_fn(LaInventoryRowModel) -> Option<Seq<char>>,
) -> Option<Seq<char>> {
    match row {
        Some(r) => field(r),
        None => None,
    }
}

fn or_else_string(
    primary: Option<String>,
    fallback: Option<String>,
    default: &str,
) -> (r: String)
    ensures
        r@ == spec_or_else(primary.deep_view(), fallback.deep_view(), default@),
{
    match primary {
        Some(v) => v,
        None => match fallback {
            Some(v) => v,
            None => String::from_str(default),
        },
    }
}

fn clone_opt(s: &Option<String>) -> (r: Option<String>)
    ensures
        r.deep_view() == s.deep_view(),
{
    match s {
        Some(v) => Some(v.clone()),
        None => None,
    }
}

/// Merges one county inspection row with its inventory enrichment and the
/// violations grouped under its serial number.
pub fn merge_la_row(
    inspection: LaInspectionRow,
    inventory: Option<&LaInventoryRow>,
    violations: Vec<crate::entities::Violation>,
    now_ms: i64,
) -> (r: Option<crate::dto::SourceFacilityInput>)
    ensures
        r.deep_view() == spec_merge_la_row(
            inspection.deep_view(),
            match inventory {
                Some(inv) => Some(inv.deep_view()),
                None => None,
            },
            violations.deep_view(),
            now_ms,
        ),
{
    let facility_id = match inspection.facility_id {
        None => {
            return None;
        },
        Some(id) => id,
    };
    let latitude_micro = match inventory {
        Some(inv) => match inv.latitude_micro {
            Some(lat) => lat,
            None => 34_052_200,
        },
        None => 34_052_200,
    };
    let longitude_micro = match inventory {
        Some(inv) => match inv.longitude_micro {
            Some(lon) => lon,
            None => -118_243_700,
        },
        None => -118_243_700,
    };
    let name = or_else_string(
        inspection.facility_name,
        match inventory {
            Some(inv) => clone_opt(&inv.facility_name),
            None => None,
        },
        "Unknown Facility",
    );
    let address = or_else_string(
        inspection.facility_address,
        match inventory {
            Some(inv) => clone_opt(&inv.facility_address),
            None => None,
        },
        "",
    );
    let city = or_else_string(
        inspection.facility_city,
        match inventory {
            Some(inv) => clone_opt(&inv.facility_city),
            None => None,
        },
        "Los Angeles",
    );
    let state = or_else_string(
        inspection.facility_state,
        match inventory {
            Some(inv) => clone_opt(&inv.facility_state),
            None => None,
        },
        "CA",
    );
    let postal_code = or_else_string(
        inspection.facility_zip,
        match inventory {
            Some(inv) => clone_opt(&inv.facility_zip),
            None => None,
        },
        "",
    );
    let inspected_at_ms = match inspection.activity_date_ms {
        Some(ms) => ms,
        None => now_ms,
    };
    let out = crate::dto::SourceFacilityInput {
        source_id: facility_id,
        name,
        address,
        city,
        state,
        postal_code,
        latitude_micro,
        longitude_micro,
        jurisdiction: crate::entities::Jurisdiction::LosAngelesCounty,
        inspected_at_ms,
        raw_score_centi: inspection.score_centi,
        letter_grade: inspection.grade,
        placard_status: None,
        violations,
    };
    proof {
        reveal_strlit("");
        assert(""@ =~= Seq::<char>::empty());
        let sm = spec_merge_la_row(
            inspection.deep_view(),
            match inventory {
                Some(inv) => Some(inv.deep_view()),
                None => None,
            },
            violations.deep_view(),
            now_ms,
        );
        assert(sm is Some);
        assert(out.deep_view() == sm->0);
    }
    Some(out)
}


/// The violation one county violation row yields: missing code and
/// description fall back to constants, and four or more points mark the
/// violation critical.
pub open spec fn spec_la_violation(
    code: Option<Seq<char>>,
    description: Option<Seq<char>>,
    points: Option<i64>,
) -> crate::entities::ViolationModel {
    let p = (match points {
        Some(raw) => raw,
        None => 0,
    }) as i16;
    crate::entities::ViolationModel {
        code: match code {
            Some(c) => c,
            None => "LA-UNKNOWN"@,
        },
        description: match description {
            Some(d) => d,
            None => Seq::empty(),
        },
        points: p,
        critical: p >= 4,
    }
}

/// Builds the violation of one county violation row.
pub fn la_violation(
    code: Option<String>,
    description: Option<String>,
    points: Option<i64>,
) -> (r: crate::entities::Violation)
    ensures
        r.deep_view() == spec_la_violation(code.deep_view(), description.deep_view(), points),
{
    let p = (match points {
        Some(raw) => raw,
        None => 0,
    }) as i16;
    let r = crate::entities::Violation {
        code: match code {
            Some(c) => c,
            None => String::from_str("LA-UNKNOWN"),
        },
        description: match description {
            Some(d) => d,
            None => String::new(),
        },
        points: p,
        critical: p >= 4,
    };
    proof {
        assert(r.deep_view().description =~= spec_la_violation(
            code.deep_view(),
            description.deep_view(),
            points,
        ).description);
    }
    r
}


/// The records a JSON item sequence yields: each object keeps its fields,
/// everything else is dropped.
pub open spec fn spec_objects_of(items: Seq<JsonValue>) -> Seq<Seq<(String, JsonValue)>>
    decreases items.len(),
{
    if items.len() == 0 {
        Seq::empty()
    } else {
        let rest = spec_objects_of(items.drop_last());
        match items.last() {
            JsonValue::Obj(fields) => rest.push(fields@),
            _ => rest,
        }
    }
}

/// The records a feature sequence yields: each feature's object-valued
/// `attributes` field, in order.
pub open spec fn spec_attribute_records(items: Seq<JsonValue>) -> Seq<Seq<(String, JsonValue)>>
    decreases items.len(),
{
    if items.len() == 0 {
        Seq::empty()
    } else {
        let rest = spec_attribute_records(items.drop_last());
        match items.last() {
            JsonValue::Obj(fields) => match spec_obj_get(fields@, "attributes"@) {
                Some(JsonValue::Obj(attrs)) => rest.push(attrs@),
                _ => rest,
            },
            _ => rest,
        }
    }
}

/// The records a decoded export body yields: a top-level array keeps its
/// objects; an object with an array-valued `features` key takes each
/// feature's `attributes`; otherwise the first of the `data`, `results`,
/// `records` and `value` keys that is present contributes its objects
/// when it holds an array; anything else yields nothing.
pub open spec fn spec_export_records(v: JsonValue) -> Seq<Seq<(String, JsonValue)>> {
    match v {
        JsonValue::Arr(items) => spec_objects_of(items@),
        JsonValue::Obj(fields) => {
            match spec_obj_get(fields@, "features"@) {
                Some(JsonValue::Arr(features)) => spec_attribute_records(features@),
                _ => {
                    let chosen = match spec_obj_get(fields@, "data"@) {
                        Some(value) => Some(value),
                        None => match spec_obj_get(fields@, "results"@) {
                            Some(value) => Some(value),
                            None => match spec_obj_get(fields@, "records"@) {
                                Some(value) => Some(value),
                                None => spec_obj_get(fields@, "value"@),
                            },
                        },
                    };
                    match chosen {
                        Some(JsonValue::Arr(items)) => spec_objects_of(items@),
                        _ => Seq::empty(),
                    }
                },
            }
        },
        _ => Seq::empty(),
    }
}

fn take_field(fields: Vec<(String, JsonValue)>, key: &str) -> (r: Option<JsonValue>)
    ensures
        r == spec_obj_get(fields@, key@),
    decreases fields@.len(),
{
    let mut fields = fields;
    if fields.len() == 0 {
        return None;
    }
    let ghost fm = fields@;
    let head = fields.remove(0);
    proof {
        assert(fields@ =~= fm.drop_first());
        assert(fm[0] == head);
    }
    if str_eq(head.0.as_str(), key) {
        Some(head.1)
    } else {
        take_field(fields, key)
    }
}

fn objects_of(items: Vec<JsonValue>) -> (r: Vec<JsonRecord>)
    ensures
        r@.map_values(|rec: JsonRecord| rec@) == spec_objects_of(items@),
{
    let ghost im = items@;
    let mut items = items;
    let mut out: Vec<JsonRecord> = Vec::new();
    let total = items.len();
    let mut taken: usize = 0;
    proof {
        assert(im.len() == total);
        assert(im.subrange(0, 0) =~= Seq::<JsonValue>::empty());
        assert(out@.map_values(|rec: JsonRecord| rec@) =~= spec_objects_of(im.subrange(0, 0)));
    }
    while items.len() > 0
        invariant
            im.len() <= usize::MAX,
            taken <= im.len(),
            taken + items@.len() == im.len(),
            items@ =~= im.subrange(taken as int, im.len() as int),
            out@.map_values(|rec: JsonRecord| rec@) == spec_objects_of(
                im.subrange(0, taken as int),
            ),
        decreases items@.len(),
    {
        let ghost pre = out@.map_values(|rec: JsonRecord| rec@);
        let item = items.remove(0);
        proof {
            assert(item == im[taken as int]);
            assert(items@ =~= im.subrange(taken + 1, im.len() as int));
            assert(im.subrange(0, taken + 1).drop_last() =~= im.subrange(0, taken as int));
            assert(im.subrange(0, taken + 1).last() == im[taken as int]);
        }
        match item {
            JsonValue::Obj(fields) => {
                let ghost fm = fields@;
                out.push(fields);
                proof {
                    assert(out@.map_values(|rec: JsonRecord| rec@) =~= pre.push(fm));
                }
            },
            _ => {},
        }
        taken = taken + 1;
    }
    proof {
        assert(im.subrange(0, im.len() as int) =~= im);
    }
    out
}

fn attribute_records(items: Vec<JsonValue>) -> (r: Vec<JsonRecord>)
    ensures
        r@.map_values(|rec: JsonRecord| rec@) == spec_attribute_records(items@),
{
    let ghost im = items@;
    let mut items = items;
    let mut out: Vec<JsonRecord> = Vec::new();
    let total = items.len();
    let mut taken: usize = 0;
    proof {
        assert(im.len() == total);
        assert(im.subrange(0, 0) =~= Seq::<JsonValue>::empty());
        assert(out@.map_values(|rec: JsonRecord| rec@) =~= spec_attribute_records(
            im.subrange(0, 0),
        ));
    }
    while items.len() > 0
        invariant
            im.len() <= usize::MAX,
            taken <= im.len(),
            taken + items@.len() == im.len(),
            items@ =~= im.subrange(taken as int, im.len() as int),
            out@.map_values(|rec: JsonRecord| rec@) == spec_attribute_records(
                im.subrange(0, taken as int),
            ),
        decreases items@.len(),
    {
        let ghost pre = out@.map_values(|rec: JsonRecord| rec@);
        let item = items.remove(0);
        proof {
            assert(item == im[taken as int]);
            assert(items@ =~= im.subrange(taken + 1, im.len() as int));
            assert(im.subrange(0, taken + 1).drop_last() =~= im.subrange(0, taken as int));
            assert(im.subrange(0, taken + 1).last() == im[taken as int]);
        }
        match item {
            JsonValue::Obj(fields) => {
                match take_field(fields, "attributes") {
                    Some(JsonValue::Obj(attrs)) => {
                        let ghost am = attrs@;
                        out.push(attrs);
                        proof {
                            assert(out@.map_values(|rec: JsonRecord| rec@) =~= pre.push(am));
                        }
                    },
                    _ => {},
                }
            },
            _ => {},
        }
        taken = taken + 1;
    }
    proof {
        assert(im.subrange(0, im.len() as int) =~= im);
    }
    out
}

/// Extracts the record objects of a decoded export body, whatever of the
/// known envelope shapes it uses.
pub fn parse_json_records(value: JsonValue) -> (r: Vec<JsonRecord>)
    ensures
        r@.map_values(|rec: JsonRecord| rec@) == spec_export_records(value),
{
    match value {
        JsonValue::Arr(items) => objects_of(items),
        JsonValue::Obj(fields) => {
            let ghost fm = fields@;
            let mut features: Option<JsonValue> = None;
            let mut data: Option<JsonValue> = None;
            let mut results: Option<JsonValue> = None;
            let mut records: Option<JsonValue> = None;
            let mut value_field: Option<JsonValue> = None;
            let mut rest = fields;
            let total = rest.len();
            let mut taken: usize = 0;
            proof {
                assert(fm.len() == total);
            }
            while rest.len() > 0
                invariant
                    fm.len() <= usize::MAX,
                    taken <= fm.len(),
                    taken + rest@.len() == fm.len(),
                    rest@ =~= fm.subrange(taken as int, fm.len() as int),
                    features == spec_obj_get(fm.subrange(0, taken as int), "features"@),
                    data == spec_obj_get(fm.subrange(0, taken as int), "data"@),
                    results == spec_obj_get(fm.subrange(0, taken as int), "results"@),
                    records == spec_obj_get(fm.subrange(0, taken as int), "records"@),
                    value_field == spec_obj_get(fm.subrange(0, taken as int), "value"@),
                decreases rest@.len(),
            {
                let field = rest.remove(0);
                proof {
                    reveal_strlit("features");
                    reveal_strlit("data");
                    reveal_strlit("results");
                    reveal_strlit("records");
                    reveal_strlit("value");
                    assert("features"@.len() == 8 && "data"@.len() == 4 && "results"@.len() == 7
                        && "records"@.len() == 7 && "value"@.len() == 5);
                    assert("results"@[2] == 's' && "records"@[2] == 'c');
                    assert(field == fm[taken as int]);
                    assert(rest@ =~= fm.subrange(taken + 1, fm.len() as int));
                    lemma_obj_get_snoc(fm, taken as int, "features"@);
                    lemma_obj_get_snoc(fm, taken as int, "data"@);
                    lemma_obj_get_snoc(fm, taken as int, "results"@);
                    lemma_obj_get_snoc(fm, taken as int, "records"@);
                    lemma_obj_get_snoc(fm, taken as int, "value"@);
                }
                if features.is_none() && str_eq(field.0.as_str(), "features") {
                    features = Some(field.1);
                } else if data.is_none() && str_eq(field.0.as_str(), "data") {
                    data = Some(field.1);
                } else if results.is_none() && str_eq(field.0.as_str(), "results") {
                    results = Some(field.1);
                } else if records.is_none() && str_eq(field.0.as_str(), "records") {
                    records = Some(field.1);
                } else if value_field.is_none() && str_eq(field.0.as_str(), "value") {
                    value_field = Some(field.1);
                }
                taken = taken + 1;
            }
            proof {
                assert(fm.subrange(0, fm.len() as int) =~= fm);
            }
            if let Some(JsonValue::Arr(feature_items)) = features {
                return attribute_records(feature_items);
            }
            let chosen = if data.is_some() {
                data
            } else if results.is_some() {
                results
            } else if records.is_some() {
                records
            } else {
                value_field
            };
            match chosen {
                Some(JsonValue::Arr(items)) => objects_of(items),
                _ => Vec::new(),
            }
        },
        _ => Vec::new(),
    }
}

proof fn lemma_obj_get_snoc(fm: Seq<(String, JsonValue)>, i: int, key: Seq<char>)
    requires
        0 <= i < fm.len(),
    ensures
        spec_obj_get(fm.subrange(0, i + 1), key) == (match spec_obj_get(fm.subrange(0, i), key) {
            Some(v) => Some(v),
            None => if fm[i].0@ == key {
                Some(fm[i].1)
            } else {
                None
            },
        }),
    decreases i,
{
    if i == 0 {
        assert(fm.subrange(0, 1)[0] == fm[0]);
        assert(fm.subrange(0, 1).drop_first() =~= Seq::<(String, JsonValue)>::empty());
        assert(fm.subrange(0, 0) =~= Seq::<(String, JsonValue)>::empty());
    } else {
        assert(fm.subrange(0, i + 1)[0] == fm[0]);
        assert(fm.subrange(0, i)[0] == fm[0]);
        assert(fm.subrange(0, i + 1).drop_first() =~= fm.drop_first().subrange(0, i));
        assert(fm.subrange(0, i).drop_first() =~= fm.drop_first().subrange(0, i - 1));
        assert(fm.drop_first()[i - 1] == fm[i]);
        lemma_obj_get_snoc(fm.drop_first(), i - 1, key);
    }
}

} // verus!
