//! Domain entities of the facility directory.

use vstd::prelude::*;

verus! {

/// Closed enumeration of the health departments the directory covers.
/// Each has a short stable code (used in ids and persistence) and a label.
#[derive(Clone, Copy, Debug, PartialEq, Eq, Structural)]
pub enum Jurisdiction {
    LosAngelesCounty,
    SanDiegoCounty,
    LongBeach,
    RiversideCounty,
    SanBernardinoCounty,
    OrangeCounty,
    Pasadena,
}

/// The short stable code of a jurisdiction, as a specification value.
pub open spec fn spec_code(j: Jurisdiction) -> Seq<char> {
    match j {
        Jurisdiction::LosAngelesCounty => "lac"@,
        Jurisdiction::SanDiegoCounty => "sdc"@,
        Jurisdiction::LongBeach => "lb"@,
        Jurisdiction::RiversideCounty => "riv"@,
        Jurisdiction::SanBernardinoCounty => "sbc"@,
        Jurisdiction::OrangeCounty => "oc"@,
        Jurisdiction::Pasadena => "pas"@,
    }
}

/// The human label of a jurisdiction, as a specification value.
pub open spec fn spec_label(j: Jurisdiction) -> Seq<char> {
    match j {
        Jurisdiction::LosAngelesCounty => "Los Angeles County"@,
        Jurisdiction::SanDiegoCounty => "San Diego County"@,
        Jurisdiction::LongBeach => "Long Beach"@,
        Jurisdiction::RiversideCounty => "Riverside County"@,
        Jurisdiction::SanBernardinoCounty => "San Bernardino County"@,
        Jurisdiction::OrangeCounty => "Orange County"@,
        Jurisdiction::Pasadena => "Pasadena"@,
    }
}

impl Jurisdiction {
    /// Short stable code, e.g. `"lac"` for Los Angeles County.
    pub fn code(&self) -> (r: &'static str)
        ensures
            r@ == spec_code(*self),
    {
        match self {
            Self::LosAngelesCounty => "lac",
            Self::SanDiegoCounty => "sdc",
            Self::LongBeach => "lb",
            Self::RiversideCounty => "riv",
            Self::SanBernardinoCounty => "sbc",
            Self::OrangeCounty => "oc",
            Self::Pasadena => "pas",
        }
    }

    /// Human label, e.g. `"Los Angeles County"`.
    pub fn label(&self) -> (r: &'static str)
        ensures
            r@ == spec_label(*self),
    {
        match self {
            Self::LosAngelesCounty => "Los Angeles County",
            Self::SanDiegoCounty => "San Diego County",
            Self::LongBeach => "Long Beach",
            Self::RiversideCounty => "Riverside County",
            Self::SanBernardinoCounty => "San Bernardino County",
            Self::OrangeCounty => "Orange County",
            Self::Pasadena => "Pasadena",
        }
    }

    /// Parses a short jurisdiction code.
    pub fn from_code(code: &str) -> (r: Option<Self>)
        ensures
            r == spec_from_code(code@),
    {
        if crate::text::str_eq(code, "lac") {
            Some(Self::LosAngelesCounty)
        } else if crate::text::str_eq(code, "sdc") {
            Some(Self::SanDiegoCounty)
        } else if crate::text::str_eq(code, "lb") {
            Some(Self::LongBeach)
        } else if crate::text::str_eq(code, "riv") {
            Some(Self::RiversideCounty)
        } else if crate::text::str_eq(code, "sbc") {
            Some(Self::SanBernardinoCounty)
        } else if crate::text::str_eq(code, "oc") {
            Some(Self::OrangeCounty)
        } else if crate::text::str_eq(code, "pas") {
            Some(Self::Pasadena)
        } else {
            None
        }
    }

    /// Parses a jurisdiction label, case-insensitively.
    pub fn from_label(label: &str) -> (r: Option<Self>)
        ensures
            r == spec_from_label(label@),
    {
        let norm = crate::text::lower_str(label);
        if crate::text::str_eq(norm.as_str(), "los angeles county") {
            Some(Self::LosAngelesCounty)
        } else if crate::text::str_eq(norm.as_str(), "san diego county") {
            Some(Self::SanDiegoCounty)
        } else if crate::text::str_eq(norm.as_str(), "long beach") {
            Some(Self::LongBeach)
        } else if crate::text::str_eq(norm.as_str(), "riverside county") {
            Some(Self::RiversideCounty)
        } else if crate::text::str_eq(norm.as_str(), "san bernardino county") {
            Some(Self::SanBernardinoCounty)
        } else if crate::text::str_eq(norm.as_str(), "orange county") {
            Some(Self::OrangeCounty)
        } else if crate::text::str_eq(norm.as_str(), "pasadena") {
            Some(Self::Pasadena)
        } else {
            None
        }
    }
}

/// The jurisdiction a short code names, if any.
pub open spec fn spec_from_code(s: Seq<char>) -> Option<Jurisdiction> {
    if s == "lac"@ {
        Some(Jurisdiction::LosAngelesCounty)
    } else if s == "sdc"@ {
        Some(Jurisdiction::SanDiegoCounty)
    } else if s == "lb"@ {
        Some(Jurisdiction::LongBeach)
    } else if s == "riv"@ {
        Some(Jurisdiction::RiversideCounty)
    } else if s == "sbc"@ {
        Some(Jurisdiction::SanBernardinoCounty)
    } else if s == "oc"@ {
        Some(Jurisdiction::OrangeCounty)
    } else if s == "pas"@ {
        Some(Jurisdiction::Pasadena)
    } else {
        None
    }
}

/// The jurisdiction a label names, compared case-insensitively, if any.
pub open spec fn spec_from_label(s: Seq<char>) -> Option<Jurisdiction> {
    let norm = crate::text::spec_lower(s);
    if norm == "los angeles county"@ {
        Some(Jurisdiction::LosAngelesCounty)
    } else if norm == "san diego county"@ {
        Some(Jurisdiction::SanDiegoCounty)
    } else if norm == "long beach"@ {
        Some(Jurisdiction::LongBeach)
    } else if norm == "riverside county"@ {
        Some(Jurisdiction::RiversideCounty)
    } else if norm == "san bernardino county"@ {
        Some(Jurisdiction::SanBernardinoCounty)
    } else if norm == "orange county"@ {
        Some(Jurisdiction::OrangeCounty)
    } else if norm == "pasadena"@ {
        Some(Jurisdiction::Pasadena)
    } else {
        None
    }
}

/// A single vote on a facility. Persisted as +1 / -1.
#[derive(Clone, Copy, Debug, PartialEq, Eq, Structural)]
pub enum VoteValue {
    Like,
    Dislike,
}

impl VoteValue {
    /// The persisted integer form of the vote: +1 for a like, -1 for a dislike.
    pub fn to_i16(&self) -> (r: i16)
        ensures
            *self == VoteValue::Like ==> r == 1i16,
            *self == VoteValue::Dislike ==> r == -1i16,
    {
        match self {
            Self::Like => 1,
            Self::Dislike => -1,
        }
    }
}

/// Aggregated votes of one facility.
#[derive(Clone, Copy, Debug)]
pub struct FacilityVoteSummary {
    pub likes: u64,
    pub dislikes: u64,
}

impl FacilityVoteSummary {
    /// The derived vote score: likes minus dislikes.
    ///
    /// Every vote summary satisfies `score == likes - dislikes`.
    pub fn score(&self) -> (r: i64)
        requires
            self.likes <= i64::MAX as u64,
            self.dislikes <= i64::MAX as u64,
        ensures
            r == self.likes as int - self.dislikes as int,
    {
        self.likes as i64 - self.dislikes as i64
    }
}

impl DeepView for FacilityVoteSummary {
    type V = FacilityVoteSummary;

    open spec fn deep_view(&self) -> FacilityVoteSummary {
        *self
    }
}

impl Default for FacilityVoteSummary {
    /// An empty summary: no likes and no dislikes.
    fn default() -> (r: Self)
        ensures
            r.likes == 0,
            r.dislikes == 0,
    {
        FacilityVoteSummary { likes: 0, dislikes: 0 }
    }
}

/// One violation attached to an inspection.
#[derive(Debug)]
pub struct Violation {
    pub code: String,
    pub description: String,
    pub points: i16,
    pub critical: bool,
}

/// Mathematical model of a [`Violation`].
pub ghost struct ViolationModel {
    pub code: Seq<char>,
    pub description: Seq<char>,
    pub points: i16,
    pub critical: bool,
}

impl DeepView for Violation {
    type V = ViolationModel;

    open spec fn deep_view(&self) -> ViolationModel {
        ViolationModel {
            code: self.code@,
            description: self.description@,
            points: self.points,
            critical: self.critical,
        }
    }
}

impl Clone for Violation {
    /// A copy with the same model.
    fn clone(&self) -> (r: Self)
        ensures
            r.deep_view() == self.deep_view(),
    {
        Violation {
            code: self.code.clone(),
            description: self.description.clone(),
            points: self.points,
            critical: self.critical,
        }
    }
}

/// One inspection of a facility. The instant is milliseconds since the Unix
/// epoch; the raw score, when the source reports one, is kept in hundredths
/// of a point.
#[derive(Debug)]
pub struct Inspection {
    pub inspection_id: String,
    pub inspected_at_ms: i64,
    pub raw_score_centi: Option<i32>,
    pub letter_grade: Option<String>,
    pub placard_status: Option<String>,
    pub violations: Vec<Violation>,
}

/// Mathematical model of an [`Inspection`].
pub ghost struct InspectionModel {
    pub inspection_id: Seq<char>,
    pub inspected_at_ms: i64,
    pub raw_score_centi: Option<i32>,
    pub letter_grade: Option<Seq<char>>,
    pub placard_status: Option<Seq<char>>,
    pub violations: Seq<ViolationModel>,
}

impl DeepView for Inspection {
    type V = InspectionModel;

    open spec fn deep_view(&self) -> InspectionModel {
        InspectionModel {
            inspection_id: self.inspection_id@,
            inspected_at_ms: self.inspected_at_ms,
            raw_score_centi: self.raw_score_centi,
            letter_grade: self.letter_grade.deep_view(),
            placard_status: self.placard_status.deep_view(),
            violations: self.violations.deep_view(),
        }
    }
}

fn clone_opt_string(s: &Option<String>) -> (r: Option<String>)
    ensures
        r.deep_view() == s.deep_view(),
{
    match s {
        Some(v) => Some(v.clone()),
        None => None,
    }
}

pub(crate) fn clone_violations(v: &Vec<Violation>) -> (r: Vec<Violation>)
    ensures
        r.deep_view() == v.deep_view(),
{
    let mut out: Vec<Violation> = Vec::new();
    let mut i: usize = 0;
    while i < v.len()
        invariant
            i <= v.len(),
            out.deep_view() == v.deep_view().subrange(0, i as int),
        decreases v.len() - i,
    {
        let ghost prev = out.deep_view();
        out.push(v[i].clone());
        proof {
            assert(out.deep_view() =~= prev.push(v@[i as int].deep_view()));
            assert(v.deep_view().subrange(0, i + 1) =~= v.deep_view().subrange(0, i as int).push(
                v.deep_view()[i as int],
            ));
        }
        i = i + 1;
    }
    proof {
        assert(v.deep_view().subrange(0, v.deep_view().len() as int) =~= v.deep_view());
    }
    out
}

impl Clone for Inspection {
    /// A copy with the same model.
    fn clone(&self) -> (r: Self)
        ensures
            r.deep_view() == self.deep_view(),
    {
        Inspection {
            inspection_id: self.inspection_id.clone(),
            inspected_at_ms: self.inspected_at_ms,
            raw_score_centi: self.raw_score_centi,
            letter_grade: clone_opt_string(&self.letter_grade),
            placard_status: clone_opt_string(&self.placard_status),
            violations: clone_violations(&self.violations),
        }
    }
}

/// One inspected facility of the active snapshot. Coordinates are kept in
/// microdegrees and `updated_at_ms` in milliseconds since the Unix epoch.
/// The canonical key is `id == "<jurisdiction code>::<source_id>"`.
#[derive(Debug)]
pub struct Facility {
    pub id: String,
    pub source_id: String,
    pub name: String,
    pub address: String,
    pub city: String,
    pub state: String,
    pub postal_code: String,
    pub latitude_micro: i64,
    pub longitude_micro: i64,
    pub jurisdiction: Jurisdiction,
    pub trust_score: u8,
    pub inspections: Vec<Inspection>,
    pub updated_at_ms: i64,
}

/// Mathematical model of a [`Facility`].
pub ghost struct FacilityModel {
    pub id: Seq<char>,
    pub source_id: Seq<char>,
    pub name: Seq<char>,
    pub address: Seq<char>,
    pub city: Seq<char>,
    pub state: Seq<char>,
    pub postal_code: Seq<char>,
    pub latitude_micro: i64,
    pub longitude_micro: i64,
    pub jurisdiction: Jurisdiction,
    pub trust_score: u8,
    pub inspections: Seq<InspectionModel>,
    pub updated_at_ms: i64,
}

impl DeepView for Facility {
    type V = FacilityModel;

    open spec fn deep_view(&self) -> FacilityModel {
        FacilityModel {
            id: self.id@,
            source_id: self.source_id@,
            name: self.name@,
            address: self.address@,
            city: self.city@,
            state: self.state@,
            postal_code: self.postal_code@,
            latitude_micro: self.latitude_micro,
            longitude_micro: self.longitude_micro,
            jurisdiction: self.jurisdiction,
            trust_score: self.trust_score,
            inspections: self.inspections.deep_view(),
            updated_at_ms: self.updated_at_ms,
        }
    }
}

fn clone_inspections(v: &Vec<Inspection>) -> (r: Vec<Inspection>)
    ensures
        r.deep_view() == v.deep_view(),
{
    let mut out: Vec<Inspection> = Vec::new();
    let mut i: usize = 0;
    while i < v.len()
        invariant
            i <= v.len(),
            out.deep_view() == v.deep_view().subrange(0, i as int),
        decreases v.len() - i,
    {
        let ghost prev = out.deep_view();
        out.push(v[i].clone());
        proof {
            assert(out.deep_view() =~= prev.push(v@[i as int].deep_view()));
            assert(v.deep_view().subrange(0, i + 1) =~= v.deep_view().subrange(0, i as int).push(
                v.deep_view()[i as int],
            ));
        }
        i = i + 1;
    }
    proof {
        assert(v.deep_view().subrange(0, v.deep_view().len() as int) =~= v.deep_view());
    }
    out
}

impl Clone for Facility {
    /// A copy with the same model.
    fn clone(&self) -> (r: Self)
        ensures
            r.deep_view() == self.deep_view(),
    {
        Facility {
            id: self.id.clone(),
            source_id: self.source_id.clone(),
            name: self.name.clone(),
            address: self.address.clone(),
            city: self.city.clone(),
            state: self.state.clone(),
            postal_code: self.postal_code.clone(),
            latitude_micro: self.latitude_micro,
            longitude_micro: self.longitude_micro,
            jurisdiction: self.jurisdiction,
            trust_score: self.trust_score,
            inspections: clone_inspections(&self.inspections),
            updated_at_ms: self.updated_at_ms,
        }
    }
}


/// Copies a facility vector, keeping its model.
pub fn clone_facilities(v: &Vec<Facility>) -> (r: Vec<Facility>)
    ensures
        r.deep_view() == v.deep_view(),
{
    let mut out: Vec<Facility> = Vec::new();
    let mut i: usize = 0;
    while i < v.len()
        invariant
            i <= v.len(),
            out.deep_view() == v.deep_view().subrange(0, i as int),
        decreases v.len() - i,
    {
        let ghost prev = out.deep_view();
        out.push(v[i].clone());
        proof {
            assert(out.deep_view() =~= prev.push(v@[i as int].deep_view()));
            assert(v.deep_view().subrange(0, i + 1) =~= v.deep_view().subrange(0, i as int).push(
                v.deep_view()[i as int],
            ));
        }
        i = i + 1;
    }
    proof {
        assert(v.deep_view().subrange(0, v.deep_view().len() as int) =~= v.deep_view());
    }
    out
}

/// The largest `inspected_at_ms` of an inspection sequence, `0` when empty.
pub open spec fn spec_max_inspected(s: Seq<InspectionModel>) -> i64
    decreases s.len(),
{
    if s.len() <= 1 {
        if s.len() == 0 {
            0
        } else {
            s[0].inspected_at_ms
        }
    } else {
        let rest = spec_max_inspected(s.drop_first());
        if s[0].inspected_at_ms >= rest {
            s[0].inspected_at_ms
        } else {
            rest
        }
    }
}

/// The most recent inspection instant of a facility, if it has inspections.
pub open spec fn spec_latest_inspection_ms(f: FacilityModel) -> Option<i64> {
    if f.inspections.len() == 0 {
        None
    } else {
        Some(spec_max_inspected(f.inspections))
    }
}

proof fn lemma_max_inspected_push(s: Seq<InspectionModel>, x: InspectionModel)
    requires
        s.len() >= 1,
    ensures
        spec_max_inspected(s.push(x)) == if x.inspected_at_ms > spec_max_inspected(s) {
            x.inspected_at_ms
        } else {
            spec_max_inspected(s)
        },
    decreases s.len(),
{
    if s.len() == 1 {
        assert(s.push(x).drop_first() =~= seq![x]);
        assert(spec_max_inspected(seq![x]) == x.inspected_at_ms);
    } else {
        assert(s.push(x).drop_first() =~= s.drop_first().push(x));
        lemma_max_inspected_push(s.drop_first(), x);
    }
}

/// The most recent inspection instant of a facility, or `None` when it has
/// no inspections.
pub fn latest_inspection_ms(f: &Facility) -> (r: Option<i64>)
    ensures
        r == spec_latest_inspection_ms(f.deep_view()),
{
    let n = f.inspections.len();
    if n == 0 {
        return None;
    }
    let ghost m = f.inspections.deep_view();
    let mut best: i64 = f.inspections[0].inspected_at_ms;
    let mut i: usize = 1;
    while i < n
        invariant
            1 <= i <= n,
            n == f.inspections.len(),
            m == f.inspections.deep_view(),
            best == spec_max_inspected(m.subrange(0, i as int)),
        decreases n - i,
    {
        proof {
            lemma_max_inspected_push(m.subrange(0, i as int), m[i as int]);
            assert(m.subrange(0, i as int).push(m[i as int]) =~= m.subrange(0, i + 1));
        }
        let c = f.inspections[i].inspected_at_ms;
        i = i + 1;
        if c > best {
            best = c;
        }
    }
    proof {
        assert(m.subrange(0, n as int) =~= m);
    }
    Some(best)
}

/// Per-connector outcome of one ingestion cycle.
#[derive(Debug)]
pub struct ConnectorIngestionStatus {
    pub source: String,
    pub fetched_records: usize,
    pub error: Option<String>,
}

/// Mathematical model of a [`ConnectorIngestionStatus`].
pub ghost struct ConnectorStatusModel {
    pub source: Seq<char>,
    pub fetched_records: usize,
    pub error: Option<Seq<char>>,
}

impl DeepView for ConnectorIngestionStatus {
    type V = ConnectorStatusModel;

    open spec fn deep_view(&self) -> ConnectorStatusModel {
        ConnectorStatusModel {
            source: self.source@,
            fetched_records: self.fetched_records,
            error: self.error.deep_view(),
        }
    }
}

impl Clone for ConnectorIngestionStatus {
    /// A copy with the same model.
    fn clone(&self) -> (r: Self)
        ensures
            r.deep_view() == self.deep_view(),
    {
        ConnectorIngestionStatus {
            source: self.source.clone(),
            fetched_records: self.fetched_records,
            error: clone_opt_string(&self.error),
        }
    }
}

impl Default for ConnectorIngestionStatus {
    /// An empty status: no source, no records, no error.
    fn default() -> (r: Self)
        ensures
            r.deep_view().source == Seq::<char>::empty(),
            r.deep_view().fetched_records == 0,
            r.deep_view().error is None,
    {
        ConnectorIngestionStatus { source: String::new(), fetched_records: 0, error: None }
    }
}

/// The status written once per successful refresh.
#[derive(Debug)]
pub struct SystemIngestionStatus {
    pub last_refresh_at_ms: i64,
    pub unique_facilities: usize,
    pub connector_stats: Vec<ConnectorIngestionStatus>,
}

/// Mathematical model of a [`SystemIngestionStatus`].
pub ghost struct SystemStatusModel {
    pub last_refresh_at_ms: i64,
    pub unique_facilities: usize,
    pub connector_stats: Seq<ConnectorStatusModel>,
}

impl DeepView for SystemIngestionStatus {
    type V = SystemStatusModel;

    open spec fn deep_view(&self) -> SystemStatusModel {
        SystemStatusModel {
            last_refresh_at_ms: self.last_refresh_at_ms,
            unique_facilities: self.unique_facilities,
            connector_stats: self.connector_stats.deep_view(),
        }
    }
}

fn clone_connector_stats(v: &Vec<ConnectorIngestionStatus>) -> (r: Vec<ConnectorIngestionStatus>)
    ensures
        r.deep_view() == v.deep_view(),
{
    let mut out: Vec<ConnectorIngestionStatus> = Vec::new();
    let mut i: usize = 0;
    while i < v.len()
        invariant
            i <= v.len(),
            out.deep_view() == v.deep_view().subrange(0, i as int),
        decreases v.len() - i,
    {
        let ghost prev = out.deep_view();
        out.push(v[i].clone());
        proof {
            assert(out.deep_view() =~= prev.push(v@[i as int].deep_view()));
            assert(v.deep_view().subrange(0, i + 1) =~= v.deep_view().subrange(0, i as int).push(
                v.deep_view()[i as int],
            ));
        }
        i = i + 1;
    }
    proof {
        assert(v.deep_view().subrange(0, v.deep_view().len() as int) =~= v.deep_view());
    }
    out
}

impl Clone for SystemIngestionStatus {
    /// A copy with the same model.
    fn clone(&self) -> (r: Self)
        ensures
            r.deep_view() == self.deep_view(),
    {
        SystemIngestionStatus {
            last_refresh_at_ms: self.last_refresh_at_ms,
            unique_facilities: self.unique_facilities,
            connector_stats: clone_connector_stats(&self.connector_stats),
        }
    }
}

/// One autocomplete suggestion.
#[derive(Debug)]
pub struct AutocompleteSuggestion {
    pub id: String,
    pub name: String,
    pub city: String,
    pub postal_code: String,
    pub trust_score: u8,
}

/// Mathematical model of an [`AutocompleteSuggestion`].
pub ghost struct SuggestionModel {
    pub id: Seq<char>,
    pub name: Seq<char>,
    pub city: Seq<char>,
    pub postal_code: Seq<char>,
    pub trust_score: u8,
}

impl DeepView for AutocompleteSuggestion {
    type V = SuggestionModel;

    open spec fn deep_view(&self) -> SuggestionModel {
        SuggestionModel {
            id: self.id@,
            name: self.name@,
            city: self.city@,
            postal_code: self.postal_code@,
            trust_score: self.trust_score,
        }
    }
}

impl Clone for AutocompleteSuggestion {
    /// A copy with the same model.
    fn clone(&self) -> (r: Self)
        ensures
            r.deep_view() == self.deep_view(),
    {
        AutocompleteSuggestion {
            id: self.id.clone(),
            name: self.name.clone(),
            city: self.city.clone(),
            postal_code: self.postal_code.clone(),
            trust_score: self.trust_score,
        }
    }
}

/// Facet counts of the score slices, computed over the filtered candidate
/// set before any score-slice filter is applied.
#[derive(Clone, Copy, Debug)]
pub struct ScoreSliceCounts {
    pub all: usize,
    pub elite: usize,
    pub solid: usize,
    pub watch: usize,
}

/// A search request against the facility snapshot.
///
/// The browse-mode geo radius is resolved by the caller into `geo_within`:
/// the ids of the facilities inside the radius. Text mode ignores it.
#[derive(Debug)]
pub struct FacilitySearchQuery {
    pub q: Option<String>,
    pub geo_within: Option<Vec<String>>,
    pub jurisdiction: Option<String>,
    pub sort: Option<String>,
    pub score_slice: Option<String>,
    pub recent_only: Option<bool>,
    pub page: Option<usize>,
    pub page_size: Option<usize>,
    pub limit: Option<usize>,
}

/// Mathematical model of a [`FacilitySearchQuery`].
pub ghost struct SearchQueryModel {
    pub q: Option<Seq<char>>,
    pub geo_within: Option<Seq<Seq<char>>>,
    pub jurisdiction: Option<Seq<char>>,
    pub sort: Option<Seq<char>>,
    pub score_slice: Option<Seq<char>>,
    pub recent_only: Option<bool>,
    pub page: Option<usize>,
    pub page_size: Option<usize>,
    pub limit: Option<usize>,
}

impl DeepView for FacilitySearchQuery {
    type V = SearchQueryModel;

    open spec fn deep_view(&self) -> SearchQueryModel {
        SearchQueryModel {
            q: self.q.deep_view(),
            geo_within: self.geo_within.deep_view(),
            jurisdiction: self.jurisdiction.deep_view(),
            sort: self.sort.deep_view(),
            score_slice: self.score_slice.deep_view(),
            recent_only: self.recent_only,
            page: self.page,
            page_size: self.page_size,
            limit: self.limit,
        }
    }
}

} // verus!
