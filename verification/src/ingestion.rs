//! The ingestion coordinator: stitches connector records, applies the
//! safety gates, normalizes the winners into facilities and swaps the
//! snapshot. A failed cycle leaves snapshot and status untouched.

use vstd::prelude::*;

use crate::dto::SourceFacilityInput;
use crate::dto::SourceInputModel;
use crate::entities::ConnectorIngestionStatus;
use crate::entities::ConnectorStatusModel;
use crate::entities::Facility;
use crate::entities::FacilityModel;
use crate::entities::Inspection;
use crate::entities::SystemIngestionStatus;
use crate::entities::SystemStatusModel;
use crate::entities::spec_code;
use crate::store::InMemoryFacilityRepository;
use crate::text::push_char;
use crate::text::spec_lower;
use crate::text::spec_trim;
use crate::text::lower_str;
use crate::text::trim_str;
use crate::trust_score::ScoreSignals;
use crate::trust_score::TrustScoreService;
use crate::trust_score::spec_trust_score;

verus! {

/// Why a refresh cycle was aborted. Any of these leaves the previous
/// snapshot and status untouched.
#[derive(Clone, Copy, Debug, PartialEq, Eq, Structural)]
pub enum RefreshError {
    /// No connector returned records.
    NoConnectorSucceeded,
    /// The connectors together produced zero stitched records.
    NoRecords,
    /// The stitched count fell below half of the previous unique count.
    BelowSafetyThreshold,
}

/// What one connector handed back: its stable source name and either its
/// records or an error message.
#[derive(Debug)]
pub struct ConnectorFetchOutcome {
    pub source: String,
    pub result: Result<Vec<SourceFacilityInput>, String>,
}

/// Mathematical model of a [`ConnectorFetchOutcome`].
pub ghost struct ConnectorOutcomeModel {
    pub source: Seq<char>,
    pub result: Result<Seq<SourceInputModel>, Seq<char>>,
}

impl DeepView for ConnectorFetchOutcome {
    type V = ConnectorOutcomeModel;

    open spec fn deep_view(&self) -> ConnectorOutcomeModel {
        ConnectorOutcomeModel {
            source: self.source@,
            result: match &self.result {
                Ok(v) => Ok(v.deep_view()),
                Err(e) => Err(e@),
            },
        }
    }
}

/// The deduplication key of a source record: its lower-cased trimmed name,
/// address, city and postal code, joined with `|`.
pub open spec fn spec_dedupe_key(r: SourceInputModel) -> Seq<char> {
    spec_lower(spec_trim(r.name)) + seq!['|'] + spec_lower(spec_trim(r.address)) + seq!['|']
        + spec_lower(spec_trim(r.city)) + seq!['|'] + spec_lower(spec_trim(r.postal_code))
}

/// Computes the deduplication key of a record.
pub fn dedupe_key(record: &SourceFacilityInput) -> (r: String)
    ensures
        r@ == spec_dedupe_key(record.deep_view()),
{
    let mut s = lower_str(trim_str(record.name.as_str()).as_str());
    push_char(&mut s, '|');
    s.append(lower_str(trim_str(record.address.as_str()).as_str()).as_str());
    push_char(&mut s, '|');
    s.append(lower_str(trim_str(record.city.as_str()).as_str()).as_str());
    push_char(&mut s, '|');
    s.append(lower_str(trim_str(record.postal_code.as_str()).as_str()).as_str());
    proof {
        assert(s@ =~= spec_dedupe_key(record.deep_view()));
    }
    s
}

/// One stitched record merged into the map: the first entry with the same
/// key is replaced when the new record was inspected strictly later, and a
/// fresh key is appended.
pub open spec fn spec_stitch_one(
    m: Seq<(Seq<char>, SourceInputModel)>,
    rec: SourceInputModel,
) -> Seq<(Seq<char>, SourceInputModel)>
    decreases m.len(),
{
    if m.len() == 0 {
        seq![(spec_dedupe_key(rec), rec)]
    } else if m[0].0 == spec_dedupe_key(rec) {
        if m[0].1.inspected_at_ms < rec.inspected_at_ms {
            seq![(m[0].0, rec)] + m.drop_first()
        } else {
            m
        }
    } else {
        seq![m[0]] + spec_stitch_one(m.drop_first(), rec)
    }
}

/// A record list merged into the map, in order.
pub open spec fn spec_stitch_records(
    m: Seq<(Seq<char>, SourceInputModel)>,
    recs: Seq<SourceInputModel>,
) -> Seq<(Seq<char>, SourceInputModel)>
    decreases recs.len(),
{
    if recs.len() == 0 {
        m
    } else {
        spec_stitch_records(spec_stitch_one(m, recs[0]), recs.drop_first())
    }
}

/// All successful connector outcomes merged into one stitched map, in
/// connector order.
pub open spec fn spec_stitch_all(outcomes: Seq<ConnectorOutcomeModel>) -> Seq<
    (Seq<char>, SourceInputModel),
>
    decreases outcomes.len(),
{
    if outcomes.len() == 0 {
        Seq::empty()
    } else {
        let rest = spec_stitch_all(outcomes.drop_last());
        match outcomes.last().result {
            Ok(recs) => spec_stitch_records(rest, recs),
            Err(_) => rest,
        }
    }
}

/// How many connectors succeeded.
pub open spec fn spec_count_ok(outcomes: Seq<ConnectorOutcomeModel>) -> nat
    decreases outcomes.len(),
{
    if outcomes.len() == 0 {
        0
    } else {
        spec_count_ok(outcomes.drop_last()) + (if outcomes.last().result is Ok {
            1nat
        } else {
            0nat
        })
    }
}

/// The per-connector stats a cycle records: the fetched count on success,
/// the error message on failure.
pub open spec fn spec_stats_of(outcomes: Seq<ConnectorOutcomeModel>) -> Seq<ConnectorStatusModel> {
    outcomes.map_values(
        |o: ConnectorOutcomeModel| ConnectorStatusModel {
            source: o.source,
            fetched_records: (match o.result {
                Ok(recs) => recs.len(),
                Err(_) => 0,
            }) as usize,
            error: match o.result {
                Ok(_) => None,
                Err(e) => Some(e),
            },
        },
    )
}

/// The minimum stitched count a previous status demands: half the previous
/// unique count, but at least one.
pub open spec fn spec_min_safe_count(previous_unique: usize) -> int {
    if previous_unique / 2 > 1 {
        previous_unique as int / 2
    } else {
        1
    }
}

/// Which gate aborts the cycle, if any: no successful connector, an empty
/// stitched map, or a stitched count below the safety threshold, checked
/// in that order.
pub open spec fn spec_gate_error(
    outcomes: Seq<ConnectorOutcomeModel>,
    previous_unique: Option<usize>,
) -> Option<RefreshError> {
    if spec_count_ok(outcomes) == 0 {
        Some(RefreshError::NoConnectorSucceeded)
    } else if spec_stitch_all(outcomes).len() == 0 {
        Some(RefreshError::NoRecords)
    } else if previous_unique matches Some(p) && (spec_stitch_all(outcomes).len() as int)
        < spec_min_safe_count(p) {
        Some(RefreshError::BelowSafetyThreshold)
    } else {
        None
    }
}

/// The unique count a stored status model carries, if one exists.
pub open spec fn spec_previous_unique(previous: Option<SystemStatusModel>) -> Option<usize> {
    match previous {
        Some(p) => Some(p.unique_facilities),
        None => None,
    }
}

/// The facility a stitched record is normalized into: id
/// `<code>::<source_id>`, one synthetic inspection `<code>-<source_id>`
/// carrying the record's signals, and the trust score of those signals.
pub open spec fn spec_normalize_record(rec: SourceInputModel, now_ms: i64) -> FacilityModel {
    FacilityModel {
        id: spec_code(rec.jurisdiction) + seq![':', ':'] + rec.source_id,
        source_id: rec.source_id,
        name: rec.name,
        address: rec.address,
        city: rec.city,
        state: rec.state,
        postal_code: rec.postal_code,
        latitude_micro: rec.latitude_micro,
        longitude_micro: rec.longitude_micro,
        jurisdiction: rec.jurisdiction,
        trust_score: spec_trust_score(rec.raw_score_centi, rec.letter_grade, rec.placard_status),
        inspections: seq![
            crate::entities::InspectionModel {
                inspection_id: spec_code(rec.jurisdiction) + seq!['-'] + rec.source_id,
                inspected_at_ms: rec.inspected_at_ms,
                raw_score_centi: rec.raw_score_centi,
                letter_grade: rec.letter_grade,
                placard_status: rec.placard_status,
                violations: rec.violations,
            },
        ],
        updated_at_ms: now_ms,
    }
}

/// The snapshot a stitched map produces.
pub open spec fn spec_normalized_all(
    m: Seq<(Seq<char>, SourceInputModel)>,
    now_ms: i64,
) -> Seq<FacilityModel> {
    m.map_values(|e: (Seq<char>, SourceInputModel)| spec_normalize_record(e.1, now_ms))
}

/// Normalizes one stitched record into a facility.
fn normalize_record(trust: &TrustScoreService, record: SourceFacilityInput, now_ms: i64) -> (r:
    Facility)
    ensures
        r.deep_view() == spec_normalize_record(record.deep_view(), now_ms),
{
    let trust_score = trust.score(
        &ScoreSignals {
            raw_score_centi: record.raw_score_centi,
            letter_grade: match &record.letter_grade {
                Some(g) => Some(g.clone()),
                None => None,
            },
            placard_status: match &record.placard_status {
                Some(p) => Some(p.clone()),
                None => None,
            },
        },
    );
    let mut id = String::from_str(record.jurisdiction.code());
    push_char(&mut id, ':');
    push_char(&mut id, ':');
    id.append(record.source_id.as_str());
    let mut inspection_id = String::from_str(record.jurisdiction.code());
    push_char(&mut inspection_id, '-');
    inspection_id.append(record.source_id.as_str());
    let inspection = Inspection {
        inspection_id,
        inspected_at_ms: record.inspected_at_ms,
        raw_score_centi: record.raw_score_centi,
        letter_grade: record.letter_grade,
        placard_status: record.placard_status,
        violations: record.violations,
    };
    let mut inspections: Vec<Inspection> = Vec::new();
    inspections.push(inspection);
    let r = Facility {
        id,
        source_id: record.source_id,
        name: record.name,
        address: record.address,
        city: record.city,
        state: record.state,
        postal_code: record.postal_code,
        latitude_micro: record.latitude_micro,
        longitude_micro: record.longitude_micro,
        jurisdiction: record.jurisdiction,
        trust_score,
        inspections,
        updated_at_ms: now_ms,
    };
    proof {
        let sm = spec_normalize_record(record.deep_view(), now_ms);
        assert(r.deep_view().id =~= sm.id);
        assert(r.deep_view().inspections[0].inspection_id =~= sm.inspections[0].inspection_id);
        assert(r.deep_view().inspections[0] == sm.inspections[0]);
        assert(r.deep_view().inspections =~= sm.inspections);
    }
    r
}

/// One row of the stitched map: a deduplication key with its current
/// winning record.
pub struct StitchEntry {
    pub key: String,
    pub record: SourceFacilityInput,
}

impl DeepView for StitchEntry {
    type V = (Seq<char>, SourceInputModel);

    open spec fn deep_view(&self) -> (Seq<char>, SourceInputModel) {
        (self.key@, self.record.deep_view())
    }
}

proof fn lemma_stitch_one_found(
    m: Seq<(Seq<char>, SourceInputModel)>,
    rec: SourceInputModel,
    i: int,
)
    requires
        0 <= i < m.len(),
        m[i].0 == spec_dedupe_key(rec),
        forall|j: int| 0 <= j < i ==> (#[trigger] m[j]).0 != spec_dedupe_key(rec),
    ensures
        spec_stitch_one(m, rec) == (if m[i].1.inspected_at_ms < rec.inspected_at_ms {
            m.update(i, (m[i].0, rec))
        } else {
            m
        }),
    decreases i,
{
    if i == 0 {
        if m[0].1.inspected_at_ms < rec.inspected_at_ms {
            assert(seq![(m[0].0, rec)] + m.drop_first() =~= m.update(0, (m[0].0, rec)));
        }
    } else {
        assert(m[0].0 != spec_dedupe_key(rec));
        lemma_stitch_one_found(m.drop_first(), rec, i - 1);
        assert(m.drop_first()[i - 1] == m[i]);
        if m[i].1.inspected_at_ms < rec.inspected_at_ms {
            assert(seq![m[0]] + m.drop_first().update(i - 1, (m[i].0, rec)) =~= m.update(
                i,
                (m[i].0, rec),
            ));
        } else {
            assert(seq![m[0]] + m.drop_first() =~= m);
        }
    }
}

proof fn lemma_stitch_one_missing(m: Seq<(Seq<char>, SourceInputModel)>, rec: SourceInputModel)
    requires
        forall|j: int| 0 <= j < m.len() ==> (#[trigger] m[j]).0 != spec_dedupe_key(rec),
    ensures
        spec_stitch_one(m, rec) == m.push((spec_dedupe_key(rec), rec)),
    decreases m.len(),
{
    if m.len() == 0 {
        assert(spec_stitch_one(m, rec) =~= m.push((spec_dedupe_key(rec), rec)));
    } else {
        assert(m[0].0 != spec_dedupe_key(rec));
        lemma_stitch_one_missing(m.drop_first(), rec);
        assert(seq![m[0]] + m.drop_first().push((spec_dedupe_key(rec), rec)) =~= m.push(
            (spec_dedupe_key(rec), rec),
        ));
    }
}

fn stitch_merge(stitched: &mut Vec<StitchEntry>, record: SourceFacilityInput)
    ensures
        final(stitched).deep_view() == spec_stitch_one(
            old(stitched).deep_view(),
            record.deep_view(),
        ),
{
    let key = dedupe_key(&record);
    let ghost m = stitched.deep_view();
    let n = stitched.len();
    let mut i: usize = 0;
    let mut found = false;
    while i < n && !found
        invariant
            n == stitched.len(),
            m == stitched.deep_view(),
            i <= n,
            key@ == spec_dedupe_key(record.deep_view()),
            !found ==> forall|j: int| 0 <= j < i ==> (#[trigger] m[j]).0 != key@,
            found ==> i < n && m[i as int].0 == key@ && forall|j: int|
                0 <= j < i ==> (#[trigger] m[j]).0 != key@,
        decreases n - i + (if found {
            0int
        } else {
            1int
        }),
    {
        if crate::text::str_eq(stitched[i].key.as_str(), key.as_str()) {
            found = true;
        } else {
            i = i + 1;
        }
    }
    if found {
        proof {
            lemma_stitch_one_found(m, record.deep_view(), i as int);
        }
        if stitched[i].record.inspected_at_ms < record.inspected_at_ms {
            let old_entry = stitched.remove(i);
            stitched.insert(i, StitchEntry { key: old_entry.key, record });
            proof {
                assert(stitched.deep_view() =~= m.update(
                    i as int,
                    (m[i as int].0, record.deep_view()),
                ));
            }
        }
    } else {
        proof {
            lemma_stitch_one_missing(m, record.deep_view());
        }
        stitched.push(StitchEntry { key, record });
        proof {
            assert(stitched.deep_view() =~= m.push(
                (spec_dedupe_key(record.deep_view()), record.deep_view()),
            ));
        }
    }
}

/// Stitches every successful connector's records into one deduplicated
/// map: on a key collision the record inspected strictly later wins.
pub fn stitch_outcomes(outcomes: &Vec<ConnectorFetchOutcome>) -> (r: Vec<StitchEntry>)
    ensures
        r.deep_view() == spec_stitch_all(outcomes.deep_view()),
{
    let ghost om = outcomes.deep_view();
    let n = outcomes.len();
    let mut stitched: Vec<StitchEntry> = Vec::new();
    let mut i: usize = 0;
    proof {
        assert(om.subrange(0, 0) =~= Seq::<ConnectorOutcomeModel>::empty());
        assert(stitched.deep_view() =~= spec_stitch_all(om.subrange(0, 0)));
    }
    while i < n
        invariant
            n == outcomes.len(),
            om == outcomes.deep_view(),
            i <= n,
            stitched.deep_view() == spec_stitch_all(om.subrange(0, i as int)),
        decreases n - i,
    {
        proof {
            assert(om.subrange(0, i + 1).drop_last() =~= om.subrange(0, i as int));
            assert(om.subrange(0, i + 1).last() == om[i as int]);
        }
        match &outcomes[i].result {
            Ok(records) => {
                let ghost recs = records.deep_view();
                let m = records.len();
                let mut j: usize = 0;
                proof {
                    assert(recs.subrange(0, m as int) =~= recs);
                }
                while j < m
                    invariant
                        m == records.len(),
                        recs == records.deep_view(),
                        j <= m,
                        spec_stitch_records(spec_stitch_all(om.subrange(0, i as int)), recs)
                            == spec_stitch_records(
                            stitched.deep_view(),
                            recs.subrange(j as int, m as int),
                        ),
                    decreases m - j,
                {
                    let ghost rest = recs.subrange(j as int, m as int);
                    proof {
                        assert(rest[0] == recs[j as int]);
                        assert(rest.drop_first() =~= recs.subrange(j + 1, m as int));
                    }
                    stitch_merge(&mut stitched, records[j].clone());
                    j = j + 1;
                }
                proof {
                    assert(recs.subrange(m as int, m as int) =~= Seq::<SourceInputModel>::empty());
                }
            },
            Err(_) => {},
        }
        i = i + 1;
    }
    proof {
        assert(om.subrange(0, n as int) =~= om);
    }
    stitched
}

/// The most recent system-wide ingestion outcome, empty before the first
/// successful refresh.
#[derive(Debug)]
pub struct IngestionStats {
    pub last_refresh_at_ms: Option<i64>,
    pub unique_facilities: usize,
    pub connector_stats: Vec<ConnectorIngestionStatus>,
}

impl Default for IngestionStats {
    /// No refresh yet: no instant, no facilities, no per-connector stats.
    fn default() -> (r: Self)
        ensures
            r.last_refresh_at_ms is None,
            r.unique_facilities == 0,
            r.connector_stats@.len() == 0,
    {
        IngestionStats { last_refresh_at_ms: None, unique_facilities: 0, connector_stats: Vec::new() }
    }
}

/// The retry schedule of a connector fetch: after failed attempt number
/// `attempt` (counted from one), the seconds to back off before the next
/// try, or `None` once the budget of three attempts is spent.
pub fn retry_backoff_seconds(attempt: usize) -> (r: Option<u64>)
    ensures
        1 <= attempt < 3 ==> r == Some((2 * attempt) as u64),
        !(1 <= attempt < 3) ==> r is None,
{
    if 1 <= attempt && attempt < 3 {
        Some((attempt as u64) * 2)
    } else {
        None
    }
}

/// Orchestrates refresh cycles over the repository.
#[derive(Clone, Copy, Debug)]
pub struct IngestionService;

impl IngestionService {
    /// A new coordinator; the repository handle is passed to each call.
    pub fn new() -> Self {
        IngestionService
    }

    /// Plans one refresh cycle from already-fetched connector outcomes
    /// and the previous unique count: stitch, check the safety gates, and
    /// normalize the winners. On success it yields the new snapshot and
    /// the status to record.
    pub fn plan_refresh(
        &self,
        outcomes: &Vec<ConnectorFetchOutcome>,
        previous_unique: Option<usize>,
        now_ms: i64,
    ) -> (r: Result<(Vec<Facility>, SystemIngestionStatus), RefreshError>)
        ensures
            r matches Err(e) ==> Some(e) == spec_gate_error(outcomes.deep_view(), previous_unique),
            r matches Ok(p) ==> spec_gate_error(outcomes.deep_view(), previous_unique) is None
                && p.0.deep_view() == spec_normalized_all(
                spec_stitch_all(outcomes.deep_view()),
                now_ms,
            ) && p.1.deep_view() == (SystemStatusModel {
                last_refresh_at_ms: now_ms,
                unique_facilities: spec_stitch_all(outcomes.deep_view()).len() as usize,
                connector_stats: spec_stats_of(outcomes.deep_view()),
            }),
    {
        let ghost om = outcomes.deep_view();
        let n = outcomes.len();
        let mut ok_count: usize = 0;
        let mut i: usize = 0;
        proof {
            assert(om.subrange(0, 0) =~= Seq::<ConnectorOutcomeModel>::empty());
        }
        while i < n
            invariant
                n == outcomes.len(),
                om == outcomes.deep_view(),
                i <= n,
                ok_count == spec_count_ok(om.subrange(0, i as int)),
                ok_count <= i,
            decreases n - i,
        {
            proof {
                assert(om.subrange(0, i + 1).drop_last() =~= om.subrange(0, i as int));
                assert(om.subrange(0, i + 1).last() == om[i as int]);
            }
            if outcomes[i].result.is_ok() {
                ok_count = ok_count + 1;
            }
            i = i + 1;
        }
        proof {
            assert(om.subrange(0, n as int) =~= om);
        }
        if ok_count == 0 {
            return Err(RefreshError::NoConnectorSucceeded);
        }
        let stitched = stitch_outcomes(outcomes);
        if stitched.len() == 0 {
            return Err(RefreshError::NoRecords);
        }
        if let Some(prev) = previous_unique {
            let half = prev / 2;
            let minimum_safe = if half > 1 {
                half
            } else {
                1
            };
            if stitched.len() < minimum_safe {
                return Err(RefreshError::BelowSafetyThreshold);
            }
        }
        let trust = TrustScoreService;
        let ghost sm = stitched.deep_view();
        let m = stitched.len();
        let mut facilities: Vec<Facility> = Vec::new();
        let mut j: usize = 0;
        proof {
            assert(facilities.deep_view() =~= spec_normalized_all(sm, now_ms).subrange(0, 0));
        }
        while j < m
            invariant
                m == stitched.len(),
                sm == stitched.deep_view(),
                j <= m,
                facilities.deep_view() == spec_normalized_all(sm, now_ms).subrange(0, j as int),
            decreases m - j,
        {
            let ghost prev = facilities.deep_view();
            facilities.push(normalize_record(&trust, stitched[j].record.clone(), now_ms));
            proof {
                assert(facilities.deep_view() =~= prev.push(spec_normalize_record(
                    sm[j as int].1,
                    now_ms,
                )));
                assert(spec_normalized_all(sm, now_ms).subrange(0, j + 1) =~= spec_normalized_all(
                    sm,
                    now_ms,
                ).subrange(0, j as int).push(spec_normalized_all(sm, now_ms)[j as int]));
            }
            j = j + 1;
        }
        proof {
            assert(spec_normalized_all(sm, now_ms).subrange(
                0,
                spec_normalized_all(sm, now_ms).len() as int,
            ) =~= spec_normalized_all(sm, now_ms));
        }
        let unique_facilities = facilities.len();
        let mut connector_stats: Vec<ConnectorIngestionStatus> = Vec::new();
        let mut k: usize = 0;
        proof {
            assert(connector_stats.deep_view() =~= spec_stats_of(om).subrange(0, 0));
        }
        while k < n
            invariant
                n == outcomes.len(),
                om == outcomes.deep_view(),
                k <= n,
                connector_stats.deep_view() == spec_stats_of(om).subrange(0, k as int),
            decreases n - k,
        {
            let ghost prev = connector_stats.deep_view();
            let status = match &outcomes[k].result {
                Ok(records) => ConnectorIngestionStatus {
                    source: outcomes[k].source.clone(),
                    fetched_records: records.len(),
                    error: None,
                },
                Err(message) => ConnectorIngestionStatus {
                    source: outcomes[k].source.clone(),
                    fetched_records: 0,
                    error: Some(message.clone()),
                },
            };
            connector_stats.push(status);
            proof {
                assert(connector_stats.deep_view() =~= prev.push(spec_stats_of(om)[k as int]));
                assert(spec_stats_of(om).subrange(0, k + 1) =~= spec_stats_of(om).subrange(
                    0,
                    k as int,
                ).push(spec_stats_of(om)[k as int]));
            }
            k = k + 1;
        }
        proof {
            assert(spec_stats_of(om).subrange(0, spec_stats_of(om).len() as int) =~= spec_stats_of(
                om,
            ));
        }
        let status = SystemIngestionStatus {
            last_refresh_at_ms: now_ms,
            unique_facilities,
            connector_stats,
        };
        Ok((facilities, status))
    }

    /// One refresh cycle over already-fetched connector outcomes: stitch,
    /// check the safety gates, normalize and swap. On any gate failure the
    /// repository is left exactly as it was; votes are never touched.
    pub fn refresh_from_results(
        &self,
        repository: &mut InMemoryFacilityRepository,
        outcomes: &Vec<ConnectorFetchOutcome>,
        now_ms: i64,
    ) -> (r: Result<(), RefreshError>)
        ensures
            final(repository).ledger() == old(repository).ledger(),
            r matches Err(e) ==> Some(e) == spec_gate_error(
                outcomes.deep_view(),
                spec_previous_unique(old(repository).status()),
            ) && final(repository).snapshot() == old(repository).snapshot()
                && final(repository).status() == old(repository).status(),
            r is Ok ==> spec_gate_error(
                outcomes.deep_view(),
                spec_previous_unique(old(repository).status()),
            ) is None && final(repository).snapshot() == spec_normalized_all(
                spec_stitch_all(outcomes.deep_view()),
                now_ms,
            ) && final(repository).status() == Some(
                SystemStatusModel {
                    last_refresh_at_ms: now_ms,
                    unique_facilities: spec_stitch_all(outcomes.deep_view()).len() as usize,
                    connector_stats: spec_stats_of(outcomes.deep_view()),
                },
            ),
    {
        let previous_unique = match repository.get_system_ingestion_status() {
            Ok(Some(status)) => Some(status.unique_facilities),
            Ok(None) => None,
            Err(_) => None,
        };
        let (facilities, status) = match self.plan_refresh(outcomes, previous_unique, now_ms) {
            Ok(plan) => plan,
            Err(e) => {
                return Err(e);
            },
        };
        match repository.replace_all(facilities) {
            Ok(_) => {},
            Err(_) => {},
        }
        match repository.set_system_ingestion_status(status) {
            Ok(_) => {},
            Err(_) => {},
        }
        Ok(())
    }

    /// The most recent ingestion status, as stats; empty when none exists.
    pub fn stats(&self, repository: &InMemoryFacilityRepository) -> (r: IngestionStats)
        ensures
            match repository.status() {
                Some(s) => r.last_refresh_at_ms == Some(s.last_refresh_at_ms)
                    && r.unique_facilities == s.unique_facilities
                    && r.connector_stats.deep_view() == s.connector_stats,
                None => r.last_refresh_at_ms is None && r.unique_facilities == 0
                    && r.connector_stats@.len() == 0,
            },
    {
        match repository.get_system_ingestion_status() {
            Ok(Some(status)) => IngestionStats {
                last_refresh_at_ms: Some(status.last_refresh_at_ms),
                unique_facilities: status.unique_facilities,
                connector_stats: status.connector_stats,
            },
            Ok(None) => IngestionStats::default(),
            Err(_) => IngestionStats::default(),
        }
    }
}

} // verus!
