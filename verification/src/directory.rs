//! The query-side facade: token-based text search with facet counts, the
//! detail lookup, and the top-picks listing, each joined with vote
//! summaries; and the vote service that records votes.

use vstd::prelude::*;

use crate::dto::FacilityDetail;
use crate::dto::FacilitySearchResult;
use crate::dto::FacilitySummary;
use crate::dto::FacilitySummaryModel;
use crate::dto::spec_detail_row;
use crate::dto::spec_summary_row;
use crate::dto::to_summary;
use crate::entities::Facility;
use crate::entities::FacilityModel;
use crate::entities::FacilitySearchQuery;
use crate::entities::FacilityVoteSummary;
use crate::entities::ScoreSliceCounts;
use crate::entities::SearchQueryModel;
use crate::entities::VoteValue;
use crate::errors::RepositoryError;
use crate::search::SliceKind;
use crate::search::spec_clip;
use crate::search::spec_keep;
use crate::search::spec_page;
use crate::search::spec_page_end;
use crate::search::spec_page_size;
use crate::search::spec_page_start;
use crate::search::spec_picks_sorted;
use crate::search::spec_ranked;
use crate::search::spec_slice_of;
use crate::search::spec_slice_pred;
use crate::search::spec_sort_mode;
use crate::search::spec_sorted_by_mode;
use crate::search::spec_top_limit;
use crate::store::InMemoryFacilityRepository;
use crate::store::VoteEntryModel;
use crate::store::spec_count_votes;
use crate::store::spec_find_by_id;
use crate::store::spec_summary_of;
use crate::store::spec_upsert;
use crate::text::normalize_for_search;
use crate::text::spec_normalize;
use crate::text::spec_tokens;
use crate::text::spec_tokens_match;
use crate::text::split_tokens;
use crate::text::tokens_match;

verus! {

/// The searchable text of a facility: name, address, city and postal code,
/// space-separated.
pub open spec fn spec_candidate_text(f: FacilityModel) -> Seq<char> {
    f.name + seq![' '] + f.address + seq![' '] + f.city + seq![' '] + f.postal_code
}

/// The normalized text term of a query, empty when none was given.
pub open spec fn spec_dir_term(q: SearchQueryModel) -> Seq<char> {
    match q.q {
        None => Seq::empty(),
        Some(v) => spec_normalize(v),
    }
}

/// The query carries a non-blank text term (before normalization). Only
/// this disables the browse-mode geo filter.
pub open spec fn spec_dir_has_term(q: SearchQueryModel) -> bool {
    q.q matches Some(s) && crate::text::spec_trim(s).len() > 0
}

/// Some candidate token matches the query token.
pub open spec fn spec_any_token_match(cand: Seq<Seq<char>>, qt: Seq<char>) -> bool {
    exists|ci: int| 0 <= ci < cand.len() && spec_tokens_match(#[trigger] cand[ci], qt)
}

/// Every query token matches some candidate token.
pub open spec fn spec_all_tokens_match(cand: Seq<Seq<char>>, query: Seq<Seq<char>>) -> bool {
    forall|ti: int| 0 <= ti < query.len() ==> #[trigger] spec_any_token_match(cand, query[ti])
}

/// The directory search candidate predicate: each token of the normalized
/// term must match a token of the facility's searchable text, the
/// jurisdiction argument must match by code or label, the geo id list
/// prunes browse mode only, and the recent-only filter requires an
/// inspection within the window.
pub open spec fn spec_dir_matches(f: FacilityModel, q: SearchQueryModel, now_ms: i64) -> bool {
    &&& spec_dir_term(q).len() > 0 ==> spec_all_tokens_match(
        spec_tokens(spec_normalize(spec_candidate_text(f))),
        spec_tokens(spec_dir_term(q)),
    )
    &&& crate::search::spec_has_jur_filter(q) ==> crate::search::spec_jurisdiction_match(
        f,
        crate::search::spec_jur_norm(q),
    )
    &&& (if spec_dir_has_term(q) {
        true
    } else {
        match q.geo_within {
            None => true,
            Some(ids) => ids.contains(f.id),
        }
    })
    &&& q.recent_only == Some(true) ==> crate::search::spec_recent_keep(f, now_ms)
}

/// The directory search candidate predicate of one query at one instant.
pub open spec fn spec_dir_pred(q: SearchQueryModel, now_ms: i64) -> spec_fn(FacilityModel) -> bool {
    |f: FacilityModel| spec_dir_matches(f, q, now_ms)
}

/// Summaries of search rows, each joined with its votes from the ledger.
pub open spec fn spec_summary_rows(
    s: Seq<FacilityModel>,
    ledger: Seq<VoteEntryModel>,
) -> Seq<FacilitySummaryModel> {
    s.map_values(|f: FacilityModel| spec_summary_row(f, spec_summary_of(ledger, f.id)))
}

/// Summaries of top-picks rows, each joined with its votes from the ledger.
pub open spec fn spec_pick_rows(
    s: Seq<(FacilityModel, FacilityVoteSummary)>,
    ledger: Seq<VoteEntryModel>,
) -> Seq<FacilitySummaryModel> {
    s.map_values(
        |p: (FacilityModel, FacilityVoteSummary)|
            spec_summary_row(p.0, spec_summary_of(ledger, p.0.id)),
    )
}

/// What the directory search promises: the same staged pipeline as the
/// repository search, with token matching as candidate selection and each
/// returned row joined with its vote summary.
pub open spec fn spec_dir_search_post(
    snap: Seq<FacilityModel>,
    ledger: Seq<VoteEntryModel>,
    q: SearchQueryModel,
    now_ms: i64,
    res_data: Seq<FacilitySummaryModel>,
    res_count: usize,
    res_total: usize,
    res_page: usize,
    res_page_size: usize,
    counts: ScoreSliceCounts,
) -> bool {
    let cands = spec_keep(snap, spec_dir_pred(q, now_ms));
    let sliced = match spec_slice_of(q) {
        None => cands,
        Some(k) => spec_keep(cands, spec_slice_pred(k)),
    };
    &&& counts.all == cands.len()
    &&& counts.elite == spec_keep(cands, spec_slice_pred(SliceKind::Elite)).len()
    &&& counts.solid == spec_keep(cands, spec_slice_pred(SliceKind::Solid)).len()
    &&& counts.watch == spec_keep(cands, spec_slice_pred(SliceKind::Watch)).len()
    &&& counts.all == counts.elite + counts.solid + counts.watch
    &&& res_total == sliced.len()
    &&& spec_slice_of(q) == Some(SliceKind::Elite) ==> res_total == counts.elite
    &&& spec_slice_of(q) == Some(SliceKind::Solid) ==> res_total == counts.solid
    &&& spec_slice_of(q) == Some(SliceKind::Watch) ==> res_total == counts.watch
    &&& res_count == res_data.len()
    &&& res_data.len() <= spec_page_size(q)
    &&& res_data.len() <= res_total
    &&& res_page == spec_page(q)
    &&& res_page_size == spec_page_size(q)
    &&& exists|sorted: Seq<FacilityModel>|
        #[trigger] sorted.to_multiset() == sliced.to_multiset() && spec_sorted_by_mode(
            sorted,
            spec_sort_mode(q),
        ) && spec_summary_rows(
            sorted.subrange(
                spec_page_start(q, sliced.len() as int),
                spec_page_end(q, sliced.len() as int),
            ),
            ledger,
        ) == res_data
}

/// Whether some candidate token matches the query token.
fn any_token_matches(cand: &Vec<String>, qt: &str) -> (r: bool)
    ensures
        r == spec_any_token_match(cand.deep_view(), qt@),
{
    let nc = cand.len();
    let mut ci: usize = 0;
    while ci < nc
        invariant
            nc == cand.len(),
            ci <= nc,
            forall|c: int|
                0 <= c < ci ==> !spec_tokens_match(#[trigger] cand.deep_view()[c], qt@),
        decreases nc - ci,
    {
        if tokens_match(cand[ci].as_str(), qt) {
            proof {
                assert(spec_tokens_match(cand.deep_view()[ci as int], qt@));
            }
            return true;
        }
        ci = ci + 1;
    }
    proof {
        if spec_any_token_match(cand.deep_view(), qt@) {
            let c = choose|c: int|
                0 <= c < cand.deep_view().len() && spec_tokens_match(
                    #[trigger] cand.deep_view()[c],
                    qt@,
                );
            assert(!spec_tokens_match(cand.deep_view()[c], qt@));
        }
    }
    false
}

/// Whether every token of the query matches some candidate token.
fn all_tokens_match(cand: &Vec<String>, query: &Vec<String>) -> (r: bool)
    ensures
        r == spec_all_tokens_match(cand.deep_view(), query.deep_view()),
{
    let nq = query.len();
    let mut ti: usize = 0;
    while ti < nq
        invariant
            nq == query.len(),
            ti <= nq,
            forall|t: int|
                0 <= t < ti ==> #[trigger] spec_any_token_match(
                    cand.deep_view(),
                    query.deep_view()[t],
                ),
        decreases nq - ti,
    {
        if !any_token_matches(cand, query[ti].as_str()) {
            proof {
                assert(!spec_any_token_match(cand.deep_view(), query.deep_view()[ti as int]));
            }
            return false;
        }
        ti = ti + 1;
    }
    true
}

/// The searchable text of a facility as one string.
fn candidate_text(f: &Facility) -> (r: String)
    ensures
        r@ == spec_candidate_text(f.deep_view()),
{
    let mut s = String::new();
    s.append(f.name.as_str());
    crate::text::push_char(&mut s, ' ');
    s.append(f.address.as_str());
    crate::text::push_char(&mut s, ' ');
    s.append(f.city.as_str());
    crate::text::push_char(&mut s, ' ');
    s.append(f.postal_code.as_str());
    proof {
        assert(s@ =~= spec_candidate_text(f.deep_view()));
    }
    s
}

fn dir_matches(
    f: &Facility,
    c: &crate::search::CompiledQuery,
    term_tokens: &Option<Vec<String>>,
    geo: &Option<Vec<String>>,
    now_ms: i64,
    Ghost(q): Ghost<SearchQueryModel>,
) -> (r: bool)
    requires
        crate::search::spec_compiled_wf(*c, q),
        geo.deep_view() == q.geo_within,
        term_tokens.deep_view() == (if spec_dir_term(q).len() > 0 {
            Some(spec_tokens(spec_dir_term(q)))
        } else {
            None::<Seq<Seq<char>>>
        }),
    ensures
        r == spec_dir_matches(f.deep_view(), q, now_ms),
{
    if let Some(tokens) = term_tokens {
        let cand = split_tokens(normalize_for_search(candidate_text(f).as_str()).as_str());
        if !all_tokens_match(&cand, tokens) {
            return false;
        }
    }
    if c.has_jur {
        let code_hit = crate::text::str_eq(f.jurisdiction.code(), c.jnorm.as_str());
        let label_hit = crate::text::eq_ignore_case(f.jurisdiction.label(), c.jnorm.as_str());
        proof {
            crate::text::lemma_lower_idempotent(crate::text::spec_trim(q.jurisdiction->0));
        }
        if !(code_hit || label_hit) {
            return false;
        }
    }
    if !c.has_text {
        if let Some(ids) = geo {
            if !crate::search::in_geo_list(f.id.as_str(), ids) {
                return false;
            }
        }
    }
    if c.recent_only {
        match crate::entities::latest_inspection_ms(f) {
            Some(latest) => {
                if !((latest as i128) >= (now_ms as i128) - 7_776_000_000i128) {
                    return false;
                }
            },
            None => {
                return false;
            },
        }
    }
    true
}

/// The query-side facade over the repository.
#[derive(Clone, Copy, Debug)]
pub struct DirectoryService;

impl DirectoryService {
    /// A new facade; the repository handle is passed to each call.
    pub fn new() -> Self {
        DirectoryService
    }

    /// Token-based search over the snapshot, with facet counts and vote
    /// summaries joined onto the returned page only.
    pub fn search(
        &self,
        repository: &InMemoryFacilityRepository,
        query: &FacilitySearchQuery,
        now_ms: i64,
    ) -> (r: Result<FacilitySearchResult, RepositoryError>)
        requires
            repository.ledger().len() <= i64::MAX as usize,
        ensures
            r matches Ok(res) && spec_dir_search_post(
                repository.snapshot(),
                repository.ledger(),
                query.deep_view(),
                now_ms,
                res.data.deep_view(),
                res.count,
                res.total_count,
                res.page,
                res.page_size,
                res.slice_counts,
            ),
    {
        let ghost q = query.deep_view();
        let c = crate::search::compile_query(query);
        let term_tokens: Option<Vec<String>> = match &query.q {
            Some(v) => {
                let normalized = normalize_for_search(v.as_str());
                if normalized.as_str().is_empty() {
                    None
                } else {
                    Some(split_tokens(normalized.as_str()))
                }
            },
            None => None,
        };
        let facilities = repository.list()?;
        let ghost snap = repository.snapshot();
        let n = facilities.len();
        let mut cands: Vec<Facility> = Vec::new();
        let mut i: usize = 0;
        proof {
            assert(snap.subrange(0, 0) =~= Seq::<FacilityModel>::empty());
            assert(cands.deep_view() =~= spec_keep(snap.subrange(0, 0), spec_dir_pred(q, now_ms)));
        }
        while i < n
            invariant
                n == facilities.len(),
                facilities.deep_view() == snap,
                i <= n,
                q == query.deep_view(),
                crate::search::spec_compiled_wf(c, q),
                term_tokens.deep_view() == (if spec_dir_term(q).len() > 0 {
                    Some(spec_tokens(spec_dir_term(q)))
                } else {
                    None::<Seq<Seq<char>>>
                }),
                cands.deep_view() == spec_keep(
                    snap.subrange(0, i as int),
                    spec_dir_pred(q, now_ms),
                ),
            decreases n - i,
        {
            proof {
                assert(snap.subrange(0, i + 1).drop_last() =~= snap.subrange(0, i as int));
                assert(snap.subrange(0, i + 1).last() == snap[i as int]);
            }
            let keep = dir_matches(&facilities[i], &c, &term_tokens, &query.geo_within, now_ms, Ghost(q));
            if keep {
                let ghost prev = cands.deep_view();
                cands.push(facilities[i].clone());
                proof {
                    assert(cands.deep_view() =~= prev.push(snap[i as int]));
                }
            }
            i = i + 1;
        }
        proof {
            assert(snap.subrange(0, n as int) =~= snap);
        }
        let ghost cm = cands.deep_view();
        let slice_counts = crate::search::slice_counts_of(&cands);
        proof {
            crate::search::lemma_slices_partition(cm);
        }
        let mut sliced: Vec<Facility>;
        match c.slice {
            None => {
                sliced = cands;
            },
            Some(k) => {
                sliced = crate::search::filter_by_slice(&cands, k);
            },
        }
        let ghost sliced_m = match spec_slice_of(q) {
            None => spec_keep(snap, spec_dir_pred(q, now_ms)),
            Some(k) => spec_keep(spec_keep(snap, spec_dir_pred(q, now_ms)), spec_slice_pred(k)),
        };
        proof {
            assert(sliced.deep_view() == sliced_m);
        }
        let total_count = sliced.len();
        crate::search::sort_facilities(&mut sliced, c.mode);
        let ghost sorted_m = sliced.deep_view();
        proof {
            vstd::seq_lib::to_multiset_len(sorted_m);
            vstd::seq_lib::to_multiset_len(sliced_m);
        }
        let len = sliced.len();
        let offset = crate::search::sat_mul(c.page - 1, c.page_size);
        let start = if offset > len {
            len
        } else {
            offset
        };
        let remaining = len - start;
        let take = if c.page_size < remaining {
            c.page_size
        } else {
            remaining
        };
        let mut data: Vec<FacilitySummary> = Vec::new();
        let mut w: usize = start;
        proof {
            assert(data.deep_view() =~= spec_summary_rows(
                sorted_m.subrange(start as int, start as int),
                repository.ledger(),
            ));
        }
        while w < start + take
            invariant
                start + take <= len,
                len == sliced.len(),
                start <= w <= start + take,
                sorted_m == sliced.deep_view(),
                repository.ledger().len() <= i64::MAX as usize,
                data.deep_view() == spec_summary_rows(
                    sorted_m.subrange(start as int, w as int),
                    repository.ledger(),
                ),
            decreases start + take - w,
        {
            let ghost prev = data.deep_view();
            let row = &sliced[w];
            let votes = repository.vote_summary_for(row.id.as_str());
            proof {
                crate::store::lemma_count_votes_le_len(
                    repository.ledger(),
                    row.id@,
                    VoteValue::Like,
                );
                crate::store::lemma_count_votes_le_len(
                    repository.ledger(),
                    row.id@,
                    VoteValue::Dislike,
                );
            }
            data.push(to_summary(row.clone(), votes));
            proof {
                assert(data.deep_view() =~= prev.push(spec_summary_row(
                    sorted_m[w as int],
                    spec_summary_of(repository.ledger(), sorted_m[w as int].id),
                )));
                assert(sorted_m.subrange(start as int, w + 1) =~= sorted_m.subrange(
                    start as int,
                    w as int,
                ).push(sorted_m[w as int]));
                assert(spec_summary_rows(
                    sorted_m.subrange(start as int, w + 1),
                    repository.ledger(),
                ) =~= data.deep_view());
            }
            w = w + 1;
        }
        let count = data.len();
        proof {
            assert(start as int == spec_page_start(q, sliced_m.len() as int));
            assert((start + take) as int == spec_page_end(q, sliced_m.len() as int));
            let spec_cands = spec_keep(snap, spec_dir_pred(q, now_ms));
            let spec_sliced = match spec_slice_of(q) {
                None => spec_cands,
                Some(k) => spec_keep(spec_cands, spec_slice_pred(k)),
            };
            assert(sliced_m == spec_sliced);
            assert(spec_summary_rows(
                sorted_m.subrange(
                    spec_page_start(q, spec_sliced.len() as int),
                    spec_page_end(q, spec_sliced.len() as int),
                ),
                repository.ledger(),
            ) == data.deep_view());
            assert(sorted_m.to_multiset() == spec_sliced.to_multiset());
        }
        Ok(FacilitySearchResult {
            data,
            count,
            total_count,
            page: c.page,
            page_size: c.page_size,
            slice_counts,
        })
    }

    /// The full detail of one facility with its vote summary, or `None`
    /// when the id is unknown.
    pub fn get(&self, repository: &InMemoryFacilityRepository, id: &str) -> (r: Result<
        Option<FacilityDetail>,
        RepositoryError,
    >)
        requires
            repository.ledger().len() <= i64::MAX as usize,
        ensures
            r matches Ok(o) && (match spec_find_by_id(repository.snapshot(), id@) {
                None => o is None,
                Some(fm) => o matches Some(d) && d.deep_view() == spec_detail_row(
                    fm,
                    spec_summary_of(repository.ledger(), fm.id),
                ),
            }),
    {
        let found = repository.get_by_id(id)?;
        let facility = match found {
            None => {
                return Ok(None);
            },
            Some(f) => f,
        };
        let votes = repository.vote_summary_for(facility.id.as_str());
        proof {
            crate::store::lemma_count_votes_le_len(
                repository.ledger(),
                facility.id@,
                VoteValue::Like,
            );
            crate::store::lemma_count_votes_le_len(
                repository.ledger(),
                facility.id@,
                VoteValue::Dislike,
            );
        }
        let latest = crate::entities::latest_inspection_ms(&facility);
        let inspections_count = facility.inspections.len();
        Ok(Some(FacilityDetail {
            id: facility.id,
            source_id: facility.source_id,
            name: facility.name,
            address: facility.address,
            city: facility.city,
            state: facility.state,
            postal_code: facility.postal_code,
            latitude_micro: facility.latitude_micro,
            longitude_micro: facility.longitude_micro,
            jurisdiction: facility.jurisdiction.label().to_owned(),
            trust_score: facility.trust_score,
            inspections_count,
            latest_inspection_at_ms: latest,
            likes: votes.likes,
            dislikes: votes.dislikes,
            vote_score: votes.score(),
        }))
    }

    /// Up to `limit` (clamped to 1..=50) summaries of facilities with at
    /// least one like, in top-picks order.
    pub fn top_picks(&self, repository: &InMemoryFacilityRepository, limit: usize) -> (r: Result<
        Vec<FacilitySummary>,
        RepositoryError,
    >)
        requires
            repository.ledger().len() <= i64::MAX as usize,
        ensures
            r matches Ok(v) && exists|sorted: Seq<(FacilityModel, FacilityVoteSummary)>|
                #[trigger] sorted.to_multiset() == spec_ranked(
                    repository.snapshot(),
                    repository.ledger(),
                ).to_multiset() && spec_picks_sorted(sorted) && v.deep_view() == spec_pick_rows(
                    spec_clip(sorted, spec_top_limit(limit)),
                    repository.ledger(),
                ),
    {
        let picks = repository.top_picks(limit)?;
        let ghost picks_m = picks.deep_view();
        let n = picks.len();
        let mut out: Vec<FacilitySummary> = Vec::new();
        let mut i: usize = 0;
        proof {
            assert(out.deep_view() =~= spec_pick_rows(
                picks_m.subrange(0, 0),
                repository.ledger(),
            ));
        }
        while i < n
            invariant
                n == picks.len(),
                picks_m == picks.deep_view(),
                i <= n,
                repository.ledger().len() <= i64::MAX as usize,
                out.deep_view() == spec_pick_rows(
                    picks_m.subrange(0, i as int),
                    repository.ledger(),
                ),
            decreases n - i,
        {
            let ghost prev = out.deep_view();
            let row = &picks[i];
            let votes = repository.vote_summary_for(row.0.id.as_str());
            proof {
                crate::store::lemma_count_votes_le_len(
                    repository.ledger(),
                    row.0.id@,
                    VoteValue::Like,
                );
                crate::store::lemma_count_votes_le_len(
                    repository.ledger(),
                    row.0.id@,
                    VoteValue::Dislike,
                );
            }
            out.push(to_summary(row.0.clone(), votes));
            proof {
                assert(out.deep_view() =~= prev.push(spec_summary_row(
                    picks_m[i as int].0,
                    spec_summary_of(repository.ledger(), picks_m[i as int].0.id),
                )));
                assert(picks_m.subrange(0, i + 1) =~= picks_m.subrange(0, i as int).push(
                    picks_m[i as int],
                ));
                assert(spec_pick_rows(picks_m.subrange(0, i + 1), repository.ledger())
                    =~= out.deep_view());
            }
            i = i + 1;
        }
        proof {
            assert(picks_m.subrange(0, n as int) =~= picks_m);
        }
        Ok(out)
    }
}

/// Records or flips a voter's vote on a facility.
#[derive(Clone, Copy, Debug)]
pub struct VoteService;

impl VoteService {
    /// A new service; the repository handle is passed to each call.
    pub fn new() -> Self {
        VoteService
    }

    /// Delegates to the repository upsert and returns the refreshed
    /// summary for the facility.
    pub fn record_vote(
        &self,
        repository: &mut InMemoryFacilityRepository,
        facility_id: &str,
        voter_key: &str,
        vote: VoteValue,
    ) -> (r: Result<FacilityVoteSummary, RepositoryError>)
        requires
            old(repository).wf(),
        ensures
            final(repository).wf(),
            final(repository).snapshot() == old(repository).snapshot(),
            final(repository).status() == old(repository).status(),
            final(repository).ledger() == spec_upsert(
                old(repository).ledger(),
                VoteEntryModel { facility_id: facility_id@, voter_key: voter_key@, vote },
            ),
            r matches Ok(s) && s.likes == spec_count_votes(
                final(repository).ledger(),
                facility_id@,
                VoteValue::Like,
            ) && s.dislikes == spec_count_votes(
                final(repository).ledger(),
                facility_id@,
                VoteValue::Dislike,
            ),
    {
        repository.upsert_facility_vote(facility_id, voter_key, vote)
    }
}

} // verus!
