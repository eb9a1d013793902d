//! The snapshot search pipeline: candidate selection, facet counts,
//! score-slice filter, ordering and pagination.
//!
//! The stages run in the fixed order candidate selection, jurisdiction
//! filter, recent-only filter, facet counts, score-slice filter, ordering,
//! pagination. Facet counts are taken before the score-slice filter, the
//! pagination total after it.

use vstd::prelude::*;

use crate::entities::Facility;
use crate::entities::FacilityModel;
use crate::entities::FacilitySearchQuery;
use crate::entities::ScoreSliceCounts;
use crate::entities::SearchQueryModel;
use crate::entities::spec_code;
use crate::entities::spec_label;
use crate::entities::spec_latest_inspection_ms;
use crate::text::contains_str;
use crate::text::eq_ignore_case;
use crate::text::lower_str;
use crate::text::spec_contains;
use crate::text::spec_lower;
use crate::text::spec_trim;
use crate::text::str_eq;
use crate::text::trim_str;

verus! {

/// How many milliseconds of history the recent-only filter admits: 90 days.
pub open spec fn spec_recent_window_ms() -> int {
    7_776_000_000
}

/// Elements of `s` satisfying `pred`, in order.
pub open spec fn spec_keep<A>(s: Seq<A>, pred: spec_fn(A) -> bool) -> Seq<A>
    decreases s.len(),
{
    if s.len() == 0 {
        Seq::empty()
    } else {
        let rest = spec_keep(s.drop_last(), pred);
        if pred(s.last()) {
            rest.push(s.last())
        } else {
            rest
        }
    }
}

/// Every kept element satisfies the predicate, and no more elements are
/// kept than were given.
pub proof fn lemma_keep_sound<A>(s: Seq<A>, pred: spec_fn(A) -> bool)
    ensures
        spec_keep(s, pred).len() <= s.len(),
        forall|i: int|
            0 <= i < spec_keep(s, pred).len() ==> pred(#[trigger] spec_keep(s, pred)[i]),
    decreases s.len(),
{
    if s.len() > 0 {
        lemma_keep_sound(s.drop_last(), pred);
    }
}

/// The query carries a non-blank text term.
pub open spec fn spec_has_text(q: SearchQueryModel) -> bool {
    q.q matches Some(s) && spec_trim(s).len() > 0
}

/// The normalized text term: trimmed and ASCII lower-cased.
pub open spec fn spec_text_term(q: SearchQueryModel) -> Seq<char> {
    spec_lower(spec_trim(q.q->0))
}

/// A facility matches a text term when the term occurs in its lower-cased
/// name, address or city, or anywhere in its postal code.
pub open spec fn spec_text_match(f: FacilityModel, term: Seq<char>) -> bool {
    spec_contains(spec_lower(f.name), term) || spec_contains(spec_lower(f.address), term)
        || spec_contains(spec_lower(f.city), term) || spec_contains(f.postal_code, term)
}

/// The normalized jurisdiction argument: trimmed and lower-cased.
pub open spec fn spec_jur_norm(q: SearchQueryModel) -> Seq<char> {
    spec_lower(spec_trim(q.jurisdiction->0))
}

/// The query restricts the jurisdiction: the argument is present, non-blank
/// and not the wildcard `all`.
pub open spec fn spec_has_jur_filter(q: SearchQueryModel) -> bool {
    q.jurisdiction is Some && spec_jur_norm(q).len() > 0 && spec_jur_norm(q) != "all"@
}

/// A facility matches a jurisdiction argument by code or by label,
/// case-insensitively.
pub open spec fn spec_jurisdiction_match(f: FacilityModel, jnorm: Seq<char>) -> bool {
    spec_code(f.jurisdiction) == jnorm || spec_lower(spec_label(f.jurisdiction)) == jnorm
}

/// The browse-mode geo filter: with a resolved id list, only the listed
/// facilities stay. A query with a text term ignores the geo filter: there
/// geo may only influence ranking, never prune a match.
pub open spec fn spec_geo_keep(f: FacilityModel, q: SearchQueryModel) -> bool {
    if spec_has_text(q) {
        true
    } else {
        match q.geo_within {
            None => true,
            Some(ids) => ids.contains(f.id),
        }
    }
}

/// The recent-only filter: the latest inspection lies within the window.
pub open spec fn spec_recent_keep(f: FacilityModel, now_ms: i64) -> bool {
    spec_latest_inspection_ms(f) matches Some(latest) && latest >= now_ms
        - spec_recent_window_ms()
}

/// The full candidate predicate of the search pipeline, before facet counts
/// and the score-slice filter.
pub open spec fn spec_matches_query(f: FacilityModel, q: SearchQueryModel, now_ms: i64) -> bool {
    &&& spec_has_text(q) ==> spec_text_match(f, spec_text_term(q))
    &&& spec_has_jur_filter(q) ==> spec_jurisdiction_match(f, spec_jur_norm(q))
    &&& spec_geo_keep(f, q)
    &&& q.recent_only == Some(true) ==> spec_recent_keep(f, now_ms)
}

/// Law: a query with a text term selects the same candidates whatever its
/// geo filter holds — geo never prunes a text search.
pub proof fn lemma_text_mode_ignores_geo(
    f: FacilityModel,
    q1: SearchQueryModel,
    q2: SearchQueryModel,
    now_ms: i64,
)
    requires
        spec_has_text(q1),
        q2 == (SearchQueryModel { geo_within: q2.geo_within, ..q1 }),
    ensures
        spec_matches_query(f, q1, now_ms) == spec_matches_query(f, q2, now_ms),
{
}

/// The three score slices.
#[derive(Clone, Copy, Debug, PartialEq, Eq, Structural)]
pub enum SliceKind {
    Elite,
    Solid,
    Watch,
}

/// Membership of a facility in a score slice: elite is a trust score of at
/// least 90, solid at least 80 but below 90, watch below 80.
pub open spec fn spec_in_slice(f: FacilityModel, k: SliceKind) -> bool {
    match k {
        SliceKind::Elite => f.trust_score >= 90,
        SliceKind::Solid => f.trust_score >= 80 && f.trust_score < 90,
        SliceKind::Watch => f.trust_score < 80,
    }
}

/// The score-slice filter the query asks for, if any.
pub open spec fn spec_slice_of(q: SearchQueryModel) -> Option<SliceKind> {
    match q.score_slice {
        None => None,
        Some(s) => {
            let norm = spec_lower(spec_trim(s));
            if norm == "elite"@ {
                Some(SliceKind::Elite)
            } else if norm == "solid"@ {
                Some(SliceKind::Solid)
            } else if norm == "watch"@ {
                Some(SliceKind::Watch)
            } else {
                None
            }
        },
    }
}

/// The membership predicate of one score slice.
pub open spec fn spec_slice_pred(k: SliceKind) -> spec_fn(FacilityModel) -> bool {
    |f: FacilityModel| spec_in_slice(f, k)
}

/// The candidate predicate of one query at one instant.
pub open spec fn spec_query_pred(q: SearchQueryModel, now_ms: i64) -> spec_fn(FacilityModel) -> bool {
    |f: FacilityModel| spec_matches_query(f, q, now_ms)
}

/// Law: the three slices partition any candidate set, so
/// `all == elite + solid + watch` holds of every facet count.
pub proof fn lemma_slices_partition(s: Seq<FacilityModel>)
    ensures
        spec_keep(s, spec_slice_pred(SliceKind::Elite)).len() + spec_keep(
            s,
            spec_slice_pred(SliceKind::Solid),
        ).len() + spec_keep(s, spec_slice_pred(SliceKind::Watch)).len() == s.len(),
    decreases s.len(),
{
    if s.len() > 0 {
        lemma_slices_partition(s.drop_last());
    }
}

/// The requested ordering.
#[derive(Clone, Copy, Debug, PartialEq, Eq, Structural)]
pub enum SortMode {
    RecentDesc,
    NameAsc,
    Default,
}

/// The ordering the query asks for.
pub open spec fn spec_sort_mode(q: SearchQueryModel) -> SortMode {
    match q.sort {
        None => SortMode::Default,
        Some(s) => {
            let norm = spec_lower(spec_trim(s));
            if norm == "recent_desc"@ {
                SortMode::RecentDesc
            } else if norm == "name_asc"@ {
                SortMode::NameAsc
            } else {
                SortMode::Default
            }
        },
    }
}

/// The latest-inspection key with absent instants ordered below all others.
pub open spec fn spec_opt_val(o: Option<i64>) -> int {
    match o {
        None => i64::MIN - 1,
        Some(v) => v as int,
    }
}

/// The "comes no later than" relation of each ordering. `RecentDesc` orders
/// by latest inspection descending with missing inspections last, then
/// trust score descending; `NameAsc` by name; the default by trust score
/// descending, then last update descending.
pub open spec fn spec_rank_le(m: SortMode, a: FacilityModel, b: FacilityModel) -> bool {
    match m {
        SortMode::RecentDesc => {
            let la = spec_opt_val(spec_latest_inspection_ms(a));
            let lb = spec_opt_val(spec_latest_inspection_ms(b));
            la > lb || (la == lb && a.trust_score >= b.trust_score)
        },
        SortMode::NameAsc => crate::text::spec_str_le(a.name, b.name),
        SortMode::Default => {
            a.trust_score > b.trust_score || (a.trust_score == b.trust_score && a.updated_at_ms
                >= b.updated_at_ms)
        },
    }
}

/// A sequence sorted by the given ordering.
pub open spec fn spec_sorted_by_mode(s: Seq<FacilityModel>, m: SortMode) -> bool {
    forall|i: int, j: int| 0 <= i < j < s.len() ==> spec_rank_le(m, #[trigger] s[i], #[trigger] s[j])
}

proof fn lemma_rank_le_total(m: SortMode, a: FacilityModel, b: FacilityModel)
    ensures
        spec_rank_le(m, a, b) || spec_rank_le(m, b, a),
{
    if m == SortMode::NameAsc {
        crate::text::lemma_str_le_total(a.name, b.name);
    }
}

proof fn lemma_rank_le_trans(m: SortMode, a: FacilityModel, b: FacilityModel, c: FacilityModel)
    requires
        spec_rank_le(m, a, b),
        spec_rank_le(m, b, c),
    ensures
        spec_rank_le(m, a, c),
{
    if m == SortMode::NameAsc {
        crate::text::lemma_str_le_trans(a.name, b.name, c.name);
    }
}

/// Compares two facilities under the given ordering.
fn rank_le(m: SortMode, a: &Facility, b: &Facility) -> (r: bool)
    ensures
        r == spec_rank_le(m, a.deep_view(), b.deep_view()),
{
    match m {
        SortMode::RecentDesc => {
            let la = crate::entities::latest_inspection_ms(a);
            let lb = crate::entities::latest_inspection_ms(b);
            match (la, lb) {
                (Some(x), Some(y)) => x > y || (x == y && a.trust_score >= b.trust_score),
                (Some(_), None) => true,
                (None, Some(_)) => false,
                (None, None) => a.trust_score >= b.trust_score,
            }
        },
        SortMode::NameAsc => crate::text::str_le(a.name.as_str(), b.name.as_str()),
        SortMode::Default => a.trust_score > b.trust_score || (a.trust_score == b.trust_score
            && a.updated_at_ms >= b.updated_at_ms),
    }
}

/// Sorts facilities by the given ordering: the result is a sorted
/// rearrangement of the input.
pub fn sort_facilities(v: &mut Vec<Facility>, m: SortMode)
    ensures
        final(v).deep_view().to_multiset() == old(v).deep_view().to_multiset(),
        spec_sorted_by_mode(final(v).deep_view(), m),
{
    broadcast use vstd::seq_lib::group_to_multiset_ensures;

    let ghost orig = v.deep_view().to_multiset();
    let mut sorted: Vec<Facility> = Vec::new();
    proof {
        assert(sorted.deep_view() =~= Seq::<FacilityModel>::empty());
        assert(sorted.deep_view().to_multiset().add(v.deep_view().to_multiset()) =~= orig);
    }
    while v.len() > 0
        invariant
            sorted.deep_view().to_multiset().add(v.deep_view().to_multiset()) == orig,
            spec_sorted_by_mode(sorted.deep_view(), m),
        decreases v.len(),
    {
        let ghost pre_pop = v.deep_view();
        let x = v.pop().unwrap();
        proof {
            assert(v.deep_view() =~= pre_pop.drop_last());
            assert(pre_pop =~= v.deep_view().push(x.deep_view()));
            vstd::seq_lib::to_multiset_build(v.deep_view(), x.deep_view());
            assert(pre_pop.to_multiset() =~= v.deep_view().to_multiset().insert(x.deep_view()));
        }
        let mut j: usize = 0;
        while j < sorted.len() && rank_le(m, &sorted[j], &x)
            invariant
                j <= sorted.len(),
                forall|k: int|
                    0 <= k < j ==> spec_rank_le(m, #[trigger] sorted.deep_view()[k], x.deep_view()),
            decreases sorted.len() - j,
        {
            j = j + 1;
        }
        let ghost pre_ins = sorted.deep_view();
        let ghost xm = x.deep_view();
        proof {
            if j < sorted.len() {
                lemma_rank_le_total(m, pre_ins[j as int], xm);
            }
        }
        sorted.insert(j, x);
        proof {
            assert(sorted.deep_view() =~= pre_ins.insert(j as int, xm));
            let post = pre_ins.insert(j as int, xm);
            assert(post[j as int] == xm);
            vstd::seq_lib::to_multiset_insert(pre_ins, j as int, xm);
            assert(post.to_multiset() =~= pre_ins.to_multiset().insert(xm));
            assert forall|p: int, q: int| 0 <= p < q < post.len() implies spec_rank_le(
                m,
                #[trigger] post[p],
                #[trigger] post[q],
            ) by {
                if q < j {
                    assert(post[p] == pre_ins[p] && post[q] == pre_ins[q]);
                } else if p > j {
                    assert(post[p] == pre_ins[p - 1] && post[q] == pre_ins[q - 1]);
                } else if p < j && q == j {
                    assert(post[p] == pre_ins[p]);
                    assert(spec_rank_le(m, pre_ins[p], xm));
                } else if p == j && q > j {
                    assert(post[q] == pre_ins[q - 1]);
                    if j < pre_ins.len() {
                        assert(spec_rank_le(m, xm, pre_ins[j as int]));
                        if q - 1 > j {
                            assert(spec_rank_le(m, pre_ins[j as int], pre_ins[q - 1]));
                            lemma_rank_le_trans(m, xm, pre_ins[j as int], pre_ins[q - 1]);
                        }
                    }
                } else if p < j && q > j {
                    assert(post[p] == pre_ins[p] && post[q] == pre_ins[q - 1]);
                    assert(spec_rank_le(m, pre_ins[p], xm));
                    if j < pre_ins.len() {
                        assert(spec_rank_le(m, xm, pre_ins[j as int]));
                        if q - 1 == j {
                            lemma_rank_le_trans(m, pre_ins[p], xm, pre_ins[q - 1]);
                        } else {
                            assert(spec_rank_le(m, pre_ins[j as int], pre_ins[q - 1]));
                            lemma_rank_le_trans(m, pre_ins[p], xm, pre_ins[j as int]);
                            lemma_rank_le_trans(m, pre_ins[p], pre_ins[j as int], pre_ins[q - 1]);
                        }
                    }
                }
            }
        }
    }
    proof {
        assert(v.deep_view().to_multiset().len() == 0);
        assert(sorted.deep_view().to_multiset().add(v.deep_view().to_multiset())
            =~= sorted.deep_view().to_multiset());
    }
    *v = sorted;
}

/// The page asked for, at least 1.
pub open spec fn spec_page(q: SearchQueryModel) -> int {
    let p = match q.page {
        None => 1int,
        Some(v) => v as int,
    };
    if p < 1 {
        1
    } else {
        p
    }
}

/// The page size asked for: `page_size`, else its alias `limit`, else 50,
/// clamped to 1..=200.
pub open spec fn spec_page_size(q: SearchQueryModel) -> int {
    let ps = match q.page_size {
        Some(v) => v as int,
        None => match q.limit {
            Some(v) => v as int,
            None => 50int,
        },
    };
    if ps < 1 {
        1
    } else if ps > 200 {
        200
    } else {
        ps
    }
}

/// Where the returned page starts in the ordered candidate list.
pub open spec fn spec_page_start(q: SearchQueryModel, len: int) -> int {
    let offset = (spec_page(q) - 1) * spec_page_size(q);
    if offset > len {
        len
    } else {
        offset
    }
}

/// Where the returned page ends in the ordered candidate list.
pub open spec fn spec_page_end(q: SearchQueryModel, len: int) -> int {
    let end = spec_page_start(q, len) + spec_page_size(q);
    if end > len {
        len
    } else {
        end
    }
}

/// What `search_facilities` promises: with `cands` the candidates of the
/// query in snapshot order and `sliced` the candidates after the optional
/// score-slice filter, the facet counts are the slice counts of `cands`,
/// the total is the size of `sliced`, and the rows are one page of an
/// ordering of `sliced`.
pub open spec fn spec_search_post(
    snap: Seq<FacilityModel>,
    q: SearchQueryModel,
    now_ms: i64,
    rows: Seq<FacilityModel>,
    total: usize,
    counts: ScoreSliceCounts,
) -> bool {
    let cands = spec_keep(snap, spec_query_pred(q, now_ms));
    let sliced = match spec_slice_of(q) {
        None => cands,
        Some(k) => spec_keep(cands, spec_slice_pred(k)),
    };
    &&& counts.all == cands.len()
    &&& counts.elite == spec_keep(cands, spec_slice_pred(SliceKind::Elite)).len()
    &&& counts.solid == spec_keep(cands, spec_slice_pred(SliceKind::Solid)).len()
    &&& counts.watch == spec_keep(cands, spec_slice_pred(SliceKind::Watch)).len()
    &&& counts.all == counts.elite + counts.solid + counts.watch
    &&& total == sliced.len()
    &&& spec_slice_of(q) == Some(SliceKind::Elite) ==> total == counts.elite
    &&& spec_slice_of(q) == Some(SliceKind::Solid) ==> total == counts.solid
    &&& spec_slice_of(q) == Some(SliceKind::Watch) ==> total == counts.watch
    &&& rows.len() <= spec_page_size(q)
    &&& rows.len() <= total
    &&& exists|sorted: Seq<FacilityModel>|
        #[trigger] sorted.to_multiset() == sliced.to_multiset() && spec_sorted_by_mode(
            sorted,
            spec_sort_mode(q),
        ) && sorted.subrange(
            spec_page_start(q, sliced.len() as int),
            spec_page_end(q, sliced.len() as int),
        ) == rows
}

/// A query with its normalized arguments resolved once.
pub(crate) struct CompiledQuery {
    pub(crate) has_text: bool,
    pub(crate) term: String,
    pub(crate) has_jur: bool,
    pub(crate) jnorm: String,
    pub(crate) slice: Option<SliceKind>,
    pub(crate) mode: SortMode,
    pub(crate) recent_only: bool,
    pub(crate) page: usize,
    pub(crate) page_size: usize,
}

/// The compiled form agrees with the query model.
pub(crate) open spec fn spec_compiled_wf(c: CompiledQuery, q: SearchQueryModel) -> bool {
    &&& c.has_text == spec_has_text(q)
    &&& (c.has_text ==> c.term@ == spec_text_term(q))
    &&& c.has_jur == spec_has_jur_filter(q)
    &&& (c.has_jur ==> c.jnorm@ == spec_jur_norm(q))
    &&& c.slice == spec_slice_of(q)
    &&& c.mode == spec_sort_mode(q)
    &&& c.recent_only == (q.recent_only == Some(true))
    &&& c.page == spec_page(q)
    &&& c.page_size == spec_page_size(q)
}

pub(crate) fn compile_query(query: &FacilitySearchQuery) -> (c: CompiledQuery)
    ensures
        spec_compiled_wf(c, query.deep_view()),
{
    let (has_text, term) = match &query.q {
        Some(s) => {
            let trimmed = trim_str(s.as_str());
            let t = lower_str(trimmed.as_str());
            let nonempty = trimmed.as_str().unicode_len() > 0;
            (nonempty, t)
        },
        None => (false, String::new()),
    };
    let (has_jur, jnorm) = match &query.jurisdiction {
        Some(s) => {
            let trimmed = trim_str(s.as_str());
            let j = lower_str(trimmed.as_str());
            proof {
                crate::text::lemma_lower_len(trimmed@);
            }
            let restricts = j.as_str().unicode_len() > 0 && !str_eq(j.as_str(), "all");
            (restricts, j)
        },
        None => (false, String::new()),
    };
    let slice = match &query.score_slice {
        Some(s) => {
            let norm = lower_str(trim_str(s.as_str()).as_str());
            if str_eq(norm.as_str(), "elite") {
                Some(SliceKind::Elite)
            } else if str_eq(norm.as_str(), "solid") {
                Some(SliceKind::Solid)
            } else if str_eq(norm.as_str(), "watch") {
                Some(SliceKind::Watch)
            } else {
                None
            }
        },
        None => None,
    };
    let mode = match &query.sort {
        Some(s) => {
            let norm = lower_str(trim_str(s.as_str()).as_str());
            if str_eq(norm.as_str(), "recent_desc") {
                SortMode::RecentDesc
            } else if str_eq(norm.as_str(), "name_asc") {
                SortMode::NameAsc
            } else {
                SortMode::Default
            }
        },
        None => SortMode::Default,
    };
    let recent_only = match query.recent_only {
        Some(b) => b,
        None => false,
    };
    let page = match query.page {
        Some(p) => if p < 1 {
            1
        } else {
            p
        },
        None => 1,
    };
    let base_ps = match query.page_size {
        Some(v) => v,
        None => match query.limit {
            Some(v) => v,
            None => 50,
        },
    };
    let page_size = if base_ps < 1 {
        1
    } else if base_ps > 200 {
        200
    } else {
        base_ps
    };
    CompiledQuery { has_text, term, has_jur, jnorm, slice, mode, recent_only, page, page_size }
}

pub(crate) fn in_geo_list(id: &str, ids: &Vec<String>) -> (r: bool)
    ensures
        r == ids.deep_view().contains(id@),
{
    let n = ids.len();
    let mut i: usize = 0;
    while i < n
        invariant
            n == ids.len(),
            i <= n,
            forall|k: int| 0 <= k < i ==> ids.deep_view()[k] != id@,
        decreases n - i,
    {
        if str_eq(ids[i].as_str(), id) {
            proof {
                assert(ids.deep_view()[i as int] == id@);
            }
            return true;
        }
        i = i + 1;
    }
    proof {
        if ids.deep_view().contains(id@) {
            let k = choose|k: int| 0 <= k < ids.deep_view().len() && ids.deep_view()[k] == id@;
            assert(ids.deep_view()[k] != id@);
        }
    }
    false
}

pub(crate) fn matches_query_exec(
    f: &Facility,
    c: &CompiledQuery,
    geo: &Option<Vec<String>>,
    now_ms: i64,
    Ghost(q): Ghost<SearchQueryModel>,
) -> (r: bool)
    requires
        spec_compiled_wf(*c, q),
        geo.deep_view() == q.geo_within,
    ensures
        r == spec_matches_query(f.deep_view(), q, now_ms),
{
    if c.has_text {
        let name_l = lower_str(f.name.as_str());
        let addr_l = lower_str(f.address.as_str());
        let city_l = lower_str(f.city.as_str());
        let hit = contains_str(name_l.as_str(), c.term.as_str()) || contains_str(
            addr_l.as_str(),
            c.term.as_str(),
        ) || contains_str(city_l.as_str(), c.term.as_str()) || contains_str(
            f.postal_code.as_str(),
            c.term.as_str(),
        );
        if !hit {
            return false;
        }
    }
    if c.has_jur {
        let code_hit = str_eq(f.jurisdiction.code(), c.jnorm.as_str());
        let label_hit = eq_ignore_case(f.jurisdiction.label(), c.jnorm.as_str());
        proof {
            crate::text::lemma_lower_idempotent(spec_trim(q.jurisdiction->0));
        }
        if !(code_hit || label_hit) {
            return false;
        }
    }
    if !c.has_text {
        if let Some(ids) = geo {
            if !in_geo_list(f.id.as_str(), ids) {
                return false;
            }
        }
    }
    if c.recent_only {
        match crate::entities::latest_inspection_ms(f) {
            Some(latest) => {
                if !((latest as i128) >= (now_ms as i128) - 7_776_000_000i128) {
                    return false;
                }
            },
            None => {
                return false;
            },
        }
    }
    true
}

/// Whether a facility belongs to a score slice.
pub fn in_slice(f: &Facility, k: SliceKind) -> (r: bool)
    ensures
        r == spec_in_slice(f.deep_view(), k),
{
    match k {
        SliceKind::Elite => f.trust_score >= 90,
        SliceKind::Solid => f.trust_score >= 80 && f.trust_score < 90,
        SliceKind::Watch => f.trust_score < 80,
    }
}

pub(crate) fn sat_mul(a: usize, b: usize) -> (r: usize)
    ensures
        r as int == if a * b > usize::MAX as int {
            usize::MAX as int
        } else {
            a * b
        },
{
    if b == 0 {
        proof {
            assert(a * 0 == 0) by (nonlinear_arith);
        }
        0
    } else if a > usize::MAX / b {
        proof {
            assert(a * b > usize::MAX as int) by (nonlinear_arith)
                requires
                    b >= 1,
                    a > usize::MAX as int / (b as int),
            ;
        }
        usize::MAX
    } else {
        proof {
            assert(a * b <= usize::MAX as int) by (nonlinear_arith)
                requires
                    b >= 1,
                    a <= usize::MAX as int / (b as int),
            ;
        }
        a * b
    }
}


/// A facility matches an autocomplete prefix when the prefix occurs
/// case-insensitively in its name or city, or its postal code starts with
/// the prefix as given.
pub open spec fn spec_auto_match(f: FacilityModel, prefix: Seq<char>) -> bool {
    spec_contains(spec_lower(f.name), spec_lower(prefix)) || spec_contains(
        spec_lower(f.city),
        spec_lower(prefix),
    ) || crate::text::spec_starts_with(f.postal_code, prefix)
}

/// The autocomplete match predicate of one prefix.
pub open spec fn spec_auto_pred(prefix: Seq<char>) -> spec_fn(FacilityModel) -> bool {
    |f: FacilityModel| spec_auto_match(f, prefix)
}

/// The autocomplete limit, clamped to 1..=20.
pub open spec fn spec_auto_limit(limit: usize) -> int {
    if limit < 1 {
        1
    } else if limit > 20 {
        20
    } else {
        limit as int
    }
}

/// The first `k` elements of a sequence, or all of them.
pub open spec fn spec_clip<A>(s: Seq<A>, k: int) -> Seq<A> {
    if s.len() <= k {
        s
    } else {
        s.subrange(0, k)
    }
}

/// The suggestion a facility turns into.
pub open spec fn spec_suggestion_of(f: FacilityModel) -> crate::entities::SuggestionModel {
    crate::entities::SuggestionModel {
        id: f.id,
        name: f.name,
        city: f.city,
        postal_code: f.postal_code,
        trust_score: f.trust_score,
    }
}

/// Whether a facility matches an autocomplete prefix.
pub fn auto_match(f: &Facility, prefix: &str, prefix_lower: &str) -> (r: bool)
    requires
        prefix_lower@ == spec_lower(prefix@),
    ensures
        r == spec_auto_match(f.deep_view(), prefix@),
{
    let name_l = lower_str(f.name.as_str());
    let city_l = lower_str(f.city.as_str());
    contains_str(name_l.as_str(), prefix_lower) || contains_str(city_l.as_str(), prefix_lower)
        || crate::text::starts_with_str(f.postal_code.as_str(), prefix)
}

/// One ranked top-picks row: a facility with its vote summary.
pub open spec fn spec_pick_le(
    a: (FacilityModel, crate::entities::FacilityVoteSummary),
    b: (FacilityModel, crate::entities::FacilityVoteSummary),
) -> bool {
    let sa = a.1.likes as int - a.1.dislikes as int;
    let sb = b.1.likes as int - b.1.dislikes as int;
    ||| a.1.likes > b.1.likes
    ||| (a.1.likes == b.1.likes && sa > sb)
    ||| (a.1.likes == b.1.likes && sa == sb && a.0.trust_score > b.0.trust_score)
    ||| (a.1.likes == b.1.likes && sa == sb && a.0.trust_score == b.0.trust_score
        && a.0.updated_at_ms >= b.0.updated_at_ms)
}

/// A top-picks list ordered by likes, then vote score, then trust score,
/// then last update, all descending.
pub open spec fn spec_picks_sorted(
    s: Seq<(FacilityModel, crate::entities::FacilityVoteSummary)>,
) -> bool {
    forall|i: int, j: int| 0 <= i < j < s.len() ==> spec_pick_le(#[trigger] s[i], #[trigger] s[j])
}

fn pick_le(
    a: &(Facility, crate::entities::FacilityVoteSummary),
    b: &(Facility, crate::entities::FacilityVoteSummary),
) -> (r: bool)
    ensures
        r == spec_pick_le(a.deep_view(), b.deep_view()),
{
    if a.1.likes != b.1.likes {
        return a.1.likes > b.1.likes;
    }
    let ghost sa = a.1.likes as int - a.1.dislikes as int;
    let ghost sb = b.1.likes as int - b.1.dislikes as int;
    if a.1.dislikes != b.1.dislikes {
        return a.1.dislikes < b.1.dislikes;
    }
    if a.0.trust_score != b.0.trust_score {
        return a.0.trust_score > b.0.trust_score;
    }
    a.0.updated_at_ms >= b.0.updated_at_ms
}

/// Sorts top-picks rows into their presentation order.
pub(crate) fn sort_picks(v: &mut Vec<(Facility, crate::entities::FacilityVoteSummary)>)
    ensures
        final(v).deep_view().to_multiset() == old(v).deep_view().to_multiset(),
        spec_picks_sorted(final(v).deep_view()),
{
    broadcast use vstd::seq_lib::group_to_multiset_ensures;

    let ghost orig = v.deep_view().to_multiset();
    let mut sorted: Vec<(Facility, crate::entities::FacilityVoteSummary)> = Vec::new();
    proof {
        assert(sorted.deep_view() =~= Seq::<
            (FacilityModel, crate::entities::FacilityVoteSummary),
        >::empty());
        assert(sorted.deep_view().to_multiset().add(v.deep_view().to_multiset()) =~= orig);
    }
    while v.len() > 0
        invariant
            sorted.deep_view().to_multiset().add(v.deep_view().to_multiset()) == orig,
            spec_picks_sorted(sorted.deep_view()),
        decreases v.len(),
    {
        let ghost pre_pop = v.deep_view();
        let x = v.pop().unwrap();
        proof {
            assert(v.deep_view() =~= pre_pop.drop_last());
            assert(pre_pop =~= v.deep_view().push(x.deep_view()));
            vstd::seq_lib::to_multiset_build(v.deep_view(), x.deep_view());
        }
        let mut j: usize = 0;
        while j < sorted.len() && pick_le(&sorted[j], &x)
            invariant
                j <= sorted.len(),
                forall|k: int|
                    0 <= k < j ==> spec_pick_le(#[trigger] sorted.deep_view()[k], x.deep_view()),
            decreases sorted.len() - j,
        {
            j = j + 1;
        }
        let ghost pre_ins = sorted.deep_view();
        let ghost xm = x.deep_view();
        sorted.insert(j, x);
        proof {
            assert(sorted.deep_view() =~= pre_ins.insert(j as int, xm));
            let post = pre_ins.insert(j as int, xm);
            assert(post[j as int] == xm);
            vstd::seq_lib::to_multiset_insert(pre_ins, j as int, xm);
            assert(post.to_multiset() =~= pre_ins.to_multiset().insert(xm));
            assert forall|p: int, q: int| 0 <= p < q < post.len() implies spec_pick_le(
                #[trigger] post[p],
                #[trigger] post[q],
            ) by {
                if q < j {
                    assert(post[p] == pre_ins[p] && post[q] == pre_ins[q]);
                } else if p > j {
                    assert(post[p] == pre_ins[p - 1] && post[q] == pre_ins[q - 1]);
                } else if p < j && q == j {
                    assert(post[p] == pre_ins[p]);
                    assert(spec_pick_le(pre_ins[p], xm));
                } else if p == j && q > j {
                    assert(post[q] == pre_ins[q - 1]);
                    if j < pre_ins.len() {
                        assert(!spec_pick_le(pre_ins[j as int], xm));
                        assert(spec_pick_le(xm, pre_ins[j as int]));
                        if q - 1 > j {
                            assert(spec_pick_le(pre_ins[j as int], pre_ins[q - 1]));
                        }
                    }
                } else if p < j && q > j {
                    assert(post[p] == pre_ins[p] && post[q] == pre_ins[q - 1]);
                    assert(spec_pick_le(pre_ins[p], xm));
                    if j < pre_ins.len() {
                        assert(spec_pick_le(xm, pre_ins[j as int]));
                        if q - 1 > j {
                            assert(spec_pick_le(pre_ins[j as int], pre_ins[q - 1]));
                        }
                    }
                }
            }
        }
    }
    proof {
        assert(v.deep_view().to_multiset().len() == 0);
        assert(sorted.deep_view().to_multiset().add(v.deep_view().to_multiset())
            =~= sorted.deep_view().to_multiset());
    }
    *v = sorted;
}

/// The suggestions of a facility sequence, in order.
pub open spec fn spec_suggestions_of(s: Seq<FacilityModel>) -> Seq<crate::entities::SuggestionModel> {
    s.map_values(|f: FacilityModel| spec_suggestion_of(f))
}

/// The top-picks limit, clamped to 1..=50.
pub open spec fn spec_top_limit(limit: usize) -> int {
    if limit < 1 {
        1
    } else if limit > 50 {
        50
    } else {
        limit as int
    }
}

/// Facilities paired with their vote summaries from the ledger.
pub open spec fn spec_with_votes(
    snap: Seq<FacilityModel>,
    ledger: Seq<crate::store::VoteEntryModel>,
) -> Seq<(FacilityModel, crate::entities::FacilityVoteSummary)> {
    snap.map_values(
        |f: FacilityModel| (f, crate::store::spec_summary_of(ledger, f.id)),
    )
}

/// Keeps rows with at least one like.
pub open spec fn spec_liked_pred() -> spec_fn(
    (FacilityModel, crate::entities::FacilityVoteSummary),
) -> bool {
    |p: (FacilityModel, crate::entities::FacilityVoteSummary)| p.1.likes > 0
}

/// The top-picks candidate rows: every facility of the snapshot with its
/// summary, restricted to those with at least one like, in snapshot order.
pub open spec fn spec_ranked(
    snap: Seq<FacilityModel>,
    ledger: Seq<crate::store::VoteEntryModel>,
) -> Seq<(FacilityModel, crate::entities::FacilityVoteSummary)> {
    spec_keep(spec_with_votes(snap, ledger), spec_liked_pred())
}

/// The facet counts of a candidate list.
pub(crate) fn slice_counts_of(cands: &Vec<Facility>) -> (r: ScoreSliceCounts)
    ensures
        r.all == cands.deep_view().len(),
        r.elite == spec_keep(cands.deep_view(), spec_slice_pred(SliceKind::Elite)).len(),
        r.solid == spec_keep(cands.deep_view(), spec_slice_pred(SliceKind::Solid)).len(),
        r.watch == spec_keep(cands.deep_view(), spec_slice_pred(SliceKind::Watch)).len(),
{
    let ghost cm = cands.deep_view();
    let m = cands.len();
    let mut elite: usize = 0;
    let mut solid: usize = 0;
    let mut watch: usize = 0;
    let mut j: usize = 0;
    proof {
        assert(cm.subrange(0, 0) =~= Seq::<FacilityModel>::empty());
    }
    while j < m
        invariant
            m == cands.len(),
            j <= m,
            cm == cands.deep_view(),
            elite == spec_keep(cm.subrange(0, j as int), spec_slice_pred(SliceKind::Elite)).len(),
            solid == spec_keep(cm.subrange(0, j as int), spec_slice_pred(SliceKind::Solid)).len(),
            watch == spec_keep(cm.subrange(0, j as int), spec_slice_pred(SliceKind::Watch)).len(),
            elite <= j,
            solid <= j,
            watch <= j,
        decreases m - j,
    {
        proof {
            assert(cm.subrange(0, j + 1).drop_last() =~= cm.subrange(0, j as int));
            assert(cm.subrange(0, j + 1).last() == cm[j as int]);
        }
        if in_slice(&cands[j], SliceKind::Elite) {
            elite = elite + 1;
        } else if in_slice(&cands[j], SliceKind::Solid) {
            solid = solid + 1;
        } else {
            watch = watch + 1;
        }
        j = j + 1;
    }
    proof {
        assert(cm.subrange(0, m as int) =~= cm);
    }
    ScoreSliceCounts { all: m, elite, solid, watch }
}

/// The candidates of one score slice, in order.
pub(crate) fn filter_by_slice(cands: &Vec<Facility>, k: SliceKind) -> (r: Vec<Facility>)
    ensures
        r.deep_view() == spec_keep(cands.deep_view(), spec_slice_pred(k)),
{
    let ghost cm = cands.deep_view();
    let m = cands.len();
    let mut out: Vec<Facility> = Vec::new();
    let mut p: usize = 0;
    proof {
        assert(cm.subrange(0, 0) =~= Seq::<FacilityModel>::empty());
        assert(out.deep_view() =~= spec_keep(cm.subrange(0, 0), spec_slice_pred(k)));
    }
    while p < m
        invariant
            m == cands.len(),
            p <= m,
            cm == cands.deep_view(),
            out.deep_view() == spec_keep(cm.subrange(0, p as int), spec_slice_pred(k)),
        decreases m - p,
    {
        proof {
            assert(cm.subrange(0, p + 1).drop_last() =~= cm.subrange(0, p as int));
            assert(cm.subrange(0, p + 1).last() == cm[p as int]);
        }
        if in_slice(&cands[p], k) {
            let ghost prev = out.deep_view();
            out.push(cands[p].clone());
            proof {
                assert(out.deep_view() =~= prev.push(cm[p as int]));
            }
        }
        p = p + 1;
    }
    proof {
        assert(cm.subrange(0, m as int) =~= cm);
    }
    out
}

} // verus!
