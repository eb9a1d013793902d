//! The in-memory facility repository: the active snapshot, the per-voter
//! vote ledger and the last ingestion status.

use vstd::prelude::*;

use crate::entities::Facility;
use crate::entities::FacilityModel;
use crate::entities::FacilityVoteSummary;
use crate::entities::SystemIngestionStatus;
use crate::entities::SystemStatusModel;
use crate::entities::VoteValue;
use crate::entities::ScoreSliceCounts;
use crate::errors::RepositoryError;
use crate::text::str_eq;

verus! {

/// One row of the vote ledger: a voter's current vote on one facility.
#[derive(Debug)]
pub struct VoteEntry {
    pub facility_id: String,
    pub voter_key: String,
    pub vote: VoteValue,
}

/// Mathematical model of a [`VoteEntry`].
pub ghost struct VoteEntryModel {
    pub facility_id: Seq<char>,
    pub voter_key: Seq<char>,
    pub vote: VoteValue,
}

impl DeepView for VoteEntry {
    type V = VoteEntryModel;

    open spec fn deep_view(&self) -> VoteEntryModel {
        VoteEntryModel {
            facility_id: self.facility_id@,
            voter_key: self.voter_key@,
            vote: self.vote,
        }
    }
}

/// The `(facility, voter)` key of a ledger row.
pub open spec fn spec_same_key(a: VoteEntryModel, b: VoteEntryModel) -> bool {
    a.facility_id == b.facility_id && a.voter_key == b.voter_key
}

/// A well-formed ledger holds at most one row per `(facility, voter)` pair.
pub open spec fn spec_ledger_wf(l: Seq<VoteEntryModel>) -> bool {
    forall|i: int, j: int|
        0 <= i < j < l.len() ==> !spec_same_key(#[trigger] l[i], #[trigger] l[j])
}

/// How many rows of the ledger record the vote `v` on facility `fid`.
pub open spec fn spec_count_votes(l: Seq<VoteEntryModel>, fid: Seq<char>, v: VoteValue) -> nat
    decreases l.len(),
{
    if l.len() == 0 {
        0
    } else {
        spec_count_votes(l.drop_last(), fid, v) + (if l.last().facility_id == fid && l.last().vote
            == v {
            1nat
        } else {
            0nat
        })
    }
}

/// How many rows of the ledger concern facility `fid` at all.
pub open spec fn spec_count_facility(l: Seq<VoteEntryModel>, fid: Seq<char>) -> nat
    decreases l.len(),
{
    if l.len() == 0 {
        0
    } else {
        spec_count_facility(l.drop_last(), fid) + (if l.last().facility_id == fid {
            1nat
        } else {
            0nat
        })
    }
}

/// How many rows carry the `(fid, voter)` key.
pub open spec fn spec_count_key(l: Seq<VoteEntryModel>, fid: Seq<char>, voter: Seq<char>) -> nat
    decreases l.len(),
{
    if l.len() == 0 {
        0
    } else {
        spec_count_key(l.drop_last(), fid, voter) + (if l.last().facility_id == fid
            && l.last().voter_key == voter {
            1nat
        } else {
            0nat
        })
    }
}

/// The current vote of `(fid, voter)`, or `None` when the voter has not
/// voted on that facility.
pub open spec fn spec_find_vote(l: Seq<VoteEntryModel>, fid: Seq<char>, voter: Seq<char>) -> Option<
    VoteValue,
>
    decreases l.len(),
{
    if l.len() == 0 {
        None
    } else if l[0].facility_id == fid && l[0].voter_key == voter {
        Some(l[0].vote)
    } else {
        spec_find_vote(l.drop_first(), fid, voter)
    }
}

/// The ledger after an upsert: the first row with the same key is replaced,
/// and a fresh key is appended at the end.
pub open spec fn spec_upsert(l: Seq<VoteEntryModel>, e: VoteEntryModel) -> Seq<VoteEntryModel>
    decreases l.len(),
{
    if l.len() == 0 {
        seq![e]
    } else if spec_same_key(l[0], e) {
        seq![e] + l.drop_first()
    } else {
        seq![l[0]] + spec_upsert(l.drop_first(), e)
    }
}

/// The vote summary a ledger yields for one facility.
pub open spec fn spec_summary_of(l: Seq<VoteEntryModel>, fid: Seq<char>) -> FacilityVoteSummary {
    FacilityVoteSummary {
        likes: spec_count_votes(l, fid, VoteValue::Like) as u64,
        dislikes: spec_count_votes(l, fid, VoteValue::Dislike) as u64,
    }
}

/// No count exceeds the number of ledger rows.
pub proof fn lemma_count_votes_le_len(l: Seq<VoteEntryModel>, fid: Seq<char>, v: VoteValue)
    ensures
        spec_count_votes(l, fid, v) <= l.len(),
    decreases l.len(),
{
    if l.len() > 0 {
        lemma_count_votes_le_len(l.drop_last(), fid, v);
    }
}

/// The opposite vote.
pub open spec fn spec_opposite(v: VoteValue) -> VoteValue {
    match v {
        VoteValue::Like => VoteValue::Dislike,
        VoteValue::Dislike => VoteValue::Like,
    }
}

/// Law: every vote summary satisfies `likes + dislikes == number of ledger
/// rows for the facility`: each row contributes exactly one vote.
pub proof fn lemma_likes_dislikes_partition(l: Seq<VoteEntryModel>, fid: Seq<char>)
    ensures
        spec_count_votes(l, fid, VoteValue::Like) + spec_count_votes(l, fid, VoteValue::Dislike)
            == spec_count_facility(l, fid),
    decreases l.len(),
{
    if l.len() > 0 {
        lemma_likes_dislikes_partition(l.drop_last(), fid);
    }
}

proof fn lemma_count_key_le_count_facility(l: Seq<VoteEntryModel>, fid: Seq<char>, voter: Seq<char>)
    ensures
        spec_count_key(l, fid, voter) <= spec_count_facility(l, fid),
    decreases l.len(),
{
    if l.len() > 0 {
        lemma_count_key_le_count_facility(l.drop_last(), fid, voter);
    }
}

/// Law: in a well-formed ledger one voter holds at most one row per
/// facility, so a voter contributes at most one to `likes + dislikes`.
pub proof fn lemma_voter_contributes_at_most_one(
    l: Seq<VoteEntryModel>,
    fid: Seq<char>,
    voter: Seq<char>,
)
    requires
        spec_ledger_wf(l),
    ensures
        spec_count_key(l, fid, voter) <= 1,
    decreases l.len(),
{
    if l.len() > 0 {
        assert(spec_ledger_wf(l.drop_last())) by {
            assert(forall|i: int, j: int|
                0 <= i < j < l.drop_last().len() ==> !spec_same_key(
                    #[trigger] l.drop_last()[i],
                    #[trigger] l.drop_last()[j],
                ));
        }
        lemma_voter_contributes_at_most_one(l.drop_last(), fid, voter);
        if l.last().facility_id == fid && l.last().voter_key == voter {
            if spec_count_key(l.drop_last(), fid, voter) > 0 {
                lemma_count_key_positive_has_index(l.drop_last(), fid, voter);
                let i = choose|i: int|
                    0 <= i < l.drop_last().len() && #[trigger] l.drop_last()[i].facility_id == fid
                        && l.drop_last()[i].voter_key == voter;
                assert(spec_same_key(l[i], l[l.len() - 1]));
            }
        }
    }
}

proof fn lemma_count_key_positive_has_index(
    l: Seq<VoteEntryModel>,
    fid: Seq<char>,
    voter: Seq<char>,
)
    requires
        spec_count_key(l, fid, voter) > 0,
    ensures
        exists|i: int|
            0 <= i < l.len() && #[trigger] l[i].facility_id == fid && l[i].voter_key == voter,
    decreases l.len(),
{
    if l.len() > 0 {
        if l.last().facility_id == fid && l.last().voter_key == voter {
            assert(l[l.len() - 1].facility_id == fid && l[l.len() - 1].voter_key == voter);
        } else {
            lemma_count_key_positive_has_index(l.drop_last(), fid, voter);
            let i = choose|i: int|
                0 <= i < l.drop_last().len() && #[trigger] l.drop_last()[i].facility_id == fid
                    && l.drop_last()[i].voter_key == voter;
            assert(l[i].facility_id == fid && l[i].voter_key == voter);
        }
    }
}

/// The in-memory repository. The snapshot is replaced wholesale by
/// `replace_all`; votes outlive snapshots; the status is a single slot.
pub struct InMemoryFacilityRepository {
    facilities: Vec<Facility>,
    ingestion_status: Option<SystemIngestionStatus>,
    votes: Vec<VoteEntry>,
}

impl InMemoryFacilityRepository {
    /// The model of the active snapshot.
    pub closed spec fn snapshot(&self) -> Seq<FacilityModel> {
        self.facilities.deep_view()
    }

    /// The model of the stored ingestion status.
    pub closed spec fn status(&self) -> Option<SystemStatusModel> {
        self.ingestion_status.deep_view()
    }

    /// The model of the vote ledger.
    pub closed spec fn ledger(&self) -> Seq<VoteEntryModel> {
        self.votes.deep_view()
    }

    /// The repository invariant: the ledger has one row per (facility,
    /// voter) pair.
    pub open spec fn wf(&self) -> bool {
        spec_ledger_wf(self.ledger())
    }

    /// An empty repository.
    pub fn new() -> (r: Self)
        ensures
            r.snapshot() == Seq::<FacilityModel>::empty(),
            r.status() is None,
            r.ledger() == Seq::<VoteEntryModel>::empty(),
            r.wf(),
    {
        let r = InMemoryFacilityRepository {
            facilities: Vec::new(),
            ingestion_status: None,
            votes: Vec::new(),
        };
        proof {
            assert(r.snapshot() =~= Seq::<FacilityModel>::empty());
            assert(r.ledger() =~= Seq::<VoteEntryModel>::empty());
        }
        r
    }

    /// Atomically replaces the active snapshot; votes and status are kept.
    pub fn replace_all(&mut self, facilities: Vec<Facility>) -> (r: Result<(), RepositoryError>)
        ensures
            r is Ok,
            final(self).snapshot() == facilities.deep_view(),
            final(self).status() == old(self).status(),
            final(self).ledger() == old(self).ledger(),
    {
        self.facilities = facilities;
        Ok(())
    }

    /// The full snapshot, in insertion order.
    pub fn list(&self) -> (r: Result<Vec<Facility>, RepositoryError>)
        ensures
            r matches Ok(v) && v.deep_view() == self.snapshot(),
    {
        Ok(crate::entities::clone_facilities(&self.facilities))
    }

    /// The facility with the given id, or `None`; the first match wins.
    pub fn get_by_id(&self, id: &str) -> (r: Result<Option<Facility>, RepositoryError>)
        ensures
            r matches Ok(o) && o.deep_view() == spec_find_by_id(self.snapshot(), id@),
    {
        let n = self.facilities.len();
        let mut i: usize = 0;
        proof {
            assert(self.snapshot().subrange(0, n as int) =~= self.snapshot());
        }
        while i < n
            invariant
                n == self.facilities.len(),
                i <= n,
                spec_find_by_id(self.snapshot(), id@) == spec_find_by_id(
                    self.snapshot().subrange(i as int, n as int),
                    id@,
                ),
            decreases n - i,
        {
            let ghost rest = self.snapshot().subrange(i as int, n as int);
            proof {
                assert(rest[0] == self.snapshot()[i as int]);
                assert(rest.drop_first() =~= self.snapshot().subrange(i + 1, n as int));
            }
            let f = &self.facilities[i];
            if str_eq(f.id.as_str(), id) {
                return Ok(Some(f.clone()));
            }
            i = i + 1;
        }
        proof {
            assert(self.snapshot().subrange(n as int, n as int) =~= Seq::<FacilityModel>::empty());
        }
        Ok(None)
    }

    /// Stores the ingestion status, overwriting any previous one.
    pub fn set_system_ingestion_status(&mut self, status: SystemIngestionStatus) -> (r: Result<
        (),
        RepositoryError,
    >)
        ensures
            r is Ok,
            final(self).status() == Some(status.deep_view()),
            final(self).snapshot() == old(self).snapshot(),
            final(self).ledger() == old(self).ledger(),
    {
        self.ingestion_status = Some(status);
        Ok(())
    }

    /// The most recently stored ingestion status, if any.
    pub fn get_system_ingestion_status(&self) -> (r: Result<
        Option<SystemIngestionStatus>,
        RepositoryError,
    >)
        ensures
            r matches Ok(o) && o.deep_view() == self.status(),
    {
        match &self.ingestion_status {
            Some(s) => Ok(Some(s.clone())),
            None => Ok(None),
        }
    }

    /// The aggregated votes of one facility, straight from the ledger.
    pub fn vote_summary_for(&self, facility_id: &str) -> (r: FacilityVoteSummary)
        ensures
            r.likes == spec_count_votes(self.ledger(), facility_id@, VoteValue::Like),
            r.dislikes == spec_count_votes(self.ledger(), facility_id@, VoteValue::Dislike),
    {
        let n = self.votes.len();
        let mut likes: u64 = 0;
        let mut dislikes: u64 = 0;
        let mut i: usize = 0;
        while i < n
            invariant
                n == self.votes.len(),
                i <= n,
                likes == spec_count_votes(
                    self.ledger().subrange(0, i as int),
                    facility_id@,
                    VoteValue::Like,
                ),
                dislikes == spec_count_votes(
                    self.ledger().subrange(0, i as int),
                    facility_id@,
                    VoteValue::Dislike,
                ),
                likes <= i,
                dislikes <= i,
            decreases n - i,
        {
            proof {
                assert(self.ledger().subrange(0, i + 1).drop_last() =~= self.ledger().subrange(
                    0,
                    i as int,
                ));
                assert(self.ledger().subrange(0, i + 1).last() == self.ledger()[i as int]);
            }
            let e = &self.votes[i];
            if str_eq(e.facility_id.as_str(), facility_id) {
                match e.vote {
                    VoteValue::Like => {
                        likes = likes + 1;
                    },
                    VoteValue::Dislike => {
                        dislikes = dislikes + 1;
                    },
                }
            }
            i = i + 1;
        }
        proof {
            assert(self.ledger().subrange(0, n as int) =~= self.ledger());
        }
        FacilityVoteSummary { likes, dislikes }
    }

    /// Inserts or overwrites `(facility_id, voter_key) -> vote` and returns
    /// the refreshed summary for that facility. Overwriting flips a prior
    /// opposite vote; a voter never holds more than one row per facility.
    pub fn upsert_facility_vote(
        &mut self,
        facility_id: &str,
        voter_key: &str,
        vote: VoteValue,
    ) -> (r: Result<FacilityVoteSummary, RepositoryError>)
        requires
            old(self).wf(),
        ensures
            final(self).wf(),
            final(self).snapshot() == old(self).snapshot(),
            final(self).status() == old(self).status(),
            final(self).ledger() == spec_upsert(
                old(self).ledger(),
                VoteEntryModel { facility_id: facility_id@, voter_key: voter_key@, vote },
            ),
            r matches Ok(s) && s.likes == spec_count_votes(
                final(self).ledger(),
                facility_id@,
                VoteValue::Like,
            ) && s.dislikes == spec_count_votes(
                final(self).ledger(),
                facility_id@,
                VoteValue::Dislike,
            ),
    {
        let ghost e = VoteEntryModel { facility_id: facility_id@, voter_key: voter_key@, vote };
        let n = self.votes.len();
        let mut i: usize = 0;
        let mut found = false;
        while i < n && !found
            invariant
                n == self.votes.len(),
                i <= n,
                e == (VoteEntryModel { facility_id: facility_id@, voter_key: voter_key@, vote }),
                !found ==> forall|j: int| 0 <= j < i ==> !spec_same_key(#[trigger] self.ledger()[j], e),
                found ==> i < n && spec_same_key(self.ledger()[i as int], e) && forall|j: int|
                    0 <= j < i ==> !spec_same_key(#[trigger] self.ledger()[j], e),
            decreases n - i + (if found { 0int } else { 1int }),
        {
            let row = &self.votes[i];
            if str_eq(row.facility_id.as_str(), facility_id) && str_eq(
                row.voter_key.as_str(),
                voter_key,
            ) {
                found = true;
            } else {
                i = i + 1;
            }
        }
        let entry = VoteEntry {
            facility_id: facility_id.to_owned(),
            voter_key: voter_key.to_owned(),
            vote,
        };
        let ghost l0 = self.ledger();
        if found {
            self.votes.remove(i);
            self.votes.insert(i, entry);
            proof {
                assert(self.votes.deep_view() =~= l0.update(i as int, e));
                lemma_upsert_found(l0, e, i as int);
                lemma_upsert_wf_found(l0, e, i as int);
            }
        } else {
            self.votes.push(entry);
            proof {
                assert(self.votes.deep_view() =~= l0.push(e));
                lemma_upsert_missing(l0, e);
                assert(spec_ledger_wf(l0.push(e)));
            }
        }
        Ok(self.vote_summary_for(facility_id))
    }
}

/// The facility model found first with the given id.
pub open spec fn spec_find_by_id(s: Seq<FacilityModel>, id: Seq<char>) -> Option<FacilityModel>
    decreases s.len(),
{
    if s.len() == 0 {
        None
    } else if s[0].id == id {
        Some(s[0])
    } else {
        spec_find_by_id(s.drop_first(), id)
    }
}

proof fn lemma_upsert_found(l: Seq<VoteEntryModel>, e: VoteEntryModel, i: int)
    requires
        0 <= i < l.len(),
        spec_same_key(l[i], e),
        forall|j: int| 0 <= j < i ==> !spec_same_key(#[trigger] l[j], e),
    ensures
        spec_upsert(l, e) == l.update(i, e),
    decreases i,
{
    if i == 0 {
        assert(spec_upsert(l, e) == seq![e] + l.drop_first());
        assert(seq![e] + l.drop_first() =~= l.update(0, e));
    } else {
        assert(!spec_same_key(l[0], e));
        lemma_upsert_found(l.drop_first(), e, i - 1);
        assert(l.drop_first()[i - 1] == l[i]);
        assert(seq![l[0]] + l.drop_first().update(i - 1, e) =~= l.update(i, e));
    }
}

proof fn lemma_upsert_wf_found(l: Seq<VoteEntryModel>, e: VoteEntryModel, i: int)
    requires
        0 <= i < l.len(),
        spec_same_key(l[i], e),
        spec_ledger_wf(l),
    ensures
        spec_ledger_wf(l.update(i, e)),
{
    let l2 = l.update(i, e);
    assert forall|p: int, q: int| 0 <= p < q < l2.len() implies !spec_same_key(
        #[trigger] l2[p],
        #[trigger] l2[q],
    ) by {
        if p == i {
            assert(!spec_same_key(l[p], l[q]));
        } else if q == i {
            assert(!spec_same_key(l[p], l[q]));
        } else {
            assert(!spec_same_key(l[p], l[q]));
        }
    }
}

proof fn lemma_upsert_missing(l: Seq<VoteEntryModel>, e: VoteEntryModel)
    requires
        forall|j: int| 0 <= j < l.len() ==> !spec_same_key(#[trigger] l[j], e),
    ensures
        spec_upsert(l, e) == l.push(e),
    decreases l.len(),
{
    if l.len() == 0 {
        assert(spec_upsert(l, e) =~= l.push(e));
    } else {
        assert(!spec_same_key(l[0], e));
        lemma_upsert_missing(l.drop_first(), e);
        assert(seq![l[0]] + l.drop_first().push(e) =~= l.push(e));
    }
}

proof fn lemma_find_vote_none_no_key(l: Seq<VoteEntryModel>, fid: Seq<char>, voter: Seq<char>)
    requires
        spec_find_vote(l, fid, voter) is None,
    ensures
        forall|j: int|
            0 <= j < l.len() ==> !(#[trigger] l[j].facility_id == fid && l[j].voter_key == voter),
    decreases l.len(),
{
    if l.len() > 0 {
        lemma_find_vote_none_no_key(l.drop_first(), fid, voter);
        assert forall|j: int|
            0 <= j < l.len() implies !(#[trigger] l[j].facility_id == fid && l[j].voter_key
            == voter) by {
            if j > 0 {
                assert(l.drop_first()[j - 1] == l[j]);
            }
        }
    }
}

proof fn lemma_find_vote_some_first_index(
    l: Seq<VoteEntryModel>,
    fid: Seq<char>,
    voter: Seq<char>,
) -> (i: int)
    requires
        spec_find_vote(l, fid, voter) is Some,
    ensures
        0 <= i < l.len(),
        l[i].facility_id == fid && l[i].voter_key == voter,
        l[i].vote == spec_find_vote(l, fid, voter)->0,
        forall|j: int|
            0 <= j < i ==> !(#[trigger] l[j].facility_id == fid && l[j].voter_key == voter),
    decreases l.len(),
{
    if l[0].facility_id == fid && l[0].voter_key == voter {
        0
    } else {
        let k = lemma_find_vote_some_first_index(l.drop_first(), fid, voter);
        assert forall|j: int|
            0 <= j < k + 1 implies !(#[trigger] l[j].facility_id == fid && l[j].voter_key
            == voter) by {
            if j > 0 {
                assert(l.drop_first()[j - 1] == l[j]);
            }
        }
        assert(l[k + 1] == l.drop_first()[k]);
        k + 1
    }
}

proof fn lemma_count_votes_update(
    l: Seq<VoteEntryModel>,
    i: int,
    e: VoteEntryModel,
    fid: Seq<char>,
    v: VoteValue,
)
    requires
        0 <= i < l.len(),
    ensures
        spec_count_votes(l.update(i, e), fid, v) + (if l[i].facility_id == fid && l[i].vote == v {
            1nat
        } else {
            0nat
        }) == spec_count_votes(l, fid, v) + (if e.facility_id == fid && e.vote == v {
            1nat
        } else {
            0nat
        }),
    decreases l.len(),
{
    if i == l.len() - 1 {
        assert(l.update(i, e).drop_last() =~= l.drop_last());
        assert(l.update(i, e).last() == e);
    } else {
        assert(l.update(i, e).drop_last() =~= l.drop_last().update(i, e));
        assert(l.update(i, e).last() == l.last());
        lemma_count_votes_update(l.drop_last(), i, e, fid, v);
    }
}

proof fn lemma_count_votes_push(l: Seq<VoteEntryModel>, e: VoteEntryModel, fid: Seq<char>, v: VoteValue)
    ensures
        spec_count_votes(l.push(e), fid, v) == spec_count_votes(l, fid, v) + (if e.facility_id
            == fid && e.vote == v {
            1nat
        } else {
            0nat
        }),
{
    assert(l.push(e).drop_last() =~= l);
    assert(l.push(e).last() == e);
}

/// Law: an upsert moves only the voter's own contribution. On a facility the
/// voter had not voted on, the new vote's count grows by one and the
/// opposite count is unchanged. On a facility the voter had voted on with
/// the opposite value, the flip moves exactly one vote from one count to the
/// other; repeating the same vote changes nothing. Votes on every other
/// facility are untouched.
pub proof fn lemma_upsert_vote_counts(
    l: Seq<VoteEntryModel>,
    fid: Seq<char>,
    voter: Seq<char>,
    v: VoteValue,
)
    requires
        spec_ledger_wf(l),
    ensures
        ({
            let up = spec_upsert(
                l,
                VoteEntryModel { facility_id: fid, voter_key: voter, vote: v },
            );
            match spec_find_vote(l, fid, voter) {
                None => spec_count_votes(up, fid, v) == spec_count_votes(l, fid, v) + 1
                    && spec_count_votes(up, fid, spec_opposite(v)) == spec_count_votes(
                    l,
                    fid,
                    spec_opposite(v),
                ),
                Some(v0) => if v0 == v {
                    spec_count_votes(up, fid, v) == spec_count_votes(l, fid, v)
                        && spec_count_votes(up, fid, spec_opposite(v)) == spec_count_votes(
                        l,
                        fid,
                        spec_opposite(v),
                    )
                } else {
                    spec_count_votes(up, fid, v) == spec_count_votes(l, fid, v) + 1
                        && spec_count_votes(up, fid, v0) == spec_count_votes(l, fid, v0) - 1
                },
            }
        }),
        forall|fid2: Seq<char>, v2: VoteValue|
            fid2 != fid ==> #[trigger] spec_count_votes(
                spec_upsert(l, VoteEntryModel { facility_id: fid, voter_key: voter, vote: v }),
                fid2,
                v2,
            ) == spec_count_votes(l, fid2, v2),
{
    let e = VoteEntryModel { facility_id: fid, voter_key: voter, vote: v };
    let up = spec_upsert(l, e);
    match spec_find_vote(l, fid, voter) {
        None => {
            lemma_find_vote_none_no_key(l, fid, voter);
            assert forall|j: int| 0 <= j < l.len() implies !spec_same_key(#[trigger] l[j], e) by {}
            lemma_upsert_missing(l, e);
            lemma_count_votes_push(l, e, fid, v);
            lemma_count_votes_push(l, e, fid, spec_opposite(v));
            assert forall|fid2: Seq<char>, v2: VoteValue| fid2 != fid implies #[trigger] spec_count_votes(
                up,
                fid2,
                v2,
            ) == spec_count_votes(l, fid2, v2) by {
                lemma_count_votes_push(l, e, fid2, v2);
            }
        },
        Some(v0) => {
            let i = lemma_find_vote_some_first_index(l, fid, voter);
            assert forall|j: int| 0 <= j < i implies !spec_same_key(#[trigger] l[j], e) by {}
            lemma_upsert_found(l, e, i);
            lemma_count_votes_update(l, i, e, fid, v);
            lemma_count_votes_update(l, i, e, fid, spec_opposite(v));
            assert forall|fid2: Seq<char>, v2: VoteValue| fid2 != fid implies #[trigger] spec_count_votes(
                up,
                fid2,
                v2,
            ) == spec_count_votes(l, fid2, v2) by {
                lemma_count_votes_update(l, i, e, fid2, v2);
            }
        },
    }
}

impl InMemoryFacilityRepository {
    /// Runs the search pipeline over the active snapshot and returns one
    /// page of ordered rows, the post-slice total, and the pre-slice facet
    /// counts, as [`spec_search_post`] states.
    pub fn search_facilities(&self, query: &crate::entities::FacilitySearchQuery, now_ms: i64) -> (r: Result<
        (Vec<Facility>, usize, ScoreSliceCounts),
        crate::errors::RepositoryError,
    >)
        ensures
            r matches Ok(t) && crate::search::spec_search_post(
                self.snapshot(),
                query.deep_view(),
                now_ms,
                t.0.deep_view(),
                t.1,
                t.2,
            ),
    {
        let ghost q = query.deep_view();
        let c = crate::search::compile_query(query);
        let mut cands: Vec<Facility> = Vec::new();
        let n = self.facilities.len();
        let mut i: usize = 0;
        proof {
            assert(self.snapshot() =~= self.facilities.deep_view());
            assert(self.snapshot().subrange(0, 0) =~= Seq::<FacilityModel>::empty());
            assert(cands.deep_view() =~= crate::search::spec_keep(
                self.snapshot().subrange(0, 0),
                crate::search::spec_query_pred(q, now_ms),
            ));
        }
        while i < n
            invariant
                n == self.facilities.len(),
                i <= n,
                q == query.deep_view(),
                crate::search::spec_compiled_wf(c, q),
                cands.deep_view() == crate::search::spec_keep(
                    self.snapshot().subrange(0, i as int),
                    crate::search::spec_query_pred(q, now_ms),
                ),
            decreases n - i,
        {
            proof {
                assert(self.snapshot().subrange(0, i + 1).drop_last() =~= self.snapshot().subrange(
                    0,
                    i as int,
                ));
                assert(self.snapshot().subrange(0, i + 1).last() == self.snapshot()[i as int]);
            }
            let keep = crate::search::matches_query_exec(
                &self.facilities[i],
                &c,
                &query.geo_within,
                now_ms,
                Ghost(q),
            );
            if keep {
                let ghost prev = cands.deep_view();
                cands.push(self.facilities[i].clone());
                proof {
                    assert(cands.deep_view() =~= prev.push(self.snapshot()[i as int]));
                }
            }
            i = i + 1;
        }
        proof {
            assert(self.snapshot().subrange(0, n as int) =~= self.snapshot());
        }
        let ghost cm = cands.deep_view();
        let m = cands.len();
        let mut elite: usize = 0;
        let mut solid: usize = 0;
        let mut watch: usize = 0;
        let mut j: usize = 0;
        proof {
            assert(cm.subrange(0, 0) =~= Seq::<FacilityModel>::empty());
        }
        while j < m
            invariant
                m == cands.len(),
                j <= m,
                cm == cands.deep_view(),
                elite == crate::search::spec_keep(cm.subrange(0, j as int), crate::search::spec_slice_pred(crate::search::SliceKind::Elite)).len(),
                solid == crate::search::spec_keep(cm.subrange(0, j as int), crate::search::spec_slice_pred(crate::search::SliceKind::Solid)).len(),
                watch == crate::search::spec_keep(cm.subrange(0, j as int), crate::search::spec_slice_pred(crate::search::SliceKind::Watch)).len(),
                elite <= j,
                solid <= j,
                watch <= j,
            decreases m - j,
        {
            proof {
                assert(cm.subrange(0, j + 1).drop_last() =~= cm.subrange(0, j as int));
                assert(cm.subrange(0, j + 1).last() == cm[j as int]);
            }
            if crate::search::in_slice(&cands[j], crate::search::SliceKind::Elite) {
                elite = elite + 1;
            } else if crate::search::in_slice(&cands[j], crate::search::SliceKind::Solid) {
                solid = solid + 1;
            } else {
                watch = watch + 1;
            }
            j = j + 1;
        }
        proof {
            assert(cm.subrange(0, m as int) =~= cm);
        }
        let slice_counts = crate::entities::ScoreSliceCounts { all: m, elite, solid, watch };
        proof {
            crate::search::lemma_slices_partition(cm);
            crate::search::lemma_keep_sound(self.snapshot(), crate::search::spec_query_pred(q, now_ms));
        }
        let mut sliced: Vec<Facility>;
        match c.slice {
            None => {
                sliced = cands;
            },
            Some(k) => {
                sliced = Vec::new();
                let mut p: usize = 0;
                proof {
                    assert(cm.subrange(0, 0) =~= Seq::<FacilityModel>::empty());
                    assert(sliced.deep_view() =~= crate::search::spec_keep(
                        cm.subrange(0, 0),
                        crate::search::spec_slice_pred(k),
                    ));
                }
                while p < m
                    invariant
                        m == cands.len(),
                        p <= m,
                        cm == cands.deep_view(),
                        sliced.deep_view() == crate::search::spec_keep(
                            cm.subrange(0, p as int),
                            crate::search::spec_slice_pred(k),
                        ),
                    decreases m - p,
                {
                    proof {
                        assert(cm.subrange(0, p + 1).drop_last() =~= cm.subrange(0, p as int));
                        assert(cm.subrange(0, p + 1).last() == cm[p as int]);
                    }
                    if crate::search::in_slice(&cands[p], k) {
                        let ghost prev = sliced.deep_view();
                        sliced.push(cands[p].clone());
                        proof {
                            assert(sliced.deep_view() =~= prev.push(cm[p as int]));
                        }
                    }
                    p = p + 1;
                }
                proof {
                    assert(cm.subrange(0, m as int) =~= cm);
                }
            },
        }
        let ghost sliced_m = match crate::search::spec_slice_of(q) {
            None => crate::search::spec_keep(self.snapshot(), crate::search::spec_query_pred(q, now_ms)),
            Some(k) => crate::search::spec_keep(
                crate::search::spec_keep(self.snapshot(), crate::search::spec_query_pred(q, now_ms)),
                crate::search::spec_slice_pred(k),
            ),
        };
        proof {
            assert(sliced.deep_view() == sliced_m);
            crate::search::lemma_keep_sound(cm, crate::search::spec_slice_pred(crate::search::SliceKind::Elite));
            crate::search::lemma_keep_sound(cm, crate::search::spec_slice_pred(crate::search::SliceKind::Solid));
            crate::search::lemma_keep_sound(cm, crate::search::spec_slice_pred(crate::search::SliceKind::Watch));
        }
        let total = sliced.len();
        crate::search::sort_facilities(&mut sliced, c.mode);
        let ghost sorted_m = sliced.deep_view();
        proof {
            vstd::seq_lib::to_multiset_len(sorted_m);
            vstd::seq_lib::to_multiset_len(sliced_m);
        }
        let len = sliced.len();
        let offset = crate::search::sat_mul(c.page - 1, c.page_size);
        let start = if offset > len {
            len
        } else {
            offset
        };
        let remaining = len - start;
        let take = if c.page_size < remaining {
            c.page_size
        } else {
            remaining
        };
        let mut rows: Vec<Facility> = Vec::new();
        let mut w: usize = start;
        proof {
            assert(rows.deep_view() =~= sorted_m.subrange(start as int, start as int));
        }
        while w < start + take
            invariant
                start + take <= len,
                len == sliced.len(),
                start <= w <= start + take,
                sorted_m == sliced.deep_view(),
                rows.deep_view() == sorted_m.subrange(start as int, w as int),
            decreases start + take - w,
        {
            let ghost prev = rows.deep_view();
            rows.push(sliced[w].clone());
            proof {
                assert(rows.deep_view() =~= prev.push(sorted_m[w as int]));
                assert(sorted_m.subrange(start as int, w + 1) =~= sorted_m.subrange(
                    start as int,
                    w as int,
                ).push(sorted_m[w as int]));
            }
            w = w + 1;
        }
        proof {
            assert(start as int == crate::search::spec_page_start(q, sliced_m.len() as int));
            assert((start + take) as int == crate::search::spec_page_end(q, sliced_m.len() as int));
            assert(sorted_m.subrange(
                crate::search::spec_page_start(q, sliced_m.len() as int),
                crate::search::spec_page_end(q, sliced_m.len() as int),
            ) == rows.deep_view());
            assert(sorted_m.to_multiset() == sliced_m.to_multiset());
            assert(crate::search::spec_sorted_by_mode(sorted_m, crate::search::spec_sort_mode(q)));
            assert(rows.deep_view().len() == take);
            assert(take <= crate::search::spec_page_size(q));
            assert(take <= total);
            let spec_cands = crate::search::spec_keep(
                self.snapshot(),
                crate::search::spec_query_pred(q, now_ms),
            );
            let spec_sliced = match crate::search::spec_slice_of(q) {
                None => spec_cands,
                Some(k) => crate::search::spec_keep(
                    spec_cands,
                    crate::search::spec_slice_pred(k),
                ),
            };
            assert(sliced_m == spec_sliced);
            assert(sorted_m.subrange(
                crate::search::spec_page_start(q, spec_sliced.len() as int),
                crate::search::spec_page_end(q, spec_sliced.len() as int),
            ) == rows.deep_view());
            assert(crate::search::spec_search_post(
                self.snapshot(),
                q,
                now_ms,
                rows.deep_view(),
                total,
                slice_counts,
            ));
        }
        Ok((rows, total, slice_counts))
    }


    /// The aggregated votes of each asked-for facility, in the order the
    /// ids were given.
    pub fn get_facility_vote_summaries(&self, facility_ids: &Vec<String>) -> (r: Result<
        Vec<(String, FacilityVoteSummary)>,
        RepositoryError,
    >)
        ensures
            r matches Ok(v) && v@.len() == facility_ids@.len() && forall|i: int|
                0 <= i < v@.len() ==> (#[trigger] v@[i]).0@ == facility_ids@[i]@ && v@[i].1
                    == spec_summary_of(self.ledger(), facility_ids@[i]@),
    {
        let n = facility_ids.len();
        let mut out: Vec<(String, FacilityVoteSummary)> = Vec::new();
        let mut i: usize = 0;
        while i < n
            invariant
                n == facility_ids.len(),
                i <= n,
                out@.len() == i,
                forall|j: int|
                    0 <= j < i ==> (#[trigger] out@[j]).0@ == facility_ids@[j]@ && out@[j].1
                        == spec_summary_of(self.ledger(), facility_ids@[j]@),
            decreases n - i,
        {
            let id = facility_ids[i].clone();
            let summary = self.vote_summary_for(id.as_str());
            proof {
                lemma_count_votes_le_len(self.ledger(), id@, VoteValue::Like);
                lemma_count_votes_le_len(self.ledger(), id@, VoteValue::Dislike);
            }
            out.push((id, summary));
            i = i + 1;
        }
        Ok(out)
    }

    /// Autocomplete: at most `limit` (clamped to 1..=20) suggestions, in
    /// snapshot order, for facilities whose name or city contains the
    /// prefix case-insensitively or whose postal code starts with it.
    pub fn autocomplete(&self, prefix: &str, limit: usize) -> (r: Result<
        Vec<crate::entities::AutocompleteSuggestion>,
        RepositoryError,
    >)
        ensures
            r matches Ok(v) && v.deep_view() == crate::search::spec_suggestions_of(
                crate::search::spec_clip(
                    crate::search::spec_keep(
                        self.snapshot(),
                        crate::search::spec_auto_pred(prefix@),
                    ),
                    crate::search::spec_auto_limit(limit),
                ),
            ),
    {
        let capped = if limit < 1 {
            1
        } else if limit > 20 {
            20
        } else {
            limit
        };
        let prefix_lower = crate::text::lower_str(prefix);
        let n = self.facilities.len();
        let mut out: Vec<crate::entities::AutocompleteSuggestion> = Vec::new();
        let mut i: usize = 0;
        let ghost pred = crate::search::spec_auto_pred(prefix@);
        proof {
            assert(self.snapshot().subrange(0, 0) =~= Seq::<FacilityModel>::empty());
            assert(out.deep_view() =~= crate::search::spec_suggestions_of(
                crate::search::spec_clip(
                    crate::search::spec_keep(self.snapshot().subrange(0, 0), pred),
                    capped as int,
                ),
            ));
        }
        while i < n
            invariant
                n == self.facilities.len(),
                i <= n,
                1 <= capped <= 20,
                capped as int == crate::search::spec_auto_limit(limit),
                pred == crate::search::spec_auto_pred(prefix@),
                prefix_lower@ == crate::text::spec_lower(prefix@),
                out.deep_view() == crate::search::spec_suggestions_of(
                    crate::search::spec_clip(
                        crate::search::spec_keep(self.snapshot().subrange(0, i as int), pred),
                        capped as int,
                    ),
                ),
                out.len() <= capped,
            decreases n - i,
        {
            let ghost kept = crate::search::spec_keep(
                self.snapshot().subrange(0, i as int),
                pred,
            );
            proof {
                assert(self.snapshot().subrange(0, i + 1).drop_last() =~= self.snapshot().subrange(
                    0,
                    i as int,
                ));
                assert(self.snapshot().subrange(0, i + 1).last() == self.snapshot()[i as int]);
            }
            let f = &self.facilities[i];
            if crate::search::auto_match(f, prefix, prefix_lower.as_str()) && out.len() < capped {
                let ghost prev = out.deep_view();
                out.push(crate::entities::AutocompleteSuggestion {
                    id: f.id.clone(),
                    name: f.name.clone(),
                    city: f.city.clone(),
                    postal_code: f.postal_code.clone(),
                    trust_score: f.trust_score,
                });
                proof {
                    assert(out.deep_view() =~= prev.push(crate::search::spec_suggestion_of(
                        self.snapshot()[i as int],
                    )));
                    assert(kept.len() == prev.len());
                    assert(crate::search::spec_clip(
                        kept.push(self.snapshot()[i as int]),
                        capped as int,
                    ) =~= kept.push(self.snapshot()[i as int]));
                    assert(out.deep_view() =~= crate::search::spec_suggestions_of(
                        kept.push(self.snapshot()[i as int]),
                    ));
                }
            } else {
                proof {
                    if pred(self.snapshot()[i as int]) {
                        assert(out.len() == capped);
                        assert(out.deep_view().len() == capped);
                        assert(crate::search::spec_suggestions_of(
                            crate::search::spec_clip(kept, capped as int),
                        ).len() == crate::search::spec_clip(kept, capped as int).len());
                        assert(crate::search::spec_clip(kept, capped as int).len() == capped);
                        assert(kept.len() >= capped);
                        assert(crate::search::spec_clip(
                            kept.push(self.snapshot()[i as int]),
                            capped as int,
                        ) =~= crate::search::spec_clip(kept, capped as int));
                    }
                }
            }
            i = i + 1;
        }
        proof {
            assert(self.snapshot().subrange(0, n as int) =~= self.snapshot());
        }
        Ok(out)
    }

    /// Top picks: up to `limit` (clamped to 1..=50) facilities with at
    /// least one like, paired with their summaries, ordered by likes, vote
    /// score, trust score and last update, all descending.
    pub fn top_picks(&self, limit: usize) -> (r: Result<
        Vec<(Facility, FacilityVoteSummary)>,
        RepositoryError,
    >)
        ensures
            r matches Ok(v) && exists|sorted: Seq<(FacilityModel, FacilityVoteSummary)>|
                #[trigger] sorted.to_multiset() == crate::search::spec_ranked(
                    self.snapshot(),
                    self.ledger(),
                ).to_multiset() && crate::search::spec_picks_sorted(sorted) && v.deep_view()
                    == crate::search::spec_clip(sorted, crate::search::spec_top_limit(limit)),
    {
        let capped = if limit < 1 {
            1
        } else if limit > 50 {
            50
        } else {
            limit
        };
        let n = self.facilities.len();
        let mut ranked: Vec<(Facility, FacilityVoteSummary)> = Vec::new();
        let mut i: usize = 0;
        proof {
            assert(self.snapshot().subrange(0, 0) =~= Seq::<FacilityModel>::empty());
            assert(crate::search::spec_with_votes(self.snapshot().subrange(0, 0), self.ledger())
                =~= Seq::<(FacilityModel, FacilityVoteSummary)>::empty());
            assert(ranked.deep_view() =~= crate::search::spec_keep(
                crate::search::spec_with_votes(self.snapshot().subrange(0, 0), self.ledger()),
                crate::search::spec_liked_pred(),
            ));
        }
        while i < n
            invariant
                n == self.facilities.len(),
                i <= n,
                ranked.deep_view() == crate::search::spec_keep(
                    crate::search::spec_with_votes(
                        self.snapshot().subrange(0, i as int),
                        self.ledger(),
                    ),
                    crate::search::spec_liked_pred(),
                ),
            decreases n - i,
        {
            let ghost wv = crate::search::spec_with_votes(
                self.snapshot().subrange(0, i as int),
                self.ledger(),
            );
            proof {
                assert(crate::search::spec_with_votes(
                    self.snapshot().subrange(0, i + 1),
                    self.ledger(),
                ).drop_last() =~= wv);
                assert(crate::search::spec_with_votes(
                    self.snapshot().subrange(0, i + 1),
                    self.ledger(),
                ).last() == (
                    self.snapshot()[i as int],
                    spec_summary_of(self.ledger(), self.snapshot()[i as int].id),
                ));
            }
            let f = &self.facilities[i];
            let summary = self.vote_summary_for(f.id.as_str());
            proof {
                lemma_count_votes_le_len(self.ledger(), f.id@, VoteValue::Like);
                lemma_count_votes_le_len(self.ledger(), f.id@, VoteValue::Dislike);
                assert(summary == spec_summary_of(self.ledger(), self.snapshot()[i as int].id));
            }
            if summary.likes > 0 {
                let ghost prev = ranked.deep_view();
                ranked.push((f.clone(), summary));
                proof {
                    assert(ranked.deep_view() =~= prev.push((
                        self.snapshot()[i as int],
                        spec_summary_of(self.ledger(), self.snapshot()[i as int].id),
                    )));
                }
            }
            i = i + 1;
        }
        proof {
            assert(self.snapshot().subrange(0, n as int) =~= self.snapshot());
        }
        crate::search::sort_picks(&mut ranked);
        let ghost sorted_m = ranked.deep_view();
        let len = ranked.len();
        let take = if capped < len {
            capped
        } else {
            len
        };
        let mut out: Vec<(Facility, FacilityVoteSummary)> = Vec::new();
        let mut w: usize = 0;
        proof {
            assert(out.deep_view() =~= sorted_m.subrange(0, 0));
        }
        while w < take
            invariant
                take <= len,
                len == ranked.len(),
                w <= take,
                sorted_m == ranked.deep_view(),
                out.deep_view() == sorted_m.subrange(0, w as int),
            decreases take - w,
        {
            let ghost prev = out.deep_view();
            let row = &ranked[w];
            out.push((row.0.clone(), row.1));
            proof {
                assert(out.deep_view() =~= prev.push(sorted_m[w as int]));
                assert(sorted_m.subrange(0, w + 1) =~= sorted_m.subrange(0, w as int).push(
                    sorted_m[w as int],
                ));
            }
            w = w + 1;
        }
        proof {
            vstd::seq_lib::to_multiset_len(sorted_m);
            vstd::seq_lib::to_multiset_len(crate::search::spec_ranked(
                self.snapshot(),
                self.ledger(),
            ));
            if capped < len {
                assert(out.deep_view() =~= crate::search::spec_clip(
                    sorted_m,
                    crate::search::spec_top_limit(limit),
                ));
            } else {
                assert(sorted_m.subrange(0, len as int) =~= sorted_m);
                assert(out.deep_view() =~= crate::search::spec_clip(
                    sorted_m,
                    crate::search::spec_top_limit(limit),
                ));
            }
        }
        Ok(out)
    }
}

} // verus!
