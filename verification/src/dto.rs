//! Query-side data transfer types: the rows the directory service returns.

use vstd::prelude::*;

use crate::entities::Facility;
use crate::entities::FacilityModel;
use crate::entities::FacilityVoteSummary;
use crate::entities::Jurisdiction;
use crate::entities::ScoreSliceCounts;
use crate::entities::Violation;
use crate::entities::ViolationModel;
use crate::entities::spec_label;
use crate::entities::spec_latest_inspection_ms;

verus! {

/// One normalized record handed over by a connector, before stitching.
/// Instants are milliseconds since the Unix epoch, coordinates
/// microdegrees, raw scores hundredths of a point.
#[derive(Debug)]
pub struct SourceFacilityInput {
    pub source_id: String,
    pub name: String,
    pub address: String,
    pub city: String,
    pub state: String,
    pub postal_code: String,
    pub latitude_micro: i64,
    pub longitude_micro: i64,
    pub jurisdiction: Jurisdiction,
    pub inspected_at_ms: i64,
    pub raw_score_centi: Option<i32>,
    pub letter_grade: Option<String>,
    pub placard_status: Option<String>,
    pub violations: Vec<Violation>,
}

/// Mathematical model of a [`SourceFacilityInput`].
pub ghost struct SourceInputModel {
    pub source_id: Seq<char>,
    pub name: Seq<char>,
    pub address: Seq<char>,
    pub city: Seq<char>,
    pub state: Seq<char>,
    pub postal_code: Seq<char>,
    pub latitude_micro: i64,
    pub longitude_micro: i64,
    pub jurisdiction: Jurisdiction,
    pub inspected_at_ms: i64,
    pub raw_score_centi: Option<i32>,
    pub letter_grade: Option<Seq<char>>,
    pub placard_status: Option<Seq<char>>,
    pub violations: Seq<ViolationModel>,
}

impl DeepView for SourceFacilityInput {
    type V = SourceInputModel;

    open spec fn deep_view(&self) -> SourceInputModel {
        SourceInputModel {
            source_id: self.source_id@,
            name: self.name@,
            address: self.address@,
            city: self.city@,
            state: self.state@,
            postal_code: self.postal_code@,
            latitude_micro: self.latitude_micro,
            longitude_micro: self.longitude_micro,
            jurisdiction: self.jurisdiction,
            inspected_at_ms: self.inspected_at_ms,
            raw_score_centi: self.raw_score_centi,
            letter_grade: self.letter_grade.deep_view(),
            placard_status: self.placard_status.deep_view(),
            violations: self.violations.deep_view(),
        }
    }
}

impl Clone for SourceFacilityInput {
    /// A copy with the same model.
    fn clone(&self) -> (r: Self)
        ensures
            r.deep_view() == self.deep_view(),
    {
        SourceFacilityInput {
            source_id: self.source_id.clone(),
            name: self.name.clone(),
            address: self.address.clone(),
            city: self.city.clone(),
            state: self.state.clone(),
            postal_code: self.postal_code.clone(),
            latitude_micro: self.latitude_micro,
            longitude_micro: self.longitude_micro,
            jurisdiction: self.jurisdiction,
            inspected_at_ms: self.inspected_at_ms,
            raw_score_centi: self.raw_score_centi,
            letter_grade: match &self.letter_grade {
                Some(v) => Some(v.clone()),
                None => None,
            },
            placard_status: match &self.placard_status {
                Some(v) => Some(v.clone()),
                None => None,
            },
            violations: crate::entities::clone_violations(&self.violations),
        }
    }
}

/// One search-result or top-picks row.
#[derive(Debug)]
pub struct FacilitySummary {
    pub id: String,
    pub name: String,
    pub address: String,
    pub city: String,
    pub state: String,
    pub postal_code: String,
    pub latitude_micro: i64,
    pub longitude_micro: i64,
    pub jurisdiction: String,
    pub trust_score: u8,
    pub latest_inspection_at_ms: Option<i64>,
    pub likes: u64,
    pub dislikes: u64,
    pub vote_score: i64,
}

/// Mathematical model of a [`FacilitySummary`].
pub ghost struct FacilitySummaryModel {
    pub id: Seq<char>,
    pub name: Seq<char>,
    pub address: Seq<char>,
    pub city: Seq<char>,
    pub state: Seq<char>,
    pub postal_code: Seq<char>,
    pub latitude_micro: i64,
    pub longitude_micro: i64,
    pub jurisdiction: Seq<char>,
    pub trust_score: u8,
    pub latest_inspection_at_ms: Option<i64>,
    pub likes: u64,
    pub dislikes: u64,
    pub vote_score: i64,
}

impl DeepView for FacilitySummary {
    type V = FacilitySummaryModel;

    open spec fn deep_view(&self) -> FacilitySummaryModel {
        FacilitySummaryModel {
            id: self.id@,
            name: self.name@,
            address: self.address@,
            city: self.city@,
            state: self.state@,
            postal_code: self.postal_code@,
            latitude_micro: self.latitude_micro,
            longitude_micro: self.longitude_micro,
            jurisdiction: self.jurisdiction@,
            trust_score: self.trust_score,
            latest_inspection_at_ms: self.latest_inspection_at_ms,
            likes: self.likes,
            dislikes: self.dislikes,
            vote_score: self.vote_score,
        }
    }
}

/// The summary a facility and its vote summary turn into.
pub open spec fn spec_summary_row(f: FacilityModel, votes: FacilityVoteSummary) -> FacilitySummaryModel {
    FacilitySummaryModel {
        id: f.id,
        name: f.name,
        address: f.address,
        city: f.city,
        state: f.state,
        postal_code: f.postal_code,
        latitude_micro: f.latitude_micro,
        longitude_micro: f.longitude_micro,
        jurisdiction: spec_label(f.jurisdiction),
        trust_score: f.trust_score,
        latest_inspection_at_ms: spec_latest_inspection_ms(f),
        likes: votes.likes,
        dislikes: votes.dislikes,
        vote_score: (votes.likes - votes.dislikes) as i64,
    }
}

/// Builds the presentation row of a facility with its votes.
pub fn to_summary(facility: Facility, vote_summary: FacilityVoteSummary) -> (r: FacilitySummary)
    requires
        vote_summary.likes <= i64::MAX as u64,
        vote_summary.dislikes <= i64::MAX as u64,
    ensures
        r.deep_view() == spec_summary_row(facility.deep_view(), vote_summary),
{
    let latest = crate::entities::latest_inspection_ms(&facility);
    FacilitySummary {
        id: facility.id,
        name: facility.name,
        address: facility.address,
        city: facility.city,
        state: facility.state,
        postal_code: facility.postal_code,
        latitude_micro: facility.latitude_micro,
        longitude_micro: facility.longitude_micro,
        jurisdiction: facility.jurisdiction.label().to_owned(),
        trust_score: facility.trust_score,
        latest_inspection_at_ms: latest,
        likes: vote_summary.likes,
        dislikes: vote_summary.dislikes,
        vote_score: vote_summary.score(),
    }
}

/// The full detail row of one facility.
#[derive(Debug)]
pub struct FacilityDetail {
    pub id: String,
    pub source_id: String,
    pub name: String,
    pub address: String,
    pub city: String,
    pub state: String,
    pub postal_code: String,
    pub latitude_micro: i64,
    pub longitude_micro: i64,
    pub jurisdiction: String,
    pub trust_score: u8,
    pub inspections_count: usize,
    pub latest_inspection_at_ms: Option<i64>,
    pub likes: u64,
    pub dislikes: u64,
    pub vote_score: i64,
}

/// Mathematical model of a [`FacilityDetail`].
pub ghost struct FacilityDetailModel {
    pub id: Seq<char>,
    pub source_id: Seq<char>,
    pub name: Seq<char>,
    pub address: Seq<char>,
    pub city: Seq<char>,
    pub state: Seq<char>,
    pub postal_code: Seq<char>,
    pub latitude_micro: i64,
    pub longitude_micro: i64,
    pub jurisdiction: Seq<char>,
    pub trust_score: u8,
    pub inspections_count: usize,
    pub latest_inspection_at_ms: Option<i64>,
    pub likes: u64,
    pub dislikes: u64,
    pub vote_score: i64,
}

impl DeepView for FacilityDetail {
    type V = FacilityDetailModel;

    open spec fn deep_view(&self) -> FacilityDetailModel {
        FacilityDetailModel {
            id: self.id@,
            source_id: self.source_id@,
            name: self.name@,
            address: self.address@,
            city: self.city@,
            state: self.state@,
            postal_code: self.postal_code@,
            latitude_micro: self.latitude_micro,
            longitude_micro: self.longitude_micro,
            jurisdiction: self.jurisdiction@,
            trust_score: self.trust_score,
            inspections_count: self.inspections_count,
            latest_inspection_at_ms: self.latest_inspection_at_ms,
            likes: self.likes,
            dislikes: self.dislikes,
            vote_score: self.vote_score,
        }
    }
}

/// The detail row a facility and its vote summary turn into.
pub open spec fn spec_detail_row(f: FacilityModel, votes: FacilityVoteSummary) -> FacilityDetailModel {
    FacilityDetailModel {
        id: f.id,
        source_id: f.source_id,
        name: f.name,
        address: f.address,
        city: f.city,
        state: f.state,
        postal_code: f.postal_code,
        latitude_micro: f.latitude_micro,
        longitude_micro: f.longitude_micro,
        jurisdiction: spec_label(f.jurisdiction),
        trust_score: f.trust_score,
        inspections_count: f.inspections.len() as usize,
        latest_inspection_at_ms: spec_latest_inspection_ms(f),
        likes: votes.likes,
        dislikes: votes.dislikes,
        vote_score: (votes.likes - votes.dislikes) as i64,
    }
}

/// One page of search results with its facet counts.
#[derive(Debug)]
pub struct FacilitySearchResult {
    pub data: Vec<FacilitySummary>,
    pub count: usize,
    pub total_count: usize,
    pub page: usize,
    pub page_size: usize,
    pub slice_counts: ScoreSliceCounts,
}

} // verus!
