//! The records that are fetched for a student and the record that is
//! reported for one.

use vstd::prelude::*;
use crate::score::Score;

verus! {

/// Who a student is.
#[derive(Clone, Debug, PartialEq, Eq)]
pub struct IdentityRecord {
    pub first_name: String,
    pub last_name: String,
}

/// An identity record as mathematical data.
pub struct IdentityView {
    pub first_name: Seq<char>,
    pub last_name: Seq<char>,
}

impl View for IdentityRecord {
    type V = IdentityView;

    open spec fn view(&self) -> IdentityView {
        IdentityView { first_name: self.first_name@, last_name: self.last_name@ }
    }
}

/// The numeric metric of a student.
#[derive(Clone, Copy, Debug, PartialEq, Eq)]
pub struct ScoreRecord {
    pub score: Score,
}

/// What is known of one student once both records have arrived.
pub struct StudentView {
    pub identity: IdentityView,
    pub score: Score,
}

/// The mathematical value of a fetched pair of records.
pub open spec fn student_view(pair: (IdentityRecord, ScoreRecord)) -> StudentView {
    StudentView { identity: pair.0@, score: pair.1.score }
}

/// The mathematical values of a list of fetched pairs, in order.
pub open spec fn student_views(pairs: Seq<(IdentityRecord, ScoreRecord)>) -> Seq<StudentView> {
    pairs.map_values(|pair: (IdentityRecord, ScoreRecord)| student_view(pair))
}

/// One row of a report.
#[derive(Clone, Debug, PartialEq, Eq)]
pub struct ReportingRecord {
    pub full_name: String,
    pub score: Score,
    pub matched_labels: Vec<String>,
}

/// A report row as mathematical data.
pub struct ReportingView {
    pub full_name: Seq<char>,
    pub score: Score,
    pub matched_labels: Seq<Seq<char>>,
}

impl View for ReportingRecord {
    type V = ReportingView;

    open spec fn view(&self) -> ReportingView {
        ReportingView {
            full_name: self.full_name@,
            score: self.score,
            matched_labels: self.matched_labels@.map_values(|label: String| label@),
        }
    }
}

/// The views of a list of report rows, in order.
pub open spec fn row_views(rows: Seq<ReportingRecord>) -> Seq<ReportingView> {
    rows.map_values(|row: ReportingRecord| row@)
}

} // verus!
