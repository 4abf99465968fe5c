//! What the two requests for one student amount to.

use vstd::prelude::*;
use vstd::string::StringExecFns;
use crate::decimal::{append_decimal, decimal};
use crate::record::{IdentityRecord, ScoreRecord};

verus! {

/// Why the records of a student could not be had.
#[derive(Clone, Copy, Debug, PartialEq, Eq)]
pub enum FetchError {
    /// A request failed in transport.
    Network,
    /// A response body was not a list of records.
    Decode,
    /// A response held an empty list.
    NotFound,
}

/// What came back from one request.
#[derive(Debug)]
pub enum Reply<T> {
    /// The request failed in transport.
    Unreachable,
    /// A response came, but its body could not be read as a list of records.
    Malformed,
    /// The records of the response body, in the order of the body.
    Records(Vec<T>),
}

impl<T> Reply<T> {
    /// Whether the reply is a list without records.
    pub open spec fn is_empty_list(self) -> bool {
        self matches Reply::Records(records) && records@.len() == 0
    }
}

/// What the two replies for one student amount to: the first record of each
/// list when both lists came and hold one; else a transport failure before a
/// malformed body, and a malformed body before an empty list.
pub open spec fn paired(identity: Reply<IdentityRecord>, score: Reply<ScoreRecord>) -> Result<
    (IdentityRecord, ScoreRecord),
    FetchError,
> {
    if identity is Unreachable || score is Unreachable {
        Err(FetchError::Network)
    } else if identity is Malformed || score is Malformed {
        Err(FetchError::Decode)
    } else if identity.is_empty_list() || score.is_empty_list() {
        Err(FetchError::NotFound)
    } else {
        Ok((identity->Records_0@[0], score->Records_0@[0]))
    }
}

/// The fetch result for one student, from the replies to the identity request
/// and to the score request.
pub fn fetch_result(identity: Reply<IdentityRecord>, score: Reply<ScoreRecord>) -> (result: Result<
    (IdentityRecord, ScoreRecord),
    FetchError,
>)
    ensures
        result == paired(identity, score),
{
    match (identity, score) {
        (Reply::Unreachable, _) => Err(FetchError::Network),
        (_, Reply::Unreachable) => Err(FetchError::Network),
        (Reply::Malformed, _) => Err(FetchError::Decode),
        (_, Reply::Malformed) => Err(FetchError::Decode),
        (Reply::Records(mut identities), Reply::Records(mut scores)) => {
            if identities.len() == 0 || scores.len() == 0 {
                Err(FetchError::NotFound)
            } else {
                let first_identity = identities.remove(0);
                let first_score = scores.remove(0);
                Ok((first_identity, first_score))
            }
        },
    }
}

/// How the message about a student without records begins.
pub const MISSING_RECORDS: &'static str = "Failed to fetch data for student ID: ";

/// The message about a student for whom a list came back empty: the fixed
/// beginning, then the identifier in decimal notation.
pub fn missing_records_message(student_id: u32) -> (message: String)
    ensures
        message@ == MISSING_RECORDS@ + decimal(student_id as nat),
{
    let mut message = String::from_str(MISSING_RECORDS);
    append_decimal(&mut message, student_id);
    message
}

} // verus!
