//! The addresses of a student's records at the remote data source.

use vstd::prelude::*;
use vstd::string::StringExecFns;
use crate::decimal::{append_decimal, decimal};

verus! {

/// Where the identity records are, up to the student identifier.
pub const IDENTITY_ENDPOINT: &'static str =
    "https://demo.aeries.net/aeries/api/v5/schools/994/students/";

/// Where the score records are, up to the student identifier.
pub const SCORE_ENDPOINT: &'static str = "https://demo.aeries.net/aeries/api/v5/schools/994/gpas/";

/// The query that authenticates a request.
pub const CERTIFICATE_QUERY: &'static str = "?cert=477abe9e7d27439681d62f4e0de1f5e1";

/// The address of the identity record of a student.
pub open spec fn identity_url_of(id: u32) -> Seq<char> {
    IDENTITY_ENDPOINT@ + decimal(id as nat) + CERTIFICATE_QUERY@
}

/// The address of the score record of a student.
pub open spec fn score_url_of(id: u32) -> Seq<char> {
    SCORE_ENDPOINT@ + decimal(id as nat) + CERTIFICATE_QUERY@
}

/// The two addresses for a student: first that of the score record, then
/// that of the identity record.
pub fn get_urls_for_id(id: u32) -> (urls: (String, String))
    ensures
        urls.0@ == score_url_of(id),
        urls.1@ == identity_url_of(id),
{
    let mut identity_url = String::from_str(IDENTITY_ENDPOINT);
    append_decimal(&mut identity_url, id);
    identity_url.append(CERTIFICATE_QUERY);
    let mut score_url = String::from_str(SCORE_ENDPOINT);
    append_decimal(&mut score_url, id);
    score_url.append(CERTIFICATE_QUERY);
    (score_url, identity_url)
}

} // verus!
