//! Eligibility reports for students: scores are classified against range
//! rules and the resulting records are ordered by severity.

pub mod aggregate;
pub mod decimal;
pub mod definition;
pub mod endpoint;
pub mod fetch;
pub mod order;
pub mod record;
pub mod report;
pub mod rule;
pub mod score;
