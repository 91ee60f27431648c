//! Monthly sales report over a cursor-paged transaction feed.
//!
//! The crate holds the two pieces of a report run that decide anything:
//! following the feed's cursor chain until it is exhausted ([`paginator`]), and
//! totalling the fetched records overall and per application ([`summary`]).
//! Sending requests and writing files are left to the caller.

use vstd::prelude::*;

pub mod amount;
pub mod api_schema;
pub mod paginator;
pub mod period;
pub mod summary;

verus! {

/// Why a report run ended without a result. Every failure is final: nothing is
/// retried and no partial result is kept.
#[derive(Debug, Clone, Copy, PartialEq, Eq, Structural)]
pub enum ReportError {
    /// A request could not be sent, was answered with an error status, or its
    /// body was not a page of transactions.
    TransportOrParseFailure,
    /// A page announced a successor but held no record to take the next cursor
    /// from.
    ContractViolation,
    /// A record's amount is not decimal text that fits the fixed-point range.
    AmountParseFailure,
}

impl ReportError {
    /// A one-line description for the person running the report.
    pub fn message(&self) -> (text: &'static str)
        ensures
            text@ == (match *self {
                ReportError::TransportOrParseFailure => "request failed or response was not a page of transactions"@,
                ReportError::ContractViolation => "page announced a successor but held no records"@,
                ReportError::AmountParseFailure => "amount is not a decimal number in range"@,
            }),
    {
        match self {
            ReportError::TransportOrParseFailure => "request failed or response was not a page of transactions",
            ReportError::ContractViolation => "page announced a successor but held no records",
            ReportError::AmountParseFailure => "amount is not a decimal number in range",
        }
    }
}

} // verus!
