//! Readings from the metric provider: decoding a reported number, and
//! combining the current and moving-average readings into one report that
//! keeps whichever succeeded.
use vstd::prelude::*;

use crate::errors::{ApiError, EncodeError, FetchError, PublishError};
use crate::fixed::{encode_fixed, fixed_value, is_plain_decimal};

verus! {

/// A reading as the relay uses it, from the provider's decimal text.
pub open spec fn reading_spec(text: Seq<char>) -> Result<u128, ApiError> {
    if !is_plain_decimal(text) {
        Err(ApiError::Fetch(FetchError::Malformed))
    } else if fixed_value(text) > u128::MAX {
        Err(ApiError::Publish(PublishError::EncodingOverflow))
    } else {
        Ok(fixed_value(text) as u128)
    }
}

/// Turns the provider's decimal text into a fixed-point reading. Text that
/// is not a plain decimal is a malformed response; a value past the ledger
/// word cannot be published.
pub fn decode_reading(text: &str) -> (r: Result<u128, ApiError>)
    ensures
        r == reading_spec(text@),
{
    match encode_fixed(text) {
        Ok(v) => Ok(v),
        Err(EncodeError::NotDecimal) => Err(ApiError::Fetch(FetchError::Malformed)),
        Err(EncodeError::Overflow) => Err(ApiError::Publish(PublishError::EncodingOverflow)),
    }
}

/// Which part of a combined report could not be fetched.
#[derive(Clone, Copy, Debug, PartialEq, Eq, Structural)]
pub enum ReportFailure {
    Current,
    MovingAverage,
    Both,
}

/// The current and moving-average readings, each where it was obtained,
/// and which failed.
#[derive(Clone, Copy, Debug, PartialEq, Eq, Structural)]
pub struct AprReport {
    pub current: Option<u128>,
    pub moving_average: Option<u128>,
    pub failure: Option<ReportFailure>,
}

pub open spec fn ok_part(r: Result<u128, ApiError>) -> Option<u128> {
    match r {
        Ok(v) => Some(v),
        Err(_) => None,
    }
}

pub open spec fn failure_of(current: Result<u128, ApiError>, average: Result<u128, ApiError>) -> Option<ReportFailure> {
    match (current, average) {
        (Ok(_), Ok(_)) => None,
        (Err(_), Ok(_)) => Some(ReportFailure::Current),
        (Ok(_), Err(_)) => Some(ReportFailure::MovingAverage),
        (Err(_), Err(_)) => Some(ReportFailure::Both),
    }
}

/// Combines two sub-fetches. A failed one never hides the other's value.
pub fn combine_readings(current: Result<u128, ApiError>, average: Result<u128, ApiError>) -> (r:
    AprReport)
    ensures
        r.current == ok_part(current),
        r.moving_average == ok_part(average),
        r.failure == failure_of(current, average),
{
    let cur = match current {
        Ok(v) => Some(v),
        Err(_) => None,
    };
    let avg = match average {
        Ok(v) => Some(v),
        Err(_) => None,
    };
    let failure = match (cur, avg) {
        (Some(_), Some(_)) => None,
        (None, Some(_)) => Some(ReportFailure::Current),
        (Some(_), None) => Some(ReportFailure::MovingAverage),
        (None, None) => Some(ReportFailure::Both),
    };
    AprReport { current: cur, moving_average: avg, failure }
}

impl AprReport {
    /// A report with no value at all: the whole fetch failed.
    pub fn is_total_failure(&self) -> (r: bool)
        ensures
            r == (self.current is None && self.moving_average is None),
    {
        self.current.is_none() && self.moving_average.is_none()
    }
}

} // verus!
