//! Error type shared by every module of the library.
use vstd::prelude::*;
use vstd::string::StringExecFns;
use crate::text::{decimal_parts_spec, message_with_value, value_message};

verus! {

/// Errors reported by validation and construction routines.
///
/// Numeric payloads are fixed-point values (see [`crate::UNIT`]).
#[allow(inconsistent_fields)]
#[derive(Debug, Clone, PartialEq, Eq)]
pub enum SanosError {
    /// A value could not be represented (overflow of the exact arithmetic).
    NonFinite { field: &'static str, value: i64 },
    /// A value lies outside its admissible range `[min, max]`.
    InvalidBound { field: &'static str, value: i64, min: i64, max: i64 },
    /// A structural or ordering requirement is violated.
    InvalidOrdering { msg: &'static str },
    /// A collection that must not be empty is empty.
    EmptyCollection { what: &'static str },
    /// Two entries share a key that must be unique.
    DuplicateKey { what: &'static str, value: i64 },
    /// The at-the-money level of a chain cannot be computed.
    AtmNotComputable { maturity: i64, reason: &'static str },
    /// Any other failure, described in words.
    External { msg: String },
}

/// Text of a fixed-point value.
pub open spec fn number_text(v: i64) -> Seq<char> {
    message_with_value(
        ""@,
        decimal_parts_spec(v).0,
        decimal_parts_spec(v).1,
        decimal_parts_spec(v).2,
        ""@,
    )
}

/// Human-readable description of an error.
pub open spec fn error_text(e: SanosError) -> Seq<char> {
    match e {
        SanosError::NonFinite { field, value } => "non-finite value for "@ + field@ + ": "@
            + number_text(value),
        SanosError::InvalidBound { field, value, min, max } => "value out of bounds for "@
            + field@ + ": "@ + number_text(value) + " not in ["@ + number_text(min) + ", "@
            + number_text(max) + "]"@,
        SanosError::InvalidOrdering { msg } => msg@,
        SanosError::EmptyCollection { what } => "empty collection: "@ + what@,
        SanosError::DuplicateKey { what, value } => "duplicate "@ + what@ + ": "@ + number_text(
            value,
        ),
        SanosError::AtmNotComputable { maturity, reason } => "ATM not computable at T="@
            + number_text(maturity) + ": "@ + reason@,
        SanosError::External { msg } => msg@,
    }
}

fn number(v: i64) -> (r: String)
    ensures
        r@ == number_text(v),
{
    value_message("", v, "")
}

impl SanosError {
    /// Human-readable description of the error.
    pub fn message(&self) -> (r: String)
        ensures
            r@ == error_text(*self),
    {
        match self {
            SanosError::NonFinite { field, value } => {
                let mut s = "non-finite value for ".to_owned();
                s.append(field);
                s.append(": ");
                s.append(number(*value).as_str());
                s
            },
            SanosError::InvalidBound { field, value, min, max } => {
                let mut s = "value out of bounds for ".to_owned();
                s.append(field);
                s.append(": ");
                s.append(number(*value).as_str());
                s.append(" not in [");
                s.append(number(*min).as_str());
                s.append(", ");
                s.append(number(*max).as_str());
                s.append("]");
                s
            },
            SanosError::InvalidOrdering { msg } => (*msg).to_owned(),
            SanosError::EmptyCollection { what } => {
                let mut s = "empty collection: ".to_owned();
                s.append(what);
                s
            },
            SanosError::DuplicateKey { what, value } => {
                let mut s = "duplicate ".to_owned();
                s.append(what);
                s.append(": ");
                s.append(number(*value).as_str());
                s
            },
            SanosError::AtmNotComputable { maturity, reason } => {
                let mut s = "ATM not computable at T=".to_owned();
                s.append(number(*maturity).as_str());
                s.append(": ");
                s.append(reason);
                s
            },
            SanosError::External { msg } => msg.as_str().to_owned(),
        }
    }
}

/// Result type used throughout the library.
pub type SanosResult<T> = Result<T, SanosError>;

/// The outcome of a check whose first failure (if any) is `e`.
pub open spec fn outcome(e: Option<SanosError>) -> SanosResult<()> {
    match e {
        Some(x) => Err(x),
        None => Ok(()),
    }
}

/// The first error among two checks run in order.
pub open spec fn first_of(a: Option<SanosError>, b: Option<SanosError>) -> Option<SanosError> {
    if a is Some {
        a
    } else {
        b
    }
}

} // verus!
