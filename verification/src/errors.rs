//! The recoverable errors of the calculator, each with the exact message the
//! program reports for it.

use crate::time::TimeError;
use vstd::prelude::*;

verus! {

/// Why a distance- or pace-mode request was rejected.
#[derive(Debug, PartialEq, Eq)]
pub enum PaceError {
    /// The distance or pace token was empty.
    EmptyToken,
    /// The distance token's trailing unit letter is neither `k` nor `m`.
    BadDistanceUnit(char),
    /// The pace token's trailing unit letter is neither `k` nor `m`.
    BadPaceUnit(char),
    /// The duration token was malformed; holds the token and the reason.
    BadTime(String, TimeError),
    /// The distance token's numeric prefix is not an unsigned decimal.
    BadDistanceNumber(String),
    /// The distance has more than twelve digits.
    DistanceTooLarge(String),
    /// The distance is zero, so no pace can be computed from it.
    ZeroDistance(String),
}

/// The message reported for each error.
pub open spec fn message_spec(e: PaceError) -> Seq<char> {
    match e {
        PaceError::EmptyToken => "empty token, expected e.g. '10k'"@,
        PaceError::BadDistanceUnit(c) => "Invalid distance unit '"@ + seq![c]
            + "'. Must be 'k' or 'm'"@,
        PaceError::BadPaceUnit(c) => "Invalid pace unit '"@ + seq![c] + "'. Must be 'k' or 'm'"@,
        PaceError::BadTime(t, te) => t@ + match te {
            TimeError::InvalidColonFormat => " invalid format, expected e.g. '7:30'"@,
            TimeError::InvalidNumber => " invalid number, expected e.g. '1h05m10s'"@,
            TimeError::TooLarge => " is too large a duration"@,
        },
        PaceError::BadDistanceNumber(t) => t@ + " invalid distance, expected e.g. '10k' or '26.2m'"@,
        PaceError::DistanceTooLarge(t) => t@ + " is too large a distance"@,
        PaceError::ZeroDistance(t) => t@ + " is not a positive distance"@,
    }
}

/// Relies on `String::from` for `char`: the returned string holds exactly the
/// one character it was given.
#[verifier::external_body]
fn char_string(c: char) -> (r: String)
    ensures
        r@ == seq![c],
{
    String::from(c)
}

impl PaceError {
    /// The message the program reports for this error.
    pub fn message(&self) -> (r: String)
        ensures
            r@ == message_spec(*self),
    {
        match self {
            PaceError::EmptyToken => {
                let r = String::from_str("empty token, expected e.g. '10k'");
                r
            },
            PaceError::BadDistanceUnit(c) => {
                proof {
                    reveal_strlit("'. Must be 'k' or 'm'");
                }
                let mut r = String::from_str("Invalid distance unit '");
                r.append(char_string(*c).as_str());
                r.append("'. Must be 'k' or 'm'");
                assert(r@ =~= message_spec(*self));
                r
            },
            PaceError::BadPaceUnit(c) => {
                proof {
                    reveal_strlit("'. Must be 'k' or 'm'");
                }
                let mut r = String::from_str("Invalid pace unit '");
                r.append(char_string(*c).as_str());
                r.append("'. Must be 'k' or 'm'");
                assert(r@ =~= message_spec(*self));
                r
            },
            PaceError::BadTime(t, te) => {
                let mut r = t.clone();
                match te {
                    TimeError::InvalidColonFormat => r.append(
                        " invalid format, expected e.g. '7:30'",
                    ),
                    TimeError::InvalidNumber => r.append(
                        " invalid number, expected e.g. '1h05m10s'",
                    ),
                    TimeError::TooLarge => r.append(" is too large a duration"),
                }
                assert(r@ =~= message_spec(*self));
                r
            },
            PaceError::BadDistanceNumber(t) => {
                let mut r = t.clone();
                r.append(" invalid distance, expected e.g. '10k' or '26.2m'");
                assert(r@ =~= message_spec(*self));
                r
            },
            PaceError::DistanceTooLarge(t) => {
                let mut r = t.clone();
                r.append(" is too large a distance");
                assert(r@ =~= message_spec(*self));
                r
            },
            PaceError::ZeroDistance(t) => {
                let mut r = t.clone();
                r.append(" is not a positive distance");
                assert(r@ =~= message_spec(*self));
                r
            },
        }
    }
}

} // verus!
