//! The closed vocabularies of the status line: protocol version, status code and reason
//! phrase. Each maps a token to a variant by exact match, and anything else to `Uninitialized`.
use vstd::prelude::*;
use crate::text::str_eq;

verus! {

/// The declared protocol version.
#[derive(Debug, Clone, Copy, PartialEq, Eq, Structural)]
pub enum Version {
    V1_1,
    V2_0,
    Uninitialized,
}

/// A status code out of a fixed subset.
#[derive(Debug, Clone, Copy, PartialEq, Eq, Structural)]
pub enum Status {
    TwoHundred,
    FourHundred,
    FiveHundred,
    Uninitialized,
}

/// A reason phrase out of a fixed subset; the wire form of each ends with `!`.
#[derive(Debug, Clone, Copy, PartialEq, Eq, Structural)]
pub enum ReasonPharse {
    Okay,
    BadRequest,
    InternalServerError,
    Uninitialized,
}

/// The version that the token `s` names.
pub open spec fn version_of(s: Seq<char>) -> Version {
    if s == "HTTP/1.1"@ {
        Version::V1_1
    } else if s == "HTTP/2.0"@ {
        Version::V2_0
    } else {
        Version::Uninitialized
    }
}

/// The status that the token `s` names.
pub open spec fn status_of(s: Seq<char>) -> Status {
    if s == "200"@ {
        Status::TwoHundred
    } else if s == "400"@ {
        Status::FourHundred
    } else if s == "500"@ {
        Status::FiveHundred
    } else {
        Status::Uninitialized
    }
}

/// The reason phrase that the token `s` names.
pub open spec fn reason_of(s: Seq<char>) -> ReasonPharse {
    if s == "Ok!"@ {
        ReasonPharse::Okay
    } else if s == "BadRequest!"@ {
        ReasonPharse::BadRequest
    } else if s == "InternalServerError!"@ {
        ReasonPharse::InternalServerError
    } else {
        ReasonPharse::Uninitialized
    }
}

/// Reads a version token; the result is `version_of` of its characters.
impl<'a> From<&'a str> for Version {
    fn from(s: &'a str) -> (r: Version) {
        if str_eq(s, "HTTP/1.1") {
            Version::V1_1
        } else if str_eq(s, "HTTP/2.0") {
            Version::V2_0
        } else {
            Version::Uninitialized
        }
    }
}

impl<'a> vstd::std_specs::convert::FromSpecImpl<&'a str> for Version {
    open spec fn obeys_from_spec() -> bool {
        true
    }

    open spec fn from_spec(s: &'a str) -> Version {
        version_of(s@)
    }
}

/// Reads a status token; the result is `status_of` of its characters.
impl<'a> From<&'a str> for Status {
    fn from(s: &'a str) -> (r: Status) {
        if str_eq(s, "200") {
            Status::TwoHundred
        } else if str_eq(s, "400") {
            Status::FourHundred
        } else if str_eq(s, "500") {
            Status::FiveHundred
        } else {
            Status::Uninitialized
        }
    }
}

impl<'a> vstd::std_specs::convert::FromSpecImpl<&'a str> for Status {
    open spec fn obeys_from_spec() -> bool {
        true
    }

    open spec fn from_spec(s: &'a str) -> Status {
        status_of(s@)
    }
}

/// Reads a reason token; the result is `reason_of` of its characters.
impl<'a> From<&'a str> for ReasonPharse {
    fn from(s: &'a str) -> (r: ReasonPharse) {
        if str_eq(s, "Ok!") {
            ReasonPharse::Okay
        } else if str_eq(s, "BadRequest!") {
            ReasonPharse::BadRequest
        } else if str_eq(s, "InternalServerError!") {
            ReasonPharse::InternalServerError
        } else {
            ReasonPharse::Uninitialized
        }
    }
}

impl<'a> vstd::std_specs::convert::FromSpecImpl<&'a str> for ReasonPharse {
    open spec fn obeys_from_spec() -> bool {
        true
    }

    open spec fn from_spec(s: &'a str) -> ReasonPharse {
        reason_of(s@)
    }
}

} // verus!
