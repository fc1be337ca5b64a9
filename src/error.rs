//! The errors of the codec.
use vstd::prelude::*;

use crate::wire::DecodeError;

verus! {

/// Why a frame could not be read from a buffer.
#[derive(Debug, PartialEq, Eq)]
pub enum RespError {
    InvalidFrame(String),
    InvalidFrameType(String),
    InvalidFrameLength(i64),
    NotComplete,
    ParseIntError(String),
}

impl RespError {
    pub open spec fn kind(self) -> DecodeError {
        match self {
            RespError::InvalidFrame(_) => DecodeError::InvalidFrame,
            RespError::InvalidFrameType(_) => DecodeError::InvalidFrameType,
            RespError::InvalidFrameLength(_) => DecodeError::InvalidFrameLength,
            RespError::NotComplete => DecodeError::NotComplete,
            RespError::ParseIntError(_) => DecodeError::ParseInt,
        }
    }

    /// The error of the given kind, with a short message.
    pub fn of_kind(k: DecodeError) -> (r: RespError)
        ensures
            r.kind() == k,
    {
        match k {
            DecodeError::NotComplete => RespError::NotComplete,
            DecodeError::InvalidFrameType => RespError::InvalidFrameType(
                "unexpected frame prefix".to_string(),
            ),
            DecodeError::InvalidFrame => RespError::InvalidFrame("malformed frame".to_string()),
            DecodeError::InvalidFrameLength => RespError::InvalidFrameLength(-1),
            DecodeError::ParseInt => RespError::ParseIntError("invalid decimal number".to_string()),
        }
    }
}

/// `r` fails exactly as `s` says it fails.
pub open spec fn fails_as<T>(r: Result<T, RespError>, s: DecodeError) -> bool {
    r is Err && r->Err_0.kind() == s
}

} // verus!
