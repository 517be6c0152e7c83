//! Error kinds shared by the parser, the transform pipeline and the
//! image sources. Exactly one of these reaches the orchestrator per
//! request; none is retried internally.

use vstd::prelude::*;

verus! {

/// The production the parser was working on when a request failed to parse.
#[derive(Clone, Copy, Debug, PartialEq, Eq, Structural)]
pub enum Production {
    Identifier,
    Region,
    Size,
    Rotation,
    Quality,
    Format,
    Separator,
}

/// A typed request-processing error.
#[derive(Clone, Copy, Debug, PartialEq, Eq, Structural)]
pub enum Error {
    /// Malformed request text: position (byte offset into the parsed text)
    /// and the production that was expected there.
    Syntax { pos: usize, expected: Production },
    /// An identifier failed to decode as expected (invalid base64url/UTF-8).
    BadInput,
    /// Unknown prefix, missing local file, missing or corrupt cache entry,
    /// or a non-success upstream fetch.
    NotFound,
    /// Computed target dimensions exceed the source without the upscale flag.
    UpscaleRejected,
    /// A dimension computation yielded a zero or out-of-bounds size.
    BadRequest,
    /// Codec decode failure: fatal and non-retryable.
    Decode,
    /// Codec encode failure: fatal and non-retryable.
    Encode,
}

impl Error {
    /// A short human-readable label for the error kind.
    pub fn label(&self) -> (r: &'static str)
        ensures
            r@.len() > 0,
    {
        proof {
            reveal_strlit("syntax error");
            reveal_strlit("bad input");
            reveal_strlit("not found");
            reveal_strlit("upscale rejected");
            reveal_strlit("bad request");
            reveal_strlit("decode error");
            reveal_strlit("encode error");
        }
        match self {
            Error::Syntax { .. } => "syntax error",
            Error::BadInput => "bad input",
            Error::NotFound => "not found",
            Error::UpscaleRejected => "upscale rejected",
            Error::BadRequest => "bad request",
            Error::Decode => "decode error",
            Error::Encode => "encode error",
        }
    }
}

} // verus!
