use vstd::prelude::*;

verus! {

/// `serde_json::Error`, carried through as an opaque value.
#[verifier::external_type_specification]
#[verifier::external_body]
pub struct ExJsonError(serde_json::Error);

/// `hex::FromHexError`, carried through as an opaque value.
#[verifier::external_type_specification]
#[verifier::external_body]
pub struct ExFromHexError(hex::FromHexError);

/// Everything that can go wrong while a sequence is encoded.
///
/// The variant is kept from the place of the failure to the boundary, so that
/// the boundary can still tell a failure of the backend from one of the encoder.
#[derive(Debug)]
pub enum SerializedStreamError<E> {
    /// The backend failed while an item was pulled from it.
    SourceError(E),
    /// An item or a label could not be written as JSON.
    EncodingError(serde_json::Error),
    /// The hexadecimal codec refused its input or its buffer.
    DecodingError(hex::FromHexError),
}

/// The parts of an HTTP reply that an error of the encoder itself maps to.
#[derive(Clone, Copy, Debug, PartialEq, Eq)]
pub struct ErrorBody {
    pub status: u16,
    /// Whether the body is JSON and is to be labelled `application/json`.
    pub json: bool,
    pub body: &'static str,
}

/// Status of a failure that is the server's own.
pub const INTERNAL_SERVER_ERROR: u16 = 500;

/// The body sent with an encoding failure.
pub open spec fn internal_server_error_text() -> Seq<char> {
    "{\"error\": \"Internal Server Error\"}"@
}

/// The reply for an encoding failure: status 500 and a fixed JSON body.
pub fn json_internal_server_error_response() -> (reply: ErrorBody)
    ensures
        reply.status == INTERNAL_SERVER_ERROR,
        reply.json,
        reply.body@ == internal_server_error_text(),
{
    ErrorBody {
        status: INTERNAL_SERVER_ERROR,
        json: true,
        body: "{\"error\": \"Internal Server Error\"}",
    }
}

impl<E> SerializedStreamError<E> {
    /// The status this error maps to, where the encoder decides it.
    pub open spec fn spec_status_code(&self) -> Option<u16> {
        match self {
            SerializedStreamError::SourceError(_) => None,
            SerializedStreamError::EncodingError(_) => Some(INTERNAL_SERVER_ERROR),
            SerializedStreamError::DecodingError(_) => Some(INTERNAL_SERVER_ERROR),
        }
    }

    /// The status code of the reply, or `None` for an error of the backend,
    /// whose own mapping decides.
    pub fn status_code(&self) -> (code: Option<u16>)
        ensures
            code == self.spec_status_code(),
    {
        match self {
            SerializedStreamError::SourceError(_) => None,
            SerializedStreamError::EncodingError(_) => Some(INTERNAL_SERVER_ERROR),
            SerializedStreamError::DecodingError(_) => Some(INTERNAL_SERVER_ERROR),
        }
    }

    /// The reply, or `None` for an error of the backend, whose own mapping
    /// decides. An encoding failure gets the fixed JSON body, a failure of the
    /// hexadecimal codec an empty one.
    pub fn error_response(&self) -> (reply: Option<ErrorBody>)
        ensures
            match *self {
                SerializedStreamError::SourceError(_) => reply is None,
                SerializedStreamError::EncodingError(_) => {
                    &&& reply matches Some(r)
                    &&& r.status == INTERNAL_SERVER_ERROR
                    &&& r.json
                    &&& r.body@ == internal_server_error_text()
                },
                SerializedStreamError::DecodingError(_) => {
                    &&& reply matches Some(r)
                    &&& r.status == INTERNAL_SERVER_ERROR
                    &&& !r.json
                    &&& r.body@ == Seq::<char>::empty()
                },
            },
            reply matches Some(r) ==> Some(r.status) == self.spec_status_code(),
    {
        match self {
            SerializedStreamError::SourceError(_) => None,
            SerializedStreamError::EncodingError(_) => Some(json_internal_server_error_response()),
            SerializedStreamError::DecodingError(_) => {
                proof {
                    reveal_strlit("");
                }
                Some(ErrorBody { status: INTERNAL_SERVER_ERROR, json: false, body: "" })
            },
        }
    }
}

} // verus!
