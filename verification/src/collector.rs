//! The types shared with the ingestion side of the wire.
//!
//! The collector endpoint itself — routing, response encoding, header
//! extraction — is a boundary collaborator and lives with the transport
//! layer. Here stand only the plain values both sides agree on: the
//! error taxonomy of event ingestion and the SDK credential that
//! authenticates a batch.

use vstd::prelude::*;
use vstd::string::StringExecFns;

verus! {

/// Why the collector refused a posted batch of events.
pub enum FPEventError {
    /// The addressed resource does not exist; carries its name.
    NotFound(String),
    /// The user payload was not valid base64.
    UserDecodeError,
    /// The server side is misconfigured; carries a description.
    ConfigError(String),
}

impl FPEventError {
    /// A human-readable description, mirroring how the transport layer
    /// renders the error into a response body.
    pub fn message(&self) -> (m: String)
        ensures
            self is NotFound ==> m@ == "not found "@ + self->NotFound_0@,
            self is UserDecodeError ==> m@ == "user base64 decode error"@,
            self is ConfigError ==> m@ == "config error: "@ + self->ConfigError_0@,
    {
        match self {
            FPEventError::NotFound(what) => {
                let mut m = String::new();
                m.append("not found ");
                m.append(what.as_str());
                proof {
                    assert(m@ =~= "not found "@ + what@);
                }
                m
            },
            FPEventError::UserDecodeError => {
                let mut m = String::new();
                m.append("user base64 decode error");
                proof {
                    assert(m@ =~= "user base64 decode error"@);
                }
                m
            },
            FPEventError::ConfigError(what) => {
                let mut m = String::new();
                m.append("config error: ");
                m.append(what.as_str());
                proof {
                    assert(m@ =~= "config error: "@ + what@);
                }
                m
            },
        }
    }
}

/// The opaque SDK credential carried in the authorization header of
/// every posted batch.
pub struct SdkAuthorization(pub String);

} // verus!
