//! Errors of Service API calls and of Registry access.

use vstd::prelude::*;

verus! {

/// Errors that occur during Service API calls or Registry access.
#[derive(Clone, Debug)]
pub enum ServiceError {
    /// An argument did not match the expected type.
    TypeMismatch { expected: String, found: String },
    /// Method not found on the service.
    UnknownMethod(String),
    /// Service domain is not registered.
    DomainNotFound(String),
    /// File not found in Registry at domain/filename.
    FileNotFound { domain: String, filename: String },
    /// Registry domain not found.
    RegistryDomainNotFound(String),
    /// Error parsing registry data.
    ParseError(String),
    /// Internal / generic error.
    Internal(String),
}

impl ServiceError {
    /// The human-readable text of the error.
    pub open spec fn spec_message(self) -> Seq<char> {
        match self {
            ServiceError::TypeMismatch { expected, found } => "invalid arguments: expected "@
                + expected@ + ", got "@ + found@,
            ServiceError::UnknownMethod(m) => "unknown method: "@ + m@,
            ServiceError::DomainNotFound(d) => "service domain not found: "@ + d@,
            ServiceError::FileNotFound { domain, filename } => "file not found in registry: "@
                + domain@ + "/"@ + filename@,
            ServiceError::RegistryDomainNotFound(d) => "registry domain not found: "@ + d@,
            ServiceError::ParseError(m) => "parse error: "@ + m@,
            ServiceError::Internal(m) => "internal error: "@ + m@,
        }
    }

    /// The human-readable text of the error (what `Display` shows).
    pub fn message(&self) -> (text: String)
        ensures
            text@ == self.spec_message(),
    {
        match self {
            ServiceError::TypeMismatch { expected, found } => {
                let mut s = String::from_str("invalid arguments: expected ");
                s.append(expected.as_str());
                s.append(", got ");
                s.append(found.as_str());
                s
            },
            ServiceError::UnknownMethod(m) => String::from_str("unknown method: ").concat(
                m.as_str(),
            ),
            ServiceError::DomainNotFound(d) => String::from_str("service domain not found: ").concat(
                d.as_str(),
            ),
            ServiceError::FileNotFound { domain, filename } => {
                let mut s = String::from_str("file not found in registry: ");
                s.append(domain.as_str());
                s.append("/");
                s.append(filename.as_str());
                s
            },
            ServiceError::RegistryDomainNotFound(d) => String::from_str(
                "registry domain not found: ",
            ).concat(d.as_str()),
            ServiceError::ParseError(m) => String::from_str("parse error: ").concat(m.as_str()),
            ServiceError::Internal(m) => String::from_str("internal error: ").concat(m.as_str()),
        }
    }
}

} // verus!
