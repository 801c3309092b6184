//! The failures that a gateway call can report.

use vstd::prelude::*;

use crate::decode::DecodeError;

verus! {

/// A field of a record that could not be filled from a row.
#[derive(Debug, PartialEq, Eq)]
pub enum FieldError {
    /// The column is absent, or its value is not a string.
    Missing(String),
    /// The column holds a string that does not parse as the field's type.
    InvalidFormat(String),
}

/// The failures of a gateway call, by kind.
#[derive(Debug, PartialEq)]
pub enum GatewayError {
    /// A required configuration value is missing.
    Configuration(String),
    /// The network exchange itself failed.
    Transport(String),
    /// The warehouse rejected the statement; its message, verbatim.
    WarehouseQuery(String),
    /// The response does not have the expected shape.
    Decode(DecodeError),
    /// A row could not be turned into a record.
    FieldMapping(FieldError),
}

impl FieldError {
    /// The name of the field concerned.
    pub fn field(&self) -> (r: &String)
        ensures
            match self {
                FieldError::Missing(f) => r == f,
                FieldError::InvalidFormat(f) => r == f,
            },
    {
        match self {
            FieldError::Missing(f) => f,
            FieldError::InvalidFormat(f) => f,
        }
    }

    /// `Missing '<field>'` or `Invalid format for '<field>'`.
    pub fn message(&self) -> (r: String)
        ensures
            match self {
                FieldError::Missing(f) => r@ == "Missing '"@ + f@ + "'"@,
                FieldError::InvalidFormat(f) => r@ == "Invalid format for '"@ + f@ + "'"@,
            },
    {
        match self {
            FieldError::Missing(f) => {
                let mut m = String::from_str("Missing '");
                m.append(f.as_str());
                m.append("'");
                m
            },
            FieldError::InvalidFormat(f) => {
                let mut m = String::from_str("Invalid format for '");
                m.append(f.as_str());
                m.append("'");
                m
            },
        }
    }
}

impl DecodeError {
    pub fn message(&self) -> (r: String)
        ensures
            match self {
                DecodeError::InvalidSchema => r@ == "Invalid schema format"@,
                DecodeError::InvalidRows => r@ == "Invalid rows format"@,
            },
    {
        match self {
            DecodeError::InvalidSchema => String::from_str("Invalid schema format"),
            DecodeError::InvalidRows => String::from_str("Invalid rows format"),
        }
    }
}

impl GatewayError {
    /// The text shown to the caller: the carried message as it is, or the
    /// message of the decode or field failure.
    pub fn message(&self) -> (r: String)
        ensures
            match self {
                GatewayError::Configuration(m) => r@ == m@,
                GatewayError::Transport(m) => r@ == m@,
                GatewayError::WarehouseQuery(m) => r@ == m@,
                GatewayError::Decode(e) => r@ == e.message_text(),
                GatewayError::FieldMapping(e) => r@ == e.message_text(),
            },
    {
        match self {
            GatewayError::Configuration(m) => m.clone(),
            GatewayError::Transport(m) => m.clone(),
            GatewayError::WarehouseQuery(m) => m.clone(),
            GatewayError::Decode(e) => e.message(),
            GatewayError::FieldMapping(e) => e.message(),
        }
    }
}

impl DecodeError {
    pub open spec fn message_text(&self) -> Seq<char> {
        match self {
            DecodeError::InvalidSchema => "Invalid schema format"@,
            DecodeError::InvalidRows => "Invalid rows format"@,
        }
    }
}

impl FieldError {
    pub open spec fn message_text(&self) -> Seq<char> {
        match self {
            FieldError::Missing(f) => "Missing '"@ + f@ + "'"@,
            FieldError::InvalidFormat(f) => "Invalid format for '"@ + f@ + "'"@,
        }
    }
}

} // verus!
