//! The relay's error type. Failures that come from outside the library
//! (I/O, JSON, WebSocket) are carried by their text.

use vstd::prelude::*;
use vstd::string::StringExecFns;
use crate::text::{decimal, push_decimal};

verus! {

/// Every failure the relay reports.
#[derive(Clone, Debug)]
pub enum AppError {
    /// An I/O failure, with the failure's text.
    Io(String),
    /// A JSON encoding or decoding failure, with its text.
    Json(String),
    /// A UUID failure, with its text.
    Uuid(String),
    Config(String),
    Internal(String),
    /// A WebSocket failure, with its text.
    Ws(String),
    Multipart(String),
    InvalidWsMessage,
    ConnectionClosed,
    AuthRequired,
    SiweVerification(String),
    InvalidSiweMessage,
    SiweMismatch,
    InvalidSignature,
    InvalidEvent(String),
    InvalidEventKind,
    MissingTag(String),
    UnsupportedFilter,
    TooManySubscriptions(usize),
    EventExpired,
    Lmdb(String),
    /// A string with an interior NUL, with the failure's text.
    NulError(String),
    Storage(String),
    EventNotFound,
    FileTooLarge,
    UnsupportedFileType,
    ExecutableNotAllowed,
    MimeMismatch,
    MeshInit(String),
    MeshForward(String),
    MeshQueryFailed,
    Gossipsub(String),
    Kademlia(String),
    Mdns(String),
    Network(String),
    PeerNotFound(String),
    InsufficientPeers,
    GcFailed(String),
}

/// The text that describes an error.
pub open spec fn error_text(e: AppError) -> Seq<char> {
    match e {
        AppError::Io(s) => "IO error: "@ + s@,
        AppError::Json(s) => "JSON serialization/deserialization failed: "@ + s@,
        AppError::Uuid(s) => "UUID error: "@ + s@,
        AppError::Config(s) => "Configuration error: "@ + s@,
        AppError::Internal(s) => "Internal server error: "@ + s@,
        AppError::Ws(s) => "WebSocket error: "@ + s@,
        AppError::Multipart(s) => "Multipart error: "@ + s@,
        AppError::InvalidWsMessage => "Invalid WebSocket message format"@,
        AppError::ConnectionClosed => "Connection closed unexpectedly"@,
        AppError::AuthRequired => "Authentication required"@,
        AppError::SiweVerification(s) => "SIWE verification failed: "@ + s@,
        AppError::InvalidSiweMessage => "Invalid SIWE message format"@,
        AppError::SiweMismatch => "SIWE domain or URI mismatch"@,
        AppError::InvalidSignature => "SIWE signature invalid"@,
        AppError::InvalidEvent(s) => "Invalid Nostr event: "@ + s@,
        AppError::InvalidEventKind => "Event kind not allowed in IM relay (only DM/room supported)"@,
        AppError::MissingTag(s) => "Missing required tag: "@ + s@,
        AppError::UnsupportedFilter => "Unsupported filter fields for IM relay"@,
        AppError::TooManySubscriptions(n) => "Too many subscriptions (max: "@ + decimal(n as nat) + ")"@,
        AppError::EventExpired => "Event expired or invalid timestamp"@,
        AppError::Lmdb(s) => "LMDB error: "@ + s@,
        AppError::NulError(s) => "Nul error: "@ + s@,
        AppError::Storage(s) => "Storage operation failed: "@ + s@,
        AppError::EventNotFound => "Event not found"@,
        AppError::FileTooLarge => "File too large (max 50MB)"@,
        AppError::UnsupportedFileType => "Unsupported file type"@,
        AppError::ExecutableNotAllowed => "Executable files are not allowed"@,
        AppError::MimeMismatch => "MIME type mismatch"@,
        AppError::MeshInit(s) => "Mesh initialization failed: "@ + s@,
        AppError::MeshForward(s) => "Mesh forwarding failed: "@ + s@,
        AppError::MeshQueryFailed => "Mesh query failed"@,
        AppError::Gossipsub(s) => "Gossipsub error: "@ + s@,
        AppError::Kademlia(s) => "Kademlia error: "@ + s@,
        AppError::Mdns(s) => "mDNS error: "@ + s@,
        AppError::Network(s) => "P2P network error: "@ + s@,
        AppError::PeerNotFound(s) => "Peer not found: "@ + s@,
        AppError::InsufficientPeers => "Not enough peers for backup operation"@,
        AppError::GcFailed(s) => "GC operation failed: "@ + s@,
    }
}

impl AppError {
    /// The text that describes the error.
    pub fn message(&self) -> (m: String)
        ensures
            m@ == error_text(*self),
    {
        match self {
            AppError::Io(s) => {
                let mut m = String::from_str("IO error: ");
                m.append(s.as_str());
                m
            },
            AppError::Json(s) => {
                let mut m = String::from_str("JSON serialization/deserialization failed: ");
                m.append(s.as_str());
                m
            },
            AppError::Uuid(s) => {
                let mut m = String::from_str("UUID error: ");
                m.append(s.as_str());
                m
            },
            AppError::Config(s) => {
                let mut m = String::from_str("Configuration error: ");
                m.append(s.as_str());
                m
            },
            AppError::Internal(s) => {
                let mut m = String::from_str("Internal server error: ");
                m.append(s.as_str());
                m
            },
            AppError::Ws(s) => {
                let mut m = String::from_str("WebSocket error: ");
                m.append(s.as_str());
                m
            },
            AppError::Multipart(s) => {
                let mut m = String::from_str("Multipart error: ");
                m.append(s.as_str());
                m
            },
            AppError::InvalidWsMessage => String::from_str("Invalid WebSocket message format"),
            AppError::ConnectionClosed => String::from_str("Connection closed unexpectedly"),
            AppError::AuthRequired => String::from_str("Authentication required"),
            AppError::SiweVerification(s) => {
                let mut m = String::from_str("SIWE verification failed: ");
                m.append(s.as_str());
                m
            },
            AppError::InvalidSiweMessage => String::from_str("Invalid SIWE message format"),
            AppError::SiweMismatch => String::from_str("SIWE domain or URI mismatch"),
            AppError::InvalidSignature => String::from_str("SIWE signature invalid"),
            AppError::InvalidEvent(s) => {
                let mut m = String::from_str("Invalid Nostr event: ");
                m.append(s.as_str());
                m
            },
            AppError::InvalidEventKind => String::from_str("Event kind not allowed in IM relay (only DM/room supported)"),
            AppError::MissingTag(s) => {
                let mut m = String::from_str("Missing required tag: ");
                m.append(s.as_str());
                m
            },
            AppError::UnsupportedFilter => String::from_str("Unsupported filter fields for IM relay"),
            AppError::TooManySubscriptions(n) => {
                let mut m = String::from_str("Too many subscriptions (max: ");
                push_decimal(&mut m, *n as u64);
                m.append(")");
                m
            },
            AppError::EventExpired => String::from_str("Event expired or invalid timestamp"),
            AppError::Lmdb(s) => {
                let mut m = String::from_str("LMDB error: ");
                m.append(s.as_str());
                m
            },
            AppError::NulError(s) => {
                let mut m = String::from_str("Nul error: ");
                m.append(s.as_str());
                m
            },
            AppError::Storage(s) => {
                let mut m = String::from_str("Storage operation failed: ");
                m.append(s.as_str());
                m
            },
            AppError::EventNotFound => String::from_str("Event not found"),
            AppError::FileTooLarge => String::from_str("File too large (max 50MB)"),
            AppError::UnsupportedFileType => String::from_str("Unsupported file type"),
            AppError::ExecutableNotAllowed => String::from_str("Executable files are not allowed"),
            AppError::MimeMismatch => String::from_str("MIME type mismatch"),
            AppError::MeshInit(s) => {
                let mut m = String::from_str("Mesh initialization failed: ");
                m.append(s.as_str());
                m
            },
            AppError::MeshForward(s) => {
                let mut m = String::from_str("Mesh forwarding failed: ");
                m.append(s.as_str());
                m
            },
            AppError::MeshQueryFailed => String::from_str("Mesh query failed"),
            AppError::Gossipsub(s) => {
                let mut m = String::from_str("Gossipsub error: ");
                m.append(s.as_str());
                m
            },
            AppError::Kademlia(s) => {
                let mut m = String::from_str("Kademlia error: ");
                m.append(s.as_str());
                m
            },
            AppError::Mdns(s) => {
                let mut m = String::from_str("mDNS error: ");
                m.append(s.as_str());
                m
            },
            AppError::Network(s) => {
                let mut m = String::from_str("P2P network error: ");
                m.append(s.as_str());
                m
            },
            AppError::PeerNotFound(s) => {
                let mut m = String::from_str("Peer not found: ");
                m.append(s.as_str());
                m
            },
            AppError::InsufficientPeers => String::from_str("Not enough peers for backup operation"),
            AppError::GcFailed(s) => {
                let mut m = String::from_str("GC operation failed: ");
                m.append(s.as_str());
                m
            },
        }
    }
}

} // verus!
