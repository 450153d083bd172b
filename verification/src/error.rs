//! The errors of the library.

use vstd::prelude::*;

verus! {

/// A relay list that an account can lack.
#[derive(Clone, Copy, Debug, PartialEq, Eq, Structural)]
pub enum MissingRelayListKind {
    Nip65,
    Inbox,
}

/// Why an operation of the app failed.
#[derive(Debug, PartialEq, Eq)]
pub enum AppError {
    BlockingTask(String),
    InvalidCachedIdentityPage(String),
    InvalidDirectorySearch(String),
    InvalidHex,
    InvalidKeyPackageEvent(String),
    InvalidPublicKey,
    InvalidPushGossip(String),
    MissingDirectoryEntry(String),
    MissingKeyPackage(String),
    MissingRelayLists(Vec<MissingRelayListKind>),
    RelayDirectory(String),
    Storage(String),
    Transport(String),
    TransportClosed,
    UnknownGroup(String),
}

/// The content of an [`AppError`].
#[allow(inconsistent_fields)]
#[verifier::ext_equal]
pub enum ErrorContent {
    BlockingTask(Seq<char>),
    InvalidCachedIdentityPage(Seq<char>),
    InvalidDirectorySearch(Seq<char>),
    InvalidHex,
    InvalidKeyPackageEvent(Seq<char>),
    InvalidPublicKey,
    InvalidPushGossip(Seq<char>),
    MissingDirectoryEntry(Seq<char>),
    MissingKeyPackage(Seq<char>),
    MissingRelayLists(Seq<MissingRelayListKind>),
    RelayDirectory(Seq<char>),
    Storage(Seq<char>),
    Transport(Seq<char>),
    TransportClosed,
    UnknownGroup(Seq<char>),
}

impl DeepView for AppError {
    type V = ErrorContent;

    open spec fn deep_view(&self) -> ErrorContent {
        match self {
            AppError::BlockingTask(text) => ErrorContent::BlockingTask(text@),
            AppError::InvalidCachedIdentityPage(text) => ErrorContent::InvalidCachedIdentityPage(
                text@,
            ),
            AppError::InvalidDirectorySearch(text) => ErrorContent::InvalidDirectorySearch(text@),
            AppError::InvalidHex => ErrorContent::InvalidHex,
            AppError::InvalidKeyPackageEvent(text) => ErrorContent::InvalidKeyPackageEvent(text@),
            AppError::InvalidPublicKey => ErrorContent::InvalidPublicKey,
            AppError::InvalidPushGossip(text) => ErrorContent::InvalidPushGossip(text@),
            AppError::MissingDirectoryEntry(text) => ErrorContent::MissingDirectoryEntry(text@),
            AppError::MissingKeyPackage(text) => ErrorContent::MissingKeyPackage(text@),
            AppError::MissingRelayLists(kinds) => ErrorContent::MissingRelayLists(kinds@),
            AppError::RelayDirectory(text) => ErrorContent::RelayDirectory(text@),
            AppError::Storage(text) => ErrorContent::Storage(text@),
            AppError::Transport(text) => ErrorContent::Transport(text@),
            AppError::TransportClosed => ErrorContent::TransportClosed,
            AppError::UnknownGroup(text) => ErrorContent::UnknownGroup(text@),
        }
    }
}

/// Where in a synchronization an error arose.
#[derive(Clone, Copy, Debug, PartialEq, Eq, Structural)]
pub enum SyncFailureStage {
    TransportActivation,
    GroupSubscriptionSync,
    RelayReceive,
    CgkaIngest,
    StatePersist,
    Unknown,
}

} // verus!
