//! Error types and the text of their messages.
use vstd::prelude::*;

use crate::text::{append_decimal, decimal};

verus! {

/// What kind of failure storage reported.
#[derive(Debug, Clone, Copy, PartialEq, Eq, Structural)]
pub enum IoFaultKind {
    /// The stored bytes are not what was written.
    InvalidData,
    /// The request does not fit the state of the store.
    InvalidInput,
    /// The file ends before the data does.
    UnexpectedEof,
    /// The operation is not available.
    Unsupported,
    /// Anything else.
    Other,
}

/// A failure of an I/O operation: its kind and a message.
#[derive(Debug, PartialEq, Eq)]
pub struct IoFault {
    pub kind: IoFaultKind,
    pub message: String,
}

#[verifier::ext_equal]
pub struct IoFaultView {
    pub kind: IoFaultKind,
    pub message: Seq<char>,
}

impl View for IoFault {
    type V = IoFaultView;

    open spec fn view(&self) -> IoFaultView {
        IoFaultView { kind: self.kind, message: self.message@ }
    }
}

impl IoFault {
    pub fn new(kind: IoFaultKind, message: String) -> (r: Self)
        ensures
            r@ == (IoFaultView { kind, message: message@ }),
    {
        IoFault { kind, message }
    }
}

/// Convenience alias for results of the public storage and transport
/// interfaces.
pub type RaftResult<T> = Result<T, RaftError>;

/// Errors that can be produced by storage, transport, runtime, or core
/// protocol operations.
///
/// Implementors should map their domain-specific failures into one of these
/// variants so that higher layers can react uniformly.
#[derive(Debug)]
pub enum RaftError {
    /// Underlying I/O failure (disk, network, etc).
    Io(IoFault),
    /// A storage backend reported an error that is not better classified
    /// elsewhere.
    Storage(String),
    /// A transport backend reported an error (connection lost, decode
    /// failure, peer unreachable, etc).
    Transport(String),
    /// The async runtime reported an error (task panicked, executor shut
    /// down, timer dropped, etc).
    Runtime(String),
    /// A log entry, snapshot, or message could not be serialised or
    /// deserialised.
    Serialization(String),
    /// A requested log index is below the compacted prefix or beyond the
    /// last index.
    LogIndexOutOfRange {
        /// The requested index.
        index: u64,
        /// First (oldest) index currently retained.
        first: u64,
        /// Last (newest) index currently retained.
        last: u64,
    },
    /// The persisted voter set is inconsistent with the log or snapshot.
    InconsistentVoterSet(String),
    /// The peer identifier supplied is not known to this node.
    UnknownPeer(String),
    /// The operation was cancelled or the node is shutting down.
    Cancelled,
    /// A generic error variant for cases that do not fit elsewhere.
    Other(String),
}

fn prefixed(prefix: &str, rest: &str) -> (s: String)
    ensures
        s@ == prefix@ + rest@,
{
    let mut s = String::from_str(prefix);
    s.append(rest);
    s
}

impl RaftError {
    /// Build a [`RaftError::Storage`] with the given message.
    pub fn storage(msg: &str) -> (r: Self)
        ensures
            r matches RaftError::Storage(m) && m@ == msg@,
    {
        RaftError::Storage(String::from_str(msg))
    }

    /// Build a [`RaftError::Transport`] with the given message.
    pub fn transport(msg: &str) -> (r: Self)
        ensures
            r matches RaftError::Transport(m) && m@ == msg@,
    {
        RaftError::Transport(String::from_str(msg))
    }

    /// Build a [`RaftError::Runtime`] with the given message.
    pub fn runtime(msg: &str) -> (r: Self)
        ensures
            r matches RaftError::Runtime(m) && m@ == msg@,
    {
        RaftError::Runtime(String::from_str(msg))
    }

    /// The text of the error.
    pub open spec fn spec_message(self) -> Seq<char> {
        match self {
            RaftError::Io(f) => "I/O error: "@ + f.message@,
            RaftError::Storage(m) => "storage error: "@ + m@,
            RaftError::Transport(m) => "transport error: "@ + m@,
            RaftError::Runtime(m) => "runtime error: "@ + m@,
            RaftError::Serialization(m) => "serialization error: "@ + m@,
            RaftError::LogIndexOutOfRange { index, first, last } => "log index "@ + decimal(
                index as nat,
            ) + " out of range (first = "@ + decimal(first as nat) + ", last = "@ + decimal(
                last as nat,
            ) + ")"@,
            RaftError::InconsistentVoterSet(m) => "inconsistent voter set: "@ + m@,
            RaftError::UnknownPeer(m) => "unknown peer: "@ + m@,
            RaftError::Cancelled => "operation cancelled"@,
            RaftError::Other(m) => m@,
        }
    }

    /// The message that describes the error.
    pub fn message(&self) -> (s: String)
        ensures
            s@ == self.spec_message(),
    {
        match self {
            RaftError::Io(f) => prefixed("I/O error: ", f.message.as_str()),
            RaftError::Storage(m) => prefixed("storage error: ", m.as_str()),
            RaftError::Transport(m) => prefixed("transport error: ", m.as_str()),
            RaftError::Runtime(m) => prefixed("runtime error: ", m.as_str()),
            RaftError::Serialization(m) => prefixed("serialization error: ", m.as_str()),
            RaftError::LogIndexOutOfRange { index, first, last } => {
                let mut s = String::from_str("log index ");
                append_decimal(&mut s, *index);
                s.append(" out of range (first = ");
                append_decimal(&mut s, *first);
                s.append(", last = ");
                append_decimal(&mut s, *last);
                s.append(")");
                s
            },
            RaftError::InconsistentVoterSet(m) => prefixed(
                "inconsistent voter set: ",
                m.as_str(),
            ),
            RaftError::UnknownPeer(m) => prefixed("unknown peer: ", m.as_str()),
            RaftError::Cancelled => String::from_str("operation cancelled"),
            RaftError::Other(m) => String::from_str(m.as_str()),
        }
    }
}

/// Errors of the consensus engine.
#[derive(Debug, PartialEq, Eq)]
pub enum XraftError {
    /// The configuration breaks a timing rule.
    InvalidConfig { reason: String },
    /// Bootstrap was asked of a node that already holds state.
    AlreadyBootstrapped { reason: String },
    /// The arguments of bootstrap do not describe a cluster with this node.
    InvalidBootstrapConfig { reason: String },
    /// A message belongs to another cluster.
    InvalidClusterId,
    /// An election was asked for in a role that cannot start one.
    InvalidElectionState { reason: String },
    /// The transport failed.
    TransportError { reason: String },
    /// Persisted data exists but is inconsistent.
    RecoveryRequired,
    /// A response does not fit the state of this node.
    InvalidResponse(String),
    /// The state machine refused a committed entry.
    StateMachineApplyError(String),
    /// Storage failed.
    StorageError(IoFault),
    /// Persisted bytes do not parse.
    Corruption(String),
    /// A value could not be serialised.
    SerializationError(String),
}

#[verifier::ext_equal]
pub enum XraftErrorView {
    InvalidConfig(Seq<char>),
    AlreadyBootstrapped(Seq<char>),
    InvalidBootstrapConfig(Seq<char>),
    InvalidClusterId,
    InvalidElectionState(Seq<char>),
    TransportError(Seq<char>),
    RecoveryRequired,
    InvalidResponse(Seq<char>),
    StateMachineApplyError(Seq<char>),
    StorageError(IoFaultView),
    Corruption(Seq<char>),
    SerializationError(Seq<char>),
}

impl View for XraftError {
    type V = XraftErrorView;

    open spec fn view(&self) -> XraftErrorView {
        match self {
            XraftError::InvalidConfig { reason } => XraftErrorView::InvalidConfig(reason@),
            XraftError::AlreadyBootstrapped { reason } => XraftErrorView::AlreadyBootstrapped(
                reason@,
            ),
            XraftError::InvalidBootstrapConfig {
                reason,
            } => XraftErrorView::InvalidBootstrapConfig(reason@),
            XraftError::InvalidClusterId => XraftErrorView::InvalidClusterId,
            XraftError::InvalidElectionState { reason } => XraftErrorView::InvalidElectionState(
                reason@,
            ),
            XraftError::TransportError { reason } => XraftErrorView::TransportError(reason@),
            XraftError::RecoveryRequired => XraftErrorView::RecoveryRequired,
            XraftError::InvalidResponse(m) => XraftErrorView::InvalidResponse(m@),
            XraftError::StateMachineApplyError(m) => XraftErrorView::StateMachineApplyError(m@),
            XraftError::StorageError(f) => XraftErrorView::StorageError(f@),
            XraftError::Corruption(m) => XraftErrorView::Corruption(m@),
            XraftError::SerializationError(m) => XraftErrorView::SerializationError(m@),
        }
    }
}

impl XraftErrorView {
    /// The text of the error.
    pub open spec fn message(self) -> Seq<char> {
        match self {
            XraftErrorView::InvalidConfig(m) => "invalid configuration: "@ + m,
            XraftErrorView::AlreadyBootstrapped(m) => "already bootstrapped: "@ + m,
            XraftErrorView::InvalidBootstrapConfig(m) => "invalid bootstrap configuration: "@ + m,
            XraftErrorView::InvalidClusterId => "invalid cluster id"@,
            XraftErrorView::InvalidElectionState(m) => "invalid election state: "@ + m,
            XraftErrorView::TransportError(m) => "transport error: "@ + m,
            XraftErrorView::RecoveryRequired => "recovery required"@,
            XraftErrorView::InvalidResponse(m) => "invalid response: "@ + m,
            XraftErrorView::StateMachineApplyError(m) => "state machine apply error: "@ + m,
            XraftErrorView::StorageError(f) => "storage error: "@ + f.message,
            XraftErrorView::Corruption(m) => "corruption: "@ + m,
            XraftErrorView::SerializationError(m) => "serialization error: "@ + m,
        }
    }
}

impl XraftError {
    /// The message that describes the error.
    pub fn message(&self) -> (s: String)
        ensures
            s@ == self@.message(),
    {
        match self {
            XraftError::InvalidConfig { reason } => prefixed(
                "invalid configuration: ",
                reason.as_str(),
            ),
            XraftError::AlreadyBootstrapped { reason } => prefixed(
                "already bootstrapped: ",
                reason.as_str(),
            ),
            XraftError::InvalidBootstrapConfig { reason } => prefixed(
                "invalid bootstrap configuration: ",
                reason.as_str(),
            ),
            XraftError::InvalidClusterId => String::from_str("invalid cluster id"),
            XraftError::InvalidElectionState { reason } => prefixed(
                "invalid election state: ",
                reason.as_str(),
            ),
            XraftError::TransportError { reason } => prefixed(
                "transport error: ",
                reason.as_str(),
            ),
            XraftError::RecoveryRequired => String::from_str("recovery required"),
            XraftError::InvalidResponse(m) => prefixed("invalid response: ", m.as_str()),
            XraftError::StateMachineApplyError(m) => prefixed(
                "state machine apply error: ",
                m.as_str(),
            ),
            XraftError::StorageError(f) => prefixed("storage error: ", f.message.as_str()),
            XraftError::Corruption(m) => prefixed("corruption: ", m.as_str()),
            XraftError::SerializationError(m) => prefixed("serialization error: ", m.as_str()),
        }
    }
}

} // verus!
