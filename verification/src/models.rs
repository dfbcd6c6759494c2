//! The two wire vocabularies of the relay, and its error taxonomy.
//!
//! Each message enum carries a spec-level view (`@`) in which strings are
//! character sequences, so that contracts can speak about message contents
//! independently of `String` representation.

use vstd::prelude::*;

verus! {

/// Message received from the browser peer on standard input.
#[derive(Debug, Clone, PartialEq)]
pub enum RxBrowserMsg {
    /// Reports whether incognito/private relaying is permitted.
    Init { incognito: bool },
    /// A navigation event to relay to the daemon.
    Navigation { url: String },
}

/// Spec-level value of a [`RxBrowserMsg`].
#[verifier::ext_equal]
pub enum RxBrowserMsgSpec {
    Init { incognito: bool },
    Navigation { url: Seq<char> },
}

impl View for RxBrowserMsg {
    type V = RxBrowserMsgSpec;

    open spec fn view(&self) -> RxBrowserMsgSpec {
        match self {
            RxBrowserMsg::Init { incognito } => RxBrowserMsgSpec::Init { incognito: *incognito },
            RxBrowserMsg::Navigation { url } => RxBrowserMsgSpec::Navigation { url: url@ },
        }
    }
}

/// Message sent back to the browser peer: the sole acknowledgement reply.
#[derive(Debug, Clone, Copy, PartialEq, Eq, Structural)]
pub enum TxBrowserMsg {
    Ack {},
}

impl View for TxBrowserMsg {
    type V = TxBrowserMsg;

    open spec fn view(&self) -> TxBrowserMsg {
        *self
    }
}

/// Message accepted from the daemon peer over the socket.
#[derive(Debug, Clone, Copy, PartialEq, Eq, Structural)]
pub enum OverwatchMsg {
    /// Liveness/status query, answered with the shared incognito flag.
    Heartbeat {},
}

impl View for OverwatchMsg {
    type V = OverwatchMsg;

    open spec fn view(&self) -> OverwatchMsg {
        *self
    }
}

/// Message sent to the daemon peer over the socket.
#[derive(Debug, Clone, PartialEq)]
pub enum AdvisorMsg {
    /// Answer to a daemon heartbeat, reporting the shared incognito flag.
    Heartbeat { incognito: bool },
    /// A relayed browser navigation event.
    Navigation { url: String },
}

/// Spec-level value of an [`AdvisorMsg`].
#[verifier::ext_equal]
pub enum AdvisorMsgSpec {
    Heartbeat { incognito: bool },
    Navigation { url: Seq<char> },
}

impl View for AdvisorMsg {
    type V = AdvisorMsgSpec;

    open spec fn view(&self) -> AdvisorMsgSpec {
        match self {
            AdvisorMsg::Heartbeat { incognito } => AdvisorMsgSpec::Heartbeat {
                incognito: *incognito,
            },
            AdvisorMsg::Navigation { url } => AdvisorMsgSpec::Navigation { url: url@ },
        }
    }
}

/// I/O-level failure: a closed or truncated stream, or a failed write.
/// Always fatal to the whole process.
#[derive(Debug, Clone, Copy, PartialEq, Eq, Structural)]
pub struct TransportError;

/// A frame body that is not a message of the expected vocabulary:
/// malformed UTF-8, invalid JSON, or an unrecognized shape or `type` tag.
/// Recoverable: the offending frame is dropped.
#[derive(Debug, Clone, Copy, PartialEq, Eq, Structural)]
pub struct ParseError;

/// The relay channel's receiving end is gone. Recoverable: the message is
/// dropped.
#[derive(Debug, Clone, Copy, PartialEq, Eq, Structural)]
pub struct ChannelClosed;

} // verus!
