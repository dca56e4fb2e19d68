//! Errors.

use vstd::prelude::*;
use crate::decimal::{decimal, unsigned_text};

verus! {

/// All Iris errors flow through this type.
#[derive(Debug, PartialEq, Eq)]
pub enum IrisError {
    /// A provider returned an error.
    Provider { provider: String, message: String },
    /// A provider was not found or not configured.
    ProviderNotFound(String),
    /// A capability was requested that the provider doesn't support.
    UnsupportedCapability { provider: String, capability: String },
    /// A resource was not found.
    NotFound(String),
    /// Configuration error.
    Config(String),
    /// Network or transport error.
    Transport(String),
    /// Serialization or deserialization error.
    Serialization(String),
    /// A storage backend failed.
    Storage(String),
    /// A realtime subscription is not available, for the reason the code names.
    RealtimeUnavailable { provider: String, code: String },
    /// The retries of a realtime poll are used up.
    RealtimeRetryExhausted { attempts: u32, last_error: String },
    /// A subscriber did not keep up and its queue is full.
    SlowConsumer,
}

/// The mathematical value of an error.
#[verifier::ext_equal]
pub enum IrisErrorView {
    Provider { provider: Seq<char>, message: Seq<char> },
    ProviderNotFound(Seq<char>),
    UnsupportedCapability { provider: Seq<char>, capability: Seq<char> },
    NotFound(Seq<char>),
    Config(Seq<char>),
    Transport(Seq<char>),
    Serialization(Seq<char>),
    Storage(Seq<char>),
    RealtimeUnavailable { provider: Seq<char>, code: Seq<char> },
    RealtimeRetryExhausted { attempts: u32, last_error: Seq<char> },
    SlowConsumer,
}

impl View for IrisError {
    type V = IrisErrorView;

    open spec fn view(&self) -> IrisErrorView {
        match *self {
            IrisError::Provider { provider, message } => IrisErrorView::Provider {
                provider: provider@,
                message: message@,
            },
            IrisError::ProviderNotFound(id) => IrisErrorView::ProviderNotFound(id@),
            IrisError::UnsupportedCapability { provider, capability } => {
                IrisErrorView::UnsupportedCapability {
                    provider: provider@,
                    capability: capability@,
                }
            },
            IrisError::NotFound(what) => IrisErrorView::NotFound(what@),
            IrisError::Config(message) => IrisErrorView::Config(message@),
            IrisError::Transport(message) => IrisErrorView::Transport(message@),
            IrisError::Serialization(message) => IrisErrorView::Serialization(message@),
            IrisError::Storage(message) => IrisErrorView::Storage(message@),
            IrisError::RealtimeUnavailable { provider, code } => {
                IrisErrorView::RealtimeUnavailable { provider: provider@, code: code@ }
            },
            IrisError::RealtimeRetryExhausted { attempts, last_error } => {
                IrisErrorView::RealtimeRetryExhausted { attempts, last_error: last_error@ }
            },
            IrisError::SlowConsumer => IrisErrorView::SlowConsumer,
        }
    }
}

impl Clone for IrisError {
    fn clone(&self) -> (r: IrisError)
        ensures
            r@ == self@,
    {
        match self {
            IrisError::Provider { provider, message } => IrisError::Provider {
                provider: provider.clone(),
                message: message.clone(),
            },
            IrisError::ProviderNotFound(id) => IrisError::ProviderNotFound(id.clone()),
            IrisError::UnsupportedCapability { provider, capability } => {
                IrisError::UnsupportedCapability {
                    provider: provider.clone(),
                    capability: capability.clone(),
                }
            },
            IrisError::NotFound(what) => IrisError::NotFound(what.clone()),
            IrisError::Config(message) => IrisError::Config(message.clone()),
            IrisError::Transport(message) => IrisError::Transport(message.clone()),
            IrisError::Serialization(message) => IrisError::Serialization(message.clone()),
            IrisError::Storage(message) => IrisError::Storage(message.clone()),
            IrisError::RealtimeUnavailable { provider, code } => IrisError::RealtimeUnavailable {
                provider: provider.clone(),
                code: code.clone(),
            },
            IrisError::RealtimeRetryExhausted { attempts, last_error } => {
                IrisError::RealtimeRetryExhausted {
                    attempts: *attempts,
                    last_error: last_error.clone(),
                }
            },
            IrisError::SlowConsumer => IrisError::SlowConsumer,
        }
    }
}

impl IrisErrorView {
    /// The error in words.
    pub open spec fn message(self) -> Seq<char> {
        match self {
            IrisErrorView::Provider { provider, message } => "provider '"@ + provider
                + "' error: "@ + message,
            IrisErrorView::ProviderNotFound(id) => "provider not found: "@ + id,
            IrisErrorView::UnsupportedCapability { provider, capability } => "provider '"@
                + provider + "' does not support capability: "@ + capability,
            IrisErrorView::NotFound(what) => "not found: "@ + what,
            IrisErrorView::Config(message) => "configuration error: "@ + message,
            IrisErrorView::Transport(message) => "transport error: "@ + message,
            IrisErrorView::Serialization(message) => "serialization error: "@ + message,
            IrisErrorView::Storage(message) => "storage error: "@ + message,
            IrisErrorView::RealtimeUnavailable { provider, code } => "provider '"@ + provider
                + "' realtime unavailable: "@ + code,
            IrisErrorView::RealtimeRetryExhausted { attempts, last_error } => {
                "realtime retries exhausted after "@ + decimal(attempts as int) + " attempts: "@
                    + last_error
            },
            IrisErrorView::SlowConsumer => "slow realtime consumer"@,
        }
    }
}

/// A configuration error.
pub fn config_error(message: &str) -> (r: IrisError)
    ensures
        r@ == IrisErrorView::Config(message@),
{
    IrisError::Config(message.to_owned())
}

/// One text behind another.
pub fn prefixed(prefix: &str, rest: &str) -> (r: String)
    ensures
        r@ == prefix@ + rest@,
{
    let mut out = prefix.to_owned();
    out.append(rest);
    out
}

fn between(before: &str, name: &str, middle: &str, rest: &str) -> (r: String)
    ensures
        r@ == before@ + name@ + middle@ + rest@,
{
    let mut out = before.to_owned();
    out.append(name);
    out.append(middle);
    out.append(rest);
    out
}

impl IrisError {
    /// The error in words.
    pub fn describe(&self) -> (r: String)
        ensures
            r@ == self@.message(),
    {
        match self {
            IrisError::Provider { provider, message } => between(
                "provider '",
                provider.as_str(),
                "' error: ",
                message.as_str(),
            ),
            IrisError::ProviderNotFound(id) => prefixed("provider not found: ", id.as_str()),
            IrisError::UnsupportedCapability { provider, capability } => between(
                "provider '",
                provider.as_str(),
                "' does not support capability: ",
                capability.as_str(),
            ),
            IrisError::NotFound(what) => prefixed("not found: ", what.as_str()),
            IrisError::Config(message) => prefixed("configuration error: ", message.as_str()),
            IrisError::Transport(message) => prefixed("transport error: ", message.as_str()),
            IrisError::Serialization(message) => prefixed(
                "serialization error: ",
                message.as_str(),
            ),
            IrisError::Storage(message) => prefixed("storage error: ", message.as_str()),
            IrisError::RealtimeUnavailable { provider, code } => between(
                "provider '",
                provider.as_str(),
                "' realtime unavailable: ",
                code.as_str(),
            ),
            IrisError::RealtimeRetryExhausted { attempts, last_error } => between(
                "realtime retries exhausted after ",
                unsigned_text(*attempts as u64).as_str(),
                " attempts: ",
                last_error.as_str(),
            ),
            IrisError::SlowConsumer => "slow realtime consumer".to_owned(),
        }
    }
}

/// An error is told by what failed and the message it bears.
pub proof fn law_errors_tell_what_failed(
    what: Seq<char>,
    provider: Seq<char>,
    attempts: u32,
)
    ensures
        (IrisErrorView::Provider { provider, message: what }).message() == "provider '"@ + provider
            + "' error: "@ + what,
        IrisErrorView::ProviderNotFound(what).message() == "provider not found: "@ + what,
        (IrisErrorView::UnsupportedCapability { provider, capability: what }).message()
            == "provider '"@ + provider + "' does not support capability: "@ + what,
        IrisErrorView::NotFound(what).message() == "not found: "@ + what,
        IrisErrorView::Config(what).message() == "configuration error: "@ + what,
        IrisErrorView::Transport(what).message() == "transport error: "@ + what,
        IrisErrorView::Serialization(what).message() == "serialization error: "@ + what,
        IrisErrorView::Storage(what).message() == "storage error: "@ + what,
        (IrisErrorView::RealtimeUnavailable { provider, code: what }).message() == "provider '"@
            + provider + "' realtime unavailable: "@ + what,
        (IrisErrorView::RealtimeRetryExhausted { attempts, last_error: what }).message()
            == "realtime retries exhausted after "@ + decimal(attempts as int) + " attempts: "@
            + what,
        IrisErrorView::SlowConsumer.message() == "slow realtime consumer"@,
{
}

} // verus!
