//! What providers advertise.

use vstd::prelude::*;
use crate::error::{IrisError, IrisErrorView};

verus! {

/// Capabilities a provider may support. Not all providers support all operations.
#[derive(Clone, Copy, Debug, PartialEq, Eq, Structural, Hash)]
pub enum ProviderCapability {
    /// Can list historical messages.
    ListMessages,
    /// Can send outbound messages.
    SendMessages,
    /// Can send outbound attachments alongside message text.
    SendAttachments,
    /// Can list threads/conversations.
    ListThreads,
    /// Can list contacts.
    ListContacts,
    /// Supports real-time message reception (webhooks, polling, streaming).
    ReceiveRealtime,
    /// Supports marking messages as read.
    MarkRead,
    /// Supports deletion of messages.
    DeleteMessages,
}

/// Static metadata about a provider.
#[derive(Debug)]
pub struct ProviderMetadata {
    /// Short identifier (e.g. "telegram", "sms", "email").
    pub id: &'static str,
    /// Human-readable name.
    pub name: &'static str,
    /// Capabilities supported by this provider.
    pub capabilities: &'static [ProviderCapability],
}

impl ProviderMetadata {
    /// Whether this provider advertises the `ReceiveRealtime` capability.
    pub fn has_realtime(&self) -> (r: bool)
        ensures
            r == self.capabilities@.contains(ProviderCapability::ReceiveRealtime),
    {
        let mut i: usize = 0;
        while i < self.capabilities.len()
            invariant
                i <= self.capabilities@.len(),
                forall|j: int|
                    0 <= j < i ==> self.capabilities@[j] != ProviderCapability::ReceiveRealtime,
            decreases self.capabilities@.len() - i,
        {
            if self.capabilities[i] == ProviderCapability::ReceiveRealtime {
                assert(self.capabilities@[i as int] == ProviderCapability::ReceiveRealtime);
                return true;
            }
            i += 1;
        }
        false
    }
}

/// The standard error for subscribing to a provider that does not advertise `ReceiveRealtime`.
pub fn unsupported_realtime(metadata: &ProviderMetadata) -> (r: IrisError)
    ensures
        r@ == (IrisErrorView::UnsupportedCapability {
            provider: metadata.id@,
            capability: "ReceiveRealtime"@,
        }),
{
    IrisError::UnsupportedCapability {
        provider: metadata.id.to_owned(),
        capability: "ReceiveRealtime".to_owned(),
    }
}

} // verus!
