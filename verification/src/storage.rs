//! Attachment storage: what is stored, and what a store hands back.

use vstd::prelude::*;
use crate::error::prefixed;
use crate::ids::{uuid_text, Uuid};
use crate::text::{copy_bytes, copy_opt, view_opt};

verus! {

/// Content to be stored: the raw bytes and metadata for an attachment.
#[derive(Debug, PartialEq, Eq)]
pub struct AttachmentContent {
    /// MIME type of the attachment.
    pub mime_type: String,
    /// Original filename, if known.
    pub filename: Option<String>,
    /// Raw attachment bytes.
    pub bytes: Vec<u8>,
}

/// The mathematical value of attachment content.
#[verifier::ext_equal]
pub struct ContentView {
    pub mime_type: Seq<char>,
    pub filename: Option<Seq<char>>,
    pub bytes: Seq<u8>,
}

impl View for AttachmentContent {
    type V = ContentView;

    open spec fn view(&self) -> ContentView {
        ContentView {
            mime_type: self.mime_type@,
            filename: view_opt(self.filename),
            bytes: self.bytes@,
        }
    }
}

impl Clone for AttachmentContent {
    fn clone(&self) -> (r: AttachmentContent)
        ensures
            r@ == self@,
    {
        AttachmentContent {
            mime_type: self.mime_type.clone(),
            filename: copy_opt(&self.filename),
            bytes: copy_bytes(&self.bytes),
        }
    }
}

/// A reference to a stored attachment, returned after storing content.
#[derive(Debug, PartialEq, Eq)]
pub struct AttachmentRef {
    /// The assigned attachment ID.
    pub id: Uuid,
    /// Resolvable Iris URL: `iris://attachment/{uuid}`.
    pub url: String,
    /// MIME type of the attachment.
    pub mime_type: String,
    /// Original filename, if known.
    pub filename: Option<String>,
    /// File size in bytes.
    pub size: u64,
}

/// The reference to content that is stored under an identifier.
pub fn attachment_reference(id: Uuid, content: &AttachmentContent) -> (r: AttachmentRef)
    ensures
        r.id == id,
        r.url@ == "iris://attachment/"@ + uuid_text(id.value),
        r.mime_type@ == content@.mime_type,
        view_opt(r.filename) == content@.filename,
        r.size == content@.bytes.len(),
{
    AttachmentRef {
        id,
        url: prefixed("iris://attachment/", id.text().as_str()),
        mime_type: content.mime_type.clone(),
        filename: copy_opt(&content.filename),
        size: content.bytes.len() as u64,
    }
}

} // verus!
