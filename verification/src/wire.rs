//! Public wire decoding for generated surfaces.
//!
//! JSON union values become [`OutboundAttachment`] variants, and raw CLI flag values become a
//! validated plan that the CLI boundary turns into inline bytes by reading local files. All
//! rejection happens here, before any provider dispatch.

use vstd::prelude::*;
use crate::decimal::{decimal, unsigned_text};
use crate::digest::{base64_decoded, decode_base64};
use crate::error::{config_error, prefixed, IrisError, IrisErrorView};
use crate::ids::{uuid_parsed, Uuid};
use crate::json::{
    find_member, lemma_array_view, lemma_object_view, lookup, member_views, Json, JsonView,
};
use crate::outbound::{OutboundAttachment, OutboundAttachmentView};
use crate::text::{
    ascii_lowercase, begins, blank, first_index, is_blank, law_pieces_make_up_the_text,
    lemma_first_index, lemma_first_index_unique, lowered_ascii, split_char, split_on, starts_with,
    str_eq, strip_prefix, view_list, view_opt, view_result, views,
};

verus! {

/// MIME type used when a local attachment's extension is not recognized.
pub const FALLBACK_MIME_TYPE: &'static str = "application/octet-stream";

/// The members of an object.
pub type Members = Seq<(Seq<char>, JsonView)>;

/// Whether an object has a member of the name.
pub open spec fn has_member(object: Members, key: Seq<char>) -> bool {
    find_member(object, key) is Some
}

/// Whether a name belongs to an inline attachment.
pub open spec fn inline_field(key: Seq<char>) -> bool {
    key == "mime_type"@ || key == "filename"@ || key == "data_base64"@
}

/// The first name that does not belong to an inline attachment.
pub open spec fn unknown_field(object: Members) -> Option<Seq<char>>
    decreases object.len(),
{
    if object.len() == 0 {
        None
    } else if !inline_field(object[0].0) {
        Some(object[0].0)
    } else {
        unknown_field(object.drop_first())
    }
}

/// What a stored attachment decodes to.
pub open spec fn stored_of(object: Members) -> Result<OutboundAttachmentView, IrisErrorView> {
    if object.len() != 1 {
        Err(IrisErrorView::Config("stored attachment must carry only stored_id"@))
    } else {
        match JsonView::Object(object).member_text("stored_id"@) {
            None => Err(
                IrisErrorView::Config("stored attachment stored_id must be a UUID string"@),
            ),
            Some(raw) => match uuid_parsed(raw) {
                Ok(value) => Ok(OutboundAttachmentView::Stored(Uuid { value })),
                Err(_) => Err(
                    IrisErrorView::Config("stored attachment has an invalid UUID: "@ + raw),
                ),
            },
        }
    }
}

/// The optional filename of an inline attachment.
pub open spec fn filename_of(object: Members) -> Result<Option<Seq<char>>, IrisErrorView> {
    match find_member(object, "filename"@) {
        None => Ok(None),
        Some(JsonView::Null) => Err(
            IrisErrorView::Config(
                "inline attachment filename must be a string when present (null is not allowed)"@,
            ),
        ),
        Some(JsonView::Text(text)) => Ok(Some(text)),
        Some(_) => Err(IrisErrorView::Config("inline attachment filename must be a string"@)),
    }
}

/// What an inline attachment decodes to.
pub open spec fn inline_of(object: Members) -> Result<OutboundAttachmentView, IrisErrorView> {
    if unknown_field(object) is Some {
        Err(
            IrisErrorView::Config(
                "inline attachment carries an unknown field: "@ + unknown_field(object)->0,
            ),
        )
    } else {
        match JsonView::Object(object).member_text("mime_type"@) {
            None => Err(
                IrisErrorView::Config("inline attachment requires a mime_type string"@),
            ),
            Some(mime_type) => if blank(mime_type) {
                Err(IrisErrorView::Config("inline attachment requires a non-empty mime_type"@))
            } else {
                match JsonView::Object(object).member_text("data_base64"@) {
                    None => Err(
                        IrisErrorView::Config("inline attachment requires a data_base64 string"@),
                    ),
                    Some(data) => match base64_decoded(data) {
                        Err(_) => Err(
                            IrisErrorView::Config(
                                "inline attachment data_base64 is not valid base64"@,
                            ),
                        ),
                        Ok(bytes) => if bytes.len() == 0 {
                            Err(
                                IrisErrorView::Config(
                                    "inline attachment requires non-empty bytes"@,
                                ),
                            )
                        } else {
                            match filename_of(object) {
                                Ok(filename) => Ok(
                                    OutboundAttachmentView::Bytes { mime_type, filename, bytes },
                                ),
                                Err(error) => Err(error),
                            }
                        },
                    },
                }
            },
        }
    }
}

/// What one item of the `attachments` field decodes to.
pub open spec fn item_of(item: JsonView) -> Result<OutboundAttachmentView, IrisErrorView> {
    match item {
        JsonView::Object(object) => {
            let has_inline = has_member(object, "mime_type"@) || has_member(
                object,
                "data_base64"@,
            );
            let has_stored = has_member(object, "stored_id"@);
            if has_inline && has_stored {
                Err(
                    IrisErrorView::Config(
                        "attachment mixes inline and stored fields; use exactly one variant"@,
                    ),
                )
            } else if has_stored {
                stored_of(object)
            } else if !has_inline {
                Err(
                    IrisErrorView::Config(
                        "attachment must be inline (mime_type + data_base64) or stored (stored_id)"@,
                    ),
                )
            } else {
                inline_of(object)
            }
        },
        _ => Err(IrisErrorView::Config("each attachment must be an object"@)),
    }
}

/// What the items decode to: every one in order, or the first error.
pub open spec fn items_of(items: Seq<JsonView>) -> Result<
    Seq<OutboundAttachmentView>,
    IrisErrorView,
>
    decreases items.len(),
{
    if items.len() == 0 {
        Ok(seq![])
    } else {
        match items_of(items.drop_last()) {
            Ok(done) => match item_of(items.last()) {
                Ok(next) => Ok(done.push(next)),
                Err(error) => Err(error),
            },
            Err(error) => Err(error),
        }
    }
}

/// What the `attachments` field decodes to.
pub open spec fn attachments_of(value: Option<JsonView>) -> Result<
    Seq<OutboundAttachmentView>,
    IrisErrorView,
> {
    match value {
        None => Ok(seq![]),
        Some(JsonView::Null) => Ok(seq![]),
        Some(JsonView::Array(items)) => items_of(items),
        Some(_) => Err(IrisErrorView::Config("attachments must be an array"@)),
    }
}

/// An error among the first items is the error of them all.
proof fn lemma_items_prefix(items: Seq<JsonView>, n: int)
    requires
        0 <= n <= items.len(),
    ensures
        items_of(items.take(n)) is Err ==> items_of(items) == items_of(items.take(n)),
    decreases items.len() - n,
{
    if n < items.len() {
        lemma_items_prefix(items, n + 1);
        assert(items.take(n + 1).drop_last() =~= items.take(n));
    } else {
        assert(items.take(n) =~= items);
    }
}

/// Decoding keeps the order of the items: item for item, all or none.
pub proof fn law_decoding_keeps_order(items: Seq<JsonView>)
    ensures
        items_of(items) is Ok <==> forall|i: int|
            0 <= i < items.len() ==> item_of(#[trigger] items[i]) is Ok,
        items_of(items) matches Ok(done) ==> done.len() == items.len() && forall|i: int|
            0 <= i < done.len() ==> item_of(items[i]) == Ok::<
                OutboundAttachmentView,
                IrisErrorView,
            >(#[trigger] done[i]),
    decreases items.len(),
{
    if items.len() > 0 {
        let front = items.drop_last();
        law_decoding_keeps_order(front);
        if forall|i: int| 0 <= i < items.len() ==> item_of(#[trigger] items[i]) is Ok {
            assert forall|i: int| 0 <= i < front.len() implies item_of(#[trigger] front[i]) is Ok by {
                assert(front[i] == items[i]);
            }
            assert(item_of(items[items.len() - 1]) is Ok);
        }
        if items_of(items) is Ok {
            assert forall|i: int| 0 <= i < items.len() implies item_of(#[trigger] items[i]) is Ok by {
                if i < front.len() {
                    assert(front[i] == items[i]);
                }
            }
        }
    }
}

/// What is decoded can be dispatched: an inline attachment has a MIME type and bytes.
pub proof fn law_decoded_is_valid(item: JsonView)
    ensures
        item_of(item) matches Ok(OutboundAttachmentView::Bytes { mime_type, bytes, .. }) ==> !blank(
            mime_type,
        ) && bytes.len() > 0,
{
}

/// Decode the optional `attachments` body field of `send_message`.
///
/// `None` and JSON `null` decode to an empty list. Any other value must be an array whose items
/// are exactly one of the closed union variants:
///
/// - inline: required `mime_type` (non-empty) and `data_base64` (valid, non-empty decode),
///   optional `filename`, nothing else
/// - stored: exactly one key `stored_id` holding a valid UUID
pub fn decode_attachments(value: Option<&Json>) -> (r: Result<Vec<OutboundAttachment>, IrisError>)
    ensures
        view_list(r) == attachments_of(
            match value {
                Some(value) => Some(value@),
                None => None,
            },
        ),
{
    let value = match value {
        Some(value) => value,
        None => {
            let none: Vec<OutboundAttachment> = Vec::new();
            assert(views(none@) =~= seq![]);
            return Ok(none);
        },
    };
    match value {
        Json::Null => {
            let none: Vec<OutboundAttachment> = Vec::new();
            assert(views(none@) =~= seq![]);
            Ok(none)
        },
        Json::Array(items) => {
            proof {
                lemma_array_view(*items);
            }
            decode_items(items)
        },
        _ => Err(config_error("attachments must be an array")),
    }
}

fn decode_items(items: &Vec<Json>) -> (r: Result<Vec<OutboundAttachment>, IrisError>)
    ensures
        view_list(r) == items_of(views(items@)),
{
    let ghost all = views(items@);
    let mut out: Vec<OutboundAttachment> = Vec::new();
    let mut i: usize = 0;
    assert(all.take(0) =~= seq![]);
    assert(views(out@) =~= seq![]);
    while i < items.len()
        invariant
            i <= items@.len(),
            all == views(items@),
            items_of(all.take(i as int)) == Ok::<Seq<OutboundAttachmentView>, IrisErrorView>(
                views(out@),
            ),
        decreases items@.len() - i,
    {
        let ghost before = out@;
        proof {
            let next = all.take(i + 1);
            assert(next.drop_last() =~= all.take(i as int));
            assert(next.last() == items@[i as int]@);
            lemma_items_prefix(all, i + 1);
        }
        match decode_item(&items[i]) {
            Ok(item) => {
                out.push(item);
                assert(views(out@) =~= views(before).push(item@));
            },
            Err(error) => return Err(error),
        }
        i += 1;
    }
    assert(all.take(all.len() as int) =~= all);
    Ok(out)
}

fn find_unknown_field(object: &Vec<(String, Json)>) -> (r: Option<String>)
    ensures
        view_opt(r) == unknown_field(member_views(object@)),
{
    let ghost all = member_views(object@);
    let mut i: usize = 0;
    assert(all.skip(0) =~= all);
    while i < object.len()
        invariant
            i <= object@.len(),
            all == member_views(object@),
            unknown_field(all) == unknown_field(all.skip(i as int)),
        decreases object@.len() - i,
    {
        assert(all.skip(i as int)[0] == all[i as int]);
        let key = object[i].0.as_str();
        if !(str_eq(key, "mime_type") || str_eq(key, "filename") || str_eq(key, "data_base64")) {
            return Some(key.to_owned());
        }
        assert(all.skip(i as int).drop_first() =~= all.skip(i + 1));
        i += 1;
    }
    None
}

fn decode_stored(object: &Vec<(String, Json)>) -> (r: Result<OutboundAttachment, IrisError>)
    ensures
        view_result(r) == stored_of(member_views(object@)),
{
    if object.len() != 1 {
        return Err(config_error("stored attachment must carry only stored_id"));
    }
    let raw = match lookup(object, "stored_id") {
        Some(Json::Text(raw)) => raw.as_str(),
        _ => return Err(config_error("stored attachment stored_id must be a UUID string")),
    };
    match Uuid::parse(raw) {
        Ok(id) => Ok(OutboundAttachment::Stored(id)),
        Err(_) => Err(
            IrisError::Config(prefixed("stored attachment has an invalid UUID: ", raw)),
        ),
    }
}

fn decode_filename(object: &Vec<(String, Json)>) -> (r: Result<Option<String>, IrisError>)
    ensures
        match r {
            Ok(name) => filename_of(member_views(object@)) == Ok::<
                Option<Seq<char>>,
                IrisErrorView,
            >(view_opt(name)),
            Err(error) => filename_of(member_views(object@)) == Err::<
                Option<Seq<char>>,
                IrisErrorView,
            >(error@),
        },
{
    match lookup(object, "filename") {
        None => Ok(None),
        Some(Json::Null) => Err(
            config_error(
                "inline attachment filename must be a string when present (null is not allowed)",
            ),
        ),
        Some(Json::Text(text)) => Ok(Some(text.clone())),
        Some(_) => Err(config_error("inline attachment filename must be a string")),
    }
}

fn decode_inline(object: &Vec<(String, Json)>) -> (r: Result<OutboundAttachment, IrisError>)
    ensures
        view_result(r) == inline_of(member_views(object@)),
{
    if let Some(key) = find_unknown_field(object) {
        return Err(
            IrisError::Config(
                prefixed("inline attachment carries an unknown field: ", key.as_str()),
            ),
        );
    }
    let mime_type = match lookup(object, "mime_type") {
        Some(Json::Text(text)) => text.as_str(),
        _ => return Err(config_error("inline attachment requires a mime_type string")),
    };
    if is_blank(mime_type) {
        return Err(config_error("inline attachment requires a non-empty mime_type"));
    }
    let data_base64 = match lookup(object, "data_base64") {
        Some(Json::Text(text)) => text.as_str(),
        _ => return Err(config_error("inline attachment requires a data_base64 string")),
    };
    let bytes = match decode_base64(data_base64) {
        Ok(bytes) => bytes,
        Err(_) => return Err(config_error("inline attachment data_base64 is not valid base64")),
    };
    if bytes.len() == 0 {
        return Err(config_error("inline attachment requires non-empty bytes"));
    }
    match decode_filename(object) {
        Ok(filename) => Ok(
            OutboundAttachment::Bytes { mime_type: mime_type.to_owned(), filename, bytes },
        ),
        Err(error) => Err(error),
    }
}

/// Decodes one item of the `attachments` field.
pub fn decode_item(item: &Json) -> (r: Result<OutboundAttachment, IrisError>)
    ensures
        view_result(r) == item_of(item@),
{
    let object = match item {
        Json::Object(object) => object,
        _ => return Err(config_error("each attachment must be an object")),
    };
    proof {
        lemma_object_view(*object);
    }
    let has_inline = lookup(object, "mime_type").is_some() || lookup(
        object,
        "data_base64",
    ).is_some();
    let has_stored = lookup(object, "stored_id").is_some();
    if has_inline && has_stored {
        return Err(
            config_error("attachment mixes inline and stored fields; use exactly one variant"),
        );
    }
    if has_stored {
        return decode_stored(object);
    }
    if !has_inline {
        return Err(
            config_error(
                "attachment must be inline (mime_type + data_base64) or stored (stored_id)",
            ),
        );
    }
    decode_inline(object)
}

/// One planned `--attach` value, before any file is read.
#[derive(Debug, PartialEq, Eq)]
pub enum PlannedAttachment {
    /// A local file to read at the CLI boundary, with the MIME type to send and the filename to
    /// attribute (the file's own name).
    LocalFile {
        /// Filesystem path to read.
        path: String,
        /// MIME type resolved for this attachment.
        mime_type: String,
        /// Filename to attribute, if any.
        filename: Option<String>,
    },
    /// A stored `iris://attachment/{uuid}` reference.
    Stored(Uuid),
}

/// The mathematical value of a planned attachment.
#[verifier::ext_equal]
pub enum PlannedAttachmentView {
    LocalFile { path: Seq<char>, mime_type: Seq<char>, filename: Option<Seq<char>> },
    Stored(Uuid),
}

impl View for PlannedAttachment {
    type V = PlannedAttachmentView;

    open spec fn view(&self) -> PlannedAttachmentView {
        match *self {
            PlannedAttachment::LocalFile { path, mime_type, filename } => {
                PlannedAttachmentView::LocalFile {
                    path: path@,
                    mime_type: mime_type@,
                    filename: view_opt(filename),
                }
            },
            PlannedAttachment::Stored(id) => PlannedAttachmentView::Stored(id),
        }
    }
}

/// The last of the pieces of a path that names something.
pub open spec fn last_component(pieces: Seq<Seq<char>>) -> Option<Seq<char>>
    decreases pieces.len(),
{
    if pieces.len() == 0 {
        None
    } else if pieces.last().len() == 0 || pieces.last() == "."@ {
        last_component(pieces.drop_last())
    } else {
        Some(pieces.last())
    }
}

/// The file name of a path whose components `/` separates: the last component that is neither
/// empty nor `.`, unless it is `..`.
pub open spec fn file_name_of(path: Seq<char>) -> Option<Seq<char>> {
    match last_component(split_on(path, '/')) {
        Some(name) => if name == ".."@ {
            None
        } else {
            Some(name)
        },
        None => None,
    }
}

/// The extension of a path: what follows the last `.` of its file name, if something precedes it.
pub open spec fn extension_of(path: Seq<char>) -> Option<Seq<char>> {
    match file_name_of(path) {
        Some(name) => {
            let pieces = split_on(name, '.');
            if pieces.len() < 2 || (pieces.len() == 2 && pieces[0].len() == 0) {
                None
            } else {
                Some(pieces.last())
            }
        },
        None => None,
    }
}

/// The MIME type of a lower-case extension.
pub open spec fn mime_of(extension: Seq<char>) -> Seq<char> {
    if extension == "png"@ {
        "image/png"@
    } else if extension == "jpg"@ || extension == "jpeg"@ {
        "image/jpeg"@
    } else if extension == "gif"@ {
        "image/gif"@
    } else if extension == "webp"@ {
        "image/webp"@
    } else if extension == "bmp"@ {
        "image/bmp"@
    } else if extension == "svg"@ {
        "image/svg+xml"@
    } else if extension == "txt"@ {
        "text/plain"@
    } else if extension == "md"@ {
        "text/markdown"@
    } else if extension == "csv"@ {
        "text/csv"@
    } else if extension == "html"@ || extension == "htm"@ {
        "text/html"@
    } else if extension == "json"@ {
        "application/json"@
    } else if extension == "xml"@ {
        "application/xml"@
    } else if extension == "pdf"@ {
        "application/pdf"@
    } else if extension == "zip"@ {
        "application/zip"@
    } else if extension == "gz"@ {
        "application/gzip"@
    } else if extension == "mp3"@ {
        "audio/mpeg"@
    } else if extension == "wav"@ {
        "audio/wav"@
    } else if extension == "ogg"@ {
        "audio/ogg"@
    } else if extension == "m4a"@ {
        "audio/mp4"@
    } else if extension == "flac"@ {
        "audio/flac"@
    } else if extension == "mp4"@ {
        "video/mp4"@
    } else if extension == "webm"@ {
        "video/webm"@
    } else if extension == "mkv"@ {
        "video/x-matroska"@
    } else if extension == "mov"@ {
        "video/quicktime"@
    } else {
        "application/octet-stream"@
    }
}

/// The MIME type inferred from a path.
pub open spec fn inferred_mime(path: Seq<char>) -> Seq<char> {
    match extension_of(path) {
        Some(extension) => mime_of(lowered_ascii(extension)),
        None => "application/octet-stream"@,
    }
}

fn file_name(path: &str) -> (r: Option<String>)
    ensures
        view_opt(r) == file_name_of(path@),
{
    let pieces = split_char(path, '/');
    let ghost all = views(pieces@);
    let mut n: usize = pieces.len();
    assert(all.take(all.len() as int) =~= all);
    while n > 0
        invariant
            n <= pieces@.len(),
            all == views(pieces@),
            all == split_on(path@, '/'),
            last_component(all) == last_component(all.take(n as int)),
        decreases n,
    {
        let ghost front = all.take(n as int);
        assert(front.last() == pieces@[n - 1]@);
        let piece = pieces[n - 1].as_str();
        if !(piece.is_empty() || str_eq(piece, ".")) {
            if str_eq(piece, "..") {
                return None;
            }
            return Some(piece.to_owned());
        }
        assert(front.drop_last() =~= all.take(n - 1));
        n -= 1;
    }
    None
}

fn extension(path: &str) -> (r: Option<String>)
    ensures
        view_opt(r) == extension_of(path@),
{
    match file_name(path) {
        Some(name) => {
            let pieces = split_char(name.as_str(), '.');
            assert(views(pieces@).len() == pieces@.len());
            assert(views(pieces@)[0] == pieces@[0]@);
            if pieces.len() < 2 || (pieces.len() == 2 && pieces[0].as_str().is_empty()) {
                None
            } else {
                assert(views(pieces@).last() == pieces@[pieces@.len() - 1]@);
                Some(pieces[pieces.len() - 1].clone())
            }
        },
        None => None,
    }
}

/// Infer a MIME type from a file extension, defaulting to [`FALLBACK_MIME_TYPE`].
///
/// The path is one whose components `/` separates.
pub fn infer_mime_type(path: &str) -> (r: String)
    ensures
        r@ == inferred_mime(path@),
{
    let extension = match extension(path) {
        Some(extension) => ascii_lowercase(extension.as_str()),
        None => return "application/octet-stream".to_owned(),
    };
    let ext = extension.as_str();
    let mime = if str_eq(ext, "png") {
        "image/png"
    } else if str_eq(ext, "jpg") || str_eq(ext, "jpeg") {
        "image/jpeg"
    } else if str_eq(ext, "gif") {
        "image/gif"
    } else if str_eq(ext, "webp") {
        "image/webp"
    } else if str_eq(ext, "bmp") {
        "image/bmp"
    } else if str_eq(ext, "svg") {
        "image/svg+xml"
    } else if str_eq(ext, "txt") {
        "text/plain"
    } else if str_eq(ext, "md") {
        "text/markdown"
    } else if str_eq(ext, "csv") {
        "text/csv"
    } else if str_eq(ext, "html") || str_eq(ext, "htm") {
        "text/html"
    } else if str_eq(ext, "json") {
        "application/json"
    } else if str_eq(ext, "xml") {
        "application/xml"
    } else if str_eq(ext, "pdf") {
        "application/pdf"
    } else if str_eq(ext, "zip") {
        "application/zip"
    } else if str_eq(ext, "gz") {
        "application/gzip"
    } else if str_eq(ext, "mp3") {
        "audio/mpeg"
    } else if str_eq(ext, "wav") {
        "audio/wav"
    } else if str_eq(ext, "ogg") {
        "audio/ogg"
    } else if str_eq(ext, "m4a") {
        "audio/mp4"
    } else if str_eq(ext, "flac") {
        "audio/flac"
    } else if str_eq(ext, "mp4") {
        "video/mp4"
    } else if str_eq(ext, "webm") {
        "video/webm"
    } else if str_eq(ext, "mkv") {
        "video/x-matroska"
    } else if str_eq(ext, "mov") {
        "video/quicktime"
    } else {
        "application/octet-stream"
    };
    mime.to_owned()
}

/// Whether an `--attach` value is a local path.
pub open spec fn is_local(value: Seq<char>) -> bool {
    !begins(value, "iris://"@)
}

/// How many of the `--attach` values are local paths.
pub open spec fn local_count(attach: Seq<Seq<char>>) -> nat
    decreases attach.len(),
{
    if attach.len() == 0 {
        0
    } else {
        local_count(attach.drop_last()) + if is_local(attach.last()) {
            1nat
        } else {
            0
        }
    }
}

/// What one `--attach` value plans to, `mime` being the override for it, if there is one.
pub open spec fn planned_one(value: Seq<char>, mime: Option<Seq<char>>) -> Result<
    PlannedAttachmentView,
    IrisErrorView,
> {
    let prefix = "iris://attachment/"@;
    if begins(value, prefix) {
        match uuid_parsed(value.skip(prefix.len() as int)) {
            Ok(value) => Ok(PlannedAttachmentView::Stored(Uuid { value })),
            Err(_) => Err(
                IrisErrorView::Config("invalid stored attachment reference: "@ + value),
            ),
        }
    } else if begins(value, "iris://"@) {
        Err(
            IrisErrorView::Config(
                "unsupported iris:// reference (expected iris://attachment/UUID): "@ + value,
            ),
        )
    } else {
        let mime_type = match mime {
            Some(mime) => mime,
            None => inferred_mime(value),
        };
        if blank(mime_type) {
            Err(IrisErrorView::Config("--attach-mime values must be non-empty MIME types"@))
        } else {
            Ok(
                PlannedAttachmentView::LocalFile {
                    path: value,
                    mime_type,
                    filename: file_name_of(value),
                },
            )
        }
    }
}

/// The MIME override at a position, if there are so many.
pub open spec fn override_at(mimes: Seq<Seq<char>>, n: nat) -> Option<Seq<char>> {
    if n < mimes.len() {
        Some(mimes[n as int])
    } else {
        None
    }
}

/// What the values plan to: each local path takes the override at its place among the local paths.
pub open spec fn planned_each(attach: Seq<Seq<char>>, mimes: Seq<Seq<char>>) -> Result<
    Seq<PlannedAttachmentView>,
    IrisErrorView,
>
    decreases attach.len(),
{
    if attach.len() == 0 {
        Ok(seq![])
    } else {
        let front = attach.drop_last();
        match planned_each(front, mimes) {
            Ok(done) => match planned_one(attach.last(), override_at(mimes, local_count(front))) {
                Ok(next) => Ok(done.push(next)),
                Err(error) => Err(error),
            },
            Err(error) => Err(error),
        }
    }
}

/// What the `--attach` and `--attach-mime` values plan to.
pub open spec fn plan_of(attach: Seq<Seq<char>>, mimes: Seq<Seq<char>>) -> Result<
    Seq<PlannedAttachmentView>,
    IrisErrorView,
> {
    if mimes.len() > 0 && mimes.len() != local_count(attach) {
        Err(
            IrisErrorView::Config(
                "--attach-mime supplied "@ + decimal(mimes.len() as int) + " value(s) for "@
                    + decimal(local_count(attach) as int)
                    + " local-path attachment(s); counts must match exactly and apply in order"@,
            ),
        )
    } else {
        planned_each(attach, mimes)
    }
}

proof fn lemma_planned_prefix(attach: Seq<Seq<char>>, mimes: Seq<Seq<char>>, n: int)
    requires
        0 <= n <= attach.len(),
    ensures
        planned_each(attach.take(n), mimes) is Err ==> planned_each(attach, mimes)
            == planned_each(attach.take(n), mimes),
    decreases attach.len() - n,
{
    if n < attach.len() {
        lemma_planned_prefix(attach, mimes, n + 1);
        assert(attach.take(n + 1).drop_last() =~= attach.take(n));
    } else {
        assert(attach.take(n) =~= attach);
    }
}

/// The plan keeps the order of the values, and each local path takes the override at its place
/// among the local paths.
pub proof fn law_plan_keeps_order(attach: Seq<Seq<char>>, mimes: Seq<Seq<char>>, i: int)
    requires
        plan_of(attach, mimes) is Ok,
        0 <= i < attach.len(),
    ensures
        plan_of(attach, mimes)->Ok_0.len() == attach.len(),
        planned_one(attach[i], override_at(mimes, local_count(attach.take(i)))) == Ok::<
            PlannedAttachmentView,
            IrisErrorView,
        >(plan_of(attach, mimes)->Ok_0[i]),
{
    lemma_plan_order(attach, mimes, i);
}

proof fn lemma_plan_order(attach: Seq<Seq<char>>, mimes: Seq<Seq<char>>, i: int)
    requires
        planned_each(attach, mimes) is Ok,
        0 <= i < attach.len(),
    ensures
        planned_each(attach, mimes)->Ok_0.len() == attach.len(),
        planned_one(attach[i], override_at(mimes, local_count(attach.take(i)))) == Ok::<
            PlannedAttachmentView,
            IrisErrorView,
        >(planned_each(attach, mimes)->Ok_0[i]),
    decreases attach.len(),
{
    let front = attach.drop_last();
    if front.len() > 0 {
        lemma_plan_order(front, mimes, if i < front.len() { i } else { 0 });
    } else {
        assert(planned_each(front, mimes) == Ok::<Seq<PlannedAttachmentView>, IrisErrorView>(
            seq![],
        ));
    }
    if i < front.len() {
        assert(front.take(i) =~= attach.take(i));
        assert(front[i] == attach[i]);
    } else {
        assert(attach.take(i) =~= front);
    }
}

/// A reference that was written for a stored attachment is planned as that attachment.
pub proof fn law_stored_reference_is_planned(text: Seq<char>, id: Uuid)
    requires
        uuid_parsed(text) == Ok::<u128, Seq<char>>(id.value),
    ensures
        plan_of(seq!["iris://attachment/"@ + text], seq![]) == Ok::<
            Seq<PlannedAttachmentView>,
            IrisErrorView,
        >(seq![PlannedAttachmentView::Stored(id)]),
{
    let prefix = "iris://attachment/"@;
    let value = prefix + text;
    let attach = seq![value];
    assert(value.take(prefix.len() as int) =~= prefix);
    assert(value.skip(prefix.len() as int) =~= text);
    assert(attach.drop_last() =~= seq![]);
    assert(attach.last() == value);
    assert(planned_each(attach.drop_last(), seq![]) == Ok::<
        Seq<PlannedAttachmentView>,
        IrisErrorView,
    >(seq![]));
    assert(Seq::<PlannedAttachmentView>::empty().push(PlannedAttachmentView::Stored(id)) =~= seq![
        PlannedAttachmentView::Stored(id),
    ]);
}

/// Plan repeatable `--attach` / `--attach-mime` CLI values.
///
/// Each raw `--attach` value is either a local path or an `iris://attachment/{uuid}` reference.
/// When `attach_mime` is non-empty it must contain exactly one value per local-path attachment,
/// applied in local-path order (stored references consume none); each value overrides MIME
/// inference for its attachment. When empty, MIME types are inferred from file extensions with
/// [`FALLBACK_MIME_TYPE`] as the default.
pub fn plan_attachments(attach: &Vec<String>, attach_mime: &Vec<String>) -> (r: Result<
    Vec<PlannedAttachment>,
    IrisError,
>)
    ensures
        view_list(r) == plan_of(views(attach@), views(attach_mime@)),
{
    let ghost values = views(attach@);
    let ghost mimes = views(attach_mime@);
    let mut count: usize = 0;
    let mut i: usize = 0;
    assert(values.take(0) =~= seq![]);
    while i < attach.len()
        invariant
            i <= attach@.len(),
            count <= i,
            values == views(attach@),
            count == local_count(values.take(i as int)),
        decreases attach@.len() - i,
    {
        proof {
            let next = values.take(i + 1);
            assert(next.drop_last() =~= values.take(i as int));
            assert(next.last() == attach@[i as int]@);
        }
        if !starts_with(attach[i].as_str(), "iris://") {
            count += 1;
        }
        i += 1;
    }
    assert(values.take(values.len() as int) =~= values);
    assert(mimes.len() == attach_mime@.len());
    if attach_mime.len() > 0 && attach_mime.len() != count {
        let mut message = prefixed(
            "--attach-mime supplied ",
            unsigned_text(attach_mime.len() as u64).as_str(),
        );
        message.append(" value(s) for ");
        message.append(unsigned_text(count as u64).as_str());
        message.append(
            " local-path attachment(s); counts must match exactly and apply in order",
        );
        return Err(IrisError::Config(message));
    }
    plan_each(attach, attach_mime)
}

fn plan_each(attach: &Vec<String>, attach_mime: &Vec<String>) -> (r: Result<
    Vec<PlannedAttachment>,
    IrisError,
>)
    ensures
        view_list(r) == planned_each(views(attach@), views(attach_mime@)),
{
    let ghost values = views(attach@);
    let ghost mimes = views(attach_mime@);
    let mut planned: Vec<PlannedAttachment> = Vec::new();
    let mut used: usize = 0;
    let mut i: usize = 0;
    assert(values.take(0) =~= seq![]);
    assert(views(planned@) =~= seq![]);
    while i < attach.len()
        invariant
            i <= attach@.len(),
            used <= i,
            values == views(attach@),
            mimes == views(attach_mime@),
            used == local_count(values.take(i as int)),
            planned_each(values.take(i as int), mimes) == Ok::<
                Seq<PlannedAttachmentView>,
                IrisErrorView,
            >(views(planned@)),
        decreases attach@.len() - i,
    {
        let ghost before = planned@;
        proof {
            let next = values.take(i + 1);
            assert(next.drop_last() =~= values.take(i as int));
            assert(next.last() == attach@[i as int]@);
            lemma_planned_prefix(values, mimes, i + 1);
        }
        let value = attach[i].as_str();
        let given = if used < attach_mime.len() {
            assert(mimes[used as int] == attach_mime@[used as int]@);
            Some(attach_mime[used].as_str())
        } else {
            None
        };
        if !starts_with(value, "iris://") {
            used += 1;
        }
        match plan_one(value, given) {
            Ok(item) => {
                planned.push(item);
                assert(views(planned@) =~= views(before).push(item@));
            },
            Err(error) => return Err(error),
        }
        i += 1;
    }
    assert(values.take(values.len() as int) =~= values);
    Ok(planned)
}

fn plan_one(value: &str, given: Option<&str>) -> (r: Result<PlannedAttachment, IrisError>)
    ensures
        view_result(r) == planned_one(
            value@,
            match given {
                Some(mime) => Some(mime@),
                None => None,
            },
        ),
{
    if let Some(raw) = strip_prefix(value, "iris://attachment/") {
        return match Uuid::parse(raw) {
            Ok(id) => Ok(PlannedAttachment::Stored(id)),
            Err(_) => Err(
                IrisError::Config(prefixed("invalid stored attachment reference: ", value)),
            ),
        };
    }
    if starts_with(value, "iris://") {
        return Err(
            IrisError::Config(
                prefixed(
                    "unsupported iris:// reference (expected iris://attachment/UUID): ",
                    value,
                ),
            ),
        );
    }
    let mime_type = match given {
        Some(mime) => mime.to_owned(),
        None => infer_mime_type(value),
    };
    if is_blank(mime_type.as_str()) {
        return Err(config_error("--attach-mime values must be non-empty MIME types"));
    }
    Ok(
        PlannedAttachment::LocalFile {
            path: value.to_owned(),
            mime_type,
            filename: file_name(value),
        },
    )
}

/// Whether the name of a file, in a directory or not, is that of a path.
pub open spec fn path_of(path: Seq<char>, name: Seq<char>) -> bool {
    path == name || exists|directory: Seq<char>| path == #[trigger] (directory + seq!['/']) + name
}

proof fn lemma_split_behind(s: Seq<char>, c: char, t: Seq<char>)
    ensures
        split_on(s + seq![c] + t, c) == split_on(s, c) + split_on(t, c),
    decreases s.len(),
{
    let all = s + seq![c] + t;
    lemma_first_index(s, c);
    lemma_first_index(all, c);
    let at = first_index(s, c);
    assert(all[s.len() as int] == c);
    assert forall|i: int| 0 <= i < at implies all[i] != c by {
        assert(all[i] == s[i]);
    }
    if at < s.len() {
        assert(all[at] == c);
    }
    lemma_first_index_unique(all, c, at);
    if at < s.len() {
        let rest = s.skip(at + 1);
        lemma_split_behind(rest, c, t);
        assert(all.skip(at + 1) =~= rest + seq![c] + t);
        assert(all.take(at) =~= s.take(at));
        assert(seq![s.take(at)] + (split_on(rest, c) + split_on(t, c)) =~= seq![s.take(at)]
            + split_on(rest, c) + split_on(t, c));
    } else {
        assert(all.take(at) =~= s);
        assert(all.skip(at + 1) =~= t);
    }
}

/// A file is named by what stands behind the last slash of its path, and its extension is what
/// stands behind the last dot of the name; a name that only begins with a dot has none.
pub proof fn law_files_are_named_by_the_end_of_their_path(
    path: Seq<char>,
    stem: Seq<char>,
    extension: Seq<char>,
)
    requires
        !stem.contains('/'),
        !extension.contains('/'),
        !extension.contains('.'),
        stem.len() > 0,
    ensures
        path_of(path, stem + seq!['.'] + extension) && stem + seq!['.'] + extension != ".."@
            ==> file_name_of(path) == Some(stem + seq!['.'] + extension) && extension_of(path)
            == Some(extension),
        path_of(path, stem) && !stem.contains('.') ==> file_name_of(path) == Some(stem)
            && extension_of(path) is None,
{
    reveal_strlit(".");
    reveal_strlit("..");
    let name = stem + seq!['.'] + extension;
    assert(!name.contains('/')) by {
        if name.contains('/') {
            let i = choose|i: int| 0 <= i < name.len() && name[i] == '/';
            if i < stem.len() {
                assert(stem[i] == '/');
            } else {
                assert(extension[i - stem.len() - 1] == '/');
            }
        }
    }
    assert("."@.len() == 1 && "."@[0] == '.' && ".."@.len() == 2 && ".."@[0] == '.');
    if path_of(path, name) {
        lemma_last_piece(path, name);
        assert(name.len() >= 2);
        lemma_split_behind(stem, '.', extension);
        lemma_first_index(extension, '.');
        assert(split_on(extension, '.') =~= seq![extension]);
        law_pieces_make_up_the_text(stem, '.');
        let pieces = split_on(name, '.');
        assert(pieces.last() == extension);
        if pieces.len() == 2 {
            assert(split_on(stem, '.').len() == 1);
            assert(split_on(stem, '.')[0] == stem);
            assert(pieces[0] == stem);
        }
    }
    if path_of(path, stem) && !stem.contains('.') {
        assert(stem != "."@ && stem != ".."@) by {
            if stem == "."@ || stem == ".."@ {
                assert(stem[0] == '.');
            }
        }
        lemma_last_piece(path, stem);
        lemma_first_index(stem, '.');
    }
}

proof fn lemma_last_piece(path: Seq<char>, name: Seq<char>)
    requires
        path_of(path, name),
        !name.contains('/'),
        name.len() > 0,
        name != "."@,
    ensures
        last_component(split_on(path, '/')) == Some(name),
{
    lemma_first_index(name, '/');
    assert(split_on(name, '/') =~= seq![name]);
    if path != name {
        let directory = choose|directory: Seq<char>|
            path == #[trigger] (directory + seq!['/']) + name;
        lemma_split_behind(directory, '/', name);
    }
    assert(split_on(path, '/').last() == name);
}

/// An inline attachment is an object of a MIME type that is not blank, of data that decodes to at
/// least one byte, and perhaps of a name, and of nothing else.
pub proof fn law_inline_items_are_decoded(
    object: Members,
    mime_type: Seq<char>,
    filename: Option<Seq<char>>,
    bytes: Seq<u8>,
)
    ensures
        item_of(JsonView::Object(object)) == Ok::<OutboundAttachmentView, IrisErrorView>(
            OutboundAttachmentView::Bytes { mime_type, filename, bytes },
        ) <==> {
            &&& find_member(object, "mime_type"@) == Some(JsonView::Text(mime_type))
            &&& !blank(mime_type)
            &&& find_member(object, "data_base64"@) matches Some(JsonView::Text(data))
                && base64_decoded(data) == Ok::<Seq<u8>, Seq<char>>(bytes)
            &&& bytes.len() > 0
            &&& find_member(object, "filename"@) == (match filename {
                Some(name) => Some(JsonView::Text(name)),
                None => None,
            })
            &&& forall|i: int|
                0 <= i < object.len() ==> (#[trigger] object[i]).0 == "mime_type"@ || object[i].0
                    == "filename"@ || object[i].0 == "data_base64"@
        },
{
    lemma_unknown_field(object);
    reveal_strlit("stored_id");
    reveal_strlit("mime_type");
    reveal_strlit("filename");
    reveal_strlit("data_base64");
    assert("stored_id"@[0] == 's' && "mime_type"@[0] == 'm' && "filename"@[0] == 'f'
        && "data_base64"@[0] == 'd');
    lemma_member_is_there(object, "stored_id"@);
}

proof fn lemma_unknown_field(object: Members)
    ensures
        unknown_field(object) is None <==> forall|i: int|
            0 <= i < object.len() ==> inline_field((#[trigger] object[i]).0),
    decreases object.len(),
{
    if object.len() > 0 {
        let rest = object.drop_first();
        lemma_unknown_field(rest);
        if unknown_field(rest) is None && inline_field(object[0].0) {
            assert forall|i: int| 0 <= i < object.len() implies inline_field(
                (#[trigger] object[i]).0,
            ) by {
                if i > 0 {
                    assert(rest[i - 1] == object[i]);
                }
            }
        }
        if forall|i: int| 0 <= i < object.len() ==> inline_field((#[trigger] object[i]).0) {
            assert forall|i: int| 0 <= i < rest.len() implies inline_field(
                (#[trigger] rest[i]).0,
            ) by {
                assert(object[i + 1] == rest[i]);
            }
            assert(inline_field(object[0].0));
        }
    }
}

proof fn lemma_member_is_there(object: Members, key: Seq<char>)
    ensures
        find_member(object, key) matches Some(value) ==> exists|i: int|
            0 <= i < object.len() && (#[trigger] object[i]).0 == key && object[i].1 == value,
    decreases object.len(),
{
    if object.len() > 0 && object[0].0 != key {
        let rest = object.drop_first();
        lemma_member_is_there(rest, key);
        if let Some(value) = find_member(rest, key) {
            let i = choose|i: int|
                0 <= i < rest.len() && (#[trigger] rest[i]).0 == key && rest[i].1 == value;
            assert(object[i + 1] == rest[i]);
        }
    }
}

/// A stored attachment is an object of the text of its UUID and of nothing else.
pub proof fn law_stored_items_are_decoded(object: Members, id: Uuid)
    ensures
        item_of(JsonView::Object(object)) == Ok::<OutboundAttachmentView, IrisErrorView>(
            OutboundAttachmentView::Stored(id),
        ) <==> object.len() == 1 && object[0].0 == "stored_id"@ && (
        object[0].1 matches JsonView::Text(text) && uuid_parsed(text) == Ok::<u128, Seq<char>>(
            id.value,
        )),
{
    reveal_strlit("stored_id");
    reveal_strlit("mime_type");
    reveal_strlit("data_base64");
    assert("stored_id"@[0] == 's' && "mime_type"@[0] == 'm' && "data_base64"@[0] == 'd');
    lemma_member_is_there(object, "stored_id"@);
    lemma_member_is_there(object, "mime_type"@);
    lemma_member_is_there(object, "data_base64"@);
}

/// Attachments are a list, or nothing.
pub proof fn law_attachments_are_a_list(value: JsonView, items: Seq<JsonView>)
    ensures
        attachments_of(None) == Ok::<Seq<OutboundAttachmentView>, IrisErrorView>(seq![]),
        attachments_of(Some(JsonView::Null)) == Ok::<Seq<OutboundAttachmentView>, IrisErrorView>(
            seq![],
        ),
        attachments_of(Some(JsonView::Array(items))) == items_of(items),
        !(value is Null) && !(value is Array) ==> attachments_of(Some(value)) == Err::<
            Seq<OutboundAttachmentView>,
            IrisErrorView,
        >(IrisErrorView::Config("attachments must be an array"@)),
{
}

/// A path is planned as the local file it names, of the MIME type that is given or else of the one
/// that its extension stands for.
pub proof fn law_paths_are_planned_as_local_files(
    path: Seq<char>,
    extension: Seq<char>,
    mime: Seq<char>,
)
    requires
        !begins(path, "iris://"@),
    ensures
        !blank(mime) ==> planned_one(path, Some(mime)) == Ok::<PlannedAttachmentView, IrisErrorView>(
            PlannedAttachmentView::LocalFile {
                path,
                mime_type: mime,
                filename: file_name_of(path),
            },
        ),
        blank(mime) ==> planned_one(path, Some(mime)) == Err::<PlannedAttachmentView, IrisErrorView>(
            IrisErrorView::Config("--attach-mime values must be non-empty MIME types"@),
        ),
        extension_of(path) == Some(extension) ==> planned_one(path, None) == planned_one(
            path,
            Some(mime_of(lowered_ascii(extension))),
        ),
        extension_of(path) is None ==> planned_one(path, None) == planned_one(
            path,
            Some("application/octet-stream"@),
        ),
{
    lemma_longer_prefix(path);
}

proof fn lemma_longer_prefix(value: Seq<char>)
    ensures
        begins(value, "iris://attachment/"@) ==> begins(value, "iris://"@),
{
    reveal_strlit("iris://attachment/");
    reveal_strlit("iris://");
    if begins(value, "iris://attachment/"@) {
        let long = value.take(18);
        assert(long == "iris://attachment/"@);
        assert(value.take(7) =~= long.take(7));
        assert("iris://attachment/"@.take(7) =~= "iris://"@);
    }
}

/// A reference into the store is planned as the attachment of its UUID; any other reference is
/// refused, and so is one without a UUID.
pub proof fn law_references_are_planned_as_stored(text: Seq<char>, mime: Option<Seq<char>>)
    ensures
        uuid_parsed(text) matches Ok(value) ==> planned_one("iris://attachment/"@ + text, mime)
            == Ok::<PlannedAttachmentView, IrisErrorView>(
            PlannedAttachmentView::Stored(Uuid { value }),
        ),
        uuid_parsed(text) is Err ==> planned_one("iris://attachment/"@ + text, mime) is Err,
        begins(text, "iris://"@) && !begins(text, "iris://attachment/"@) ==> planned_one(text, mime)
            == Err::<PlannedAttachmentView, IrisErrorView>(
            IrisErrorView::Config(
                "unsupported iris:// reference (expected iris://attachment/UUID): "@ + text,
            ),
        ),
{
    let prefix = "iris://attachment/"@;
    assert((prefix + text).take(prefix.len() as int) =~= prefix);
    assert((prefix + text).skip(prefix.len() as int) =~= text);
}

/// MIME types are given for all local files or for none, and are counted over these alone.
pub proof fn law_types_are_given_for_all_local_files(
    attach: Seq<Seq<char>>,
    mimes: Seq<Seq<char>>,
    n: nat,
)
    ensures
        local_count(attach) == attach.filter(|value: Seq<char>| !begins(value, "iris://"@)).len(),
        plan_of(attach, mimes) is Ok ==> mimes.len() == 0 || mimes.len() == local_count(attach),
        n < mimes.len() ==> override_at(mimes, n) == Some(mimes[n as int]),
        n >= mimes.len() ==> override_at(mimes, n) is None,
    decreases attach.len(),
{
    reveal(Seq::filter);
    if attach.len() > 0 {
        law_types_are_given_for_all_local_files(attach.drop_last(), seq![], n);
    }
}

/// The MIME types of the extensions that are known, each behind its extension.
pub open spec fn known_types() -> Seq<(Seq<char>, Seq<char>)> {
    seq![
        ("png"@, "image/png"@),
        ("jpg"@, "image/jpeg"@),
        ("jpeg"@, "image/jpeg"@),
        ("gif"@, "image/gif"@),
        ("webp"@, "image/webp"@),
        ("bmp"@, "image/bmp"@),
        ("svg"@, "image/svg+xml"@),
        ("txt"@, "text/plain"@),
        ("md"@, "text/markdown"@),
        ("csv"@, "text/csv"@),
        ("html"@, "text/html"@),
        ("htm"@, "text/html"@),
        ("json"@, "application/json"@),
        ("xml"@, "application/xml"@),
        ("pdf"@, "application/pdf"@),
        ("zip"@, "application/zip"@),
        ("gz"@, "application/gzip"@),
        ("mp3"@, "audio/mpeg"@),
        ("wav"@, "audio/wav"@),
        ("ogg"@, "audio/ogg"@),
        ("m4a"@, "audio/mp4"@),
        ("flac"@, "audio/flac"@),
        ("mp4"@, "video/mp4"@),
        ("webm"@, "video/webm"@),
        ("mkv"@, "video/x-matroska"@),
        ("mov"@, "video/quicktime"@),
    ]
}

/// A known extension stands for its MIME type, and any other for bytes of no known type.
pub proof fn law_extensions_stand_for_types(extension: Seq<char>)
    ensures
        forall|i: int|
            0 <= i < known_types().len() && (#[trigger] known_types()[i]).0 == extension ==> mime_of(
                extension,
            ) == known_types()[i].1,
        (forall|i: int| 0 <= i < known_types().len() ==> (#[trigger] known_types()[i]).0 != extension)
            ==> mime_of(extension) == "application/octet-stream"@,
{
    lemma_extensions();
    let known = known_types();
    assert(known[0] == ("png"@, "image/png"@));
    assert(known[1] == ("jpg"@, "image/jpeg"@));
    assert(known[2] == ("jpeg"@, "image/jpeg"@));
    assert(known[3] == ("gif"@, "image/gif"@));
    assert(known[4] == ("webp"@, "image/webp"@));
    assert(known[5] == ("bmp"@, "image/bmp"@));
    assert(known[6] == ("svg"@, "image/svg+xml"@));
    assert(known[7] == ("txt"@, "text/plain"@));
    assert(known[8] == ("md"@, "text/markdown"@));
    assert(known[9] == ("csv"@, "text/csv"@));
    assert(known[10] == ("html"@, "text/html"@));
    assert(known[11] == ("htm"@, "text/html"@));
    assert(known[12] == ("json"@, "application/json"@));
    assert(known[13] == ("xml"@, "application/xml"@));
    assert(known[14] == ("pdf"@, "application/pdf"@));
    assert(known[15] == ("zip"@, "application/zip"@));
    assert(known[16] == ("gz"@, "application/gzip"@));
    assert(known[17] == ("mp3"@, "audio/mpeg"@));
    assert(known[18] == ("wav"@, "audio/wav"@));
    assert(known[19] == ("ogg"@, "audio/ogg"@));
    assert(known[20] == ("m4a"@, "audio/mp4"@));
    assert(known[21] == ("flac"@, "audio/flac"@));
    assert(known[22] == ("mp4"@, "video/mp4"@));
    assert(known[23] == ("webm"@, "video/webm"@));
    assert(known[24] == ("mkv"@, "video/x-matroska"@));
    assert(known[25] == ("mov"@, "video/quicktime"@));
}

/// The extensions that are known are told apart by their lengths and characters.
proof fn lemma_extensions()
    ensures
        "png"@.len() == 3 && "png"@[0] == 'p' && "png"@[1] == 'n' && "png"@[2] == 'g',
        "jpg"@.len() == 3 && "jpg"@[0] == 'j' && "jpg"@[1] == 'p' && "jpg"@[2] == 'g',
        "jpeg"@.len() == 4 && "jpeg"@[0] == 'j'
            && "jpeg"@[1] == 'p' && "jpeg"@[2] == 'e' && "jpeg"@[3] == 'g',
        "gif"@.len() == 3 && "gif"@[0] == 'g' && "gif"@[1] == 'i' && "gif"@[2] == 'f',
        "webp"@.len() == 4 && "webp"@[0] == 'w'
            && "webp"@[1] == 'e' && "webp"@[2] == 'b' && "webp"@[3] == 'p',
        "bmp"@.len() == 3 && "bmp"@[0] == 'b' && "bmp"@[1] == 'm' && "bmp"@[2] == 'p',
        "svg"@.len() == 3 && "svg"@[0] == 's' && "svg"@[1] == 'v' && "svg"@[2] == 'g',
        "txt"@.len() == 3 && "txt"@[0] == 't' && "txt"@[1] == 'x' && "txt"@[2] == 't',
        "md"@.len() == 2 && "md"@[0] == 'm' && "md"@[1] == 'd',
        "csv"@.len() == 3 && "csv"@[0] == 'c' && "csv"@[1] == 's' && "csv"@[2] == 'v',
        "html"@.len() == 4 && "html"@[0] == 'h'
            && "html"@[1] == 't' && "html"@[2] == 'm' && "html"@[3] == 'l',
        "htm"@.len() == 3 && "htm"@[0] == 'h' && "htm"@[1] == 't' && "htm"@[2] == 'm',
        "json"@.len() == 4 && "json"@[0] == 'j'
            && "json"@[1] == 's' && "json"@[2] == 'o' && "json"@[3] == 'n',
        "xml"@.len() == 3 && "xml"@[0] == 'x' && "xml"@[1] == 'm' && "xml"@[2] == 'l',
        "pdf"@.len() == 3 && "pdf"@[0] == 'p' && "pdf"@[1] == 'd' && "pdf"@[2] == 'f',
        "zip"@.len() == 3 && "zip"@[0] == 'z' && "zip"@[1] == 'i' && "zip"@[2] == 'p',
        "gz"@.len() == 2 && "gz"@[0] == 'g' && "gz"@[1] == 'z',
        "mp3"@.len() == 3 && "mp3"@[0] == 'm' && "mp3"@[1] == 'p' && "mp3"@[2] == '3',
        "wav"@.len() == 3 && "wav"@[0] == 'w' && "wav"@[1] == 'a' && "wav"@[2] == 'v',
        "ogg"@.len() == 3 && "ogg"@[0] == 'o' && "ogg"@[1] == 'g' && "ogg"@[2] == 'g',
        "m4a"@.len() == 3 && "m4a"@[0] == 'm' && "m4a"@[1] == '4' && "m4a"@[2] == 'a',
        "flac"@.len() == 4 && "flac"@[0] == 'f'
            && "flac"@[1] == 'l' && "flac"@[2] == 'a' && "flac"@[3] == 'c',
        "mp4"@.len() == 3 && "mp4"@[0] == 'm' && "mp4"@[1] == 'p' && "mp4"@[2] == '4',
        "webm"@.len() == 4 && "webm"@[0] == 'w'
            && "webm"@[1] == 'e' && "webm"@[2] == 'b' && "webm"@[3] == 'm',
        "mkv"@.len() == 3 && "mkv"@[0] == 'm' && "mkv"@[1] == 'k' && "mkv"@[2] == 'v',
        "mov"@.len() == 3 && "mov"@[0] == 'm' && "mov"@[1] == 'o' && "mov"@[2] == 'v',
{
    reveal_strlit("png");
    reveal_strlit("jpg");
    reveal_strlit("jpeg");
    reveal_strlit("gif");
    reveal_strlit("webp");
    reveal_strlit("bmp");
    reveal_strlit("svg");
    reveal_strlit("txt");
    reveal_strlit("md");
    reveal_strlit("csv");
    reveal_strlit("html");
    reveal_strlit("htm");
    reveal_strlit("json");
    reveal_strlit("xml");
    reveal_strlit("pdf");
    reveal_strlit("zip");
    reveal_strlit("gz");
    reveal_strlit("mp3");
    reveal_strlit("wav");
    reveal_strlit("ogg");
    reveal_strlit("m4a");
    reveal_strlit("flac");
    reveal_strlit("mp4");
    reveal_strlit("webm");
    reveal_strlit("mkv");
    reveal_strlit("mov");
}

} // verus!
