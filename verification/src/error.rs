//! Why a read or a decode was refused, and the words for it.
use vstd::prelude::*;

use crate::budget::MAX_DECODED_BYTES;
use crate::laszip::{item_type_text, LazItem};
use crate::text::{decimal, decimal_text};

verus! {

/// Why a read or a decode was refused.
#[derive(Debug)]
pub enum Error {
    /// The bytes end before the LAS public header block does.
    HeaderTooShort { needed: usize, held: usize },
    /// The bytes do not begin with the LAS signature.
    BadSignature,
    /// The header gives a point format that LAS does not have.
    UnknownPointFormat { point_format: u8 },
    /// Decoding would allocate more than one call may.
    OverBudget { point_count: u64, point_size: u64, bytes: u64 },
    /// The laszip VLR has no items.
    NoItems,
    /// No record decompressor knows the version of the first item.
    UnsupportedItemVersion { item: LazItem },
    /// The laszip VLR describes a point record without bytes.
    EmptyPointRecord,
    /// `laz` refused the VLR or the stream, in these words.
    Laz { text: String },
    /// `laz` failed on the points of a chunk.
    Chunk { chunk_len: usize, point_count: u64, text: String },
    /// The point data would begin past the end of the bytes.
    PointDataPastEnd { start: usize, held: usize },
    /// The bytes end before the point records that the header declares do.
    MissingPointData { point_count: u64, point_size: u64, held: usize },
    /// The bytes end before the VLR directory of a compressed file does.
    TruncatedVlrs,
    /// A compressed file has no laszip VLR.
    NoLaszipVlr,
    /// `laz` failed on the points of a whole file.
    File { point_count: u64, file_len: usize, text: String },
}

/// An [`Error`] as mathematical values.
pub enum ErrorView {
    HeaderTooShort { needed: nat, held: nat },
    BadSignature,
    UnknownPointFormat { point_format: u8 },
    OverBudget { point_count: nat, point_size: nat, bytes: nat },
    NoItems,
    UnsupportedItemVersion { item: LazItem },
    EmptyPointRecord,
    Laz { text: Seq<char> },
    Chunk { chunk_len: nat, point_count: nat, text: Seq<char> },
    PointDataPastEnd { start: nat, held: nat },
    MissingPointData { point_count: nat, point_size: nat, held: nat },
    TruncatedVlrs,
    NoLaszipVlr,
    File { point_count: nat, file_len: nat, text: Seq<char> },
}

impl View for Error {
    type V = ErrorView;

    open spec fn view(&self) -> ErrorView {
        match self {
            Error::HeaderTooShort { needed, held } => ErrorView::HeaderTooShort {
                needed: *needed as nat,
                held: *held as nat,
            },
            Error::BadSignature => ErrorView::BadSignature,
            Error::UnknownPointFormat { point_format } => ErrorView::UnknownPointFormat {
                point_format: *point_format,
            },
            Error::OverBudget { point_count, point_size, bytes } => ErrorView::OverBudget {
                point_count: *point_count as nat,
                point_size: *point_size as nat,
                bytes: *bytes as nat,
            },
            Error::NoItems => ErrorView::NoItems,
            Error::UnsupportedItemVersion { item } => ErrorView::UnsupportedItemVersion {
                item: *item,
            },
            Error::EmptyPointRecord => ErrorView::EmptyPointRecord,
            Error::Laz { text } => ErrorView::Laz { text: text@ },
            Error::Chunk { chunk_len, point_count, text } => ErrorView::Chunk {
                chunk_len: *chunk_len as nat,
                point_count: *point_count as nat,
                text: text@,
            },
            Error::PointDataPastEnd { start, held } => ErrorView::PointDataPastEnd {
                start: *start as nat,
                held: *held as nat,
            },
            Error::MissingPointData { point_count, point_size, held } => {
                ErrorView::MissingPointData {
                    point_count: *point_count as nat,
                    point_size: *point_size as nat,
                    held: *held as nat,
                }
            },
            Error::TruncatedVlrs => ErrorView::TruncatedVlrs,
            Error::NoLaszipVlr => ErrorView::NoLaszipVlr,
            Error::File { point_count, file_len, text } => ErrorView::File {
                point_count: *point_count as nat,
                file_len: *file_len as nat,
                text: text@,
            },
        }
    }
}

/// The view of an error is the same kind of error, with each field as it is.
pub proof fn lemma_error_view(e: Error)
    ensures
        match e {
            Error::HeaderTooShort { needed, held } => e@ matches ErrorView::HeaderTooShort {
                needed: n,
                held: h,
            } && n == needed && h == held,
            Error::BadSignature => e@ is BadSignature,
            Error::UnknownPointFormat { point_format } => e@ matches ErrorView::UnknownPointFormat {
                point_format: f,
            } && f == point_format,
            Error::OverBudget { point_count, point_size, bytes } => e@ matches ErrorView::OverBudget {
                point_count: c,
                point_size: s,
                bytes: b,
            } && c == point_count && s == point_size && b == bytes,
            Error::NoItems => e@ is NoItems,
            Error::UnsupportedItemVersion { item } => e@
                matches ErrorView::UnsupportedItemVersion { item: i } && i == item,
            Error::EmptyPointRecord => e@ is EmptyPointRecord,
            Error::Laz { text } => e@ matches ErrorView::Laz { text: t } && t == text@,
            Error::Chunk { chunk_len, point_count, text } => e@ matches ErrorView::Chunk {
                chunk_len: l,
                point_count: c,
                text: t,
            } && l == chunk_len && c == point_count && t == text@,
            Error::PointDataPastEnd { start, held } => e@ matches ErrorView::PointDataPastEnd {
                start: s,
                held: h,
            } && s == start && h == held,
            Error::MissingPointData { point_count, point_size, held } => e@
                matches ErrorView::MissingPointData { point_count: c, point_size: s, held: h } && c
                == point_count && s == point_size && h == held,
            Error::TruncatedVlrs => e@ is TruncatedVlrs,
            Error::NoLaszipVlr => e@ is NoLaszipVlr,
            Error::File { point_count, file_len, text } => e@ matches ErrorView::File {
                point_count: c,
                file_len: l,
                text: t,
            } && c == point_count && l == file_len && t == text@,
        },
{
}

/// The words for an error.
pub open spec fn message_text(e: ErrorView) -> Seq<char> {
    match e {
        ErrorView::HeaderTooShort { needed, held } => "a LAS header takes "@ + decimal_text(needed)
            + " bytes, but only "@ + decimal_text(held) + " were given"@,
        ErrorView::BadSignature => "not a LAS file: the signature is not 'LASF'"@,
        ErrorView::UnknownPointFormat { point_format } => "LAS has no point format "@
            + decimal_text(point_format as nat) + ", only 0 to 10"@,
        ErrorView::OverBudget { point_count, point_size, bytes } => "refusing to decode "@
            + decimal_text(point_count) + " points of "@ + decimal_text(point_size) + " bytes: "@
            + decimal_text(bytes) + " bytes is over the "@ + decimal_text(
            MAX_DECODED_BYTES as nat,
        ) + "-byte ceiling for one call. Decode node by node instead of whole-file."@,
        ErrorView::NoItems => "laszip VLR describes no items"@,
        ErrorView::UnsupportedItemVersion { item } => "unsupported laszip item version "@
            + decimal_text(item.version as nat) + " for item type "@ + item_type_text(item),
        ErrorView::EmptyPointRecord =>
            "laszip VLR describes a zero-byte point record, so a point count means nothing"@,
        ErrorView::Laz { text } => text,
        ErrorView::Chunk { chunk_len, point_count, text } => "failed to decode a "@ + decimal_text(
            chunk_len,
        ) + "-byte chunk of "@ + decimal_text(point_count) + " points: "@ + text,
        ErrorView::PointDataPastEnd { start, held } => "LAS header points at byte "@ + decimal_text(
            start,
        ) + " for its point data, past the "@ + decimal_text(held) + " bytes given"@,
        ErrorView::MissingPointData { point_count, point_size, held } => "LAS file declares "@
            + decimal_text(point_count) + " points of "@ + decimal_text(point_size)
            + " bytes but holds only "@ + decimal_text(held) + " after its header"@,
        ErrorView::TruncatedVlrs => "LAZ file is truncated before the end of its VLR directory"@,
        ErrorView::NoLaszipVlr => "LAZ file has no laszip VLR (user id 'laszip encoded')"@,
        ErrorView::File { point_count, file_len, text } => "failed to decode "@ + decimal_text(
            point_count,
        ) + " points from a "@ + decimal_text(file_len) + "-byte LAZ file: "@ + text,
    }
}

/// `a`, the number `n` and `b`, one after the other.
fn number_between(a: &str, n: u64, b: &str) -> (s: String)
    ensures
        s@ == a@ + decimal_text(n as nat) + b@,
{
    let mut s: String = a.to_owned();
    s.append(decimal(n).as_str());
    s.append(b);
    s
}

impl Error {
    /// The words for the error.
    pub fn message(&self) -> (s: String)
        ensures
            s@ == message_text(self@),
            match self {
                Error::HeaderTooShort { needed, held } => s@ == "a LAS header takes "@
                    + decimal_text(*needed as nat) + " bytes, but only "@ + decimal_text(
                    *held as nat,
                ) + " were given"@,
                Error::BadSignature => s@ == "not a LAS file: the signature is not 'LASF'"@,
                Error::UnknownPointFormat { point_format } => s@ == "LAS has no point format "@
                    + decimal_text(*point_format as nat) + ", only 0 to 10"@,
                Error::OverBudget { point_count, point_size, bytes } => s@ == "refusing to decode "@
                    + decimal_text(*point_count as nat) + " points of "@ + decimal_text(
                    *point_size as nat,
                ) + " bytes: "@ + decimal_text(*bytes as nat) + " bytes is over the "@
                    + decimal_text(1_073_741_824)
                    + "-byte ceiling for one call. Decode node by node instead of whole-file."@,
                Error::NoItems => s@ == "laszip VLR describes no items"@,
                Error::UnsupportedItemVersion { item } => s@ == "unsupported laszip item version "@
                    + decimal_text(item.version as nat) + " for item type "@ + item_type_text(*item),
                Error::EmptyPointRecord => s@
                    == "laszip VLR describes a zero-byte point record, so a point count means nothing"@,
                Error::Laz { text } => s@ == text@,
                Error::Chunk { chunk_len, point_count, text } => s@ == "failed to decode a "@
                    + decimal_text(*chunk_len as nat) + "-byte chunk of "@ + decimal_text(
                    *point_count as nat,
                ) + " points: "@ + text@,
                Error::PointDataPastEnd { start, held } => s@ == "LAS header points at byte "@
                    + decimal_text(*start as nat) + " for its point data, past the "@
                    + decimal_text(*held as nat) + " bytes given"@,
                Error::MissingPointData { point_count, point_size, held } => s@
                    == "LAS file declares "@ + decimal_text(*point_count as nat) + " points of "@
                    + decimal_text(*point_size as nat) + " bytes but holds only "@ + decimal_text(
                    *held as nat,
                ) + " after its header"@,
                Error::TruncatedVlrs => s@
                    == "LAZ file is truncated before the end of its VLR directory"@,
                Error::NoLaszipVlr => s@ == "LAZ file has no laszip VLR (user id 'laszip encoded')"@,
                Error::File { point_count, file_len, text } => s@ == "failed to decode "@
                    + decimal_text(*point_count as nat) + " points from a "@ + decimal_text(
                    *file_len as nat,
                ) + "-byte LAZ file: "@ + text@,
            },
    {
        match self {
            Error::HeaderTooShort { needed, held } => {
                let mut s: String = number_between(
                    "a LAS header takes ",
                    *needed as u64,
                    " bytes, but only ",
                );
                s.append(decimal(*held as u64).as_str());
                s.append(" were given");
                s
            },
            Error::BadSignature => "not a LAS file: the signature is not 'LASF'".to_owned(),
            Error::UnknownPointFormat { point_format } => {
                number_between("LAS has no point format ", *point_format as u64, ", only 0 to 10")
            },
            Error::OverBudget { point_count, point_size, bytes } => {
                let mut s: String = number_between(
                    "refusing to decode ",
                    *point_count,
                    " points of ",
                );
                s.append(decimal(*point_size).as_str());
                s.append(" bytes: ");
                s.append(decimal(*bytes).as_str());
                s.append(" bytes is over the ");
                s.append(decimal(MAX_DECODED_BYTES).as_str());
                s.append(
                    "-byte ceiling for one call. Decode node by node instead of whole-file.",
                );
                s
            },
            Error::NoItems => "laszip VLR describes no items".to_owned(),
            Error::UnsupportedItemVersion { item } => {
                let mut s: String = number_between(
                    "unsupported laszip item version ",
                    item.version as u64,
                    " for item type ",
                );
                s.append(item.type_text().as_str());
                s
            },
            Error::EmptyPointRecord => {
                "laszip VLR describes a zero-byte point record, so a point count means nothing".to_owned()
            },
            Error::Laz { text } => text.clone(),
            Error::Chunk { chunk_len, point_count, text } => {
                let mut s: String = number_between(
                    "failed to decode a ",
                    *chunk_len as u64,
                    "-byte chunk of ",
                );
                s.append(decimal(*point_count).as_str());
                s.append(" points: ");
                s.append(text.as_str());
                s
            },
            Error::PointDataPastEnd { start, held } => {
                let mut s: String = number_between(
                    "LAS header points at byte ",
                    *start as u64,
                    " for its point data, past the ",
                );
                s.append(decimal(*held as u64).as_str());
                s.append(" bytes given");
                s
            },
            Error::MissingPointData { point_count, point_size, held } => {
                let mut s: String = number_between(
                    "LAS file declares ",
                    *point_count,
                    " points of ",
                );
                s.append(decimal(*point_size).as_str());
                s.append(" bytes but holds only ");
                s.append(decimal(*held as u64).as_str());
                s.append(" after its header");
                s
            },
            Error::TruncatedVlrs => {
                "LAZ file is truncated before the end of its VLR directory".to_owned()
            },
            Error::NoLaszipVlr => {
                "LAZ file has no laszip VLR (user id 'laszip encoded')".to_owned()
            },
            Error::File { point_count, file_len, text } => {
                let mut s: String = number_between(
                    "failed to decode ",
                    *point_count,
                    " points from a ",
                );
                s.append(decimal(*file_len as u64).as_str());
                s.append("-byte LAZ file: ");
                s.append(text.as_str());
                s
            },
        }
    }
}

} // verus!
