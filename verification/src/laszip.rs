//! The laszip VLR as plain values, and the calls into the `laz` crate.
//!
//! Everything that `laz` computes enters the library here. The functions marked
//! `external_body` and the `assume_specification` items are trusted: their
//! contracts say what is believed of `laz`, and the rest of the library is
//! proved from them.
//!
//! The bytes of a stream come from a file, and on some of them `laz` panics. The
//! preconditions leave those out; `soundness` says which they are.
//!
//! Three ways to fail depend on the machine or on the build, and no precondition
//! speaks of them. A GPS time that hops from one time sequence to the next again and
//! again makes `laz` recurse as often, which the stack may not hold. The sizes of
//! layers and of chunk tables are taken from the stream, and there may not be as much
//! memory. In a build with debug assertions, the arithmetic of `laz` may assert or
//! overflow on streams that no encoder wrote, where it otherwise goes on.
use std::io::Cursor;

use laz::las::selective::DecompressionSelection;
use laz::laszip::ChunkTable;
use laz::record::{
    LayeredPointRecordDecompressor, RecordDecompressor, SequentialPointRecordDecompressor,
};
use laz::{LasZipDecompressor, LazVlr};
use vstd::prelude::*;

use crate::bytes::{le_u16, le_u32, lemma_little_endian};
use crate::field::{
    ALL_FIELDS, CLASSIFICATION, EXTRA_BYTES, FLAGS, GPS_TIME as GPS_TIME_FIELD, INTENSITY, NIR,
    POINT_SOURCE_ID, RGB, SCAN_ANGLE, USER_DATA, WAVEPACKET, XY_RETURNS_CHANNEL, Z,
};
use crate::file::{chunked_points, counts_of, holds_all};
use crate::soundness::{record_held, stream_sound, table_sound, words_sound};
use crate::text::{decimal, decimal_text};

verus! {

/// One item of a laszip VLR: a group of point fields and how it was compressed.
#[derive(Clone, Copy, PartialEq, Eq, Structural, Debug)]
pub struct LazItem {
    /// The item type code of the laszip format.
    pub item_type: u16,
    /// The size that the VLR declares for the item, in bytes.
    pub size: u16,
    /// The version of the compression algorithm.
    pub version: u16,
}

/// Extra bytes of point formats 0 to 5.
pub const BYTE: u16 = 0;

/// The core fields of point formats 0 to 5.
pub const POINT10: u16 = 6;

/// The GPS time of point formats 0 to 5.
pub const GPS_TIME: u16 = 7;

/// The colour of point formats 0 to 5.
pub const RGB12: u16 = 8;

/// The wave packet of point formats 4 and 5.
pub const WAVE_PACKET13: u16 = 9;

/// The core fields of point formats 6 and up.
pub const POINT14: u16 = 10;

/// The colour of point format 7.
pub const RGB14: u16 = 11;

/// The colour and near infrared of point formats 8 and 10.
pub const RGB_NIR14: u16 = 12;

/// The wave packet of point formats 9 and 10.
pub const WAVE_PACKET14: u16 = 13;

/// Extra bytes of point formats 6 and up.
pub const BYTE14: u16 = 14;

/// Which of the two record layouts a stream of points has.
#[derive(Clone, Copy, PartialEq, Eq, Structural, Debug)]
pub enum RecordLayout {
    /// All fields interleaved in one arithmetic stream: versions 1 and 2.
    Sequential,
    /// One arithmetic stream per field: versions 3 and 4.
    Layered,
}

/// What a laszip VLR says that decoding depends on.
pub struct LaszipVlr {
    /// How the points are organised: 0 none, 1 point-wise, 2 chunked, 3 layered.
    pub compressor: u16,
    /// Points per chunk; the largest `u32` stands for chunks of varying size.
    pub chunk_size: u32,
    /// The items of one point record, in order.
    pub items: Seq<LazItem>,
}

/// Whether `item_type` is a type code of the laszip format.
pub open spec fn known_item_type(item_type: u16) -> bool {
    item_type == BYTE || POINT10 <= item_type <= BYTE14
}

/// Item `i` of the laszip VLR payload `record`.
pub open spec fn item_at(record: Seq<u8>, i: int) -> LazItem {
    LazItem {
        item_type: le_u16(record, 34 + 6 * i),
        size: le_u16(record, 36 + 6 * i),
        version: le_u16(record, 38 + 6 * i),
    }
}

/// The laszip VLR with the payload `record`, or `None` when the payload is cut
/// short or uses a compressor or an item type that the format does not have.
///
/// A stored chunk size of zero means chunks of varying size, too.
pub open spec fn laszip_vlr(record: Seq<u8>) -> Option<LaszipVlr> {
    let count = le_u16(record, 32) as nat;
    if record.len() >= 34 && record.len() >= 34 + 6 * count && le_u16(record, 0) <= 3 && (forall|
        i: int,
    |
        0 <= i < count ==> known_item_type(#[trigger] item_at(record, i).item_type)) {
        Some(
            LaszipVlr {
                compressor: le_u16(record, 0),
                chunk_size: if le_u32(record, 12) == 0 {
                    u32::MAX
                } else {
                    le_u32(record, 12)
                },
                items: Seq::new(count, |i: int| item_at(record, i)),
            },
        )
    } else {
        None
    }
}

/// The complaint about the first item, from item `i` on, whose type the format does
/// not have, as far as the payload `record` reaches.
pub open spec fn unknown_item_text(record: Seq<u8>, i: int) -> Option<Seq<char>>
    decreases le_u16(record, 32) - i,
{
    if i >= le_u16(record, 32) || record.len() < 38 + 6 * i {
        None
    } else if !known_item_type(item_at(record, i).item_type) {
        Some(
            "Item with type code: "@ + decimal_text(item_at(record, i).item_type as nat)
                + " is unknown"@,
        )
    } else {
        unknown_item_text(record, i + 1)
    }
}

/// Why a payload is no laszip VLR: it uses a compressor or an item type that the
/// format does not have, or else it ends too early, for which the words are
/// `cut_short`.
pub open spec fn vlr_refusal(record: Seq<u8>, cut_short: Seq<char>) -> Seq<char> {
    if record.len() >= 2 && le_u16(record, 0) > 3 {
        "Compressor type "@ + decimal_text(le_u16(record, 0) as nat) + " is not valid"@
    } else if record.len() >= 34 {
        match unknown_item_text(record, 0) {
            Some(text) => text,
            None => cut_short,
        }
    } else {
        cut_short
    }
}

/// The sum of the sizes that the items declare.
pub open spec fn declared_size(items: Seq<LazItem>) -> nat
    decreases items.len(),
{
    if items.len() == 0 {
        0
    } else {
        declared_size(items.drop_last()) + items.last().size as nat
    }
}

/// The bytes that the fields of an item take in a point record, whatever size
/// the item declares.
pub open spec fn field_size(item: LazItem) -> nat {
    if item.item_type == POINT10 {
        20
    } else if item.item_type == GPS_TIME {
        8
    } else if item.item_type == RGB12 || item.item_type == RGB14 {
        6
    } else if item.item_type == WAVE_PACKET13 || item.item_type == WAVE_PACKET14 {
        29
    } else if item.item_type == POINT14 {
        30
    } else if item.item_type == RGB_NIR14 {
        8
    } else {
        item.size as nat
    }
}

/// The bytes that the fields of all items take in a point record.
pub open spec fn fields_size(items: Seq<LazItem>) -> nat
    decreases items.len(),
{
    if items.len() == 0 {
        0
    } else {
        fields_size(items.drop_last()) + field_size(items.last())
    }
}

/// The selection bit of the field that byte `j` of an item belongs to, or zero for
/// a byte that is decompressed whatever is selected.
pub open spec fn selection_bit(item: LazItem, j: int) -> u32 {
    if item.item_type == POINT14 {
        if 8 <= j < 12 {
            Z
        } else if 12 <= j < 14 {
            INTENSITY
        } else if j == 15 {
            FLAGS
        } else if j == 16 {
            CLASSIFICATION
        } else if j == 17 {
            USER_DATA
        } else if 18 <= j < 20 {
            SCAN_ANGLE
        } else if 20 <= j < 22 {
            POINT_SOURCE_ID
        } else if 22 <= j < 30 {
            GPS_TIME_FIELD
        } else {
            XY_RETURNS_CHANNEL
        }
    } else if item.item_type == RGB14 {
        RGB
    } else if item.item_type == RGB_NIR14 {
        if j < 6 {
            RGB
        } else {
            NIR
        }
    } else if item.item_type == WAVE_PACKET14 {
        WAVEPACKET
    } else if item.item_type == BYTE14 {
        EXTRA_BYTES
    } else {
        0
    }
}

/// The bits of byte `j` of a record that are not decompressed under `selection`.
///
/// The byte of the flags holds the scanner channel as well, in bits 4 and 5, and
/// those are always decompressed.
pub open spec fn unselected_bits(items: Seq<LazItem>, selection: u32, j: int) -> u8
    decreases items.len(),
{
    if items.len() == 0 {
        0
    } else if j >= field_size(items[0]) {
        unselected_bits(items.drop_first(), selection, j - field_size(items[0]))
    } else {
        let bit = selection_bit(items[0], j);
        if bit == 0 || selection & bit != 0 {
            0
        } else if bit == FLAGS {
            0xCF
        } else {
            0xFF
        }
    }
}

/// Whether every record of `points` has, in its unselected bits, what the first
/// record has there.
pub open spec fn repeats_first(items: Seq<LazItem>, selection: u32, points: Seq<u8>) -> bool {
    let size = fields_size(items) as int;
    forall|p: int|
        0 <= p < points.len() && p - p % size + size <= points.len() ==> {
            let mask = unselected_bits(items, selection, p % size);
            #[trigger] points[p] & mask == points[p % size] & mask
        }
}

/// Whether the first record of `points`, if there is one, is what the chunk begins
/// with: laszip stores the first point of a chunk as it is.
pub open spec fn starts_raw(items: Seq<LazItem>, chunk: Seq<u8>, points: Seq<u8>) -> bool {
    let size = fields_size(items) as int;
    0 < points.len() && size <= points.len() ==> size <= chunk.len() && points.take(size)
        == chunk.take(size)
}

/// Whether the bytes of `points` that no whole record of `size` bytes takes up are
/// zero.
pub open spec fn zero_behind(size: nat, points: Seq<u8>) -> bool {
    forall|p: int|
        0 <= p < points.len() && p - p % (size as int) + size > points.len() ==> #[trigger] points[p]
            == 0
}

/// Whether `points` and `all` agree in the selected bits of every record.
pub open spec fn agrees_where_selected(
    items: Seq<LazItem>,
    selection: u32,
    points: Seq<u8>,
    all: Seq<u8>,
) -> bool {
    let size = fields_size(items) as int;
    &&& points.len() == all.len()
    &&& forall|p: int|
        0 <= p < points.len() ==> {
            let mask = !unselected_bits(items, selection, p % size);
            #[trigger] points[p] & mask == all[p] & mask
        }
}

/// The record layout that the version of the first item stands for.
pub open spec fn first_layout(items: Seq<LazItem>) -> Option<RecordLayout> {
    if items.len() == 0 {
        None
    } else if items[0].version == 1 || items[0].version == 2 {
        Some(RecordLayout::Sequential)
    } else if items[0].version == 3 || items[0].version == 4 {
        Some(RecordLayout::Layered)
    } else {
        None
    }
}

/// Whether a record decompressor of this layout takes the item.
pub open spec fn supported(layout: RecordLayout, item: LazItem) -> bool {
    match layout {
        RecordLayout::Sequential => {
            &&& item.version == 1 || item.version == 2
            &&& item.item_type == BYTE || POINT10 <= item.item_type <= WAVE_PACKET13
        },
        RecordLayout::Layered => {
            &&& item.version == 3 || item.version == 4
            &&& POINT14 <= item.item_type <= BYTE14
        },
    }
}

/// The first item that a record decompressor of this layout does not take.
pub open spec fn first_unsupported(layout: RecordLayout, items: Seq<LazItem>) -> Option<LazItem>
    decreases items.len(),
{
    if items.len() == 0 {
        None
    } else if !supported(layout, items[0]) {
        Some(items[0])
    } else {
        first_unsupported(layout, items.drop_first())
    }
}

/// The name of an item's type.
pub open spec fn item_type_text(item: LazItem) -> Seq<char> {
    if item.item_type == BYTE {
        "Byte("@ + decimal_text(item.size as nat) + ")"@
    } else if item.item_type == POINT10 {
        "Point10"@
    } else if item.item_type == GPS_TIME {
        "GpsTime"@
    } else if item.item_type == RGB12 {
        "RGB12"@
    } else if item.item_type == WAVE_PACKET13 {
        "WavePacket13"@
    } else if item.item_type == POINT14 {
        "Point14"@
    } else if item.item_type == RGB14 {
        "RGB14"@
    } else if item.item_type == RGB_NIR14 {
        "RGBNIR14"@
    } else if item.item_type == WAVE_PACKET14 {
        "WavePacket14"@
    } else {
        "Byte14("@ + decimal_text(item.size as nat) + ")"@
    }
}

/// Where all items are of the sequential layout, nothing is left unselected.
pub proof fn lemma_sequential_selects_all(items: Seq<LazItem>, selection: u32, j: int)
    requires
        first_unsupported(RecordLayout::Sequential, items) is None,
    ensures
        unselected_bits(items, selection, j) == 0,
    decreases items.len(),
{
    if items.len() > 0 {
        lemma_sequential_selects_all(items.drop_first(), selection, j - field_size(items[0]));
    }
}

/// The text of the refusal of an item.
pub open spec fn unsupported_text(item: LazItem) -> Seq<char> {
    "Item "@ + item_type_text(item) + " with compression version: "@ + decimal_text(
        item.version as nat,
    ) + " is not supported"@
}

/// A laszip VLR payload says what is in its bytes: the compressor first, the chunk size
/// at byte 12, the number of items at byte 32 and the items behind it, six bytes each.
/// It is read when it holds all its items and knows their types and the compressor.
pub proof fn lemma_laszip_vlr(b: Seq<u8>)
    ensures
        ({
            let count = b[32] + 0x100 * b[33];
            let stored = b[12] + 0x100 * b[13] + 0x1_0000 * b[14] + 0x100_0000 * b[15];
            match laszip_vlr(b) {
                Some(vlr) => {
                    &&& b.len() >= 34 + 6 * count
                    &&& vlr.compressor == b[0] + 0x100 * b[1]
                    &&& vlr.compressor <= 3
                    &&& vlr.chunk_size == (if stored == 0 {
                        0xFFFF_FFFF
                    } else {
                        stored
                    })
                    &&& vlr.items.len() == count
                    &&& forall|i: int|
                        0 <= i < count ==> {
                            let item = #[trigger] vlr.items[i];
                            &&& item.item_type == b[34 + 6 * i] + 0x100 * b[35 + 6 * i]
                            &&& item.size == b[36 + 6 * i] + 0x100 * b[37 + 6 * i]
                            &&& item.version == b[38 + 6 * i] + 0x100 * b[39 + 6 * i]
                            &&& item.item_type == 0 || 6 <= item.item_type <= 14
                        }
                },
                None => b.len() < 34 || b.len() < 34 + 6 * count || b[0] + 0x100 * b[1] > 3 || exists|
                    i: int,
                |
                    0 <= i < count && {
                        let item_type = #[trigger] b[34 + 6 * i] + 0x100 * b[35 + 6 * i];
                        item_type != 0 && !(6 <= item_type <= 14)
                    },
            }
        }),
{
    lemma_little_endian(b, 0);
    lemma_little_endian(b, 12);
    lemma_little_endian(b, 32);
    let count = le_u16(b, 32) as int;
    assert forall|i: int| true implies {
        let item = #[trigger] item_at(b, i);
        &&& item.item_type == b[34 + 6 * i] + 0x100 * b[35 + 6 * i]
        &&& item.size == b[36 + 6 * i] + 0x100 * b[37 + 6 * i]
        &&& item.version == b[38 + 6 * i] + 0x100 * b[39 + 6 * i]
    } by {
        lemma_little_endian(b, 34 + 6 * i);
        lemma_little_endian(b, 36 + 6 * i);
        lemma_little_endian(b, 38 + 6 * i);
    }
    if laszip_vlr(b) is None && b.len() >= 34 && b.len() >= 34 + 6 * count && le_u16(b, 0) <= 3 {
        let i = choose|i: int|
            0 <= i < count && !known_item_type(#[trigger] item_at(b, i).item_type);
        assert(b[34 + 6 * i] + 0x100 * b[35 + 6 * i] == item_at(b, i).item_type);
    }
}

/// A point record takes the sizes that its items declare, added up. Its fields take what
/// is fixed for the type of each item; only extra bytes go by the declared size.
pub proof fn lemma_record_sizes(items: Seq<LazItem>, item: LazItem)
    ensures
        declared_size(Seq::empty()) == 0,
        declared_size(items.push(item)) == declared_size(items) + item.size,
        fields_size(Seq::empty()) == 0,
        fields_size(items.push(item)) == fields_size(items) + (match item.item_type {
            6 => 20int,
            7 => 8,
            8 => 6,
            9 => 29,
            10 => 30,
            11 => 6,
            12 => 8,
            13 => 29,
            _ => item.size as int,
        }),
{
    assert(items.push(item).drop_last() =~= items);
}

/// Versions 1 and 2 of items with the types 0 and 6 to 9 are sequential, versions 3 and 4
/// of items with the types 10 to 14 layered. The refused item is the first that is not of
/// the layout, and none is refused exactly when all are of it.
pub proof fn lemma_first_unsupported(layout: RecordLayout, items: Seq<LazItem>)
    ensures
        forall|item: LazItem| #[trigger]
            supported(RecordLayout::Sequential, item) <==> 1 <= item.version <= 2 && (item.item_type
                == 0 || 6 <= item.item_type <= 9),
        forall|item: LazItem| #[trigger]
            supported(RecordLayout::Layered, item) <==> 3 <= item.version <= 4 && 10
                <= item.item_type <= 14,
        match first_unsupported(layout, items) {
            Some(item) => !supported(layout, item) && exists|i: int|
                0 <= i < items.len() && #[trigger] items[i] == item && forall|j: int|
                    0 <= j < i ==> supported(layout, #[trigger] items[j]),
            None => forall|i: int| 0 <= i < items.len() ==> supported(layout, #[trigger] items[i]),
        },
    decreases items.len(),
{
    if items.len() > 0 && supported(layout, items[0]) {
        let rest = items.drop_first();
        lemma_first_unsupported(layout, rest);
        match first_unsupported(layout, rest) {
            Some(item) => {
                let k = choose|i: int|
                    0 <= i < rest.len() && #[trigger] rest[i] == item && forall|j: int|
                        0 <= j < i ==> supported(layout, #[trigger] rest[j]);
                assert(items[k + 1] == item);
                assert forall|j: int| 0 <= j < k + 1 implies supported(
                    layout,
                    #[trigger] items[j],
                ) by {
                    if j > 0 {
                        assert(items[j] == rest[j - 1]);
                    }
                }
            },
            None => {
                assert forall|i: int| 0 <= i < items.len() implies supported(
                    layout,
                    #[trigger] items[i],
                ) by {
                    if i > 0 {
                        assert(items[i] == rest[i - 1]);
                    }
                }
            },
        }
    } else if items.len() > 0 {
        assert(items[0] == items[0]);
    }
}

/// The words for an item name its type, with the size of extra bytes, and its version.
pub proof fn lemma_item_words(item: LazItem)
    ensures
        item.item_type == 0 ==> item_type_text(item) == "Byte("@ + decimal_text(item.size as nat)
            + ")"@,
        item.item_type == 6 ==> item_type_text(item) == "Point10"@,
        item.item_type == 7 ==> item_type_text(item) == "GpsTime"@,
        item.item_type == 8 ==> item_type_text(item) == "RGB12"@,
        item.item_type == 9 ==> item_type_text(item) == "WavePacket13"@,
        item.item_type == 10 ==> item_type_text(item) == "Point14"@,
        item.item_type == 11 ==> item_type_text(item) == "RGB14"@,
        item.item_type == 12 ==> item_type_text(item) == "RGBNIR14"@,
        item.item_type == 13 ==> item_type_text(item) == "WavePacket14"@,
        item.item_type == 14 ==> item_type_text(item) == "Byte14("@ + decimal_text(item.size as nat)
            + ")"@,
        unsupported_text(item) == "Item "@ + item_type_text(item) + " with compression version: "@
            + decimal_text(item.version as nat) + " is not supported"@,
{
}

/// A payload with an unknown compressor is refused for it, and else for the first item of
/// an unknown type that it reaches.
pub proof fn lemma_vlr_refusal(b: Seq<u8>, cut_short: Seq<char>, i: int)
    requires
        b.len() >= 2,
        b[0] + 0x100 * b[1] <= 3 ==> {
            &&& 0 <= i < b[32] + 0x100 * b[33]
            &&& b.len() >= 38 + 6 * i
            &&& forall|j: int|
                0 <= j < i ==> {
                    let item_type = #[trigger] b[34 + 6 * j] + 0x100 * b[35 + 6 * j];
                    item_type == 0 || 6 <= item_type <= 14
                }
            &&& b[34 + 6 * i] + 0x100 * b[35 + 6 * i] != 0
            &&& !(6 <= b[34 + 6 * i] + 0x100 * b[35 + 6 * i] <= 14)
        },
    ensures
        vlr_refusal(b, cut_short) == if b[0] + 0x100 * b[1] > 3 {
            "Compressor type "@ + decimal_text((b[0] + 0x100 * b[1]) as nat) + " is not valid"@
        } else {
            "Item with type code: "@ + decimal_text(
                (b[34 + 6 * i] + 0x100 * b[35 + 6 * i]) as nat,
            ) + " is unknown"@
        },
{
    lemma_little_endian(b, 0);
    if b[0] + 0x100 * b[1] <= 3 {
        lemma_unknown_item(b, 0, i);
    }
}

/// A payload with a known compressor, whose items are of known types as far as it reaches
/// them, is refused because it ends too early, if it is refused.
pub proof fn lemma_vlr_cut_short(b: Seq<u8>, cut_short: Seq<char>)
    requires
        b.len() >= 2 ==> b[0] + 0x100 * b[1] <= 3,
        b.len() >= 34 ==> forall|j: int|
            0 <= j < b[32] + 0x100 * b[33] && b.len() >= 38 + 6 * j ==> {
                let item_type = #[trigger] b[34 + 6 * j] + 0x100 * b[35 + 6 * j];
                item_type == 0 || 6 <= item_type <= 14
            },
    ensures
        vlr_refusal(b, cut_short) == cut_short,
{
    lemma_little_endian(b, 0);
    if b.len() >= 34 {
        lemma_no_unknown_item(b, 0);
    }
}

/// There is no complaint about items whose type is known.
proof fn lemma_no_unknown_item(b: Seq<u8>, from: int)
    requires
        0 <= from,
        forall|j: int|
            from <= j < b[32] + 0x100 * b[33] && b.len() >= 38 + 6 * j ==> {
                let item_type = #[trigger] b[34 + 6 * j] + 0x100 * b[35 + 6 * j];
                item_type == 0 || 6 <= item_type <= 14
            },
    ensures
        unknown_item_text(b, from) is None,
    decreases b[32] + 0x100 * b[33] - from,
{
    lemma_little_endian(b, 32);
    lemma_little_endian(b, 34 + 6 * from);
    if from < b[32] + 0x100 * b[33] && b.len() >= 38 + 6 * from {
        assert(b[34 + 6 * from] + 0x100 * b[35 + 6 * from] == item_at(b, from).item_type);
        lemma_no_unknown_item(b, from + 1);
    }
}

/// The complaint passes over items whose type is known.
proof fn lemma_unknown_item(b: Seq<u8>, from: int, i: int)
    requires
        0 <= from <= i < b[32] + 0x100 * b[33],
        b.len() >= 38 + 6 * i,
        forall|j: int|
            from <= j < i ==> {
                let item_type = #[trigger] b[34 + 6 * j] + 0x100 * b[35 + 6 * j];
                item_type == 0 || 6 <= item_type <= 14
            },
        b[34 + 6 * i] + 0x100 * b[35 + 6 * i] != 0,
        !(6 <= b[34 + 6 * i] + 0x100 * b[35 + 6 * i] <= 14),
    ensures
        unknown_item_text(b, from) == Some(
            "Item with type code: "@ + decimal_text(
                (b[34 + 6 * i] + 0x100 * b[35 + 6 * i]) as nat,
            ) + " is unknown"@,
        ),
    decreases i - from,
{
    lemma_little_endian(b, 32);
    lemma_little_endian(b, 34 + 6 * from);
    if from < i {
        assert(b[34 + 6 * from] + 0x100 * b[35 + 6 * from] == item_at(b, from).item_type);
        lemma_unknown_item(b, from + 1, i);
    }
}

impl LazItem {
    /// The name of the item's type.
    pub fn type_text(&self) -> (s: String)
        ensures
            s@ == item_type_text(*self),
    {
        if self.item_type == BYTE || self.item_type > WAVE_PACKET14 || self.item_type < POINT10 {
            let mut s: String = if self.item_type == BYTE {
                "Byte(".to_owned()
            } else {
                "Byte14(".to_owned()
            };
            s.append(decimal(self.size as u64).as_str());
            s.append(")");
            return s;
        }
        let name: &str = match self.item_type {
            POINT10 => "Point10",
            GPS_TIME => "GpsTime",
            RGB12 => "RGB12",
            WAVE_PACKET13 => "WavePacket13",
            POINT14 => "Point14",
            RGB14 => "RGB14",
            RGB_NIR14 => "RGBNIR14",
            _ => "WavePacket14",
        };
        name.to_owned()
    }

    /// The refusal of the item.
    pub fn unsupported_message(&self) -> (s: String)
        ensures
            s@ == unsupported_text(*self),
    {
        let mut s: String = "Item ".to_owned();
        s.append(self.type_text().as_str());
        s.append(" with compression version: ");
        s.append(decimal(self.version as u64).as_str());
        s.append(" is not supported");
        s
    }

    /// Whether a record decompressor of this layout takes the item.
    pub fn is_supported(&self, layout: RecordLayout) -> (r: bool)
        ensures
            r == supported(layout, *self),
    {
        match layout {
            RecordLayout::Sequential => (self.version == 1 || self.version == 2) && (self.item_type
                == BYTE || (POINT10 <= self.item_type && self.item_type <= WAVE_PACKET13)),
            RecordLayout::Layered => (self.version == 3 || self.version == 4) && POINT14
                <= self.item_type && self.item_type <= BYTE14,
        }
    }
}

/// The parsed VLR of the `laz` crate: a list of items with a chunk size and a
/// compressor. It is opaque; the names below say what it holds.
#[verifier::external_type_specification]
#[verifier::external_body]
pub struct ExLazVlr(laz::LazVlr);

/// The items that a `laz::LazVlr` holds.
pub uninterp spec fn vlr_items(vlr: laz::LazVlr) -> Seq<LazItem>;

/// The chunk size that a `laz::LazVlr` was read with.
pub uninterp spec fn vlr_chunk_size(vlr: laz::LazVlr) -> u32;

/// The compressor that a `laz::LazVlr` was read with.
pub uninterp spec fn vlr_compressor(vlr: laz::LazVlr) -> u16;

/// The text of the error that `laz::LazVlr::from_buffer` gives for a payload that
/// ends too early.
pub uninterp spec fn vlr_cut_short(record: Seq<u8>) -> Seq<char>;

/// Calls `laz::LazVlr::from_buffer`.
///
/// Trusted: it succeeds on the payloads that `laszip_vlr` admits and only on
/// those, and the value it returns then holds what `laszip_vlr` says. On others its
/// error is in the words of `vlr_refusal`; where the payload just ends too early, the
/// words come from the standard library, and only that they are a function of the
/// payload is stated, `vlr_cut_short`.
#[verifier::external_body]
pub(crate) fn parse_vlr(record: &[u8]) -> (r: Result<LazVlr, String>)
    ensures
        match r {
            Ok(vlr) => laszip_vlr(record@) == Some(
                (LaszipVlr {
                    compressor: vlr_compressor(vlr),
                    chunk_size: vlr_chunk_size(vlr),
                    items: vlr_items(vlr),
                }),
            ),
            Err(text) => laszip_vlr(record@) is None && text@ == vlr_refusal(
                record@,
                vlr_cut_short(record@),
            ),
        },
{
    LazVlr::from_buffer(record).map_err(|e| e.to_string())
}

/// Calls `laz::LazVlr::items`.
///
/// Trusted: the items come out in order, each turned into its type code, its
/// declared size and its version.
#[verifier::external_body]
pub(crate) fn plain_items(vlr: &LazVlr) -> (items: Vec<LazItem>)
    ensures
        items@ == vlr_items(*vlr),
{
    vlr.items()
        .iter()
        .map(|i| LazItem {
            item_type: i.item_type().into(),
            size: i.size(),
            version: i.version(),
        })
        .collect()
}

/// `laz::LazVlr::items_size`.
///
/// Trusted: it adds up the declared sizes. It does so in 16 bits, which is why
/// the sum has to fit there.
pub assume_specification [laz::LazVlr::items_size] (vlr: &laz::LazVlr) -> (size: u64)
    requires
        declared_size(vlr_items(*vlr)) <= u16::MAX,
    ensures
        size == declared_size(vlr_items(*vlr)),
;

/// `laz::LazVlr::uses_variable_size_chunks`.
///
/// Trusted: the chunk size is then the largest `u32`.
pub assume_specification [laz::LazVlr::uses_variable_size_chunks] (vlr: &laz::LazVlr) -> (variable:
    bool)
    ensures
        variable == (vlr_chunk_size(*vlr) == u32::MAX),
;

/// `laz::LazVlr::chunk_size`.
///
/// Trusted: it returns the chunk size that the VLR was read with.
pub assume_specification [laz::LazVlr::chunk_size] (vlr: &laz::LazVlr) -> (size: u32)
    ensures
        size == vlr_chunk_size(*vlr),
;

/// What a `laz::LazVlr` holds.
pub open spec fn vlr_view(vlr: laz::LazVlr) -> LaszipVlr {
    LaszipVlr {
        compressor: vlr_compressor(vlr),
        chunk_size: vlr_chunk_size(vlr),
        items: vlr_items(vlr),
    }
}

/// What `decompress_many` of a sequential record decompressor with these items
/// makes of a chunk, in a zeroed buffer of `len` bytes: the buffer, or the text
/// of the error.
pub uninterp spec fn sequential_points(items: Seq<LazItem>, chunk: Seq<u8>, len: nat) -> Result<
    Seq<u8>,
    Seq<char>,
>;

/// How far into the chunk a sequential record decompressor has read once
/// `decompress_many` has succeeded.
pub uninterp spec fn sequential_end(items: Seq<LazItem>, chunk: Seq<u8>, len: nat) -> nat;

/// What `decompress_many` of a layered record decompressor with these items and
/// this selection makes of a chunk, in a zeroed buffer of `len` bytes: the
/// buffer, or the text of the error.
pub uninterp spec fn layered_points(
    items: Seq<LazItem>,
    chunk: Seq<u8>,
    selection: u32,
    len: nat,
) -> Result<Seq<u8>, Seq<char>>;

/// How far into the chunk a layered record decompressor has got once
/// `decompress_many` has succeeded.
pub uninterp spec fn layered_end(
    items: Seq<LazItem>,
    chunk: Seq<u8>,
    selection: u32,
    len: nat,
) -> nat;

/// Sets up a `laz::record::SequentialPointRecordDecompressor` over the chunk with
/// `new`, `set_fields_from` and `set_selection`, calls `decompress_many`, and asks
/// the cursor behind `get` for its position.
///
/// Trusted: `set_fields_from` takes items of this layout, and `set_selection` changes
/// nothing in it, so the points do not depend on `selection`. The points and the
/// position are functions of the items, the chunk and the length,
/// `sequential_points` and `sequential_end`. Nothing is read past the end of the
/// chunk. The buffer keeps its length, the first record is stored in the chunk as it
/// is, and bytes that no whole record takes up stay zero. What the chunk holds behind
/// the position makes no difference. Without a whole record nothing can fail, with one
/// only the lack of what `record_held` speaks of, and with more that fails as well.
///
/// It panics on a record of no bytes at all, and it may panic where `words_sound`
/// does not hold.
#[verifier::external_body]
pub(crate) fn decompress_sequential(
    vlr: &LazVlr,
    compressed: &[u8],
    selection: u32,
    len: usize,
) -> (r: Result<(Vec<u8>, u64), String>)
    requires
        declared_size(vlr_items(*vlr)) > 0,
        first_unsupported(RecordLayout::Sequential, vlr_items(*vlr)) is None,
        words_sound(
            RecordLayout::Sequential,
            vlr_items(*vlr),
            compressed@,
            selection,
            len as nat,
        ),
    ensures
        match r {
            Ok((points, end)) => {
                &&& sequential_points(vlr_items(*vlr), compressed@, len as nat) == Ok::<
                    Seq<u8>,
                    Seq<char>,
                >(points@)
                &&& sequential_end(vlr_items(*vlr), compressed@, len as nat) == end
                &&& end <= compressed@.len()
                &&& forall|m: int|
                    end <= m <= compressed@.len() ==> sequential_points(
                        vlr_items(*vlr),
                        #[trigger] compressed@.take(m),
                        len as nat,
                    ) == Ok::<Seq<u8>, Seq<char>>(points@)
                &&& points@.len() == len
                &&& starts_raw(vlr_items(*vlr), compressed@, points@)
                &&& zero_behind(fields_size(vlr_items(*vlr)), points@)
                &&& fields_size(vlr_items(*vlr)) <= len ==> record_held(
                    RecordLayout::Sequential,
                    vlr_items(*vlr),
                    compressed@,
                    selection,
                )
            },
            Err(text) => {
                &&& sequential_points(vlr_items(*vlr), compressed@, len as nat) == Err::<
                    Seq<u8>,
                    Seq<char>,
                >(text@)
                &&& fields_size(vlr_items(*vlr)) <= len
                &&& len < 2 * fields_size(vlr_items(*vlr)) ==> !record_held(
                    RecordLayout::Sequential,
                    vlr_items(*vlr),
                    compressed@,
                    selection,
                )
            },
        },
{
    let mut decompressor = SequentialPointRecordDecompressor::new(Cursor::new(compressed));
    decompressor.set_fields_from(vlr.items()).map_err(|e| e.to_string())?;
    decompressor.set_selection(DecompressionSelection(selection));
    let mut points = vec![0u8; len];
    decompressor.decompress_many(&mut points).map_err(|e| e.to_string())?;
    Ok((points, decompressor.get().position()))
}

/// Sets up a `laz::record::LayeredPointRecordDecompressor` over the chunk with
/// `new`, `set_fields_from` and `set_selection`, calls `decompress_many`, and asks
/// the cursor behind `get` for its position.
///
/// Trusted: as for `decompress_sequential`, but the points and the position depend
/// on the selection as well, through `layered_points` and `layered_end`. Each field
/// has a stream of its own, and a stream that is not selected is skipped, perhaps
/// past the end of the chunk: the bits of its field keep what the first record has,
/// and the other bits are those of a decompression of all fields, which fails
/// whenever one of fewer fields does.
#[verifier::external_body]
pub(crate) fn decompress_layered(
    vlr: &LazVlr,
    compressed: &[u8],
    selection: u32,
    len: usize,
) -> (r: Result<(Vec<u8>, u64), String>)
    requires
        declared_size(vlr_items(*vlr)) > 0,
        first_unsupported(RecordLayout::Layered, vlr_items(*vlr)) is None,
        words_sound(
            RecordLayout::Layered,
            vlr_items(*vlr),
            compressed@,
            selection,
            len as nat,
        ),
    ensures
        match r {
            Ok((points, end)) => {
                &&& layered_points(vlr_items(*vlr), compressed@, selection, len as nat) == Ok::<
                    Seq<u8>,
                    Seq<char>,
                >(points@)
                &&& layered_end(vlr_items(*vlr), compressed@, selection, len as nat) == end
                &&& selection == ALL_FIELDS ==> end <= compressed@.len()
                &&& forall|m: int|
                    end <= m <= compressed@.len() ==> layered_points(
                        vlr_items(*vlr),
                        #[trigger] compressed@.take(m),
                        selection,
                        len as nat,
                    ) == Ok::<Seq<u8>, Seq<char>>(points@)
                &&& points@.len() == len
                &&& starts_raw(vlr_items(*vlr), compressed@, points@)
                &&& zero_behind(fields_size(vlr_items(*vlr)), points@)
                &&& fields_size(vlr_items(*vlr)) <= len ==> record_held(
                    RecordLayout::Layered,
                    vlr_items(*vlr),
                    compressed@,
                    selection,
                )
                &&& repeats_first(vlr_items(*vlr), selection, points@)
                &&& layered_points(vlr_items(*vlr), compressed@, ALL_FIELDS, len as nat) matches Ok(
                    all,
                ) ==> agrees_where_selected(vlr_items(*vlr), selection, points@, all)
            },
            Err(text) => {
                &&& layered_points(vlr_items(*vlr), compressed@, selection, len as nat) == Err::<
                    Seq<u8>,
                    Seq<char>,
                >(text@)
                &&& layered_points(vlr_items(*vlr), compressed@, ALL_FIELDS, len as nat) is Err
                &&& fields_size(vlr_items(*vlr)) <= len
                &&& len < 2 * fields_size(vlr_items(*vlr)) ==> !record_held(
                    RecordLayout::Layered,
                    vlr_items(*vlr),
                    compressed@,
                    selection,
                )
            },
        },
{
    let mut decompressor = LayeredPointRecordDecompressor::new(Cursor::new(compressed));
    decompressor.set_fields_from(vlr.items()).map_err(|e| e.to_string())?;
    decompressor.set_selection(DecompressionSelection(selection));
    let mut points = vec![0u8; len];
    decompressor.decompress_many(&mut points).map_err(|e| e.to_string())?;
    Ok((points, decompressor.get().position()))
}

/// What decompressing `len` bytes of points from a chunk gives: the points, or the
/// text of the error.
pub open spec fn decompressed(
    layout: RecordLayout,
    items: Seq<LazItem>,
    chunk: Seq<u8>,
    selection: u32,
    len: nat,
) -> Result<Seq<u8>, Seq<char>> {
    match layout {
        RecordLayout::Sequential => sequential_points(items, chunk, len),
        RecordLayout::Layered => layered_points(items, chunk, selection, len),
    }
}

/// How far decompressing `len` bytes of points with all their fields gets in a
/// chunk, or `None` when it fails.
pub open spec fn decompressed_end(
    layout: RecordLayout,
    items: Seq<LazItem>,
    chunk: Seq<u8>,
    len: nat,
) -> Option<nat> {
    if decompressed(layout, items, chunk, ALL_FIELDS, len) is Err {
        None
    } else {
        match layout {
            RecordLayout::Sequential => Some(sequential_end(items, chunk, len)),
            RecordLayout::Layered => Some(layered_end(items, chunk, ALL_FIELDS, len)),
        }
    }
}

/// Whether what a chunk holds behind the end of a decompression with all fields makes
/// no difference to it.
pub open spec fn settled(
    layout: RecordLayout,
    items: Seq<LazItem>,
    chunk: Seq<u8>,
    len: nat,
) -> bool {
    decompressed_end(layout, items, chunk, len) matches Some(end) ==> forall|m: int|
        end <= m <= chunk.len() ==> decompressed(
            layout,
            items,
            #[trigger] chunk.take(m),
            ALL_FIELDS,
            len,
        ) == decompressed(layout, items, chunk, ALL_FIELDS, len)
}

/// Why no record decompressor can be set up for these items.
pub open spec fn setup_refusal(items: Seq<LazItem>) -> Option<Seq<char>> {
    match first_layout(items) {
        None => Some(unsupported_text(items[0])),
        Some(layout) => match first_unsupported(layout, items) {
            Some(item) => Some(unsupported_text(item)),
            None => None,
        },
    }
}

/// The point counts of the chunks of varying size in the chunk table of the stream
/// that begins at byte `start` of a file, as `laz::laszip::ChunkTable::read_from`
/// reads them, or `None` when it cannot.
pub uninterp spec fn chunk_counts(file: Seq<u8>, start: nat, chunk_size: u32) -> Option<Seq<u64>>;

/// Calls `laz::laszip::ChunkTable::read_from` over the file from byte `start` on.
///
/// Trusted: whether it succeeds, and the point count of each chunk then, is a
/// function of the file, the start and the chunk size, `chunk_counts`. It may panic
/// where `table_sound` does not hold.
#[verifier::external_body]
pub(crate) fn read_chunk_counts(file: &[u8], start: usize, vlr: &LazVlr) -> (r: Option<Vec<u64>>)
    requires
        table_sound(file@, start as nat),
    ensures
        match r {
            Some(counts) => chunk_counts(file@, start as nat, vlr_chunk_size(*vlr)) == Some(
                counts@,
            ),
            None => chunk_counts(file@, start as nat, vlr_chunk_size(*vlr)) is None,
        },
{
    let mut cursor = Cursor::new(file);
    cursor.set_position(start as u64);
    let table = ChunkTable::read_from(cursor, vlr).ok()?;
    Some(table.as_ref().iter().map(|entry| entry.point_count).collect())
}

/// Where `laz::LasZipDecompressor::new` finds the first chunk of the chunked stream
/// that begins at byte `start` of a file, or the text of the error with which it
/// gives up on the chunk table.
pub uninterp spec fn first_chunk(
    file: Seq<u8>,
    start: nat,
    compressor: u16,
    chunk_size: u32,
) -> Result<nat, Seq<char>>;

/// Where a whole-file decompressor finds the first point of the stream that begins
/// at byte `start`, if `chunked` is what it finds in a chunked stream. Without
/// chunks the stream begins with the point.
pub open spec fn first_point(vlr: LaszipVlr, start: nat, chunked: Result<nat, Seq<char>>) -> Result<
    nat,
    Seq<char>,
> {
    if vlr.compressor == 0 {
        Err("Compressor type None is not supported"@)
    } else if vlr.compressor == 1 {
        Ok(start)
    } else {
        chunked
    }
}

/// What comes of setting up a whole-file decompressor, if `first` is where it finds
/// the first point: that, or why there is none to set up.
pub open spec fn opened(vlr: LaszipVlr, first: Result<nat, Seq<char>>) -> Result<nat, Seq<char>> {
    match first {
        Err(text) => Err(text),
        Ok(at) => match setup_refusal(vlr.items) {
            Some(text) => Err(text),
            None => Ok(at),
        },
    }
}

/// A stream is refused for its compressor, then for its chunk table, then for the first
/// item that no record decompressor takes. Otherwise it is opened: without chunks at its
/// first byte, with chunks where they begin.
pub proof fn lemma_opened(vlr: LaszipVlr, start: nat, chunked: Result<nat, Seq<char>>)
    requires
        vlr.items.len() > 0,
        vlr.compressor <= 3,
    ensures
        ({
            let v = vlr.items[0].version;
            let refused = if 1 <= v <= 2 {
                first_unsupported(RecordLayout::Sequential, vlr.items)
            } else if 3 <= v <= 4 {
                first_unsupported(RecordLayout::Layered, vlr.items)
            } else {
                Some(vlr.items[0])
            };
            let result = opened(vlr, first_point(vlr, start, chunked));
            &&& vlr.compressor == 0 ==> result == Err::<nat, Seq<char>>(
                "Compressor type None is not supported"@,
            )
            &&& vlr.compressor >= 2 && chunked is Err ==> result == chunked
            &&& vlr.compressor == 1 || (vlr.compressor >= 2 && chunked is Ok) ==> match refused {
                Some(item) => result == Err::<nat, Seq<char>>(unsupported_text(item)),
                None => result == (if vlr.compressor == 1 {
                    Ok(start)
                } else {
                    chunked
                }),
            }
        }),
{
}

/// Calls `laz::LasZipDecompressor::new` over the file from byte `start` on, and asks
/// the cursor behind `get` for its position.
///
/// Trusted: `new` refuses a VLR without a compressor, a stream whose chunk table it
/// cannot get past and items that no record decompressor takes, in that order. Where
/// it gets to, and the words about the chunk table, are a function of the file, the
/// start, the compressor and the chunk size, `first_chunk`; a stream without chunks
/// has no table to get past. The first chunk, if it gets there, begins behind the
/// eight bytes of the table's offset, and not past the end of the file.
///
/// It panics when it gets past the chunk table and there are no items. It may panic
/// where `table_sound` does not hold.
#[verifier::external_body]
pub(crate) fn open_stream(file: &[u8], start: usize, vlr: &LazVlr) -> (r: Result<u64, String>)
    requires
        vlr_compressor(*vlr) >= 2 ==> table_sound(file@, start as nat),
        vlr_items(*vlr).len() > 0 || first_point(
            vlr_view(*vlr),
            start as nat,
            first_chunk(file@, start as nat, vlr_compressor(*vlr), vlr_chunk_size(*vlr)),
        ) is Err,
    ensures
        ({
            let first = first_point(
                vlr_view(*vlr),
                start as nat,
                first_chunk(file@, start as nat, vlr_compressor(*vlr), vlr_chunk_size(*vlr)),
            );
            match r {
                Ok(at) => {
                    &&& opened(vlr_view(*vlr), first) == Ok::<nat, Seq<char>>(at as nat)
                    &&& start <= file@.len() ==> at <= file@.len()
                    &&& vlr_compressor(*vlr) >= 2 ==> at == start + 8
                },
                Err(text) => opened(vlr_view(*vlr), first) == Err::<nat, Seq<char>>(text@),
            }
        }),
{
    let mut cursor = Cursor::new(file);
    cursor.set_position(start as u64);
    match LasZipDecompressor::new(cursor, vlr.clone()) {
        Ok(decompressor) => Ok(decompressor.get().position()),
        Err(e) => Err(e.to_string()),
    }
}

/// What `decompress_many` of a `laz::LasZipDecompressor` makes of the stream that
/// begins at byte `start` of a file, in a zeroed buffer of `len` bytes: the
/// buffer, or the text of the error.
pub uninterp spec fn file_points(
    file: Seq<u8>,
    start: nat,
    compressor: u16,
    chunk_size: u32,
    items: Seq<LazItem>,
    len: nat,
) -> Result<Seq<u8>, Seq<char>>;

/// Sets up a `laz::LasZipDecompressor` with `new`, over the file from byte
/// `start` on, and calls `decompress_many`.
///
/// Trusted: the points are a function of the file, the start, what the VLR holds and
/// the length, `file_points`. The buffer keeps its length, and bytes that no whole
/// record takes up stay zero. Where the fields of a record fill it, the points are
/// those that the record decompressors make of the chunks, one behind the other, and
/// so is the error, `chunked_points`; what a file holds behind a single chunk makes no
/// difference, as for a chunk of its own. It may panic where `stream_sound` does not
/// hold.
#[verifier::external_body]
pub(crate) fn decompress_file(file: &[u8], start: usize, vlr: LazVlr, len: usize) -> (r: Result<
    Vec<u8>,
    String,
>)
    requires
        stream_sound(
            vlr_view(vlr),
            file@,
            start as nat,
            first_chunk(file@, start as nat, vlr_compressor(vlr), vlr_chunk_size(vlr)),
            counts_of(
                vlr_view(vlr),
                chunk_counts(file@, start as nat, vlr_chunk_size(vlr)),
            ),
            len as nat,
        ),
        opened(
            vlr_view(vlr),
            first_point(
                vlr_view(vlr),
                start as nat,
                first_chunk(file@, start as nat, vlr_compressor(vlr), vlr_chunk_size(vlr)),
            ),
        ) is Ok,
    ensures
        ({
            let items = vlr_items(vlr);
            let points = file_points(
                file@,
                start as nat,
                vlr_compressor(vlr),
                vlr_chunk_size(vlr),
                items,
                len as nat,
            );
            match r {
                Ok(bytes) => {
                    &&& points == Ok::<Seq<u8>, Seq<char>>(bytes@)
                    &&& bytes@.len() == len
                    &&& zero_behind(declared_size(items), bytes@)
                },
                Err(text) => points == Err::<Seq<u8>, Seq<char>>(text@),
            }
        }),
        ({
            let items = vlr_items(vlr);
            let size = declared_size(items);
            let at = if vlr_compressor(vlr) == 1 {
                start as nat
            } else {
                start as nat + 8
            };
            fields_size(items) == size ==> (first_layout(items) matches Some(layout) ==> {
                &&& chunked_points(
                    vlr_view(vlr),
                    layout,
                    counts_of(
                        vlr_view(vlr),
                        chunk_counts(file@, start as nat, vlr_chunk_size(vlr)),
                    ),
                    file@,
                    at,
                    0,
                    len as nat / size,
                ) == match r {
                    Ok(bytes) => Ok::<Seq<u8>, Seq<char>>(
                        bytes@.take((len as nat / size * size) as int),
                    ),
                    Err(text) => Err::<Seq<u8>, Seq<char>>(text@),
                }
                &&& r is Ok && holds_all(
                    vlr_view(vlr),
                    counts_of(
                        vlr_view(vlr),
                        chunk_counts(file@, start as nat, vlr_chunk_size(vlr)),
                    ),
                    len as nat / size,
                ) ==> settled(layout, items, file@.skip(at as int), len as nat)
            })
        }),
{
    let mut cursor = Cursor::new(file);
    cursor.set_position(start as u64);
    let mut decompressor = LasZipDecompressor::new(cursor, vlr).map_err(|e| e.to_string())?;
    let mut points = vec![0u8; len];
    decompressor.decompress_many(&mut points).map_err(|e| e.to_string())?;
    Ok(points)
}

} // verus!
