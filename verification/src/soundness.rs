//! Which streams `laz` can be run on, and tests for that.
//!
//! A stream is bytes from an untrusted file. The arithmetic decoder of `laz` works
//! with a value that has to stay below the length of an interval, and its look-ups
//! run out of bounds otherwise. It starts with the first four bytes of a stream for
//! its value and with four bytes of ones for the length, and decoding a symbol keeps
//! the order of the two. So four bytes of ones, which no encoder writes, must not
//! come first where symbols are decoded.
//!
//! A whole file has more that `laz` believes: that its VLR describes records with
//! room for their fields, and that its chunk table accounts for all its points.
use laz::LazVlr;
use vstd::prelude::*;

use crate::budget::MAX_DECODED_BYTES;
use crate::bytes::{le_u32, le_u64, lemma_little_endian, read_u16, read_u32, read_u64};
use crate::chunk::{decompress_chunk, find_unsupported, record_size_fits};
use crate::error::{Error, ErrorView};
use crate::field::{
    ALL_FIELDS, CLASSIFICATION, EXTRA_BYTES, FLAGS, GPS_TIME as GPS_TIME_FIELD, INTENSITY, NIR,
    POINT_SOURCE_ID, RGB, SCAN_ANGLE, USER_DATA, WAVEPACKET, XY_RETURNS_CHANNEL, Z,
};
use crate::file::{
    chunk_points, decode_laz_file, decoded_file, decoded_points, failure_agrees, laz_file_sound, payload_sound,
    points_agree, points_sound, DecodedLas, DecodedLasView,
};
use crate::las::{read_header, read_las_header, LasHeader, LasHeaderView};
use crate::laszip::{
    chunk_counts, declared_size, decompressed_end, field_size, fields_size, first_chunk,
    first_layout, first_point, first_unsupported, item_at, laszip_vlr, open_stream, parse_vlr,
    plain_items, read_chunk_counts, vlr_chunk_size, vlr_compressor, vlr_items, vlr_view, LaszipVlr,
    LazItem, RecordLayout, BYTE14, GPS_TIME, POINT10, POINT14, RGB12, RGB14, RGB_NIR14,
    WAVE_PACKET13, WAVE_PACKET14,
};

verus! {

/// Whether the four bytes at `at` are ones throughout.
pub open spec fn all_ones(b: Seq<u8>, at: int) -> bool {
    b[at] == 0xFF && b[at + 1] == 0xFF && b[at + 2] == 0xFF && b[at + 3] == 0xFF
}

/// The streams of an item of the layered layout, in order, each as the selection bit
/// of its field, or zero for a stream that is decompressed whatever is selected.
pub open spec fn item_layers(item: LazItem) -> Seq<u32> {
    if item.item_type == POINT14 {
        seq![
            XY_RETURNS_CHANNEL,
            Z,
            CLASSIFICATION,
            FLAGS,
            INTENSITY,
            SCAN_ANGLE,
            USER_DATA,
            POINT_SOURCE_ID,
            GPS_TIME_FIELD,
        ]
    } else if item.item_type == RGB14 {
        seq![RGB]
    } else if item.item_type == RGB_NIR14 {
        seq![RGB, NIR]
    } else if item.item_type == WAVE_PACKET14 {
        seq![WAVEPACKET]
    } else {
        Seq::new(item.size as nat, |i: int| EXTRA_BYTES)
    }
}

/// The streams of all items.
pub open spec fn layers(items: Seq<LazItem>) -> Seq<u32>
    decreases items.len(),
{
    if items.len() == 0 {
        Seq::empty()
    } else {
        layers(items.drop_last()) + item_layers(items.last())
    }
}

/// Where stream `i` of `n` begins in a layered chunk, if the sizes of the streams
/// are listed from `table` on. The streams follow that list.
pub open spec fn layer_start(chunk: Seq<u8>, table: int, n: nat, i: nat) -> int
    decreases i,
{
    if i == 0 {
        table + 4 * n
    } else {
        layer_start(chunk, table, n, (i - 1) as nat) + le_u32(chunk, table + 4 * (i - 1))
    }
}

/// Whether stream `i` of a layered chunk, if it is selected, has a size that a `Vec`
/// can have, and does not begin with ones, if symbols are decoded from it and the
/// chunk holds it.
pub open spec fn layer_sound(
    bits: Seq<u32>,
    chunk: Seq<u8>,
    table: int,
    selection: u32,
    decoding: bool,
    i: nat,
) -> bool {
    let start = layer_start(chunk, table, bits.len(), i);
    let size = le_u32(chunk, table + 4 * i);
    bits[i as int] == 0 || selection & bits[i as int] != 0 ==> {
        &&& size <= isize::MAX
        &&& decoding && 4 <= size && start + size <= chunk.len() ==> !all_ones(chunk, start)
    }
}

/// Whether all streams of a layered chunk are sound.
pub open spec fn layers_sound(
    bits: Seq<u32>,
    chunk: Seq<u8>,
    table: int,
    selection: u32,
    decoding: bool,
) -> bool {
    forall|i: nat|
        i < bits.len() ==> #[trigger] layer_sound(bits, chunk, table, selection, decoding, i)
}

/// Whether a record decompressor can run on a chunk, for `len` bytes of points: no
/// stream from which symbols are decoded begins with ones, and the sizes of layers
/// are sizes that a `Vec` can have.
///
/// A chunk begins with its first record. A sequential chunk goes on with its one
/// stream. A layered chunk goes on with the number of its points, the sizes of its
/// streams and the streams. No symbols are decoded for the first record.
pub open spec fn words_sound(
    layout: RecordLayout,
    items: Seq<LazItem>,
    chunk: Seq<u8>,
    selection: u32,
    len: nat,
) -> bool {
    let fields = fields_size(items) as int;
    let decoding = 2 * fields <= len;
    fields <= len ==> match layout {
        RecordLayout::Sequential => decoding && fields + 4 <= chunk.len() ==> !all_ones(
            chunk,
            fields,
        ),
        RecordLayout::Layered => {
            let bits = layers(items);
            fields + 4 + 4 * bits.len() <= chunk.len() ==> layers_sound(
                bits,
                chunk,
                fields + 4,
                selection,
                decoding,
            )
        },
    }
}

/// Whether stream `i` of a layered chunk can be set up, if it is selected: it is empty,
/// or the chunk holds it and it is long enough to begin with.
pub open spec fn layer_held(
    bits: Seq<u32>,
    chunk: Seq<u8>,
    table: int,
    selection: u32,
    i: nat,
) -> bool {
    let start = layer_start(chunk, table, bits.len(), i);
    let size = le_u32(chunk, table + 4 * i);
    (bits[i as int] == 0 || selection & bits[i as int] != 0) && size != 0 ==> 4 <= size && start
        + size <= chunk.len()
}

/// Whether a chunk holds what a record decompressor reads for the first record: the
/// record, and the beginning of the stream behind it, or all selected layers.
pub open spec fn record_held(
    layout: RecordLayout,
    items: Seq<LazItem>,
    chunk: Seq<u8>,
    selection: u32,
) -> bool {
    let fields = fields_size(items) as int;
    match layout {
        RecordLayout::Sequential => fields + 4 <= chunk.len(),
        RecordLayout::Layered => {
            let bits = layers(items);
            &&& fields + 4 + 4 * bits.len() <= chunk.len()
            &&& forall|i: nat|
                i < bits.len() ==> #[trigger] layer_held(bits, chunk, fields + 4, selection, i)
        },
    }
}

/// Where the chunk table of the stream that begins at byte `start` is: behind the
/// end of the stream that its first eight bytes give, or the last eight bytes of the
/// file, when the first give none.
pub open spec fn table_start(file: Seq<u8>, start: nat) -> Option<int> {
    if start + 8 > file.len() {
        None
    } else if start < le_u64(file, start as int) <= i64::MAX {
        Some(le_u64(file, start as int) as int)
    } else if start < le_u64(file, file.len() - 8) <= i64::MAX {
        Some(le_u64(file, file.len() - 8) as int)
    } else {
        None
    }
}

/// Whether the entries of the chunk table, if it has any, do not begin with ones, and
/// a `Vec` can hold them, at sixteen bytes each. A version and the number of chunks
/// come before them.
pub open spec fn table_sound(file: Seq<u8>, start: nat) -> bool {
    table_start(file, start) matches Some(at) ==> (at + 12 <= file.len() && le_u32(file, at + 4) != 0
        ==> !all_ones(file, at + 8) && 16 * le_u32(file, at + 4) <= isize::MAX)
}

/// Whether `left` records can be decompressed from a file where chunk `k` begins at
/// byte `at`. The next chunk begins where decompressing this one ends.
pub open spec fn chunks_sound(
    vlr: LaszipVlr,
    layout: RecordLayout,
    counts: Option<Seq<u64>>,
    file: Seq<u8>,
    at: nat,
    k: nat,
    left: nat,
) -> bool
    decreases left,
{
    let chunk = file.skip(at as int);
    let fields = fields_size(vlr.items);
    if left == 0 {
        true
    } else {
        match chunk_points(vlr, counts, k) {
            None => {
                &&& words_sound(layout, vlr.items, chunk, ALL_FIELDS, fields)
                &&& decompressed_end(layout, vlr.items, chunk, fields) is None
            },
            Some(n) => {
                let here = if n == 0 || n >= left {
                    left
                } else {
                    n
                };
                &&& words_sound(layout, vlr.items, chunk, ALL_FIELDS, here * fields)
                &&& here < left ==> match decompressed_end(
                    layout,
                    vlr.items,
                    chunk,
                    here * fields,
                ) {
                    None => true,
                    Some(end) => chunks_sound(
                        vlr,
                        layout,
                        counts,
                        file,
                        at + end,
                        k + 1,
                        (left - here) as nat,
                    ),
                }
            },
        }
    }
}

/// Whether a whole-file decompressor can run, for `len` bytes of points, on the
/// stream that begins at byte `start`, or refuses it. `chunked` is where it finds the
/// first chunk if the stream has chunks, and `counts` are the points of its chunks.
///
/// Past the chunk table it cannot run without items. With items that it takes, a
/// record has to have bytes, no more than 16 bits count, and room for its fields.
pub open spec fn stream_sound(
    vlr: LaszipVlr,
    file: Seq<u8>,
    start: nat,
    chunked: Result<nat, Seq<char>>,
    counts: Option<Seq<u64>>,
    len: nat,
) -> bool {
    &&& vlr.compressor >= 2 ==> table_sound(file, start)
    &&& first_point(vlr, start, chunked) matches Ok(at) ==> {
        &&& vlr.items.len() > 0
        &&& first_layout(vlr.items) matches Some(layout) ==> (first_unsupported(
            layout,
            vlr.items,
        ) is None ==> {
            &&& 0 < declared_size(vlr.items) <= u16::MAX
            &&& fields_size(vlr.items) <= declared_size(vlr.items)
            &&& chunks_sound(
                vlr,
                layout,
                counts,
                file,
                at,
                0,
                len / declared_size(vlr.items),
            )
        })
    }
}

/// No stream begins before the list of sizes ends.
proof fn lemma_layer_start_bound(chunk: Seq<u8>, table: int, n: nat, i: nat)
    ensures
        table <= layer_start(chunk, table, n, i),
    decreases i,
{
    if i > 0 {
        lemma_layer_start_bound(chunk, table, n, (i - 1) as nat);
    }
}

/// Each item adds its streams behind those of the items before it: core fields nine, in
/// the order of the format, colour and the wave packet one each, near infrared another,
/// and extra bytes one for each byte.
pub proof fn lemma_layers(items: Seq<LazItem>, item: LazItem)
    ensures
        layers(Seq::empty()) == Seq::<u32>::empty(),
        item.item_type == 10 ==> layers(items.push(item)) == layers(items) + seq![
            0u32,
            0x001,
            0x002,
            0x004,
            0x008,
            0x010,
            0x020,
            0x040,
            0x080,
        ],
        item.item_type == 11 ==> layers(items.push(item)) == layers(items) + seq![0x100u32],
        item.item_type == 12 ==> layers(items.push(item)) == layers(items) + seq![0x100u32, 0x200],
        item.item_type == 13 ==> layers(items.push(item)) == layers(items) + seq![0x400u32],
        item.item_type == 14 ==> layers(items.push(item)) == layers(items) + Seq::new(
            item.size as nat,
            |i: int| 0x800u32,
        ),
{
    assert(items.push(item).drop_last() =~= items);
    assert(Seq::new(item.size as nat, |i: int| EXTRA_BYTES) =~= Seq::new(
        item.size as nat,
        |i: int| 0x800u32,
    ));
}

/// The first stream of a layered chunk begins behind the list of sizes, and the next one
/// behind the bytes that the list gives a stream.
pub proof fn lemma_layer_follows(b: Seq<u8>, table: int, n: nat, i: nat)
    ensures
        layer_start(b, table, n, 0) == table + 4 * n,
        ({
            let s = table + 4 * i;
            layer_start(b, table, n, i + 1) == layer_start(b, table, n, i) + b[s] + 0x100 * b[s + 1]
                + 0x1_0000 * b[s + 2] + 0x100_0000 * b[s + 3]
        }),
{
    lemma_little_endian(b, table + 4 * i);
}

/// What stands against a record decompressor: in a sequential chunk four bytes of ones
/// behind the first record, where there is room for a second; in a layered chunk a selected
/// stream that is too large for a `Vec`, or that the chunk holds and that begins with four
/// bytes of ones, where there is room for a second record. Nothing else does.
pub proof fn lemma_words_exact(
    items: Seq<LazItem>,
    chunk: Seq<u8>,
    selection: u32,
    len: nat,
)
    ensures
        ({
            let at = fields_size(items) as int;
            !words_sound(RecordLayout::Sequential, items, chunk, selection, len) <==> at <= len && 2
                * at <= len && at + 4 <= chunk.len() && chunk[at] == 0xFF && chunk[at + 1] == 0xFF
                && chunk[at + 2] == 0xFF && chunk[at + 3] == 0xFF
        }),
        ({
            let table = fields_size(items) as int + 4;
            let bits = layers(items);
            !words_sound(RecordLayout::Layered, items, chunk, selection, len) <==> fields_size(items)
                <= len && table + 4 * bits.len() <= chunk.len() && exists|i: int|
                {
                    let s = table + 4 * i;
                    let size = chunk[s] + 0x100 * chunk[s + 1] + 0x1_0000 * chunk[s + 2]
                        + 0x100_0000 * chunk[s + 3];
                    let start = layer_start(chunk, table, bits.len(), i as nat);
                    &&& 0 <= i < bits.len()
                    &&& #[trigger] bits[i] == 0 || selection & bits[i] != 0
                    &&& size > isize::MAX || (2 * fields_size(items) <= len && 4 <= size && start
                        + size <= chunk.len() && chunk[start] == 0xFF && chunk[start + 1] == 0xFF
                        && chunk[start + 2] == 0xFF && chunk[start + 3] == 0xFF)
                }
        }),
{
    let table = fields_size(items) as int + 4;
    let bits = layers(items);
    let decoding = 2 * fields_size(items) <= len;
    assert forall|i: nat| i < bits.len() implies (#[trigger] layer_sound(
        bits,
        chunk,
        table,
        selection,
        decoding,
        i,
    ) <==> {
        let s = table + 4 * i;
        let size = chunk[s] + 0x100 * chunk[s + 1] + 0x1_0000 * chunk[s + 2] + 0x100_0000 * chunk[s
            + 3];
        let start = layer_start(chunk, table, bits.len(), i);
        !((bits[i as int] == 0 || selection & bits[i as int] != 0) && (size > isize::MAX || (decoding
            && 4 <= size && start + size <= chunk.len() && chunk[start] == 0xFF && chunk[start + 1]
            == 0xFF && chunk[start + 2] == 0xFF && chunk[start + 3] == 0xFF)))
    }) by {
        lemma_little_endian(chunk, table + 4 * i);
    }
    if layers_sound(bits, chunk, table, selection, decoding) {
        assert forall|i: int| 0 <= i < bits.len() implies {
            let s = table + 4 * i;
            let size = chunk[s] + 0x100 * chunk[s + 1] + 0x1_0000 * chunk[s + 2] + 0x100_0000
                * chunk[s + 3];
            let start = layer_start(chunk, table, bits.len(), i as nat);
            !((#[trigger] bits[i] == 0 || selection & bits[i] != 0) && (size > isize::MAX || (
            decoding && 4 <= size && start + size <= chunk.len() && chunk[start] == 0xFF
                && chunk[start + 1] == 0xFF && chunk[start + 2] == 0xFF && chunk[start + 3]
                == 0xFF)))
        } by {
            assert(layer_sound(bits, chunk, table, selection, decoding, i as nat));
        }
    } else {
        let i = choose|i: nat|
            i < bits.len() && !#[trigger] layer_sound(bits, chunk, table, selection, decoding, i);
        assert(bits[i as int] == 0 || selection & bits[i as int] != 0);
    }
}

/// What stands against a chunk table: it has entries that begin with four bytes of ones, or
/// more of them than a `Vec` can hold. The table is where the first eight bytes of the
/// stream say, or else the last eight bytes of the file.
pub proof fn lemma_table_exact(b: Seq<u8>, start: nat)
    ensures
        ({
            let u64_at = |at: int|
                b[at] + 0x100 * b[at + 1] + 0x1_0000 * b[at + 2] + 0x100_0000 * b[at + 3]
                    + 0x1_0000_0000 * b[at + 4] + 0x100_0000_0000 * b[at + 5] + 0x1_0000_0000_0000
                    * b[at + 6] + 0x100_0000_0000_0000 * b[at + 7];
            let first = u64_at(start as int);
            let last = u64_at(b.len() - 8);
            let at = if start < first <= 0x7FFF_FFFF_FFFF_FFFF {
                first
            } else {
                last
            };
            let entries = b[at + 4] + 0x100 * b[at + 5] + 0x1_0000 * b[at + 6] + 0x100_0000 * b[at
                + 7];
            !table_sound(b, start) <==> start + 8 <= b.len() && start < at <= 0x7FFF_FFFF_FFFF_FFFF
                && at + 12 <= b.len() && entries != 0 && (16 * entries > isize::MAX || (b[at + 8]
                == 0xFF && b[at + 9] == 0xFF && b[at + 10] == 0xFF && b[at + 11] == 0xFF))
        }),
{
    lemma_little_endian(b, start as int);
    lemma_little_endian(b, b.len() - 8);
    if let Some(at) = table_start(b, start) {
        lemma_little_endian(b, at + 4);
    }
}

/// Records are sound exactly when those of the first chunk are and, if that chunk
/// decompresses, those of the chunks behind it. A chunk whose number of points nothing
/// tells is sound only if its first record fails.
pub proof fn lemma_chunks_exact(
    vlr: LaszipVlr,
    layout: RecordLayout,
    counts: Option<Seq<u64>>,
    file: Seq<u8>,
    at: nat,
    k: nat,
    left: nat,
)
    ensures
        ({
            let size = fields_size(vlr.items);
            let chunk = file.skip(at as int);
            let told = if vlr.chunk_size != 0xFFFF_FFFF {
                Some(
                    if vlr.compressor == 1 {
                        0xFFFF_FFFFint
                    } else {
                        vlr.chunk_size as int
                    },
                )
            } else if counts is Some && k < counts->0.len() {
                Some(counts->0[k as int] as int)
            } else if counts is None && vlr.compressor == 3 {
                Some(0int)
            } else {
                None
            };
            let sound = chunks_sound(vlr, layout, counts, file, at, k, left);
            &&& left == 0 ==> sound
            &&& left > 0 ==> match told {
                None => sound <==> words_sound(layout, vlr.items, chunk, 0xFFFF_FFFF, size)
                    && decompressed_end(layout, vlr.items, chunk, size) is None,
                Some(n) => if n == 0 || left <= n {
                    sound <==> words_sound(layout, vlr.items, chunk, 0xFFFF_FFFF, left * size)
                } else {
                    sound <==> words_sound(layout, vlr.items, chunk, 0xFFFF_FFFF, (n * size) as nat)
                        && match decompressed_end(layout, vlr.items, chunk, (n * size) as nat) {
                        None => true,
                        Some(end) => chunks_sound(
                            vlr,
                            layout,
                            counts,
                            file,
                            at + end,
                            k + 1,
                            (left - n) as nat,
                        ),
                    }
                },
            }
        }),
{
}

/// What stands against decompressing a stream: its chunk table, and past that only a lack
/// of items, or, with items that are taken, records of no bytes, of more than 16 bits count
/// or without room for their fields, or one of the chunks.
pub proof fn lemma_stream_exact(
    vlr: LaszipVlr,
    file: Seq<u8>,
    start: nat,
    chunked: Result<nat, Seq<char>>,
    counts: Option<Seq<u64>>,
    len: nat,
)
    requires
        vlr.compressor <= 3,
    ensures
        ({
            let v = vlr.items[0].version;
            let layout = if v <= 2 {
                RecordLayout::Sequential
            } else {
                RecordLayout::Layered
            };
            let at = if vlr.compressor == 1 {
                start
            } else {
                chunked->Ok_0
            };
            let sound = stream_sound(vlr, file, start, chunked, counts, len);
            &&& vlr.compressor == 0 ==> sound
            &&& vlr.compressor >= 2 && chunked is Err ==> (sound <==> table_sound(file, start))
            &&& vlr.compressor == 1 || (vlr.compressor >= 2 && chunked is Ok) ==> (sound <==> {
                &&& vlr.compressor >= 2 ==> table_sound(file, start)
                &&& vlr.items.len() > 0
                &&& 1 <= v <= 4 && first_unsupported(layout, vlr.items) is None ==> {
                    &&& 0 < declared_size(vlr.items) <= 0xFFFF
                    &&& fields_size(vlr.items) <= declared_size(vlr.items)
                    &&& chunks_sound(
                        vlr,
                        layout,
                        counts,
                        file,
                        at,
                        0,
                        len / declared_size(vlr.items),
                    )
                }
            })
        }),
{
}

/// A chunk without four bytes of ones in a row is sound for a record decompressor, where
/// layers of any size can be had.
pub proof fn lemma_words_sound(
    layout: RecordLayout,
    items: Seq<LazItem>,
    chunk: Seq<u8>,
    selection: u32,
    len: nat,
)
    ensures
        0xFFFF_FFFF <= isize::MAX && (forall|i: int|
            0 <= i <= chunk.len() - 4 ==> !(#[trigger] chunk[i] == 0xFF && chunk[i + 1] == 0xFF
                && chunk[i + 2] == 0xFF && chunk[i + 3] == 0xFF)) ==> words_sound(
            layout,
            items,
            chunk,
            selection,
            len,
        ),
{
    if 0xFFFF_FFFF <= isize::MAX && (forall|i: int|
        0 <= i <= chunk.len() - 4 ==> !(#[trigger] chunk[i] == 0xFF && chunk[i + 1] == 0xFF
            && chunk[i + 2] == 0xFF && chunk[i + 3] == 0xFF)) {
        let fields = fields_size(items) as int;
        let bits = layers(items);
        let decoding = 2 * fields <= len;
        assert forall|i: nat| i < bits.len() implies #[trigger] layer_sound(
            bits,
            chunk,
            fields + 4,
            selection,
            decoding,
            i,
        ) by {
            lemma_layer_start_bound(chunk, fields + 4, bits.len(), i);
            let start = layer_start(chunk, fields + 4, bits.len(), i);
            if start + 4 <= chunk.len() {
                assert(!(chunk[start] == 0xFF && chunk[start + 1] == 0xFF && chunk[start + 2] == 0xFF
                    && chunk[start + 3] == 0xFF));
            }
        }
        assert(layers_sound(bits, chunk, fields + 4, selection, decoding));
        if fields + 4 <= chunk.len() {
            assert(!(chunk[fields] == 0xFF && chunk[fields + 1] == 0xFF && chunk[fields + 2] == 0xFF
                && chunk[fields + 3] == 0xFF));
        }
    }
}

/// How many points the chunks from chunk `k` on have together.
pub open spec fn points_from(counts: Seq<u64>, k: nat) -> nat
    decreases counts.len() - k,
{
    if k >= counts.len() {
        0
    } else {
        counts[k as int] as nat + points_from(counts, k + 1)
    }
}

/// The chunks of a file without four bytes of ones in a row are sound, however many there
/// are, if all of them have points and together as many as are asked for.
proof fn lemma_chunks_sound(
    vlr: LaszipVlr,
    layout: RecordLayout,
    counts: Option<Seq<u64>>,
    file: Seq<u8>,
    at: nat,
    k: nat,
    left: nat,
)
    requires
        0xFFFF_FFFF <= isize::MAX,
        forall|i: int|
            0 <= i <= file.len() - 4 ==> !(#[trigger] file[i] == 0xFF && file[i + 1] == 0xFF
                && file[i + 2] == 0xFF && file[i + 3] == 0xFF),
        forall|a: nat, n: nat|
            a <= file.len() ==> (#[trigger] decompressed_end(
                layout,
                vlr.items,
                file.skip(a as int),
                n,
            ) matches Some(end) ==> a + end <= file.len()),
        at <= file.len(),
        vlr.chunk_size != u32::MAX || (counts matches Some(c) && (forall|i: int|
            0 <= i < c.len() ==> #[trigger] c[i] > 0) && left <= points_from(c, k)),
    ensures
        chunks_sound(vlr, layout, counts, file, at, k, left),
    decreases left,
{
    if left > 0 {
        let chunk = file.skip(at as int);
        let fields = fields_size(vlr.items);
        let n = chunk_points(vlr, counts, k)->0;
        let here = if n == 0 || n >= left {
            left
        } else {
            n
        };
        assert forall|i: int| 0 <= i <= chunk.len() - 4 implies !(#[trigger] chunk[i] == 0xFF
            && chunk[i + 1] == 0xFF && chunk[i + 2] == 0xFF && chunk[i + 3] == 0xFF) by {
            assert(chunk[i] == file[at + i]);
        }
        lemma_words_sound(layout, vlr.items, chunk, ALL_FIELDS, here * fields);
        if here < left {
            if let Some(end) = decompressed_end(layout, vlr.items, chunk, here * fields) {
                lemma_chunks_sound(
                    vlr,
                    layout,
                    counts,
                    file,
                    at + end,
                    k + 1,
                    (left - here) as nat,
                );
            }
        }
    }
}

/// A file without four bytes of ones in a row can be decompressed, where layers and tables
/// of any size can be had, if its records have bytes, up to 16 bits of them, and room for
/// their fields, and its chunks either have one size or have points, together as many as
/// are asked for. All that is asked of `laz` is that it does not get past the end of the
/// file.
pub proof fn lemma_stream_sound(
    vlr: LaszipVlr,
    file: Seq<u8>,
    start: nat,
    chunked: Result<nat, Seq<char>>,
    counts: Option<Seq<u64>>,
    len: nat,
)
    requires
        0x10_0000_0000 <= isize::MAX,
        forall|i: int|
            0 <= i <= file.len() - 4 ==> !(#[trigger] file[i] == 0xFF && file[i + 1] == 0xFF
                && file[i + 2] == 0xFF && file[i + 3] == 0xFF),
        forall|layout: RecordLayout, a: nat, n: nat|
            a <= file.len() ==> (#[trigger] decompressed_end(
                layout,
                vlr.items,
                file.skip(a as int),
                n,
            ) matches Some(end) ==> a + end <= file.len()),
        start <= file.len(),
        chunked matches Ok(at) ==> at <= file.len(),
        vlr.items.len() > 0,
        0 < declared_size(vlr.items) <= 0xFFFF,
        fields_size(vlr.items) <= declared_size(vlr.items),
        vlr.chunk_size != 0xFFFF_FFFF || (counts matches Some(c) && (forall|i: int|
            0 <= i < c.len() ==> #[trigger] c[i] > 0) && len / declared_size(vlr.items)
            <= points_from(c, 0)),
    ensures
        stream_sound(vlr, file, start, chunked, counts, len),
{
    if let Some(at) = table_start(file, start) {
        if at + 12 <= file.len() {
            assert(!(file[at + 8] == 0xFF && file[at + 9] == 0xFF && file[at + 10] == 0xFF && file[at
                + 11] == 0xFF));
        }
    }
    if let Ok(at) = first_point(vlr, start, chunked) {
        if let Some(layout) = first_layout(vlr.items) {
            lemma_chunks_sound(
                vlr,
                layout,
                counts,
                file,
                at,
                0,
                len / declared_size(vlr.items),
            );
        }
    }
}

/// Adds up the sizes that the items declare.
fn sum_declared(items: &Vec<LazItem>) -> (sum: u128)
    ensures
        sum == declared_size(items@),
{
    let mut sum: u128 = 0;
    let mut i: usize = 0;
    while i < items.len()
        invariant
            i <= items.len(),
            sum == declared_size(items@.take(i as int)),
            sum <= i * u16::MAX,
        decreases items.len() - i,
    {
        assert(items@.take(i + 1).drop_last() =~= items@.take(i as int));
        sum = sum + items[i].size as u128;
        i = i + 1;
    }
    assert(items@.take(i as int) =~= items@);
    sum
}

impl LazItem {
    /// The bytes that the fields of the item take in a point record.
    fn field_bytes(&self) -> (size: u16)
        ensures
            size == field_size(*self),
    {
        match self.item_type {
            POINT10 => 20,
            GPS_TIME => 8,
            RGB12 | RGB14 => 6,
            WAVE_PACKET13 | WAVE_PACKET14 => 29,
            POINT14 => 30,
            RGB_NIR14 => 8,
            _ => self.size,
        }
    }

    /// Lists the streams of the item behind those in `bits`.
    fn push_layers(&self, bits: &mut Vec<u32>)
        ensures
            final(bits)@ == old(bits)@ + item_layers(*self),
    {
        let ghost before = bits@;
        match self.item_type {
            POINT14 => {
                bits.push(XY_RETURNS_CHANNEL);
                bits.push(Z);
                bits.push(CLASSIFICATION);
                bits.push(FLAGS);
                bits.push(INTENSITY);
                bits.push(SCAN_ANGLE);
                bits.push(USER_DATA);
                bits.push(POINT_SOURCE_ID);
                bits.push(GPS_TIME_FIELD);
            },
            RGB14 => {
                bits.push(RGB);
            },
            RGB_NIR14 => {
                bits.push(RGB);
                bits.push(NIR);
            },
            WAVE_PACKET14 => {
                bits.push(WAVEPACKET);
            },
            _ => {
                let mut i: u16 = 0;
                while i < self.size
                    invariant
                        i <= self.size,
                        bits@ == before + Seq::new(i as nat, |j: int| EXTRA_BYTES),
                    decreases self.size - i,
                {
                    bits.push(EXTRA_BYTES);
                    i = i + 1;
                    assert(bits@ =~= before + Seq::new(i as nat, |j: int| EXTRA_BYTES));
                }
            },
        }
        assert(bits@ =~= before + item_layers(*self));
    }
}

/// Adds up the bytes that the fields of all items take.
fn sum_fields(items: &Vec<LazItem>) -> (sum: u128)
    ensures
        sum == fields_size(items@),
        sum <= items.len() * u16::MAX,
{
    let mut sum: u128 = 0;
    let mut i: usize = 0;
    while i < items.len()
        invariant
            i <= items.len(),
            sum == fields_size(items@.take(i as int)),
            sum <= i * u16::MAX,
        decreases items.len() - i,
    {
        assert(items@.take(i + 1).drop_last() =~= items@.take(i as int));
        sum = sum + items[i].field_bytes() as u128;
        i = i + 1;
    }
    assert(items@.take(i as int) =~= items@);
    sum
}

/// Lists the streams of all items.
fn list_layers(items: &Vec<LazItem>) -> (bits: Vec<u32>)
    ensures
        bits@ == layers(items@),
{
    let mut bits: Vec<u32> = Vec::new();
    let mut i: usize = 0;
    while i < items.len()
        invariant
            i <= items.len(),
            bits@ == layers(items@.take(i as int)),
        decreases items.len() - i,
    {
        assert(items@.take(i + 1).drop_last() =~= items@.take(i as int));
        items[i].push_layers(&mut bits);
        i = i + 1;
    }
    assert(items@.take(i as int) =~= items@);
    bits
}

/// Whether the four bytes at `at` are ones throughout.
fn is_all_ones(b: &[u8], at: usize) -> (r: bool)
    requires
        at + 4 <= b.len(),
    ensures
        r == all_ones(b@, at as int),
{
    b[at] == 0xFF && b[at + 1] == 0xFF && b[at + 2] == 0xFF && b[at + 3] == 0xFF
}

/// Tests the streams of a layered chunk whose sizes are listed from `table` on.
fn check_layers(
    bits: &Vec<u32>,
    chunk: &[u8],
    table: usize,
    selection: u32,
    decoding: bool,
) -> (r: bool)
    requires
        table + 4 * bits.len() <= chunk.len(),
    ensures
        r == layers_sound(bits@, chunk@, table as int, selection, decoding),
{
    let mut start: u128 = table as u128 + 4 * bits.len() as u128;
    let mut i: usize = 0;
    while i < bits.len()
        invariant
            i <= bits.len(),
            table + 4 * bits.len() <= chunk.len(),
            start == layer_start(chunk@, table as int, bits@.len(), i as nat),
            start <= chunk.len() + i * u32::MAX,
            forall|j: nat|
                j < i ==> #[trigger] layer_sound(
                    bits@,
                    chunk@,
                    table as int,
                    selection,
                    decoding,
                    j,
                ),
        decreases bits.len() - i,
    {
        let size: u32 = read_u32(chunk, table + 4 * i);
        if bits[i] == 0 || selection & bits[i] != 0 {
            if size as u128 > isize::MAX as u128 || (decoding && 4 <= size && start + size as u128
                <= chunk.len() as u128 && is_all_ones(chunk, start as usize)) {
                assert(!layer_sound(
                    bits@,
                    chunk@,
                    table as int,
                    selection,
                    decoding,
                    i as nat,
                ));
                return false;
            }
        }
        start = start + size as u128;
        i = i + 1;
    }
    true
}

/// Tests whether a record decompressor can run on a chunk.
pub(crate) fn check_words(
    layout: RecordLayout,
    items: &Vec<LazItem>,
    chunk: &[u8],
    selection: u32,
    len: usize,
) -> (r: bool)
    ensures
        r == words_sound(layout, items@, chunk@, selection, len as nat),
{
    let fields: u128 = sum_fields(items);
    if fields > len as u128 {
        return true;
    }
    if fields + 4 > chunk.len() as u128 {
        return true;
    }
    let decoding: bool = 2 * fields <= len as u128;
    let first: usize = fields as usize;
    match layout {
        RecordLayout::Sequential => !(decoding && is_all_ones(chunk, first)),
        RecordLayout::Layered => {
            let bits: Vec<u32> = list_layers(items);
            if fields + 4 + 4 * bits.len() as u128 > chunk.len() as u128 {
                return true;
            }
            check_layers(&bits, chunk, first + 4, selection, decoding)
        },
    }
}

/// Tests the entries of the chunk table.
fn check_table(file: &[u8], start: usize) -> (r: bool)
    ensures
        r == table_sound(file@, start as nat),
{
    if file.len() < 8 || start > file.len() - 8 {
        return true;
    }
    let mut at: u64 = read_u64(file, start);
    if at <= start as u64 || at > 0x7FFF_FFFF_FFFF_FFFF {
        at = read_u64(file, file.len() - 8);
        if at <= start as u64 || at > 0x7FFF_FFFF_FFFF_FFFF {
            return true;
        }
    }
    if file.len() < 12 || at > (file.len() - 12) as u64 {
        return true;
    }
    let chunks: u32 = read_u32(file, at as usize + 4);
    chunks == 0 || (!is_all_ones(file, at as usize + 8) && 16 * chunks as u128
        <= isize::MAX as u128)
}

/// How many points chunk `k` is taken to have.
fn points_of_chunk(vlr: &LazVlr, compressor: u16, counts: &Option<Vec<u64>>, k: usize) -> (r:
    Option<u64>)
    requires
        compressor == vlr_compressor(*vlr),
    ensures
        ({
            let c = match counts {
                Some(c) => Some(c@),
                None => None,
            };
            match r {
                Some(n) => chunk_points(vlr_view(*vlr), c, k as nat) == Some(n as nat),
                None => chunk_points(vlr_view(*vlr), c, k as nat) is None,
            }
        }),
{
    if !vlr.uses_variable_size_chunks() {
        if compressor == 1 {
            return Some(0xFFFF_FFFF);
        }
        return Some(vlr.chunk_size() as u64);
    }
    match counts {
        Some(c) => if k < c.len() {
            Some(c[k])
        } else {
            None
        },
        None => if compressor == 3 {
            Some(0)
        } else {
            None
        },
    }
}

/// Walks over the chunks of a file from byte `first` on, for `records` records.
fn check_chunks(
    vlr: &LazVlr,
    items: &Vec<LazItem>,
    layout: RecordLayout,
    counts: &Option<Vec<u64>>,
    compressor: u16,
    file: &[u8],
    first: usize,
    records: usize,
) -> (r: bool)
    requires
        items@ == vlr_items(*vlr),
        compressor == vlr_compressor(*vlr),
        declared_size(items@) > 0,
        first_unsupported(layout, items@) is None,
        first <= file.len(),
        records * fields_size(items@) <= MAX_DECODED_BYTES,
    ensures
        ({
            let c = match counts {
                Some(c) => Some(c@),
                None => None,
            };
            r == chunks_sound(
                vlr_view(*vlr),
                layout,
                c,
                file@,
                first as nat,
                0,
                records as nat,
            )
        }),
{
    let ghost c = match counts {
        Some(c) => Some(c@),
        None => None,
    };
    let ghost v = vlr_view(*vlr);
    if records == 0 {
        return true;
    }
    proof {
        lemma_fields_take_bytes(items@);
        let f = fields_size(items@);
        assert(f <= records * f) by (nonlinear_arith)
            requires
                records >= 1,
        ;
    }
    let fields: usize = sum_fields(items) as usize;
    let mut at: usize = first;
    let mut k: usize = 0;
    let mut left: usize = records;
    while left > 0
        invariant
            c == (match counts {
                Some(c) => Some(c@),
                None => None,
            }),
            v == vlr_view(*vlr),
            items@ == vlr_items(*vlr),
            compressor == vlr_compressor(*vlr),
            declared_size(items@) > 0,
            first_unsupported(layout, items@) is None,
            fields == fields_size(items@),
            0 < fields,
            records * fields <= MAX_DECODED_BYTES,
            at <= file.len(),
            k + left <= records,
            chunks_sound(v, layout, c, file@, at as nat, k as nat, left as nat) == chunks_sound(
                v,
                layout,
                c,
                file@,
                first as nat,
                0,
                records as nat,
            ),
        decreases left,
    {
        let chunk: &[u8] = &file[at..file.len()];
        assert(chunk@ =~= file@.skip(at as int));
        match points_of_chunk(vlr, compressor, counts, k) {
            None => {
                if !check_words(layout, items, chunk, ALL_FIELDS, fields) {
                    return false;
                }
                return match decompress_chunk(vlr, layout, chunk, ALL_FIELDS, fields) {
                    Ok(_) => false,
                    Err(_) => true,
                };
            },
            Some(n) => {
                let here: usize = if n == 0 || n >= left as u64 {
                    left
                } else {
                    n as usize
                };
                proof {
                    assert(here * fields <= records * fields) by (nonlinear_arith)
                        requires
                            here <= records,
                    ;
                }
                if !check_words(layout, items, chunk, ALL_FIELDS, here * fields) {
                    return false;
                }
                if here == left {
                    return true;
                }
                match decompress_chunk(vlr, layout, chunk, ALL_FIELDS, here * fields) {
                    Ok((_, end)) => {
                        at = at + end as usize;
                        k = k + 1;
                        left = left - here;
                    },
                    Err(_) => {
                        return true;
                    },
                }
            },
        }
    }
    true
}

/// Items that declare bytes have fields that take some.
proof fn lemma_fields_take_bytes(items: Seq<LazItem>)
    requires
        declared_size(items) > 0,
    ensures
        fields_size(items) > 0,
    decreases items.len(),
{
    if items.len() > 0 && items.last().size == 0 {
        lemma_fields_take_bytes(items.drop_last());
    }
}

/// Tests a payload for [`LazChunkDecoder::new`](crate::chunk::LazChunkDecoder::new):
/// the sizes of its items have to add up in 16 bits, if it is a laszip VLR.
pub fn check_record_size(laszip_vlr_record: &[u8]) -> (r: bool)
    ensures
        r == record_size_fits(laszip_vlr_record@),
        r <==> (laszip_vlr(laszip_vlr_record@) matches Some(vlr) ==> declared_size(vlr.items)
            <= 0xFFFF),
{
    match parse_vlr(laszip_vlr_record) {
        Ok(vlr) => sum_declared(&plain_items(&vlr)) <= 0xFFFF,
        Err(_) => true,
    }
}

/// The payload of a VLR with the compressor and the chunk size of `record`, and one
/// item that record decompressors take.
fn with_plain_items(record: &[u8]) -> (r: Vec<u8>)
    requires
        laszip_vlr(record@) is Some,
    ensures
        laszip_vlr(r@) matches Some(vlr) && {
            &&& vlr.compressor == laszip_vlr(record@)->0.compressor
            &&& vlr.chunk_size == laszip_vlr(record@)->0.chunk_size
            &&& vlr.items == seq![LazItem { item_type: POINT10, size: 20, version: 2 }]
        },
{
    let mut r: Vec<u8> = vstd::slice::slice_to_vec(&record[0..32]);
    r.push(1);
    r.push(0);
    r.push(6);
    r.push(0);
    r.push(20);
    r.push(0);
    r.push(2);
    r.push(0);
    proof {
        let item = LazItem { item_type: POINT10, size: 20, version: 2 };
        assert(item_at(r@, 0) == item);
        assert(laszip_vlr(r@)->0.items =~= seq![item]);
    }
    r
}

/// Finds the first point of the stream that begins at byte `start`, past its chunk
/// table, if it can.
fn find_first_point(record: &[u8], file: &[u8], start: usize) -> (r: Option<usize>)
    requires
        laszip_vlr(record@) is Some,
        laszip_vlr(record@)->0.compressor >= 2 ==> table_sound(file@, start as nat),
        start <= file.len(),
    ensures
        ({
            let vlr = laszip_vlr(record@)->0;
            let first = first_point(
                vlr,
                start as nat,
                first_chunk(file@, start as nat, vlr.compressor, vlr.chunk_size),
            );
            match r {
                Some(at) => first == Ok::<nat, Seq<char>>(at as nat) && at <= file.len(),
                None => first is Err,
            }
        }),
{
    let plain: Vec<u8> = with_plain_items(record);
    match parse_vlr(plain.as_slice()) {
        Ok(vlr) => {
            proof {
                let items = vlr_items(vlr);
                assert(items.drop_first() =~= Seq::empty());
                reveal_with_fuel(first_unsupported, 2);
            }
            match open_stream(file, start, &vlr) {
                Ok(at) => Some(at as usize),
                Err(_) => None,
            }
        },
        Err(_) => None,
    }
}

/// Tests a laszip VLR payload together with the stream of a file.
fn check_payload(record: &[u8], file: &[u8], start: usize, len: usize) -> (r: bool)
    requires
        start <= file.len(),
        len <= MAX_DECODED_BYTES,
    ensures
        r == payload_sound(record@, file@, start as nat, len as nat),
{
    let vlr: LazVlr = match parse_vlr(record) {
        Ok(vlr) => vlr,
        Err(_) => {
            return true;
        },
    };
    let compressor: u16 = read_u16(record, 0);
    if compressor >= 2 && !check_table(file, start) {
        return false;
    }
    let first: usize = match find_first_point(record, file, start) {
        Some(first) => first,
        None => {
            return true;
        },
    };
    let items: Vec<LazItem> = plain_items(&vlr);
    if items.len() == 0 {
        return false;
    }
    let layout: RecordLayout = match items[0].version {
        1 | 2 => RecordLayout::Sequential,
        3 | 4 => RecordLayout::Layered,
        _ => {
            return true;
        },
    };
    if find_unsupported(layout, &items).is_some() {
        return true;
    }
    let declared: u128 = sum_declared(&items);
    let fields: u128 = sum_fields(&items);
    if declared == 0 || declared > 0xFFFF || fields > declared {
        return false;
    }
    let counts: Option<Vec<u64>> = if compressor == 1 || !vlr.uses_variable_size_chunks() {
        None
    } else {
        read_chunk_counts(file, start, &vlr)
    };
    let records: usize = len / declared as usize;
    proof {
        let d = declared as int;
        let f = fields as int;
        assert(records * f <= len) by (nonlinear_arith)
            requires
                records == len as int / d,
                0 < d,
                0 <= f <= d,
                0 <= len,
        ;
    }
    check_chunks(&vlr, &items, layout, &counts, compressor, file, first, records)
}

/// Tests a header and the bytes of its file for
/// [`decode_points`](crate::file::decode_points).
///
/// Where the file has several chunks, all but the last are decompressed to find out
/// where the next begins.
pub fn check_points(header: &LasHeader, bytes: &[u8]) -> (r: bool)
    ensures
        r == points_sound(header@, bytes@),
{
    let point_size: u64 = header.block.point_size as u64;
    let len: u64 = match header.block.point_count.checked_mul(point_size) {
        Some(len) => len,
        None => {
            return true;
        },
    };
    if !header.block.compressed || !header.vlrs_complete || len == 0 || len > MAX_DECODED_BYTES
        || header.block.offset_to_point_data as u64 > bytes.len() as u64 {
        return true;
    }
    match header.laszip_record() {
        Some(record) => {
            check_payload(record, bytes, header.block.offset_to_point_data as usize, len as usize)
        },
        None => true,
    }
}

/// Tests the bytes of a file for [`decode_laz_file`], as [`check_points`] does.
pub fn check_laz_file(bytes: &[u8]) -> (r: bool)
    ensures
        r == laz_file_sound(bytes@),
{
    match read_las_header(bytes) {
        Ok(header) => check_points(&header, bytes),
        Err(_) => true,
    }
}

/// As [`decode_laz_file`], for any bytes: `None` where [`check_laz_file`] fails.
pub fn try_decode_laz_file(bytes: &[u8]) -> (r: Option<Result<DecodedLas, Error>>)
    ensures
        match r {
            None => !laz_file_sound(bytes@),
            Some(Ok(decoded)) => {
                &&& laz_file_sound(bytes@)
                &&& decoded_file(bytes@) == Ok::<DecodedLasView, ErrorView>(decoded@)
                &&& decoded@.points.len() == decoded@.header.block.point_count
                    * decoded@.header.block.point_size
                &&& points_agree(decoded@.header, bytes@, decoded@.points)
            },
            Some(Err(e)) => {
                &&& laz_file_sound(bytes@)
                &&& decoded_file(bytes@) == Err::<DecodedLasView, ErrorView>(e@)
                &&& e matches Error::File { text, .. } ==> (read_header(bytes@) matches Ok(header)
                    && failure_agrees(header, bytes@, text@))
            },
        },
        ({
            let b = bytes@;
            let size = b[105] + 0x100 * b[106];
            let count = if b[24] > 1 || (b[24] == 1 && b[25] >= 4) {
                b[247] + 0x100 * b[248] + 0x1_0000 * b[249] + 0x100_0000 * b[250] + 0x1_0000_0000
                    * b[251] + 0x100_0000_0000 * b[252] + 0x1_0000_0000_0000 * b[253]
                    + 0x100_0000_0000_0000 * b[254]
            } else {
                b[107] + 0x100 * b[108] + 0x1_0000 * b[109] + 0x100_0000 * b[110]
            };
            let start = b[96] + 0x100 * b[97] + 0x1_0000 * b[98] + 0x100_0000 * b[99];
            match r {
                Some(Ok(decoded)) => {
                    &&& read_header(b) == Ok::<LasHeaderView, ErrorView>(decoded@.header)
                    &&& decoded_points(decoded@.header, b) == Ok::<Seq<u8>, ErrorView>(decoded@.points)
                    &&& decoded@.header.block.point_count == count
                    &&& decoded@.header.block.point_size == size
                    &&& decoded@.points.len() == count * size
                    &&& b[104] < 128 ==> start + count * size <= b.len() && decoded@.points
                        == b.subrange(start, start + count * size)
                },
                Some(Err(e)) => match read_header(b) {
                    Err(refusal) => e@ == refusal,
                    Ok(header) => decoded_points(header, b) == Err::<Seq<u8>, ErrorView>(e@),
                },
                None => true,
            }
        }),
{
    if check_laz_file(bytes) {
        Some(decode_laz_file(bytes))
    } else {
        None
    }
}

} // verus!
