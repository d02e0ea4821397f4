//! Decoding laszip chunks that stand on their own.
use laz::LazVlr;
use vstd::prelude::*;

use crate::budget::{budgeted, check_budget, MAX_DECODED_BYTES};
use crate::error::{Error, ErrorView};
use crate::field::ALL_FIELDS;
use crate::laszip::{
    agrees_where_selected, declared_size, decompress_layered, decompress_sequential, decompressed,
    decompressed_end, fields_size, first_layout, first_unsupported, laszip_vlr,
    layered_points, lemma_sequential_selects_all, parse_vlr, plain_items, repeats_first, sequential_points, settled, starts_raw,
    unselected_bits, unsupported_text, vlr_chunk_size, vlr_cut_short, vlr_items, vlr_refusal,
    zero_behind, LaszipVlr, LazItem, RecordLayout,
};
use crate::soundness::{check_words, lemma_words_sound, record_held, words_sound};

verus! {

/// The record layout that the items call for. The first item decides, and the record
/// decompressor of that layout has to take all items.
pub open spec fn layout_of(items: Seq<LazItem>) -> Result<RecordLayout, ErrorView> {
    if items.len() == 0 {
        Err(ErrorView::NoItems)
    } else {
        match first_layout(items) {
            None => Err(ErrorView::UnsupportedItemVersion { item: items[0] }),
            Some(layout) => match first_unsupported(layout, items) {
                Some(item) => Err(ErrorView::Laz { text: unsupported_text(item) }),
                None => Ok(layout),
            },
        }
    }
}

/// Finds the first item that a record decompressor of this layout does not take.
pub(crate) fn find_unsupported(layout: RecordLayout, items: &Vec<LazItem>) -> (r: Option<LazItem>)
    ensures
        r == first_unsupported(layout, items@),
{
    let mut i: usize = 0;
    assert(items@.skip(0) =~= items@);
    while i < items.len()
        invariant
            i <= items.len(),
            first_unsupported(layout, items@) == first_unsupported(layout, items@.skip(i as int)),
        decreases items.len() - i,
    {
        assert(items@.skip(i as int)[0] == items@[i as int]);
        if !items[i].is_supported(layout) {
            return Some(items[i]);
        }
        assert(items@.skip(i as int).drop_first() =~= items@.skip(i + 1));
        i = i + 1;
    }
    None
}

/// Picks the record decompressor that the laz items call for: versions 1 and 2
/// are sequential, 3 and 4 are layered, which is LAS point formats 6 and up. An item
/// that it does not take is refused.
pub fn record_decompressor(items: &Vec<LazItem>) -> (r: Result<RecordLayout, Error>)
    ensures
        match r {
            Ok(layout) => layout_of(items@) == Ok::<RecordLayout, ErrorView>(layout),
            Err(e) => layout_of(items@) == Err::<RecordLayout, ErrorView>(e@),
        },
        match r {
            Ok(layout) => {
                &&& items.len() > 0
                &&& layout == RecordLayout::Sequential <==> 1 <= items@[0].version <= 2
                &&& layout == RecordLayout::Layered <==> 3 <= items@[0].version <= 4
                &&& first_unsupported(layout, items@) is None
            },
            Err(Error::NoItems) => items.len() == 0,
            Err(Error::UnsupportedItemVersion { item }) => items.len() > 0 && item == items@[0]
                && !(1 <= item.version <= 4),
            Err(Error::Laz { text }) => {
                let layout = if items@[0].version <= 2 {
                    RecordLayout::Sequential
                } else {
                    RecordLayout::Layered
                };
                &&& items.len() > 0 && 1 <= items@[0].version <= 4
                &&& first_unsupported(layout, items@) matches Some(item) && text@
                    == unsupported_text(item)
            },
            Err(_) => false,
        },
{
    if items.len() == 0 {
        return Err(Error::NoItems);
    }
    let first: LazItem = items[0];
    let layout: RecordLayout = match first.version {
        1 | 2 => RecordLayout::Sequential,
        3 | 4 => RecordLayout::Layered,
        _ => {
            return Err(Error::UnsupportedItemVersion { item: first });
        },
    };
    match find_unsupported(layout, items) {
        Some(item) => Err(Error::Laz { text: item.unsupported_message() }),
        None => Ok(layout),
    }
}

/// Decompresses `len` bytes of points from a chunk with the record decompressor of
/// this layout, and says how far into the chunk that got.
pub(crate) fn decompress_chunk(
    vlr: &LazVlr,
    layout: RecordLayout,
    compressed: &[u8],
    selection: u32,
    len: usize,
) -> (r: Result<(Vec<u8>, u64), String>)
    requires
        declared_size(vlr_items(*vlr)) > 0,
        first_unsupported(layout, vlr_items(*vlr)) is None,
        words_sound(layout, vlr_items(*vlr), compressed@, selection, len as nat),
    ensures
        ({
            let items = vlr_items(*vlr);
            let chunk = compressed@;
            match r {
                Ok((points, end)) => {
                    &&& decompressed(layout, items, chunk, selection, len as nat) == Ok::<
                        Seq<u8>,
                        Seq<char>,
                    >(points@)
                    &&& points@.len() == len
                    &&& starts_raw(items, chunk, points@)
                    &&& zero_behind(fields_size(items), points@)
                    &&& repeats_first(items, selection, points@)
                    &&& decompressed(layout, items, chunk, ALL_FIELDS, len as nat) matches Ok(all)
                        ==> agrees_where_selected(items, selection, points@, all)
                    &&& fields_size(items) <= len ==> record_held(layout, items, chunk, selection)
                    &&& selection == ALL_FIELDS ==> {
                        &&& decompressed_end(layout, items, chunk, len as nat) == Some(end as nat)
                        &&& end <= chunk.len()
                        &&& settled(layout, items, chunk, len as nat)
                    }
                },
                Err(text) => {
                    &&& decompressed(layout, items, chunk, selection, len as nat) == Err::<
                        Seq<u8>,
                        Seq<char>,
                    >(text@)
                    &&& decompressed(layout, items, chunk, ALL_FIELDS, len as nat) is Err
                    &&& fields_size(items) <= len
                    &&& len < 2 * fields_size(items) ==> !record_held(
                        layout,
                        items,
                        chunk,
                        selection,
                    )
                },
            }
        }),
{
    match layout {
        RecordLayout::Sequential => {
            let r: Result<(Vec<u8>, u64), String> = decompress_sequential(
                vlr,
                compressed,
                selection,
                len,
            );
            proof {
                if r is Ok {
                    lemma_sequential_repeats_first(vlr_items(*vlr), selection, r->Ok_0.0@);
                }
            }
            r
        },
        RecordLayout::Layered => decompress_layered(vlr, compressed, selection, len),
    }
}

/// What a chunk decode gives back, from how its decompression ended.
pub open spec fn chunk_result(
    d: Result<Seq<u8>, Seq<char>>,
    chunk_len: nat,
    point_count: nat,
) -> Result<Seq<u8>, ErrorView> {
    match d {
        Ok(points) => Ok(points),
        Err(text) => Err(ErrorView::Chunk { chunk_len, point_count, text }),
    }
}

/// Turns the end of a decompression into what a chunk decode gives back.
pub fn finish_chunk(d: Result<Vec<u8>, String>, chunk_len: usize, point_count: u32) -> (r: Result<
    Vec<u8>,
    Error,
>)
    ensures
        match (d, r) {
            (Ok(points), Ok(result)) => result == points,
            (Err(text), Err(e)) => e@ == (ErrorView::Chunk {
                chunk_len: chunk_len as nat,
                point_count: point_count as nat,
                text: text@,
            }),
            _ => false,
        },
{
    match d {
        Ok(points) => Ok(points),
        Err(text) => Err(Error::Chunk { chunk_len, point_count: point_count as u64, text }),
    }
}

/// What decoding `point_count` points from a chunk gives back, for a VLR with
/// these items.
pub open spec fn decoded_chunk(
    items: Seq<LazItem>,
    chunk: Seq<u8>,
    point_count: nat,
    selection: u32,
) -> Result<Seq<u8>, ErrorView> {
    match budgeted(point_count, declared_size(items)) {
        Err(e) => Err(e),
        Ok(len) => if len == 0 {
            Ok(Seq::empty())
        } else {
            match layout_of(items) {
                Err(e) => Err(e),
                Ok(layout) => chunk_result(
                    decompressed(layout, items, chunk, selection, len),
                    chunk.len(),
                    point_count,
                ),
            }
        },
    }
}

/// What decides whether decoding gives points, where it gets as far as a record
/// decompressor. Without room for a whole record it does. With one, the chunk has to
/// hold what is read for it; that is enough, where there is room for no more.
pub open spec fn single_record_decides(
    items: Seq<LazItem>,
    chunk: Seq<u8>,
    point_count: nat,
    selection: u32,
    given: bool,
) -> bool {
    let len = point_count * declared_size(items);
    let fields = fields_size(items);
    0 < len <= MAX_DECODED_BYTES ==> (layout_of(items) matches Ok(layout) ==> {
        &&& len < fields ==> given
        &&& fields <= len && given ==> record_held(layout, items, chunk, selection)
        &&& fields <= len < 2 * fields && record_held(layout, items, chunk, selection) ==> given
    })
}

/// Whether what the chunk holds behind the end of its streams makes no difference to
/// decoding all fields.
pub open spec fn ignores_the_rest(items: Seq<LazItem>, chunk: Seq<u8>, point_count: nat) -> bool {
    let len = point_count * declared_size(items);
    0 < len <= MAX_DECODED_BYTES ==> (layout_of(items) matches Ok(layout) ==> (decompressed_end(
        layout,
        items,
        chunk,
        len,
    ) matches Some(end) ==> forall|m: int|
        end <= m <= chunk.len() ==> decoded_chunk(
            items,
            #[trigger] chunk.take(m),
            point_count,
            ALL_FIELDS,
        ) == decoded_chunk(items, chunk, point_count, ALL_FIELDS)))
}

/// Whether the record decompressor that decoding picks can run on the chunk. `true`
/// where decoding does not get that far.
pub open spec fn chunk_sound(
    items: Seq<LazItem>,
    chunk: Seq<u8>,
    point_count: nat,
    selection: u32,
) -> bool {
    budgeted(point_count, declared_size(items)) matches Ok(len) ==> (0 < len ==> (layout_of(
        items,
    ) matches Ok(layout) ==> words_sound(layout, items, chunk, selection, len)))
}

/// Whether the sizes of the items of a laszip VLR payload add up to what 16 bits
/// hold. `true` for a payload that is no laszip VLR.
pub open spec fn record_size_fits(record: Seq<u8>) -> bool {
    laszip_vlr(record) matches Some(vlr) ==> declared_size(vlr.items) <= u16::MAX
}

/// The laszip VLR that a decoder is built from, or why there is none.
pub open spec fn decoder_vlr(record: Seq<u8>) -> Result<LaszipVlr, ErrorView> {
    match laszip_vlr(record) {
        None => Err(ErrorView::Laz { text: vlr_refusal(record, vlr_cut_short(record)) }),
        Some(vlr) => if declared_size(vlr.items) == 0 {
            Err(ErrorView::EmptyPointRecord)
        } else {
            Ok(vlr)
        },
    }
}

/// A decoder is built from every laszip VLR whose records have bytes, with all that the
/// VLR says. A VLR is refused as empty only when its records have no bytes, and a payload
/// that is no VLR in the words of `laz`.
pub proof fn lemma_decoder_vlr(record: Seq<u8>)
    ensures
        decoder_vlr(record) is Ok <==> (laszip_vlr(record) matches Some(vlr) && declared_size(
            vlr.items,
        ) > 0),
        decoder_vlr(record) matches Ok(vlr) ==> laszip_vlr(record) == Some(vlr),
        decoder_vlr(record) == Err::<LaszipVlr, ErrorView>(ErrorView::EmptyPointRecord) <==> (
        laszip_vlr(record) matches Some(vlr) && declared_size(vlr.items) == 0),
        laszip_vlr(record) is None ==> decoder_vlr(record) == Err::<LaszipVlr, ErrorView>(
            ErrorView::Laz { text: vlr_refusal(record, vlr_cut_short(record)) },
        ),
        record_size_fits(record) <==> (laszip_vlr(record) matches Some(vlr) ==> declared_size(
            vlr.items,
        ) <= 0xFFFF),
{
}

/// A decoder for laszip chunks that stand on their own.
///
/// Built once per file from the laszip VLR payload, then reused for every node.
/// It holds no cursor into the file and no state between calls, so nodes may be
/// decoded in any order.
pub struct LazChunkDecoder {
    vlr: LazVlr,
    items: Vec<LazItem>,
}

impl LazChunkDecoder {
    /// The items of the VLR that the decoder was built from.
    pub closed spec fn items(self) -> Seq<LazItem> {
        self.items@
    }

    /// The chunk size of the VLR that the decoder was built from.
    pub closed spec fn stored_chunk_size(self) -> u32 {
        vlr_chunk_size(self.vlr)
    }

    #[verifier::type_invariant]
    spec fn inv(self) -> bool {
        &&& self.items@ == vlr_items(self.vlr)
        &&& 0 < declared_size(self.items@) <= u16::MAX
        &&& vlr_chunk_size(self.vlr) != 0
    }

    /// Builds a decoder from the payload of the `laszip encoded` VLR (record id
    /// 22204): the VLR's data, not the record header in front of it.
    pub fn new(laszip_vlr_record: &[u8]) -> (r: Result<LazChunkDecoder, Error>)
        requires
            record_size_fits(laszip_vlr_record@),
        ensures
            match r {
                Ok(decoder) => decoder_vlr(laszip_vlr_record@) matches Ok(vlr) && {
                    &&& decoder.items() == vlr.items
                    &&& decoder.stored_chunk_size() == vlr.chunk_size
                },
                Err(e) => decoder_vlr(laszip_vlr_record@) == Err::<LaszipVlr, ErrorView>(e@),
            },
            r is Ok <==> (laszip_vlr(laszip_vlr_record@) matches Some(vlr) && declared_size(vlr.items)
                > 0),
            match r {
                Ok(decoder) => laszip_vlr(laszip_vlr_record@) matches Some(vlr) && decoder.items()
                    == vlr.items && decoder.stored_chunk_size() == vlr.chunk_size,
                Err(Error::EmptyPointRecord) => laszip_vlr(laszip_vlr_record@) matches Some(vlr)
                    && declared_size(vlr.items) == 0,
                Err(Error::Laz { text }) => laszip_vlr(laszip_vlr_record@) is None && text@
                    == vlr_refusal(laszip_vlr_record@, vlr_cut_short(laszip_vlr_record@)),
                Err(_) => false,
            },
    {
        let vlr: LazVlr = match parse_vlr(laszip_vlr_record) {
            Ok(vlr) => vlr,
            Err(text) => {
                return Err(Error::Laz { text });
            },
        };
        let items: Vec<LazItem> = plain_items(&vlr);
        if items.len() == 0 || vlr.items_size() == 0 {
            return Err(Error::EmptyPointRecord);
        }
        Ok(LazChunkDecoder { vlr, items })
    }

    /// The size of one decompressed record, in bytes.
    pub fn point_size(&self) -> (r: u32)
        ensures
            r == declared_size(self.items()),
            0 < r <= u16::MAX,
    {
        proof {
            use_type_invariant(&*self);
        }
        self.vlr.items_size() as u32
    }

    /// Points per chunk, or 0 when the file uses chunks of varying size.
    pub fn chunk_size(&self) -> (r: u32)
        ensures
            r == (if self.stored_chunk_size() == u32::MAX {
                0
            } else {
                self.stored_chunk_size()
            }),
            r == 0 <==> self.stored_chunk_size() == u32::MAX,
    {
        proof {
            use_type_invariant(&*self);
        }
        if self.vlr.uses_variable_size_chunks() {
            0
        } else {
            self.vlr.chunk_size()
        }
    }

    /// Tests a chunk for [`Self::decode_selective`].
    pub fn check_chunk(&self, compressed: &[u8], point_count: u32, selection: u32) -> (r: bool)
        ensures
            r == chunk_sound(self.items(), compressed@, point_count as nat, selection),
    {
        proof {
            use_type_invariant(&*self);
        }
        match check_budget(point_count as u64, self.vlr.items_size()) {
            Ok(len) => len == 0 || match record_decompressor(&self.items) {
                Ok(layout) => check_words(layout, &self.items, compressed, selection, len),
                Err(_) => true,
            },
            Err(_) => true,
        }
    }

    /// Decompresses one chunk into `point_count` raw LAS point records.
    ///
    /// `compressed` is the chunk's bytes and nothing else: no chunk table, no
    /// leading offset. [`Self::check_chunk`] tests bytes that are not trusted.
    pub fn decode(&self, compressed: &[u8], point_count: u32) -> (r: Result<Vec<u8>, Error>)
        requires
            chunk_sound(self.items(), compressed@, point_count as nat, ALL_FIELDS),
        ensures
            match r {
                Ok(points) => decoded_chunk(
                    self.items(),
                    compressed@,
                    point_count as nat,
                    ALL_FIELDS,
                ) == Ok::<Seq<u8>, ErrorView>(points@),
                Err(e) => decoded_chunk(
                    self.items(),
                    compressed@,
                    point_count as nat,
                    ALL_FIELDS,
                ) == Err::<Seq<u8>, ErrorView>(e@),
            },
            r matches Ok(points) ==> {
                &&& points@.len() == point_count * declared_size(self.items())
                &&& starts_raw(self.items(), compressed@, points@)
                &&& zero_behind(fields_size(self.items()), points@)
            },
            ({
                let items = self.items();
                let size = declared_size(items);
                let len = (point_count * size) as nat;
                let v = items[0].version;
                let layout = if v <= 2 {
                    RecordLayout::Sequential
                } else {
                    RecordLayout::Layered
                };
                match r {
                    Ok(points) => {
                        &&& len <= 1_073_741_824
                        &&& points@.len() == len
                        &&& len > 0 ==> 1 <= v <= 4 && first_unsupported(layout, items) is None
                        &&& len > 0 && v <= 2 ==> sequential_points(items, compressed@, len) == Ok::<
                            Seq<u8>,
                            Seq<char>,
                        >(points@)
                        &&& len > 0 && v > 2 ==> layered_points(items, compressed@, 0xFFFF_FFFF, len)
                            == Ok::<Seq<u8>, Seq<char>>(points@)
                    },
                    Err(Error::OverBudget { point_count: count, point_size, bytes }) => {
                        &&& len > 1_073_741_824
                        &&& count == point_count && point_size == size && bytes == len
                    },
                    Err(Error::UnsupportedItemVersion { item }) => {
                        &&& 0 < len <= 1_073_741_824
                        &&& item == items[0] && !(1 <= v <= 4)
                    },
                    Err(Error::Laz { text }) => {
                        &&& 0 < len <= 1_073_741_824 && 1 <= v <= 4
                        &&& first_unsupported(layout, items) matches Some(item) && text@
                            == unsupported_text(item)
                    },
                    Err(Error::Chunk { chunk_len, point_count: count, text }) => {
                        &&& 0 < len <= 1_073_741_824 && 1 <= v <= 4
                        &&& first_unsupported(layout, items) is None
                        &&& chunk_len == compressed@.len() && count == point_count
                        &&& v <= 2 ==> sequential_points(items, compressed@, len) == Err::<
                            Seq<u8>,
                            Seq<char>,
                        >(text@)
                        &&& v > 2 ==> layered_points(items, compressed@, 0xFFFF_FFFF, len) == Err::<
                            Seq<u8>,
                            Seq<char>,
                        >(text@)
                    },
                    Err(_) => false,
                }
            }),
            single_record_decides(
                self.items(),
                compressed@,
                point_count as nat,
                ALL_FIELDS,
                r is Ok,
            ),
            r is Ok ==> ignores_the_rest(self.items(), compressed@, point_count as nat),
    {
        self.decode_selective(compressed, point_count, ALL_FIELDS)
    }

    /// As [`Self::decode`], but only spends time on the fields in `selection`.
    ///
    /// The selected bits of every record are what [`Self::decode`] gives, and it
    /// gives them whenever [`Self::decode`] does. The other bits are not zero: they
    /// hold what the first record of the chunk has there.
    pub fn decode_selective(&self, compressed: &[u8], point_count: u32, selection: u32) -> (r:
        Result<Vec<u8>, Error>)
        requires
            chunk_sound(self.items(), compressed@, point_count as nat, selection),
        ensures
            match r {
                Ok(points) => decoded_chunk(
                    self.items(),
                    compressed@,
                    point_count as nat,
                    selection,
                ) == Ok::<Seq<u8>, ErrorView>(points@),
                Err(e) => decoded_chunk(
                    self.items(),
                    compressed@,
                    point_count as nat,
                    selection,
                ) == Err::<Seq<u8>, ErrorView>(e@),
            },
            r matches Ok(points) ==> {
                &&& points@.len() == point_count * declared_size(self.items())
                &&& starts_raw(self.items(), compressed@, points@)
                &&& zero_behind(fields_size(self.items()), points@)
                &&& repeats_first(self.items(), selection, points@)
            },
            ({
                let items = self.items();
                let size = declared_size(items);
                let len = (point_count * size) as nat;
                let v = items[0].version;
                let layout = if v <= 2 {
                    RecordLayout::Sequential
                } else {
                    RecordLayout::Layered
                };
                match r {
                    Ok(points) => {
                        &&& len <= 1_073_741_824
                        &&& points@.len() == len
                        &&& len > 0 ==> 1 <= v <= 4 && first_unsupported(layout, items) is None
                        &&& len > 0 && v <= 2 ==> sequential_points(items, compressed@, len) == Ok::<
                            Seq<u8>,
                            Seq<char>,
                        >(points@)
                        &&& len > 0 && v > 2 ==> layered_points(items, compressed@, selection, len)
                            == Ok::<Seq<u8>, Seq<char>>(points@)
                    },
                    Err(Error::OverBudget { point_count: count, point_size, bytes }) => {
                        &&& len > 1_073_741_824
                        &&& count == point_count && point_size == size && bytes == len
                    },
                    Err(Error::UnsupportedItemVersion { item }) => {
                        &&& 0 < len <= 1_073_741_824
                        &&& item == items[0] && !(1 <= v <= 4)
                    },
                    Err(Error::Laz { text }) => {
                        &&& 0 < len <= 1_073_741_824 && 1 <= v <= 4
                        &&& first_unsupported(layout, items) matches Some(item) && text@
                            == unsupported_text(item)
                    },
                    Err(Error::Chunk { chunk_len, point_count: count, text }) => {
                        &&& 0 < len <= 1_073_741_824 && 1 <= v <= 4
                        &&& first_unsupported(layout, items) is None
                        &&& chunk_len == compressed@.len() && count == point_count
                        &&& v <= 2 ==> sequential_points(items, compressed@, len) == Err::<
                            Seq<u8>,
                            Seq<char>,
                        >(text@)
                        &&& v > 2 ==> layered_points(items, compressed@, selection, len) == Err::<
                            Seq<u8>,
                            Seq<char>,
                        >(text@)
                    },
                    Err(_) => false,
                }
            }),
            single_record_decides(
                self.items(),
                compressed@,
                point_count as nat,
                selection,
                r is Ok,
            ),
            r is Ok && selection == ALL_FIELDS ==> ignores_the_rest(
                self.items(),
                compressed@,
                point_count as nat,
            ),
            decoded_chunk(self.items(), compressed@, point_count as nat, ALL_FIELDS) matches Ok(all)
                ==> r matches Ok(points) && agrees_where_selected(
                self.items(),
                selection,
                points@,
                all,
            ),
    {
        proof {
            use_type_invariant(&*self);
        }
        let point_size: u64 = self.vlr.items_size();
        assert(point_count * point_size <= u64::MAX) by (nonlinear_arith)
            requires
                point_count <= u32::MAX,
                point_size <= u16::MAX,
        ;
        let len: usize = match check_budget(point_count as u64, point_size) {
            Ok(len) => len,
            Err(e) => {
                return Err(e);
            },
        };
        if len == 0 {
            return Ok(Vec::new());
        }
        let layout: RecordLayout = match record_decompressor(&self.items) {
            Ok(layout) => layout,
            Err(e) => {
                return Err(e);
            },
        };
        let d: Result<Vec<u8>, String> = match decompress_chunk(
            &self.vlr,
            layout,
            compressed,
            selection,
            len,
        ) {
            Ok((points, _)) => Ok(points),
            Err(text) => Err(text),
        };
        finish_chunk(d, compressed.len(), point_count)
    }
}

/// In a sequential stream there are no unselected bits to repeat.
proof fn lemma_sequential_repeats_first(items: Seq<LazItem>, selection: u32, points: Seq<u8>)
    requires
        first_unsupported(RecordLayout::Sequential, items) is None,
    ensures
        repeats_first(items, selection, points),
{
    let size = fields_size(items) as int;
    assert forall|p: int|
        0 <= p < points.len() && p - p % size + size <= points.len() implies {
        let mask = unselected_bits(items, selection, p % size);
        #[trigger] points[p] & mask == points[p % size] & mask
    } by {
        let (a, b) = (points[p], points[p % size]);
        lemma_sequential_selects_all(items, selection, p % size);
        assert(a & 0 == b & 0) by (bit_vector);
    }
}

/// What a chunk decodes to is what `laz` makes of the whole chunk in the room for all the
/// points that are asked for, with the decompressor that the version of the first item
/// stands for. It is refused for its size, for its first item or for another item only if
/// those are not in order, and otherwise only where `laz` fails, in its words.
pub proof fn lemma_decoded_chunk(
    items: Seq<LazItem>,
    chunk: Seq<u8>,
    point_count: nat,
    selection: u32,
)
    requires
        items.len() > 0,
    ensures
        ({
            let len = (point_count * declared_size(items)) as nat;
            let v = items[0].version;
            let layout = if v <= 2 {
                RecordLayout::Sequential
            } else {
                RecordLayout::Layered
            };
            let given = if v <= 2 {
                sequential_points(items, chunk, len)
            } else {
                layered_points(items, chunk, selection, len)
            };
            let result = decoded_chunk(items, chunk, point_count, selection);
            &&& len > 1_073_741_824 <==> (result matches Err(ErrorView::OverBudget { .. }))
            &&& len == 0 ==> result == Ok::<Seq<u8>, ErrorView>(Seq::empty())
            &&& 0 < len <= 1_073_741_824 ==> {
                &&& !(1 <= v <= 4) ==> result == Err::<Seq<u8>, ErrorView>(
                    ErrorView::UnsupportedItemVersion { item: items[0] },
                )
                &&& 1 <= v <= 4 ==> match first_unsupported(layout, items) {
                    Some(item) => result == Err::<Seq<u8>, ErrorView>(
                        ErrorView::Laz { text: unsupported_text(item) },
                    ),
                    None => match given {
                        Ok(points) => result == Ok::<Seq<u8>, ErrorView>(points),
                        Err(text) => result == Err::<Seq<u8>, ErrorView>(
                            ErrorView::Chunk { chunk_len: chunk.len(), point_count, text },
                        ),
                    },
                }
            }
        }),
{
}

/// A chunk can be decoded unless a stream from which symbols are decoded begins with four
/// bytes of ones. A sequential chunk has one such stream, behind its first record, and
/// none is decoded for one record. So nothing stands against a chunk without four bytes of
/// ones in a row, where layers of any size can be had.
pub proof fn lemma_chunk_sound(
    items: Seq<LazItem>,
    chunk: Seq<u8>,
    point_count: nat,
    selection: u32,
)
    requires
        items.len() > 0,
        declared_size(items) > 0,
    ensures
        ({
            let v = items[0].version;
            let len = point_count * declared_size(items);
            let at = fields_size(items) as int;
            &&& v <= 2 ==> (!chunk_sound(items, chunk, point_count, selection) <==> {
                &&& 1 <= v && first_unsupported(RecordLayout::Sequential, items) is None
                &&& 0 < len <= 1_073_741_824 && 2 * at <= len
                &&& at + 4 <= chunk.len()
                &&& chunk[at] == 0xFF && chunk[at + 1] == 0xFF && chunk[at + 2] == 0xFF && chunk[at
                    + 3] == 0xFF
            })
            &&& point_count == 0 || v > 4 ==> chunk_sound(items, chunk, point_count, selection)
            &&& 0xFFFF_FFFF <= isize::MAX && (forall|i: int|
                0 <= i <= chunk.len() - 4 ==> !(#[trigger] chunk[i] == 0xFF && chunk[i + 1] == 0xFF
                    && chunk[i + 2] == 0xFF && chunk[i + 3] == 0xFF)) ==> chunk_sound(
                items,
                chunk,
                point_count,
                selection,
            )
        }),
{
    let len = point_count * declared_size(items);
    lemma_words_sound(RecordLayout::Sequential, items, chunk, selection, len);
    lemma_words_sound(RecordLayout::Layered, items, chunk, selection, len);
}

/// A chunk gives back the points that it was made from, if `laz` gives back the points
/// that went into it.
pub proof fn lemma_chunk_gives_points(
    items: Seq<LazItem>,
    layout: RecordLayout,
    chunk: Seq<u8>,
    point_count: nat,
    points: Seq<u8>,
)
    requires
        layout_of(items) == Ok::<RecordLayout, ErrorView>(layout),
        points.len() == point_count * declared_size(items),
        points.len() <= MAX_DECODED_BYTES,
        decompressed(layout, items, chunk, ALL_FIELDS, points.len()) == Ok::<Seq<u8>, Seq<char>>(
            points,
        ),
    ensures
        decoded_chunk(items, chunk, point_count, ALL_FIELDS) == Ok::<Seq<u8>, ErrorView>(points),
{
    if points.len() == 0 {
        assert(points =~= Seq::empty());
    }
}

/// The first record is the same under every selection: what two decodes of as many
/// points from one chunk give back begins with the same record, where the items do not
/// declare more bytes than their fields take. `decode_selective` gives what is asked
/// for here.
pub proof fn lemma_first_record_whatever_selected(
    items: Seq<LazItem>,
    chunk: Seq<u8>,
    points: Seq<u8>,
    other: Seq<u8>,
)
    requires
        points.len() == other.len(),
        starts_raw(items, chunk, points),
        starts_raw(items, chunk, other),
        zero_behind(fields_size(items), points),
        zero_behind(fields_size(items), other),
        declared_size(items) <= fields_size(items),
        declared_size(items) <= points.len(),
    ensures
        points.take(declared_size(items) as int) == other.take(declared_size(items) as int),
{
    let size = fields_size(items) as int;
    let shown = declared_size(items) as int;
    assert forall|p: int| 0 <= p < shown implies points[p] == other[p] by {
        if size <= points.len() {
            assert(points.take(size)[p] == other.take(size)[p]);
        } else {
            assert(p % size == p) by {
                vstd::arithmetic::div_mod::lemma_small_mod(p as nat, size as nat);
            }
        }
    }
    assert(points.take(shown) =~= other.take(shown));
}

/// A request for more than one call may allocate is refused as such, whatever the
/// chunk holds. Points that are handed out are within that ceiling.
pub proof fn lemma_chunk_within_budget(
    items: Seq<LazItem>,
    chunk: Seq<u8>,
    point_count: nat,
    selection: u32,
)
    ensures
        point_count * declared_size(items) > MAX_DECODED_BYTES <==> decoded_chunk(
            items,
            chunk,
            point_count,
            selection,
        ) matches Err(ErrorView::OverBudget { .. }),
{
}

/// No points are decoded from any chunk, even from one that is no chunk at all.
pub proof fn lemma_no_points(items: Seq<LazItem>, chunk: Seq<u8>, selection: u32)
    ensures
        decoded_chunk(items, chunk, 0, selection) == Ok::<Seq<u8>, ErrorView>(Seq::empty()),
{
}

/// The selection makes no difference to a sequential stream: it is accepted and
/// ignored there.
pub proof fn lemma_sequential_ignores_selection(
    items: Seq<LazItem>,
    chunk: Seq<u8>,
    point_count: nat,
    selection: u32,
    other: u32,
)
    requires
        layout_of(items) == Ok::<RecordLayout, ErrorView>(RecordLayout::Sequential),
    ensures
        decoded_chunk(items, chunk, point_count, selection) == decoded_chunk(
            items,
            chunk,
            point_count,
            other,
        ),
{
}

} // verus!
