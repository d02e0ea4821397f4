//! Decoding a whole `.laz`, or passing a `.las` straight through.
use laz::LazVlr;
use vstd::prelude::*;
use vstd::slice::slice_to_vec;

use crate::budget::{budgeted, check_budget, MAX_DECODED_BYTES};
use crate::chunk::decoded_chunk;
use crate::error::{Error, ErrorView};
use crate::field::ALL_FIELDS;
use crate::las::{
    first_match, laszip_payload, lemma_first_match, lemma_header_block, read_header,
    read_las_header, LasHeader, LasHeaderView,
};
use crate::laszip::{
    chunk_counts, declared_size, decompress_file, decompressed, decompressed_end, fields_size,
    file_points, first_chunk, first_layout, first_point, first_unsupported, laszip_vlr, open_stream, opened,
    parse_vlr, settled, vlr_cut_short, vlr_refusal, vlr_view, zero_behind, LaszipVlr, RecordLayout,
};
use crate::soundness::stream_sound;

verus! {

/// The point counts that a whole-file decompressor goes by, if `counts` are those of
/// the chunk table: it reads none of a stream without chunks, and needs none where
/// chunks have one size.
pub open spec fn counts_of(vlr: LaszipVlr, counts: Option<Seq<u64>>) -> Option<Seq<u64>> {
    if vlr.compressor == 1 || vlr.chunk_size != u32::MAX {
        None
    } else {
        counts
    }
}

/// How many points a whole-file decompressor takes chunk `k` to have: zero stands
/// for no end. `None` where nothing tells; it then panics behind the first point.
pub open spec fn chunk_points(vlr: LaszipVlr, counts: Option<Seq<u64>>, k: nat) -> Option<nat> {
    if vlr.chunk_size != u32::MAX {
        if vlr.compressor == 1 {
            Some(u32::MAX as nat)
        } else {
            Some(vlr.chunk_size as nat)
        }
    } else {
        match counts {
            Some(c) => if k < c.len() {
                Some(c[k as int] as nat)
            } else {
                None
            },
            None => if vlr.compressor == 3 {
                Some(0)
            } else {
                None
            },
        }
    }
}

/// Whether the first chunk of a stream holds this many records.
pub open spec fn holds_all(vlr: LaszipVlr, counts: Option<Seq<u64>>, records: nat) -> bool {
    chunk_points(vlr, counts, 0) matches Some(n) && (n == 0 || n >= records)
}

/// What the record decompressors make of the chunks of a file, one behind the other,
/// for `left` records where chunk `k` begins at byte `at`: the records, or the text of
/// the first error. The next chunk begins where decompressing this one ends.
pub open spec fn chunked_points(
    vlr: LaszipVlr,
    layout: RecordLayout,
    counts: Option<Seq<u64>>,
    file: Seq<u8>,
    at: nat,
    k: nat,
    left: nat,
) -> Result<Seq<u8>, Seq<char>>
    decreases left,
{
    let chunk = file.skip(at as int);
    let fields = fields_size(vlr.items);
    if left == 0 {
        Ok(Seq::empty())
    } else {
        match chunk_points(vlr, counts, k) {
            None => decompressed(layout, vlr.items, chunk, ALL_FIELDS, fields),
            Some(n) => {
                let here = if n == 0 || n >= left {
                    left
                } else {
                    n
                };
                match decompressed(layout, vlr.items, chunk, ALL_FIELDS, here * fields) {
                    Err(text) => Err(text),
                    Ok(points) => if here == left {
                        Ok(points)
                    } else {
                        let end = decompressed_end(layout, vlr.items, chunk, here * fields);
                        match chunked_points(
                            vlr,
                            layout,
                            counts,
                            file,
                            at + end->0,
                            k + 1,
                            (left - here) as nat,
                        ) {
                            Err(text) => Err(text),
                            Ok(rest) => Ok(points + rest),
                        }
                    },
                }
            },
        }
    }
}

/// What comes of setting up a decompressor for the stream that begins at byte
/// `start` of a file: where it finds the first point, or the text of the error.
pub open spec fn opened_stream(file: Seq<u8>, start: nat, vlr: LaszipVlr) -> Result<
    nat,
    Seq<char>,
> {
    opened(
        vlr,
        first_point(vlr, start, first_chunk(file, start, vlr.compressor, vlr.chunk_size)),
    )
}

/// What a file decode gives back, from what came of setting up the decompressor and
/// of decompressing.
pub open spec fn file_result(
    open: Result<nat, Seq<char>>,
    d: Result<Seq<u8>, Seq<char>>,
    point_count: nat,
    file_len: nat,
) -> Result<Seq<u8>, ErrorView> {
    match open {
        Err(text) => Err(ErrorView::Laz { text }),
        Ok(_) => match d {
            Err(text) => Err(ErrorView::File { point_count, file_len, text }),
            Ok(points) => Ok(points),
        },
    }
}

/// Turns the end of a decompression into what a file decode gives back.
pub fn finish_file(d: Result<Vec<u8>, String>, point_count: u64, file_len: usize) -> (r: Result<
    Vec<u8>,
    Error,
>)
    ensures
        match (d, r) {
            (Ok(points), Ok(result)) => result == points,
            (Err(text), Err(e)) => e@ == (ErrorView::File {
                point_count: point_count as nat,
                file_len: file_len as nat,
                text: text@,
            }),
            _ => false,
        },
{
    match d {
        Ok(points) => Ok(points),
        Err(text) => Err(Error::File { point_count, file_len, text }),
    }
}

/// The point records of a file with this header, or why there are none.
pub open spec fn decoded_points(header: LasHeaderView, file: Seq<u8>) -> Result<
    Seq<u8>,
    ErrorView,
> {
    let point_count = header.block.point_count as nat;
    let point_size = header.block.point_size as nat;
    let start = header.block.offset_to_point_data as nat;
    match budgeted(point_count, point_size) {
        Err(e) => Err(e),
        Ok(len) => if start > file.len() {
            Err(ErrorView::PointDataPastEnd { start, held: file.len() })
        } else if !header.block.compressed {
            if start + len > file.len() {
                Err(
                    ErrorView::MissingPointData {
                        point_count,
                        point_size,
                        held: (file.len() - start) as nat,
                    },
                )
            } else {
                Ok(file.subrange(start as int, (start + len) as int))
            }
        } else if !header.vlrs_complete {
            Err(ErrorView::TruncatedVlrs)
        } else {
            match laszip_payload(header.vlrs) {
                None => Err(ErrorView::NoLaszipVlr),
                Some(record) => match laszip_vlr(record) {
                    None => Err(ErrorView::Laz { text: vlr_refusal(record, vlr_cut_short(record)) }),
                    Some(vlr) => if len == 0 {
                        Ok(Seq::empty())
                    } else {
                        file_result(
                            opened_stream(file, start, vlr),
                            file_points(
                                file,
                                start,
                                vlr.compressor,
                                vlr.chunk_size,
                                vlr.items,
                                len,
                            ),
                            point_count,
                            file.len(),
                        )
                    },
                },
            }
        },
    }
}

/// Whether `laz` can run with this laszip VLR payload on the stream that begins at
/// byte `start` of a file, for `len` bytes of points, or refuses to.
pub open spec fn payload_sound(record: Seq<u8>, file: Seq<u8>, start: nat, len: nat) -> bool {
    laszip_vlr(record) matches Some(vlr) ==> stream_sound(
        vlr,
        file,
        start,
        first_chunk(file, start, vlr.compressor, vlr.chunk_size),
        file_counts(vlr, file, start),
        len,
    )
}

/// Whether decoding a file with this header never hands `laz` a stream that it
/// cannot run on.
pub open spec fn points_sound(header: LasHeaderView, file: Seq<u8>) -> bool {
    let len = (header.block.point_count * header.block.point_size) as nat;
    let start = header.block.offset_to_point_data as nat;
    header.block.compressed && header.vlrs_complete && 0 < len <= MAX_DECODED_BYTES && start
        <= file.len() ==> (laszip_payload(header.vlrs) matches Some(record) ==> payload_sound(
        record,
        file,
        start,
        len,
    ))
}

/// Whether decoding a file never hands `laz` a stream that it cannot run on.
pub open spec fn laz_file_sound(file: Seq<u8>) -> bool {
    read_header(file) matches Ok(header) ==> points_sound(header, file)
}

/// A whole file's header and its point records.
pub struct DecodedLas {
    header: LasHeader,
    points: Vec<u8>,
}

/// A [`DecodedLas`] as mathematical values.
pub struct DecodedLasView {
    pub header: LasHeaderView,
    pub points: Seq<u8>,
}

impl View for DecodedLas {
    type V = DecodedLasView;

    closed spec fn view(&self) -> DecodedLasView {
        DecodedLasView { header: self.header@, points: self.points@ }
    }
}

impl DecodedLas {
    #[verifier::type_invariant]
    spec fn inv(self) -> bool {
        self.points@.len() == self.header@.block.point_count * self.header@.block.point_size
    }

    pub fn header(&self) -> (r: LasHeader)
        ensures
            r@ == self@.header,
            r.block == self@.header.block,
    {
        self.header.clone()
    }

    /// The raw LAS point records, `point_count * point_size` bytes.
    pub fn points(&self) -> (r: Vec<u8>)
        ensures
            r@ == self@.points,
            r@.len() == self@.header.block.point_count * self@.header.block.point_size,
    {
        proof {
            use_type_invariant(&*self);
        }
        slice_to_vec(self.points.as_slice())
    }

    pub fn point_count(&self) -> (r: u64)
        ensures
            r == self@.header.block.point_count,
    {
        self.header.block.point_count
    }

    pub fn point_size(&self) -> (r: u16)
        ensures
            r == self@.header.block.point_size,
    {
        self.header.block.point_size
    }
}

/// Where the first chunk of the stream that begins at byte `start` begins: behind the
/// offset of the chunk table, if it has one.
pub open spec fn chunks_start(vlr: LaszipVlr, start: nat) -> nat {
    if vlr.compressor == 1 {
        start
    } else {
        start + 8
    }
}

/// The point counts that decompressing a file goes by.
pub open spec fn file_counts(vlr: LaszipVlr, file: Seq<u8>, start: nat) -> Option<Seq<u64>> {
    counts_of(vlr, chunk_counts(file, start, vlr.chunk_size))
}

/// Whether the points of a whole file, compressed with this VLR, are the points of its
/// chunks, one behind the other.
pub open spec fn chunks_agree(
    header: LasHeaderView,
    vlr: LaszipVlr,
    layout: RecordLayout,
    file: Seq<u8>,
    points: Seq<u8>,
) -> bool {
    let start = header.block.offset_to_point_data as nat;
    let records = points.len() / declared_size(vlr.items);
    chunked_points(
        vlr,
        layout,
        file_counts(vlr, file, start),
        file,
        chunks_start(vlr, start),
        0,
        records,
    ) == Ok::<Seq<u8>, Seq<char>>(points.take((records * declared_size(vlr.items)) as int))
}

/// Whether the one chunk of a file, cut out anywhere behind the end of its streams,
/// decodes on its own to the points of the whole file.
pub open spec fn chunk_agrees(
    header: LasHeaderView,
    vlr: LaszipVlr,
    layout: RecordLayout,
    file: Seq<u8>,
    points: Seq<u8>,
) -> bool {
    let at = chunks_start(vlr, header.block.offset_to_point_data as nat) as int;
    decompressed_end(layout, vlr.items, file.skip(at), points.len()) matches Some(end) && forall|
        to: int,
    |
        at + end <= to <= file.len() ==> decoded_chunk(
            vlr.items,
            #[trigger] file.subrange(at, to),
            header.block.point_count as nat,
            ALL_FIELDS,
        ) == Ok::<Seq<u8>, ErrorView>(points)
}

/// What ties the points of a compressed file to its chunks. Bytes that no whole record
/// takes up are zero. Where the fields of a record fill it, the points are those of the
/// chunks, and where one chunk holds them all, decoding that chunk gives them too.
pub open spec fn points_agree(header: LasHeaderView, file: Seq<u8>, points: Seq<u8>) -> bool {
    header.block.compressed && points.len() > 0 ==> (laszip_payload(header.vlrs) matches Some(record)
        && laszip_vlr(record) matches Some(vlr) && first_layout(vlr.items) matches Some(layout) && {
        &&& zero_behind(declared_size(vlr.items), points)
        &&& fields_size(vlr.items) == declared_size(vlr.items) ==> {
            &&& chunks_agree(header, vlr, layout, file, points)
            &&& header.block.point_size == declared_size(vlr.items) && holds_all(
                vlr,
                file_counts(vlr, file, header.block.offset_to_point_data as nat),
                header.block.point_count as nat,
            ) ==> chunk_agrees(header, vlr, layout, file, points)
        }
    })
}

/// What ties a failure to decompress a file, in these words, to its chunks: where the
/// fields of a record fill it, one of the chunks fails in the same words.
pub open spec fn failure_agrees(header: LasHeaderView, file: Seq<u8>, text: Seq<char>) -> bool {
    let start = header.block.offset_to_point_data as nat;
    let len = (header.block.point_count * header.block.point_size) as nat;
    laszip_payload(header.vlrs) matches Some(record) && laszip_vlr(record) matches Some(vlr)
        && first_layout(vlr.items) matches Some(layout) && (fields_size(vlr.items) == declared_size(
        vlr.items,
    ) ==> chunked_points(
        vlr,
        layout,
        file_counts(vlr, file, start),
        file,
        chunks_start(vlr, start),
        0,
        len / declared_size(vlr.items),
    ) == Err::<Seq<u8>, Seq<char>>(text))
}

/// The header and the point records of a file, or why there are none.
pub open spec fn decoded_file(file: Seq<u8>) -> Result<DecodedLasView, ErrorView> {
    match read_header(file) {
        Err(e) => Err(e),
        Ok(header) => match decoded_points(header, file) {
            Err(e) => Err(e),
            Ok(points) => Ok(DecodedLasView { header, points }),
        },
    }
}

/// One chunk that holds all points of a file gives them when it is decoded alone.
proof fn lemma_points_agree(
    header: LasHeaderView,
    vlr: LaszipVlr,
    file: Seq<u8>,
    points: Seq<u8>,
)
    requires
        laszip_payload(header.vlrs) matches Some(record) && laszip_vlr(record) == Some(vlr),
        first_layout(vlr.items) matches Some(layout) && first_unsupported(layout, vlr.items) is None
            && (fields_size(vlr.items) == declared_size(vlr.items) ==> {
            &&& chunks_agree(header, vlr, layout, file, points)
            &&& holds_all(
                vlr,
                file_counts(vlr, file, header.block.offset_to_point_data as nat),
                points.len() / declared_size(vlr.items),
            ) ==> settled(
                layout,
                vlr.items,
                file.skip(
                    chunks_start(vlr, header.block.offset_to_point_data as nat) as int,
                ),
                points.len(),
            )
        }),
        chunks_start(vlr, header.block.offset_to_point_data as nat) <= file.len(),
        zero_behind(declared_size(vlr.items), points),
        0 < declared_size(vlr.items),
        0 < points.len() <= MAX_DECODED_BYTES,
        points.len() == header.block.point_count * header.block.point_size,
    ensures
        points_agree(header, file, points),
{
    let layout = first_layout(vlr.items)->0;
    let size = declared_size(vlr.items);
    let count = header.block.point_count as nat;
    let at = chunks_start(vlr, header.block.offset_to_point_data as nat) as int;
    if fields_size(vlr.items) == size && header.block.point_size == size && holds_all(
        vlr,
        file_counts(vlr, file, header.block.offset_to_point_data as nat),
        count,
    ) {
        assert(points.len() / size == count) by (nonlinear_arith)
            requires
                points.len() == count * size,
                size > 0,
        ;
        assert(points.take(points.len() as int) =~= points);
        assert(decompressed(layout, vlr.items, file.skip(at), ALL_FIELDS, points.len()) == Ok::<
            Seq<u8>,
            Seq<char>,
        >(points));
        let end = decompressed_end(layout, vlr.items, file.skip(at), points.len())->0;
        assert forall|to: int| at + end <= to <= file.len() implies decoded_chunk(
            vlr.items,
            #[trigger] file.subrange(at, to),
            count,
            ALL_FIELDS,
        ) == Ok::<Seq<u8>, ErrorView>(points) by {
            assert(file.subrange(at, to) =~= file.skip(at).take(to - at));
        }
    }
}

/// What a file with this header decodes to. A request over a gibibyte is refused as such,
/// and point data past the end as that. Without compression the points are the bytes where
/// the header puts them, all of them, or too few bytes are held. With compression the VLRs
/// have to be there, and among them one `laszip encoded`; what `laz` makes of the stream, in
/// the room for all points that the header counts, are the points, or else the refusal is in
/// its words.
pub proof fn lemma_decoded_points(header: LasHeaderView, file: Seq<u8>)
    ensures
        ({
            let count = header.block.point_count as nat;
            let size = header.block.point_size as nat;
            let start = header.block.offset_to_point_data as nat;
            let len = (count * size) as nat;
            let result = decoded_points(header, file);
            &&& len > 1_073_741_824 ==> (result matches Err(
                ErrorView::OverBudget { point_count, point_size, bytes },
            ) && point_count == count && point_size == size && bytes == (if len <= u64::MAX {
                len as int
            } else {
                u64::MAX as int
            }))
            &&& len <= 1_073_741_824 && start > file.len() ==> result == Err::<Seq<u8>, ErrorView>(
                ErrorView::PointDataPastEnd { start, held: file.len() },
            )
            &&& len <= 1_073_741_824 && start <= file.len() ==> {
                &&& !header.block.compressed && start + len <= file.len() ==> (result matches Ok(
                    points,
                ) && points.len() == len && forall|i: int|
                    0 <= i < len ==> #[trigger] points[i] == file[start + i])
                &&& !header.block.compressed && start + len > file.len() ==> result == Err::<
                    Seq<u8>,
                    ErrorView,
                >(
                    ErrorView::MissingPointData {
                        point_count: count,
                        point_size: size,
                        held: (file.len() - start) as nat,
                    },
                )
                &&& header.block.compressed && !header.vlrs_complete ==> result == Err::<
                    Seq<u8>,
                    ErrorView,
                >(ErrorView::TruncatedVlrs)
                &&& header.block.compressed && header.vlrs_complete ==> {
                    &&& (forall|j: int|
                        0 <= j < header.vlrs.len() ==> !((#[trigger] header.vlrs[j]).user_id
                            == "laszip encoded"@ && header.vlrs[j].record_id == 22204))
                        ==> result == Err::<Seq<u8>, ErrorView>(ErrorView::NoLaszipVlr)
                    &&& forall|k: int|
                        0 <= k < header.vlrs.len() && (#[trigger] header.vlrs[k]).user_id
                            == "laszip encoded"@ && header.vlrs[k].record_id == 22204 && (forall|
                            j: int,
                        |
                            0 <= j < k ==> !((#[trigger] header.vlrs[j]).user_id
                                == "laszip encoded"@ && header.vlrs[j].record_id == 22204)) ==> {
                            let record = header.vlrs[k].data;
                            match laszip_vlr(record) {
                                None => result == Err::<Seq<u8>, ErrorView>(
                                    ErrorView::Laz {
                                        text: vlr_refusal(record, vlr_cut_short(record)),
                                    },
                                ),
                                Some(vlr) => {
                                    let chunked = first_chunk(
                                        file,
                                        start,
                                        vlr.compressor,
                                        vlr.chunk_size,
                                    );
                                    let given = file_points(
                                        file,
                                        start,
                                        vlr.compressor,
                                        vlr.chunk_size,
                                        vlr.items,
                                        len,
                                    );
                                    &&& len == 0 ==> result == Ok::<Seq<u8>, ErrorView>(Seq::empty())
                                    &&& len > 0 ==> match opened(
                                        vlr,
                                        first_point(vlr, start, chunked),
                                    ) {
                                        Err(text) => result == Err::<Seq<u8>, ErrorView>(
                                            ErrorView::Laz { text },
                                        ),
                                        Ok(_) => match given {
                                            Ok(points) => result == Ok::<Seq<u8>, ErrorView>(
                                                points,
                                            ),
                                            Err(text) => result == Err::<Seq<u8>, ErrorView>(
                                                ErrorView::File {
                                                    point_count: count,
                                                    file_len: file.len(),
                                                    text,
                                                },
                                            ),
                                        },
                                    }
                                },
                            }
                        }
                }
            }
        }),
{
    lemma_first_match(header.vlrs, "laszip encoded"@, 22204);
    if let Some(vlr) = first_match(header.vlrs, "laszip encoded"@, 22204) {
        let found = choose|i: int|
            {
                &&& 0 <= i < header.vlrs.len()
                &&& #[trigger] header.vlrs[i] == vlr
                &&& (vlr.user_id == "laszip encoded"@ && vlr.record_id == 22204)
                &&& forall|j: int|
                    0 <= j < i ==> !((#[trigger] header.vlrs[j]).user_id == "laszip encoded"@
                        && header.vlrs[j].record_id == 22204)
            };
        assert forall|k: int|
            0 <= k < header.vlrs.len() && (#[trigger] header.vlrs[k]).user_id == "laszip encoded"@
                && header.vlrs[k].record_id == 22204 && (forall|j: int|
                0 <= j < k ==> !((#[trigger] header.vlrs[j]).user_id == "laszip encoded"@
                    && header.vlrs[j].record_id == 22204)) implies k == found by {
            if k < found {
                assert(header.vlrs[k].record_id == 22204);
            }
            if found < k {
                assert(header.vlrs[found].record_id == 22204);
            }
        }
    }
}

/// `laz` cannot be run only where there is something to run it on: a compressed file within
/// the ceiling, with its VLRs and a laszip VLR among them. All others are in order.
pub proof fn lemma_points_sound(header: LasHeaderView, file: Seq<u8>)
    ensures
        ({
            let len = (header.block.point_count * header.block.point_size) as nat;
            let start = header.block.offset_to_point_data as nat;
            &&& !header.block.compressed || !header.vlrs_complete || len == 0 || len > 1_073_741_824
                || start > file.len() ==> points_sound(header, file)
            &&& (forall|j: int|
                0 <= j < header.vlrs.len() ==> !((#[trigger] header.vlrs[j]).user_id
                    == "laszip encoded"@ && header.vlrs[j].record_id == 22204)) ==> points_sound(
                header,
                file,
            )
            &&& forall|record: Seq<u8>|
                laszip_payload(header.vlrs) == Some(record) ==> {
                    match #[trigger] laszip_vlr(record) {
                        None => points_sound(header, file),
                        Some(vlr) => stream_sound(
                            vlr,
                            file,
                            start,
                            first_chunk(file, start, vlr.compressor, vlr.chunk_size),
                            if vlr.compressor == 1 || vlr.chunk_size != 0xFFFF_FFFF {
                                None
                            } else {
                                chunk_counts(file, start, vlr.chunk_size)
                            },
                            len,
                        ) ==> points_sound(header, file),
                    }
                }
        }),
        read_header(file) matches Ok(h) && h == header ==> (laz_file_sound(file) <==> points_sound(
            header,
            file,
        )),
        read_header(file) is Err ==> laz_file_sound(file),
{
    lemma_first_match(header.vlrs, "laszip encoded"@, 22204);
}

/// A whole file is decoded with the header that it has, no other: what comes of it are that
/// header and the points of a file with that header, as many as the header block counts, of
/// the size that it gives. It is refused when its header is, or when its points are.
pub proof fn lemma_decoded_file(file: Seq<u8>)
    ensures
        match decoded_file(file) {
            Ok(decoded) => {
                let b = file;
                let size = b[105] + 0x100 * b[106];
                let count = if b[24] > 1 || (b[24] == 1 && b[25] >= 4) {
                    b[247] + 0x100 * b[248] + 0x1_0000 * b[249] + 0x100_0000 * b[250]
                        + 0x1_0000_0000 * b[251] + 0x100_0000_0000 * b[252] + 0x1_0000_0000_0000
                        * b[253] + 0x100_0000_0000_0000 * b[254]
                } else {
                    b[107] + 0x100 * b[108] + 0x1_0000 * b[109] + 0x100_0000 * b[110]
                };
                &&& read_header(file) == Ok::<LasHeaderView, ErrorView>(decoded.header)
                &&& decoded_points(decoded.header, file) == Ok::<Seq<u8>, ErrorView>(decoded.points)
                &&& decoded.header.block.point_count == count
                &&& decoded.header.block.point_size == size
                &&& b[104] < 128 ==> decoded.points.len() == count * size
            },
            Err(e) => match read_header(file) {
                Err(refusal) => e == refusal,
                Ok(header) => decoded_points(header, file) == Err::<Seq<u8>, ErrorView>(e),
            },
        },
{
    lemma_header_block(file);
    if let Ok(header) = read_header(file) {
        lemma_decoded_points(header, file);
    }
}

/// Takes the point records out of a file whose header has been read.
pub fn decode_points(header: LasHeader, bytes: &[u8]) -> (r: Result<DecodedLas, Error>)
    requires
        points_sound(header@, bytes@),
    ensures
        match r {
            Ok(decoded) => {
                &&& decoded@.header == header@
                &&& decoded_points(header@, bytes@) == Ok::<Seq<u8>, ErrorView>(decoded@.points)
                &&& decoded@.points.len() == header@.block.point_count * header@.block.point_size
                &&& points_agree(header@, bytes@, decoded@.points)
            },
            Err(e) => {
                &&& decoded_points(header@, bytes@) == Err::<Seq<u8>, ErrorView>(e@)
                &&& e matches Error::File { text, .. } ==> failure_agrees(header@, bytes@, text@)
            },
        },
        ({
            let block = header.block;
            let start = block.offset_to_point_data;
            let len = block.point_count * block.point_size;
            match r {
                Ok(decoded) => {
                    &&& len <= 1_073_741_824 && start <= bytes@.len()
                    &&& decoded@.points.len() == len
                    &&& decoded@.header.block == block
                    &&& decoded@.header.vlrs == header@.vlrs
                    &&& !block.compressed ==> start + len <= bytes@.len() && decoded@.points
                        == bytes@.subrange(start as int, start + len)
                    &&& block.compressed ==> header.vlrs_complete
                },
                Err(Error::OverBudget { point_count, point_size, bytes }) => {
                    &&& len > 1_073_741_824
                    &&& point_count == block.point_count && point_size == block.point_size
                    &&& bytes == (if len <= u64::MAX {
                        len
                    } else {
                        u64::MAX as int
                    })
                },
                Err(Error::PointDataPastEnd { start: at, held }) => len <= 1_073_741_824 && at
                    == start && held == bytes@.len() && at > held,
                Err(Error::MissingPointData { point_count, point_size, held }) => {
                    &&& !block.compressed && start <= bytes@.len() && start + len > bytes@.len()
                    &&& point_count == block.point_count && point_size == block.point_size
                    &&& held == bytes@.len() - start
                },
                Err(Error::TruncatedVlrs) => block.compressed && !header.vlrs_complete,
                Err(Error::NoLaszipVlr) => block.compressed && header.vlrs_complete && forall|
                    j: int,
                |
                    0 <= j < header.vlrs.len() ==> (#[trigger] header.vlrs@[j]).user_id@
                        != "laszip encoded"@ || header.vlrs@[j].record_id != 22204,
                Err(Error::Laz { .. }) => block.compressed && header.vlrs_complete,
                Err(Error::File { point_count, file_len, .. }) => block.compressed
                    && header.vlrs_complete && len > 0 && point_count == block.point_count
                    && file_len == bytes@.len(),
                Err(_) => false,
            }
        }),
{
    let point_count: u64 = header.block.point_count;
    let point_size: u64 = header.block.point_size as u64;
    let len: usize = match check_budget(point_count, point_size) {
        Ok(len) => len,
        Err(e) => {
            return Err(e);
        },
    };
    let start: usize = header.block.offset_to_point_data as usize;
    if start > bytes.len() {
        return Err(Error::PointDataPastEnd { start, held: bytes.len() });
    }
    if !header.block.compressed {
        if len > bytes.len() - start {
            return Err(
                Error::MissingPointData { point_count, point_size, held: bytes.len() - start },
            );
        }
        let points: Vec<u8> = slice_to_vec(&bytes[start..start + len]);
        return Ok(DecodedLas { header, points });
    }
    if !header.vlrs_complete {
        return Err(Error::TruncatedVlrs);
    }
    let vlr: LazVlr = match header.laszip_record() {
        Some(record) => match parse_vlr(record) {
            Ok(vlr) => vlr,
            Err(text) => {
                return Err(Error::Laz { text });
            },
        },
        None => {
            return Err(Error::NoLaszipVlr);
        },
    };
    let mut points: Vec<u8> = Vec::new();
    if len > 0 {
        if let Err(text) = open_stream(bytes, start, &vlr) {
            return Err(Error::Laz { text });
        }
        let ghost v = vlr_view(vlr);
        let d: Result<Vec<u8>, String> = decompress_file(bytes, start, vlr, len);
        points =
        match finish_file(d, point_count, bytes.len()) {
            Ok(points) => points,
            Err(e) => {
                return Err(e);
            },
        };
        proof {
            lemma_points_agree(header@, v, bytes@, points@);
        }
    }
    Ok(DecodedLas { header, points })
}

/// Decodes a whole `.laz`, or passes a `.las` straight through.
///
/// Indexed formats should build a [`LazChunkDecoder`](crate::chunk::LazChunkDecoder)
/// once and decode node by node instead: this function holds the entire
/// decompressed cloud in memory at once, and [`MAX_DECODED_BYTES`] is the point
/// where it refuses. For bytes that are not trusted there is
/// [`try_decode_laz_file`](crate::soundness::try_decode_laz_file).
pub fn decode_laz_file(bytes: &[u8]) -> (r: Result<DecodedLas, Error>)
    requires
        laz_file_sound(bytes@),
    ensures
        match r {
            Ok(decoded) => {
                &&& decoded_file(bytes@) == Ok::<DecodedLasView, ErrorView>(decoded@)
                &&& decoded@.points.len() == decoded@.header.block.point_count
                    * decoded@.header.block.point_size
                &&& points_agree(decoded@.header, bytes@, decoded@.points)
            },
            Err(e) => {
                &&& decoded_file(bytes@) == Err::<DecodedLasView, ErrorView>(e@)
                &&& e matches Error::File { text, .. } ==> (read_header(bytes@) matches Ok(header)
                    && failure_agrees(header, bytes@, text@))
            },
        },
        ({
            let b = bytes@;
            let size = b[105] + 0x100 * b[106];
            let count = if b[24] > 1 || (b[24] == 1 && b[25] >= 4) {
                b[247] + 0x100 * b[248] + 0x1_0000 * b[249] + 0x100_0000 * b[250] + 0x1_0000_0000
                    * b[251] + 0x100_0000_0000 * b[252] + 0x1_0000_0000_0000 * b[253]
                    + 0x100_0000_0000_0000 * b[254]
            } else {
                b[107] + 0x100 * b[108] + 0x1_0000 * b[109] + 0x100_0000 * b[110]
            };
            let start = b[96] + 0x100 * b[97] + 0x1_0000 * b[98] + 0x100_0000 * b[99];
            match r {
                Ok(decoded) => {
                    &&& read_header(b) == Ok::<LasHeaderView, ErrorView>(decoded@.header)
                    &&& decoded_points(decoded@.header, b) == Ok::<Seq<u8>, ErrorView>(decoded@.points)
                    &&& decoded@.header.block.point_count == count
                    &&& decoded@.header.block.point_size == size
                    &&& decoded@.points.len() == count * size
                    &&& b[104] < 128 ==> start + count * size <= b.len() && decoded@.points
                        == b.subrange(start, start + count * size)
                },
                Err(e) => match read_header(b) {
                    Err(refusal) => e@ == refusal,
                    Ok(header) => decoded_points(header, b) == Err::<Seq<u8>, ErrorView>(e@),
                },
            }
        }),
{
    proof {
        lemma_header_block(bytes@);
    }
    match read_las_header(bytes) {
        Ok(header) => decode_points(header, bytes),
        Err(e) => Err(e),
    }
}

/// A file that asks for more than one call may allocate is refused as such,
/// whatever else it holds.
pub proof fn lemma_file_within_budget(header: LasHeaderView, file: Seq<u8>)
    ensures
        header.block.point_count * header.block.point_size > MAX_DECODED_BYTES <==> decoded_points(
            header,
            file,
        ) matches Err(ErrorView::OverBudget { .. }),
{
}

/// A file without compression passes straight through: its points are the bytes at
/// the offset that the header gives, whatever its VLRs hold. Bytes behind the point
/// data make no difference to it.
pub proof fn lemma_las_passes_through(header: LasHeaderView, file: Seq<u8>, points: Seq<u8>)
    requires
        !header.block.compressed,
        points.len() == header.block.point_count * header.block.point_size,
        points.len() <= MAX_DECODED_BYTES,
        header.block.offset_to_point_data + points.len() <= file.len(),
        file.skip(header.block.offset_to_point_data as int).take(points.len() as int) == points,
    ensures
        points_sound(header, file),
        decoded_points(header, file) == Ok::<Seq<u8>, ErrorView>(points),
{
    let start = header.block.offset_to_point_data as int;
    assert(file.subrange(start, start + points.len()) =~= file.skip(start).take(
        points.len() as int,
    ));
}

/// A compressed file gives back the points of the file without compression that it
/// was made from, if `laz` gives back the points that went into its stream.
pub proof fn lemma_laz_gives_las_points(
    laz_header: LasHeaderView,
    laz: Seq<u8>,
    vlr: LaszipVlr,
    las_header: LasHeaderView,
    las: Seq<u8>,
    points: Seq<u8>,
)
    requires
        laz_header.block.compressed && laz_header.vlrs_complete,
        laszip_payload(laz_header.vlrs) matches Some(record) && laszip_vlr(record) == Some(vlr),
        laz_header.block.offset_to_point_data <= laz.len(),
        opened_stream(laz, laz_header.block.offset_to_point_data as nat, vlr) is Ok,
        file_points(
            laz,
            laz_header.block.offset_to_point_data as nat,
            vlr.compressor,
            vlr.chunk_size,
            vlr.items,
            points.len(),
        ) == Ok::<Seq<u8>, Seq<char>>(points),
        !las_header.block.compressed,
        las_header.block.point_count == laz_header.block.point_count,
        las_header.block.point_size == laz_header.block.point_size,
        points.len() == las_header.block.point_count * las_header.block.point_size,
        points.len() <= MAX_DECODED_BYTES,
        las_header.block.offset_to_point_data + points.len() <= las.len(),
        las.skip(las_header.block.offset_to_point_data as int).take(points.len() as int) == points,
    ensures
        decoded_points(laz_header, laz) == Ok::<Seq<u8>, ErrorView>(points),
        decoded_points(las_header, las) == decoded_points(laz_header, laz),
{
    lemma_las_passes_through(las_header, las, points);
    if points.len() == 0 {
        assert(points =~= Seq::empty());
    }
}

} // verus!
