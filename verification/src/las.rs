//! The LAS public header block and the directories of variable length records.
use vstd::prelude::*;
use vstd::slice::slice_to_vec;

use crate::bytes::{
    le_u16, le_u32, le_u64, lemma_le_u16, lemma_le_u32, lemma_le_u64, lemma_little_endian,
    read_u16, read_u32, read_u64,
};
use crate::error::{Error, ErrorView};
use crate::text::{decimal, decimal_text, field_text, read_field};

verus! {

/// The size of the public header block up to LAS 1.2, which is the part that all
/// versions share.
pub const HEADER_SIZE: usize = 227;

/// The size of the public header block from LAS 1.4 on.
pub const HEADER_SIZE_V14: usize = 375;

/// The bytes in front of the payload of a variable length record.
pub const VLR_HEADER_SIZE: usize = 54;

/// The bytes in front of the payload of an extended variable length record.
pub const EVLR_HEADER_SIZE: usize = 60;

/// The largest of the point formats, which begin with 0.
pub const LAST_POINT_FORMAT: u8 = 10;

/// The record id of the laszip VLR; its user id is `laszip encoded`.
pub const LASZIP_RECORD_ID: u16 = 22204;

/// One value per axis. Each is a double, held as its bit pattern.
#[derive(Clone, Copy, PartialEq, Eq, Structural, Debug)]
pub struct Axes {
    pub x: u64,
    pub y: u64,
    pub z: u64,
}

/// The fields of the public header block.
#[derive(Clone, Copy, PartialEq, Eq, Structural, Debug)]
pub struct PublicHeader {
    pub version_major: u8,
    pub version_minor: u8,
    pub header_size: u16,
    pub offset_to_point_data: u32,
    /// How many VLRs the header claims.
    pub vlr_count: u32,
    /// The format id with the laszip compression bit masked off: 0 to 10.
    pub point_format: u8,
    pub compressed: bool,
    /// The size of one decompressed record, extra bytes included.
    pub point_size: u16,
    pub point_count: u64,
    pub scale: Axes,
    pub offset: Axes,
    pub min: Axes,
    pub max: Axes,
    /// The absolute offset of the first EVLR, or 0 when there are none.
    pub evlr_offset: u64,
    pub evlr_count: u32,
}

/// One variable length record, header fields and payload.
#[derive(Debug)]
pub struct Vlr {
    pub user_id: String,
    pub record_id: u16,
    pub description: String,
    /// True for records from the EVLR directory at the end of the file.
    pub extended: bool,
    pub data: Vec<u8>,
}

/// A [`Vlr`] as mathematical values.
#[verifier::ext_equal]
pub struct VlrView {
    pub user_id: Seq<char>,
    pub record_id: u16,
    pub description: Seq<char>,
    pub extended: bool,
    pub data: Seq<u8>,
}

impl View for Vlr {
    type V = VlrView;

    open spec fn view(&self) -> VlrView {
        VlrView {
            user_id: self.user_id@,
            record_id: self.record_id,
            description: self.description@,
            extended: self.extended,
            data: self.data@,
        }
    }
}

/// The records of a directory, each as mathematical values.
pub open spec fn vlr_views(vlrs: Seq<Vlr>) -> Seq<VlrView> {
    Seq::new(vlrs.len(), |i: int| vlrs[i]@)
}

/// The LAS public header block, plus the VLRs the buffer reached.
#[derive(Debug)]
pub struct LasHeader {
    pub block: PublicHeader,
    pub vlrs: Vec<Vlr>,
    /// False when the buffer ended before the VLR directory did.
    pub vlrs_complete: bool,
}

/// A [`LasHeader`] as mathematical values.
#[verifier::ext_equal]
pub struct LasHeaderView {
    pub block: PublicHeader,
    pub vlrs: Seq<VlrView>,
    pub vlrs_complete: bool,
}

impl View for LasHeader {
    type V = LasHeaderView;

    open spec fn view(&self) -> LasHeaderView {
        LasHeaderView {
            block: self.block,
            vlrs: vlr_views(self.vlrs@),
            vlrs_complete: self.vlrs_complete,
        }
    }
}

/// The views of a header and of its records hold each field as it is.
pub proof fn lemma_views(header: LasHeader)
    ensures
        header@.block == header.block,
        header@.vlrs_complete == header.vlrs_complete,
        header@.vlrs.len() == header.vlrs@.len(),
        forall|i: int|
            0 <= i < header.vlrs@.len() ==> {
                let vlr = #[trigger] header.vlrs@[i];
                &&& header@.vlrs[i] == vlr@
                &&& vlr@.user_id == vlr.user_id@
                &&& vlr@.record_id == vlr.record_id
                &&& vlr@.description == vlr.description@
                &&& vlr@.extended == vlr.extended
                &&& vlr@.data == vlr.data@
            },
{
}

/// Whether the header block is one of LAS 1.4 or later.
pub open spec fn is_v14(b: Seq<u8>) -> bool {
    b[24] > 1 || (b[24] == 1 && b[25] >= 4)
}

/// Three doubles, one axis every `step` bytes.
pub open spec fn axes_at(b: Seq<u8>, at: int, step: int) -> Axes {
    Axes { x: le_u64(b, at), y: le_u64(b, at + step), z: le_u64(b, at + 2 * step) }
}

/// The fields of the header block at the start of `b`.
///
/// LAS 1.4 counts its points in a 64-bit field and leaves the 32-bit one, which
/// the earlier versions use, to be zero.
pub open spec fn public_header(b: Seq<u8>) -> PublicHeader {
    let evlr_count = if is_v14(b) {
        le_u32(b, 243)
    } else {
        0
    };
    PublicHeader {
        version_major: b[24],
        version_minor: b[25],
        header_size: le_u16(b, 94),
        offset_to_point_data: le_u32(b, 96),
        vlr_count: le_u32(b, 100),
        point_format: b[104] % 128,
        compressed: b[104] >= 128,
        point_size: le_u16(b, 105),
        point_count: if is_v14(b) {
            le_u64(b, 247)
        } else {
            le_u32(b, 107) as u64
        },
        scale: axes_at(b, 131, 8),
        offset: axes_at(b, 155, 8),
        min: axes_at(b, 187, 16),
        max: axes_at(b, 179, 16),
        evlr_offset: if evlr_count == 0 {
            0
        } else {
            le_u64(b, 235)
        },
        evlr_count,
    }
}

/// The bytes in front of a record's payload.
pub open spec fn prefix_size(extended: bool) -> int {
    if extended {
        EVLR_HEADER_SIZE as int
    } else {
        VLR_HEADER_SIZE as int
    }
}

/// The payload size that the record at `at` declares.
pub open spec fn payload_size(b: Seq<u8>, at: int, extended: bool) -> int {
    if extended {
        le_u64(b, at + 20) as int
    } else {
        le_u16(b, at + 20) as int
    }
}

/// Where the record at `at` ends.
pub open spec fn record_end(b: Seq<u8>, at: int, extended: bool) -> int {
    at + prefix_size(extended) + payload_size(b, at, extended)
}

/// Whether `b` holds the whole of the record at `at`.
pub open spec fn record_fits(b: Seq<u8>, at: int, extended: bool) -> bool {
    at + prefix_size(extended) <= b.len() && record_end(b, at, extended) <= b.len()
}

/// The record at `at`.
pub open spec fn record_at(b: Seq<u8>, at: int, extended: bool) -> VlrView {
    let prefix = prefix_size(extended);
    VlrView {
        user_id: field_text(b.subrange(at + 2, at + 18)),
        record_id: le_u16(b, at + 18),
        description: field_text(b.subrange(at + prefix - 32, at + prefix)),
        extended,
        data: b.subrange(at + prefix, record_end(b, at, extended)),
    }
}

/// The records from `at` on: `count` of them, or fewer when `b` ends before.
pub open spec fn directory(b: Seq<u8>, at: int, count: nat, extended: bool) -> Seq<VlrView>
    decreases count,
{
    if count == 0 || !record_fits(b, at, extended) {
        Seq::empty()
    } else {
        seq![record_at(b, at, extended)] + directory(
            b,
            record_end(b, at, extended),
            (count - 1) as nat,
            extended,
        )
    }
}

/// What the start of a LAS file, `b`, says.
pub open spec fn read_header(b: Seq<u8>) -> Result<LasHeaderView, ErrorView> {
    if b.len() < HEADER_SIZE {
        Err(ErrorView::HeaderTooShort { needed: HEADER_SIZE as nat, held: b.len() })
    } else if !(b[0] == 0x4C && b[1] == 0x41 && b[2] == 0x53 && b[3] == 0x46) {
        Err(ErrorView::BadSignature)
    } else if is_v14(b) && b.len() < HEADER_SIZE_V14 {
        Err(ErrorView::HeaderTooShort { needed: HEADER_SIZE_V14 as nat, held: b.len() })
    } else if b[104] % 128 > LAST_POINT_FORMAT {
        Err(ErrorView::UnknownPointFormat { point_format: b[104] % 128 })
    } else {
        let block = public_header(b);
        let vlrs = directory(b, block.header_size as int, block.vlr_count as nat, false);
        Ok(LasHeaderView { block, vlrs, vlrs_complete: vlrs.len() == block.vlr_count })
    }
}

/// Whether the record goes by this user id and record id.
pub open spec fn goes_by(vlr: VlrView, user_id: Seq<char>, record_id: u16) -> bool {
    vlr.user_id == user_id && vlr.record_id == record_id
}

/// The first record that goes by this user id and record id.
pub open spec fn first_match(vlrs: Seq<VlrView>, user_id: Seq<char>, record_id: u16) -> Option<
    VlrView,
>
    decreases vlrs.len(),
{
    if vlrs.len() == 0 {
        None
    } else if goes_by(vlrs[0], user_id, record_id) {
        Some(vlrs[0])
    } else {
        first_match(vlrs.drop_first(), user_id, record_id)
    }
}

/// The payload of the laszip VLR.
pub open spec fn laszip_payload(vlrs: Seq<VlrView>) -> Option<Seq<u8>> {
    match first_match(vlrs, "laszip encoded"@, LASZIP_RECORD_ID) {
        Some(vlr) => Some(vlr.data),
        None => None,
    }
}

fn read_axes(b: &[u8], at: usize, step: usize) -> (axes: Axes)
    requires
        at + 2 * step + 8 <= b.len(),
    ensures
        axes == axes_at(b@, at as int, step as int),
{
    Axes { x: read_u64(b, at), y: read_u64(b, at + step), z: read_u64(b, at + 2 * step) }
}

/// Reads the fields of the header block.
fn read_block(b: &[u8]) -> (block: PublicHeader)
    requires
        b.len() >= HEADER_SIZE,
        is_v14(b@) ==> b.len() >= HEADER_SIZE_V14,
    ensures
        block == public_header(b@),
{
    let v14: bool = b[24] > 1 || (b[24] == 1 && b[25] >= 4);
    let evlr_count: u32 = if v14 {
        read_u32(b, 243)
    } else {
        0
    };
    PublicHeader {
        version_major: b[24],
        version_minor: b[25],
        header_size: read_u16(b, 94),
        offset_to_point_data: read_u32(b, 96),
        vlr_count: read_u32(b, 100),
        point_format: b[104] % 128,
        compressed: b[104] >= 128,
        point_size: read_u16(b, 105),
        point_count: if v14 {
            read_u64(b, 247)
        } else {
            read_u32(b, 107) as u64
        },
        scale: read_axes(b, 131, 8),
        offset: read_axes(b, 155, 8),
        min: read_axes(b, 187, 16),
        max: read_axes(b, 179, 16),
        evlr_offset: if evlr_count == 0 {
            0
        } else {
            read_u64(b, 235)
        },
        evlr_count,
    }
}

/// Reads `count` records from `at` on, or as many of them as `b` holds.
fn read_directory(b: &[u8], at: usize, count: u32, extended: bool) -> (vlrs: Vec<Vlr>)
    ensures
        vlr_views(vlrs@) == directory(b@, at as int, count as nat, extended),
{
    let prefix: usize = if extended {
        EVLR_HEADER_SIZE
    } else {
        VLR_HEADER_SIZE
    };
    let mut vlrs: Vec<Vlr> = Vec::new();
    let mut pos: usize = at;
    let mut left: u32 = count;
    assert(vlr_views(vlrs@) + directory(b@, pos as int, left as nat, extended) =~= directory(
        b@,
        at as int,
        count as nat,
        extended,
    ));
    while left > 0
        invariant
            prefix == prefix_size(extended),
            vlr_views(vlrs@) + directory(b@, pos as int, left as nat, extended) == directory(
                b@,
                at as int,
                count as nat,
                extended,
            ),
        ensures
            vlr_views(vlrs@) == directory(b@, at as int, count as nat, extended),
        decreases left,
    {
        if pos > b.len() || b.len() - pos < prefix {
            assert(vlr_views(vlrs@) + Seq::<VlrView>::empty() =~= vlr_views(vlrs@));
            break;
        }
        let size: u64 = if extended {
            read_u64(b, pos + 20)
        } else {
            read_u16(b, pos + 20) as u64
        };
        if size > (b.len() - pos - prefix) as u64 {
            assert(vlr_views(vlrs@) + Seq::<VlrView>::empty() =~= vlr_views(vlrs@));
            break;
        }
        let start: usize = pos + prefix;
        let end: usize = start + size as usize;
        let vlr = Vlr {
            user_id: read_field(b, pos + 2, pos + 18),
            record_id: read_u16(b, pos + 18),
            description: read_field(b, start - 32, start),
            extended,
            data: slice_to_vec(&b[start..end]),
        };
        let ghost before = vlrs@;
        vlrs.push(vlr);
        proof {
            assert(vlr@ == record_at(b@, pos as int, extended));
            assert(vlr_views(vlrs@) =~= vlr_views(before).push(vlr@));
            let rest = directory(b@, end as int, (left - 1) as nat, extended);
            assert(vlr_views(vlrs@) + rest =~= vlr_views(before) + (seq![vlr@] + rest));
        }
        pos = end;
        left = left - 1;
        proof {
            if left == 0 {
                assert(vlr_views(vlrs@) + Seq::<VlrView>::empty() =~= vlr_views(vlrs@));
            }
        }
    }
    vlrs
}

impl Clone for Vlr {
    fn clone(&self) -> (copy: Self)
        ensures
            copy@ == self@,
            copy.user_id@ == self.user_id@,
            copy.record_id == self.record_id,
            copy.description@ == self.description@,
            copy.extended == self.extended,
            copy.data@ == self.data@,
    {
        Vlr {
            user_id: self.user_id.clone(),
            record_id: self.record_id,
            description: self.description.clone(),
            extended: self.extended,
            data: slice_to_vec(self.data.as_slice()),
        }
    }
}

impl Vlr {
    pub fn user_id(&self) -> (r: String)
        ensures
            r@ == self@.user_id,
            r@ == self.user_id@,
    {
        self.user_id.clone()
    }

    pub fn record_id(&self) -> (r: u16)
        ensures
            r == self@.record_id,
            r == self.record_id,
    {
        self.record_id
    }

    pub fn description(&self) -> (r: String)
        ensures
            r@ == self@.description,
            r@ == self.description@,
    {
        self.description.clone()
    }

    /// True for records from the EVLR directory at the end of the file.
    pub fn extended(&self) -> (r: bool)
        ensures
            r == self@.extended,
            r == self.extended,
    {
        self.extended
    }

    /// The payload.
    pub fn data(&self) -> (r: Vec<u8>)
        ensures
            r@ == self@.data,
            r@ == self.data@,
    {
        slice_to_vec(self.data.as_slice())
    }

    /// Whether the record goes by this user id and record id.
    pub fn goes_by(&self, user_id: &str, record_id: u16) -> (r: bool)
        ensures
            r == goes_by(self@, user_id@, record_id),
            r <==> self.user_id@ == user_id@ && self.record_id == record_id,
    {
        self.record_id == record_id && self.user_id == user_id.to_owned()
    }
}

/// The index of the first record that goes by this user id and record id.
fn find(vlrs: &Vec<Vlr>, user_id: &str, record_id: u16) -> (r: Option<usize>)
    ensures
        match r {
            Some(i) => i < vlrs.len() && first_match(vlr_views(vlrs@), user_id@, record_id) == Some(
                vlrs@[i as int]@,
            ),
            None => first_match(vlr_views(vlrs@), user_id@, record_id) is None,
        },
        match r {
            Some(i) => {
                &&& i < vlrs.len()
                &&& vlrs@[i as int].user_id@ == user_id@ && vlrs@[i as int].record_id == record_id
                &&& forall|j: int|
                    0 <= j < i ==> (#[trigger] vlrs@[j]).user_id@ != user_id@ || vlrs@[j].record_id
                        != record_id
            },
            None => forall|j: int|
                0 <= j < vlrs.len() ==> (#[trigger] vlrs@[j]).user_id@ != user_id@
                    || vlrs@[j].record_id != record_id,
        },
{
    let ghost views = vlr_views(vlrs@);
    let mut i: usize = 0;
    assert(views.skip(0) =~= views);
    while i < vlrs.len()
        invariant
            i <= vlrs.len(),
            views == vlr_views(vlrs@),
            first_match(views, user_id@, record_id) == first_match(
                views.skip(i as int),
                user_id@,
                record_id,
            ),
            forall|j: int|
                0 <= j < i ==> (#[trigger] vlrs@[j]).user_id@ != user_id@ || vlrs@[j].record_id
                    != record_id,
        decreases vlrs.len() - i,
    {
        assert(views.skip(i as int)[0] == vlrs@[i as int]@);
        if vlrs[i].goes_by(user_id, record_id) {
            return Some(i);
        }
        assert(views.skip(i as int).drop_first() =~= views.skip(i + 1));
        i = i + 1;
    }
    None
}

/// Copies a list of records.
fn copy_vlrs(vlrs: &Vec<Vlr>) -> (copies: Vec<Vlr>)
    ensures
        vlr_views(copies@) == vlr_views(vlrs@),
        copies.len() == vlrs.len(),
        forall|i: int|
            0 <= i < copies.len() ==> {
                &&& (#[trigger] copies@[i]).user_id@ == vlrs@[i].user_id@
                &&& copies@[i].record_id == vlrs@[i].record_id
                &&& copies@[i].description@ == vlrs@[i].description@
                &&& copies@[i].extended == vlrs@[i].extended
                &&& copies@[i].data@ == vlrs@[i].data@
            },
{
    let mut copies: Vec<Vlr> = Vec::new();
    while copies.len() < vlrs.len()
        invariant
            copies.len() <= vlrs.len(),
            forall|i: int| 0 <= i < copies.len() ==> (#[trigger] copies@[i])@ == vlrs@[i]@,
        decreases vlrs.len() - copies.len(),
    {
        let next: Vlr = vlrs[copies.len()].clone();
        copies.push(next);
    }
    assert(vlr_views(copies@) =~= vlr_views(vlrs@));
    copies
}

impl Clone for LasHeader {
    fn clone(&self) -> (copy: Self)
        ensures
            copy@ == self@,
            copy.block == self.block,
            copy.vlrs_complete == self.vlrs_complete,
            copy.vlrs.len() == self.vlrs.len(),
            forall|i: int|
                0 <= i < copy.vlrs.len() ==> {
                    &&& (#[trigger] copy.vlrs@[i]).user_id@ == self.vlrs@[i].user_id@
                    &&& copy.vlrs@[i].record_id == self.vlrs@[i].record_id
                    &&& copy.vlrs@[i].description@ == self.vlrs@[i].description@
                    &&& copy.vlrs@[i].extended == self.vlrs@[i].extended
                    &&& copy.vlrs@[i].data@ == self.vlrs@[i].data@
                },
    {
        LasHeader {
            block: self.block,
            vlrs: copy_vlrs(&self.vlrs),
            vlrs_complete: self.vlrs_complete,
        }
    }
}

impl LasHeader {
    /// The LAS version, `major.minor`.
    pub fn version(&self) -> (r: String)
        ensures
            r@ == decimal_text(self@.block.version_major as nat) + "."@ + decimal_text(
                self@.block.version_minor as nat,
            ),
            r@ == decimal_text(self.block.version_major as nat) + "."@ + decimal_text(
                self.block.version_minor as nat,
            ),
    {
        let mut s: String = decimal(self.block.version_major as u64);
        s.append(".");
        s.append(decimal(self.block.version_minor as u64).as_str());
        s
    }

    pub fn header_size(&self) -> (r: u16)
        ensures
            r == self@.block.header_size,
            r == self.block.header_size,
    {
        self.block.header_size
    }

    pub fn offset_to_point_data(&self) -> (r: u32)
        ensures
            r == self@.block.offset_to_point_data,
            r == self.block.offset_to_point_data,
    {
        self.block.offset_to_point_data
    }

    /// The format id with the laszip compression bit masked off: 0 to 10.
    pub fn point_format(&self) -> (r: u8)
        ensures
            r == self@.block.point_format,
            r == self.block.point_format,
    {
        self.block.point_format
    }

    /// The size of one decompressed record, extra bytes included.
    pub fn point_size(&self) -> (r: u16)
        ensures
            r == self@.block.point_size,
            r == self.block.point_size,
    {
        self.block.point_size
    }

    pub fn point_count(&self) -> (r: u64)
        ensures
            r == self@.block.point_count,
            r == self.block.point_count,
    {
        self.block.point_count
    }

    pub fn compressed(&self) -> (r: bool)
        ensures
            r == self@.block.compressed,
            r == self.block.compressed,
    {
        self.block.compressed
    }

    /// The scale factors for x, y and z, as bit patterns of doubles.
    pub fn scale(&self) -> (r: Vec<u64>)
        ensures
            r@ == axes_seq(self@.block.scale),
            r@ == seq![self.block.scale.x, self.block.scale.y, self.block.scale.z],
    {
        axes_vec(self.block.scale)
    }

    /// The offsets for x, y and z, as bit patterns of doubles.
    pub fn offset(&self) -> (r: Vec<u64>)
        ensures
            r@ == axes_seq(self@.block.offset),
            r@ == seq![self.block.offset.x, self.block.offset.y, self.block.offset.z],
    {
        axes_vec(self.block.offset)
    }

    /// The lower bounds for x, y and z, as bit patterns of doubles.
    pub fn min(&self) -> (r: Vec<u64>)
        ensures
            r@ == axes_seq(self@.block.min),
            r@ == seq![self.block.min.x, self.block.min.y, self.block.min.z],
    {
        axes_vec(self.block.min)
    }

    /// The upper bounds for x, y and z, as bit patterns of doubles.
    pub fn max(&self) -> (r: Vec<u64>)
        ensures
            r@ == axes_seq(self@.block.max),
            r@ == seq![self.block.max.x, self.block.max.y, self.block.max.z],
    {
        axes_vec(self.block.max)
    }

    /// The absolute offset of the first EVLR, or 0 when there are none.
    pub fn evlr_offset(&self) -> (r: u64)
        ensures
            r == self@.block.evlr_offset,
            r == self.block.evlr_offset,
    {
        self.block.evlr_offset
    }

    pub fn evlr_count(&self) -> (r: u32)
        ensures
            r == self@.block.evlr_count,
            r == self.block.evlr_count,
    {
        self.block.evlr_count
    }

    /// How many VLRs the header claims, which may exceed what was read.
    pub fn vlr_count(&self) -> (r: u32)
        ensures
            r == self@.block.vlr_count,
            r == self.block.vlr_count,
    {
        self.block.vlr_count
    }

    /// False when the buffer ended before the VLR directory did: read further
    /// into the file and call again.
    pub fn vlrs_complete(&self) -> (r: bool)
        ensures
            r == self@.vlrs_complete,
            r == self.vlrs_complete,
    {
        self.vlrs_complete
    }

    /// The VLRs that the buffer reached.
    pub fn vlrs(&self) -> (r: Vec<Vlr>)
        ensures
            vlr_views(r@) == self@.vlrs,
            r.len() == self.vlrs.len(),
            forall|i: int|
                0 <= i < r.len() ==> {
                    &&& (#[trigger] r@[i]).user_id@ == self.vlrs@[i].user_id@
                    &&& r@[i].record_id == self.vlrs@[i].record_id
                    &&& r@[i].description@ == self.vlrs@[i].description@
                    &&& r@[i].extended == self.vlrs@[i].extended
                    &&& r@[i].data@ == self.vlrs@[i].data@
                },
    {
        copy_vlrs(&self.vlrs)
    }

    /// The first VLR with this user id and record id, if the buffer reached it.
    pub fn find_vlr(&self, user_id: &str, record_id: u16) -> (r: Option<Vlr>)
        ensures
            match r {
                Some(vlr) => first_match(self@.vlrs, user_id@, record_id) == Some(vlr@),
                None => first_match(self@.vlrs, user_id@, record_id) is None,
            },
            match r {
                Some(vlr) => {
                    &&& vlr.user_id@ == user_id@ && vlr.record_id == record_id
                    &&& exists|i: int|
                        0 <= i < self.vlrs.len() && (#[trigger] self.vlrs@[i])@ == vlr@ && forall|
                            j: int,
                        |
                            0 <= j < i ==> (#[trigger] self.vlrs@[j]).user_id@ != user_id@
                                || self.vlrs@[j].record_id != record_id
                },
                None => forall|j: int|
                    0 <= j < self.vlrs.len() ==> (#[trigger] self.vlrs@[j]).user_id@ != user_id@
                        || self.vlrs@[j].record_id != record_id,
            },
    {
        match find(&self.vlrs, user_id, record_id) {
            Some(i) => Some(self.vlrs[i].clone()),
            None => None,
        }
    }

    /// The payload of the laszip VLR, if the buffer reached it.
    pub fn laszip_record(&self) -> (r: Option<&[u8]>)
        ensures
            match r {
                Some(payload) => laszip_payload(self@.vlrs) == Some(payload@),
                None => laszip_payload(self@.vlrs) is None,
            },
            match r {
                Some(payload) => exists|i: int|
                    0 <= i < self.vlrs.len() && (#[trigger] self.vlrs@[i]).data@ == payload@
                        && self.vlrs@[i].user_id@ == "laszip encoded"@ && self.vlrs@[i].record_id
                        == 22204 && forall|j: int|
                        0 <= j < i ==> (#[trigger] self.vlrs@[j]).user_id@ != "laszip encoded"@
                            || self.vlrs@[j].record_id != 22204,
                None => forall|j: int|
                    0 <= j < self.vlrs.len() ==> (#[trigger] self.vlrs@[j]).user_id@
                        != "laszip encoded"@ || self.vlrs@[j].record_id != 22204,
            },
    {
        match find(&self.vlrs, "laszip encoded", LASZIP_RECORD_ID) {
            Some(i) => Some(self.vlrs[i].data.as_slice()),
            None => None,
        }
    }
}

/// The three values, x first.
pub open spec fn axes_seq(axes: Axes) -> Seq<u64> {
    seq![axes.x, axes.y, axes.z]
}

fn axes_vec(axes: Axes) -> (r: Vec<u64>)
    ensures
        r@ == axes_seq(axes),
{
    let mut r: Vec<u64> = Vec::new();
    r.push(axes.x);
    r.push(axes.y);
    r.push(axes.z);
    assert(r@ =~= axes_seq(axes));
    r
}

/// What a header block says is in its bytes: each field has its place and its width,
/// the low byte first. A block is read when it is whole, signed and of a point format
/// up to 10, and refused for the first of these that it is not.
#[verifier::spinoff_prover]
#[verifier::rlimit(60)]
pub proof fn lemma_header_block(b: Seq<u8>)
    ensures
        ({
            let u16_at = |at: int| b[at] + 0x100 * b[at + 1];
            let u32_at = |at: int| b[at] + 0x100 * b[at + 1] + 0x1_0000 * b[at + 2] + 0x100_0000 * b[at + 3];
            let u64_at = |at: int|
                    b[at] + 0x100 * b[at + 1] + 0x1_0000 * b[at + 2] + 0x100_0000 * b[at + 3]
                        + 0x1_0000_0000 * b[at + 4] + 0x100_0000_0000 * b[at + 5]
                        + 0x1_0000_0000_0000 * b[at + 6] + 0x100_0000_0000_0000 * b[at + 7];
            let v14 = b[24] > 1 || (b[24] == 1 && b[25] >= 4);
            let signed = b[0] == 0x4C && b[1] == 0x41 && b[2] == 0x53 && b[3] == 0x46;
            let format = if b[104] >= 128 {
                b[104] - 128
            } else {
                b[104] as int
            };
            match read_header(b) {
                Ok(header) => {
                    &&& b.len() >= 227 && signed && (v14 ==> b.len() >= 375) && format <= 10
                    &&& header.block.version_major == b[24]
                    &&& header.block.version_minor == b[25]
                    &&& header.block.header_size == u16_at(94)
                    &&& header.block.offset_to_point_data == u32_at(96)
                    &&& header.block.vlr_count == u32_at(100)
                    &&& header.block.point_format == (if b[104] >= 128 {
                    b[104] - 128
                } else {
                    b[104] as int
                })
                    &&& header.block.compressed <==> b[104] >= 128
                    &&& header.block.point_size == u16_at(105)
                    &&& header.block.point_count == (if v14 {
                    u64_at(247)
                } else {
                    u32_at(107)
                })
                    &&& header.block.scale.x == u64_at(131)
                    &&& header.block.scale.y == u64_at(139)
                    &&& header.block.scale.z == u64_at(147)
                    &&& header.block.offset.x == u64_at(155)
                    &&& header.block.offset.y == u64_at(163)
                    &&& header.block.offset.z == u64_at(171)
                    &&& header.block.min.x == u64_at(187)
                    &&& header.block.min.y == u64_at(203)
                    &&& header.block.min.z == u64_at(219)
                    &&& header.block.max.x == u64_at(179)
                    &&& header.block.max.y == u64_at(195)
                    &&& header.block.max.z == u64_at(211)
                    &&& header.block.evlr_count == (if v14 {
                    u32_at(243)
                } else {
                    0
                })
                    &&& header.block.evlr_offset == (if v14 && u32_at(243) != 0 {
                    u64_at(235)
                } else {
                    0
                })
                    &&& header.vlrs == directory(b, u16_at(94), u32_at(100) as nat, false)
                    &&& header.vlrs_complete <==> header.vlrs.len() == u32_at(100)
                },
                Err(e) => {
                    &&& b.len() < 227 ==> e == (ErrorView::HeaderTooShort { needed: 227, held: b.len() })
                    &&& b.len() >= 227 && !signed ==> e == ErrorView::BadSignature
                    &&& b.len() >= 227 && signed && v14 && b.len() < 375 ==> e == (
                ErrorView::HeaderTooShort { needed: 375, held: b.len() })
                    &&& b.len() >= 227 && signed && (v14 ==> b.len() >= 375) ==> format > 10 && e == (
                ErrorView::UnknownPointFormat { point_format: format as u8 })
                },
            }
        }),
{
    lemma_le_u16(b, 94);
    lemma_le_u16(b, 105);
    lemma_le_u32(b, 96);
    lemma_le_u32(b, 100);
    lemma_le_u32(b, 107);
    lemma_le_u32(b, 243);
    lemma_le_u64(b, 235);
    lemma_le_u64(b, 247);
    lemma_le_u64(b, 131);
    lemma_le_u64(b, 139);
    lemma_le_u64(b, 147);
    lemma_le_u64(b, 155);
    lemma_le_u64(b, 163);
    lemma_le_u64(b, 171);
    lemma_le_u64(b, 179);
    lemma_le_u64(b, 187);
    lemma_le_u64(b, 195);
    lemma_le_u64(b, 203);
    lemma_le_u64(b, 211);
    lemma_le_u64(b, 219);
}

/// Reads the public header block and as much of the VLR directory as `bytes`
/// holds.
///
/// Safe to call on a prefix of a file: see [`lemma_prefix_agrees`].
pub fn read_las_header(bytes: &[u8]) -> (r: Result<LasHeader, Error>)
    ensures
        match r {
            Ok(header) => read_header(bytes@) == Ok::<LasHeaderView, ErrorView>(header@),
            Err(e) => read_header(bytes@) == Err::<LasHeaderView, ErrorView>(e@),
        },
        r matches Ok(header) ==> {
            &&& header@.block.point_format <= 10
            &&& header@.vlrs.len() <= header@.block.vlr_count
            &&& header@.vlrs_complete <==> header@.vlrs.len() == header@.block.vlr_count
        },
        ({
            let b = bytes@;
            let u16_at = |at: int| b[at] + 0x100 * b[at + 1];
            let u32_at = |at: int| b[at] + 0x100 * b[at + 1] + 0x1_0000 * b[at + 2] + 0x100_0000 * b[at + 3];
            let u64_at = |at: int|
                    b[at] + 0x100 * b[at + 1] + 0x1_0000 * b[at + 2] + 0x100_0000 * b[at + 3]
                        + 0x1_0000_0000 * b[at + 4] + 0x100_0000_0000 * b[at + 5]
                        + 0x1_0000_0000_0000 * b[at + 6] + 0x100_0000_0000_0000 * b[at + 7];
            let v14 = b[24] > 1 || (b[24] == 1 && b[25] >= 4);
            let signed = b[0] == 0x4C && b[1] == 0x41 && b[2] == 0x53 && b[3] == 0x46;
            let format = if b[104] >= 128 {
                b[104] - 128
            } else {
                b[104] as int
            };
            match r {
                Ok(header) => {
                    &&& b.len() >= 227 && signed && (v14 ==> b.len() >= 375) && format <= 10
                    &&& header.block.version_major == b[24]
                    &&& header.block.version_minor == b[25]
                    &&& header.block.header_size == u16_at(94)
                    &&& header.block.offset_to_point_data == u32_at(96)
                    &&& header.block.vlr_count == u32_at(100)
                    &&& header.block.point_format == (if b[104] >= 128 {
                    b[104] - 128
                } else {
                    b[104] as int
                })
                    &&& header.block.compressed <==> b[104] >= 128
                    &&& header.block.point_size == u16_at(105)
                    &&& header.block.point_count == (if v14 {
                    u64_at(247)
                } else {
                    u32_at(107)
                })
                    &&& header.block.scale.x == u64_at(131)
                    &&& header.block.scale.y == u64_at(139)
                    &&& header.block.scale.z == u64_at(147)
                    &&& header.block.offset.x == u64_at(155)
                    &&& header.block.offset.y == u64_at(163)
                    &&& header.block.offset.z == u64_at(171)
                    &&& header.block.min.x == u64_at(187)
                    &&& header.block.min.y == u64_at(203)
                    &&& header.block.min.z == u64_at(219)
                    &&& header.block.max.x == u64_at(179)
                    &&& header.block.max.y == u64_at(195)
                    &&& header.block.max.z == u64_at(211)
                    &&& header.block.evlr_count == (if v14 {
                    u32_at(243)
                } else {
                    0
                })
                    &&& header.block.evlr_offset == (if v14 && u32_at(243) != 0 {
                    u64_at(235)
                } else {
                    0
                })
                    &&& header.vlrs_complete <==> header.vlrs.len() == u32_at(100)
                    &&& header.vlrs.len() <= u32_at(100)
                },
                Err(e) => match e {
                    Error::HeaderTooShort { needed, held } => held == b.len() && held < needed
                        && needed == (if b.len() < 227 {
                        227
                    } else {
                        375int
                    }) && (b.len() < 227 || (signed && v14)),
                    Error::BadSignature => b.len() >= 227 && !signed,
                    Error::UnknownPointFormat { point_format } => b.len() >= 227 && signed && (v14
                        ==> b.len() >= 375) && point_format == format && format > 10,
                    _ => false,
                },
            }
        }),
        r matches Ok(header) ==> forall|k: int|
            0 <= k < header.vlrs.len() ==> {
                let b = bytes@;
                let s = record_start(b, b[94] + 0x100 * b[95], k as nat, false);
                let vlr = #[trigger] header.vlrs@[k];
                &&& !vlr.extended
                &&& vlr.record_id == b[s + 18] + 0x100 * b[s + 19]
                &&& vlr.data.len() == b[s + 20] + 0x100 * b[s + 21]
                &&& s + 54 + vlr.data.len() <= b.len()
                &&& vlr.data@ == b.subrange(s + 54, s + 54 + vlr.data.len())
                &&& vlr.user_id@ == field_text(b.subrange(s + 2, s + 18))
                &&& vlr.description@ == field_text(b.subrange(s + 22, s + 54))
            },
{
    proof {
        lemma_header_block(bytes@);
    }
    let held: usize = bytes.len();
    if held < HEADER_SIZE {
        return Err(Error::HeaderTooShort { needed: HEADER_SIZE, held });
    }
    if !(bytes[0] == 0x4C && bytes[1] == 0x41 && bytes[2] == 0x53 && bytes[3] == 0x46) {
        return Err(Error::BadSignature);
    }
    if (bytes[24] > 1 || (bytes[24] == 1 && bytes[25] >= 4)) && held < HEADER_SIZE_V14 {
        return Err(Error::HeaderTooShort { needed: HEADER_SIZE_V14, held });
    }
    let block: PublicHeader = read_block(bytes);
    if block.point_format > LAST_POINT_FORMAT {
        return Err(Error::UnknownPointFormat { point_format: block.point_format });
    }
    let vlrs: Vec<Vlr> = read_directory(bytes, block.header_size as usize, block.vlr_count, false);
    proof {
        lemma_directory_bytes(bytes@, block.header_size as int, block.vlr_count as nat, false);
        assert(vlr_views(vlrs@).len() == vlrs.len());
        assert forall|k: int| 0 <= k < vlrs.len() implies (#[trigger] vlrs@[k])@ == directory(
            bytes@,
            block.header_size as int,
            block.vlr_count as nat,
            false,
        )[k] by {
            assert(vlr_views(vlrs@)[k] == vlrs@[k]@);
        }
    }
    let vlrs_complete: bool = vlrs.len() as u64 == block.vlr_count as u64;
    Ok(LasHeader { block, vlrs, vlrs_complete })
}

/// Reads an EVLR directory from a buffer that begins at the first record.
///
/// Records that did not fit are dropped silently: compare the length against
/// `count` to detect a short read.
pub fn read_las_evlrs(bytes: &[u8], count: u32) -> (vlrs: Vec<Vlr>)
    ensures
        vlr_views(vlrs@) == directory(bytes@, 0, count as nat, true),
        vlrs.len() <= count,
        forall|k: int|
            0 <= k < vlrs.len() ==> {
                let b = bytes@;
                let s = record_start(b, 0, k as nat, true);
                let vlr = #[trigger] vlrs@[k];
                &&& vlr.extended
                &&& vlr.record_id == b[s + 18] + 0x100 * b[s + 19]
                &&& vlr.data.len() == b[s + 20] + 0x100 * b[s + 21] + 0x1_0000 * b[s + 22]
                    + 0x100_0000 * b[s + 23] + 0x1_0000_0000 * b[s + 24] + 0x100_0000_0000 * b[s + 25]
                    + 0x1_0000_0000_0000 * b[s + 26] + 0x100_0000_0000_0000 * b[s + 27]
                &&& s + 60 + vlr.data.len() <= b.len()
                &&& vlr.data@ == b.subrange(s + 60, s + 60 + vlr.data.len())
                &&& vlr.user_id@ == field_text(b.subrange(s + 2, s + 18))
                &&& vlr.description@ == field_text(b.subrange(s + 28, s + 60))
            },
{
    let vlrs: Vec<Vlr> = read_directory(bytes, 0, count, true);
    proof {
        lemma_directory_bytes(bytes@, 0, count as nat, true);
        assert(vlr_views(vlrs@).len() == vlrs.len());
        assert forall|k: int| 0 <= k < vlrs.len() implies (#[trigger] vlrs@[k])@ == directory(
            bytes@,
            0,
            count as nat,
            true,
        )[k] by {
            assert(vlr_views(vlrs@)[k] == vlrs@[k]@);
        }
    }
    vlrs
}

/// Where record `k` of the directory at `at` begins.
pub open spec fn record_start(b: Seq<u8>, at: int, k: nat, extended: bool) -> int
    decreases k,
{
    if k == 0 {
        at
    } else {
        record_start(b, record_end(b, at, extended), (k - 1) as nat, extended)
    }
}

/// A directory holds the records one behind the other, up to the first that does
/// not fit. So it never has more records than were asked for, and has as many exactly
/// when no record was cut off.
pub proof fn lemma_directory_records(b: Seq<u8>, at: int, count: nat, extended: bool)
    ensures
        ({
            let records = directory(b, at, count, extended);
            &&& records.len() <= count
            &&& forall|k: nat|
                k < records.len() ==> {
                    let start = #[trigger] record_start(b, at, k, extended);
                    record_fits(b, start, extended) && records[k as int] == record_at(
                        b,
                        start,
                        extended,
                    )
                }
            &&& records.len() < count ==> !record_fits(
                b,
                record_start(b, at, records.len(), extended),
                extended,
            )
        }),
    decreases count,
{
    if count > 0 && record_fits(b, at, extended) {
        let end = record_end(b, at, extended);
        let rest = directory(b, end, (count - 1) as nat, extended);
        lemma_directory_records(b, end, (count - 1) as nat, extended);
        let records = directory(b, at, count, extended);
        assert(records.len() == rest.len() + 1);
        assert forall|k: nat| k < records.len() implies {
            let start = #[trigger] record_start(b, at, k, extended);
            record_fits(b, start, extended) && records[k as int] == record_at(b, start, extended)
        } by {
            if k > 0 {
                let start = record_start(b, end, (k - 1) as nat, extended);
                assert(records[k as int] == rest[k - 1]);
                assert(record_start(b, at, k, extended) == start);
            }
        }
        assert(record_start(b, at, records.len(), extended) == record_start(
            b,
            end,
            rest.len(),
            extended,
        ));
    }
}

/// The first record of a directory begins where the directory does, and the next one
/// behind the payload that a record declares.
pub proof fn lemma_record_follows(b: Seq<u8>, at: int, k: nat, extended: bool)
    ensures
        record_start(b, at, 0, extended) == at,
        ({
            let s = record_start(b, at, k, extended);
            record_start(b, at, k + 1, extended) == (if extended {
                s + 60 + b[s + 20] + 0x100 * b[s + 21] + 0x1_0000 * b[s + 22] + 0x100_0000 * b[s
                    + 23] + 0x1_0000_0000 * b[s + 24] + 0x100_0000_0000 * b[s + 25]
                    + 0x1_0000_0000_0000 * b[s + 26] + 0x100_0000_0000_0000 * b[s + 27]
            } else {
                s + 54 + b[s + 20] + 0x100 * b[s + 21]
            })
        }),
{
    lemma_record_start(b, at, k, extended);
    lemma_little_endian(b, record_start(b, at, k, extended) + 20);
}

/// The start of a record is the end of the one before it.
proof fn lemma_record_start(b: Seq<u8>, at: int, k: nat, extended: bool)
    ensures
        record_start(b, at, k + 1, extended) == record_end(
            b,
            record_start(b, at, k, extended),
            extended,
        ),
    decreases k,
{
    reveal_with_fuel(record_start, 2);
    if k > 0 {
        lemma_record_start(b, record_end(b, at, extended), (k - 1) as nat, extended);
    }
}

/// No record begins before the directory does.
proof fn lemma_record_start_bound(b: Seq<u8>, at: int, k: nat, extended: bool)
    ensures
        at <= record_start(b, at, k, extended),
    decreases k,
{
    if k > 0 {
        lemma_record_start_bound(b, record_end(b, at, extended), (k - 1) as nat, extended);
    }
}

/// The records of a directory are its bytes. Each begins where the one before it ends,
/// has its ids and its description in front and behind them the whole payload that it
/// declares, byte for byte. None is read past the first that the bytes do not hold.
pub proof fn lemma_directory_bytes(b: Seq<u8>, at: int, count: nat, extended: bool)
    requires
        0 <= at,
    ensures
        directory(b, at, count, extended).len() <= count,
        forall|k: int|
            0 <= k < directory(b, at, count, extended).len() ==> {
                let s = record_start(b, at, k as nat, extended);
                let prefix = if extended {
                    60int
                } else {
                    54
                };
                let size = if extended {
                    b[s + 20] + 0x100 * b[s + 21] + 0x1_0000 * b[s + 22] + 0x100_0000 * b[s + 23]
                        + 0x1_0000_0000 * b[s + 24] + 0x100_0000_0000 * b[s + 25]
                        + 0x1_0000_0000_0000 * b[s + 26] + 0x100_0000_0000_0000 * b[s + 27]
                } else {
                    b[s + 20] + 0x100 * b[s + 21]
                };
                let record = #[trigger] directory(b, at, count, extended)[k];
                &&& s + prefix + size <= b.len()
                &&& record.extended == extended
                &&& record.record_id == b[s + 18] + 0x100 * b[s + 19]
                &&& record.data.len() == size
                &&& record.data == b.subrange(s + prefix, s + prefix + size)
                &&& record.user_id == field_text(b.subrange(s + 2, s + 18))
                &&& record.description == field_text(b.subrange(s + prefix - 32, s + prefix))
            },
        directory(b, at, count, extended).len() < count ==> {
            let s = record_start(b, at, directory(b, at, count, extended).len(), extended);
            let prefix = if extended {
                60int
            } else {
                54
            };
            let size = if extended {
                b[s + 20] + 0x100 * b[s + 21] + 0x1_0000 * b[s + 22] + 0x100_0000 * b[s + 23]
                    + 0x1_0000_0000 * b[s + 24] + 0x100_0000_0000 * b[s + 25]
                    + 0x1_0000_0000_0000 * b[s + 26] + 0x100_0000_0000_0000 * b[s + 27]
            } else {
                b[s + 20] + 0x100 * b[s + 21]
            };
            s + prefix > b.len() || s + prefix + size > b.len()
        },
        forall|k: int, i: int|
            0 <= k < directory(b, at, count, extended).len() && 0 <= i < directory(
                b,
                at,
                count,
                extended,
            )[k].data.len() ==> #[trigger] directory(b, at, count, extended)[k].data[i] == b[
            record_start(b, at, k as nat, extended) + (if extended {
                60int
            } else {
                54
            }) + i],
{
    let records = directory(b, at, count, extended);
    lemma_directory_records(b, at, count, extended);
    assert forall|k: int| 0 <= k < records.len() implies {
        let s = record_start(b, at, k as nat, extended);
        let record = #[trigger] records[k];
        let prefix = prefix_size(extended);
        &&& record == record_at(b, s, extended)
        &&& record_fits(b, s, extended)
        &&& 0 <= s
        &&& record.record_id == b[s + 18] + 0x100 * b[s + 19]
        &&& payload_size(b, s, extended) == (if extended {
            b[s + 20] + 0x100 * b[s + 21] + 0x1_0000 * b[s + 22] + 0x100_0000 * b[s + 23]
                + 0x1_0000_0000 * b[s + 24] + 0x100_0000_0000 * b[s + 25] + 0x1_0000_0000_0000 * b[s
                + 26] + 0x100_0000_0000_0000 * b[s + 27]
        } else {
            b[s + 20] + 0x100 * b[s + 21]
        })
    } by {
        let n = k as nat;
        let s = record_start(b, at, n, extended);
        assert(n < records.len());
        lemma_record_start_bound(b, at, n, extended);
        lemma_little_endian(b, s + 18);
        lemma_little_endian(b, s + 20);
    }
    lemma_little_endian(b, record_start(b, at, records.len(), extended) + 20);
}

/// Looking a record up finds one of the list that goes by the two ids, and finds
/// none exactly when no record of the list does. Of several it finds the first.
pub proof fn lemma_first_match(vlrs: Seq<VlrView>, user_id: Seq<char>, record_id: u16)
    ensures
        match first_match(vlrs, user_id, record_id) {
            Some(vlr) => exists|i: int|
                {
                    &&& 0 <= i < vlrs.len()
                    &&& #[trigger] vlrs[i] == vlr
                    &&& (vlr.user_id == user_id && vlr.record_id == record_id)
                    &&& forall|j: int|
                        0 <= j < i ==> !((#[trigger] vlrs[j]).user_id == user_id && vlrs[j].record_id
                            == record_id)
                },
            None => forall|i: int|
                0 <= i < vlrs.len() ==> !((#[trigger] vlrs[i]).user_id == user_id && vlrs[i].record_id
                    == record_id),
        },
    decreases vlrs.len(),
{
    if vlrs.len() > 0 && !goes_by(vlrs[0], user_id, record_id) {
        let rest = vlrs.drop_first();
        lemma_first_match(rest, user_id, record_id);
        match first_match(rest, user_id, record_id) {
            Some(vlr) => {
                let k = choose|i: int|
                    {
                        &&& 0 <= i < rest.len()
                        &&& #[trigger] rest[i] == vlr
                        &&& (vlr.user_id == user_id && vlr.record_id == record_id)
                        &&& forall|j: int|
                            0 <= j < i ==> !((#[trigger] rest[j]).user_id == user_id
                                && rest[j].record_id == record_id)
                    };
                assert(vlrs[k + 1] == vlr);
                assert forall|j: int| 0 <= j < k + 1 implies !goes_by(
                    vlrs[j],
                    user_id,
                    record_id,
                ) by {
                    if j > 0 {
                        assert(vlrs[j] == rest[j - 1]);
                    }
                }
            },
            None => {
                assert forall|i: int| 0 <= i < vlrs.len() implies !goes_by(
                    #[trigger] vlrs[i],
                    user_id,
                    record_id,
                ) by {
                    if i > 0 {
                        assert(vlrs[i] == rest[i - 1]);
                    }
                }
            },
        }
    } else if vlrs.len() > 0 {
        assert(vlrs[0] == vlrs[0]);
    }
}

/// Cutting the bytes short only drops records from the end of a directory: the
/// records that are still read are the same, in the same places.
pub proof fn lemma_directory_prefix(b: Seq<u8>, n: int, at: int, count: nat, extended: bool)
    requires
        0 <= n <= b.len(),
        0 <= at,
    ensures
        directory(b.take(n), at, count, extended).is_prefix_of(directory(b, at, count, extended)),
    decreases count,
{
    let cut = b.take(n);
    if count > 0 && record_fits(cut, at, extended) {
        let end = record_end(b, at, extended);
        assert(record_end(cut, at, extended) == end);
        assert(record_at(cut, at, extended) == record_at(b, at, extended)) by {
            let prefix = prefix_size(extended);
            assert(cut.subrange(at + 2, at + 18) =~= b.subrange(at + 2, at + 18));
            assert(cut.subrange(at + prefix - 32, at + prefix) =~= b.subrange(
                at + prefix - 32,
                at + prefix,
            ));
            assert(cut.subrange(at + prefix, end) =~= b.subrange(at + prefix, end));
        }
        lemma_directory_prefix(b, n, end, (count - 1) as nat, extended);
        let short = directory(cut, end, (count - 1) as nat, extended);
        let long = directory(b, end, (count - 1) as nat, extended);
        let first = seq![record_at(b, at, extended)];
        assert(first + short =~= (first + long).subrange(0, (first + short).len() as int)) by {
            assert(short =~= long.subrange(0, short.len() as int));
        }
    }
}

/// Asking for fewer records only drops records from the end of a directory.
pub proof fn lemma_directory_count(b: Seq<u8>, at: int, fewer: nat, count: nat, extended: bool)
    requires
        fewer <= count,
    ensures
        directory(b, at, fewer, extended).is_prefix_of(directory(b, at, count, extended)),
    decreases fewer,
{
    if fewer > 0 && record_fits(b, at, extended) {
        let end = record_end(b, at, extended);
        lemma_directory_count(b, end, (fewer - 1) as nat, (count - 1) as nat, extended);
        let short = directory(b, end, (fewer - 1) as nat, extended);
        let long = directory(b, end, (count - 1) as nat, extended);
        let first = seq![record_at(b, at, extended)];
        assert(first + short =~= (first + long).subrange(0, (first + short).len() as int)) by {
            assert(short =~= long.subrange(0, short.len() as int));
        }
    }
}

/// A header read from the first `n` bytes of a file agrees with the header read
/// from all of it: the header block is the same, and the VLRs that the prefix
/// reached are the first VLRs of the file. When the prefix reached all of them,
/// the two headers are equal.
pub proof fn lemma_prefix_agrees(b: Seq<u8>, n: int)
    requires
        0 <= n <= b.len(),
        read_header(b.take(n)) is Ok,
    ensures
        read_header(b) matches Ok(whole) && read_header(b.take(n)) matches Ok(part) && {
            &&& part.block == whole.block
            &&& part.vlrs.is_prefix_of(whole.vlrs)
            &&& part.vlrs_complete ==> part == whole
        },
{
    let cut = b.take(n);
    assert(public_header(cut) == public_header(b));
    let block = public_header(b);
    lemma_directory_prefix(b, n, block.header_size as int, block.vlr_count as nat, false);
    lemma_directory_records(b, block.header_size as int, block.vlr_count as nat, false);
    let part = directory(cut, block.header_size as int, block.vlr_count as nat, false);
    let whole = directory(b, block.header_size as int, block.vlr_count as nat, false);
    if part.len() == block.vlr_count {
        assert(part =~= whole);
    }
}

} // verus!
