//! Which fields to spend time on.
use vstd::prelude::*;

verus! {

/// All fields.
pub const ALL_FIELDS: u32 = 0xFFFF_FFFF;

/// X, Y, return numbers and the scanner channel.
pub const XY_RETURNS_CHANNEL: u32 = 0;

/// Z.
pub const Z: u32 = 0x001;

/// The classification.
pub const CLASSIFICATION: u32 = 0x002;

/// The classification flags, the scan direction and the edge of the flight line.
pub const FLAGS: u32 = 0x004;

/// The intensity.
pub const INTENSITY: u32 = 0x008;

/// The scan angle.
pub const SCAN_ANGLE: u32 = 0x010;

/// The user data.
pub const USER_DATA: u32 = 0x020;

/// The point source id.
pub const POINT_SOURCE_ID: u32 = 0x040;

/// The GPS time.
pub const GPS_TIME: u32 = 0x080;

/// The colour.
pub const RGB: u32 = 0x100;

/// The near infrared.
pub const NIR: u32 = 0x200;

/// The wave packet.
pub const WAVEPACKET: u32 = 0x400;

/// The extra bytes.
pub const EXTRA_BYTES: u32 = 0x800;

/// Which fields to spend time on, as a bitmask for
/// [`LazChunkDecoder::decode_selective`](crate::chunk::LazChunkDecoder::decode_selective).
///
/// Only the layered decompressor (LAS point formats 6 and up) can skip work. For
/// the sequential formats the mask is accepted and ignored, because their fields
/// are interleaved in one arithmetic stream and there is nothing to skip.
///
/// The record stride never changes, and an unselected field is not zeroed: its
/// bytes hold whatever the first point of the chunk had. Treat unselected bytes as
/// undefined and do not read them.
pub struct LazField;

impl LazField {
    pub fn all() -> (r: u32)
        ensures
            r == 0xFFFF_FFFF,
    {
        ALL_FIELDS
    }

    /// X, Y, return numbers and the scanner channel. Always decompressed.
    pub fn xy_returns_channel() -> (r: u32)
        ensures
            r == 0,
    {
        XY_RETURNS_CHANNEL
    }

    pub fn z() -> (r: u32)
        ensures
            r == 0x001,
    {
        Z
    }

    pub fn classification() -> (r: u32)
        ensures
            r == 0x002,
    {
        CLASSIFICATION
    }

    pub fn flags() -> (r: u32)
        ensures
            r == 0x004,
    {
        FLAGS
    }

    pub fn intensity() -> (r: u32)
        ensures
            r == 0x008,
    {
        INTENSITY
    }

    pub fn scan_angle() -> (r: u32)
        ensures
            r == 0x010,
    {
        SCAN_ANGLE
    }

    pub fn user_data() -> (r: u32)
        ensures
            r == 0x020,
    {
        USER_DATA
    }

    pub fn point_source_id() -> (r: u32)
        ensures
            r == 0x040,
    {
        POINT_SOURCE_ID
    }

    pub fn gps_time() -> (r: u32)
        ensures
            r == 0x080,
    {
        GPS_TIME
    }

    pub fn rgb() -> (r: u32)
        ensures
            r == 0x100,
    {
        RGB
    }

    pub fn nir() -> (r: u32)
        ensures
            r == 0x200,
    {
        NIR
    }

    pub fn wavepacket() -> (r: u32)
        ensures
            r == 0x400,
    {
        WAVEPACKET
    }

    pub fn extra_bytes() -> (r: u32)
        ensures
            r == 0x800,
    {
        EXTRA_BYTES
    }
}

} // verus!
