//! Chunks and whole files, compressed here with `laz` and decoded again.
use std::io::{Cursor, Seek, SeekFrom};

use laz::las::selective::DecompressionSelection as Bits;
use laz::las::{Point0, Point3, Point8};
use laz::{LasZipCompressor, LazItemRecordBuilder, LazVlrBuilder};
use voxelkloud_wasm_codecs::chunk::{finish_chunk, record_decompressor};
use voxelkloud_wasm_codecs::file::{decode_points, finish_file};
use voxelkloud_wasm_codecs::laszip::{LazItem, RecordLayout};
use voxelkloud_wasm_codecs::soundness::{
    check_laz_file, check_points, check_record_size, try_decode_laz_file,
};
use voxelkloud_wasm_codecs::{decode_laz_file, read_las_header, Error, LazChunkDecoder, LazField};

/// Enough points for several chunks.
const POINT_COUNT: u32 = 512;
/// 512 points land in four chunks.
const CHUNK_SIZE: u32 = 128;

/// Point format and number of extra bytes.
const SPECS: [(u8, u16); 8] =
    [(0, 0), (1, 0), (2, 0), (3, 0), (3, 4), (6, 0), (7, 0), (8, 3)];

fn point_size(spec: (u8, u16)) -> u16 {
    let base: u16 = match spec.0 {
        0 => 20,
        1 => 28,
        2 => 26,
        3 => 34,
        6 => 30,
        7 => 36,
        8 => 38,
        other => panic!("no fixture for point format {other}"),
    };
    base + spec.1
}

fn xyz(i: u32) -> (i32, i32, i32) {
    let i = i as i32;
    (100_000 + i * 37 + (i % 7) * 3, 200_000 + i * 53 - (i % 11) * 5, 5_000 + (i % 97) * 11)
}

fn point_records(spec: (u8, u16)) -> Vec<u8> {
    let (format, extra) = spec;
    let mut out: Vec<u8> = Vec::new();
    for i in 0..POINT_COUNT {
        let (x, y, z) = xyz(i);
        out.extend_from_slice(&x.to_le_bytes());
        out.extend_from_slice(&y.to_le_bytes());
        out.extend_from_slice(&z.to_le_bytes());
        out.extend_from_slice(&((i * 7 % 65536) as u16).to_le_bytes());
        let return_number = (i % 5) + 1;
        if format < 6 {
            let edge = if i % 13 == 0 { 1 << 7 } else { 0 };
            out.push((return_number | (5 << 3) | ((i % 2) << 6) | edge) as u8);
            out.push((i % 32) as u8);
            out.push(((i % 181) as i32 - 90) as i8 as u8);
            out.push((i % 256) as u8);
            out.extend_from_slice(&((i % 1000) as u16).to_le_bytes());
        } else {
            out.push((return_number | (5 << 4)) as u8);
            out.push(((i % 16) | ((i % 4) << 4) | ((i % 2) << 6)) as u8);
            out.push((i % 256) as u8);
            out.push((i % 251) as u8);
            out.extend_from_slice(&(((i as i32 % 60_001) - 30_000) as i16).to_le_bytes());
            out.extend_from_slice(&((i % 1000) as u16).to_le_bytes());
        }
        if matches!(format, 1 | 3 | 6 | 7 | 8) {
            out.extend_from_slice(&(1_000.0 + f64::from(i) * 0.001).to_le_bytes());
        }
        if matches!(format, 2 | 3 | 7 | 8) {
            out.extend_from_slice(&((i * 13 % 65536) as u16).to_le_bytes());
            out.extend_from_slice(&((i * 29 % 65536) as u16).to_le_bytes());
            out.extend_from_slice(&((i * 41 % 65536) as u16).to_le_bytes());
        }
        if format == 8 {
            out.extend_from_slice(&((i * 17 % 65536) as u16).to_le_bytes());
        }
        for b in 0..u32::from(extra) {
            out.push(((i + b) % 251) as u8);
        }
    }
    assert_eq!(out.len(), POINT_COUNT as usize * point_size(spec) as usize);
    out
}

fn put(bytes: &mut [u8], at: usize, field: &[u8]) {
    bytes[at..at + field.len()].copy_from_slice(field);
}

fn fixed_bytes(text: &str, len: usize) -> Vec<u8> {
    let mut v = text.as_bytes().to_vec();
    v.resize(len, 0);
    v
}

fn las_header(spec: (u8, u16), laszip_record: Option<&[u8]>) -> Vec<u8> {
    let v14 = spec.0 >= 6;
    let size: u16 = if v14 { 375 } else { 227 };
    let vlr_bytes = laszip_record.map_or(0, |r| 54 + r.len());
    let mut h = vec![0u8; size as usize];
    put(&mut h, 0, b"LASF");
    put(&mut h, 24, &[1, if v14 { 4 } else { 2 }]);
    put(&mut h, 94, &size.to_le_bytes());
    put(&mut h, 96, &(u32::from(size) + vlr_bytes as u32).to_le_bytes());
    put(&mut h, 100, &u32::from(laszip_record.is_some()).to_le_bytes());
    h[104] = spec.0 | if laszip_record.is_some() { 0x80 } else { 0 };
    put(&mut h, 105, &point_size(spec).to_le_bytes());
    let legacy_count = if v14 { 0 } else { POINT_COUNT };
    put(&mut h, 107, &legacy_count.to_le_bytes());
    if v14 {
        put(&mut h, 247, &u64::from(POINT_COUNT).to_le_bytes());
    }
    if let Some(record) = laszip_record {
        h.extend_from_slice(&0u16.to_le_bytes());
        h.extend_from_slice(&fixed_bytes("laszip encoded", 16));
        h.extend_from_slice(&22204u16.to_le_bytes());
        h.extend_from_slice(&(record.len() as u16).to_le_bytes());
        h.extend_from_slice(&fixed_bytes("laz-rs", 32));
        h.extend_from_slice(record);
    }
    h
}

fn laz_items(spec: (u8, u16)) -> Vec<laz::LazItem> {
    LazItemRecordBuilder::default_for_point_format_id(spec.0, spec.1).unwrap()
}

/// The VLR payload of a chunk with these items, and the chunk.
fn bare_chunk_of(items: Vec<laz::LazItem>, points: &[u8]) -> (Vec<u8>, Vec<u8>) {
    let vlr = LazVlrBuilder::new(items).with_variable_chunk_size().build();
    let mut record = Vec::new();
    vlr.write_to(&mut record).unwrap();
    let mut compressor = LasZipCompressor::new(Cursor::new(Vec::new()), vlr).unwrap();
    compressor.compress_many(points).unwrap();
    compressor.done().unwrap();
    let bytes = compressor.into_inner().into_inner();
    let table_at = i64::from_le_bytes(bytes[..8].try_into().unwrap()) as usize;
    (record, bytes[8..table_at].to_vec())
}

fn bare_chunk(spec: (u8, u16), points: &[u8]) -> (Vec<u8>, Vec<u8>) {
    bare_chunk_of(laz_items(spec), points)
}

fn las_file(spec: (u8, u16)) -> Vec<u8> {
    let mut las = las_header(spec, None);
    las.extend_from_slice(&point_records(spec));
    las
}

fn laz_file(spec: (u8, u16), variable: bool) -> Vec<u8> {
    let builder = LazVlrBuilder::new(laz_items(spec));
    let vlr = if variable {
        builder.with_variable_chunk_size().build()
    } else {
        builder.with_fixed_chunk_size(CHUNK_SIZE).build()
    };
    let mut record = Vec::new();
    vlr.write_to(&mut record).unwrap();
    let mut cursor = Cursor::new(las_header(spec, Some(&record)));
    cursor.seek(SeekFrom::End(0)).unwrap();
    let mut compressor = LasZipCompressor::new(cursor, vlr).unwrap();
    let points = point_records(spec);
    if variable {
        let half = points.len() / 2;
        compressor.compress_many(&points[..half]).unwrap();
        compressor.finish_current_chunk().unwrap();
        compressor.compress_many(&points[half..]).unwrap();
    } else {
        compressor.compress_many(&points).unwrap();
    }
    compressor.done().unwrap();
    compressor.into_inner().into_inner()
}

/// A laszip VLR payload with these items: type code, size, version.
fn vlr_record(compressor: u16, chunk_size: u32, items: &[(u16, u16, u16)]) -> Vec<u8> {
    let mut r = vec![0u8; 32];
    put(&mut r, 0, &compressor.to_le_bytes());
    put(&mut r, 12, &chunk_size.to_le_bytes());
    r.extend_from_slice(&(items.len() as u16).to_le_bytes());
    for (item_type, size, version) in items {
        r.extend_from_slice(&item_type.to_le_bytes());
        r.extend_from_slice(&size.to_le_bytes());
        r.extend_from_slice(&version.to_le_bytes());
    }
    r
}

fn decoder(record: &[u8]) -> LazChunkDecoder {
    assert!(check_record_size(record));
    match LazChunkDecoder::new(record) {
        Ok(decoder) => decoder,
        Err(e) => panic!("{}", e.message()),
    }
}

fn new_error(record: &[u8]) -> Error {
    assert!(check_record_size(record));
    match LazChunkDecoder::new(record) {
        Ok(_) => panic!("a decoder was built"),
        Err(e) => e,
    }
}

fn file_points(file: &[u8]) -> Vec<u8> {
    assert!(check_laz_file(file));
    match decode_laz_file(file) {
        Ok(decoded) => decoded.points(),
        Err(e) => panic!("{}", e.message()),
    }
}

fn file_error(file: &[u8]) -> Error {
    assert!(check_laz_file(file));
    match decode_laz_file(file) {
        Ok(_) => panic!("the file was decoded"),
        Err(e) => e,
    }
}

#[test]
fn chunks_give_back_the_points() {
    for spec in SPECS {
        let points = point_records(spec);
        let (record, chunk) = bare_chunk(spec, &points);
        assert_ne!(chunk, points);
        let decoder = decoder(&record);
        assert_eq!(decoder.point_size(), u32::from(point_size(spec)));
        assert_eq!(decoder.decode(&chunk, POINT_COUNT).unwrap(), points);
    }
}

#[test]
fn chunks_of_every_item_version_give_back_the_points() {
    let versions = [
        (LazItemRecordBuilder::version_1_of::<Point0>(0), (0, 0)),
        (LazItemRecordBuilder::version_2_of::<Point3>(4), (3, 4)),
        (LazItemRecordBuilder::version_3_of::<Point8>(3), (8, 3)),
        (LazItemRecordBuilder::version_4_of::<Point8>(3), (8, 3)),
    ];
    for (items, spec) in versions {
        let points = point_records(spec);
        let (record, chunk) = bare_chunk_of(items, &points);
        assert_eq!(decoder(&record).decode(&chunk, POINT_COUNT).unwrap(), points);
    }
}

#[test]
fn a_decoder_is_reused_in_any_order() {
    let spec = (7, 0);
    let points = point_records(spec);
    let half = points.len() / 2;
    let (record, first) = bare_chunk(spec, &points[..half]);
    let (_, second) = bare_chunk(spec, &points[half..]);
    let decoder = decoder(&record);
    for _ in 0..2 {
        assert_eq!(decoder.decode(&second, POINT_COUNT / 2).unwrap(), &points[half..]);
        assert_eq!(decoder.decode(&first, POINT_COUNT / 2).unwrap(), &points[..half]);
    }
}

#[test]
fn fewer_points_than_the_chunk_holds() {
    let spec = (3, 4);
    let points = point_records(spec);
    let (record, chunk) = bare_chunk(spec, &points);
    let some = decoder(&record).decode(&chunk, 10).unwrap();
    assert_eq!(some, &points[..10 * point_size(spec) as usize]);
}

#[test]
fn the_first_point_is_stored_as_it_is() {
    for spec in SPECS {
        let points = point_records(spec);
        let (_, chunk) = bare_chunk(spec, &points);
        let size = point_size(spec) as usize;
        assert_eq!(chunk[..size], points[..size]);
    }
}

#[test]
fn no_points_from_any_chunk() {
    let (record, chunk) = bare_chunk((6, 0), &point_records((6, 0)));
    let decoder = decoder(&record);
    assert_eq!(decoder.decode(&chunk, 0).unwrap(), Vec::<u8>::new());
    assert_eq!(decoder.decode(&[1, 2, 3], 0).unwrap(), Vec::<u8>::new());
    assert_eq!(decoder.decode_selective(&[], 0, LazField::z()).unwrap(), Vec::<u8>::new());
}

#[test]
fn sequential_chunks_ignore_the_selection() {
    for spec in [(0, 0), (3, 4)] {
        let points = point_records(spec);
        let (record, chunk) = bare_chunk(spec, &points);
        let decoder = decoder(&record);
        for selection in [0, LazField::z(), LazField::rgb(), LazField::all()] {
            assert_eq!(decoder.decode_selective(&chunk, POINT_COUNT, selection).unwrap(), points);
        }
    }
}

/// The selection bit of byte `j` of a record of point format 8.
fn bit_of(j: usize) -> u32 {
    match j {
        8..=11 => LazField::z(),
        12..=13 => LazField::intensity(),
        15 => LazField::flags(),
        16 => LazField::classification(),
        17 => LazField::user_data(),
        18..=19 => LazField::scan_angle(),
        20..=21 => LazField::point_source_id(),
        22..=29 => LazField::gps_time(),
        30..=35 => LazField::rgb(),
        36..=37 => LazField::nir(),
        38..=40 => LazField::extra_bytes(),
        _ => 0,
    }
}

#[test]
fn unselected_fields_repeat_the_first_point() {
    let spec = (8, 3);
    let size = point_size(spec) as usize;
    let points = point_records(spec);
    for items in [
        LazItemRecordBuilder::version_3_of::<Point8>(3),
        LazItemRecordBuilder::version_4_of::<Point8>(3),
    ] {
        let (record, chunk) = bare_chunk_of(items, &points);
        let decoder = decoder(&record);
        for selection in [
            LazField::xy_returns_channel(),
            LazField::z(),
            LazField::flags(),
            LazField::classification() | LazField::gps_time(),
            LazField::intensity() | LazField::rgb(),
            LazField::nir() | LazField::extra_bytes(),
            LazField::scan_angle() | LazField::user_data() | LazField::point_source_id(),
            !LazField::z(),
            !LazField::flags(),
            LazField::wavepacket(),
        ] {
            let out = decoder.decode_selective(&chunk, POINT_COUNT, selection).unwrap();
            assert_eq!(out.len(), points.len());
            for (p, byte) in out.iter().enumerate() {
                let bit = bit_of(p % size);
                let mask: u8 = if bit == 0 || selection & bit != 0 {
                    0
                } else if bit == LazField::flags() {
                    0xCF
                } else {
                    0xFF
                };
                let expected = (points[p] & !mask) | (points[p % size] & mask);
                assert_eq!(*byte, expected);
            }
        }
    }
}

#[test]
fn all_fields_are_what_decode_selects() {
    let (record, chunk) = bare_chunk((7, 0), &point_records((7, 0)));
    let decoder = decoder(&record);
    assert_eq!(
        decoder.decode(&chunk, POINT_COUNT).unwrap(),
        decoder.decode_selective(&chunk, POINT_COUNT, LazField::all()).unwrap()
    );
}

#[test]
fn a_selection_can_decode_more_than_all_fields_can() {
    let spec = (6, 0);
    let points = point_records(spec);
    let (record, chunk) = bare_chunk(spec, &points);
    let decoder = decoder(&record);
    let cut = &chunk[..chunk.len() - 1];
    assert!(decoder.decode(cut, POINT_COUNT).is_err());
    let xy = decoder.decode_selective(cut, POINT_COUNT, 0).unwrap();
    assert_eq!(xy[30..38], points[30..38]);
}

#[test]
fn selection_bits_are_those_of_laz() {
    assert_eq!(LazField::all(), Bits::ALL);
    assert_eq!(LazField::xy_returns_channel(), Bits::XY_RETURNS_CHANNEL);
    assert_eq!(LazField::z(), Bits::Z);
    assert_eq!(LazField::classification(), Bits::CLASSIFICATION);
    assert_eq!(LazField::flags(), Bits::FLAGS);
    assert_eq!(LazField::intensity(), Bits::INTENSITY);
    assert_eq!(LazField::scan_angle(), Bits::SCAN_ANGLE);
    assert_eq!(LazField::user_data(), Bits::USER_DATA);
    assert_eq!(LazField::point_source_id(), Bits::POINT_SOURCE_ID);
    assert_eq!(LazField::gps_time(), Bits::GPS_TIME);
    assert_eq!(LazField::rgb(), Bits::RGB);
    assert_eq!(LazField::nir(), Bits::NIR);
    assert_eq!(LazField::wavepacket(), Bits::WAVEPACKET);
    assert_eq!(LazField::extra_bytes(), Bits::ALL_EXTRA_BYTES);
}

#[test]
fn chunk_size_is_zero_for_variable_chunks() {
    assert_eq!(decoder(&vlr_record(2, 128, &[(6, 20, 2)])).chunk_size(), 128);
    assert_eq!(decoder(&vlr_record(2, u32::MAX, &[(6, 20, 2)])).chunk_size(), 0);
    assert_eq!(decoder(&vlr_record(2, 0, &[(6, 20, 2)])).chunk_size(), 0);
    assert_eq!(decoder(&vlr_record(2, u32::MAX - 1, &[(6, 20, 2)])).chunk_size(), u32::MAX - 1);
}

#[test]
fn point_size_adds_up_the_items() {
    let record = vlr_record(2, 128, &[(6, 20, 2), (7, 8, 2), (8, 6, 2), (0, 65501, 2)]);
    assert_eq!(decoder(&record).point_size(), 65535);
}

#[test]
fn a_vlr_that_is_cut_short_is_refused() {
    let record = vlr_record(2, 128, &[(6, 20, 2)]);
    for len in 0..record.len() {
        let e = new_error(&record[..len]);
        assert!(matches!(e, Error::Laz { .. }));
        assert_eq!(e.message(), "IoError: failed to fill whole buffer");
    }
}

#[test]
fn a_vlr_with_an_unknown_compressor_is_refused() {
    let e = new_error(&vlr_record(4, 128, &[(6, 20, 2)]));
    assert_eq!(e.message(), "Compressor type 4 is not valid");
    let e = new_error(&[0xFF, 0xFF]);
    assert_eq!(e.message(), "Compressor type 65535 is not valid");
}

#[test]
fn a_vlr_with_an_unknown_item_is_refused() {
    let record = vlr_record(2, 128, &[(6, 20, 2), (5, 1, 2), (99, 1, 2)]);
    assert_eq!(new_error(&record).message(), "Item with type code: 5 is unknown");
    let cut = &record[..34 + 6 + 4];
    assert_eq!(new_error(cut).message(), "Item with type code: 5 is unknown");
    let e = new_error(&vlr_record(2, 128, &[(15, 1, 2)]));
    assert_eq!(e.message(), "Item with type code: 15 is unknown");
}

#[test]
fn a_vlr_without_point_bytes_is_refused() {
    let text = "laszip VLR describes a zero-byte point record, so a point count means nothing";
    for record in [vlr_record(2, 128, &[]), vlr_record(2, 128, &[(0, 0, 2)])] {
        let e = new_error(&record);
        assert!(matches!(e, Error::EmptyPointRecord));
        assert_eq!(e.message(), text);
    }
}

#[test]
fn record_sizes_past_sixteen_bits_are_told_beforehand() {
    assert!(!check_record_size(&vlr_record(2, 128, &[(0, 40000, 2), (0, 25536, 2)])));
    assert!(check_record_size(&vlr_record(2, 128, &[(0, 40000, 2), (0, 25535, 2)])));
    assert!(check_record_size(&[]));
}

#[test]
fn the_first_item_decides_the_layout() {
    let item = |item_type: u16, version: u16| LazItem { item_type, size: 20, version };
    let sequential = record_decompressor(&vec![item(6, 1)]).unwrap();
    assert_eq!(sequential, RecordLayout::Sequential);
    let sequential = record_decompressor(&vec![item(6, 2), item(7, 1), item(0, 2)]).unwrap();
    assert_eq!(sequential, RecordLayout::Sequential);
    assert_eq!(record_decompressor(&vec![item(10, 3)]).unwrap(), RecordLayout::Layered);
    let layered = record_decompressor(&vec![item(10, 4), item(11, 3), item(14, 4)]).unwrap();
    assert_eq!(layered, RecordLayout::Layered);
    let e = record_decompressor(&vec![]).unwrap_err();
    assert!(matches!(e, Error::NoItems));
    assert_eq!(e.message(), "laszip VLR describes no items");
    let e = record_decompressor(&vec![item(6, 5), item(6, 1)]).unwrap_err();
    assert_eq!(e.message(), "unsupported laszip item version 5 for item type Point10");
}

#[test]
fn an_item_that_the_record_decompressor_does_not_take_is_refused() {
    let item = |item_type: u16, version: u16| LazItem { item_type, size: 20, version };
    let cases = [
        (vec![item(6, 2), item(10, 2)], "Item Point14 with compression version: 2 is not supported"),
        (vec![item(6, 2), item(6, 9)], "Item Point10 with compression version: 9 is not supported"),
        (vec![item(6, 3)], "Item Point10 with compression version: 3 is not supported"),
        (vec![item(10, 4), item(6, 1)], "Item Point10 with compression version: 1 is not supported"),
    ];
    for (items, text) in cases {
        let e = record_decompressor(&items).unwrap_err();
        assert!(matches!(e, Error::Laz { .. }));
        assert_eq!(e.message(), text);
    }
}

#[test]
fn an_unsupported_item_version_is_refused_at_decoding() {
    let names = [
        (0, "Byte(7)"),
        (6, "Point10"),
        (7, "GpsTime"),
        (8, "RGB12"),
        (9, "WavePacket13"),
        (10, "Point14"),
        (11, "RGB14"),
        (12, "RGBNIR14"),
        (13, "WavePacket14"),
        (14, "Byte14(7)"),
    ];
    for (item_type, name) in names {
        let decoder = decoder(&vlr_record(2, 128, &[(item_type, 7, 0)]));
        let e = decoder.decode(&[0; 64], 1).unwrap_err();
        assert!(matches!(e, Error::UnsupportedItemVersion { .. }));
        let expected = format!("unsupported laszip item version 0 for item type {name}");
        assert_eq!(e.message(), expected);
    }
}

#[test]
fn an_item_of_the_other_layout_is_refused_at_decoding() {
    let cases = [
        (vec![(6, 20, 2), (10, 30, 2)], "Item Point14 with compression version: 2 is not supported"),
        (vec![(6, 20, 2), (7, 8, 3)], "Item GpsTime with compression version: 3 is not supported"),
        (vec![(10, 30, 3), (0, 4, 3)], "Item Byte(4) with compression version: 3 is not supported"),
        (vec![(10, 30, 4), (14, 4, 2)], "Item Byte14(4) with compression version: 2 is not supported"),
    ];
    for (items, text) in cases {
        let e = decoder(&vlr_record(2, 128, &items)).decode(&[0; 64], 1).unwrap_err();
        assert!(matches!(e, Error::Laz { .. }));
        assert_eq!(e.message(), text);
    }
}

#[test]
fn a_chunk_that_is_cut_short_is_an_error() {
    let spec = (0, 0);
    let (record, chunk) = bare_chunk(spec, &point_records(spec));
    let e = decoder(&record).decode(&chunk[..10], 3).unwrap_err();
    assert!(matches!(e, Error::Chunk { chunk_len: 10, point_count: 3, .. }));
    assert_eq!(
        e.message(),
        "failed to decode a 10-byte chunk of 3 points: failed to fill whole buffer"
    );
}

#[test]
fn a_chunk_over_the_budget_is_refused() {
    let decoder = decoder(&vlr_record(2, 128, &[(6, 20, 2)]));
    let e = decoder.decode(&[], 53_687_092).unwrap_err();
    assert_eq!(
        e.message(),
        "refusing to decode 53687092 points of 20 bytes: 1073741840 bytes is over the \
         1073741824-byte ceiling for one call. Decode node by node instead of whole-file."
    );
    let e = decoder.decode_selective(&[], u32::MAX, 0).unwrap_err();
    assert!(matches!(e, Error::OverBudget { .. }));
}

#[test]
fn the_end_of_a_decompression_is_what_a_decode_gives_back() {
    let text = || String::from("why");
    let e = finish_chunk(Err(text()), 5, 2).unwrap_err();
    assert_eq!(e.message(), "failed to decode a 5-byte chunk of 2 points: why");
    assert_eq!(finish_chunk(Ok(vec![1, 2]), 5, 2).unwrap(), vec![1, 2]);
    let e = finish_file(Err(text()), 2, 5).unwrap_err();
    assert_eq!(e.message(), "failed to decode 2 points from a 5-byte LAZ file: why");
    assert_eq!(finish_file(Ok(vec![1, 2]), 2, 5).unwrap(), vec![1, 2]);
}

#[test]
fn bytes_that_no_whole_record_takes_up_are_zero() {
    let spec = (6, 0);
    let points = point_records(spec);
    let (_, chunk) = bare_chunk(spec, &points);
    let decoder = decoder(&vlr_record(3, u32::MAX, &[(10, 29, 3)]));
    assert_eq!(decoder.decode(&chunk, 1).unwrap(), vec![0; 29]);
    assert_eq!(decoder.decode(&[], 1).unwrap(), vec![0; 29]);
    let two = decoder.decode(&chunk, 2).unwrap();
    assert_eq!(two[..30], points[..30]);
    assert_eq!(two[30..], [0; 28]);
}

#[test]
fn the_first_record_is_the_same_under_every_selection() {
    let spec = (8, 3);
    let size = point_size(spec) as usize;
    let points = point_records(spec);
    let (record, chunk) = bare_chunk(spec, &points);
    let decoder = decoder(&record);
    for selection in [0, LazField::z(), LazField::rgb(), LazField::all()] {
        let out = decoder.decode_selective(&chunk, 5, selection).unwrap();
        assert_eq!(out[..size], points[..size]);
    }
}

#[test]
fn an_empty_chunk_is_an_error() {
    let decoder = decoder(&vlr_record(2, 128, &[(6, 20, 2)]));
    assert!(decoder.check_chunk(&[], 1, LazField::all()));
    assert!(matches!(decoder.decode(&[], 1).unwrap_err(), Error::Chunk { .. }));
}

#[test]
fn a_sequential_stream_that_begins_with_ones_is_told_beforehand() {
    let decoder = decoder(&vlr_record(2, 128, &[(0, 8, 2)]));
    let mut chunk = vec![0xFF; 64];
    put(&mut chunk, 0, &[1, 2, 3, 4, 5, 6, 7, 8]);
    assert!(!decoder.check_chunk(&chunk, 2, LazField::all()));
    assert!(decoder.check_chunk(&chunk, 1, LazField::all()));
    assert_eq!(decoder.decode(&chunk, 1).unwrap(), &chunk[..8]);
    assert!(decoder.check_chunk(&chunk[..11], 2, LazField::all()));
    assert!(decoder.decode(&chunk[..11], 2).is_err());
    chunk[11] = 0xFE;
    assert!(decoder.check_chunk(&chunk, 2, LazField::all()));
}

#[test]
fn a_layered_stream_that_begins_with_ones_is_told_beforehand() {
    let spec = (6, 0);
    let points = point_records(spec);
    let (record, good) = bare_chunk(spec, &points);
    let decoder = decoder(&record);
    assert!(decoder.check_chunk(&good, POINT_COUNT, LazField::all()));
    let table = 30 + 4;
    let first = table + 4 * 9;
    let xy_size = u32::from_le_bytes(good[table..table + 4].try_into().unwrap()) as usize;

    let mut chunk = good.clone();
    put(&mut chunk, first, &[0xFF; 4]);
    assert!(!decoder.check_chunk(&chunk, POINT_COUNT, 0));
    assert!(decoder.check_chunk(&chunk, 1, 0));

    let mut chunk = good.clone();
    put(&mut chunk, first + xy_size, &[0xFF; 4]);
    assert!(!decoder.check_chunk(&chunk, POINT_COUNT, LazField::all()));
    assert!(!decoder.check_chunk(&chunk, POINT_COUNT, LazField::z()));
    assert!(decoder.check_chunk(&chunk, POINT_COUNT, LazField::rgb()));
    let out = decoder.decode_selective(&chunk, POINT_COUNT, LazField::rgb()).unwrap();
    assert_eq!(out[30..38], points[30..38]);
}

#[test]
fn every_layer_of_every_item_is_looked_at() {
    let spec = (8, 3);
    let points = point_records(spec);
    let (record, good) = bare_chunk(spec, &points);
    let decoder = decoder(&record);
    let table = 41 + 4;
    let bits = [
        0,
        LazField::z(),
        LazField::classification(),
        LazField::flags(),
        LazField::intensity(),
        LazField::scan_angle(),
        LazField::user_data(),
        LazField::point_source_id(),
        LazField::gps_time(),
        LazField::rgb(),
        LazField::nir(),
        LazField::extra_bytes(),
        LazField::extra_bytes(),
        LazField::extra_bytes(),
    ];
    let mut start = table + 4 * bits.len();
    for (i, bit) in bits.iter().enumerate() {
        let at = table + 4 * i;
        let size = u32::from_le_bytes(good[at..at + 4].try_into().unwrap()) as usize;
        assert!(size >= 4);
        let mut chunk = good.clone();
        put(&mut chunk, start, &[0xFF; 4]);
        assert!(!decoder.check_chunk(&chunk, POINT_COUNT, *bit));
        if *bit != 0 {
            assert!(decoder.check_chunk(&chunk, POINT_COUNT, !*bit));
        }
        start += size;
    }
    assert_eq!(start, good.len());
}

#[test]
fn laz_files_give_back_the_points_of_las_files() {
    for spec in SPECS {
        let points = point_records(spec);
        let las = las_file(spec);
        assert_eq!(file_points(&las), points);
        for variable in [false, true] {
            let laz = laz_file(spec, variable);
            assert!(laz.len() < las.len());
            let decoded = match try_decode_laz_file(&laz) {
                Some(Ok(decoded)) => decoded,
                _ => panic!("the file was not decoded"),
            };
            assert_eq!(decoded.points(), points);
            assert_eq!(decoded.point_count(), u64::from(POINT_COUNT));
            assert_eq!(decoded.point_size(), point_size(spec));
            assert_eq!(decoded.header().point_format(), spec.0);
            assert!(decoded.header().compressed());
            assert_eq!(decoded.header().vlrs().len(), 1);
        }
    }
}

#[test]
fn the_chunk_of_a_file_decodes_on_its_own() {
    let spec = (7, 0);
    let laz = laz_file(spec, false);
    let header = read_las_header(&laz).unwrap();
    let record = header.find_vlr("laszip encoded", 22204).unwrap().data();
    let decoder = decoder(&record);
    assert_eq!(decoder.chunk_size(), CHUNK_SIZE);
    let chunk = &laz[header.offset_to_point_data() as usize + 8..];
    let size = point_size(spec) as usize;
    assert_eq!(
        decoder.decode(chunk, CHUNK_SIZE).unwrap(),
        &point_records(spec)[..CHUNK_SIZE as usize * size]
    );
}

#[test]
fn a_las_file_passes_through_with_more_behind_it() {
    let mut las = las_file((2, 0));
    las.extend_from_slice(&[9; 100]);
    assert_eq!(file_points(&las), point_records((2, 0)));
}

#[test]
fn a_las_file_passes_through_whatever_its_vlrs_hold() {
    let mut las = las_file((2, 0));
    put(&mut las, 100, &u32::MAX.to_le_bytes());
    let decoded = decode_laz_file(&las).unwrap();
    assert!(!decoded.header().vlrs_complete());
    assert_eq!(decoded.points(), point_records((2, 0)));
}

#[test]
fn points_are_decoded_with_a_header_that_was_read_before() {
    let laz = laz_file((3, 0), false);
    let header = read_las_header(&laz).unwrap();
    assert!(check_points(&header, &laz));
    assert_eq!(decode_points(header, &laz).unwrap().points(), point_records((3, 0)));
}

#[test]
fn a_las_file_that_ends_before_its_points_do_is_refused() {
    let las = las_file((0, 0));
    let e = file_error(&las[..las.len() - 1]);
    assert!(matches!(e, Error::MissingPointData { .. }));
    assert_eq!(
        e.message(),
        "LAS file declares 512 points of 20 bytes but holds only 10239 after its header"
    );
}

#[test]
fn point_data_past_the_end_is_refused() {
    let mut las = las_file((0, 0));
    put(&mut las, 96, &1_000_000u32.to_le_bytes());
    let e = file_error(&las);
    assert!(matches!(e, Error::PointDataPastEnd { .. }));
    assert_eq!(
        e.message(),
        "LAS header points at byte 1000000 for its point data, past the 10467 bytes given"
    );
}

#[test]
fn a_file_over_the_budget_is_refused() {
    let mut laz = laz_file((6, 0), false);
    put(&mut laz, 247, &u64::MAX.to_le_bytes());
    let e = file_error(&laz);
    assert!(matches!(e, Error::OverBudget { .. }));
    assert_eq!(
        e.message(),
        "refusing to decode 18446744073709551615 points of 30 bytes: 18446744073709551615 bytes \
         is over the 1073741824-byte ceiling for one call. Decode node by node instead of \
         whole-file."
    );
}

#[test]
fn a_laz_file_that_ends_in_its_directory_is_refused() {
    let mut laz = laz_file((0, 0), false);
    put(&mut laz, 100, &2u32.to_le_bytes());
    laz.truncate(227 + 54 + 40);
    put(&mut laz, 96, &227u32.to_le_bytes());
    let e = file_error(&laz);
    assert!(matches!(e, Error::TruncatedVlrs));
    assert_eq!(e.message(), "LAZ file is truncated before the end of its VLR directory");
}

#[test]
fn a_laz_file_without_its_vlr_is_refused() {
    let mut laz = laz_file((0, 0), false);
    laz[227 + 2] = b'L';
    let e = file_error(&laz);
    assert!(matches!(e, Error::NoLaszipVlr));
    assert_eq!(e.message(), "LAZ file has no laszip VLR (user id 'laszip encoded')");
}

#[test]
fn a_laz_file_with_a_broken_vlr_is_refused() {
    let mut laz = laz_file((0, 0), false);
    put(&mut laz, 227 + 54, &7u16.to_le_bytes());
    assert_eq!(file_error(&laz).message(), "Compressor type 7 is not valid");
    put(&mut laz, 227 + 54, &0u16.to_le_bytes());
    assert_eq!(file_error(&laz).message(), "Compressor type None is not supported");
}

#[test]
fn a_laz_file_with_an_unsupported_item_is_refused() {
    for compressor in [1u16, 2] {
        let mut laz = laz_file((0, 0), false);
        put(&mut laz, 227 + 54, &compressor.to_le_bytes());
        put(&mut laz, 227 + 54 + 38, &9u16.to_le_bytes());
        assert_eq!(
            file_error(&laz).message(),
            "Item Point10 with compression version: 9 is not supported"
        );
    }
}

#[test]
fn a_laz_file_without_its_chunk_table_offset_is_refused() {
    let laz = laz_file((0, 0), false);
    let start = read_las_header(&laz).unwrap().offset_to_point_data() as usize;
    let e = file_error(&laz[..start]);
    assert!(matches!(e, Error::Laz { .. }));
    assert_eq!(e.message(), "IoError: failed to fill whole buffer");
}

#[test]
fn a_laz_file_with_too_few_points_is_an_error() {
    let mut laz = laz_file((0, 0), false);
    put(&mut laz, 107, &600u32.to_le_bytes());
    let len = laz.len();
    let e = file_error(&laz);
    assert!(matches!(e, Error::File { point_count: 600, .. }));
    assert_eq!(
        e.message(),
        format!("failed to decode 600 points from a {len}-byte LAZ file: failed to fill whole buffer")
    );
}

#[test]
fn a_laz_file_of_no_points() {
    let mut laz = laz_file((0, 0), false);
    put(&mut laz, 107, &0u32.to_le_bytes());
    assert_eq!(file_points(&laz), Vec::<u8>::new());
}

#[test]
fn a_file_that_is_no_las_file_is_refused() {
    assert_eq!(
        file_error(&[]).message(),
        "a LAS header takes 227 bytes, but only 0 were given"
    );
    let mut las = las_file((0, 0));
    las[3] = b'f';
    assert_eq!(file_error(&las).message(), "not a LAS file: the signature is not 'LASF'");
}

/// A compressed file with this VLR payload.
fn file_with(record: &[u8]) -> Vec<u8> {
    let mut file = las_header((0, 0), Some(record));
    let table = file.len() as u64 + 64;
    file.extend_from_slice(&table.to_le_bytes());
    file.extend_from_slice(&[0; 64]);
    file
}

#[test]
fn files_that_laz_cannot_run_with_are_told_beforehand() {
    for record in [
        vlr_record(2, 128, &[]),
        vlr_record(2, 128, &[(0, 0, 2)]),
        vlr_record(1, u32::MAX, &[(6, 20, 2)]),
        vlr_record(2, 128, &[(6, 19, 2)]),
        vlr_record(3, 128, &[(10, 29, 3)]),
        vlr_record(2, 128, &[(0, 40000, 2), (0, 40000, 2)]),
    ] {
        let file = file_with(&record);
        assert!(!check_laz_file(&file));
        assert!(try_decode_laz_file(&file).is_none());
        let header = read_las_header(&file).unwrap();
        assert!(!check_points(&header, &file));
    }
    for record in [
        vlr_record(0, 128, &[]),
        vlr_record(1, 128, &[(6, 20, 2)]),
        vlr_record(2, 128, &[(6, 19, 9)]),
        vlr_record(1, u32::MAX, &[(6, 20, 2), (10, 30, 2)]),
        vlr_record(2, 128, &[(0, 40000, 2), (0, 40000, 3)]),
        vlr_record(9, 128, &[]),
    ] {
        assert!(check_laz_file(&file_with(&record)));
    }
}

/// A compressed file of one point whose chunk table counts no chunks.
fn file_without_chunks() -> Vec<u8> {
    let mut file = las_header((0, 0), Some(&vlr_record(2, u32::MAX, &[(6, 20, 2)])));
    put(&mut file, 107, &1u32.to_le_bytes());
    file.extend_from_slice(&353u64.to_le_bytes());
    file.extend_from_slice(&[0; 24]);
    file.extend_from_slice(&[0; 8]);
    file
}

#[test]
fn a_chunk_table_without_chunks_is_told_beforehand() {
    let file = file_without_chunks();
    assert_eq!(file.len(), 361);
    assert!(!check_laz_file(&file));
    assert!(try_decode_laz_file(&file).is_none());
}

#[test]
fn a_chunk_table_with_too_few_points_is_told_beforehand() {
    let mut laz = laz_file((0, 0), true);
    assert!(check_laz_file(&laz));
    put(&mut laz, 107, &513u32.to_le_bytes());
    laz.extend_from_slice(&[0; 100]);
    assert!(!check_laz_file(&laz));
    put(&mut laz, 107, &512u32.to_le_bytes());
    assert_eq!(file_points(&laz), point_records((0, 0)));
}

#[test]
fn a_chunk_table_that_begins_with_ones_is_told_beforehand() {
    let mut laz = laz_file((0, 0), false);
    let start = read_las_header(&laz).unwrap().offset_to_point_data() as usize;
    let table = u64::from_le_bytes(laz[start..start + 8].try_into().unwrap()) as usize;
    put(&mut laz, table + 8, &[0xFF; 4]);
    assert!(!check_laz_file(&laz));
    put(&mut laz, table + 4, &[0; 4]);
    assert_eq!(file_points(&laz), point_records((0, 0)));
}

#[test]
fn a_chunk_table_offset_at_the_end_of_the_file_is_found() {
    let mut laz = laz_file((0, 0), false);
    let start = read_las_header(&laz).unwrap().offset_to_point_data() as usize;
    let table = laz[start..start + 8].to_vec();
    put(&mut laz, start, &(-1i64).to_le_bytes());
    laz.extend_from_slice(&table);
    assert_eq!(file_points(&laz), point_records((0, 0)));
    let at = u64::from_le_bytes(table.try_into().unwrap()) as usize;
    put(&mut laz, at + 8, &[0xFF; 4]);
    assert!(!check_laz_file(&laz));
}

#[test]
fn a_later_chunk_that_begins_with_ones_is_told_beforehand() {
    for spec in [(0, 0), (6, 0)] {
        let points = point_records(spec);
        let size = point_size(spec) as usize;
        let (_, first) = bare_chunk(spec, &points[..CHUNK_SIZE as usize * size]);
        let laz = laz_file(spec, false);
        let start = read_las_header(&laz).unwrap().offset_to_point_data() as usize;
        let second = start + 8 + first.len();
        assert_eq!(laz[second..second + size], points[CHUNK_SIZE as usize * size..][..size]);
        let word = if spec.0 < 6 { second + size } else { second + size + 4 + 4 * 9 };
        let mut bad = laz.clone();
        put(&mut bad, word, &[0xFF; 4]);
        assert!(!check_laz_file(&bad));
        put(&mut bad, if spec.0 < 6 { 107 } else { 247 }, &CHUNK_SIZE.to_le_bytes());
        assert!(check_laz_file(&bad));
        assert_eq!(file_points(&bad), points[..CHUNK_SIZE as usize * size]);
    }
}

#[test]
fn a_stream_that_cannot_be_opened_is_an_error_whatever_its_vlr_says() {
    for record in [
        vlr_record(2, 128, &[(6, 19, 2)]),
        vlr_record(2, 128, &[]),
        vlr_record(3, u32::MAX, &[(0, 40000, 2), (0, 40000, 2)]),
    ] {
        let file = las_header((0, 0), Some(&record));
        let e = file_error(&file);
        assert!(matches!(e, Error::Laz { .. }));
        assert_eq!(e.message(), "IoError: failed to fill whole buffer");
    }
}

#[test]
fn a_stream_without_chunks_gives_back_the_points() {
    let spec = (0, 0);
    let points = point_records(spec);
    let (_, chunk) = bare_chunk(spec, &points);
    let mut file = las_header(spec, Some(&vlr_record(1, 128, &[(6, 20, 2)])));
    file.extend_from_slice(&chunk);
    assert_eq!(file_points(&file), points);
    let mut file = las_header(spec, Some(&vlr_record(1, u32::MAX, &[(6, 20, 2)])));
    assert!(matches!(file_error(&file), Error::File { .. }));
    file.extend_from_slice(&chunk);
    assert!(!check_laz_file(&file));
}

#[test]
fn one_sequential_record_needs_the_beginning_of_its_stream() {
    let decoder = decoder(&vlr_record(2, 128, &[(6, 20, 2)]));
    let chunk: Vec<u8> = (0..24).collect();
    assert_eq!(decoder.decode(&chunk, 1).unwrap(), &chunk[..20]);
    for len in 0..24 {
        assert!(matches!(decoder.decode(&chunk[..len], 1).unwrap_err(), Error::Chunk { .. }));
    }
}

#[test]
fn one_layered_record_needs_the_selected_layers() {
    let spec = (6, 0);
    let points = point_records(spec);
    let (record, chunk) = bare_chunk(spec, &points);
    let decoder = decoder(&record);
    let table = 30 + 4;
    let size = |i: usize| {
        let at = table + 4 * i;
        u32::from_le_bytes(chunk[at..at + 4].try_into().unwrap()) as usize
    };
    let z_ends = table + 4 * 9 + size(0) + size(1);
    let given = decoder.decode_selective(&chunk[..z_ends], 1, LazField::z()).unwrap();
    assert_eq!(given, &points[..30]);
    assert!(decoder.decode_selective(&chunk[..z_ends - 1], 1, LazField::z()).is_err());
    assert!(decoder.decode_selective(&chunk[..z_ends - 1], 1, 0).is_ok());
    assert!(decoder.decode(&chunk[..z_ends], 1).is_err());
    let mut empty = chunk[..30].to_vec();
    empty.extend_from_slice(&[0; 4 + 4 * 9]);
    assert_eq!(decoder.decode(&empty, 1).unwrap(), &points[..30]);
    assert!(decoder.decode(&empty[..empty.len() - 1], 1).is_err());
}

#[test]
fn bytes_behind_a_chunk_make_no_difference() {
    for spec in SPECS {
        let points = point_records(spec);
        let (record, mut chunk) = bare_chunk(spec, &points);
        chunk.extend_from_slice(&[0xA5; 40]);
        assert_eq!(decoder(&record).decode(&chunk, POINT_COUNT).unwrap(), points);
    }
}

#[test]
fn the_one_chunk_of_a_file_decodes_to_the_points_of_the_file() {
    for spec in SPECS {
        let points = point_records(spec);
        let (record, chunk) = bare_chunk(spec, &points);
        let mut cursor = Cursor::new(las_header(spec, Some(&record)));
        cursor.seek(SeekFrom::End(0)).unwrap();
        let vlr = laz::LazVlr::from_buffer(&record).unwrap();
        let mut compressor = LasZipCompressor::new(cursor, vlr).unwrap();
        compressor.compress_many(&points).unwrap();
        compressor.done().unwrap();
        let file = compressor.into_inner().into_inner();

        let decoded = decode_laz_file(&file).unwrap();
        let header = decoded.header();
        let start = header.offset_to_point_data() as usize;
        let table = i64::from_le_bytes(file[start..start + 8].try_into().unwrap()) as usize;
        assert_eq!(&file[start + 8..table], chunk);
        let record = header.find_vlr("laszip encoded", 22204).unwrap().data();
        let alone = decoder(&record);
        for to in [table, table + 1, file.len()] {
            let given = alone.decode(&file[start + 8..to], POINT_COUNT).unwrap();
            assert_eq!(given, decoded.points());
        }
    }
}

#[test]
fn the_points_of_a_file_are_those_of_its_chunks() {
    let spec = (7, 0);
    let points = point_records(spec);
    let part = CHUNK_SIZE as usize * point_size(spec) as usize;
    let laz = laz_file(spec, false);
    let mut at = read_las_header(&laz).unwrap().offset_to_point_data() as usize + 8;
    let mut given = Vec::new();
    for k in 0..4 {
        let (record, chunk) = bare_chunk(spec, &points[k * part..(k + 1) * part]);
        given.extend(decoder(&record).decode(&laz[at..], CHUNK_SIZE).unwrap());
        at += chunk.len();
    }
    assert_eq!(given, file_points(&laz));
}

#[test]
fn bytes_of_a_file_that_no_whole_record_takes_up_are_zero() {
    let mut laz = laz_file((0, 0), false);
    put(&mut laz, 107, &3u32.to_le_bytes());
    put(&mut laz, 105, &21u16.to_le_bytes());
    let given = file_points(&laz);
    assert_eq!(given[..60], point_records((0, 0))[..60]);
    assert_eq!(given[60..], [0; 3]);
}
