//! Header blocks, record directories and the words for errors.
use voxelkloud_wasm_codecs::budget::{check_budget, MAX_DECODED_BYTES};
use voxelkloud_wasm_codecs::bytes::{read_u16, read_u32, read_u64};
use voxelkloud_wasm_codecs::text::{decimal, read_field};
use voxelkloud_wasm_codecs::{read_las_evlrs, read_las_header, Error, Vlr};

fn put(bytes: &mut [u8], at: usize, field: &[u8]) {
    bytes[at..at + field.len()].copy_from_slice(field);
}

fn fixed_bytes(text: &[u8], len: usize) -> Vec<u8> {
    let mut v = text.to_vec();
    v.resize(len, 0);
    v
}

fn vlr(user_id: &[u8], record_id: u16, description: &[u8], data: &[u8]) -> Vec<u8> {
    let mut v = vec![0xAA, 0xBB];
    v.extend_from_slice(&fixed_bytes(user_id, 16));
    v.extend_from_slice(&record_id.to_le_bytes());
    v.extend_from_slice(&(data.len() as u16).to_le_bytes());
    v.extend_from_slice(&fixed_bytes(description, 32));
    v.extend_from_slice(data);
    v
}

fn evlr(user_id: &[u8], record_id: u16, description: &[u8], data: &[u8]) -> Vec<u8> {
    let mut v = vec![0, 0];
    v.extend_from_slice(&fixed_bytes(user_id, 16));
    v.extend_from_slice(&record_id.to_le_bytes());
    v.extend_from_slice(&(data.len() as u64).to_le_bytes());
    v.extend_from_slice(&fixed_bytes(description, 32));
    v.extend_from_slice(data);
    v
}

/// A header block of LAS 1.`minor`, with three VLRs behind it.
fn file(minor: u8) -> Vec<u8> {
    let size: u16 = if minor >= 4 { 375 } else { 227 };
    let mut h = vec![0u8; size as usize];
    put(&mut h, 0, b"LASF");
    put(&mut h, 24, &[1, minor]);
    put(&mut h, 94, &size.to_le_bytes());
    put(&mut h, 96, &4321u32.to_le_bytes());
    put(&mut h, 100, &3u32.to_le_bytes());
    h[104] = 0x87;
    put(&mut h, 105, &36u16.to_le_bytes());
    put(&mut h, 107, &77u32.to_le_bytes());
    for (k, at) in [131, 139, 147, 155, 163, 171, 179, 187, 195, 203, 211, 219].iter().enumerate() {
        put(&mut h, *at, &(k as f64 + 0.5).to_le_bytes());
    }
    if minor >= 4 {
        put(&mut h, 235, &98_765_432_100u64.to_le_bytes());
        put(&mut h, 243, &2u32.to_le_bytes());
        put(&mut h, 247, &5_000_000_000u64.to_le_bytes());
    }
    h.extend_from_slice(&vlr(b"copc", 1, b"COPC info", &[1, 2, 3]));
    h.extend_from_slice(&vlr(b"laszip encoded", 22204, b"laz", &[4, 5]));
    h.extend_from_slice(&vlr(b"copc", 1, b"again", &[]));
    h
}

fn doubles(bits: Vec<u64>) -> Vec<f64> {
    bits.into_iter().map(f64::from_bits).collect()
}

#[test]
fn header_fields_before_las_1_4() {
    let header = read_las_header(&file(2)).unwrap();
    assert_eq!(header.version(), "1.2");
    assert_eq!(header.header_size(), 227);
    assert_eq!(header.offset_to_point_data(), 4321);
    assert_eq!(header.point_format(), 7);
    assert!(header.compressed());
    assert_eq!(header.point_size(), 36);
    assert_eq!(header.point_count(), 77);
    assert_eq!(doubles(header.scale()), vec![0.5, 1.5, 2.5]);
    assert_eq!(doubles(header.offset()), vec![3.5, 4.5, 5.5]);
    assert_eq!(doubles(header.max()), vec![6.5, 8.5, 10.5]);
    assert_eq!(doubles(header.min()), vec![7.5, 9.5, 11.5]);
    assert_eq!(header.evlr_offset(), 0);
    assert_eq!(header.evlr_count(), 0);
    assert_eq!(header.vlr_count(), 3);
    assert!(header.vlrs_complete());
}

#[test]
fn header_fields_of_las_1_4() {
    let header = read_las_header(&file(4)).unwrap();
    assert_eq!(header.version(), "1.4");
    assert_eq!(header.header_size(), 375);
    assert_eq!(header.point_count(), 5_000_000_000);
    assert_eq!(header.evlr_offset(), 98_765_432_100);
    assert_eq!(header.evlr_count(), 2);
}

#[test]
fn evlr_offset_is_zero_when_there_are_none() {
    let mut bytes = file(4);
    put(&mut bytes, 243, &0u32.to_le_bytes());
    let header = read_las_header(&bytes).unwrap();
    assert_eq!((header.evlr_count(), header.evlr_offset()), (0, 0));
}

#[test]
fn an_uncompressed_format_has_no_compression_bit() {
    let mut bytes = file(2);
    bytes[104] = 3;
    let header = read_las_header(&bytes).unwrap();
    assert_eq!(header.point_format(), 3);
    assert!(!header.compressed());
}

#[test]
fn vlrs_come_in_the_order_of_the_directory() {
    let vlrs = read_las_header(&file(2)).unwrap().vlrs();
    assert_eq!(vlrs.len(), 3);
    assert_eq!(vlrs[0].user_id(), "copc");
    assert_eq!(vlrs[0].record_id(), 1);
    assert_eq!(vlrs[0].description(), "COPC info");
    assert!(!vlrs[0].extended());
    assert_eq!(vlrs[0].data(), vec![1, 2, 3]);
    assert_eq!(vlrs[1].user_id(), "laszip encoded");
    assert_eq!(vlrs[1].record_id(), 22204);
    assert_eq!(vlrs[2].description(), "again");
}

#[test]
fn find_vlr_finds_the_first_with_both_ids() {
    let header = read_las_header(&file(2)).unwrap();
    assert_eq!(header.find_vlr("copc", 1).unwrap().description(), "COPC info");
    assert_eq!(header.find_vlr("laszip encoded", 22204).unwrap().data(), vec![4, 5]);
    assert!(header.find_vlr("copc", 2).is_none());
    assert!(header.find_vlr("cop", 1).is_none());
    assert!(header.find_vlr("", 1).is_none());
    assert_eq!(header.laszip_record(), Some(&[4u8, 5][..]));
}

#[test]
fn a_copied_header_is_the_same() {
    let header = read_las_header(&file(4)).unwrap();
    let copy = header.clone();
    assert_eq!(copy.block, header.block);
    assert_eq!(copy.vlrs_complete, header.vlrs_complete);
    assert_eq!(copy.vlrs()[0].data(), header.vlrs()[0].data());
    assert_eq!(copy.vlrs().len(), header.vlrs().len());
}

#[test]
fn every_prefix_of_a_file_agrees_with_it() {
    for minor in [2, 4] {
        let bytes = file(minor);
        let whole = read_las_header(&bytes).unwrap();
        let ends = [whole.header_size() as usize + 57, whole.header_size() as usize + 113, bytes.len()];
        for n in whole.header_size() as usize..=bytes.len() {
            let part = read_las_header(&bytes[..n]).unwrap();
            assert_eq!(part.block, whole.block);
            let reached = ends.iter().filter(|end| **end <= n).count();
            assert_eq!(part.vlrs().len(), reached);
            assert_eq!(part.vlrs_complete(), reached == 3);
            for (a, b) in part.vlrs().iter().zip(whole.vlrs().iter()) {
                assert_eq!(a.user_id(), b.user_id());
                assert_eq!(a.description(), b.description());
                assert_eq!(a.data(), b.data());
            }
        }
    }
}

#[test]
fn a_claim_of_many_vlrs_is_not_believed() {
    let mut bytes = file(2);
    put(&mut bytes, 100, &u32::MAX.to_le_bytes());
    let header = read_las_header(&bytes).unwrap();
    assert_eq!(header.vlr_count(), u32::MAX);
    assert_eq!(header.vlrs().len(), 3);
    assert!(!header.vlrs_complete());
}

#[test]
fn a_header_that_is_cut_short_is_refused() {
    let e = read_las_header(&file(2)[..226]).unwrap_err();
    assert!(matches!(e, Error::HeaderTooShort { needed: 227, held: 226 }));
    assert_eq!(e.message(), "a LAS header takes 227 bytes, but only 226 were given");
    let e = read_las_header(&file(4)[..374]).unwrap_err();
    assert!(matches!(e, Error::HeaderTooShort { needed: 375, held: 374 }));
    assert!(read_las_header(&file(3)[..227]).is_ok());
}

#[test]
fn another_signature_is_refused() {
    for at in 0..4 {
        let mut bytes = file(2);
        bytes[at] ^= 0x20;
        assert!(matches!(read_las_header(&bytes).unwrap_err(), Error::BadSignature));
    }
}

fn ids(vlrs: &[Vlr]) -> Vec<u16> {
    vlrs.iter().map(|v| v.record_id()).collect()
}

#[test]
fn evlrs_are_read_from_the_first_record_on() {
    let mut bytes = evlr(b"copc", 1000, b"EPT hierarchy", &[7; 70_000]);
    bytes.extend_from_slice(&evlr(b"LASF_Projection", 2112, b"", b"WKT"));
    let vlrs = read_las_evlrs(&bytes, 2);
    assert_eq!(ids(&vlrs), vec![1000, 2112]);
    assert!(vlrs[0].extended());
    assert_eq!(vlrs[0].user_id(), "copc");
    assert_eq!(vlrs[0].description(), "EPT hierarchy");
    assert_eq!(vlrs[0].data(), vec![7; 70_000]);
    assert_eq!(vlrs[1].data(), b"WKT");
    assert_eq!(ids(&read_las_evlrs(&bytes, 1)), vec![1000]);
    assert_eq!(ids(&read_las_evlrs(&bytes, 0)), Vec::<u16>::new());
}

#[test]
fn evlrs_that_do_not_fit_are_dropped() {
    let mut bytes = evlr(b"a", 1, b"", &[1]);
    bytes.extend_from_slice(&evlr(b"b", 2, b"", &[2]));
    assert_eq!(ids(&read_las_evlrs(&bytes, 5)), vec![1, 2]);
    assert_eq!(ids(&read_las_evlrs(&bytes[..121], 2)), vec![1]);
    assert_eq!(ids(&read_las_evlrs(&bytes[..61], 2)), vec![1]);
    assert_eq!(ids(&read_las_evlrs(&bytes[..60], 2)), Vec::<u16>::new());
    put(&mut bytes, 20, &u64::MAX.to_le_bytes());
    assert_eq!(ids(&read_las_evlrs(&bytes, 2)), Vec::<u16>::new());
}

#[test]
fn text_fields_end_at_the_first_nul() {
    assert_eq!(read_field(b"ab\0cd", 0, 5), "ab");
    assert_eq!(read_field(b"ab\0cd", 0, 2), "ab");
    assert_eq!(read_field(b"ab\0cd", 2, 5), "");
    assert_eq!(read_field(b"ab\0cd", 3, 5), "cd");
    assert_eq!(read_field("h\u{f6}he".as_bytes(), 0, 5), "h\u{f6}he");
    assert_eq!(read_field(&[0xFF, b'A'], 0, 2), "\u{FFFD}A");
}

#[test]
fn numbers_in_decimal() {
    for n in [0, 1, 9, 10, 99, 100, 1_234_567_890, u64::MAX] {
        assert_eq!(decimal(n), format!("{n}"));
    }
}

#[test]
fn little_endian_integers() {
    let bytes = [0, 1, 2, 3, 4, 5, 6, 7, 0xF8];
    assert_eq!(read_u16(&bytes, 1), 0x0201);
    assert_eq!(read_u32(&bytes, 1), 0x0403_0201);
    assert_eq!(read_u64(&bytes, 1), 0xF807_0605_0403_0201);
}

#[test]
fn the_budget_ends_at_its_ceiling() {
    assert_eq!(MAX_DECODED_BYTES, 1 << 30);
    assert_eq!(check_budget(1 << 20, 1 << 10).unwrap(), 1 << 30);
    assert_eq!(check_budget(0, u64::MAX).unwrap(), 0);
    assert_eq!(check_budget(3, 20).unwrap(), 60);
    let e = check_budget((1 << 30) + 1, 1).unwrap_err();
    assert!(matches!(e, Error::OverBudget { bytes: 0x4000_0001, .. }));
    let e = check_budget(u64::MAX, 3).unwrap_err();
    assert!(matches!(e, Error::OverBudget { bytes: u64::MAX, .. }));
}

#[test]
fn point_formats_end_at_ten() {
    for format in 0..=255u8 {
        let mut bytes = file(2);
        bytes[104] = format;
        match read_las_header(&bytes) {
            Ok(header) => {
                assert!(format % 128 <= 10);
                assert_eq!(header.point_format(), format % 128);
                assert_eq!(header.compressed(), format >= 128);
            }
            Err(e) => {
                assert!(format % 128 > 10);
                assert!(matches!(e, Error::UnknownPointFormat { .. }));
            }
        }
    }
    let mut bytes = file(2);
    bytes[104] = 0x8B;
    let e = read_las_header(&bytes).unwrap_err();
    assert_eq!(e.message(), "LAS has no point format 11, only 0 to 10");
}

#[test]
fn fewer_records_are_the_first_of_more() {
    let mut bytes = Vec::new();
    for id in 1..=5u16 {
        bytes.extend_from_slice(&evlr(b"x", id, b"", &vec![0; id as usize]));
    }
    let all = ids(&read_las_evlrs(&bytes, 9));
    assert_eq!(all, vec![1, 2, 3, 4, 5]);
    for count in 0..=5usize {
        assert_eq!(ids(&read_las_evlrs(&bytes, count as u32)), all[..count]);
    }
}
