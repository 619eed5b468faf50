//! Byte-level checks of the produced container: record lengths partition
//! the file, payloads sit where the location table points, optional
//! records appear exactly when configured, and the writer emits the
//! documented encodings.

use avif_serialize::Aviffy;
use avif_serialize::boxes::IspeBox;
use avif_serialize::boxes::MpegBox;
use avif_serialize::constants::MatrixCoefficients;
use avif_serialize::serialize_to_vec;
use avif_serialize::writer::Writer;

fn be32_at(bytes: &[u8], pos: usize) -> u32 {
    ((bytes[pos] as u32) << 24)
        | ((bytes[pos + 1] as u32) << 16)
        | ((bytes[pos + 2] as u32) << 8)
        | (bytes[pos + 3] as u32)
}

fn find_tag(bytes: &[u8], tag: &[u8; 4]) -> Option<usize> {
    (0..bytes.len().saturating_sub(3)).find(|&i| &bytes[i..i + 4] == tag)
}

#[test]
fn deterministic_output() {
    let color = [9u8, 8, 7, 6, 5];
    let alpha = [1u8, 2];
    let first = serialize_to_vec(&color, Some(&alpha), 3, 4, 10);
    let second = serialize_to_vec(&color, Some(&alpha), 3, 4, 10);
    assert_eq!(first, second);
    let third = Aviffy::new().to_vec(&color, Some(&alpha), 3, 4, 10);
    assert_eq!(first, third);
}

#[test]
fn record_lengths_partition_file() {
    let color = b"0123456789";
    let avif = serialize_to_vec(color, None, 10, 20, 8);

    // File-type record: 24 bytes, declared first.
    assert_eq!(be32_at(&avif, 0), 24);
    assert_eq!(&avif[4..8], b"ftyp");
    assert_eq!(&avif[8..12], b"avif");

    // Metadata record fills the rest of the header.
    let meta_len = be32_at(&avif, 24) as usize;
    assert_eq!(&avif[28..32], b"meta");
    assert_eq!(meta_len, 210);

    // Raw-data record covers everything to the end of the file.
    let mdat_pos = 24 + meta_len;
    let mdat_len = be32_at(&avif, mdat_pos) as usize;
    assert_eq!(&avif[mdat_pos + 4..mdat_pos + 8], b"mdat");
    assert_eq!(mdat_len, 8 + color.len());
    assert_eq!(avif.len(), mdat_pos + mdat_len);
    assert_eq!(avif.len(), 252);
}

#[test]
fn payload_at_declared_offset() {
    let color = b"0123456789";
    let avif = serialize_to_vec(color, None, 10, 20, 8);
    assert_eq!(&avif[242..252], color);
}

#[test]
fn alpha_payload_before_color() {
    let color = [1u8, 2, 3, 4, 5, 6];
    let alpha = [77u8, 88, 99];
    let avif = serialize_to_vec(&color, Some(&alpha), 10, 20, 8);
    assert_eq!(avif.len(), 384 + 8 + alpha.len() + color.len());
    // Raw-data region: alpha bytes immediately before color bytes.
    assert_eq!(&avif[392..395], &alpha);
    assert_eq!(&avif[395..401], &color);
}

#[test]
fn color_info_record_iff_nondefault() {
    let color = [0u8; 16];

    let plain = serialize_to_vec(&color, None, 4, 4, 8);
    assert_eq!(find_tag(&plain, b"colr"), None);

    // Setting a characteristic to its default value changes nothing.
    let still_default = Aviffy::new()
        .matrix_coefficients(MatrixCoefficients::Bt601)
        .to_vec(&color, None, 4, 4, 8);
    assert_eq!(find_tag(&still_default, b"colr"), None);
    assert_eq!(plain, still_default);

    let overridden = Aviffy::new()
        .matrix_coefficients(MatrixCoefficients::Bt709)
        .to_vec(&color, None, 4, 4, 8);
    let colr_pos = find_tag(&overridden, b"colr").unwrap();
    assert_eq!(&overridden[colr_pos + 4..colr_pos + 8], b"nclx");
    // Color record: 19 bytes, and the file grows by it plus one
    // association index.
    assert_eq!(be32_at(&overridden, colr_pos - 4), 19);
    assert_eq!(overridden.len(), plain.len() + 20);
}

#[test]
fn codec_config_depth_bytes() {
    for (depth, profile_level, flags) in [
        (8u8, 0x3fu8, 0x00u8),
        (10, 0x3f, 0x40),
        (12, 0x5f, 0x60),
    ] {
        let avif = serialize_to_vec(&[0u8; 8], None, 2, 2, depth);
        let pos = find_tag(&avif, b"av1C").unwrap();
        // Marker and version, then profile and level, then the flag byte.
        assert_eq!(avif[pos + 4], 0x81);
        assert_eq!(avif[pos + 5], profile_level);
        assert_eq!(avif[pos + 6], flags);
        assert_eq!(avif[pos + 7], 0);
    }
}

#[test]
fn alpha_codec_config_is_monochrome() {
    let avif = serialize_to_vec(&[0u8; 4], Some(&[0u8; 2]), 2, 2, 8);
    let first = find_tag(&avif, b"av1C").unwrap();
    let second = first + 4 + find_tag(&avif[first + 4..], b"av1C").unwrap();
    // Monochrome flag and both chroma-subsampling flags set for alpha.
    assert_eq!(avif[second + 5], 0x1f);
    assert_eq!(avif[second + 6], 0x1c);
}

#[test]
fn premultiplied_only_toggles_edge() {
    let color = [10u8, 20, 30];
    let alpha = [40u8, 50];
    let plain = serialize_to_vec(&color, Some(&alpha), 2, 2, 8);
    let prem = Aviffy::new()
        .premultiplied_alpha(true)
        .to_vec(&color, Some(&alpha), 2, 2, 8);

    assert_eq!(find_tag(&plain, b"prem"), None);
    assert!(find_tag(&prem, b"prem").is_some());
    // The premultiplication edge adds 14 bytes of metadata and leaves the
    // payload bytes untouched.
    assert_eq!(prem.len(), plain.len() + 14);
    assert_eq!(&plain[plain.len() - 5..], &prem[prem.len() - 5..]);
    assert_eq!(&plain[plain.len() - 5..plain.len() - 3], &alpha);
    assert_eq!(&plain[plain.len() - 3..], &color);
}

#[test]
fn auxiliary_reference_present_only_with_alpha() {
    let without = serialize_to_vec(&[0u8; 4], None, 2, 2, 8);
    assert_eq!(find_tag(&without, b"iref"), None);
    assert_eq!(find_tag(&without, b"auxl"), None);

    let with = serialize_to_vec(&[0u8; 4], Some(&[0u8; 2]), 2, 2, 8);
    let iref_pos = find_tag(&with, b"iref").unwrap();
    let auxl_pos = find_tag(&with, b"auxl").unwrap();
    assert!(auxl_pos > iref_pos);
    // One edge: from the alpha item (2) to the color item (1), count 1.
    assert_eq!(&with[auxl_pos + 4..auxl_pos + 10], &[0, 2, 0, 1, 0, 1]);
}

#[test]
fn empty_payload_keeps_structure() {
    let avif = serialize_to_vec(&[], None, 0, 0, 8);
    assert_eq!(avif.len(), 242);
    assert_eq!(be32_at(&avif, 234), 8);
    assert_eq!(&avif[238..242], b"mdat");
}

#[test]
fn profile_floor_and_subsampling_flags() {
    // Profile floor lowered to 0: level bits alone remain.
    let low = Aviffy::new()
        .set_seq_profile(0)
        .to_vec(&[0u8; 4], None, 2, 2, 8);
    let pos = find_tag(&low, b"av1C").unwrap();
    assert_eq!(low[pos + 5], 0x1f);

    // Declared chroma subsampling sets the two subsampling flag bits.
    let sub = Aviffy::new()
        .set_chroma_subsampling((true, true))
        .to_vec(&[0u8; 4], None, 2, 2, 8);
    let pos = find_tag(&sub, b"av1C").unwrap();
    assert_eq!(sub[pos + 6], 0x0c);
}

#[test]
fn full_range_flag_packed_in_top_bit() {
    let limited = Aviffy::new()
        .full_color_range(false)
        .to_vec(&[0u8; 4], None, 2, 2, 8);
    let pos = find_tag(&limited, b"colr").unwrap();
    // 4-byte flavor tag, three 2-byte code points, then the range byte.
    assert_eq!(limited[pos + 14], 0x00);

    // Full range is the default, so forcing it back on keeps the record
    // out of the file.
    let full = Aviffy::new()
        .full_color_range(true)
        .to_vec(&[0u8; 4], None, 2, 2, 8);
    assert_eq!(find_tag(&full, b"colr"), None);
}

#[test]
fn writer_encodes_big_endian() {
    let mut w = Writer::new();
    w.push(&[0xaa, 0xbb]);
    w.u8(0x01);
    w.u16(0x0203);
    w.u32(0x0405_0607);
    w.u64(0x0809_0a0b_0c0d_0e0f);
    assert_eq!(
        w.into_inner(),
        vec![
            0xaa, 0xbb, 0x01, 0x02, 0x03, 0x04, 0x05, 0x06, 0x07, 0x08, 0x09, 0x0a, 0x0b, 0x0c,
            0x0d, 0x0e, 0x0f,
        ],
    );
}

#[test]
fn record_emits_declared_length() {
    let ispe = IspeBox { width: 0x01020304, height: 5 };
    assert_eq!(ispe.len(), 20);
    let mut w = Writer::new();
    ispe.write(&mut w);
    let bytes = w.into_inner();
    assert_eq!(bytes.len(), 20);
    assert_eq!(
        bytes,
        vec![0, 0, 0, 20, 0x69, 0x73, 0x70, 0x65, 0, 0, 0, 0, 1, 2, 3, 4, 0, 0, 0, 5],
    );
}
