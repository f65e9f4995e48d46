use xav::codec::{
    assemble_10bit, assemble_8bit, calc_10bit_size, calc_8bit_size, calc_packed_size,
    conv_to_10bit, copy_plane_8to10, copy_plane_rows, pack_10bit, pack_4_pix_10bit, unpack_10bit,
    unpack_4_pix_10bit,
};
use xav::video::VidInf;

fn inf(width: u32, height: u32) -> VidInf {
    VidInf {
        width,
        height,
        fps_num: 24000,
        fps_den: 1001,
        frames: 300,
        color_primaries: None,
        transfer_characteristics: None,
        matrix_coefficients: None,
        is_10bit: false,
        color_range: None,
        chroma_sample_position: None,
        mastering_display: None,
        content_light: None,
    }
}

#[test]
fn sizes_for_1080p() {
    let v = inf(1920, 1080);
    assert_eq!(calc_8bit_size(&v), 1920 * 1080 * 3 / 2);
    assert_eq!(calc_10bit_size(&v), 1920 * 1080 * 3);
    assert_eq!(calc_packed_size(&v), (1920 * 1080 * 3 / 2) * 5 / 4);
}

#[test]
fn pack_group_known_values() {
    // samples 1, 2, 3, 4 as little-endian 16-bit words
    let input: [u8; 8] = [1, 0, 2, 0, 3, 0, 4, 0];
    let mut out = [0u8; 5];
    pack_4_pix_10bit(input, &mut out);
    // p0=1 p1=2 p2=3 p3=4 per the packing rule
    assert_eq!(out[0], 1);
    assert_eq!(out[1], 2 << 2);
    assert_eq!(out[2], (2 >> 6) | (3 << 4));
    assert_eq!(out[3], (3 >> 4) | (4 << 6));
    assert_eq!(out[4], 4 >> 2);
}

#[test]
fn group_round_trip_all_high_bits() {
    // 10-bit maxima: 0x3FF stored as [0xFF, 0x03]
    let input: [u8; 8] = [0xFF, 0x03, 0x00, 0x00, 0xAA, 0x02, 0x34, 0x01];
    let mut packed = [0u8; 5];
    pack_4_pix_10bit(input, &mut packed);
    let mut back = [0u8; 8];
    unpack_4_pix_10bit(packed, &mut back);
    assert_eq!(back, input);
}

#[test]
fn buffer_round_trip_on_aligned_frame() {
    // two complete 4-sample groups of 10-bit data
    let mut frame: Vec<u8> = Vec::new();
    for i in 0..8u16 {
        let sample = (i * 131) % 1024;
        frame.extend_from_slice(&sample.to_le_bytes());
    }
    let mut packed = vec![0u8; 10];
    pack_10bit(&frame, &mut packed);
    let mut back = vec![0u8; 16];
    unpack_10bit(&packed, &mut back);
    assert_eq!(back, frame);
}

#[test]
fn pack_pads_trailing_group_with_zeros() {
    // 6 samples: one complete group and a partial one
    let mut frame: Vec<u8> = Vec::new();
    for i in 0..6u16 {
        frame.extend_from_slice(&(100 + i).to_le_bytes());
    }
    let mut packed = vec![0u8; 10];
    pack_10bit(&frame, &mut packed);
    let mut back = vec![0u8; 16];
    unpack_10bit(&packed, &mut back);
    assert_eq!(&back[..12], &frame[..]);
    // the padded samples come back as zeros
    assert_eq!(&back[12..], &[0, 0, 0, 0]);
}

#[test]
fn widening_is_times_four() {
    let input: Vec<u8> = vec![0, 1, 7, 63, 64, 255];
    let mut out = vec![0u8; 12];
    conv_to_10bit(&input, &mut out);
    for (i, &b) in input.iter().enumerate() {
        let word = u16::from_le_bytes([out[2 * i], out[2 * i + 1]]);
        assert_eq!(word, (b as u16) * 4);
    }
}

#[test]
fn plane_copy_honours_stride() {
    // 2 rows of 3 bytes inside rows of stride 5
    let src = vec![1, 2, 3, 91, 92, 4, 5, 6, 93, 94];
    let mut out = vec![0u8; 8];
    let pos = copy_plane_rows(&src, 5, 3, 2, &mut out, 1);
    assert_eq!(pos, 7);
    assert_eq!(out, vec![0, 1, 2, 3, 4, 5, 6, 0]);
}

#[test]
fn widen_copy_honours_stride() {
    let src = vec![10, 20, 99, 30, 40, 98];
    let mut out = vec![0u8; 8];
    let pos = copy_plane_8to10(&src, 3, 2, 2, &mut out, 0);
    assert_eq!(pos, 8);
    assert_eq!(u16::from_le_bytes([out[0], out[1]]), 40);
    assert_eq!(u16::from_le_bytes([out[2], out[3]]), 80);
    assert_eq!(u16::from_le_bytes([out[4], out[5]]), 120);
    assert_eq!(u16::from_le_bytes([out[6], out[7]]), 160);
}

#[test]
fn assemble_8bit_concatenates_planes() {
    // 2x2 luma, 1x1 chroma planes, all with stride 4
    let y = vec![1, 2, 0, 0, 3, 4, 0, 0];
    let u = vec![5, 0, 0, 0];
    let v = vec![6, 0, 0, 0];
    let mut out = vec![0u8; 6];
    let pos = assemble_8bit(&y, 4, &u, 4, &v, 4, 2, 2, &mut out);
    assert_eq!(pos, 6);
    assert_eq!(out, vec![1, 2, 3, 4, 5, 6]);
}

#[test]
fn assemble_10bit_widens_8bit_source() {
    let y = vec![1, 2, 3, 4];
    let u = vec![5];
    let v = vec![6];
    let mut out = vec![0u8; 12];
    let pos = assemble_10bit(&y, 2, &u, 1, &v, 1, 2, 2, false, &mut out);
    assert_eq!(pos, 12);
    let words: Vec<u16> = out.chunks(2).map(|c| u16::from_le_bytes([c[0], c[1]])).collect();
    assert_eq!(words, vec![4, 8, 12, 16, 20, 24]);
}

#[test]
fn streamed_bytes_equal_unpack_of_pack_for_every_frame() {
    // a 10-frame chunk of 10-bit data: what the worker streams to the
    // encoder child is the unpacking of what the decoder packed
    let samples_per_frame = 16usize;
    for frame_no in 0..10u16 {
        let mut original = Vec::new();
        for s in 0..samples_per_frame as u16 {
            original.extend_from_slice(&((frame_no * 37 + s * 11) % 1024).to_le_bytes());
        }
        let mut packed = vec![0u8; samples_per_frame * 5 / 4];
        pack_10bit(&original, &mut packed);
        let mut streamed = vec![0u8; samples_per_frame * 2];
        unpack_10bit(&packed, &mut streamed);
        assert_eq!(streamed, original);
    }
}

#[test]
fn packed_bytes_survive_unpack_then_pack() {
    let packed: [u8; 5] = [0x12, 0xA5, 0x3C, 0x7F, 0xE9];
    let mut samples = [0u8; 8];
    unpack_4_pix_10bit(packed, &mut samples);
    let mut back = [0u8; 5];
    pack_4_pix_10bit(samples, &mut back);
    assert_eq!(back, packed);
}
