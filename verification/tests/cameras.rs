use nect_rs::cameras::{
    convert_bayer_to_rgb, convert_packed11_to_16bit, convert_packed_to_16bit, convert_packed_to_8bit,
    convert_uyvy_to_rgb, unpack_8_pixels,
};

#[test]
fn cameras_test_unpack_8_pixels() {
    let raw: [u8; 11] = [0; 11];
    let mut frame = [0u16; 8];
    unpack_8_pixels(&raw, &mut frame);
    assert_eq!(frame[0], 0);
}

#[test]
fn test_convert_packed11_to_16bit() {
    // 8 pixels packed into 11 bytes, all zeros
    let raw = vec![0u8; 11];
    let mut frame = vec![0u16; 8];
    convert_packed11_to_16bit(&raw, &mut frame, 8);
    assert!(frame.iter().all(|&v| v == 0));
}

#[test]
fn test_convert_packed_to_16bit_10bit() {
    // 3 elements x 10 bits = 30 bits, so 4 bytes are required.
    let src = vec![0xFF; 4];
    let mut dest = vec![0u16; 3];
    convert_packed_to_16bit(&src, &mut dest, 10, 3);
    assert!(dest.iter().all(|&v| v < 1024));
}

#[test]
fn test_convert_uyvy_to_rgb() {
    let raw = vec![128, 255, 128, 255]; // U=128, Y1=255, V=128, Y2=255 (white)
    let mut rgb = vec![0u8; 6];
    convert_uyvy_to_rgb(&raw, &mut rgb, 2, 1);
    assert_eq!(rgb[0], 255);
    assert_eq!(rgb[1], 255);
    assert_eq!(rgb[2], 255);
    assert_eq!(rgb[3], 255);
    assert_eq!(rgb[4], 255);
    assert_eq!(rgb[5], 255);
}

#[test]
fn unpack_8_pixels_reads_eleven_bit_fields() {
    // The values 0..8 in 11-bit fields, most significant bit first.
    let mut bits: Vec<bool> = Vec::new();
    for v in 0u16..8 {
        for b in (0..11).rev() {
            bits.push((v >> b) & 1 == 1);
        }
    }
    let mut raw = [0u8; 11];
    for (i, bit) in bits.iter().enumerate() {
        if *bit {
            raw[i / 8] |= 0x80 >> (i % 8);
        }
    }
    let mut frame = [0u16; 8];
    unpack_8_pixels(&raw, &mut frame);
    assert_eq!(frame, [0, 1, 2, 3, 4, 5, 6, 7]);
}

#[test]
fn packed11_matches_unpack_8_pixels_per_block() {
    let raw: Vec<u8> = (0..22u32).map(|i| (i * 37 + 11) as u8).collect();
    let mut frame = vec![0u16; 16];
    convert_packed11_to_16bit(&raw, &mut frame, 16);
    let mut first = [0u16; 8];
    let mut second = [0u16; 8];
    unpack_8_pixels(&raw[0..11], &mut first);
    unpack_8_pixels(&raw[11..22], &mut second);
    assert_eq!(&frame[0..8], &first);
    assert_eq!(&frame[8..16], &second);
}

#[test]
fn packed_to_16bit_exact_values() {
    // 0x3FF, 0x001 and 0x200 in 10-bit fields
    let src = [0xFF, 0xC0, 0x18, 0x00];
    let mut dest = vec![0u16; 3];
    convert_packed_to_16bit(&src, &mut dest, 10, 3);
    assert_eq!(dest, vec![0x3FF, 0x001, 0x200]);
}

#[test]
fn packed_to_8bit_keeps_top_bits() {
    let src = [0xFF, 0xC0, 0x18, 0x00];
    let mut dest = vec![0u8; 3];
    convert_packed_to_8bit(&src, &mut dest, 10, 3);
    assert_eq!(dest, vec![0xFF, 0x00, 0x80]);
}

#[test]
fn packed_conversions_leave_the_rest_alone() {
    let src = [0u8; 4];
    let mut dest = vec![9u16; 5];
    convert_packed_to_16bit(&src, &mut dest, 10, 3);
    assert_eq!(dest, vec![0, 0, 0, 9, 9]);
}

#[test]
fn bayer_uniform_frame_is_gray() {
    let raw = vec![100u8; 16];
    let mut rgb = vec![0u8; 48];
    convert_bayer_to_rgb(&raw, &mut rgb, 4, 4);
    assert!(rgb.iter().all(|&v| v == 100));
}

#[test]
fn bayer_green_site_takes_neighbours() {
    // 2x2 Bayer tile: G R / B G
    let raw = vec![10u8, 200, 50, 30];
    let mut rgb = vec![0u8; 12];
    convert_bayer_to_rgb(&raw, &mut rgb, 2, 2);
    // Pixel (0,0) is green; red from its horizontal neighbours, blue from
    // the mirrored rows above and below.
    assert_eq!(rgb[1], 10);
    assert_eq!(rgb[0], 200);
    assert_eq!(rgb[2], 50);
}

#[test]
fn uyvy_black_and_clamping() {
    // Y = 16 with neutral chroma is black; Y = 0 clamps at 0.
    let raw = vec![128, 16, 128, 0];
    let mut rgb = vec![7u8; 6];
    convert_uyvy_to_rgb(&raw, &mut rgb, 2, 1);
    assert_eq!(rgb, vec![0, 0, 0, 0, 0, 0]);
}

#[test]
fn packed11_agrees_with_general_unpacking() {
    let raw: Vec<u8> = (0..44u32).map(|i| (i * 97 + 5) as u8).collect();
    let mut dedicated = vec![0u16; 32];
    convert_packed11_to_16bit(&raw, &mut dedicated, 32);
    let mut general = vec![0u16; 32];
    convert_packed_to_16bit(&raw, &mut general, 11, 32);
    assert_eq!(dedicated, general);
}
