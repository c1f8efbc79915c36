use nect_rs::cameras::unpack_8_pixels;
use nect_rs::registration::{
    create_dxdy_tables, dxdy_tables_fit, registration_table_from_offsets, RegInfo, RegPadInfo, Registration, DEPTH_MAX_METRIC_VALUE,
    DEPTH_MAX_RAW_VALUE, DEPTH_NO_RAW_VALUE, DEPTH_PACKED_BYTES, DEPTH_PIXELS, DEPTH_X_RES, DEPTH_Y_RES,
};

fn zero_reg_info() -> RegInfo {
    RegInfo {
        dx_center: 0,
        ax: 0,
        bx: 0,
        cx: 0,
        dx: 0,
        dx_start: 0,
        ay: 0,
        by: 0,
        cy: 0,
        dy: 0,
        dy_start: 0,
        dx_beta_start: 0,
        dy_beta_start: 0,
        rollout_blank: 0,
        rollout_size: 0,
        dx_beta_inc: 0,
        dy_beta_inc: 0,
        dxdx_start: 0,
        dxdy_start: 0,
        dydx_start: 0,
        dydy_start: 0,
        dxdxdx_start: 0,
        dydxdx_start: 0,
        dxdxdy_start: 0,
        dydxdy_start: 0,
        back_comp1: 0,
        dydydx_start: 0,
        back_comp2: 0,
        dydydy_start: 0,
    }
}

fn identity_registration() -> Registration {
    // Raw value r is r millimetres; no shift; every pixel stays in place.
    let raw_to_mm: Vec<u16> = (0..DEPTH_MAX_RAW_VALUE as u32).map(|r| r as u16).collect();
    let depth_to_rgb = vec![0i32; DEPTH_MAX_METRIC_VALUE];
    let mut table = vec![[0i32; 2]; DEPTH_PIXELS];
    for y in 0..DEPTH_Y_RES {
        for x in 0..DEPTH_X_RES {
            table[y * DEPTH_X_RES + x] = [(x as i32) * 256, y as i32];
        }
    }
    Registration::from_tables(
        zero_reg_info(),
        RegPadInfo { start_lines: 0, end_lines: 0, cropping_lines: 0 },
        raw_to_mm,
        depth_to_rgb,
        table,
    )
    .unwrap()
}

#[test]
fn registration_test_unpack_8_pixels() {
    // 11 bytes that encode 8 values: 0, 1, 2, 3, 4, 5, 6, 7
    let raw: [u8; 11] = [0x00, 0x00, 0x08, 0x00, 0x00, 0x20, 0x00, 0x00, 0x01, 0x00, 0x00];
    let mut frame = [0u16; 8];
    unpack_8_pixels(&raw, &mut frame);
    assert!(frame.iter().all(|&v| v < 2048));
}

#[test]
fn from_tables_checks_sizes_and_clears_no_value() {
    let reg = identity_registration();
    assert_eq!(reg.raw_to_mm_shift.len(), DEPTH_MAX_RAW_VALUE);
    assert_eq!(reg.raw_to_mm_shift[DEPTH_NO_RAW_VALUE as usize], 0);
    assert_eq!(reg.raw_to_mm_shift[500], 500);
    let short = Registration::from_tables(
        zero_reg_info(),
        RegPadInfo { start_lines: 0, end_lines: 0, cropping_lines: 0 },
        vec![0u16; 10],
        vec![0i32; DEPTH_MAX_METRIC_VALUE],
        vec![[0i32; 2]; DEPTH_PIXELS],
    );
    assert!(short.is_none());
}

#[test]
fn unpacked_to_mm_reads_the_table() {
    let reg = identity_registration();
    let mut input = vec![0u16; DEPTH_PIXELS];
    input[0] = 500;
    input[1] = DEPTH_NO_RAW_VALUE;
    input[2] = 2046;
    let mut output = vec![7u16; DEPTH_PIXELS];
    reg.apply_depth_unpacked_to_mm(&input, &mut output);
    assert_eq!(output[0], 500);
    assert_eq!(output[1], 0);
    assert_eq!(output[2], 2046);
    assert_eq!(output[3], 0);
}

#[test]
fn packed_and_unpacked_paths_agree() {
    let reg = identity_registration();
    let packed: Vec<u8> = (0..DEPTH_PACKED_BYTES as u32).map(|i| (i * 131 + 7) as u8).collect();
    let mut from_packed = vec![0u16; DEPTH_PIXELS];
    reg.apply_depth_to_mm(&packed, &mut from_packed);
    let mut unpacked = vec![0u16; DEPTH_PIXELS];
    nect_rs::cameras::convert_packed11_to_16bit(&packed, &mut unpacked, DEPTH_PIXELS);
    let mut from_unpacked = vec![0u16; DEPTH_PIXELS];
    reg.apply_depth_unpacked_to_mm(&unpacked, &mut from_unpacked);
    assert_eq!(from_packed, from_unpacked);
}

#[test]
fn identity_registration_keeps_pixels_in_place() {
    let reg = identity_registration();
    let mut input = vec![0u8; DEPTH_PIXELS * 2];
    // Pixel (3, 2) at 1000 mm, pixel (5, 2) at 900 mm.
    let k = 2 * DEPTH_X_RES + 3;
    input[2 * k..2 * k + 2].copy_from_slice(&1000u16.to_le_bytes());
    let j = 2 * DEPTH_X_RES + 5;
    input[2 * j..2 * j + 2].copy_from_slice(&900u16.to_le_bytes());
    let mut out = vec![1u16; DEPTH_PIXELS];
    assert!(reg.registration_fits(&input, true));
    reg.apply_registration(&input, &mut out, true);
    assert_eq!(out[k], 1000);
    assert_eq!(out[j], 900);
    assert_eq!(out[0], 0);
}

#[test]
fn flat_polynomial_gives_zero_offsets() {
    let mut dx = vec![1i64; 12];
    let mut dy = vec![1i64; 12];
    create_dxdy_tables(&mut dx, &mut dy, 4, 3, &zero_reg_info());
    assert!(dx.iter().all(|&v| v == 0));
    assert!(dy.iter().all(|&v| v == 0));
}

#[test]
fn polynomial_start_offsets() {
    let mut info = zero_reg_info();
    info.dx_start = 3;
    info.dy_start = -2;
    info.ax = 256 * 64;
    let mut dx = vec![0i64; 4];
    let mut dy = vec![0i64; 4];
    create_dxdy_tables(&mut dx, &mut dy, 4, 1, &info);
    // Start values are scaled by 512; the second difference `ax` reaches
    // the offsets in the fourth column.
    assert_eq!(dx, vec![1536, 1536, 1536, 1537]);
    assert_eq!(dy, vec![-1024, -1024, -1024, -1024]);
}

#[test]
fn registration_table_from_zero_offsets() {
    let dx = vec![0i64; DEPTH_PIXELS];
    let dy = vec![0i64; DEPTH_PIXELS];
    let table = registration_table_from_offsets(&dx, &dy);
    assert_eq!(table.len(), DEPTH_PIXELS);
    // Each pixel moves one right and one down.
    assert_eq!(table[0], [256, 1]);
    assert_eq!(table[DEPTH_X_RES + 2], [3 * 256, 2]);
    // The last column moves out of the frame.
    assert_eq!(table[DEPTH_X_RES - 1], [2 * 640 * 256, 1]);
}

#[test]
fn registration_table_rounds_toward_zero() {
    let mut dx = vec![0i64; DEPTH_PIXELS];
    let mut dy = vec![0i64; DEPTH_PIXELS];
    // Half a pixel left and 1.5 pixels up for pixel (10, 0).
    dx[10] = -0x10000;
    dy[10] = -0x30000;
    let table = registration_table_from_offsets(&dx, &dy);
    // Row 0 + 1 - 1.5 is negative: outside, and the row truncates to 0.
    assert_eq!(table[10], [2 * 640 * 256, 0]);
    // Half a pixel left only.
    dy[10] = 0;
    let table = registration_table_from_offsets(&dx, &dy);
    assert_eq!(table[10], [(10 * 256 + 256) - 128, 1]);
}

#[test]
fn polynomial_leaves_the_rest_of_the_tables() {
    let mut info = zero_reg_info();
    info.dx_start = 1;
    let mut dx = vec![7i64; 10];
    let mut dy = vec![8i64; 10];
    create_dxdy_tables(&mut dx, &mut dy, 3, 2, &info);
    assert_eq!(&dx[..6], &[512; 6]);
    assert_eq!(&dx[6..], &[7; 4]);
    assert_eq!(&dy[..6], &[0; 6]);
    assert_eq!(&dy[6..], &[8; 4]);
    // An empty frame writes nothing.
    let mut ex = vec![5i64; 3];
    let mut ey = vec![5i64; 3];
    create_dxdy_tables(&mut ex, &mut ey, -4, 2, &info);
    create_dxdy_tables(&mut ex, &mut ey, 4, 0, &info);
    assert_eq!(ex, vec![5, 5, 5]);
    assert_eq!(ey, vec![5, 5, 5]);
}

#[test]
fn polynomial_fits_depth_frames_but_not_any_frame() {
    let mut info = zero_reg_info();
    info.by = i32::MAX;
    info.dydydy_start = i32::MAX;
    assert!(dxdy_tables_fit(DEPTH_X_RES as i32, DEPTH_Y_RES as i32, &info));
    assert!(dxdy_tables_fit(1, 1000, &info));
    assert!(!dxdy_tables_fit(1, 1_000_000, &info));
    assert!(dxdy_tables_fit(-1, -1, &info));
}
