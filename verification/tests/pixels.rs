use core_compat::rle::format_r5g6b5_norm;

#[test]
fn packed_pixel_channels() {
    assert_eq!(format_r5g6b5_norm(0x0000), (0, 0, 0));
    assert_eq!(format_r5g6b5_norm(0xFFFF), (255, 255, 255));
    assert_eq!(format_r5g6b5_norm(0xF800), (255, 0, 0));
    assert_eq!(format_r5g6b5_norm(0x07E0), (0, 255, 0));
    assert_eq!(format_r5g6b5_norm(0x001F), (0, 0, 255));
    // Magenta, the colour sometimes used for transparency.
    assert_eq!(format_r5g6b5_norm(0xF81F), (255, 0, 255));
    // 1 of 31 is 8.2..., 1 of 63 is 4.04...: both rounded down.
    assert_eq!(format_r5g6b5_norm(0x0821), (8, 4, 8));
    // 16 of 31 is 131.6..., 32 of 63 is 129.5...
    assert_eq!(format_r5g6b5_norm(0x8410), (131, 129, 131));
    // Green 21 and 42 of 63 are thirds: 85 and 170 exactly.
    assert_eq!(format_r5g6b5_norm(21 << 5), (0, 85, 0));
    assert_eq!(format_r5g6b5_norm(42 << 5), (0, 170, 0));
}

#[test]
fn packed_pixel_agrees_with_scaling_in_floating_point() {
    for d in 0..=u16::MAX {
        let b = ((d & 0x1F) as f32 / 31.0) * 255.0;
        let g = (((d >> 5) & 0x3F) as f32 / 63.0) * 255.0;
        let r = (((d >> 11) & 0x1F) as f32 / 31.0) * 255.0;
        assert_eq!(format_r5g6b5_norm(d), (r as u8, g as u8, b as u8), "pixel {:#06x}", d);
    }
}
