use gwstuff::pixel::{
    add_opacity, blend, percentage_to_u8, pixel_bytes, to_pixel, COVERAGE_THRESHOLD,
};

#[test]
fn opacity_goes_into_the_top_byte() {
    assert_eq!(add_opacity(0x262626, 255), 0xff26_2626);
    assert_eq!(add_opacity(0x808080, 0), 0x0080_8080);
    assert_eq!(add_opacity(0x000000, 0x7f), 0x7f00_0000);
    assert_eq!(add_opacity(0xffffff, 0xff), 0xffff_ffff);
}

#[test]
fn opacity_replaces_an_alpha_the_colour_brought() {
    assert_eq!(add_opacity(0xaa12_3456, 0x80), 0x8012_3456);
    assert_eq!(add_opacity(0xffff_ffff, 0), 0x00ff_ffff);
}

#[test]
fn percentages_round_to_the_nearest_alpha() {
    assert_eq!(percentage_to_u8(0), 0);
    assert_eq!(percentage_to_u8(1), 3);
    assert_eq!(percentage_to_u8(10), 26);
    assert_eq!(percentage_to_u8(25), 64);
    assert_eq!(percentage_to_u8(50), 128);
    assert_eq!(percentage_to_u8(75), 191);
    assert_eq!(percentage_to_u8(99), 252);
    assert_eq!(percentage_to_u8(100), 255);
}

#[test]
fn pixel_bytes_are_the_packed_value() {
    assert_eq!(u32::from_ne_bytes(to_pixel(1, 2, 3, 4)), 0x0401_0203);
    assert_eq!(u32::from_ne_bytes(to_pixel(0xff, 0, 0, 0x80)), 0x80ff_0000);
    assert_eq!(u32::from_ne_bytes(to_pixel(0, 0, 0, 0)), 0);
    assert_eq!(u32::from_ne_bytes(to_pixel(255, 255, 255, 255)), u32::MAX);
}

#[test]
fn pixel_bytes_come_in_one_of_the_two_orders() {
    let bytes = to_pixel(1, 2, 3, 4);
    assert!(bytes == [3, 2, 1, 4] || bytes == [4, 1, 2, 3]);
}

#[test]
fn a_canvas_as_bytes() {
    let pixels = vec![0x0102_0304, 0xff00_0000, 0x0000_00ff];
    let bytes = pixel_bytes(&pixels);
    assert_eq!(bytes.len(), 12);
    assert_eq!(u32::from_ne_bytes([bytes[0], bytes[1], bytes[2], bytes[3]]), 0x0102_0304);
    assert_eq!(u32::from_ne_bytes([bytes[4], bytes[5], bytes[6], bytes[7]]), 0xff00_0000);
    assert_eq!(u32::from_ne_bytes([bytes[8], bytes[9], bytes[10], bytes[11]]), 0x0000_00ff);
    assert_eq!(pixel_bytes(&Vec::new()), Vec::<u8>::new());
}

#[test]
fn no_coverage_is_the_background() {
    assert_eq!(blend(0, 0xff80_8080, 0xcc26_2626), 0xcc26_2626);
    assert_eq!(blend(0, 0xffff_ffff, 0), 0);
    assert_eq!(blend(0, 0, 0xffff_ffff), 0xffff_ffff);
    assert_eq!(blend(0, 0x1234_5678, 0x9abc_def0), 0x9abc_def0);
}

#[test]
fn full_coverage_is_the_foreground() {
    assert_eq!(blend(255, 0xff80_8080, 0xcc26_2626), 0xff80_8080);
    assert_eq!(blend(255, 0xffff_ffff, 0), 0xffff_ffff);
    assert_eq!(blend(255, 0, 0xffff_ffff), 0);
    assert_eq!(blend(255, 0x1234_5678, 0x9abc_def0), 0x1234_5678);
}

#[test]
fn blend_identities_hold_for_every_channel_value() {
    let mut v = 0u32;
    while v < 256 {
        let p = (v << 24) | ((255 - v) << 16) | (v << 8) | (v ^ 0x55);
        let q = ((v ^ 0xaa) << 24) | (v << 16) | ((255 - v) << 8) | v;
        assert_eq!(blend(0, p, q), q);
        assert_eq!(blend(255, p, q), p);
        v += 1;
    }
}

#[test]
fn half_coverage_mixes_each_channel() {
    // (255 * 128 + 0 * 127 + 127) / 255 = 128 in each colour channel; alpha stays 255.
    assert_eq!(blend(128, 0xffff_ffff, 0xff00_0000), 0xff80_8080);
    // colour: (128 * 51 + 38 * 204 + 127) / 255 = 56; alpha: (255 * 51 + 204 * 204 + 127) / 255 = 214.
    assert_eq!(blend(51, 0xff80_8080, 0xcc26_2626), 0xd638_3838);
}

#[test]
fn a_colour_blended_with_itself_is_that_colour() {
    assert_eq!(blend(128, 0xff64_6464, 0xff64_6464), 0xff64_6464);
    assert_eq!(blend(128, 0x0101_0101, 0x0101_0101), 0x0101_0101);
    assert_eq!(blend(1, 0xffff_ffff, 0xffff_ffff), 0xffff_ffff);
    let mut c = 0u32;
    while c < 256 {
        let mut v = 0u32;
        while v < 256 {
            let p = (v << 24) | ((255 - v) << 16) | ((v ^ 0x3c) << 8) | v;
            assert_eq!(blend(c as u8, p, p), p);
            v += 1;
        }
        c += 1;
    }
}

#[test]
fn the_sum_is_divided_once_to_the_nearest_value() {
    // 1 * 127 / 255 is below a half, 1 * 128 / 255 above.
    assert_eq!(blend(127, 0x0000_0001, 0), 0);
    assert_eq!(blend(128, 0x0000_0001, 0), 1);
    assert_eq!(blend(127, 0x0000_00ff, 0), 0x7f);
    assert_eq!(blend(128, 0x0000_00ff, 0), 0x80);
    assert_eq!(blend(1, 0x0000_00ff, 0), 1);
    assert_eq!(blend(254, 0, 0x0000_00ff), 1);
}

#[test]
fn a_blended_channel_is_less_than_a_step_from_the_exact_blend() {
    let mut c = 0i64;
    while c < 256 {
        let mut f = 0i64;
        while f < 256 {
            let mut b = 0i64;
            while b < 256 {
                let out = (blend(c as u8, f as u32, b as u32) & 0xff) as i64;
                let exact = f * c + b * (255 - c);
                assert!((255 * out - exact).abs() <= 127);
                b += 5;
            }
            f += 3;
        }
        c += 1;
    }
}

#[test]
fn channels_do_not_carry_into_each_other() {
    let out = blend(200, 0x00ff_00ff, 0xff00_ff00);
    // 255 * 200 / 255 = 200 where the foreground is full, 255 * 55 / 255 = 55 where the background is.
    assert_eq!(out, 0x37c8_37c8);
}

#[test]
fn the_threshold_is_a_tenth_of_full_coverage() {
    assert_eq!(COVERAGE_THRESHOLD, 26);
}
