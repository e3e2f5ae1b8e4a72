use image_processor::mirror::{self, MirrorParams};

fn numbered(width: u32, height: u32) -> (Vec<u8>, Vec<u8>) {
    let size = (width * height * 4) as usize;
    let mut input = vec![0u8; size];
    let mut output = vec![0u8; size];
    let mut pixel = 1;
    for i in 0..size {
        input[i] = pixel;
        output[size - i - 1] = pixel;
        if (i + 1) % 4 == 0 {
            pixel += 1;
        }
    }
    (input, output)
}

#[test]
fn check_overflow() {
    let width = u32::MAX;
    let height = u32::MAX;

    let mut buffer: Vec<u8> = Vec::new();
    let status = mirror::process_image(width, height, &mut buffer, "");
    assert_eq!(status, -1);
    assert!(buffer.is_empty());
}

#[test]
fn horizontal() {
    let height = 5;
    let width = 1;
    let params = "{\"vertical\":true,\"horizontal\":true}";
    let (mut input, output) = numbered(width, height);
    mirror::process_image(width, height, &mut input, params);
    assert_eq!(input, output);
}

#[test]
fn vertical() {
    let width = 5;
    let height = 1;
    let params = "{\"vertical\":false,\"horizontal\":true}";
    let (mut input, output) = numbered(width, height);
    mirror::process_image(width, height, &mut input, params);
    assert_eq!(input, output);
}

#[test]
fn flip_horizontal_moves_whole_pixels() {
    // 3x2 image, pixel (x, y) has all bytes equal to 10*y + x
    let mut buf: Vec<u8> = Vec::new();
    for y in 0..2u8 {
        for x in 0..3u8 {
            buf.extend_from_slice(&[10 * y + x, 10 * y + x, 10 * y + x, 100 + x]);
        }
    }
    assert_eq!(mirror::flip_horizontal(3, 2, &mut buf), Some(()));
    let mut expected: Vec<u8> = Vec::new();
    for y in 0..2u8 {
        for x in (0..3u8).rev() {
            expected.extend_from_slice(&[10 * y + x, 10 * y + x, 10 * y + x, 100 + x]);
        }
    }
    assert_eq!(buf, expected);
}

#[test]
fn flip_vertical_swaps_rows() {
    let mut buf: Vec<u8> = (0..24u8).collect();
    assert_eq!(mirror::flip_vertical(2, 3, &mut buf), Some(()));
    let mut expected: Vec<u8> = Vec::new();
    expected.extend(16..24u8);
    expected.extend(8..16u8);
    expected.extend(0..8u8);
    assert_eq!(buf, expected);
}

#[test]
fn flips_are_involutive() {
    let data: Vec<u8> = (0..60u8).map(|b| b.wrapping_mul(13)).collect();
    let mut buf = data.clone();
    mirror::flip_horizontal(5, 3, &mut buf).unwrap();
    assert_ne!(buf, data);
    mirror::flip_horizontal(5, 3, &mut buf).unwrap();
    assert_eq!(buf, data);
    mirror::flip_vertical(5, 3, &mut buf).unwrap();
    assert_ne!(buf, data);
    mirror::flip_vertical(5, 3, &mut buf).unwrap();
    assert_eq!(buf, data);
}

#[test]
fn flips_reject_overflow_and_wrong_length() {
    let mut buf = vec![1u8, 2, 3];
    assert_eq!(mirror::flip_horizontal(1, 1, &mut buf), None);
    assert_eq!(mirror::flip_vertical(1, 1, &mut buf), None);
    assert_eq!(buf, vec![1u8, 2, 3]);
    let mut empty: Vec<u8> = Vec::new();
    assert_eq!(mirror::flip_horizontal(u32::MAX / 2, 1, &mut empty), None);
    assert_eq!(mirror::get_size(u32::MAX / 2, 1), None);
    assert_eq!(mirror::get_size(3, 5), Some(60));
}

#[test]
fn zero_area_is_a_no_op() {
    let mut empty: Vec<u8> = Vec::new();
    assert_eq!(mirror::flip_horizontal(0, 4, &mut empty), Some(()));
    assert_eq!(mirror::flip_vertical(4, 0, &mut empty), Some(()));
    assert!(empty.is_empty());
    let mut junk = vec![7u8, 8];
    assert_eq!(mirror::process_image(0, 3, &mut junk, "not json"), 0);
    assert_eq!(junk, vec![7u8, 8]);
    assert_eq!(mirror::flip_horizontal(0, 3, &mut junk), Some(()));
    assert_eq!(mirror::flip_vertical(u32::MAX, 0, &mut junk), Some(()));
    assert_eq!(junk, vec![7u8, 8]);
}

#[test]
fn mirror_applies_vertical_then_horizontal() {
    // 2x2 image: pixels a b / c d
    let mut buf = vec![1, 1, 1, 1, 2, 2, 2, 2, 3, 3, 3, 3, 4, 4, 4, 4];
    let params = MirrorParams { vertical: true, horizontal: false };
    assert_eq!(mirror::mirror_image(2, 2, &mut buf, &params), 0);
    assert_eq!(buf, vec![3, 3, 3, 3, 4, 4, 4, 4, 1, 1, 1, 1, 2, 2, 2, 2]);
    let both = MirrorParams { vertical: true, horizontal: true };
    assert_eq!(mirror::mirror_image(2, 2, &mut buf, &both), 0);
    assert_eq!(buf, vec![2, 2, 2, 2, 1, 1, 1, 1, 4, 4, 4, 4, 3, 3, 3, 3]);
}

#[test]
fn mirror_params_from_json() {
    assert_eq!(
        MirrorParams::parse_json("{\"vertical\": true, \"horizontal\": false}"),
        Some(MirrorParams { vertical: true, horizontal: false })
    );
    assert_eq!(MirrorParams::parse_json("{\"vertical\": true}"), None);
    assert_eq!(MirrorParams::parse_json("{\"vertical\": 1, \"horizontal\": false}"), None);
    assert_eq!(MirrorParams::from_fields(Some(false), None), None);
    let mut buf = vec![1u8, 2, 3, 4, 5, 6, 7, 8];
    assert_eq!(mirror::process_image(2, 1, &mut buf, "{}"), -1);
    assert_eq!(buf, vec![1u8, 2, 3, 4, 5, 6, 7, 8]);
}
