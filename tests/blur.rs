use image_processor::blur::{self, BlurParams};

#[test]
fn blur() {
    let width = 1;
    let height = 3;
    let params = "{\"radius\":2,\"iterations\":1}";

    let mut original = vec![255, 0, 0, 255, 0, 255, 0, 255, 0, 0, 255, 255];
    let expected = vec![85, 85, 85, 255, 85, 85, 85, 255, 85, 85, 85, 255];
    let status = blur::process_image(width, height, &mut original, params);
    assert_eq!(status, 0);
    assert_eq!(original, expected);
    println!("{:?}", original);
}

#[test]
fn overflow() {
    let width = u32::MAX / 2;
    let height = 1;
    // The size is rejected before the buffer is touched, so the full 8 GiB
    // buffer is not allocated; the size computation is checked on its own first.
    assert_eq!(blur::get_size(width as i32, height as i32), None);
    let mut buffer: Vec<u8> = Vec::new();
    let result = blur::process_image(width, height, &mut buffer, "{\"radius\":1,\"iterations\":1}");
    assert_eq!(result, -1);
}

#[test]
fn blur_get_size_values() {
    assert_eq!(blur::get_size(1, 3), Some(12));
    assert_eq!(blur::get_size(i32::MAX / 2, 1), None);
    assert_eq!(blur::get_size(i32::MAX, 2), None);
    assert_eq!(blur::get_size(0, 5), Some(0));
}

#[test]
fn blur_radius_zero_is_identity() {
    let data: Vec<u8> = (0..24u8).map(|b| b.wrapping_mul(37)).collect();
    let mut buf = data.clone();
    let params = BlurParams { radius: 0, iterations: 3 };
    assert_eq!(blur::blur_image(3, 2, &mut buf, &params), 0);
    assert_eq!(buf, data);
}

#[test]
fn blur_zero_iterations_is_identity() {
    let data: Vec<u8> = (0..16u8).collect();
    let mut buf = data.clone();
    let params = BlurParams { radius: 5, iterations: 0 };
    assert_eq!(blur::blur_image(2, 2, &mut buf, &params), 0);
    assert_eq!(buf, data);
}

#[test]
fn blur_edge_clamped_mean() {
    // 3x1 row of grey levels 0, 30, 90 (all channels alike), radius 1.
    let mut buf = vec![0, 0, 0, 0, 30, 30, 30, 30, 90, 90, 90, 90];
    let params = BlurParams { radius: 1, iterations: 1 };
    assert_eq!(blur::blur_image(3, 1, &mut buf, &params), 0);
    // (0+30)/2 = 15, (0+30+90)/3 = 40, (30+90)/2 = 60
    assert_eq!(buf, vec![15, 15, 15, 15, 40, 40, 40, 40, 60, 60, 60, 60]);
}

#[test]
fn blur_truncates_and_iterates_on_previous_pass() {
    let mut buf = vec![0, 0, 0, 0, 1, 1, 1, 1];
    let params = BlurParams { radius: 1, iterations: 2 };
    assert_eq!(blur::blur_image(2, 1, &mut buf, &params), 0);
    // first pass: (0+1)/2 = 0 for both pixels; second pass stays 0
    assert_eq!(buf, vec![0, 0, 0, 0, 0, 0, 0, 0]);
}

#[test]
fn blur_channels_are_independent() {
    let data = vec![10, 200, 30, 255, 50, 0, 70, 128, 90, 100, 110, 0, 130, 140, 150, 60];
    let perm = [2usize, 0, 3, 1];
    let permuted: Vec<u8> = (0..data.len()).map(|i| data[i - i % 4 + perm[i % 4]]).collect();
    let params = BlurParams { radius: 1, iterations: 2 };
    let mut a = data.clone();
    let mut b = permuted.clone();
    assert_eq!(blur::blur_image(2, 2, &mut a, &params), 0);
    assert_eq!(blur::blur_image(2, 2, &mut b, &params), 0);
    let a_permuted: Vec<u8> = (0..a.len()).map(|i| a[i - i % 4 + perm[i % 4]]).collect();
    assert_eq!(b, a_permuted);
}

#[test]
fn blur_zero_area_leaves_buffer() {
    let mut empty: Vec<u8> = Vec::new();
    let params = BlurParams { radius: 2, iterations: 4 };
    assert_eq!(blur::blur_image(0, 7, &mut empty, &params), 0);
    assert!(empty.is_empty());
    assert_eq!(blur::blur_image(7, 0, &mut empty, &params), 0);
    assert!(empty.is_empty());
    let zero = BlurParams { radius: 0, iterations: 2 };
    assert_eq!(blur::blur_image(0, u32::MAX, &mut empty, &zero), 0);
    assert_eq!(blur::blur_image(u32::MAX, 0, &mut empty, &params), 0);
    assert!(empty.is_empty());
}

#[test]
fn blur_clamps_a_radius_past_the_edges() {
    let data = vec![0, 0, 0, 0, 30, 30, 30, 30, 90, 90, 90, 90];
    let mut wide = data.clone();
    let mut huge = data.clone();
    let cover = BlurParams { radius: 2, iterations: 1 };
    let max = BlurParams { radius: u32::MAX, iterations: 1 };
    assert_eq!(blur::blur_image(3, 1, &mut wide, &cover), 0);
    assert_eq!(blur::blur_image(3, 1, &mut huge, &max), 0);
    assert_eq!(huge, vec![40, 40, 40, 40, 40, 40, 40, 40, 40, 40, 40, 40]);
    assert_eq!(huge, wide);
}

#[test]
fn blur_rejects_wrong_length_and_large_radius() {
    let mut buf = vec![1u8, 2, 3, 4, 5, 6, 7];
    let params = BlurParams { radius: 1, iterations: 1 };
    assert_eq!(blur::blur_image(2, 1, &mut buf, &params), -1);
    assert_eq!(buf, vec![1u8, 2, 3, 4, 5, 6, 7]);
    let mut px = vec![9u8; 8];
    assert_eq!(blur::blur_image(i32::MAX as u32 + 1, 1, &mut px, &params), -1);
    assert_eq!(blur::blur_image(0, 1, &mut px, &params), -1);
    assert_eq!(px, vec![9u8; 8]);
}

#[test]
fn blur_params_from_json() {
    assert_eq!(
        BlurParams::parse_json("{\"radius\": 3, \"iterations\": 2}"),
        Some(BlurParams { radius: 3, iterations: 2 })
    );
    assert_eq!(BlurParams::parse_json("{\"radius\": 3}"), None);
    assert_eq!(BlurParams::parse_json("{\"radius\": -1, \"iterations\": 2}"), None);
    assert_eq!(BlurParams::parse_json("{\"radius\": 4294967296, \"iterations\": 2}"), None);
    assert_eq!(BlurParams::parse_json("radius 3"), None);
    assert_eq!(BlurParams::parse_json(""), None);
    assert_eq!(BlurParams::from_fields(Some(1), Some(0)), Some(BlurParams { radius: 1, iterations: 0 }));
    assert_eq!(BlurParams::from_fields(None, Some(0)), None);
}

#[test]
fn blur_malformed_params_leave_buffer() {
    let mut buf = vec![1u8, 2, 3, 4];
    assert_eq!(blur::process_image(1, 1, &mut buf, "{not json"), -1);
    assert_eq!(buf, vec![1u8, 2, 3, 4]);
}
