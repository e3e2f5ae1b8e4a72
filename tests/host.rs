use image_processor::filter::{status_result, BoxBlur, ImageFilter, Mirror, PixelBuffer};
use image_processor::{process_image, ProcessorError};

struct Failing;

impl ImageFilter for Failing {
    fn process_image(&self, _width: u32, _height: u32, rgba: &mut Vec<u8>, _params: &str) -> i32 {
        for b in rgba.iter_mut() {
            *b = 0;
        }
        -1
    }
}

#[test]
fn pixel_buffer_checks_length() {
    assert!(PixelBuffer::new(2, 2, vec![0u8; 16]).is_some());
    assert!(PixelBuffer::new(2, 2, vec![0u8; 15]).is_none());
    let b = PixelBuffer::new(3, 1, vec![5u8; 12]).unwrap();
    assert_eq!(b.width(), 3);
    assert_eq!(b.height(), 1);
    assert_eq!(b.as_bytes().len(), 12);
    assert_eq!(b.into_bytes(), vec![5u8; 12]);
}

#[test]
fn host_applies_blur() {
    let data = vec![255, 0, 0, 255, 0, 255, 0, 255, 0, 0, 255, 255];
    let mut img = PixelBuffer::new(1, 3, data).unwrap();
    let r = process_image(&mut img, &BoxBlur, "{\"radius\":2,\"iterations\":1}".to_string());
    assert_eq!(r, Ok(()));
    assert_eq!(img.into_bytes(), vec![85, 85, 85, 255, 85, 85, 85, 255, 85, 85, 85, 255]);
}

#[test]
fn host_applies_mirror() {
    let mut img = PixelBuffer::new(2, 1, vec![1, 2, 3, 4, 5, 6, 7, 8]).unwrap();
    let r = process_image(&mut img, &Mirror, "{\"vertical\":false,\"horizontal\":true}".to_string());
    assert_eq!(r, Ok(()));
    assert_eq!(img.into_bytes(), vec![5, 6, 7, 8, 1, 2, 3, 4]);
}

#[test]
fn host_reports_filter_failure() {
    let mut img = PixelBuffer::new(1, 1, vec![1, 2, 3, 4]).unwrap();
    let r = process_image(&mut img, &BoxBlur, "{\"radius\":1}".to_string());
    assert!(matches!(r, Err(ProcessorError::FFI(_))));
    let r = process_image(&mut img, &Failing, "{}".to_string());
    assert_eq!(r, Err(ProcessorError::FFI("error processing image".to_string())));
}

#[test]
fn host_rejects_nul_in_params() {
    let mut img = PixelBuffer::new(1, 1, vec![1, 2, 3, 4]).unwrap();
    let r = process_image(&mut img, &Failing, "{\"a\0\":1}".to_string());
    assert_eq!(r, Err(ProcessorError::FFI("cannot convert params to c_str".to_string())));
    assert_eq!(img.into_bytes(), vec![1, 2, 3, 4]);
}

#[test]
fn status_maps_to_result() {
    assert_eq!(status_result(0), Ok(()));
    assert_eq!(status_result(7), Ok(()));
    assert!(matches!(status_result(-1), Err(ProcessorError::FFI(_))));
    let e = ProcessorError::Lib("missing".to_string());
    assert_eq!(e.message(), "missing");
}
