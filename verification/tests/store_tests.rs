use pixel_displace::codec::encode_frame;
use pixel_displace::raster::{RasterBuffer, RasterFormat};
use pixel_displace::store::{FormatField, FrameStore, LoadError};

fn solid(width: u32, height: u32, spp: u32, value: u8) -> RasterBuffer {
    let stride = (width * spp) as usize;
    RasterBuffer {
        format: RasterFormat { width, height, samples_per_pixel: spp, bit_depth: 8, stride },
        pixels: vec![value; stride * height as usize],
    }
}

fn encoded_solid(width: u32, height: u32, spp: u32, value: u8) -> Vec<u8> {
    encode_frame(&solid(width, height, spp, value)).unwrap()
}

#[test]
fn load_three_identical_frames_in_order() {
    let encoded = vec![
        encoded_solid(4, 3, 3, 10),
        encoded_solid(4, 3, 3, 20),
        encoded_solid(4, 3, 3, 30),
    ];
    let store = FrameStore::load(&encoded).unwrap();
    assert_eq!(store.frame_count(), 3);
    assert_eq!(store.format.width, 4);
    assert_eq!(store.format.height, 3);
    assert_eq!(store.format.samples_per_pixel, 3);
    assert_eq!(store.format.bit_depth, 8);
    assert_eq!(store.format.stride, 12);
    assert!(store.frames[0].pixels.iter().all(|&b| b == 10));
    assert!(store.frames[1].pixels.iter().all(|&b| b == 20));
    assert!(store.frames[2].pixels.iter().all(|&b| b == 30));
}

#[test]
fn load_single_frame() {
    let encoded = vec![encoded_solid(2, 2, 1, 5)];
    let store = FrameStore::load(&encoded).unwrap();
    assert_eq!(store.frame_count(), 1);
    assert_eq!(store.frames[0].pixels, vec![5, 5, 5, 5]);
}

#[test]
fn load_width_mismatch_names_frame_and_field() {
    let encoded = vec![
        encoded_solid(4, 3, 3, 1),
        encoded_solid(4, 3, 3, 2),
        encoded_solid(5, 3, 3, 3),
    ];
    let e = FrameStore::load(&encoded).unwrap_err();
    assert_eq!(e, LoadError::FormatMismatch { frame_index: 2, field: FormatField::Width });
}

#[test]
fn load_height_mismatch_names_frame_and_field() {
    let encoded = vec![encoded_solid(4, 3, 3, 1), encoded_solid(4, 2, 3, 2)];
    let e = FrameStore::load(&encoded).unwrap_err();
    assert_eq!(e, LoadError::FormatMismatch { frame_index: 1, field: FormatField::Height });
}

#[test]
fn load_sample_layout_mismatch_names_frame_and_field() {
    let encoded = vec![encoded_solid(4, 3, 3, 1), encoded_solid(4, 3, 4, 2)];
    let e = FrameStore::load(&encoded).unwrap_err();
    assert_eq!(e, LoadError::FormatMismatch { frame_index: 1, field: FormatField::SampleLayout });
}

#[test]
fn load_aborts_on_first_undecodable_frame() {
    let encoded = vec![encoded_solid(2, 2, 3, 1), b"garbage".to_vec(), encoded_solid(2, 2, 3, 3)];
    let e = FrameStore::load(&encoded).unwrap_err();
    assert_eq!(e, LoadError::Decode { frame_index: 1 });
}

#[test]
fn load_reports_unsupported_depth_frame() {
    let mut sixteen_bit = Vec::new();
    {
        let mut enc = png::Encoder::new(&mut sixteen_bit, 2, 2);
        enc.set_color(png::ColorType::Grayscale);
        enc.set_depth(png::BitDepth::Sixteen);
        let mut writer = enc.write_header().unwrap();
        writer.write_image_data(&[0u8; 8]).unwrap();
        writer.finish().unwrap();
    }
    let encoded = vec![encoded_solid(2, 2, 1, 1), sixteen_bit];
    let e = FrameStore::load(&encoded).unwrap_err();
    assert_eq!(e, LoadError::Unsupported { frame_index: 1 });
}
