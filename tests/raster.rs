use funnyprint::raster::{load_for_print, EncodeError};
use funnyprint::raster::{
    binarize_preview, encode_png, floyd_steinberg_binarize, image_to_packed_lines, pack_bw_image,
    target_height, threshold_binarize, trim_blank_lines, DitherMethod, GrayImage,
};

fn unpack(lines: &[[u8; 96]], width: usize, height: usize) -> Vec<u8> {
    let mut px = vec![255u8; width * height];
    for y in 0..height {
        for x in 0..width {
            let byte = lines[y / 2][(y % 2) * 48 + x / 8];
            if byte & (1 << (7 - (x % 8))) != 0 {
                px[y * width + x] = 0;
            }
        }
    }
    px
}

#[test]
fn pack_single_dot() {
    let mut img = GrayImage::from_pixel(1, 2, 255).unwrap();
    img.pixels[0] = 0;
    let lines = image_to_packed_lines(&img, 128, false);
    assert_eq!(lines.len(), 1);
    assert_eq!(lines[0][0], 0x80);
    assert_eq!(lines[0][48], 0x00);
    assert!(lines[0][1..].iter().all(|b| *b == 0));
}

#[test]
fn pack_bit_order_and_second_row() {
    let mut img = GrayImage::from_pixel(16, 2, 255).unwrap();
    img.pixels[7] = 0;
    img.pixels[16 + 9] = 10;
    let lines = image_to_packed_lines(&img, 10, false);
    assert_eq!(lines[0][0], 0x01);
    assert_eq!(lines[0][49], 0x40);
}

#[test]
fn pack_odd_height_leaves_second_row_blank() {
    let img = GrayImage::from_pixel(8, 3, 0).unwrap();
    let lines = image_to_packed_lines(&img, 128, false);
    assert_eq!(lines.len(), 2);
    assert_eq!(lines[1][0], 0xff);
    assert!(lines[1][48..].iter().all(|b| *b == 0));
}

#[test]
fn pack_clamps_width_to_head() {
    let img = GrayImage::from_pixel(400, 2, 0).unwrap();
    let lines = image_to_packed_lines(&img, 128, false);
    assert!(lines[0].iter().all(|b| *b == 0xff));
}

#[test]
fn packed_lines_have_wire_size() {
    let img = GrayImage::from_pixel(384, 7, 100).unwrap();
    for l in image_to_packed_lines(&img, 128, false) {
        assert_eq!(l.len(), 96);
    }
}

#[test]
fn pack_then_unpack_gives_image_back() {
    let (w, h) = (20usize, 6usize);
    let mut px = vec![255u8; w * h];
    for (i, p) in px.iter_mut().enumerate() {
        if (i * 7) % 3 == 0 {
            *p = 0;
        }
    }
    let img = GrayImage::from_raw(w, h, px.clone()).unwrap();
    let lines = pack_bw_image(&img, false);
    assert_eq!(unpack(&lines, w, h), px);
}

#[test]
fn trim_drops_blank_ends() {
    let mut img = GrayImage::from_pixel(8, 10, 255).unwrap();
    img.pixels[8 * 4] = 0;
    let lines = image_to_packed_lines(&img, 128, true);
    assert_eq!(lines.len(), 1);
    assert_eq!(lines[0][0], 0x80);
}

#[test]
fn trim_all_blank_is_empty() {
    let img = GrayImage::from_pixel(8, 10, 255).unwrap();
    assert!(image_to_packed_lines(&img, 128, true).is_empty());
    assert!(trim_blank_lines(&vec![[0u8; 96]; 3]).is_empty());
    assert!(trim_blank_lines(&Vec::new()).is_empty());
}

#[test]
fn trim_is_idempotent() {
    let mut a = [0u8; 96];
    a[5] = 1;
    let lines = vec![[0u8; 96], a, [0u8; 96], a, [0u8; 96]];
    let once = trim_blank_lines(&lines);
    assert_eq!(once.len(), 3);
    assert_eq!(trim_blank_lines(&once), once);
}

#[test]
fn threshold_with_and_without_invert() {
    let img = GrayImage::from_raw(4, 1, vec![0, 128, 129, 255]).unwrap();
    assert_eq!(threshold_binarize(&img, 128, false).pixels, vec![0, 0, 255, 255]);
    assert_eq!(threshold_binarize(&img, 128, true).pixels, vec![255, 0, 0, 0]);
}

#[test]
fn floyd_steinberg_output_is_black_or_white() {
    let px: Vec<u8> = (0..64u32).map(|i| (i * 4) as u8).collect();
    let img = GrayImage::from_raw(8, 8, px).unwrap();
    let out = floyd_steinberg_binarize(&img, 128, false);
    assert_eq!((out.width, out.height), (8, 8));
    assert!(out.pixels.iter().all(|p| *p == 0 || *p == 255));
}

#[test]
fn floyd_steinberg_mid_gray_makes_a_pattern() {
    let img = GrayImage::from_pixel(8, 8, 128).unwrap();
    let out = floyd_steinberg_binarize(&img, 127, false);
    let black = out.pixels.iter().filter(|p| **p == 0).count();
    assert!(black > 16 && black < 48);
}

#[test]
fn floyd_steinberg_diffuses_to_the_right() {
    let img = GrayImage::from_raw(2, 1, vec![100, 100]).unwrap();
    let out = floyd_steinberg_binarize(&img, 127, false);
    assert_eq!(out.pixels, vec![0, 255]);
    let img = GrayImage::from_raw(2, 1, vec![100, 20]).unwrap();
    let out = floyd_steinberg_binarize(&img, 100, false);
    assert_eq!(out.pixels, vec![0, 0]);
    let img = GrayImage::from_raw(2, 1, vec![200, 200]).unwrap();
    let out = floyd_steinberg_binarize(&img, 180, false);
    assert_eq!(out.pixels, vec![255, 0]);
}

#[test]
fn binarize_dispatches_on_method() {
    let img = GrayImage::from_raw(3, 1, vec![10, 200, 250]).unwrap();
    let t = binarize_preview(&img, 128, DitherMethod::Threshold, false);
    assert_eq!(t.pixels, vec![0, 255, 255]);
    let f = binarize_preview(&img, 128, DitherMethod::FloydSteinberg, true);
    assert_eq!(f.pixels[0], 255);
}

#[test]
fn invert_flips_pixels() {
    let mut img = GrayImage::from_raw(3, 1, vec![0, 100, 255]).unwrap();
    img.invert();
    assert_eq!(img.pixels, vec![255, 155, 0]);
}

#[test]
fn image_constructors_check_sizes() {
    assert!(GrayImage::from_raw(2, 2, vec![0; 3]).is_none());
    assert!(GrayImage::from_pixel(usize::MAX, 2, 0).is_none());
    assert_eq!(GrayImage::from_raw(2, 2, vec![1, 2, 3, 4]).unwrap().get_pixel(1, 1), 4);
}

#[test]
fn resize_height_keeps_aspect() {
    assert_eq!(target_height(100, 50, 384, None), 192);
    assert_eq!(target_height(3, 1, 2, None), 1);
    assert_eq!(target_height(4, 1, 2, None), 1);
    assert_eq!(target_height(4, 3, 2, None), 2);
    assert_eq!(target_height(1000, 1, 10, None), 1);
    assert_eq!(target_height(0, 0, 384, None), 384);
    assert_eq!(target_height(100, 100, 384, Some(50)), 50);
    assert_eq!(target_height(100, 100, 384, Some(0)), 1);
    assert_eq!(target_height(1, u32::MAX, 384, None), u32::MAX);
}

#[test]
fn png_preview_has_signature() {
    let img = GrayImage::from_pixel(4, 3, 200).unwrap();
    let png = encode_png(&img).unwrap();
    assert_eq!(&png[..8], &[0x89, 0x50, 0x4E, 0x47, 0x0D, 0x0A, 0x1A, 0x0A]);
    assert!(png.len() > 8);
}

#[test]
fn png_of_empty_image_is_refused() {
    let img = GrayImage::from_pixel(0, 3, 0).unwrap();
    assert_eq!(encode_png(&img), Err(EncodeError::Empty));
}

#[test]
fn load_for_print_decodes_and_resizes() {
    let img = GrayImage::from_pixel(10, 4, 0).unwrap();
    let png = encode_png(&img).unwrap();
    let out = load_for_print(&png, 20, None).unwrap();
    assert_eq!((out.width, out.height), (20, 8));
    assert_eq!(out.pixels.len(), 160);
    assert!(out.pixels.iter().all(|p| *p < 10));
    let capped = load_for_print(&png, 20, Some(3)).unwrap();
    assert_eq!(capped.height, 3);
    assert!(load_for_print(b"not an image", 20, None).is_none());
}
