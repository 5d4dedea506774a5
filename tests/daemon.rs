use base64::Engine;
use funnyprint::daemon::{
    check_image_request, check_text_request, decode_image_base64, wait_step, ApiError, Daemon,
    JobStatus, WaitStep,
};
use funnyprint::raster::{image_to_packed_lines, GrayImage};
use funnyprint::text::{
    authorized, format_id, is_allowed_size, is_blank_text, next_id, scan_seconds, str_eq,
    wait_seconds,
};

fn sample_render(d: &mut Daemon, address: Option<&str>) -> String {
    let mut img = GrayImage::from_pixel(8, 4, 255).unwrap();
    img.pixels[0] = 0;
    let lines = image_to_packed_lines(&img, 128, true);
    d.create_render(&img, lines, None, address.map(|a| a.to_string())).unwrap()
}

#[test]
fn render_ids_count_up() {
    let mut d = Daemon::new(None);
    assert_eq!(sample_render(&mut d, None), "r_1");
    assert_eq!(sample_render(&mut d, None), "r_2");
}

#[test]
fn preview_is_png() {
    let mut d = Daemon::new(None);
    let id = sample_render(&mut d, None);
    let url = format!("/api/v1/renders/{id}/preview");
    assert_eq!(url, "/api/v1/renders/r_1/preview");
    let png = d.preview(&id).unwrap();
    assert_eq!(&png[..8], &[0x89, 0x50, 0x4E, 0x47, 0x0D, 0x0A, 0x1A, 0x0A]);
    assert_eq!(d.preview("r_9"), Err(ApiError::RenderNotFound));
}

#[test]
fn render_refusals() {
    let mut d = Daemon::new(None);
    let img = GrayImage::from_pixel(8, 2, 255).unwrap();
    assert_eq!(d.create_render(&img, Vec::new(), None, None), Err(ApiError::BlankRender));
    let lines = vec![[1u8; 96]];
    assert_eq!(d.create_render(&img, lines, Some(8), None), Err(ApiError::InvalidDensity));
    assert_eq!(d.preview("r_1"), Err(ApiError::RenderNotFound));
}

#[test]
fn job_lifecycle() {
    let mut d = Daemon::new(Some("AA:BB:CC:DD:EE:FF".to_string()));
    let r = sample_render(&mut d, None);
    let j = d.queue_print(&r, None, None).unwrap();
    assert_eq!(j, "j_1");
    let rec = d.get_job(&j).unwrap();
    assert_eq!(rec.status, JobStatus::Queued);
    assert_eq!(rec.address, "AA:BB:CC:DD:EE:FF");
    assert_eq!(rec.density, 3);
    assert_eq!(rec.render_id, "r_1");

    let cmd = d.start_next().unwrap();
    assert_eq!(cmd.job_id, "j_1");
    assert_eq!(cmd.lines.len(), 1);
    assert_eq!(d.get_job(&j).unwrap().status, JobStatus::Printing);

    d.finish_active(Ok(()));
    let rec = d.get_job(&j).unwrap();
    assert_eq!(rec.status, JobStatus::Done);
    assert!(rec.error.is_none());
}

#[test]
fn failed_job_keeps_message() {
    let mut d = Daemon::new(None);
    let r = sample_render(&mut d, Some("11:22:33:44:55:66"));
    let j = d.queue_print(&r, None, Some(7)).unwrap();
    d.start_next().unwrap();
    d.finish_active(Err("timeout waiting for handshake".to_string()));
    let rec = d.get_job(&j).unwrap();
    assert_eq!(rec.status, JobStatus::Failed);
    assert_eq!(rec.error.as_deref(), Some("timeout waiting for handshake"));
    assert_eq!(rec.address, "11:22:33:44:55:66");
}

#[test]
fn address_precedence() {
    let mut d = Daemon::new(Some("DEFAULT".to_string()));
    let r = sample_render(&mut d, Some("RENDER"));
    let j1 = d.queue_print(&r, Some("REQUEST".to_string()), None).unwrap();
    let j2 = d.queue_print(&r, None, None).unwrap();
    assert_eq!(d.get_job(&j1).unwrap().address, "REQUEST");
    assert_eq!(d.get_job(&j2).unwrap().address, "RENDER");
}

#[test]
fn queue_refusals() {
    let mut d = Daemon::new(None);
    assert_eq!(d.queue_print("r_1", None, None), Err(ApiError::RenderNotFound));
    let r = sample_render(&mut d, None);
    assert_eq!(d.queue_print(&r, None, None), Err(ApiError::MissingAddress));
    assert_eq!(d.queue_print(&r, Some("A".to_string()), Some(9)), Err(ApiError::InvalidDensity));
    assert!(matches!(d.get_job("j_1"), Err(ApiError::JobNotFound)));
}

#[test]
fn queue_full_is_unavailable() {
    let mut d = Daemon::new(Some("A".to_string()));
    let r = sample_render(&mut d, None);
    for _ in 0..64 {
        d.queue_print(&r, None, None).unwrap();
    }
    assert_eq!(d.queue_print(&r, None, None), Err(ApiError::QueueUnavailable));
    assert!(matches!(d.get_job("j_65"), Err(ApiError::JobNotFound)));
    d.start_next().unwrap();
    assert_eq!(d.queue_print(&r, None, None).unwrap(), "j_65");
}

#[test]
fn one_session_at_a_time() {
    let mut d = Daemon::new(Some("A".to_string()));
    let r = sample_render(&mut d, None);
    let a = d.queue_print(&r, None, None).unwrap();
    let b = d.queue_print(&r, None, None).unwrap();
    assert_eq!(d.start_next().unwrap().job_id, a);
    assert!(d.start_next().is_none());
    assert_eq!(d.get_job(&b).unwrap().status, JobStatus::Queued);
    d.finish_active(Ok(()));
    assert_eq!(d.start_next().unwrap().job_id, b);
    assert!(d.start_next().is_none());
}

#[test]
fn job_ids_increase() {
    let mut d = Daemon::new(Some("A".to_string()));
    let r = sample_render(&mut d, None);
    let ids: Vec<String> = (0..12).map(|_| d.queue_print(&r, None, None).unwrap()).collect();
    let nums: Vec<u64> = ids.iter().map(|s| s[2..].parse().unwrap()).collect();
    assert!(nums.windows(2).all(|w| w[0] < w[1]));
}

#[test]
fn nothing_to_start() {
    let mut d = Daemon::new(None);
    assert!(d.start_next().is_none());
    d.finish_active(Ok(()));
    assert!(matches!(d.get_job("j_1"), Err(ApiError::JobNotFound)));
}

#[test]
fn wait_steps() {
    assert_eq!(wait_step(None, false), WaitStep::NotFound);
    assert_eq!(wait_step(Some(JobStatus::Done), false), WaitStep::Finished);
    assert_eq!(wait_step(Some(JobStatus::Failed), true), WaitStep::Finished);
    assert_eq!(wait_step(Some(JobStatus::Printing), true), WaitStep::TimedOut);
    assert_eq!(wait_step(Some(JobStatus::Queued), false), WaitStep::Poll);
}

#[test]
fn request_checks() {
    assert_eq!(check_text_request(" \n\t", None), Err(ApiError::EmptyText));
    assert_eq!(check_text_request("", Some(10)), Err(ApiError::EmptyText));
    assert_eq!(check_text_request("hi", Some(385)), Err(ApiError::WidthOutOfRange));
    assert_eq!(check_text_request("hi", None), Ok(384));
    assert_eq!(check_image_request(Some(0)), Err(ApiError::WidthOutOfRange));
    assert_eq!(check_image_request(Some(400)), Err(ApiError::WidthOutOfRange));
    assert_eq!(check_image_request(Some(200)), Ok(200));
}

#[test]
fn base64_payloads() {
    assert_eq!(decode_image_base64("aGVsbG8="), Ok(b"hello".to_vec()));
    assert_eq!(decode_image_base64("not base64!"), Err(ApiError::InvalidBase64));
}

#[test]
fn identifiers() {
    assert_eq!(format_id("j", 0), "j_0");
    assert_eq!(format_id("r", 1234567890), "r_1234567890");
    let mut seq = 41u64;
    assert_eq!(next_id("j", &mut seq), "j_41");
    assert_eq!(seq, 42);
    let mut seq = u64::MAX;
    assert_eq!(next_id("r", &mut seq), format!("r_{}", u64::MAX));
    assert_eq!(seq, 0);
}

#[test]
fn text_helpers() {
    assert!(str_eq("abc", "abc"));
    assert!(!str_eq("abc", "abd"));
    assert!(is_blank_text("\u{3000} \u{2028}"));
    assert!(!is_blank_text(" x "));
    assert!(authorized(None, ""));
    assert!(authorized(Some("tok"), "tok"));
    assert!(!authorized(Some("tok"), ""));
    assert!(is_allowed_size("1024x1536"));
    assert!(!is_allowed_size("512x512"));
    assert_eq!(scan_seconds(None), 3);
    assert_eq!(scan_seconds(Some(0)), 1);
    assert_eq!(scan_seconds(Some(99)), 15);
    assert_eq!(wait_seconds(None), 20);
    assert_eq!(wait_seconds(Some(500)), 120);
}

fn image_request(b64: String, width: Option<u32>) -> funnyprint::daemon::ImageRenderRequest {
    funnyprint::daemon::ImageRenderRequest {
        image_base64: b64,
        width_px: width,
        max_height_px: None,
        threshold: None,
        dither_method: Some(funnyprint::raster::DitherMethod::Threshold),
        invert: None,
        trim_blank_top_bottom: None,
        density: None,
        address: None,
    }
}

fn black_png_base64() -> String {
    let img = GrayImage::from_pixel(4, 2, 0).unwrap();
    let png = funnyprint::raster::encode_png(&img).unwrap();
    base64::engine::general_purpose::STANDARD.encode(png)
}

#[test]
fn image_render_pipeline() {
    let mut d = Daemon::new(None);
    let s = d.render_image(image_request(black_png_base64(), Some(8))).unwrap();
    assert_eq!(s.render_id, "r_1");
    assert_eq!((s.preview.width, s.preview.height), (8, 4));
    assert!(s.preview.pixels.iter().all(|p| *p == 0));
    assert_eq!(s.packed_lines, 2);
    let png = d.preview("r_1").unwrap();
    assert_eq!(&png[..8], &[0x89, 0x50, 0x4E, 0x47, 0x0D, 0x0A, 0x1A, 0x0A]);
}

#[test]
fn image_render_refusals() {
    let mut d = Daemon::new(None);
    assert!(matches!(
        d.render_image(image_request(black_png_base64(), Some(0))),
        Err(ApiError::WidthOutOfRange)
    ));
    assert!(matches!(
        d.render_image(image_request("***".to_string(), None)),
        Err(ApiError::InvalidBase64)
    ));
    let junk = base64::engine::general_purpose::STANDARD.encode(b"hello");
    assert!(matches!(d.render_image(image_request(junk, None)), Err(ApiError::InvalidImage)));
    let white = GrayImage::from_pixel(4, 2, 255).unwrap();
    let png = funnyprint::raster::encode_png(&white).unwrap();
    let b64 = base64::engine::general_purpose::STANDARD.encode(png);
    assert!(matches!(d.render_image(image_request(b64, None)), Err(ApiError::BlankRender)));
    assert_eq!(d.preview("r_1"), Err(ApiError::RenderNotFound));
}

#[test]
fn empty_preview_cannot_be_stored() {
    let mut d = Daemon::new(None);
    let img = GrayImage::from_pixel(0, 2, 255).unwrap();
    assert_eq!(d.create_render(&img, vec![[1u8; 96]], None, None), Err(ApiError::Encode));
}

#[test]
fn prepare_then_store() {
    let b64 = black_png_base64();
    let bw = funnyprint::daemon::prepare_image_render(&image_request(b64, Some(8))).unwrap();
    assert_eq!((bw.width, bw.height), (8, 4));
    assert!(bw.pixels.iter().all(|p| *p == 0 || *p == 255));
    let mut d = Daemon::new(None);
    let s = d.store_image_render(bw, true, Some(2), Some("A".to_string())).unwrap();
    assert_eq!(s.render_id, "r_1");
    assert_eq!(s.packed_lines, 2);
    let j = d.queue_print("r_1", None, None).unwrap();
    let rec = d.get_job(&j).unwrap();
    assert_eq!((rec.address.as_str(), rec.density), ("A", 2));
}

#[test]
fn store_refuses_blank_and_bad_density() {
    let mut d = Daemon::new(None);
    let white = GrayImage::from_pixel(8, 4, 255).unwrap();
    assert!(matches!(d.store_image_render(white.clone(), true, None, None), Err(ApiError::BlankRender)));
    let black = GrayImage::from_pixel(8, 4, 0).unwrap();
    assert!(matches!(d.store_image_render(black, true, Some(9), None), Err(ApiError::InvalidDensity)));
    let s = d.store_image_render(white, false, None, None).unwrap();
    assert_eq!(s.packed_lines, 2);
}
