use base64::Engine;
use pix_mcp::analysis::CommandOutput;
use pix_mcp::failure::Failure;
use pix_mcp::images::{choose_embedding, interleave, plane_of, to_bytes, to_words, Embedding};
use pix_mcp::pixtool::Argument;
use pix_mcp::screenshot::{
    decode_png_file, embed_image, encode_thumbnail, screenshot_output_path, screenshot_request,
    validate_screenshot_options, ScreenshotArgs, ScreenshotPlan, ScreenshotRequest,
    MAX_EMBEDDED_SCREENSHOT_BYTES, SCREENSHOT_MAX_DIMENSION,
};

fn png(width: u32, height: u32) -> Vec<u8> {
    let image = image::RgbImage::from_pixel(width, height, image::Rgb([200, 30, 30]));
    let mut target = std::io::Cursor::new(Vec::new());
    image::DynamicImage::ImageRgb8(image)
        .write_to(&mut target, image::ImageFormat::Png)
        .expect("write test png");
    target.into_inner()
}

fn request() -> ScreenshotRequest {
    ScreenshotRequest {
        capture_path: "a.wpix".to_string(),
        output_path: "shot".to_string(),
        depth: false,
        marker: None,
        global_id: None,
        rtv_index: None,
        embed_image: true,
        max_dimension: 64,
        replace_existing: true,
    }
}

fn quiet() -> CommandOutput {
    CommandOutput {
        success: true,
        exit_code: Some(0),
        status: "exit status: 0".to_string(),
        stdout: String::new(),
        stderr: String::new(),
        public_stdout: String::new(),
        public_stderr: String::new(),
    }
}

fn words(list: &[Argument]) -> Vec<String> {
    list.iter()
        .map(|argument| match argument {
            Argument::Plain(text) => text.clone(),
            Argument::Valued { option, value } => format!("{option}={value}"),
        })
        .collect()
}

#[test]
fn test_encode_thumbnail_downscales_and_is_valid_png() {
    let source = png(2000, 50);

    let b64 = encode_thumbnail(&source, 256).expect("encode thumbnail");
    assert!(!b64.is_empty());

    let bytes = base64::engine::general_purpose::STANDARD
        .decode(b64)
        .expect("valid base64");
    let decoded = image::load_from_memory(&bytes).expect("valid png");
    assert!(decoded.width() <= 256 && decoded.height() <= 256);
    assert_eq!(
        decode_png_file(&source, "a.png").expect("validate png"),
        (2000, 50)
    );
}

#[test]
fn small_screenshots_keep_their_size() {
    let b64 = encode_thumbnail(&png(40, 30), 64).expect("encode image");
    let bytes = base64::engine::general_purpose::STANDARD
        .decode(b64)
        .expect("valid base64");
    assert_eq!(decode_png_file(&bytes, "a.png").expect("a png"), (40, 30));
    assert!(encode_thumbnail(b"no image", 64).is_err());
}

fn written(image: image::DynamicImage) -> Vec<u8> {
    let mut target = std::io::Cursor::new(Vec::new());
    image
        .write_to(&mut target, image::ImageFormat::Png)
        .expect("write test png");
    target.into_inner()
}

fn embedded(source: &[u8], side: u32) -> Vec<u8> {
    let b64 = encode_thumbnail(source, side).expect("a thumbnail");
    base64::engine::general_purpose::STANDARD
        .decode(b64)
        .expect("valid base64")
}

#[test]
fn deep_images_are_scaled_down_to_any_side() {
    let image = image::ImageBuffer::from_pixel(512, 512, image::Luma([u16::MAX]));
    let source = written(image::DynamicImage::ImageLuma16(image));
    for side in [2, 1] {
        let bytes = embedded(&source, side);
        assert_eq!(decode_png_file(&bytes, "a.png").expect("a png"), (side, side));
        let small = image::load_from_memory(&bytes).expect("valid png");
        assert_eq!(small.color(), image::ColorType::L16);
        assert!(small.into_luma16().pixels().all(|pixel| pixel.0 == [u16::MAX]));
    }
}

#[test]
fn shallow_images_are_scaled_down_to_any_side() {
    let image = image::ImageBuffer::from_pixel(512, 512, image::Luma([u8::MAX]));
    let bytes = embedded(&written(image::DynamicImage::ImageLuma8(image)), 1);
    assert_eq!(decode_png_file(&bytes, "a.png").expect("a png"), (1, 1));
    let image = image::ImageBuffer::from_pixel(4105, 4105, image::Rgb([200_u8, 30, 255]));
    let bytes = embedded(&written(image::DynamicImage::ImageRgb8(image)), 1);
    let small = image::load_from_memory(&bytes).expect("valid png");
    assert_eq!(small.color(), image::ColorType::Rgb8);
    assert_eq!(small.into_rgb8().into_raw(), [200, 30, 255]);
}

#[test]
fn wider_sums_give_the_same_thumbnail() {
    let image = image::ImageBuffer::from_fn(1000, 700, |x, y| {
        image::Rgba([(x % 977) as u16, (y % 501) as u16, (x * y % 613) as u16, 40])
    });
    let image = image::DynamicImage::ImageRgba16(image);
    let source = written(image.clone());
    for side in [1, 2, 3] {
        assert_eq!(choose_embedding(1000, 700, 8, 4, side), Embedding::Planes);
        assert_eq!(embedded(&source, side), written(image.thumbnail(side, side)));
    }
    let image = image::ImageBuffer::from_fn(300, 1100, |x, y| {
        image::LumaA([(x * y % 613) as u16, (x + y) as u16])
    });
    let source = written(image::DynamicImage::ImageLumaA16(image));
    assert_eq!(choose_embedding(300, 1100, 4, 2, 2), Embedding::Planes);
    let small = image::load_from_memory(&embedded(&source, 2)).expect("valid png");
    assert_eq!((small.width(), small.height()), (1, 2));
    assert_eq!(small.color(), image::ColorType::La16);
    assert_eq!(small.into_luma_alpha16().into_raw(), [304, 424, 305, 974]);
}

#[test]
fn images_are_kept_or_scaled_down() {
    assert_eq!(choose_embedding(64, 64, 4, 4, 64), Embedding::Whole);
    assert_eq!(choose_embedding(0, 0, 4, 4, 0), Embedding::Whole);
    assert_eq!(choose_embedding(65, 64, 4, 4, 64), Embedding::Thumbnail);
    assert_eq!(choose_embedding(4100, 4100, 3, 3, 1), Embedding::Thumbnail);
    assert_eq!(choose_embedding(4105, 4105, 3, 3, 1), Embedding::Planes);
    assert_eq!(choose_embedding(256, 256, 6, 3, 1), Embedding::Thumbnail);
    assert_eq!(choose_embedding(257, 256, 6, 3, 1), Embedding::Planes);
    assert_eq!(choose_embedding(16384, 16384, 8, 4, 64), Embedding::Thumbnail);
    assert_eq!(choose_embedding(16384, 16384, 8, 4, 63), Embedding::Planes);
    assert_eq!(choose_embedding(16384, 1, 2, 1, 0), Embedding::Thumbnail);
}

#[test]
fn channels_are_taken_apart_and_put_together() {
    let samples = vec![1, 2, 3, 10, 20, 30];
    let planes: Vec<Vec<u32>> = (0..3).map(|channel| plane_of(&samples, 3, channel)).collect();
    assert_eq!(planes, [[1, 10], [2, 20], [3, 30]]);
    let all = interleave(&planes, 2);
    assert_eq!(all, [1, 2, 3, 10, 20, 30]);
    assert_eq!(to_bytes(&all), [1, 2, 3, 10, 20, 30]);
    assert_eq!(to_words(&vec![0, 65_535]), [0, 65_535]);
}

#[test]
fn images_are_embedded_as_base64() {
    assert_eq!(embed_image(b"png".to_vec()).expect("small"), "cG5n");
    assert_eq!(embed_image(b"".to_vec()).expect("empty"), "");
    assert_eq!(embed_image(vec![0xFF]).expect("one byte"), "/w==");
    assert_eq!(embed_image(vec![0xFB, 0xEF]).expect("two bytes"), "++8=");
    assert_eq!(
        embed_image(vec![0; MAX_EMBEDDED_SCREENSHOT_BYTES + 1])
            .expect_err("too large")
            .to_text(),
        "Embedded screenshot is too large (8388609 bytes; maximum 8388608). Lower max_dimension or set embed_image=false."
    );
}

#[test]
fn only_png_images_are_accepted() {
    assert_eq!(
        decode_png_file(b"", "a.png").expect_err("empty").to_text(),
        "PNG output is missing or empty: a.png"
    );
    assert_eq!(
        decode_png_file(b"GIF89a........", "a.png").expect_err("gif").to_text(),
        "pixtool output is not a PNG image: a.png"
    );
    assert_eq!(
        decode_png_file(b"something else", "a.png").expect_err("text").to_text(),
        "pixtool produced an invalid PNG: a.png"
    );
    let mut broken = png(8, 8);
    broken.truncate(40);
    assert_eq!(
        decode_png_file(&broken, "a.png").expect_err("cut").to_text(),
        "pixtool produced an invalid PNG: a.png"
    );
}

#[test]
fn test_screenshot_option_validation_rejects_invalid_combinations_and_ranges() {
    assert!(validate_screenshot_options(false, None, None, None, true, 0).is_err());
    assert!(validate_screenshot_options(
        false,
        None,
        None,
        None,
        true,
        SCREENSHOT_MAX_DIMENSION + 1,
    )
    .is_err());
    assert!(validate_screenshot_options(true, None, None, Some(0), true, 1280).is_err());
    assert!(
        validate_screenshot_options(false, Some("marker"), Some(42), None, true, 1280).is_err()
    );
    assert!(validate_screenshot_options(false, Some("  "), None, None, true, 1280).is_err());
    assert!(validate_screenshot_options(false, Some("frame"), None, None, true, 1280).is_ok());
    assert!(validate_screenshot_options(false, None, None, Some(8), true, 1280).is_err());
    assert!(validate_screenshot_options(false, None, None, None, false, 0).is_ok());
}

#[test]
fn screenshot_paths_end_with_png() {
    assert_eq!(screenshot_output_path("a").expect("a path"), "a.png");
    assert_eq!(screenshot_output_path("a.PNG").expect("a path"), "a.PNG");
    assert_eq!(screenshot_output_path("a.jpg").expect("a path"), "a.jpg.png");
    assert_eq!(
        screenshot_output_path(" ").expect_err("blank").to_text(),
        "output_path must not be empty"
    );
}

#[test]
fn requests_have_defaults() {
    let args = ScreenshotArgs {
        capture_path: "a.wpix".to_string(),
        output_path: None,
        depth: None,
        marker: None,
        global_id: Some(9),
        rtv_index: None,
        embed_image: None,
        max_dimension: None,
    };
    let request = screenshot_request(args, "shot.png".to_string());
    assert!(request.embed_image && request.replace_existing && !request.depth);
    assert_eq!(request.max_dimension, 1280);
    assert_eq!(request.global_id, Some(9));
}

#[test]
fn commands_select_what_is_saved() {
    let plan = ScreenshotPlan::new(request()).expect("a plan");
    assert_eq!(plan.output_path(), "shot.png");
    assert_eq!(
        words(&plan.command("a.wpix", "t.png").expect("a command")),
        vec!["open-capture", "a.wpix", "save-screenshot", "t.png"]
    );
    let mut replay = request();
    replay.rtv_index = Some(2);
    replay.marker = Some("Shadow pass".to_string());
    let plan = ScreenshotPlan::new(replay).expect("a plan");
    assert_eq!(
        words(&plan.command("a.wpix", "t.png").expect("a command")),
        vec![
            "open-capture",
            "a.wpix",
            "save-resource",
            "t.png",
            "--rtv=2",
            "--marker=Shadow pass",
        ]
    );
    let mut depth = request();
    depth.depth = true;
    depth.global_id = Some(77);
    let plan = ScreenshotPlan::new(depth).expect("a plan");
    assert_eq!(
        words(&plan.command("a.wpix", "t.png").expect("a command")),
        vec![
            "open-capture",
            "a.wpix",
            "save-resource",
            "t.png",
            "--depth",
            "--global-id=77",
        ]
    );
    let mut unsafe_marker = request();
    unsafe_marker.marker = Some("a\"b".to_string());
    let plan = ScreenshotPlan::new(unsafe_marker).expect("a plan");
    assert!(plan.command("a.wpix", "t.png").is_err());
}

#[test]
fn screenshots_are_accepted_before_they_are_moved() {
    let bytes = png(100, 10);
    let plan = ScreenshotPlan::new(request()).expect("a plan");
    let staged = plan
        .accept(&quiet(), Ok(bytes.clone()), "t.png")
        .expect("a screenshot");
    assert!(staged.replaces_existing());
    let result = staged.answer("shot.png".to_string());
    assert_eq!(result.report.file_size_bytes, bytes.len() as u64);
    assert_eq!(
        result.report.message,
        "Screenshot saved (frame recorded at capture time)"
    );
    assert!(result.report.image_embedded);
    assert!(result.image_b64.is_some());

    let plan = ScreenshotPlan::new(request()).expect("a plan");
    assert_eq!(
        plan.accept(&quiet(), Ok(Vec::new()), "t.png").expect_err("empty").to_text(),
        "Failed to save a valid screenshot: PNG output is missing or empty: t.png\nstdout: \nstderr: "
    );
    let mut failing = quiet();
    failing.stdout = "could not open capture".to_string();
    let plan = ScreenshotPlan::new(request()).expect("a plan");
    assert!(plan.accept(&failing, Ok(bytes), "t.png").is_err());
    let plan = ScreenshotPlan::new(request()).expect("a plan");
    let unread = Err(Failure::of("PNG output was not created: t.png"));
    assert_eq!(
        plan.accept(&quiet(), unread, "t.png").expect_err("missing").to_text(),
        "Failed to save a valid screenshot: PNG output was not created: t.png\nstdout: \nstderr: "
    );
}

#[test]
fn screenshots_are_not_embedded_unasked() {
    let bytes = png(10, 10);
    let mut quietly = request();
    quietly.embed_image = false;
    quietly.depth = true;
    quietly.replace_existing = false;
    let plan = ScreenshotPlan::new(quietly).expect("a plan");
    let staged = plan
        .accept(&quiet(), Ok(bytes.clone()), "t.png")
        .expect("a screenshot");
    assert!(!staged.replaces_existing());
    let result = staged.answer("shot.png".to_string());
    assert!(!result.report.image_embedded);
    assert_eq!(
        result.report.message,
        "Resource saved (render target / depth via capture replay)"
    );
}
