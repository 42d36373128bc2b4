//! Screenshots: what may be asked for, and the image that is embedded in the answer.

use crate::analysis::{
    accept_command, artifact_problem, unusable_artifact, with_streams, CommandOutput,
};
use crate::failure::Failure;
use crate::images::{
    choose_embedding, embedding_of, guess_other_format, is_other_format, png_of_planes, png_rewritten,
    png_shape, png_size, png_thumbnail, read_png_shape, rewrite_png, scale_planes,
    thumbnail_png, Embedding,
};
use crate::numbers::{decimal, decimal_text};
use crate::pixtool::{
    arguments, is_command, is_safe, lemma_arguments_push, push_value_option, unsafe_text, Arg,
    Argument,
};
use crate::text::{
    blank, concat3, ends_with, ends_with_text, is_blank, optional_text, unicode_lower,
};
use vstd::prelude::*;
use vstd::string::*;

verus! {

pub const SCREENSHOT_MAX_DIMENSION: u32 = 4096;

pub const SCREENSHOT_DEFAULT_DIMENSION: u32 = 1280;

pub const MAX_SCREENSHOT_SOURCE_DIMENSION: u32 = 16_384;

pub const MAX_SCREENSHOT_DECODE_BYTES: u64 = 268_435_456;

pub const MAX_EMBEDDED_SCREENSHOT_BYTES: usize = 8_388_608;

/// A request for a screenshot of a capture.
#[derive(Debug)]
pub struct ScreenshotArgs {
    pub capture_path: String,
    pub output_path: Option<String>,
    /// The depth buffer instead of the colors.
    pub depth: Option<bool>,
    /// What is bound in the region of a PIX marker.
    pub marker: Option<String>,
    /// What is bound at a draw.
    pub global_id: Option<u64>,
    /// Which of several render targets.
    pub rtv_index: Option<u64>,
    /// Whether the image is part of the answer.
    pub embed_image: Option<bool>,
    /// The longest side of the image in the answer, in pixels.
    pub max_dimension: Option<u32>,
}

/// A screenshot that is to be made.
#[derive(Debug)]
pub struct ScreenshotRequest {
    pub capture_path: String,
    pub output_path: String,
    pub depth: bool,
    pub marker: Option<String>,
    pub global_id: Option<u64>,
    pub rtv_index: Option<u64>,
    pub embed_image: bool,
    pub max_dimension: u32,
    /// Whether a file that is already there may be replaced.
    pub replace_existing: bool,
}

/// What a request for a screenshot is answered.
#[derive(Debug)]
pub struct ScreenshotReport {
    pub success: bool,
    pub output_path: String,
    pub file_size_bytes: u64,
    pub message: String,
    pub image_embedded: bool,
}

/// The answer, and the image in it, as base64.
#[derive(Debug)]
pub struct ScreenshotResult {
    pub report: ScreenshotReport,
    pub image_b64: Option<String>,
}

/// The screenshot that a request asks for, to be saved to `output_path`.
pub fn screenshot_request(args: ScreenshotArgs, output_path: String) -> (r: ScreenshotRequest)
    ensures
        r.capture_path == args.capture_path,
        r.output_path == output_path,
        r.depth == (args.depth == Some(true)),
        r.marker == args.marker,
        r.global_id == args.global_id,
        r.rtv_index == args.rtv_index,
        r.embed_image == (args.embed_image != Some(false)),
        r.max_dimension == match args.max_dimension {
            Some(n) => n,
            None => SCREENSHOT_DEFAULT_DIMENSION,
        },
        r.replace_existing,
{
    ScreenshotRequest {
        capture_path: args.capture_path,
        output_path,
        depth: match args.depth {
            Some(wanted) => wanted,
            None => false,
        },
        marker: args.marker,
        global_id: args.global_id,
        rtv_index: args.rtv_index,
        embed_image: match args.embed_image {
            Some(wanted) => wanted,
            None => true,
        },
        max_dimension: match args.max_dimension {
            Some(n) => n,
            None => SCREENSHOT_DEFAULT_DIMENSION,
        },
        replace_existing: true,
    }
}

/// What is wrong with the options of a screenshot, if anything.
pub open spec fn screenshot_problem(
    depth: bool,
    marker: Option<Seq<char>>,
    global_id: Option<u64>,
    rtv_index: Option<u64>,
    embed_image: bool,
    max_dimension: u32,
) -> Option<Seq<char>> {
    if embed_image && !(1 <= max_dimension <= SCREENSHOT_MAX_DIMENSION) {
        Some("max_dimension must be between 1 and 4096 pixels"@)
    } else if depth && rtv_index is Some {
        Some("depth and rtv_index are mutually exclusive resource selectors"@)
    } else if rtv_index is Some && rtv_index->0 > 7 {
        Some("rtv_index must be between 0 and 7"@)
    } else if marker is Some && global_id is Some {
        Some("marker and global_id are mutually exclusive event selectors"@)
    } else if marker is Some && is_blank(marker->0) {
        Some("marker must not be empty"@)
    } else {
        None
    }
}

/// The characters of an optional text.
pub open spec fn optional_str(item: Option<&str>) -> Option<Seq<char>> {
    match item {
        Some(text) => Some(text@),
        None => None,
    }
}

/// Refuses options that contradict each other or are out of range.
pub fn validate_screenshot_options(
    depth: bool,
    marker: Option<&str>,
    global_id: Option<u64>,
    rtv_index: Option<u64>,
    embed_image: bool,
    max_dimension: u32,
) -> (r: Result<(), Failure>)
    ensures
        match screenshot_problem(
            depth,
            optional_str(marker),
            global_id,
            rtv_index,
            embed_image,
            max_dimension,
        ) {
            None => r is Ok,
            Some(problem) => r is Err && r->Err_0.message@ == problem,
        },
{
    if embed_image && (max_dimension < 1 || max_dimension > SCREENSHOT_MAX_DIMENSION) {
        return Err(Failure::of("max_dimension must be between 1 and 4096 pixels"));
    }
    if depth && rtv_index.is_some() {
        return Err(
            Failure::of("depth and rtv_index are mutually exclusive resource selectors"),
        );
    }
    if let Some(index) = rtv_index {
        if index > 7 {
            return Err(Failure::of("rtv_index must be between 0 and 7"));
        }
    }
    if marker.is_some() && global_id.is_some() {
        return Err(Failure::of("marker and global_id are mutually exclusive event selectors"));
    }
    if let Some(text) = marker {
        if blank(text) {
            return Err(Failure::of("marker must not be empty"));
        }
    }
    Ok(())
}

/// Where a screenshot goes, given its path in lower case: a path that does not end with `.png`
/// gets that ending.
pub open spec fn png_path(path: Seq<char>, lower: Seq<char>) -> Seq<char> {
    if ends_with(lower, ".png"@) {
        path
    } else {
        path + ".png"@
    }
}

/// Adds `.png` to a path that, in lower case, does not end with it.
pub fn add_png(path: &str, lower: &str) -> (r: String)
    ensures
        r@ == png_path(path@, lower@),
{
    let mut r = path.to_string();
    if !ends_with_text(lower, ".png") {
        r.append(".png");
    }
    r
}

/// Where a screenshot goes.
pub fn screenshot_output_path(output_path: &str) -> (r: Result<String, Failure>)
    ensures
        if is_blank(output_path@) {
            r is Err && r->Err_0.message@ == "output_path must not be empty"@
        } else {
            r is Ok && r->Ok_0@ == png_path(output_path@, unicode_lower(output_path@))
        },
{
    if blank(output_path) {
        return Err(Failure::of("output_path must not be empty"));
    }
    let lower = output_path.to_lowercase();
    Ok(add_png(output_path, &lower))
}

/// Whether the capture has to be replayed: something else than the recorded screenshot is
/// asked for.
pub open spec fn needs_replay(request: ScreenshotRequest) -> bool {
    request.depth || request.marker is Some || request.global_id is Some || request.rtv_index
        is Some
}

pub fn used_save_resource(request: &ScreenshotRequest) -> (r: bool)
    ensures
        r == needs_replay(*request),
{
    request.depth || request.marker.is_some() || request.global_id.is_some()
        || request.rtv_index.is_some()
}

/// The options that select what is saved.
pub open spec fn resource_options(request: ScreenshotRequest) -> Seq<Arg> {
    (match request.rtv_index {
        Some(n) => seq![Arg::Plain("--rtv="@ + decimal(n as nat))],
        None => seq![],
    }) + (if request.depth {
        seq![Arg::Plain("--depth"@)]
    } else {
        seq![]
    }) + (match request.global_id {
        Some(n) => seq![Arg::Plain("--global-id="@ + decimal(n as nat))],
        None => seq![],
    }) + (match request.marker {
        Some(text) => seq![Arg::Valued("--marker"@, text@)],
        None => seq![],
    })
}

/// Whether `r` is the command that saves a screenshot, or says that the marker cannot be passed.
pub open spec fn is_screenshot_command(
    r: Result<Vec<Argument>, Failure>,
    capture_file: Seq<char>,
    png_file: Seq<char>,
    request: ScreenshotRequest,
) -> bool {
    is_command(
        r,
        match request.marker {
            Some(text) => if is_safe(text@) {
                None
            } else {
                Some(unsafe_text("--marker"@))
            },
            None => None,
        },
        if needs_replay(request) {
            seq![
                Arg::Plain("open-capture"@),
                Arg::Plain(capture_file),
                Arg::Plain("save-resource"@),
                Arg::Plain(png_file),
            ] + resource_options(request)
        } else {
            seq![
                Arg::Plain("open-capture"@),
                Arg::Plain(capture_file),
                Arg::Plain("save-screenshot"@),
                Arg::Plain(png_file),
            ]
        },
    )
}

/// The command that saves a screenshot of `capture_file` to `png_file`: the recorded one, or
/// what a replay of the capture gives.
pub fn screenshot_command(capture_file: &str, png_file: &str, request: &ScreenshotRequest) -> (r:
    Result<Vec<Argument>, Failure>)
    ensures
        is_screenshot_command(r, capture_file@, png_file@, *request),
{
    broadcast use lemma_arguments_push;

    let replay = used_save_resource(request);
    let mut list: Vec<Argument> = Vec::new();
    list.push(Argument::Plain("open-capture".to_string()));
    list.push(Argument::Plain(capture_file.to_string()));
    if !replay {
        list.push(Argument::Plain("save-screenshot".to_string()));
        list.push(Argument::Plain(png_file.to_string()));
        assert(arguments(list@) =~= seq![
            Arg::Plain("open-capture"@),
            Arg::Plain(capture_file@),
            Arg::Plain("save-screenshot"@),
            Arg::Plain(png_file@),
        ]);
        return Ok(list);
    }
    list.push(Argument::Plain("save-resource".to_string()));
    list.push(Argument::Plain(png_file.to_string()));
    let ghost before = seq![
        Arg::Plain("open-capture"@),
        Arg::Plain(capture_file@),
        Arg::Plain("save-resource"@),
        Arg::Plain(png_file@),
    ];
    assert(arguments(list@) =~= before);
    if let Some(n) = request.rtv_index {
        let mut text = "--rtv=".to_string();
        text.append(&decimal_text(n));
        list.push(Argument::Plain(text));
    }
    if request.depth {
        list.push(Argument::Plain("--depth".to_string()));
    }
    if let Some(n) = request.global_id {
        let mut text = "--global-id=".to_string();
        text.append(&decimal_text(n));
        list.push(Argument::Plain(text));
    }
    if let Some(text) = &request.marker {
        push_value_option(&mut list, "--marker", text)?;
    }
    assert(arguments(list@) =~= before + resource_options(*request));
    Ok(list)
}

/// The answer to a request for a screenshot that was saved.
pub fn screenshot_result(
    output_path: String,
    file_size_bytes: u64,
    replayed: bool,
    image_b64: Option<String>,
) -> (r: ScreenshotResult)
    ensures
        r.report.success,
        r.report.output_path == output_path,
        r.report.file_size_bytes == file_size_bytes,
        r.report.message@ == if replayed {
            "Resource saved (render target / depth via capture replay)"@
        } else {
            "Screenshot saved (frame recorded at capture time)"@
        },
        r.report.image_embedded == image_b64 is Some,
        r.image_b64 == image_b64,
{
    let message = if replayed {
        "Resource saved (render target / depth via capture replay)".to_string()
    } else {
        "Screenshot saved (frame recorded at capture time)".to_string()
    };
    ScreenshotResult {
        report: ScreenshotReport {
            success: true,
            output_path,
            file_size_bytes,
            message,
            image_embedded: image_b64.is_some(),
        },
        image_b64,
    }
}

// ---------------------------------------------------------------------------
// Images
// ---------------------------------------------------------------------------

/// The size of the image in `bytes` within the bounds for screenshots.
pub open spec fn screenshot_size(bytes: Seq<u8>) -> Option<(u32, u32)> {
    png_size(bytes, MAX_SCREENSHOT_SOURCE_DIMENSION, MAX_SCREENSHOT_DECODE_BYTES)
}

/// Accepts what `pixtool` saved as a screenshot: a PNG image. `path` is where it is.
pub fn decode_png_file(bytes: &[u8], path: &str) -> (r: Result<(u32, u32), Failure>)
    ensures
        if bytes@.len() == 0 {
            r is Err && r->Err_0.message@ == "PNG output is missing or empty: "@ + path@
        } else if is_other_format(bytes@) {
            r is Err && r->Err_0.message@ == "pixtool output is not a PNG image: "@ + path@
        } else {
            match screenshot_size(bytes@) {
                Some(size) => r == Ok::<(u32, u32), Failure>(size),
                None => r is Err && r->Err_0.message@ == "pixtool produced an invalid PNG: "@
                    + path@,
            }
        },
{
    if bytes.len() == 0 {
        let mut message = "PNG output is missing or empty: ".to_string();
        message.append(path);
        return Err(Failure::new(message));
    }
    let shape = read_png_shape(
        bytes,
        MAX_SCREENSHOT_SOURCE_DIMENSION,
        MAX_SCREENSHOT_DECODE_BYTES,
    );
    let size = match shape {
        Some((width, height, _, _)) => Some((width, height)),
        None => None,
    };
    accept_png(guess_other_format(bytes), size, path)
}

/// Accepts an image, given whether it is in another format and its size, where it was decoded.
pub fn accept_png(other_format: bool, size: Option<(u32, u32)>, path: &str) -> (r: Result<
    (u32, u32),
    Failure,
>)
    ensures
        match (other_format, size) {
            (true, _) => r is Err && r->Err_0.message@ == "pixtool output is not a PNG image: "@
                + path@,
            (false, Some(size)) => r == Ok::<(u32, u32), Failure>(size),
            (false, None) => r is Err && r->Err_0.message@ == "pixtool produced an invalid PNG: "@
                + path@,
        },
{
    if other_format {
        let mut message = "pixtool output is not a PNG image: ".to_string();
        message.append(path);
        return Err(Failure::new(message));
    }
    match size {
        Some(size) => Ok(size),
        None => {
            let mut message = "pixtool produced an invalid PNG: ".to_string();
            message.append(path);
            Err(Failure::new(message))
        },
    }
}

// ---------------------------------------------------------------------------
// Base64
// ---------------------------------------------------------------------------

/// The character for six bits.
pub open spec fn base64_char(n: int) -> char {
    if n < 26 {
        (65 + n) as u8 as char
    } else if n < 52 {
        (71 + n) as u8 as char
    } else if n < 62 {
        (n - 4) as u8 as char
    } else if n == 62 {
        '+'
    } else {
        '/'
    }
}

/// Bytes in base64: four characters for every three bytes, the last four filled up with `=`.
pub open spec fn base64_text(bytes: Seq<u8>) -> Seq<char>
    decreases bytes.len(),
{
    if bytes.len() == 0 {
        seq![]
    } else {
        let a = bytes[0] as int;
        let b = if bytes.len() > 1 {
            bytes[1] as int
        } else {
            0
        };
        let c = if bytes.len() > 2 {
            bytes[2] as int
        } else {
            0
        };
        let group = seq![
            base64_char(a / 4),
            base64_char((a % 4) * 16 + b / 16),
            if bytes.len() > 1 {
                base64_char((b % 16) * 4 + c / 64)
            } else {
                '='
            },
            if bytes.len() > 2 {
                base64_char(c % 64)
            } else {
                '='
            },
        ];
        if bytes.len() > 3 {
            group + base64_text(bytes.skip(3))
        } else {
            group
        }
    }
}

/// `base64::Engine::encode` of the standard engine: base64 with padding. The bound keeps the
/// size of the text within what can be addressed.
#[verifier::external_body]
fn encode_base64(bytes: &Vec<u8>) -> (r: String)
    requires
        bytes.len() <= 0x1000_0000,
    ensures
        r@ == base64_text(bytes@),
{
    base64::Engine::encode(&base64::engine::general_purpose::STANDARD, bytes)
}

/// The image in an answer, as PNG bytes: the screenshot as it is, or scaled down so that no
/// side is longer than `max_dim`. There is none where it is not decoded or written.
pub open spec fn embedded_png(bytes: Seq<u8>, max_dim: u32) -> Option<Seq<u8>> {
    match png_shape(bytes, MAX_SCREENSHOT_SOURCE_DIMENSION, MAX_SCREENSHOT_DECODE_BYTES) {
        None => None,
        Some(shape) => match embedding_of(shape, max_dim) {
            Embedding::Whole => png_rewritten(
                bytes,
                MAX_SCREENSHOT_SOURCE_DIMENSION,
                MAX_SCREENSHOT_DECODE_BYTES,
            ),
            Embedding::Thumbnail => png_thumbnail(
                bytes,
                MAX_SCREENSHOT_SOURCE_DIMENSION,
                MAX_SCREENSHOT_DECODE_BYTES,
                max_dim,
            ),
            Embedding::Planes => png_of_planes(
                bytes,
                MAX_SCREENSHOT_SOURCE_DIMENSION,
                MAX_SCREENSHOT_DECODE_BYTES,
                max_dim,
            ),
        },
    }
}

/// Accepts an image for an answer: one that is not too large, as base64.
pub fn embed_image(png: Vec<u8>) -> (r: Result<String, Failure>)
    ensures
        if png.len() > MAX_EMBEDDED_SCREENSHOT_BYTES {
            r is Err && r->Err_0.message@ == "Embedded screenshot is too large ("@ + decimal(
                png.len() as nat,
            )
                + " bytes; maximum 8388608). Lower max_dimension or set embed_image=false."@
        } else {
            r is Ok && r->Ok_0@ == base64_text(png@)
        },
{
    if png.len() > MAX_EMBEDDED_SCREENSHOT_BYTES {
        return Err(
            Failure::new(
                concat3(
                    "Embedded screenshot is too large (",
                    &decimal_text(png.len() as u64),
                    " bytes; maximum 8388608). Lower max_dimension or set embed_image=false.",
                ),
            ),
        );
    }
    Ok(encode_base64(&png))
}

/// The image of a screenshot for an answer, as base64. No side of it is longer than `max_dim`.
pub fn encode_thumbnail(bytes: &[u8], max_dim: u32) -> (r: Result<String, Failure>)
    ensures
        max_dim > 0 ==> (embedded_png(bytes@, max_dim) matches Some(png) ==> (screenshot_size(
            png,
        ) matches Some((width, height)) ==> width <= max_dim && height <= max_dim)),
        match embedded_png(bytes@, max_dim) {
            None => r is Err && r->Err_0.message@ == "Screenshot thumbnail could not be encoded"@,
            Some(png) => if png.len() > MAX_EMBEDDED_SCREENSHOT_BYTES {
                r is Err && r->Err_0.message@ == "Embedded screenshot is too large ("@ + decimal(
                    png.len(),
                )
                    + " bytes; maximum 8388608). Lower max_dimension or set embed_image=false."@
            } else {
                r is Ok && r->Ok_0@ == base64_text(png)
            },
        },
{
    let shape = read_png_shape(
        bytes,
        MAX_SCREENSHOT_SOURCE_DIMENSION,
        MAX_SCREENSHOT_DECODE_BYTES,
    );
    let png = match shape {
        None => None,
        Some((width, height, pixel_bytes, channels)) => match choose_embedding(
            width,
            height,
            pixel_bytes,
            channels,
            max_dim,
        ) {
            Embedding::Whole => rewrite_png(
                bytes,
                MAX_SCREENSHOT_SOURCE_DIMENSION,
                MAX_SCREENSHOT_DECODE_BYTES,
            ),
            Embedding::Thumbnail => thumbnail_png(
                bytes,
                MAX_SCREENSHOT_SOURCE_DIMENSION,
                MAX_SCREENSHOT_DECODE_BYTES,
                max_dim,
            ),
            Embedding::Planes => scale_planes(
                bytes,
                MAX_SCREENSHOT_SOURCE_DIMENSION,
                MAX_SCREENSHOT_DECODE_BYTES,
                width,
                height,
                pixel_bytes,
                channels,
                max_dim,
            ),
        },
    };
    match png {
        None => Err(Failure::of("Screenshot thumbnail could not be encoded")),
        Some(png) => embed_image(png),
    }
}

// ---------------------------------------------------------------------------
// From a request to an answer
// ---------------------------------------------------------------------------

/// A screenshot that may be made.
#[derive(Debug)]
pub struct ScreenshotPlan {
    request: ScreenshotRequest,
    output_path: String,
}

impl ScreenshotPlan {
    /// The request that is carried out.
    pub closed spec fn asked(&self) -> ScreenshotRequest {
        self.request
    }

    /// Where the screenshot goes.
    pub closed spec fn destination(&self) -> Seq<char> {
        self.output_path@
    }

    /// Accepts a request. Nothing has been run or written yet.
    pub fn new(request: ScreenshotRequest) -> (r: Result<ScreenshotPlan, Failure>)
        ensures
            match screenshot_problem(
                request.depth,
                optional_text(request.marker),
                request.global_id,
                request.rtv_index,
                request.embed_image,
                request.max_dimension,
            ) {
                Some(problem) => r is Err && r->Err_0.message@ == problem,
                None => if is_blank(request.output_path@) {
                    r is Err && r->Err_0.message@ == "output_path must not be empty"@
                } else {
                    r is Ok && r->Ok_0.asked() == request && r->Ok_0.destination() == png_path(
                        request.output_path@,
                        unicode_lower(request.output_path@),
                    )
                },
            },
    {
        let marker: Option<&str> = match &request.marker {
            Some(text) => Some(text.as_str()),
            None => None,
        };
        validate_screenshot_options(
            request.depth,
            marker,
            request.global_id,
            request.rtv_index,
            request.embed_image,
            request.max_dimension,
        )?;
        match screenshot_output_path(&request.output_path) {
            Ok(output_path) => Ok(ScreenshotPlan { request, output_path }),
            Err(e) => Err(e),
        }
    }

    /// Where the screenshot goes.
    pub fn output_path(&self) -> (r: String)
        ensures
            r@ == self.destination(),
    {
        self.output_path.clone()
    }

    /// The command that writes the screenshot to the staging place `png_file`.
    pub fn command(&self, capture_file: &str, png_file: &str) -> (r: Result<Vec<Argument>, Failure>)
        ensures
            is_screenshot_command(r, capture_file@, png_file@, self.asked()),
    {
        screenshot_command(capture_file, png_file, &self.request)
    }

    /// Accepts what the command left at the staging place `png_file`. `file` is what came of
    /// reading it. Only what is accepted may be put where it was to go.
    pub fn accept(self, output: &CommandOutput, file: Result<Vec<u8>, Failure>, png_file: &str) -> (r:
        Result<StagedScreenshot, Failure>)
        ensures
            match artifact_problem(*output, "screenshot export"@) {
                Some(problem) => r is Err && r->Err_0.message@ == problem,
                None => match screenshot_file_problem(file, png_file@) {
                    Some(problem) => r is Err && r->Err_0.message@ == with_streams(
                        "Failed to save a valid screenshot: "@ + problem,
                        *output,
                    ),
                    None => r is Ok && r->Ok_0.asked() == self.asked() && r->Ok_0.contents()
                        == file->Ok_0@,
                },
            },
    {
        accept_command(output, "screenshot export")?;
        let decoded = match file {
            Ok(bytes) => match decode_png_file(&bytes, png_file) {
                Ok(_) => Ok(bytes),
                Err(e) => Err(e),
            },
            Err(e) => Err(e),
        };
        match decoded {
            Ok(bytes) => Ok(StagedScreenshot { request: self.request, bytes }),
            Err(e) => {
                proof {
                    reveal_strlit("Failed to save a valid screenshot");
                    reveal_strlit(": ");
                    reveal_strlit("Failed to save a valid screenshot: ");
                    assert("Failed to save a valid screenshot"@ + ": "@
                        =~= "Failed to save a valid screenshot: "@);
                }
                Err(unusable_artifact("Failed to save a valid screenshot", &e, output))
            },
        }
    }
}

/// What is wrong with the bytes of a screenshot, if anything.
pub open spec fn png_problem(bytes: Seq<u8>, path: Seq<char>) -> Option<Seq<char>> {
    if bytes.len() == 0 {
        Some("PNG output is missing or empty: "@ + path)
    } else if is_other_format(bytes) {
        Some("pixtool output is not a PNG image: "@ + path)
    } else if screenshot_size(bytes) is None {
        Some("pixtool produced an invalid PNG: "@ + path)
    } else {
        None
    }
}

/// What is wrong with the file of a screenshot, if anything.
pub open spec fn screenshot_file_problem(file: Result<Vec<u8>, Failure>, path: Seq<char>) -> Option<
    Seq<char>,
> {
    match file {
        Ok(bytes) => png_problem(bytes@, path),
        Err(e) => Some(e.message@),
    }
}

/// A screenshot that was made and found to be a PNG image.
#[derive(Debug)]
pub struct StagedScreenshot {
    request: ScreenshotRequest,
    bytes: Vec<u8>,
}

impl StagedScreenshot {
    /// The request that was carried out.
    pub closed spec fn asked(&self) -> ScreenshotRequest {
        self.request
    }

    /// The bytes of the image.
    pub closed spec fn contents(&self) -> Seq<u8> {
        self.bytes@
    }

    /// Whether a file that is already at the destination may be replaced.
    pub fn replaces_existing(&self) -> (r: bool)
        ensures
            r == self.asked().replace_existing,
    {
        self.request.replace_existing
    }

    /// The answer, once the screenshot is at `output_path`. An image that cannot be embedded is
    /// left out.
    pub fn answer(self, output_path: String) -> (r: ScreenshotResult)
        ensures
            r.report.success,
            r.report.output_path == output_path,
            r.report.file_size_bytes == self.contents().len(),
            r.report.message@ == if needs_replay(self.asked()) {
                "Resource saved (render target / depth via capture replay)"@
            } else {
                "Screenshot saved (frame recorded at capture time)"@
            },
            r.report.image_embedded == r.image_b64 is Some,
            optional_text(r.image_b64) == if self.asked().embed_image {
                match embedded_png(self.contents(), self.asked().max_dimension) {
                    Some(png) => if png.len() <= MAX_EMBEDDED_SCREENSHOT_BYTES {
                        Some(base64_text(png))
                    } else {
                        None
                    },
                    None => None,
                }
            } else {
                None
            },
    {
        let image_b64 = if self.request.embed_image {
            match encode_thumbnail(&self.bytes, self.request.max_dimension) {
                Ok(text) => Some(text),
                Err(_) => None,
            }
        } else {
            None
        };
        let replayed = used_save_resource(&self.request);
        screenshot_result(output_path, self.bytes.len() as u64, replayed, image_b64)
    }
}

} // verus!
