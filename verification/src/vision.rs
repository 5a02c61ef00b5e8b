//! Pictures of the screen: shrinking them, asking about them, and reading what the
//! model says of the user's activity.

use crate::chat::{
    briefed, briefed_request, content_of, data_url, picture_and_text, picture_content, picture_url,
    reply_content, request, strip_fence, text_json, unfenced,
};
use crate::config::{
    chat_model, chat_model_of, content_view, same_result, vision_model, vision_model_of,
};
use crate::json::{json_read, read_json, Json, JsonView};
use crate::recall::run_len;
use crate::score::{rank, rank_of, RANK_ONE};
use crate::text::{
    chars_of, contains, decimal, decimal_u64, has_text, is_empty, join_table, joined, lowercase_of,
    replace, replaced, same_text, str_views, trim, trimmed,
};
use base64::Engine;
use image::error::{ImageError, ImageFormatHint};
use image::imageops::FilterType;
use vstd::prelude::*;

verus! {

// ---------------------------------------------------------------------------
// Shrinking
// ---------------------------------------------------------------------------

/// The greatest height of a picture that is sent.
pub const COMPRESS_TARGET_HEIGHT: u32 = 720;

/// The quality of a JPEG that is sent, out of a hundred.
pub const JPEG_QUALITY: u8 = 80;

/// The size to which a picture is shrunk: one that is too high gets the greatest
/// height, and a width in proportion, rounded down and one at least.
pub open spec fn target_of(w: u32, h: u32) -> (u32, u32) {
    if h > COMPRESS_TARGET_HEIGHT {
        let nw = w as int * 720 / (h as int);
        (
            if nw < 1 {
                1
            } else {
                nw as u32
            },
            COMPRESS_TARGET_HEIGHT,
        )
    } else {
        (w, h)
    }
}

/// The size to which a picture is shrunk.
pub fn target_size(w: u32, h: u32) -> (r: (u32, u32))
    ensures
        r == target_of(w, h),
        r.0 <= w || r.0 == 1,
        r.1 <= h,
{
    if h > COMPRESS_TARGET_HEIGHT {
        let nw: u64 = w as u64 * 720 / h as u64;
        proof {
            assert(w as int * 720 / (h as int) <= w) by (nonlinear_arith)
                requires
                    h > 720,
                    w >= 0,
            ;
        }
        if nw < 1 {
            (1, COMPRESS_TARGET_HEIGHT)
        } else {
            (nw as u32, COMPRESS_TARGET_HEIGHT)
        }
    } else {
        (w, h)
    }
}

/// The width and height of the picture that the image crate decodes from the bytes of a
/// file with this extension, or the words of its error.
pub uninterp spec fn picture_size_of(bytes: Seq<u8>, extension: Seq<char>) -> Result<
    (u32, u32),
    Seq<char>,
>;

/// `image::ImageFormat::from_extension`, then `image::load_from_memory_with_format`, of
/// which only the size of the picture is taken, by the name `picture_size_of`. An
/// extension of no known format is the error that the crate has for it.
#[verifier::external_body]
fn picture_size(bytes: &[u8], extension: &str) -> (r: Result<(u32, u32), String>)
    ensures
        match r {
            Ok(size) => picture_size_of(bytes@, extension@) == Ok::<(u32, u32), Seq<char>>(size),
            Err(e) => picture_size_of(bytes@, extension@) == Err::<(u32, u32), Seq<char>>(e@),
        },
{
    image::ImageFormat::from_extension(extension)
        .ok_or(ImageError::Unsupported(ImageFormatHint::PathExtension(extension.into()).into()))
        .and_then(|format| image::load_from_memory_with_format(bytes, format))
        .map(|p| (p.width(), p.height()))
        .map_err(|e| e.to_string())
}

/// How pixels are drawn together where a picture is resized.
#[derive(Debug, Clone, Copy, PartialEq, Eq, Structural)]
pub enum Filter {
    Nearest,
    Triangle,
    CatmullRom,
    Gaussian,
    Lanczos3,
}

/// The filter by which a picture that is sent is shrunk.
pub const SHRINK_FILTER: Filter = Filter::Triangle;

/// The bytes of the JPEG that the image crate makes of the picture in a file with this
/// extension, resized with `DynamicImage::resize` by a filter, or the words of its error.
pub uninterp spec fn jpeg_of(
    bytes: Seq<u8>,
    extension: Seq<char>,
    w: u32,
    h: u32,
    filter: Filter,
    quality: u8,
) -> Result<Seq<u8>, Seq<char>>;

/// `image::ImageFormat::from_extension`, then `image::load_from_memory_with_format`, then
/// `DynamicImage::resize` by the `FilterType` of the same name, then
/// `DynamicImage::write_with_encoder` with a `JpegEncoder` of the given quality, by the
/// name `jpeg_of`. The size asked for is no greater than
/// that of the picture, so that there is room for the result.
#[verifier::external_body]
fn shrink_to_jpeg(
    bytes: &[u8],
    extension: &str,
    w: u32,
    h: u32,
    filter: Filter,
    quality: u8,
) -> (r: Result<Vec<u8>, String>)
    requires
        picture_size_of(bytes@, extension@) matches Ok(size) && (w <= size.0 || w == 1) && h
            <= size.1,
    ensures
        match r {
            Ok(out) => jpeg_of(bytes@, extension@, w, h, filter, quality) == Ok::<
                Seq<u8>,
                Seq<char>,
            >(out@),
            Err(e) => jpeg_of(bytes@, extension@, w, h, filter, quality) == Err::<
                Seq<u8>,
                Seq<char>,
            >(e@),
        },
{
    let mut out: Vec<u8> = Vec::new();
    let encoder = image::codecs::jpeg::JpegEncoder::new_with_quality(&mut out, quality);
    let kind = match filter {
        Filter::Nearest => FilterType::Nearest,
        Filter::Triangle => FilterType::Triangle,
        Filter::CatmullRom => FilterType::CatmullRom,
        Filter::Gaussian => FilterType::Gaussian,
        Filter::Lanczos3 => FilterType::Lanczos3,
    };
    image::ImageFormat::from_extension(extension)
        .ok_or(ImageError::Unsupported(ImageFormatHint::PathExtension(extension.into()).into()))
        .and_then(|format| image::load_from_memory_with_format(bytes, format))
        .and_then(|p| p.resize(w, h, kind).write_with_encoder(encoder))
        .map_err(|e| e.to_string())?;
    Ok(out)
}

// ---------------------------------------------------------------------------
// Base64
// ---------------------------------------------------------------------------

/// A digit of base64 in the standard alphabet.
pub open spec fn base64_digit(d: int) -> char {
    if d < 26 {
        (d + 65) as u8 as char
    } else if d < 52 {
        (d + 71) as u8 as char
    } else if d < 62 {
        (d - 4) as u8 as char
    } else if d == 62 {
        '+'
    } else {
        '/'
    }
}

/// Bytes in base64 by the standard alphabet, padded: three bytes are four digits of
/// six bits each, and two or one at the end are three or two digits and padding.
pub open spec fn base64_of(bytes: Seq<u8>) -> Seq<char>
    decreases bytes.len(),
{
    if bytes.len() == 0 {
        Seq::empty()
    } else if bytes.len() == 1 {
        let n = bytes[0] * 65536;
        seq![base64_digit(n / 262144), base64_digit(n / 4096 % 64), '=', '=']
    } else if bytes.len() == 2 {
        let n = bytes[0] * 65536 + bytes[1] * 256;
        seq![
            base64_digit(n / 262144),
            base64_digit(n / 4096 % 64),
            base64_digit(n / 64 % 64),
            '=',
        ]
    } else {
        let n = bytes[0] * 65536 + bytes[1] * 256 + bytes[2];
        seq![
            base64_digit(n / 262144),
            base64_digit(n / 4096 % 64),
            base64_digit(n / 64 % 64),
            base64_digit(n % 64),
        ] + base64_of(bytes.skip(3))
    }
}

/// `base64::Engine::encode` of the standard engine: the bytes in base64 by the standard
/// alphabet, padded. The length of a slice is such that the length of the text can be
/// counted.
#[verifier::external_body]
fn to_base64(bytes: &[u8]) -> (r: String)
    ensures
        r@ == base64_of(bytes@),
{
    base64::engine::general_purpose::STANDARD.encode(bytes)
}

/// The picture of a file with these bytes and this extension as it is sent, in base64,
/// or what went wrong.
pub open spec fn shrunk(bytes: Seq<u8>, extension: Seq<char>) -> Result<Seq<char>, Seq<char>> {
    match picture_size_of(bytes, extension) {
        Err(e) => Err("打开截图失败: "@ + e),
        Ok(size) => {
            let target = target_of(size.0, size.1);
            match jpeg_of(bytes, extension, target.0, target.1, SHRINK_FILTER, JPEG_QUALITY) {
                Err(e) => Err("JPEG 编码失败: "@ + e),
                Ok(jpeg) => Ok(base64_of(jpeg)),
            }
        },
    }
}

/// The picture of a file with these bytes and this extension as it is sent: shrunk, as a
/// JPEG, in base64.
pub fn compress_screenshot_to_b64(bytes: &[u8], extension: &str) -> (r: Result<String, String>)
    ensures
        same_result(r, shrunk(bytes@, extension@)),
{
    match picture_size(bytes, extension) {
        Err(e) => {
            let mut out = "打开截图失败: ".to_string();
            out.append(e.as_str());
            Err(out)
        },
        Ok((w, h)) => {
            let (nw, nh) = target_size(w, h);
            match shrink_to_jpeg(bytes, extension, nw, nh, SHRINK_FILTER, JPEG_QUALITY) {
                Err(e) => {
                    let mut out = "JPEG 编码失败: ".to_string();
                    out.append(e.as_str());
                    Err(out)
                },
                Ok(jpeg) => Ok(to_base64(jpeg.as_slice())),
            }
        },
    }
}

/// The URL that holds a picture as it is sent.
pub fn screenshot_data_url(bytes: &[u8], extension: &str) -> (r: Result<String, String>)
    ensures
        match shrunk(bytes@, extension@) {
            Ok(b64) => r matches Ok(url) && url@ == data_url(b64),
            Err(e) => r matches Err(t) && t@ == e,
        },
{
    match compress_screenshot_to_b64(bytes, extension) {
        Ok(b64) => Ok(picture_url(b64.as_str())),
        Err(e) => Err(e),
    }
}

/// A picture that is sent is no higher than it may be, and one that is low enough
/// keeps its size.
pub proof fn law_target_size(w: u32, h: u32)
    ensures
        target_of(w, h).1 <= COMPRESS_TARGET_HEIGHT,
        h <= COMPRESS_TARGET_HEIGHT ==> target_of(w, h) == (w, h),
        w >= 1 ==> 1 <= target_of(w, h).0 <= w,
{
    if h > 720 {
        assert(w as int * 720 / (h as int) <= w) by (nonlinear_arith)
            requires
                h > 720,
                w >= 0,
        ;
    }
}

// ---------------------------------------------------------------------------
// Asking about a picture
// ---------------------------------------------------------------------------

/// What is asked of a screen.
pub const DESCRIBE_SCREEN_PROMPT: &'static str = "请用一两句话简要描述屏幕上现在显示的内容，包括主要窗口/应用、正在进行的任务，中文回答。";

/// The briefing for a look at the screen.
pub const SCREEN_BRIEFING: &'static str = "你是优香，一个活泼可爱的二次元AI桌宠助手。你正在观察主人的屏幕。";

/// The request with a picture to the model for pictures.
pub open spec fn picture_request(
    config: Option<Seq<char>>,
    b64: Seq<char>,
    prompt: Seq<char>,
    system: Seq<char>,
    max_tokens: u32,
) -> JsonView {
    request(
        vision_model_of(config),
        briefed(system, picture_and_text(b64, prompt)),
        Some(max_tokens),
        false,
    )
}

/// The request with a picture to the model for pictures.
pub fn vision_request(
    config: Option<&str>,
    image_b64: &str,
    prompt: &str,
    system: &str,
    max_tokens: u32,
) -> (r: Json)
    ensures
        r@ == picture_request(content_view(config), image_b64@, prompt@, system@, max_tokens),
{
    briefed_request(
        vision_model(config).as_str(),
        system,
        picture_content(image_b64, prompt),
        Some(max_tokens),
        false,
    )
}

/// What a model for pictures answers, trimmed.
pub fn qwen_vision(body: &Json) -> (r: Result<String, String>)
    ensures
        match content_of(body@) {
            Some(content) => r matches Ok(t) && t@ == trimmed(content),
            None => r matches Err(e) && e@ == "qwen-vl 响应无内容"@,
        },
{
    match reply_content(body) {
        Some(content) => Ok(trim(content)),
        None => Err("qwen-vl 响应无内容".to_string()),
    }
}

/// The request for a description of the screen in a file with these bytes and this
/// extension.
pub fn describe_screen(config: Option<&str>, shot: &[u8], extension: &str) -> (r: Result<
    Json,
    String,
>)
    ensures
        match shrunk(shot@, extension@) {
            Ok(b64) => r matches Ok(body) && body@ == picture_request(
                content_view(config),
                b64,
                DESCRIBE_SCREEN_PROMPT@,
                SCREEN_BRIEFING@,
                300,
            ),
            Err(e) => r matches Err(t) && t@ == e,
        },
{
    match compress_screenshot_to_b64(shot, extension) {
        Ok(b64) => Ok(
            vision_request(config, b64.as_str(), DESCRIBE_SCREEN_PROMPT, SCREEN_BRIEFING, 300),
        ),
        Err(e) => Err(e),
    }
}

// ---------------------------------------------------------------------------
// Finding something on the screen
// ---------------------------------------------------------------------------

/// The width of a screen shrunk to the greatest height, rounded down, as far as a
/// `u32` holds it. A screen without height has no proportion.
pub open spec fn shown_width(w: u32, h: u32) -> u32 {
    if h == 0 {
        if w == 0 {
            0
        } else {
            u32::MAX
        }
    } else if w as int * 720 / (h as int) > u32::MAX {
        u32::MAX
    } else {
        (w as int * 720 / (h as int)) as u32
    }
}

/// The width of a screen shrunk to the greatest height.
pub fn small_width(w: u32, h: u32) -> (r: u32)
    ensures
        r == shown_width(w, h),
{
    if h == 0 {
        return if w == 0 {
            0
        } else {
            u32::MAX
        };
    }
    let n: u64 = w as u64 * 720 / h as u64;
    if n > u32::MAX as u64 {
        u32::MAX
    } else {
        n as u32
    }
}

/// What is asked to find something on a screen.
pub open spec fn locate_prompt(target: Seq<char>, orig_w: u32, orig_h: u32) -> Seq<char> {
    "在图片中寻找目标："@ + target
        + "。如果找到，输出其中心点的像素坐标，格式严格为：x,y（例如 640,480）。图片宽度 "@
        + decimal(shown_width(orig_w, orig_h) as int) + " 像素，高度 "@ + decimal(720)
        + " 像素。如果找不到，输出：notfound"@
}

/// The request to find something on the screen in a file with these bytes and this
/// extension.
pub fn locate_request(
    config: Option<&str>,
    shot: &[u8],
    extension: &str,
    target: &str,
    orig_w: u32,
    orig_h: u32,
) -> (r: Result<Json, String>)
    ensures
        match shrunk(shot@, extension@) {
            Ok(b64) => r matches Ok(body) && body@ == picture_request(
                content_view(config),
                b64,
                locate_prompt(target@, orig_w, orig_h),
                "你是屏幕定位助手，只输出坐标。"@,
                100,
            ),
            Err(e) => r matches Err(t) && t@ == e,
        },
{
    match compress_screenshot_to_b64(shot, extension) {
        Ok(b64) => {
            let mut prompt = "在图片中寻找目标：".to_string();
            prompt.append(target);
            prompt.append(
                "。如果找到，输出其中心点的像素坐标，格式严格为：x,y（例如 640,480）。图片宽度 ",
            );
            prompt.append(decimal_u64(small_width(orig_w, orig_h) as u64).as_str());
            prompt.append(" 像素，高度 ");
            prompt.append(decimal_u64(COMPRESS_TARGET_HEIGHT as u64).as_str());
            prompt.append(" 像素。如果找不到，输出：notfound");
            Ok(
                vision_request(
                    config,
                    b64.as_str(),
                    prompt.as_str(),
                    "你是屏幕定位助手，只输出坐标。",
                    100,
                ),
            )
        },
        Err(e) => Err(e),
    }
}

/// The request to find something on a screen shot, the bytes of a PNG file, and the
/// height of that screen.
pub fn locate_shot_request(config: Option<&str>, shot: &[u8], target: &str) -> (r: Result<
    (Json, u32),
    String,
>)
    ensures
        match picture_size_of(shot@, "png"@) {
            Err(e) => r matches Err(m) && m@ == "打开截图失败: "@ + e,
            Ok(size) => match shrunk(shot@, "png"@) {
                Ok(b64) => r matches Ok(asked) && asked.0@ == picture_request(
                    content_view(config),
                    b64,
                    locate_prompt(target@, size.0, size.1),
                    "你是屏幕定位助手，只输出坐标。"@,
                    100,
                ) && asked.1 == size.1,
                Err(e) => r matches Err(m) && m@ == e,
            },
        },
{
    match picture_size(shot, "png") {
        Err(e) => {
            let mut out = "打开截图失败: ".to_string();
            out.append(e.as_str());
            Err(out)
        },
        Ok((w, h)) => match locate_request(config, shot, "png", target, w, h) {
            Ok(body) => Ok((body, h)),
            Err(e) => Err(e),
        },
    }
}

/// Characters of which a number is made.
pub open spec fn in_number(c: char) -> bool {
    ('0' <= c && c <= '9') || c == '-'
}

/// The value of decimal digits; `None` where a character is none.
pub open spec fn digits_value(s: Seq<char>) -> Option<int>
    decreases s.len(),
{
    if s.len() == 0 {
        Some(0)
    } else {
        match digits_value(s.drop_last()) {
            Some(n) => if '0' <= s.last() && s.last() <= '9' {
                Some(n * 10 + (s.last() as u32 - 48))
            } else {
                None
            },
            None => None,
        }
    }
}

/// The integer of thirty-two bits that a text spells: digits, behind a minus sign or
/// not.
pub open spec fn int_value(s: Seq<char>) -> Option<i32> {
    let minus = s.len() > 0 && s[0] == '-';
    let body = if minus {
        s.drop_first()
    } else {
        s
    };
    match digits_value(body) {
        Some(n) => {
            let v = if minus {
                -n
            } else {
                n
            };
            if body.len() > 0 && i32::MIN <= v <= i32::MAX {
                Some(v as i32)
            } else {
                None
            }
        },
        None => None,
    }
}

/// The integers in a text: each run of digits and minus signs that spells one.
pub open spec fn numbers_in(s: Seq<char>) -> Seq<i32>
    decreases s.len(),
    via numbers_decreases
{
    if s.len() == 0 {
        Seq::empty()
    } else if in_number(s[0]) {
        let n = run_len(s, |c: char| in_number(c)) as int;
        match int_value(s.take(n)) {
            Some(v) => seq![v] + numbers_in(s.skip(n)),
            None => numbers_in(s.skip(n)),
        }
    } else {
        numbers_in(s.skip(1))
    }
}

#[via_fn]
proof fn numbers_decreases(s: Seq<char>) {
    crate::recall::lemma_run_len(s, |c: char| in_number(c));
}

/// A value only grows with further digits.
proof fn lemma_digits_grow(s: Seq<char>, k: int)
    requires
        0 <= k <= s.len(),
        digits_value(s) is Some,
    ensures
        digits_value(s.take(k)) is Some,
        0 <= digits_value(s.take(k))->0 <= digits_value(s)->0,
    decreases s.len() - k, s.len(),
{
    if k == s.len() {
        assert(s.take(k) =~= s);
        if s.len() > 0 {
            lemma_digits_grow(s.drop_last(), s.len() - 1);
            assert(s.drop_last().take(s.len() - 1) =~= s.drop_last());
        }
    } else {
        assert(s.drop_last().take(k) =~= s.take(k));
        lemma_digits_grow(s.drop_last(), k);
    }
}

/// The integer that `cs` spells from `from` up to `to`.
fn read_int(cs: &[char], from: usize, to: usize) -> (r: Option<i32>)
    requires
        from < to <= cs@.len(),
    ensures
        r == int_value(cs@.subrange(from as int, to as int)),
{
    let ghost s = cs@.subrange(from as int, to as int);
    let minus: bool = cs[from] == '-';
    let start: usize = if minus {
        from + 1
    } else {
        from
    };
    let ghost body = cs@.subrange(start as int, to as int);
    proof {
        assert(s[0] == cs@[from as int]);
        if minus {
            assert(s.drop_first() =~= body);
        } else {
            assert(s =~= body);
        }
    }
    if start == to {
        return None;
    }
    let mut n: i64 = 0;
    let mut i: usize = start;
    proof {
        assert(body.take(0) =~= Seq::<char>::empty());
    }
    while i < to
        invariant
            start <= i <= to <= cs@.len(),
            from < to,
            s == cs@.subrange(from as int, to as int),
            body == cs@.subrange(start as int, to as int),
            0 <= n <= 0x8000_0000,
            digits_value(body.take(i - start)) == Some(n as int),
            start < to,
            s.len() > 0,
            minus == (s[0] == '-'),
            body == if minus {
                s.drop_first()
            } else {
                s
            },
        decreases to - i,
    {
        let c = cs[i];
        proof {
            let part = body.take(i - start + 1);
            assert(part.drop_last() =~= body.take(i - start));
            assert(part.last() == c);
            if digits_value(body) is Some {
                lemma_digits_grow(body, i - start + 1);
            }
        }
        if !('0' <= c && c <= '9') {
            return None;
        }
        let m: i64 = n * 10 + (c as u32 - 48) as i64;
        if m > 0x8000_0000 {
            return None;
        }
        n = m;
        i = i + 1;
    }
    proof {
        assert(body.take(i - start) =~= body);
    }
    let v: i64 = if minus {
        -n
    } else {
        n
    };
    if v > 0x7fff_ffff {
        None
    } else {
        Some(v as i32)
    }
}

/// The integers in a text.
pub fn read_numbers(answer: &str) -> (r: Vec<i32>)
    ensures
        r@ == numbers_in(answer@),
{
    let cs = chars_of(answer);
    let mut out: Vec<i32> = Vec::new();
    let mut i: usize = 0;
    let ghost p = |c: char| in_number(c);
    proof {
        assert(cs@.skip(0) =~= cs@);
        assert(out@ + numbers_in(cs@) =~= numbers_in(cs@));
    }
    while i < cs.len()
        invariant
            i <= cs@.len(),
            p == (|c: char| in_number(c)),
            out@ + numbers_in(cs@.skip(i as int)) == numbers_in(cs@),
        decreases cs.len() - i,
    {
        let ghost rest = cs@.skip(i as int);
        let ghost before = out@;
        let c = cs[i];
        proof {
            assert(rest[0] == c);
        }
        if ('0' <= c && c <= '9') || c == '-' {
            let mut to: usize = i;
            while to < cs.len() && (('0' <= cs[to] && cs[to] <= '9') || cs[to] == '-')
                invariant
                    i <= to <= cs@.len(),
                    p == (|c: char| in_number(c)),
                    rest == cs@.skip(i as int),
                    run_len(rest, p) == (to - i) + run_len(cs@.skip(to as int), p),
                decreases cs.len() - to,
            {
                proof {
                    assert(cs@.skip(to as int)[0] == cs@[to as int]);
                    assert(cs@.skip(to as int).drop_first() =~= cs@.skip(to + 1));
                }
                to = to + 1;
            }
            proof {
                crate::recall::lemma_run_len(rest, p);
                if to < cs@.len() {
                    assert(cs@.skip(to as int)[0] == cs@[to as int]);
                }
                assert(run_len(cs@.skip(to as int), p) == 0);
                assert(rest.take(to - i) =~= cs@.subrange(i as int, to as int));
                assert(rest.skip(to - i) =~= cs@.skip(to as int));
            }
            if let Some(v) = read_int(cs.as_slice(), i, to) {
                out.push(v);
                proof {
                    assert(out@ + numbers_in(cs@.skip(to as int)) =~= before + (seq![v]
                        + numbers_in(cs@.skip(to as int))));
                }
            }
            i = to;
        } else {
            proof {
                assert(rest.skip(1) =~= cs@.skip(i + 1));
            }
            i = i + 1;
        }
    }
    proof {
        assert(numbers_in(cs@.skip(i as int)) =~= Seq::<i32>::empty());
        assert(out@ + Seq::<i32>::empty() =~= out@);
    }
    out
}

/// A coordinate of the shrunk picture on the screen of this height: in proportion,
/// to the nearest, halves away from zero, as far as an `i32` holds it.
pub open spec fn scaled(x: i32, orig_h: u32) -> i32 {
    let n = x as int * orig_h as int;
    let v = if n >= 0 {
        (2 * n + 720) / 1440
    } else {
        -((2 * (-n) + 720) / 1440)
    };
    if v < i32::MIN {
        i32::MIN
    } else if v > i32::MAX {
        i32::MAX
    } else {
        v as i32
    }
}

/// A coordinate of the shrunk picture on the screen of this height.
pub fn scale_up(x: i32, orig_h: u32) -> (r: i32)
    ensures
        r == scaled(x, orig_h),
{
    proof {
        assert(-0x8000_0000 * 0xffff_ffff <= x * orig_h <= 0x7fff_ffff * 0xffff_ffff)
            by (nonlinear_arith)
            requires
                -0x8000_0000 <= x <= 0x7fff_ffff,
                0 <= orig_h <= 0xffff_ffff,
        ;
    }
    let n: i128 = x as i128 * orig_h as i128;
    let v: i128 = if n >= 0 {
        ((2 * n + 720) as u128 / 1440) as i128
    } else {
        -(((2 * (-n) + 720) as u128 / 1440) as i128)
    };
    if v < -0x8000_0000 {
        i32::MIN
    } else if v > 0x7fff_ffff {
        i32::MAX
    } else {
        v as i32
    }
}

/// What is said where nothing was found.
pub open spec fn not_found(target: Seq<char>, answer: Seq<char>) -> Seq<char> {
    "屏幕上没找到: "@ + target + "（模型回答: "@ + trimmed(answer) + "）"@
}

/// Where an answer says that something is, on the screen of this height. `lower` is
/// the answer in lower case.
pub open spec fn located(answer: Seq<char>, lower: Seq<char>, orig_h: u32) -> Option<(i32, i32)> {
    let nums = numbers_in(answer);
    if has_text(lower, "notfound"@) || nums.len() < 2 {
        None
    } else {
        Some((scaled(nums[0], orig_h), scaled(nums[1], orig_h)))
    }
}

/// Where an answer says that something is, by the answer and its lower case.
pub fn locate_in(answer: &str, lower: &str, orig_h: u32) -> (r: Option<(i32, i32)>)
    ensures
        r == located(answer@, lower@, orig_h),
{
    let nums = read_numbers(answer);
    if contains(lower, "notfound") || nums.len() < 2 {
        None
    } else {
        Some((scale_up(nums[0], orig_h), scale_up(nums[1], orig_h)))
    }
}

/// Where an answer says that the target is on the screen of this height.
pub fn locate_on_screen(answer: &str, target: &str, orig_h: u32) -> (r: Result<
    (i32, i32),
    String,
>)
    ensures
        match located(answer@, lowercase_of(answer@), orig_h) {
            Some(at) => r == Ok::<(i32, i32), String>(at),
            None => r matches Err(e) && e@ == not_found(target@, answer@),
        },
{
    let lower = answer.to_lowercase();
    match locate_in(answer, lower.as_str(), orig_h) {
        Some(at) => Ok(at),
        None => {
            let mut out = "屏幕上没找到: ".to_string();
            out.append(target);
            out.append("（模型回答: ");
            out.append(trim(answer).as_str());
            out.append("）");
            Err(out)
        },
    }
}

// ---------------------------------------------------------------------------
// What the user seems to be doing
// ---------------------------------------------------------------------------

/// Asks what the user is doing. It has places for `{signals}`, `{conversation}`,
/// `{rule_state}` and `{state_keys}`.
pub const ACTIVITY_GUESS_PROMPT: &'static str = r#"你是一个用户活动分析助手。基于下方的系统信号和最近对话片段，对用户当前的活动状态做软评分，并写一句简短的活动叙述。

======以下为系统信号======
{signals}
======以上为系统信号======

======以下为最近对话（按时间顺序）======
{conversation}
======以上为最近对话（按时间顺序）======

======以下为规则系统的初判======
{rule_state}
======以上为规则系统的初判======

请输出严格的 JSON（不带 markdown 代码块），字段：
- "scores": 一个对象，键是状态名，值是 0.0-1.0 的浮点数（独立打分，不需要归一化）。允许的状态名：{state_keys}
- "guess": 一句话叙述用户当前在做什么，符合中文表达习惯，不超过 40 字

如果某状态完全不像，给 0.0；如果非常像，给接近 1.0。多个状态可以同时高分（例如同时在写代码和聊天）。

如果你的判断和"规则系统的初判"不同，按你看到的实际信号给分；规则只是参考，不必盲从。

输出示例：
{{"scores": {{"focused_work": 0.7, "chatting": 0.2, "idle": 0.1, "gaming": 0.0, "casual_browsing": 0.0, "voice_engaged": 0.0}}, "guess": "用户在 VS Code 里写代码，偶尔切到聊天软件回消息"}}"#;

/// The states that are scored.
pub open spec fn scored_states() -> Seq<Seq<char>> {
    seq![
        "gaming"@,
        "focused_work"@,
        "casual_browsing"@,
        "focused_video"@,
        "chatting"@,
        "voice_engaged"@,
        "idle"@,
    ]
}

fn scored_table() -> (r: Vec<&'static str>)
    ensures
        str_views(r@) == scored_states(),
{
    let r: Vec<&'static str> = vec![
        "gaming",
        "focused_work",
        "casual_browsing",
        "focused_video",
        "chatting",
        "voice_engaged",
        "idle",
    ];
    proof {
        assert(str_views(r@) =~= scored_states());
    }
    r
}

/// What the user seems to be doing: scores of states as the bits of doubles between
/// zero and one, and a sentence.
#[derive(Debug, Clone)]
pub struct ActivityGuess {
    pub scores: Vec<(String, u64)>,
    pub guess: String,
}

/// The contents of scores.
pub open spec fn score_views(v: Seq<(String, u64)>) -> Seq<(Seq<char>, u64)> {
    v.map_values(|s: (String, u64)| (s.0@, s.1))
}

/// The question what the user is doing.
pub open spec fn guess_prompt(
    signals: Seq<char>,
    conversation: Seq<char>,
    rule_state: Seq<char>,
) -> Seq<char> {
    replaced(
        replaced(
            replaced(
                replaced(ACTIVITY_GUESS_PROMPT@, "{signals}"@, signals),
                "{conversation}"@,
                if conversation.len() == 0 {
                    "(暂无对话)"@
                } else {
                    conversation
                },
            ),
            "{rule_state}"@,
            rule_state,
        ),
        "{state_keys}"@,
        joined(scored_states(), ", "@),
    )
}

/// The request that asks the model for talk what the user is doing.
pub open spec fn guess_request(
    config: Option<Seq<char>>,
    signals: Seq<char>,
    conversation: Seq<char>,
    rule_state: Seq<char>,
) -> JsonView {
    request(
        chat_model_of(config),
        briefed(
            "你是活动分析助手，只输出 JSON。"@,
            JsonView::Text(guess_prompt(signals, conversation, rule_state)),
        ),
        Some(300),
        true,
    )
}

/// The request that asks the model for talk what the user is doing.
pub fn activity_guess_request(
    config: Option<&str>,
    signals_text: &str,
    conversation_text: &str,
    rule_state: &str,
) -> (r: Json)
    ensures
        r@ == guess_request(
            content_view(config),
            signals_text@,
            conversation_text@,
            rule_state@,
        ),
{
    proof {
        reveal_strlit("{signals}");
        reveal_strlit("{conversation}");
        reveal_strlit("{rule_state}");
        reveal_strlit("{state_keys}");
    }
    let talk = if is_empty(conversation_text) {
        "(暂无对话)"
    } else {
        conversation_text
    };
    let a = replace(ACTIVITY_GUESS_PROMPT, "{signals}", signals_text);
    let b = replace(a.as_str(), "{conversation}", talk);
    let c = replace(b.as_str(), "{rule_state}", rule_state);
    let prompt = replace(c.as_str(), "{state_keys}", join_table(&scored_table(), ", ").as_str());
    briefed_request(
        chat_model(config).as_str(),
        "你是活动分析助手，只输出 JSON。",
        text_json(prompt.as_str()),
        Some(300),
        true,
    )
}

/// The bits of a double moved into the range from zero to one.
pub open spec fn clamped(bits: u64) -> u64 {
    if rank_of(bits) < 0 {
        0
    } else if rank_of(bits) > RANK_ONE {
        0x3ff0_0000_0000_0000
    } else {
        bits
    }
}

fn clamp_bits(bits: u64) -> (r: u64)
    ensures
        r == clamped(bits),
{
    let k: i64 = rank(bits);
    if k < 0 {
        0
    } else if k > RANK_ONE {
        0x3ff0_0000_0000_0000
    } else {
        bits
    }
}

/// The scores that a record gives of the first `n` states.
pub open spec fn scores_upto(v: JsonView, n: int) -> Seq<(Seq<char>, u64)>
    decreases n,
{
    if n <= 0 {
        Seq::empty()
    } else {
        let rest = scores_upto(v, n - 1);
        let key = scored_states()[n - 1];
        match v.get(key) {
            Some(x) => match x.double() {
                Some(bits) => rest.push((key, clamped(bits))),
                None => rest,
            },
            None => rest,
        }
    }
}

/// The scores of the states in a document.
pub open spec fn scores_in(v: JsonView) -> Seq<(Seq<char>, u64)> {
    match v.get("scores"@) {
        Some(scores) => scores_upto(scores, scored_states().len() as int),
        None => Seq::empty(),
    }
}

/// The guess in a document; nothing where it is no record.
pub open spec fn guess_in(v: JsonView) -> Option<(Seq<(Seq<char>, u64)>, Seq<char>)> {
    match v {
        JsonView::Record(_) => Some((scores_in(v), trimmed(v.text_or("guess"@, ""@)))),
        _ => None,
    }
}

/// Whether a guess is the one that is said.
pub open spec fn same_guess(
    r: Option<ActivityGuess>,
    v: Option<(Seq<(Seq<char>, u64)>, Seq<char>)>,
) -> bool {
    match r {
        Some(g) => v == Some((score_views(g.scores@), g.guess@)),
        None => v is None,
    }
}

fn read_scores(v: &Json) -> (r: Vec<(String, u64)>)
    ensures
        score_views(r@) == scores_upto(v@, scored_states().len() as int),
{
    let table = scored_table();
    let ghost all = str_views(table@);
    let mut out: Vec<(String, u64)> = Vec::new();
    let mut i: usize = 0;
    proof {
        assert(score_views(out@) =~= scores_upto(v@, 0));
        assert(all.len() == table@.len());
    }
    while i < table.len()
        invariant
            i <= table.len(),
            all == str_views(table@),
            all == scored_states(),
            score_views(out@) == scores_upto(v@, i as int),
        decreases table.len() - i,
    {
        let ghost before = score_views(out@);
        proof {
            assert(all[i as int] == table@[i as int]@);
        }
        if let Some(x) = v.get(table[i]) {
            if let Some(bits) = x.double_bits() {
                let score = (table[i].to_string(), clamp_bits(bits));
                out.push(score);
                proof {
                    assert(score_views(out@) =~= before.push((score.0@, score.1)));
                }
            }
        }
        i = i + 1;
    }
    out
}

/// The guess in a document; nothing where it is no record.
pub fn read_guess(v: &Json) -> (r: Option<ActivityGuess>)
    ensures
        same_guess(r, guess_in(v@)),
{
    proof {
        crate::json::lemma_json_view(*v);
    }
    match v {
        Json::Record(_) => {
            let scores = match v.get("scores") {
                Some(scores) => read_scores(scores),
                None => {
                    let none: Vec<(String, u64)> = Vec::new();
                    proof {
                        assert(score_views(none@) =~= Seq::<(Seq<char>, u64)>::empty());
                    }
                    none
                },
            };
            let guess = trim(v.text_or("guess", "").as_str());
            Some(ActivityGuess { scores, guess })
        },
        _ => None,
    }
}

/// The guess in an answer; nothing where it is no JSON record.
pub fn parse_guess_json(raw: &str) -> (r: Option<ActivityGuess>)
    ensures
        match json_read(unfenced(raw@)) {
            Ok(v) => same_guess(r, guess_in(v)),
            Err(_) => r is None,
        },
{
    let text = strip_fence(raw);
    match read_json(text.as_str()) {
        Ok(v) => read_guess(&v),
        Err(_) => None,
    }
}

/// The guess in a reply.
pub fn call_activity_guess(body: &Json) -> (r: Result<Option<ActivityGuess>, String>)
    ensures
        match content_of(body@) {
            None => r matches Err(e) && e@ == "activity_guess 响应无内容"@,
            Some(content) => r matches Ok(g) && match json_read(unfenced(content)) {
                Ok(v) => same_guess(g, guess_in(v)),
                Err(_) => g is None,
            },
        },
{
    match reply_content(body) {
        None => Err("activity_guess 响应无内容".to_string()),
        Some(content) => Ok(parse_guess_json(content)),
    }
}

impl ActivityGuess {
    /// The bits of the score of a state, by the first entry that has its name.
    pub fn score(&self, state: &str) -> (r: Option<u64>)
        ensures
            match r {
                Some(bits) => exists|i: int|
                    0 <= i < self.scores@.len() && #[trigger] score_views(self.scores@)[i] == (
                        state@,
                        bits,
                    ) && forall|k: int|
                        0 <= k < i ==> (#[trigger] score_views(self.scores@)[k]).0 != state@,
                None => forall|i: int|
                    0 <= i < self.scores@.len() ==> (#[trigger] score_views(self.scores@)[i]).0
                        != state@,
            },
    {
        let ghost all = score_views(self.scores@);
        let mut i: usize = 0;
        while i < self.scores.len()
            invariant
                i <= self.scores.len(),
                all == score_views(self.scores@),
                forall|k: int| 0 <= k < i ==> (#[trigger] all[k]).0 != state@,
            decreases self.scores.len() - i,
        {
            proof {
                assert(all[i as int] == (self.scores@[i as int].0@, self.scores@[i as int].1));
            }
            if same_text(self.scores[i].0.as_str(), state) {
                return Some(self.scores[i].1);
            }
            i = i + 1;
        }
        None
    }
}

/// Only the states that are scored get a score, and it lies between zero and one.
pub proof fn law_scores_bounded(v: JsonView, n: int, i: int)
    requires
        0 <= n <= scored_states().len(),
        0 <= i < scores_upto(v, n).len(),
    ensures
        scored_states().contains(scores_upto(v, n)[i].0),
        0 <= rank_of(scores_upto(v, n)[i].1) <= RANK_ONE,
    decreases n,
{
    if n > 0 {
        let rest = scores_upto(v, n - 1);
        if i < rest.len() {
            law_scores_bounded(v, n - 1, i);
        } else {
            assert(scored_states()[n - 1] == scores_upto(v, n)[i].0);
        }
    }
}

} // verus!
