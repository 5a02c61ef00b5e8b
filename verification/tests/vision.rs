use base64::Engine;
use dagent::json::{read_json, Json};
use dagent::vision::{
    activity_guess_request, call_activity_guess, compress_screenshot_to_b64, describe_screen,
    locate_in, locate_on_screen, locate_request, locate_shot_request, parse_guess_json,
    qwen_vision, read_numbers, scale_up, screenshot_data_url, small_width, target_size,
};

#[test]
fn test_parse_guess_json() {
    let raw = r#"{"scores": {"focused_work": 0.7, "chatting": 0.2, "gaming": 0.0, "hack": 9.9}, "guess": "用户在 VS Code 里写代码"}"#;
    let g = parse_guess_json(raw).expect("应解析成功");
    assert_eq!(g.score("focused_work").map(f64::from_bits), Some(0.7));
    assert_eq!(g.score("chatting").map(f64::from_bits), Some(0.2));
    assert!(g.score("hack").is_none(), "非法状态名应被过滤");
    assert_eq!(g.guess, "用户在 VS Code 里写代码");
}

#[test]
fn test_parse_guess_json_fence() {
    let raw = "```json\n{\"scores\": {\"idle\": 1.0}, \"guess\": \"用户在发呆\"}\n```";
    let g = parse_guess_json(raw).expect("应解析成功");
    assert_eq!(g.score("idle").map(f64::from_bits), Some(1.0));
}

#[test]
fn test_parse_guess_json_bad() {
    assert!(parse_guess_json("不是 JSON").is_none());
    let g = parse_guess_json("{\"wrong\": 1}").expect("合法 JSON 应解析");
    assert!(g.scores.is_empty());
    assert!(g.guess.is_empty());
    assert!(parse_guess_json("[]").is_none());
}

#[test]
fn the_first_score_counts() {
    let mut g = parse_guess_json(r#"{"scores": {"idle": 1, "gaming": 0}}"#).unwrap();
    g.scores.push(("idle".to_string(), 7));
    assert_eq!(g.score("idle").map(f64::from_bits), Some(1.0));
    assert_eq!(g.score("chatting"), None);
}

#[test]
fn scores_are_moved_into_range() {
    let g = parse_guess_json(r#"{"scores": {"idle": 9.9, "chatting": -3, "gaming": 1}}"#).unwrap();
    assert_eq!(g.score("idle").map(f64::from_bits), Some(1.0));
    assert_eq!(g.score("chatting").map(f64::from_bits), Some(0.0));
    assert_eq!(g.score("gaming").map(f64::from_bits), Some(1.0));
    let names: Vec<&str> = g.scores.iter().map(|s| s.0.as_str()).collect();
    assert_eq!(names, vec!["gaming", "chatting", "idle"]);
}

fn picture(w: u32, h: u32) -> Vec<u8> {
    let img = image::RgbaImage::from_pixel(w, h, image::Rgba([120, 200, 80, 255]));
    let mut out = std::io::Cursor::new(Vec::new());
    image::DynamicImage::ImageRgba8(img)
        .write_to(&mut out, image::ImageFormat::Png)
        .expect("保存测试图失败");
    out.into_inner()
}

#[test]
fn test_compress_screenshot() {
    let img = image::RgbImage::from_pixel(1600, 900, image::Rgb([120, 200, 80]));
    let mut shot = std::io::Cursor::new(Vec::new());
    image::DynamicImage::ImageRgb8(img)
        .write_to(&mut shot, image::ImageFormat::Png)
        .expect("保存测试图失败");
    let b64 = compress_screenshot_to_b64(&shot.into_inner(), "png").expect("压缩失败");
    assert!(!b64.is_empty());
    let bytes = base64::engine::general_purpose::STANDARD
        .decode(&b64)
        .expect("base64 解码失败");
    assert_eq!(&bytes[0..3], &[0xFF, 0xD8, 0xFF], "应是 JPEG 格式");
    let small = image::load_from_memory(&bytes).unwrap();
    assert_eq!((small.width(), small.height()), (1280, 720));
}

#[test]
fn pictures_that_are_low_keep_their_size() {
    let b64 = compress_screenshot_to_b64(&picture(30, 20), "png").unwrap();
    let bytes = base64::engine::general_purpose::STANDARD.decode(&b64).unwrap();
    let small = image::load_from_memory(&bytes).unwrap();
    assert_eq!((small.width(), small.height()), (30, 20));
    let url = screenshot_data_url(&picture(30, 20), "png").unwrap();
    assert_eq!(url, format!("data:image/jpeg;base64,{}", b64));
    let e = compress_screenshot_to_b64(b"no picture", "png").unwrap_err();
    assert!(e.starts_with("打开截图失败: "));
    assert!(screenshot_data_url(b"", "png").is_err());
}

#[test]
fn the_extension_tells_the_format() {
    let png = picture(30, 20);
    assert!(compress_screenshot_to_b64(&png, "PNG").is_ok());
    let misnamed = compress_screenshot_to_b64(&png, "jpg").unwrap_err();
    assert!(misnamed.starts_with("打开截图失败: "));
    let path = std::path::Path::new("shot.xyz");
    let expected = image::ImageFormat::from_path(path).unwrap_err().to_string();
    assert_eq!(
        compress_screenshot_to_b64(&png, "xyz").unwrap_err(),
        format!("打开截图失败: {}", expected)
    );
    assert!(compress_screenshot_to_b64(&png, "").is_err());
}

#[test]
fn screen_shots_are_measured() {
    let shot = picture(300, 1440);
    let (body, height) = locate_shot_request(None, &shot, "按钮").unwrap();
    assert_eq!(height, 1440);
    let parts = body.items_at("messages").unwrap()[1].items_at("content").unwrap();
    assert!(parts[1].text_at("text").unwrap().contains("图片宽度 150 像素，高度 720 像素"));
    let same = locate_request(None, &shot, "png", "按钮", 300, 1440).unwrap();
    let same_parts = same.items_at("messages").unwrap()[1].items_at("content").unwrap();
    assert_eq!(
        parts[0].get("image_url").unwrap().text_at("url"),
        same_parts[0].get("image_url").unwrap().text_at("url")
    );
    let expected = image::load_from_memory_with_format(b"x", image::ImageFormat::Png);
    assert_eq!(
        locate_shot_request(None, b"x", "按钮").err(),
        Some(format!("打开截图失败: {}", expected.unwrap_err()))
    );
}

#[test]
fn base64_of_a_picture_is_standard() {
    // The length of a JPEG is of any remainder by three; each is padded as it should be.
    for n in 1..12 {
        let b64 = compress_screenshot_to_b64(&picture(n, 2 * n), "png").unwrap();
        let bytes = base64::engine::general_purpose::STANDARD.decode(&b64).unwrap();
        assert_eq!(base64::engine::general_purpose::STANDARD.encode(&bytes), b64);
        assert_eq!(b64.len() % 4, 0);
    }
}

#[test]
fn sizes() {
    assert_eq!(target_size(1920, 1080), (1280, 720));
    assert_eq!(target_size(800, 720), (800, 720));
    assert_eq!(target_size(1, 5000), (1, 720));
    assert_eq!(small_width(2560, 1440), 1280);
    assert_eq!(small_width(10, 0), u32::MAX);
    assert_eq!(small_width(0, 0), 0);
    assert_eq!(small_width(u32::MAX, 1), u32::MAX);
}

#[test]
fn numbers() {
    assert_eq!(read_numbers("640,480"), vec![640, 480]);
    assert_eq!(read_numbers("x=100 y=-200."), vec![100, -200]);
    assert_eq!(read_numbers("1-2 - 99999999999 7"), vec![7]);
    assert_eq!(read_numbers("-2147483648 2147483648 2147483647"), vec![i32::MIN, i32::MAX]);
    assert_eq!(read_numbers(""), Vec::<i32>::new());
    assert_eq!(scale_up(640, 1080), 960);
    assert_eq!(scale_up(1, 1080), 2);
    assert_eq!(scale_up(-1, 1080), -2);
    assert_eq!(scale_up(i32::MAX, 1440), i32::MAX);
}

#[test]
fn places_on_the_screen() {
    assert_eq!(locate_on_screen("坐标: 640, 360", "按钮", 1440), Ok((1280, 720)));
    assert_eq!(
        locate_on_screen(" NotFound ", "按钮", 1440),
        Err("屏幕上没找到: 按钮（模型回答: NotFound）".to_string())
    );
    assert_eq!(
        locate_on_screen("640", "按钮", 1440),
        Err("屏幕上没找到: 按钮（模型回答: 640）".to_string())
    );
    assert_eq!(locate_in("1,2", "notfound", 720), None);
    assert_eq!(locate_in("1,2", "", 720), Some((1, 2)));
    let body = locate_request(None, &picture(30, 20), "png", "按钮", 1920, 1080).unwrap();
    assert_eq!(body.text_at("model"), Some("qwen3-vl-plus"));
    let parts = body.items_at("messages").unwrap()[1].items_at("content").unwrap();
    assert_eq!(
        parts[1].text_at("text"),
        Some("在图片中寻找目标：按钮。如果找到，输出其中心点的像素坐标，格式严格为：x,y（例如 640,480）。图片宽度 1280 像素，高度 720 像素。如果找不到，输出：notfound")
    );
    assert!(locate_request(None, b"x", "png", "按钮", 1920, 1080).is_err());
}

fn reply(content: &str) -> Json {
    let said = Json::Record(vec![("content".to_string(), Json::Text(content.to_string()))]);
    let choice = Json::Record(vec![("message".to_string(), said)]);
    Json::Record(vec![("choices".to_string(), Json::List(vec![choice]))])
}

#[test]
fn descriptions() {
    let body = describe_screen(Some(r#"{"vision_model": "eye"}"#), &picture(30, 20), "png").unwrap();
    assert_eq!(body.text_at("model"), Some("eye"));
    assert_eq!(body.integer_at("max_tokens"), Some(300));
    assert!(describe_screen(None, b"x", "png").is_err());
    assert_eq!(qwen_vision(&reply(" 桌面 ")), Ok("桌面".to_string()));
    assert_eq!(qwen_vision(&Json::Null), Err("qwen-vl 响应无内容".to_string()));
}

#[test]
fn guesses() {
    let body = activity_guess_request(None, "窗口: VS Code", "", "专注工作");
    let prompt = body.items_at("messages").unwrap()[1].text_at("content").unwrap();
    assert!(prompt.contains("======\n窗口: VS Code\n======"));
    assert!(prompt.contains("======\n(暂无对话)\n======"));
    assert!(prompt.contains("允许的状态名：gaming, focused_work, casual_browsing, focused_video, chatting, voice_engaged, idle\n"));
    let g = call_activity_guess(&reply(r#"{"guess": " 写代码 "}"#)).unwrap().unwrap();
    assert_eq!(g.guess, "写代码");
    assert!(call_activity_guess(&reply("?")).unwrap().is_none());
    assert_eq!(
        call_activity_guess(&read_json("1").unwrap()).unwrap_err(),
        "activity_guess 响应无内容"
    );
}
