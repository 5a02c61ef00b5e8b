use dagent::chat::{fenced_body, spoken, strip_fence, strip_markdown_fence};
use dagent::clock::{divide, Seconds};
use dagent::json::{read_json, Json};
use dagent::order::{is_text_before, sort_texts};
use dagent::text::{
    byte_len, contains, decimal_i64, ends_with, hex, hex_bytes, join, lines, replace, starts_with, take_chars,
    trim, trim_end_text, trim_of, trim_start_text,
};

#[test]
fn trimming_is_that_of_the_standard_library() {
    for s in ["", " ", "a", " a b ", "\u{3000}中\u{a0}", "\n\t\r x\u{85}", "\u{feff}a", "\u{200b}a "] {
        assert_eq!(trim(s), s.trim());
    }
    assert_eq!(trim_of("「“x”」y", &['「', '」', '“', '”']), "x”」y");
    assert_eq!(trim_start_text("abababc", "ab"), "c");
    assert_eq!(trim_end_text("x.exe.exe", ".exe"), "x");
    assert_eq!(trim_end_text("exe", ".exe"), "exe");
}

#[test]
fn every_white_space_is_trimmed() {
    for n in 0..0x11_0000u32 {
        if let Some(c) = char::from_u32(n) {
            assert_eq!(dagent::text::is_white(c), c.is_whitespace());
        }
    }
}

#[test]
fn searching() {
    assert!(contains("abc", "") && contains("abc", "bc") && !contains("abc", "ca"));
    assert!(starts_with("abc", "ab") && !starts_with("abc", "b"));
    assert!(ends_with("abc", "bc") && !ends_with("c", "bc") && ends_with("", ""));
    assert_eq!(replace("aaa", "aa", "b"), "ba");
    assert_eq!(replace("{X}-{X}", "{X}", "{X}!"), "{X}!-{X}!");
    assert_eq!(take_chars("中文字", 2), "中文");
    assert_eq!(byte_len("中a"), 4);
}

#[test]
fn lines_are_those_of_the_standard_library() {
    for s in ["", "a", "a\n", "a\n\nb", "\n", "a\r\nb\r", "a\r\r\n", "\r\n\r\n"] {
        let expected: Vec<String> = s.lines().map(|l| l.to_string()).collect();
        assert_eq!(lines(s), expected);
    }
    assert_eq!(join(&vec!["a".to_string(), "".to_string(), "b".to_string()], ", "), "a, , b");
}

#[test]
fn numbers_in_words() {
    for n in [0, 7, 10, -1, 1234567890, i64::MAX, i64::MIN] {
        assert_eq!(decimal_i64(n), n.to_string());
    }
    for n in [0, 9, 10, 255, u64::MAX] {
        assert_eq!(hex(n), format!("{:x}", n));
    }
    assert_eq!(hex_bytes(&[0, 9, 10, 255]), "00090aff");
    for n in [0, 5, -5, i64::MAX, i64::MIN] {
        assert_eq!(divide(n, 3), n / 3);
    }
    assert_eq!(Seconds::of(i64::MAX).micros, i64::MAX);
    assert_eq!(Seconds::of(5).since(Seconds::of(7)), Seconds::of(-2));
}

#[test]
fn order_is_that_of_strings() {
    let words = ["", "a", "ab", "b", "é", "中", "\u{10000}", "\u{ffff}", "aa"];
    for a in words {
        for b in words {
            assert_eq!(is_text_before(a, b), a < b);
        }
    }
    let mut v: Vec<String> = words.iter().map(|s| s.to_string()).collect();
    let sorted = sort_texts(v.clone());
    v.sort();
    assert_eq!(sorted, v);
}

#[test]
fn fences() {
    assert_eq!(strip_markdown_fence(" {} "), "{}");
    assert_eq!(strip_markdown_fence("```json\n{\n}\n```\n"), "{\n}");
    assert_eq!(strip_markdown_fence("```\n{}"), "{}");
    assert_eq!(strip_markdown_fence("```"), "");
    assert_eq!(strip_fence("说明 ```json\n{}\n``` 完"), "{}");
    assert_eq!(strip_fence("``` {} ```"), "{}");
    assert_eq!(strip_fence("``` {}"), "``` {}");
    assert_eq!(fenced_body("x"), None);
    assert_eq!(spoken("“你好”"), Some("你好".to_string()));
    assert_eq!(spoken("好 [PASS]"), None);
}

#[test]
fn documents() {
    let j = read_json(r#"{"a": [1, -2, 3.5, 18446744073709551615], "b": null, "c": true}"#).unwrap();
    let items = j.items_at("a").unwrap();
    assert_eq!(items[0].as_i64(), Some(1));
    assert_eq!(items[1].as_i64(), Some(-2));
    assert_eq!(items[2].as_i64(), None);
    assert_eq!(items[2].double_bits().map(f64::from_bits), Some(3.5));
    assert_eq!(items[3].as_i64(), None);
    assert!(matches!(&items[3], Json::Number(n) if n.unsigned == Some(u64::MAX)));
    assert!(matches!(j.get("b"), Some(Json::Null)));
    assert_eq!(j.get("c").unwrap().as_bool(), Some(true));
    assert!(j.get("d").is_none() && j.item(0).is_none() && items[0].get("a").is_none());
    let k = j.copy().with("c", Json::Text("x".to_string())).with("e", Json::Null);
    assert_eq!(k.text_at("c"), Some("x"));
    assert!(k.get("e").is_some());
    assert_eq!(read_json("[1,").unwrap_err(), "EOF while parsing a value at line 1 column 3");
}
