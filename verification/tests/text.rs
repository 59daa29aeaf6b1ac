use http_server::text::{
    bytes_eq, decimal_string, decode, find_byte, push_bytes, starts_with, str_eq,
    strip_prefix_or_empty,
};
use http_server::{Request, RequestBuffer};

fn is_white_space(c: char) -> bool {
    matches!(
        c as u32,
        0x09..=0x0d
            | 0x20
            | 0x85
            | 0xa0
            | 0x1680
            | 0x2000..=0x200a
            | 0x2028
            | 0x2029
            | 0x202f
            | 0x205f
            | 0x3000
    )
}

fn trimmed_value(value: &str) -> String {
    let text = format!("K:{}\r\n\r\n", value);
    let headers = Request::try_parse_headers(&mut RequestBuffer::new(text.into_bytes())).unwrap();
    headers.get("K").unwrap().clone()
}

fn check_trim_of_chars(from: u32, to: u32) {
    let mut n: u32 = from;
    while n < to {
        if let Some(c) = char::from_u32(n) {
            let value = format!("{}a{}b{}", c, c, c);
            let want = if is_white_space(c) { format!("a{}b", c) } else { value.clone() };
            assert_eq!(trimmed_value(&value), want, "U+{:04X}", n);
        }
        n += 1;
    }
}

#[test]
fn trim_takes_white_space_of_the_basic_plane() {
    check_trim_of_chars(0, 0x10000);
}

#[test]
fn trim_takes_no_character_beyond_the_basic_plane() {
    check_trim_of_chars(0x10000, 0x110000);
}

#[test]
fn trim_takes_runs_from_both_ends() {
    assert_eq!(trimmed_value(" \t\u{a0}\u{3000} a  b \u{2028}\n\u{85}"), "a  b");
    assert_eq!(trimmed_value("   "), "");
    assert_eq!(trimmed_value(""), "");
    assert_eq!(trimmed_value("\u{200b}x\u{200b}"), "\u{200b}x\u{200b}");
    assert_eq!(trimmed_value("\u{180e}x\u{feff}"), "\u{180e}x\u{feff}");
}

#[test]
fn decimal_rendering() {
    assert_eq!(decimal_string(0), "0");
    assert_eq!(decimal_string(7), "7");
    assert_eq!(decimal_string(9), "9");
    assert_eq!(decimal_string(10), "10");
    assert_eq!(decimal_string(99), "99");
    assert_eq!(decimal_string(100), "100");
    assert_eq!(decimal_string(2048), "2048");
    assert_eq!(decimal_string(1234567890), "1234567890");
    assert_eq!(decimal_string(u64::MAX), "18446744073709551615");
    let mut n: u64 = 0;
    while n < 3000 {
        assert_eq!(decimal_string(n), n.to_string());
        n += 1;
    }
}

#[test]
fn decoding_accepts_well_formed_text_only() {
    assert_eq!(decode(b"").unwrap(), "");
    assert_eq!(decode(b"plain").unwrap(), "plain");
    assert_eq!(decode("\u{e9}\u{20ac}\u{1f600}\u{0}".as_bytes()).unwrap(), "\u{e9}\u{20ac}\u{1f600}\u{0}");
    assert_eq!(decode(&[0x80]), None);
    assert_eq!(decode(&[0xc3]), None);
    assert_eq!(decode(&[0xc0, 0x80]), None);
    assert_eq!(decode(&[0xe0, 0x80, 0x80]), None);
    assert_eq!(decode(&[0xed, 0xa0, 0x80]), None);
    assert_eq!(decode(&[0xf4, 0x90, 0x80, 0x80]), None);
    assert_eq!(decode(&[0xf8, 0x88, 0x80, 0x80, 0x80]), None);
    assert_eq!(decode(&[b'a', 0xff, b'b']), None);
    assert_eq!(decode(&[0xf4, 0x8f, 0xbf, 0xbf]).unwrap(), "\u{10ffff}");
    assert_eq!(decode(&[0xed, 0x9f, 0xbf]).unwrap(), "\u{d7ff}");
}

#[test]
fn finding_a_byte() {
    assert_eq!(find_byte(b"a:b:c", b':'), 1);
    assert_eq!(find_byte(b":", b':'), 0);
    assert_eq!(find_byte(b"abc", b':'), 3);
    assert_eq!(find_byte(b"", b':'), 0);
}

#[test]
fn comparing_bytes_and_texts() {
    assert!(bytes_eq(b"", b""));
    assert!(bytes_eq(b"abc", b"abc"));
    assert!(!bytes_eq(b"abc", b"abd"));
    assert!(!bytes_eq(b"abc", b"ab"));
    assert!(!bytes_eq(b"ab", b"abc"));
    assert!(str_eq("Host", "Host"));
    assert!(!str_eq("Host", "host"));
    assert!(!str_eq("Host", "Hos"));
    assert!(str_eq("", ""));
}

#[test]
fn prefixes() {
    assert!(starts_with(b"/files/a", b"/files"));
    assert!(starts_with(b"/files", b"/files"));
    assert!(starts_with(b"/files", b""));
    assert!(starts_with(b"", b""));
    assert!(!starts_with(b"/file", b"/files"));
    assert!(!starts_with(b"", b"/"));
    assert!(!starts_with(b"x/files", b"/files"));
    assert_eq!(strip_prefix_or_empty("/echo/hi", "/echo/"), "hi");
    assert_eq!(strip_prefix_or_empty("/echo/", "/echo/"), "");
    assert_eq!(strip_prefix_or_empty("/echo", "/echo/"), "");
    assert_eq!(strip_prefix_or_empty("/other/hi", "/echo/"), "");
    assert_eq!(strip_prefix_or_empty("\u{e9}\u{e9}", "\u{e9}"), "\u{e9}");
    assert_eq!(strip_prefix_or_empty("abc", ""), "abc");
}

#[test]
fn appending_bytes() {
    let mut buf: Vec<u8> = b"ab".to_vec();
    push_bytes(&mut buf, b"cd");
    push_bytes(&mut buf, b"");
    assert_eq!(buf, b"abcd");
}
