use axis::text::{
    bytes_below, from_utf8, from_utf8_lossy, push_decimal, push_digit, push_hex, push_octal,
    same_bytes, same_text, text_below,
};

fn decimal(n: u64) -> String {
    let mut out = String::new();
    push_decimal(&mut out, n);
    out
}

fn octal(n: u64) -> String {
    let mut out = String::new();
    push_octal(&mut out, n);
    out
}

#[test]
fn decimal_text() {
    assert_eq!(decimal(0), "0");
    assert_eq!(decimal(7), "7");
    assert_eq!(decimal(10), "10");
    assert_eq!(decimal(5555), "5555");
    assert_eq!(decimal(65535), "65535");
    assert_eq!(decimal(u64::MAX), "18446744073709551615");
}

#[test]
fn octal_text() {
    assert_eq!(octal(0), "0");
    assert_eq!(octal(7), "7");
    assert_eq!(octal(8), "10");
    assert_eq!(octal(0o400), "400");
    assert_eq!(octal(0o755), "755");
    assert_eq!(octal(u32::MAX as u64), "37777777777");
}

#[test]
fn digits_up_to_fifteen() {
    let mut out = String::from("x");
    for d in 0..16 {
        push_digit(&mut out, d);
    }
    assert_eq!(out, "x0123456789abcdef");
}

#[test]
fn hex_text_of_a_part() {
    let bytes = [0x00u8, 0x0f, 0xa0, 0xff, 0x12];
    let mut out = String::from(">");
    push_hex(&mut out, &bytes, 1, 4);
    assert_eq!(out, ">0fa0ff");
    push_hex(&mut out, &bytes, 2, 2);
    assert_eq!(out, ">0fa0ff");
}

#[test]
fn same_bytes_and_text() {
    assert!(same_bytes(b"abc", b"abc"));
    assert!(!same_bytes(b"abc", b"abd"));
    assert!(!same_bytes(b"abc", b"ab"));
    assert!(same_bytes(b"", b""));
    assert!(same_text("node-1", "node-1"));
    assert!(!same_text("node-1", "node-2"));
    assert!(!same_text("node-1", "node-10"));
    assert!(same_text("größe", "größe"));
}

#[test]
fn order_of_bytes_and_text() {
    assert!(bytes_below(b"a", b"b"));
    assert!(!bytes_below(b"b", b"a"));
    assert!(!bytes_below(b"a", b"a"));
    assert!(bytes_below(b"", b"a"));
    assert!(!bytes_below(b"", b""));
    assert!(bytes_below(b"ab", b"abc"));
    assert!(!bytes_below(b"abc", b"ab"));
    assert!(bytes_below(b"abc", b"abd"));
    assert!(text_below("node-1", "node-10"));
    assert!(text_below("node-10", "node-2"));
    assert!(text_below("Z", "a"));
    assert!(text_below("z", "ä"));
}

#[test]
fn text_of_bytes() {
    assert_eq!(from_utf8(b"hello".to_vec()), Some("hello".to_string()));
    assert_eq!(from_utf8(vec![0xe2, 0x82, 0xac]), Some("€".to_string()));
    assert_eq!(from_utf8(vec![0xff, 0xfe]), None);
    assert_eq!(from_utf8(vec![]), Some(String::new()));
}

#[test]
fn text_of_bytes_whatever_they_hold() {
    assert_eq!(from_utf8_lossy(b"hi\n"), "hi\n");
    assert_eq!(from_utf8_lossy(&[b'a', 0xff, b'b']), "a\u{fffd}b");
}
