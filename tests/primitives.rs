use link_args::{has_quote, to_hex_u32, Buffer};

#[test]
fn quote_detection() {
    assert!(has_quote(b"my\"lib"));
    assert!(has_quote(b"\""));
    assert!(!has_quote(b"kernel32.lib"));
    assert!(!has_quote(b""));
}

#[test]
fn hex_zero() {
    assert_eq!(&to_hex_u32(0), b"0x00000000");
}

#[test]
fn hex_max() {
    assert_eq!(&to_hex_u32(u32::MAX), b"0xffffffff");
}

#[test]
fn hex_digits_in_order() {
    assert_eq!(&to_hex_u32(0x12345678), b"0x12345678");
    assert_eq!(&to_hex_u32(0xdeadbeef), b"0xdeadbeef");
    assert_eq!(&to_hex_u32(0x800000), b"0x00800000");
}

#[test]
fn buffer_starts_zeroed() {
    let b: Buffer<4> = Buffer::new();
    assert_eq!(b.len, 0);
    assert_eq!(b.buffer, [0u8; 4]);
}

#[test]
fn buffer_push_and_separator() {
    let b: Buffer<5> = Buffer::new();
    let b = b.push(b"ab").push_seperator();
    assert_eq!(b.len, 3);
    assert_eq!(&b.buffer, b"ab \0\0");
}

#[test]
fn buffer_directive_and_value() {
    let b: Buffer<15> = Buffer::new();
    let b = b.push_directive("ENTRY").push_value("main");
    assert_eq!(b.len, 11);
    assert_eq!(&b.buffer[..11], b"/ENTRY:main");
}

#[test]
fn buffer_hex_value() {
    let b: Buffer<11> = Buffer::new();
    let b = b.push_value_hex(0xabc);
    assert_eq!(&b.buffer, b":0x00000abc");
}

#[test]
fn buffer_hex_values_joined() {
    let b: Buffer<33> = Buffer::new();
    let b = b.push_values_hex(&[1, 2, 0xff]);
    assert_eq!(b.len, 33);
    assert_eq!(&b.buffer, b":0x00000001,0x00000002,0x000000ff");
}

#[test]
fn buffer_hex_values_empty() {
    let b: Buffer<3> = Buffer::new();
    let b = b.push_values_hex(&[]);
    assert_eq!(b.len, 0);
    assert_eq!(b.buffer, [0u8; 3]);
}

#[test]
fn buffer_quoted_value() {
    let b: Buffer<9> = Buffer::new();
    let b = b.push_value_quoted("ucrt");
    assert_eq!(b.len, 7);
    assert_eq!(&b.buffer, b":\"ucrt\"\0\0");
}

#[test]
fn buffer_quoted_value_with_quote_is_dropped() {
    let b: Buffer<9> = Buffer::new();
    let b = b.push_value_quoted("my\"lib");
    assert_eq!(b.len, 0);
    assert_eq!(b.buffer, [0u8; 9]);
}
