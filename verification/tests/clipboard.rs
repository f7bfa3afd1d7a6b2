use glow::deps::clipboard::{base64, osc52_sequence};

#[test]
fn base64_pads_partial_groups() {
    assert_eq!(base64(b""), "");
    assert_eq!(base64(b"f"), "Zg==");
    assert_eq!(base64(b"fo"), "Zm8=");
    assert_eq!(base64(b"foo"), "Zm9v");
    assert_eq!(base64(b"foobar"), "Zm9vYmFy");
}

#[test]
fn base64_uses_the_whole_alphabet() {
    assert_eq!(base64(&[0xfb, 0xff, 0xbf]), "+/+/");
    assert_eq!(base64(&[0x00, 0x10, 0x83]), "ABCD");
    assert_eq!(base64(b"any carnal pleas"), "YW55IGNhcm5hbCBwbGVhcw==");
}

#[test]
fn the_osc52_sequence_carries_utf8_in_base64() {
    assert_eq!(osc52_sequence("hi"), "\u{1b}]52;c;aGk=\u{7}");
    assert_eq!(osc52_sequence("ö"), "\u{1b}]52;c;w7Y=\u{7}");
    assert_eq!(osc52_sequence(""), "\u{1b}]52;c;\u{7}");
}
