use pager::render::char2hex;

fn reference(c: char) -> String {
    let mut buf = [0u8; 4];
    let bytes = c.encode_utf8(&mut buf);
    bytes.bytes().fold(String::new(), |acc, byte| acc + &format!("\\x{:x}", byte))
}

#[test]
fn char2hex_ascii() {
    assert_eq!(char2hex('a'), "\\x61");
    assert_eq!(char2hex('~'), "\\x7e");
}

#[test]
fn char2hex_small_bytes_have_one_digit() {
    assert_eq!(char2hex('\n'), "\\xa");
    assert_eq!(char2hex('\0'), "\\x0");
}

#[test]
fn char2hex_multibyte() {
    assert_eq!(char2hex('é'), "\\xc3\\xa9");
    assert_eq!(char2hex('\u{2764}'), "\\xe2\\x9d\\xa4");
    assert_eq!(char2hex('\u{1F600}'), "\\xf0\\x9f\\x98\\x80");
}

#[test]
fn char2hex_matches_utf8_formatting() {
    for c in ['a', 'Z', ' ', '\u{7f}', '\u{80}', '\u{7ff}', '\u{800}', '\u{d7ff}', '\u{e000}', '\u{ffff}', '\u{10000}', '\u{10ffff}'] {
        assert_eq!(char2hex(c), reference(c));
    }
}

#[test]
fn char2hex_tells_characters_apart() {
    let chars = ['a', 'b', '\u{61}', 'é', 'è', '\u{10ffff}'];
    for &a in &chars {
        for &b in &chars {
            assert_eq!(char2hex(a) == char2hex(b), a == b);
        }
    }
}
