use pasotsu_term::names::{decode_name, file_name, parse_size, read_header, safe_name, unique_path};
use pasotsu_term::packet::ymodem_header;

#[test]
fn utf8_names_are_taken_as_they_are() {
    assert_eq!(decode_name("日本.txt".as_bytes()), "日本.txt");
    assert_eq!(decode_name(b""), "");
}

#[test]
fn other_names_are_shift_jis() {
    assert_eq!(decode_name(&[0x83, 0x65, 0x83, 0x58, 0x83, 0x67]), "テスト");
    assert_eq!(decode_name(&[0xb1, b'.', b'c']), "ｱ.c");
}

#[test]
fn paths_are_cut_to_their_last_component() {
    assert_eq!(safe_name("a/b/c.txt"), "c.txt");
    assert_eq!(safe_name("C:\\DOS\\x.com"), "x.com");
    assert_eq!(safe_name("plain name"), "plain name");
}

#[test]
fn control_characters_go() {
    assert_eq!(safe_name("a\u{7}b\u{7f}c\u{85}d"), "abcd");
}

#[test]
fn unusable_names_are_replaced() {
    for name in ["", ".", "..", "a/", "x/..", "\u{1}\u{2}", "a\\."] {
        assert_eq!(safe_name(name), "received.bin", "{name:?}");
    }
    assert_eq!(safe_name("..."), "...");
}

#[test]
fn safe_names_stay() {
    for name in ["a/b", "..", "x\u{0}y", "日本"] {
        let once = safe_name(name);
        assert_eq!(safe_name(&once), once);
    }
}

#[test]
fn numbers_make_paths_unique() {
    assert_eq!(unique_path("d/a", 0), "d/a");
    assert_eq!(unique_path("d/a", 1), "d/a.1");
    assert_eq!(unique_path("d/a", 120), "d/a.120");
}

#[test]
fn paths_without_a_component_are_shown_whole() {
    assert_eq!(file_name(Some("b".to_string()), "a/b".to_string()), "b");
    assert_eq!(file_name(None, "..".to_string()), "..");
}

#[test]
fn sizes_are_plain_numbers() {
    assert_eq!(parse_size(b"0"), Some(0));
    assert_eq!(parse_size(b"+12"), Some(12));
    assert_eq!(parse_size(b"00012"), Some(12));
    assert_eq!(parse_size(b"18446744073709551615"), Some(u64::MAX));
    assert_eq!(parse_size(b"18446744073709551616"), None);
    assert_eq!(parse_size(b""), None);
    assert_eq!(parse_size(b"+"), None);
    assert_eq!(parse_size(b"-1"), None);
    assert_eq!(parse_size(b"12a"), None);
}

#[test]
fn headers_are_read_back() {
    let p = ymodem_header(Some(("dir/日本.bin", 5000, 0o123)));
    let a = read_header(&p[3..131]);
    assert_eq!(a.name, "日本.bin");
    assert_eq!(a.size, Some(5000));
}

#[test]
fn headers_without_a_size() {
    let mut body = vec![0u8; 128];
    body[..3].copy_from_slice(b"abc");
    let a = read_header(&body);
    assert_eq!(a.name, "abc");
    assert_eq!(a.size, None);
    let full = vec![b'x'; 128];
    let a = read_header(&full);
    assert_eq!(a.name.len(), 128);
    assert_eq!(a.size, None);
}

#[test]
fn headers_in_shift_jis() {
    let mut body = vec![0u8; 128];
    body[..4].copy_from_slice(&[0x83, 0x65, 0x83, 0x58]);
    body[5..8].copy_from_slice(b"77 ");
    let a = read_header(&body);
    assert_eq!(a.name, "テス");
    assert_eq!(a.size, Some(77));
}
