use pasotsu_term::packet::{cancel_bytes, checksum, crc16, make_packet, push_digits, ymodem_header};
use pasotsu_term::packet::{CAN, SOH, STX, SUB};

#[test]
fn short_packet_with_checksum() {
    let p = make_packet(2, &[1, 2, 3], 128, false);
    assert_eq!(p.len(), 132);
    assert_eq!(&p[..6], &[SOH, 2, 253, 1, 2, 3]);
    assert!(p[6..131].iter().all(|&b| b == SUB));
    // 6 and 125 fillers of 26.
    assert_eq!(p[131], ((6 + 125 * 26) % 256) as u8);
}

#[test]
fn long_packet_with_crc() {
    let body: Vec<u8> = (0..1024).map(|i| (i % 256) as u8).collect();
    let p = make_packet(255, &body, 1024, true);
    assert_eq!(p.len(), 1029);
    assert_eq!(&p[..3], &[STX, 255, 0]);
    assert_eq!(&p[3..1027], body.as_slice());
    assert_eq!(&p[1027..], &crc16(&body).to_be_bytes());
}

#[test]
fn checksum_wraps() {
    assert_eq!(checksum(&[]), 0);
    assert_eq!(checksum(&[200, 100]), 44);
}

#[test]
fn crc_of_nothing_and_of_one_byte() {
    assert_eq!(crc16(&[]), 0);
    assert_eq!(crc16(&[1]), 0x1021);
    assert_eq!(crc16(b"A"), 0x58e5);
}

#[test]
fn codes_notice_one_changed_byte() {
    let data = b"hello, world".to_vec();
    for i in 0..data.len() {
        let mut other = data.clone();
        other[i] ^= 0x40;
        assert_ne!(crc16(&other), crc16(&data));
        assert_ne!(checksum(&other), checksum(&data));
    }
}

#[test]
fn abort_is_five_cancel_bytes() {
    assert_eq!(cancel_bytes(), vec![CAN; 5]);
}

#[test]
fn digits_in_two_bases() {
    let mut out = Vec::new();
    push_digits(&mut out, 0, 10);
    out.push(b' ');
    push_digits(&mut out, 18446744073709551615, 10);
    out.push(b' ');
    push_digits(&mut out, 511, 8);
    assert_eq!(out, b"0 18446744073709551615 777");
}

#[test]
fn header_says_name_size_and_time() {
    let p = ymodem_header(Some(("a.txt", 1234, 8)));
    assert_eq!(p.len(), 133);
    assert_eq!(&p[..3], &[SOH, 0, 255]);
    let text = b"a.txt\x001234 10 100644";
    assert_eq!(&p[3..3 + text.len()], text);
    assert!(p[3 + text.len()..131].iter().all(|&b| b == 0));
    assert_eq!(&p[131..], &crc16(&p[3..131]).to_be_bytes());
}

#[test]
fn long_name_takes_a_long_header() {
    let name = "n".repeat(200);
    let p = ymodem_header(Some((name.as_str(), 1, 0)));
    assert_eq!((p[0], p.len()), (STX, 1029));
}

#[test]
fn batch_ends_with_an_empty_header() {
    let p = ymodem_header(None);
    assert_eq!(p.len(), 133);
    assert!(p[3..].iter().all(|&b| b == 0));
}
