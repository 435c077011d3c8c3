use pasotsu_term::ports::{list_ports, parse_flow, FlowControl};
use pasotsu_term::progress::{Outcome, Progress};
use pasotsu_term::protocol::{Direction, Protocol};

#[test]
fn protocols_have_labels() {
    assert_eq!(Protocol::Xmodem.label(), "XMODEM");
    assert_eq!(Protocol::Xmodem1k.label(), "XMODEM-1K");
    assert_eq!(Protocol::Ymodem.label(), "YMODEM");
    assert_eq!(Direction::Send.label(), "送信");
    assert_eq!(Direction::Recv.label(), "受信");
}

#[test]
fn protocols_are_parsed() {
    for (name, p) in [
        ("x", Protocol::Xmodem),
        ("XModem", Protocol::Xmodem),
        ("x1k", Protocol::Xmodem1k),
        ("xmodem-1k", Protocol::Xmodem1k),
        ("X_MODEM_1K", Protocol::Xmodem1k),
        ("1K", Protocol::Xmodem1k),
        ("y", Protocol::Ymodem),
        ("-ymodem-", Protocol::Ymodem),
    ] {
        assert_eq!(Protocol::parse(name), Ok(p), "{name}");
    }
}

#[test]
fn unknown_protocols_are_named() {
    for name in ["", "z", "x modem", "ｘ"] {
        let e = Protocol::parse(name).unwrap_err();
        assert_eq!(e, format!("プロトコルは xmodem / xmodem-1k / ymodem のいずれか: {name}"));
    }
}

#[test]
fn labels_are_parsed_back() {
    for p in Protocol::ALL {
        assert_eq!(Protocol::parse(p.label()), Ok(p));
    }
}

#[test]
fn progress_starts_at_nothing() {
    let p = Progress::default();
    assert_eq!((p.bytes, p.total, p.files_done, p.errors), (0, None, 0, 0));
    assert!(p.file.is_empty());
    assert!(Outcome::Running.is_running());
    assert!(!Outcome::Done(String::new()).is_running());
}

#[test]
fn flow_controls_are_parsed() {
    for (name, f) in [
        ("none", FlowControl::Off),
        ("NO", FlowControl::Off),
        ("xon", FlowControl::Software),
        ("Soft", FlowControl::Software),
        ("sw", FlowControl::Software),
        ("rts", FlowControl::Hardware),
        ("hard", FlowControl::Hardware),
        ("HW", FlowControl::Hardware),
    ] {
        assert_eq!(parse_flow(name), Ok(f), "{name}");
    }
    let e = parse_flow("Cts").unwrap_err();
    assert_eq!(e, "flow は none / xon / rts のいずれか: Cts");
}

fn owned(names: &[&str]) -> Vec<String> {
    names.iter().map(|s| s.to_string()).collect()
}

#[test]
fn ports_are_filtered_and_sorted() {
    let names = owned(&[
        "/dev/ttyUSB1",
        "/dev/tty.usb",
        "/dev/cu.usb",
        "/dev/ttyUSB0",
        "/dev/tty",
        "COM10",
        "/dev/tty.",
        "COM1",
    ]);
    let ports = list_ports(names);
    let want = ["/dev/cu.usb", "/dev/tty", "/dev/ttyUSB0", "/dev/ttyUSB1", "COM1", "COM10"];
    assert_eq!(ports, owned(&want));
}

#[test]
fn equal_ports_stay() {
    assert_eq!(list_ports(owned(&["b", "a", "b"])), owned(&["a", "b", "b"]));
    assert!(list_ports(Vec::new()).is_empty());
}

#[test]
fn ports_are_in_the_order_of_std() {
    let names = owned(&["é", "z", "日", "a", "\u{10000}", "\u{ffff}", "ab", ""]);
    let mut sorted = names.clone();
    sorted.sort();
    assert_eq!(list_ports(names), sorted);
}
