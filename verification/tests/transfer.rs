use std::collections::BTreeMap;

use pasotsu_term::io::{LoadedFile, Reply, Request, Target};
use pasotsu_term::names::file_name;
use pasotsu_term::packet::{crc16, ACK, CAN, CRC_REQ, EOT, NAK, SOH};
use pasotsu_term::progress::Outcome;
use pasotsu_term::protocol::{Direction, Protocol};
use pasotsu_term::receiver::Receiver;
use pasotsu_term::sender::Sender;
use pasotsu_term::transfer::{Destination, Source, Transfer};

const SECOND: u64 = 1_000_000_000;

/// Files in memory, by their paths.
struct Disk {
    files: BTreeMap<String, Vec<u8>>,
    dest: String,
    open: Option<String>,
    refuse_create: bool,
    refuse_write: bool,
}

fn disk(dest: &str) -> Disk {
    Disk {
        files: BTreeMap::new(),
        dest: dest.to_string(),
        open: None,
        refuse_create: false,
        refuse_write: false,
    }
}

fn last_component(path: &str) -> Option<String> {
    path.rsplit('/').next().map(|s| s.to_string())
}

impl Disk {
    fn path_of(&self, t: &Target) -> String {
        match t {
            Target::Dest => self.dest.clone(),
            Target::Within(name) => format!("{}/{}", self.dest, name),
            Target::At(path) => path.clone(),
        }
    }

    fn answer(&mut self, q: Request) -> Reply {
        match q {
            Request::Load(path) => match self.files.get(&path) {
                Some(data) => Reply::Loaded(Ok(LoadedFile {
                    name: file_name(last_component(&path), path.clone()),
                    data: data.clone(),
                    mtime: 0o14700000000,
                })),
                None => Reply::Loaded(Err("no such file".to_string())),
            },
            Request::Probe(t) => {
                let path = self.path_of(&t);
                Reply::Probed { exists: self.files.contains_key(&path), shown: path }
            }
            Request::Create(t) => {
                if self.refuse_create {
                    return Reply::Created(Err("denied".to_string()));
                }
                let path = self.path_of(&t);
                self.files.insert(path.clone(), Vec::new());
                self.open = Some(path);
                Reply::Created(Ok(()))
            }
            Request::Write(bytes) => {
                if self.refuse_write {
                    return Reply::Written(Err("disk full".to_string()));
                }
                let path = self.open.clone().unwrap();
                self.files.get_mut(&path).unwrap().extend_from_slice(&bytes);
                Reply::Written(Ok(()))
            }
        }
    }
}

/// Does the file work that the transfer waits for.
fn serve(t: &mut Transfer, d: &mut Disk, now: u64) -> Vec<u8> {
    let mut out = Vec::new();
    while let Some(q) = t.request() {
        let reply = d.answer(q);
        out.extend(t.resume(reply, now));
    }
    out
}

fn feed(t: &mut Transfer, d: &mut Disk, data: &[u8], now: u64) -> Vec<u8> {
    let mut out = t.input(data, now);
    out.extend(serve(t, d, now));
    out
}

fn sources(d: &Disk, paths: &[String]) -> Vec<Source> {
    paths
        .iter()
        .map(|p| Source { path: p.clone(), is_file: d.files.contains_key(p) })
        .collect()
}

fn destination(path: &str, is_dir: bool) -> Destination {
    Destination {
        path: path.to_string(),
        name: file_name(last_component(path), path.to_string()),
        is_dir,
    }
}

/// Joins a sender and a receiver and lets them work.
fn run(proto: Protocol, src: &mut Disk, files: Vec<String>, dst: &mut Disk) -> (Outcome, Outcome) {
    let mut now = 5 * SECOND;
    let mut tx = Transfer::send(proto, sources(src, &files), now).unwrap();
    assert!(serve(&mut tx, src, now).is_empty());
    let dest = destination(&dst.dest, proto == Protocol::Ymodem);
    let (mut rx, mut to_tx) = Transfer::recv(proto, dest, now).unwrap();
    for _ in 0..100_000 {
        let to_rx = feed(&mut tx, src, &to_tx, now);
        to_tx = feed(&mut rx, dst, &to_rx, now);
        if !tx.is_running() && !rx.is_running() {
            break;
        }
        if to_tx.is_empty() && to_rx.is_empty() {
            now += SECOND;
            to_tx = rx.tick(now);
            let more = tx.tick(now);
            to_tx.extend(feed(&mut rx, dst, &more, now));
        }
    }
    (tx.outcome, rx.outcome)
}

fn sample(len: usize) -> Vec<u8> {
    (0..len).map(|i| (i * 7 % 251) as u8).collect()
}

#[test]
fn crc16_xmodem() {
    assert_eq!(crc16(b"123456789"), 0x31c3);
}

#[test]
fn ymodem_batch() {
    let mut src = disk("src");
    let mut dst = disk("dst");
    let sizes = [0usize, 1, 128, 129, 1024, 1025, 5000];
    let files: Vec<String> = sizes
        .iter()
        .map(|&n| {
            let p = format!("src/f{n}.bin");
            src.files.insert(p.clone(), sample(n));
            p
        })
        .collect();
    let (t, r) = run(Protocol::Ymodem, &mut src, files, &mut dst);
    assert!(matches!(t, Outcome::Done(_)), "{t:?}");
    assert!(matches!(r, Outcome::Done(_)), "{r:?}");
    for n in sizes {
        assert_eq!(dst.files[&format!("dst/f{n}.bin")], sample(n), "size {n}");
    }
    assert_eq!(dst.files.len(), 7);
}

#[test]
fn xmodem_variants() {
    for proto in [Protocol::Xmodem, Protocol::Xmodem1k] {
        let mut src = disk("src");
        // Data that does not end in SUB keeps its length.
        let data = sample(3000);
        src.files.insert("a.txt".to_string(), data.clone());
        let mut dst = disk("b.txt");
        let (t, r) = run(proto, &mut src, vec!["a.txt".to_string()], &mut dst);
        assert!(matches!(t, Outcome::Done(_)), "{t:?}");
        assert!(matches!(r, Outcome::Done(_)), "{r:?}");
        assert_eq!(dst.files["b.txt"], data);
    }
}

#[test]
fn corrupted_packet_is_resent() {
    let mut src = disk("src");
    src.files.insert("a.bin".to_string(), sample(2000));
    let mut dst = disk("b.bin");
    let now = 0;
    let files = sources(&src, &["a.bin".to_string()]);
    let mut tx = Transfer::send(Protocol::Xmodem, files, now).unwrap();
    assert!(serve(&mut tx, &mut src, now).is_empty());
    let (mut rx, start) = Transfer::recv(Protocol::Xmodem, destination("b.bin", false), now).unwrap();
    let mut pkt = feed(&mut tx, &mut src, &start, now);
    pkt[10] ^= 0xff;
    let reply = feed(&mut rx, &mut dst, &pkt, now);
    assert_eq!(reply, vec![NAK]);
    let mut to_tx = reply;
    for _ in 0..100 {
        let to_rx = feed(&mut tx, &mut src, &to_tx, now);
        to_tx = feed(&mut rx, &mut dst, &to_rx, now);
        if !tx.is_running() {
            break;
        }
    }
    assert!(matches!(tx.outcome, Outcome::Done(_)));
    assert_eq!(dst.files["b.bin"], sample(2000));
    assert_eq!(tx.progress.errors, 1);
}

// ---------------------------------------------------------------- starting

fn message<T>(r: Result<T, String>) -> String {
    match r {
        Ok(_) => panic!("accepted"),
        Err(e) => e,
    }
}

#[test]
fn sending_nothing_is_refused() {
    let e = message(Transfer::send(Protocol::Ymodem, Vec::new(), 0));
    assert_eq!(e, "送信するファイルを指定してください");
}

#[test]
fn xmodem_sends_one_file_only() {
    let two = || {
        vec![
            Source { path: "a".to_string(), is_file: true },
            Source { path: "b".to_string(), is_file: true },
        ]
    };
    let e = message(Transfer::send(Protocol::Xmodem1k, two(), 0));
    assert_eq!(e, "XMODEM-1K は 1 ファイルずつしか送れません");
    assert!(Transfer::send(Protocol::Ymodem, two(), 0).is_ok());
}

#[test]
fn first_missing_file_is_named() {
    let files = vec![
        Source { path: "a".to_string(), is_file: true },
        Source { path: "b".to_string(), is_file: false },
        Source { path: "c".to_string(), is_file: false },
    ];
    let e = message(Transfer::send(Protocol::Ymodem, files, 0));
    assert_eq!(e, "ファイルがありません: b");
}

#[test]
fn destinations_must_fit_the_protocol() {
    let e = message(Transfer::recv(Protocol::Ymodem, destination("x/y", false), 0));
    assert_eq!(e, "保存先ディレクトリがありません: x/y");
    let e = message(Transfer::recv(Protocol::Xmodem, destination("x/y", true), 0));
    assert_eq!(e, "XMODEM は保存するファイル名を指定してください: x/y");
    let (t, out) = Transfer::recv(Protocol::Xmodem, destination("x/y", false), 0).unwrap();
    assert_eq!(out, vec![CRC_REQ]);
    assert!(t.is_running());
    assert!(matches!(t.direction, Direction::Recv));
}

// ---------------------------------------------------------------- whole transfers

#[test]
fn messages_name_what_was_moved() {
    let mut src = disk("src");
    src.files.insert("p/a".to_string(), sample(10));
    src.files.insert("p/b".to_string(), sample(20));
    let mut dst = disk("d");
    let files = vec!["p/a".to_string(), "p/b".to_string()];
    let (t, r) = run(Protocol::Ymodem, &mut src, files, &mut dst);
    assert!(matches!(&t, Outcome::Done(m) if m == "a, b を送信しました"), "{t:?}");
    assert!(matches!(&r, Outcome::Done(m) if m == "d/a, d/b を受信しました"), "{r:?}");
}

#[test]
fn taken_names_get_a_number() {
    let mut src = disk("src");
    src.files.insert("a".to_string(), sample(300));
    let mut dst = disk("d");
    dst.files.insert("d/a".to_string(), vec![9]);
    dst.files.insert("d/a.1".to_string(), vec![8]);
    let (t, r) = run(Protocol::Ymodem, &mut src, vec!["a".to_string()], &mut dst);
    assert!(matches!(t, Outcome::Done(_)), "{t:?}");
    assert!(matches!(&r, Outcome::Done(m) if m == "d/a.2 を受信しました"), "{r:?}");
    assert_eq!(dst.files["d/a"], vec![9]);
    assert_eq!(dst.files["d/a.1"], vec![8]);
    assert_eq!(dst.files["d/a.2"], sample(300));
}

#[test]
fn same_file_twice_is_kept_twice() {
    let mut src = disk("src");
    src.files.insert("a".to_string(), sample(5));
    let mut dst = disk("d");
    let files = vec!["a".to_string(), "a".to_string()];
    let (_, r) = run(Protocol::Ymodem, &mut src, files, &mut dst);
    assert!(matches!(&r, Outcome::Done(m) if m == "d/a, d/a.1 を受信しました"), "{r:?}");
    assert_eq!(dst.files["d/a"], sample(5));
    assert_eq!(dst.files["d/a.1"], sample(5));
}

#[test]
fn ymodem_keeps_trailing_subs() {
    let mut src = disk("src");
    let data = vec![0x1a; 1500];
    src.files.insert("a".to_string(), data.clone());
    let mut dst = disk("d");
    run(Protocol::Ymodem, &mut src, vec!["a".to_string()], &mut dst);
    assert_eq!(dst.files["d/a"], data);
}

#[test]
fn xmodem_drops_trailing_subs_of_the_last_block() {
    let mut src = disk("src");
    let mut data = vec![0x1a; 128];
    data.extend([1, 2, 0x1a, 0x1a]);
    src.files.insert("a".to_string(), data);
    let mut dst = disk("b");
    let (t, r) = run(Protocol::Xmodem, &mut src, vec!["a".to_string()], &mut dst);
    assert!(matches!(&t, Outcome::Done(m) if m == "a を送信しました"), "{t:?}");
    assert!(matches!(&r, Outcome::Done(m) if m == "b を受信しました"), "{r:?}");
    let mut kept = vec![0x1a; 128];
    kept.extend([1, 2]);
    assert_eq!(dst.files["b"], kept);
}

#[test]
fn empty_xmodem_file_is_created() {
    let mut src = disk("src");
    src.files.insert("a".to_string(), Vec::new());
    let mut dst = disk("b");
    let (t, r) = run(Protocol::Xmodem1k, &mut src, vec!["a".to_string()], &mut dst);
    assert!(matches!(t, Outcome::Done(_)), "{t:?}");
    assert!(matches!(r, Outcome::Done(_)), "{r:?}");
    assert!(dst.files["b"].is_empty());
}

#[test]
fn empty_batch_is_reported() {
    let (mut rx, _) = Transfer::recv(Protocol::Ymodem, destination("d", true), 0).unwrap();
    let mut packet = vec![SOH, 0, 255];
    packet.extend(vec![0u8; 130]);
    assert_eq!(rx.input(&packet, 0), vec![ACK]);
    assert!(matches!(&rx.outcome, Outcome::Done(m) if m == "受信するファイルはありませんでした"));
}

#[test]
fn checksum_mode_moves_a_file() {
    let mut src = disk("src");
    src.files.insert("a".to_string(), sample(300));
    let mut dst = disk("b");
    let mut now = 0;
    let files = sources(&src, &["a".to_string()]);
    let mut tx = Transfer::send(Protocol::Xmodem, files, now).unwrap();
    serve(&mut tx, &mut src, now);
    let (mut rx, _) = Transfer::recv(Protocol::Xmodem, destination("b", false), now).unwrap();
    // The first signals are lost; the fourth asks for checksums.
    let mut signals = Vec::new();
    for _ in 0..3 {
        now += 3 * SECOND;
        signals.extend(rx.tick(now));
    }
    assert_eq!(signals, vec![CRC_REQ, CRC_REQ, NAK]);
    let mut to_tx = vec![NAK];
    let mut first = true;
    while tx.is_running() {
        let to_rx = feed(&mut tx, &mut src, &to_tx, now);
        if first {
            assert_eq!(to_rx.len(), 132);
            first = false;
        }
        to_tx = feed(&mut rx, &mut dst, &to_rx, now);
    }
    assert!(matches!(tx.outcome, Outcome::Done(_)));
    assert_eq!(dst.files["b"], sample(300));
}

#[test]
fn long_blocks_only_for_more_than_a_short_one() {
    let mut src = disk("src");
    src.files.insert("a".to_string(), sample(1024 + 128));
    let files = sources(&src, &["a".to_string()]);
    let mut tx = Transfer::send(Protocol::Xmodem1k, files, 0).unwrap();
    serve(&mut tx, &mut src, 0);
    let first = tx.input(&[CRC_REQ], 0);
    assert_eq!((first[0], first.len()), (0x02, 1029));
    let second = tx.input(&[ACK], 0);
    assert_eq!((second[0], second[1], second[2], second.len()), (0x01, 2, 253, 133));
    assert_eq!(tx.progress.bytes, 1024);
    assert_eq!(tx.progress.total, Some(1152));
    assert_eq!(tx.input(&[ACK], 0), vec![EOT]);
}

#[test]
fn announced_length_cuts_the_last_block() {
    let mut dst = disk("d");
    let (mut rx, _) = Transfer::recv(Protocol::Ymodem, destination("d", true), 0).unwrap();
    let header = pasotsu_term::packet::ymodem_header(Some(("x", 3, 0)));
    assert_eq!(feed(&mut rx, &mut dst, &header, 0), vec![ACK, CRC_REQ]);
    assert!(rx.file_open());
    let block = pasotsu_term::packet::make_packet(1, &[7; 100], 128, true);
    assert_eq!(feed(&mut rx, &mut dst, &block, 0), vec![ACK]);
    assert_eq!(dst.files["d/x"], vec![7, 7, 7]);
    assert_eq!(feed(&mut rx, &mut dst, &[EOT], 0), vec![ACK, CRC_REQ]);
    assert!(!rx.file_open());
    assert_eq!(rx.progress.files_done, 1);
}

// ---------------------------------------------------------------- faults

fn sender_at_first_block(proto: Protocol) -> (Transfer, Vec<u8>) {
    let mut src = disk("src");
    src.files.insert("a".to_string(), sample(200));
    let files = sources(&src, &["a".to_string()]);
    let mut tx = Transfer::send(proto, files, 0).unwrap();
    serve(&mut tx, &mut src, 0);
    let block = tx.input(&[CRC_REQ], 0);
    (tx, block)
}

#[test]
fn sender_gives_up_after_ten_repetitions() {
    let (mut tx, block) = sender_at_first_block(Protocol::Xmodem);
    for _ in 0..10 {
        assert_eq!(tx.input(&[NAK], 0), block);
    }
    assert_eq!(tx.input(&[NAK], 0), vec![CAN; 5]);
    assert!(matches!(&tx.outcome, Outcome::Failed(m) if m == "再送が多すぎます"));
    assert_eq!(tx.progress.errors, 11);
    assert!(tx.input(&[ACK], 0).is_empty());
}

#[test]
fn silent_receiver_ends_the_sending() {
    let (mut tx, block) = sender_at_first_block(Protocol::Xmodem);
    let mut now = 0;
    assert!(tx.tick(10 * SECOND - 1).is_empty());
    for _ in 0..10 {
        now += 10 * SECOND;
        assert_eq!(tx.tick(now), block);
    }
    assert_eq!(tx.tick(now + 10 * SECOND), vec![CAN; 5]);
    assert!(matches!(&tx.outcome, Outcome::Failed(m) if m == "応答がありません"));
}

#[test]
fn sender_waits_a_minute_for_the_start() {
    let mut src = disk("src");
    src.files.insert("a".to_string(), sample(1));
    let files = sources(&src, &["a".to_string()]);
    let mut tx = Transfer::send(Protocol::Xmodem, files, 0).unwrap();
    serve(&mut tx, &mut src, 0);
    assert!(tx.tick(60 * SECOND - 1).is_empty());
    assert_eq!(tx.tick(60 * SECOND), vec![CAN; 5]);
    assert!(matches!(&tx.outcome, Outcome::Failed(m) if m == "受信側が応答しません"));
}

#[test]
fn silent_sender_ends_the_receiving() {
    let (mut rx, _) = Transfer::recv(Protocol::Ymodem, destination("d", true), 0).unwrap();
    let mut now = 0;
    for _ in 0..19 {
        now += 3 * SECOND;
        assert_eq!(rx.tick(now), vec![CRC_REQ]);
    }
    assert_eq!(rx.tick(now + 3 * SECOND), vec![CAN; 5]);
    assert!(matches!(&rx.outcome, Outcome::Failed(m) if m == "送信側が応答しません"));
}

#[test]
fn too_many_bad_packets_end_the_receiving() {
    let (mut rx, _) = Transfer::recv(Protocol::Xmodem, destination("b", false), 0).unwrap();
    let mut bad = pasotsu_term::packet::make_packet(1, &[1; 128], 128, true);
    bad[50] = 2;
    for _ in 0..10 {
        assert_eq!(rx.input(&bad, 0), vec![NAK]);
    }
    assert_eq!(rx.input(&bad, 0), vec![CAN; 5]);
    assert!(matches!(&rx.outcome, Outcome::Failed(m) if m == "受信エラーが多すぎます"));
}

#[test]
fn skipped_block_ends_the_receiving() {
    let (mut rx, _) = Transfer::recv(Protocol::Xmodem, destination("b", false), 0).unwrap();
    let packet = pasotsu_term::packet::make_packet(3, &[1; 128], 128, true);
    assert_eq!(rx.input(&packet, 0), vec![CAN; 5]);
    assert!(matches!(&rx.outcome, Outcome::Failed(m) if m == "ブロック番号が飛びました"));
}

#[test]
fn repeated_block_is_stored_once() {
    let mut dst = disk("b");
    let (mut rx, _) = Transfer::recv(Protocol::Xmodem, destination("b", false), 0).unwrap();
    let packet = pasotsu_term::packet::make_packet(1, &[5; 128], 128, true);
    assert_eq!(feed(&mut rx, &mut dst, &packet, 0), vec![ACK]);
    assert_eq!(feed(&mut rx, &mut dst, &packet, 0), vec![ACK]);
    assert_eq!(rx.progress.bytes, 128);
    assert_eq!(feed(&mut rx, &mut dst, &[EOT], 0), vec![ACK]);
    assert_eq!(dst.files["b"], vec![5; 128]);
}

#[test]
fn lost_acknowledgement_does_no_harm() {
    let mut src = disk("src");
    src.files.insert("a".to_string(), sample(400));
    let mut dst = disk("b");
    let files = sources(&src, &["a".to_string()]);
    let mut tx = Transfer::send(Protocol::Xmodem, files, 0).unwrap();
    serve(&mut tx, &mut src, 0);
    let (mut rx, start) = Transfer::recv(Protocol::Xmodem, destination("b", false), 0).unwrap();
    let block = feed(&mut tx, &mut src, &start, 0);
    assert_eq!(feed(&mut rx, &mut dst, &block, 0), vec![ACK]);
    // The answer is lost; the sender sends the block again.
    let now = 10 * SECOND;
    let again = tx.tick(now);
    assert_eq!(again, block);
    let mut to_tx = feed(&mut rx, &mut dst, &again, now);
    while tx.is_running() {
        let to_rx = feed(&mut tx, &mut src, &to_tx, now);
        to_tx = feed(&mut rx, &mut dst, &to_rx, now);
    }
    assert_eq!(dst.files["b"], sample(400));
    assert_eq!(tx.progress.errors, 1);
}

#[test]
fn missing_block_is_asked_for() {
    let mut dst = disk("b");
    let (mut rx, _) = Transfer::recv(Protocol::Xmodem, destination("b", false), 0).unwrap();
    let packet = pasotsu_term::packet::make_packet(1, &[5; 128], 128, true);
    feed(&mut rx, &mut dst, &packet, 0);
    feed(&mut rx, &mut dst, &packet[..40], 0);
    assert!(rx.tick(10 * SECOND - 1).is_empty());
    assert_eq!(rx.tick(10 * SECOND), vec![NAK]);
    let next = pasotsu_term::packet::make_packet(2, &[6; 128], 128, true);
    assert_eq!(feed(&mut rx, &mut dst, &next, 10 * SECOND), vec![ACK]);
}

#[test]
fn two_cancel_bytes_abort_either_side() {
    let (mut tx, _) = sender_at_first_block(Protocol::Ymodem);
    assert!(tx.input(&[CAN, 0x20, CAN], 0).is_empty());
    assert!(tx.is_running());
    assert!(tx.input(&[CAN], 0).is_empty());
    assert!(matches!(&tx.outcome, Outcome::Failed(m) if m == "相手が中止しました"));
    let (mut rx, _) = Transfer::recv(Protocol::Xmodem, destination("b", false), 0).unwrap();
    assert!(rx.input(&[CAN, CAN], 0).is_empty());
    assert!(matches!(&rx.outcome, Outcome::Failed(m) if m == "相手が中止しました"));
}

#[test]
fn cancelling_tells_the_other_side_once() {
    let (mut tx, _) = sender_at_first_block(Protocol::Xmodem);
    assert_eq!(tx.cancel(), vec![CAN; 5]);
    assert!(matches!(&tx.outcome, Outcome::Failed(m) if m == "中止しました"));
    assert!(tx.cancel().is_empty());
    assert!(tx.input(&[NAK], 0).is_empty());
    assert!(tx.tick(100 * SECOND).is_empty());
    assert!(tx.request().is_none());
    assert!(matches!(&tx.outcome, Outcome::Failed(m) if m == "中止しました"));
}

// ---------------------------------------------------------------- file errors

#[test]
fn unreadable_first_file_fails_quietly() {
    let mut src = disk("src");
    let files = vec![Source { path: "gone".to_string(), is_file: true }];
    let mut tx = Transfer::send(Protocol::Xmodem, files, 0).unwrap();
    assert!(serve(&mut tx, &mut src, 0).is_empty());
    assert!(
        matches!(&tx.outcome, Outcome::Failed(m) if m == "読み込めません: gone: no such file")
    );
}

#[test]
fn unreadable_later_file_cancels() {
    let mut src = disk("src");
    src.files.insert("a".to_string(), Vec::new());
    let files = vec![
        Source { path: "a".to_string(), is_file: true },
        Source { path: "gone".to_string(), is_file: true },
    ];
    let mut tx = Transfer::send(Protocol::Ymodem, files, 0).unwrap();
    serve(&mut tx, &mut src, 0);
    tx.input(&[CRC_REQ], 0);
    assert_eq!(tx.input(&[ACK, CRC_REQ], 0), vec![EOT]);
    assert!(tx.input(&[ACK], 0).is_empty());
    assert_eq!(serve(&mut tx, &mut src, 0), vec![CAN; 5]);
    assert!(
        matches!(&tx.outcome, Outcome::Failed(m) if m == "読み込めません: gone: no such file")
    );
}

#[test]
fn uncreatable_files_cancel() {
    let mut dst = disk("d");
    dst.refuse_create = true;
    let (mut rx, _) = Transfer::recv(Protocol::Ymodem, destination("d", true), 0).unwrap();
    let header = pasotsu_term::packet::ymodem_header(Some(("x", 3, 0)));
    assert_eq!(feed(&mut rx, &mut dst, &header, 0), vec![CAN; 5]);
    assert!(matches!(&rx.outcome, Outcome::Failed(m) if m == "保存できません d/x: denied"));
    let block = pasotsu_term::packet::make_packet(1, &[7; 100], 128, true);
    for input in [block.as_slice(), &[EOT]] {
        dst.dest = "b".to_string();
        let (mut rx, _) = Transfer::recv(Protocol::Xmodem, destination("b", false), 0).unwrap();
        assert_eq!(feed(&mut rx, &mut dst, input, 0), vec![CAN; 5]);
        assert!(matches!(&rx.outcome, Outcome::Failed(m) if m == "保存できません: b: denied"));
    }
}

#[test]
fn unwritable_files_cancel() {
    let mut dst = disk("b");
    dst.refuse_write = true;
    let block = pasotsu_term::packet::make_packet(1, &[7; 100], 128, true);
    for input in [block.as_slice(), &[EOT]] {
        let (mut rx, _) = Transfer::recv(Protocol::Xmodem, destination("b", false), 0).unwrap();
        assert_eq!(feed(&mut rx, &mut dst, input, 0), vec![CAN; 5]);
        assert!(matches!(&rx.outcome, Outcome::Failed(m) if m == "disk full"));
        assert!(!rx.file_open());
    }
}

#[test]
fn input_waits_for_file_work() {
    let mut src = disk("src");
    src.files.insert("a".to_string(), sample(5));
    let files = sources(&src, &["a".to_string()]);
    let mut tx = Transfer::send(Protocol::Xmodem, files, 0).unwrap();
    assert!(matches!(tx.request(), Some(Request::Load(p)) if p == "a"));
    assert!(tx.input(&[CRC_REQ], 0).is_empty());
    assert!(tx.resume(Reply::Created(Ok(())), 0).is_empty());
    assert_eq!(serve(&mut tx, &mut src, 0).len(), 133);
}

#[test]
fn counters_have_room() {
    let (tx, _) = sender_at_first_block(Protocol::Xmodem);
    assert!(tx.has_room(4294967295));
    assert!(!tx.has_room(4294967296));
    let (rx, _) = Transfer::recv(Protocol::Xmodem, destination("b", false), 0).unwrap();
    assert!(rx.has_room(1000));
    assert!(!rx.has_room(usize::MAX));
}

#[test]
fn pieces_of_input_do_not_matter() {
    let mut whole = disk("b");
    let mut bytewise = disk("b");
    let start = || Transfer::recv(Protocol::Xmodem, destination("b", false), 0).unwrap().0;
    let (mut rx, mut ry) = (start(), start());
    let mut input = vec![0x55];
    input.extend(pasotsu_term::packet::make_packet(1, &[5; 128], 128, true));
    input.extend(pasotsu_term::packet::make_packet(2, &[6; 100], 128, true));
    input.push(EOT);
    let out = feed(&mut rx, &mut whole, &input, 0);
    let mut pieces = Vec::new();
    for b in &input {
        pieces.extend(feed(&mut ry, &mut bytewise, &[*b], 0));
    }
    assert_eq!(out, vec![ACK, ACK, ACK]);
    assert_eq!(pieces, out);
    assert_eq!(whole.files, bytewise.files);
    assert_eq!(whole.files["b"].len(), 228);
}

#[test]
fn block_numbers_wrap() {
    for proto in [Protocol::Xmodem, Protocol::Xmodem1k, Protocol::Ymodem] {
        let data = sample(300 * 1024 + 77);
        let mut src = disk("src");
        src.files.insert("a".to_string(), data.clone());
        let mut dst = disk("d");
        let (t, r) = run(proto, &mut src, vec!["a".to_string()], &mut dst);
        assert!(matches!(t, Outcome::Done(_)), "{t:?}");
        assert!(matches!(r, Outcome::Done(_)), "{r:?}");
        let path = if proto == Protocol::Ymodem { "d/a" } else { "d" };
        assert_eq!(dst.files[path], data);
    }
}

#[test]
fn accepted_block_is_counted() {
    let mut dst = disk("d");
    let (mut rx, _) = Transfer::recv(Protocol::Ymodem, destination("d", true), 0).unwrap();
    let header = pasotsu_term::packet::ymodem_header(Some(("x", 1000, 0)));
    assert_eq!(feed(&mut rx, &mut dst, &header, 0), vec![ACK, CRC_REQ]);
    assert_eq!((rx.progress.file.as_str(), rx.progress.bytes), ("x", 0));
    assert_eq!(rx.progress.total, Some(1000));
    assert!(dst.files["d/x"].is_empty());
    let block = pasotsu_term::packet::make_packet(1, &[4; 128], 128, true);
    let mut bad = block.clone();
    bad[60] = 5;
    assert_eq!(feed(&mut rx, &mut dst, &bad, 0), vec![NAK]);
    assert_eq!(feed(&mut rx, &mut dst, &block, 0), vec![ACK]);
    assert_eq!((rx.progress.bytes, rx.progress.errors), (128, 1));
    assert!(rx.is_running());
    assert!(rx.tick(10 * SECOND - 1).is_empty());
    assert_eq!(rx.tick(10 * SECOND), vec![NAK]);
}

#[test]
fn counters_end_at_the_number_of_files() {
    let mut src = disk("src");
    let names: Vec<String> = (0..3).map(|i| format!("f{i}")).collect();
    for n in &names {
        src.files.insert(n.clone(), sample(500));
    }
    let mut dst = disk("d");
    let mut tx = Transfer::send(Protocol::Ymodem, sources(&src, &names), 0).unwrap();
    serve(&mut tx, &mut src, 0);
    let (mut rx, mut to_tx) = Transfer::recv(Protocol::Ymodem, destination("d", true), 0).unwrap();
    while tx.is_running() || rx.is_running() {
        let to_rx = feed(&mut tx, &mut src, &to_tx, 0);
        to_tx = feed(&mut rx, &mut dst, &to_rx, 0);
    }
    assert_eq!((tx.progress.files_done, tx.progress.errors), (3, 0));
    assert_eq!((rx.progress.files_done, rx.progress.errors), (3, 0));
}

#[test]
fn finished_transfers_are_silent() {
    let (mut tx, _) = sender_at_first_block(Protocol::Xmodem);
    tx.cancel();
    let errors = tx.progress.errors;
    assert!(tx.input(&[NAK; 100], 0).is_empty());
    assert!(tx.tick(u64::MAX).is_empty());
    assert!(tx.resume(Reply::Written(Ok(())), 0).is_empty());
    assert_eq!(tx.progress.errors, errors);
    assert!(matches!(&tx.outcome, Outcome::Failed(m) if m == "中止しました"));
}

#[test]
fn sender_without_files_ends_at_once() {
    let mut tx = Sender::new(Protocol::Xmodem, Vec::new(), 0);
    assert!(tx.request().is_none());
    assert!(tx.outcome().is_running());
    let mut out = Vec::new();
    tx.input(&[CRC_REQ], 0, &mut out);
    assert_eq!(out, vec![EOT]);
}

#[test]
fn receiver_takes_packets_and_headers() {
    let new = |p| Receiver::new(p, "d".to_string(), "d".to_string(), 0).0;
    let mut rx = new(Protocol::Xmodem);
    let mut out = Vec::new();
    rx.on_packet(&pasotsu_term::packet::make_packet(1, &[9; 128], 128, true), 0, &mut out);
    assert!(matches!(rx.request(), Some(Request::Create(Target::Dest))));
    rx.resume(Reply::Created(Ok(())), 0, &mut out);
    assert!(matches!(rx.request(), Some(Request::Write(b)) if b.is_empty()));
    rx.resume(Reply::Written(Ok(())), 0, &mut out);
    assert_eq!(out, vec![ACK]);
    assert_eq!(rx.progress().bytes, 128);

    let mut rx = new(Protocol::Ymodem);
    let mut out = Vec::new();
    let header = pasotsu_term::packet::ymodem_header(Some(("a/x.txt", 12, 8)));
    rx.on_header(&header[3..131], &mut out);
    assert!(matches!(rx.request(), Some(Request::Probe(Target::Within(n))) if n == "x.txt"));
    rx.resume(Reply::Probed { exists: true, shown: "d/x.txt".to_string() }, 0, &mut out);
    assert!(matches!(rx.request(), Some(Request::Probe(Target::At(p))) if p == "d/x.txt.1"));
    rx.resume(Reply::Probed { exists: false, shown: "d/x.txt.1".to_string() }, 0, &mut out);
    assert!(matches!(rx.request(), Some(Request::Create(Target::At(p))) if p == "d/x.txt.1"));
    assert!(out.is_empty());
    rx.resume(Reply::Created(Ok(())), 0, &mut out);
    assert_eq!(out, vec![ACK, CRC_REQ]);
    let p = rx.progress();
    assert_eq!((p.file.as_str(), p.bytes, p.total), ("x.txt.1", 0, Some(12)));
    assert!(rx.file_open());
}
