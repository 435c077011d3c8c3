//! A YMODEM batch as a whole: which files the receiver has in the end, and where.

use vstd::prelude::*;

use crate::io::{LoadedState, ReplyState, ACK_TIMEOUT};
use crate::names::{decode_name_inverts_utf8, header_is_read_back, numbered};
use crate::names::{numbered_paths_differ, safe};
use crate::packet::{header_packet, header_size, header_text, padded, ACK, CRC_REQ, EOT};
use crate::progress::OutcomeState;
use crate::protocol::Protocol;
use crate::receiver::{framed_is_intact, lemma_nothing_waited, packet_is_taken_whole, target};
use crate::receiver::{ReceiverState, RecvPhase, WaitState};
use crate::sender::{SendPhase, SenderState, Stage};
use crate::session::{lemma_ack_arrives, lemma_blocks_move, lemma_eot_arrives, lemma_padded_len};
use crate::session::{lemma_three_steps, lemma_two_steps, Kept, Session};
use crate::text::comma_joined;

verus! {

// ---------------------------------------------------------------- free names

/// Whether `k` is the first number under which nothing is at `root` yet.
pub open spec fn is_first_free(root: Seq<char>, taken: Set<Seq<char>>, k: nat) -> bool {
    &&& !taken.contains(numbered(root, k))
    &&& forall|j: nat| j < k ==> taken.contains(#[trigger] numbered(root, j))
}

/// The path at which a file that would go to `root` is kept: the first one that is free.
pub open spec fn free_path(root: Seq<char>, taken: Set<Seq<char>>) -> Seq<char> {
    numbered(root, choose|k: nat| is_first_free(root, taken, k))
}

/// As many paths as were tried in vain are taken.
proof fn lemma_taken_enough(root: Seq<char>, taken: Set<Seq<char>>, n: nat)
    requires
        taken.finite(),
        forall|j: nat| j < n ==> taken.contains(#[trigger] numbered(root, j)),
    ensures
        n <= taken.len(),
    decreases n,
{
    if n > 0 {
        let last = numbered(root, (n - 1) as nat);
        let rest = taken.remove(last);
        assert forall|j: nat| j < n - 1 implies rest.contains(#[trigger] numbered(root, j)) by {
            numbered_paths_differ(root, j, (n - 1) as nat);
        }
        lemma_taken_enough(root, rest, (n - 1) as nat);
        assert(taken.contains(last));
    }
}

/// The first free number is found by trying from `k` on.
proof fn lemma_search(root: Seq<char>, taken: Set<Seq<char>>, k: nat)
    requires
        taken.finite(),
        forall|j: nat| j < k ==> taken.contains(#[trigger] numbered(root, j)),
    ensures
        exists|m: nat| is_first_free(root, taken, m),
    decreases taken.len() - k,
{
    lemma_taken_enough(root, taken, k);
    if taken.contains(numbered(root, k)) {
        assert forall|j: nat| j < k + 1 implies taken.contains(#[trigger] numbered(root, j)) by {
            if j < k {
                assert(taken.contains(numbered(root, j)));
            }
        }
        lemma_taken_enough(root, taken, k + 1);
        lemma_search(root, taken, k + 1);
    } else {
        assert(is_first_free(root, taken, k));
    }
}

/// However many files there are, some number is free: the path at which a file is kept is one
/// at which there is none yet, and it is the plain path where that is free.
pub proof fn free_path_is_free(root: Seq<char>, taken: Set<Seq<char>>)
    requires
        taken.finite(),
    ensures
        !taken.contains(free_path(root, taken)),
        !taken.contains(root) ==> free_path(root, taken) == root,
        exists|k: nat| is_first_free(root, taken, k) && free_path(root, taken) == numbered(root, k),
{
    lemma_search(root, taken, 0);
    let k = choose|k: nat| is_first_free(root, taken, k);
    assert(numbered(root, 0) == root);
    if !taken.contains(root) {
        assert(k == 0) by {
            if k > 0 {
                assert(taken.contains(numbered(root, 0)));
            }
        }
    }
}

/// Where the receiver keeps the files of a batch, in their order.
pub open spec fn batch_kept(
    prefix: Seq<char>,
    files: Seq<LoadedState>,
    taken: Set<Seq<char>>,
) -> Seq<Kept>
    decreases files.len(),
{
    if files.len() == 0 {
        Seq::empty()
    } else {
        let path = free_path(prefix + safe(files[0].name), taken);
        seq![Kept { path, data: files[0].data }] + batch_kept(
            prefix,
            files.skip(1),
            taken.insert(path),
        )
    }
}

/// The paths of the files.
pub open spec fn kept_paths(kept: Seq<Kept>) -> Seq<Seq<char>> {
    kept.map_values(|k: Kept| k.path)
}

/// The names of the files.
pub open spec fn file_names(files: Seq<LoadedState>) -> Seq<Seq<char>> {
    files.map_values(|f: LoadedState| f.name)
}

/// A batch overwrites nothing, neither what was there before nor a file of its own, and keeps
/// the data of its files in their order.
pub proof fn batch_overwrites_nothing(
    prefix: Seq<char>,
    files: Seq<LoadedState>,
    taken: Set<Seq<char>>,
)
    requires
        taken.finite(),
    ensures
        ({
            let kept = batch_kept(prefix, files, taken);
            &&& kept.len() == files.len()
            &&& forall|i: int|
                0 <= i < files.len() ==> (#[trigger] kept[i]).data == files[i].data
                    && !taken.contains(kept[i].path)
            &&& forall|i: int, j: int|
                0 <= i < j < files.len() ==> (#[trigger] kept[i]).path != (#[trigger] kept[j]).path
        }),
    decreases files.len(),
{
    if files.len() > 0 {
        let root = prefix + safe(files[0].name);
        let path = free_path(root, taken);
        free_path_is_free(root, taken);
        let rest = files.skip(1);
        batch_overwrites_nothing(prefix, rest, taken.insert(path));
        let kept = batch_kept(prefix, files, taken);
        let tail = batch_kept(prefix, rest, taken.insert(path));
        assert forall|i: int| 0 < i < files.len() implies #[trigger] kept[i] == tail[i - 1]
            && files[i] == rest[i - 1] by {}
        assert forall|i: int, j: int| 0 <= i < j < files.len() implies (#[trigger] kept[i]).path
            != (#[trigger] kept[j]).path by {
            assert(kept[j] == tail[j - 1]);
            if i > 0 {
                assert(kept[i] == tail[i - 1]);
            } else {
                assert(!taken.insert(path).contains(tail[j - 1].path));
            }
        }
        assert forall|i: int| 0 <= i < files.len() implies (#[trigger] kept[i]).data
            == files[i].data && !taken.contains(kept[i].path) by {
            if i > 0 {
                assert(kept[i] == tail[i - 1]);
                assert(!taken.insert(path).contains(tail[i - 1].path));
            }
        }
    }
}

/// Files whose names are safe as they are, differ from each other, and are free keep their names.
pub proof fn batch_keeps_free_names(
    prefix: Seq<char>,
    files: Seq<LoadedState>,
    taken: Set<Seq<char>>,
)
    requires
        taken.finite(),
        forall|i: int|
            0 <= i < files.len() ==> safe((#[trigger] files[i]).name) == files[i].name
                && !taken.contains(prefix + files[i].name),
        forall|i: int, j: int|
            0 <= i < j < files.len() ==> (#[trigger] files[i]).name != (#[trigger] files[j]).name,
    ensures
        batch_kept(prefix, files, taken) == files.map_values(
            |f: LoadedState| Kept { path: prefix + f.name, data: f.data },
        ),
    decreases files.len(),
{
    let named = |f: LoadedState| Kept { path: prefix + f.name, data: f.data };
    let kept = batch_kept(prefix, files, taken);
    if files.len() > 0 {
        let root = prefix + files[0].name;
        let rest = files.skip(1);
        assert(safe(files[0].name) == files[0].name);
        free_path_is_free(root, taken);
        assert forall|i: int| 0 <= i < rest.len() implies safe((#[trigger] rest[i]).name)
            == rest[i].name && !taken.insert(root).contains(prefix + rest[i].name) by {
            assert(rest[i] == files[i + 1]);
            let other = prefix + rest[i].name;
            if other == root {
                assert(other.skip(prefix.len() as int) =~= rest[i].name);
                assert(root.skip(prefix.len() as int) =~= files[0].name);
            }
        }
        batch_keeps_free_names(prefix, rest, taken.insert(root));
        assert(kept =~= seq![named(files[0])] + rest.map_values(named));
        assert(kept =~= files.map_values(named));
    } else {
        assert(kept =~= files.map_values(named));
    }
}

// ---------------------------------------------------------------- one file

/// Whether block 0 can carry what it has to say of the file: a name that is neither empty nor
/// cut off and holds no NUL, and a length of 64 bits.
pub open spec fn announceable(f: LoadedState) -> bool {
    let name = vstd::utf8::encode_utf8(f.name);
    &&& name.len() > 0
    &&& forall|i: int| 0 <= i < name.len() ==> name[i] != 0
    &&& f.data.len() <= u64::MAX
    &&& header_text(name, f.data.len(), f.mtime as nat).len() <= 1024
}

impl Session {
    /// Block 0 of the file `f` is on its way.
    pub open spec fn announcing(self, f: LoadedState) -> bool {
        &&& self.ready()
        &&& self.tx.protocol == Protocol::Ymodem
        &&& self.tx.phase == SendPhase::WaitAck(Stage::Header)
        &&& self.tx.progress.file == f.name
        &&& self.tx.data == f.data
        &&& self.tx.mtime == f.mtime
        &&& self.tx.pos == 0
        &&& self.tx.blk == 1
        &&& self.tx.last == self.tx.packet(Stage::Header)
        &&& self.to_rx == self.tx.last
        &&& self.rx.phase == RecvPhase::Header
        &&& self.rx.crc
        &&& announceable(f)
    }
}

impl Session {
    /// A block 0 with this name, length and time is on its way to a receiver that waits for one,
    /// and it can carry what it has to say.
    pub open spec fn header_coming(self, name: Seq<char>, size: u64, mtime: u64) -> bool {
        let raw = vstd::utf8::encode_utf8(name);
        let text = header_text(raw, size as nat, mtime as nat);
        &&& raw.len() > 0
        &&& forall|i: int| 0 <= i < raw.len() ==> raw[i] != 0
        &&& text.len() <= 1024
        &&& self.tx.loading is None
        &&& self.rx.outcome is Running
        &&& self.rx.phase == RecvPhase::Header
        &&& self.rx.crc
        &&& self.rx.wait is Idle
        &&& self.rx.buf.len() == 0
        &&& self.rx.backlog.len() == 0
        &&& self.to_rx == header_packet(text)
        &&& self.to_tx.len() == 0
    }
}

/// The receiver takes block 0, and looks whether the name is free.
#[verifier::spinoff_prover]
proof fn lemma_header_arrives(s: Session, name: Seq<char>, size: u64, mtime: u64)
    requires
        s.header_coming(name, size, mtime),
    ensures
        s.step() == (Session {
            rx: (ReceiverState {
                cans: 0,
                started: true,
                deadline: s.now + ACK_TIMEOUT as nat,
                size: Some(size),
                ..s.rx
            }).waiting(WaitState::Probe { name: safe(name), root: Seq::empty(), copy: 0 }),
            to_rx: Seq::empty(),
            ..s
        }),
{
    let raw = vstd::utf8::encode_utf8(name);
    let text = header_text(raw, size as nat, mtime as nat);
    let body = padded(text, header_size(text), 0);
    lemma_padded_len(text, header_size(text), 0);
    framed_is_intact(0, body, true);
    packet_is_taken_whole(s.rx, s.to_rx, s.now);
    header_is_read_back(raw, size, mtime as nat);
    decode_name_inverts_utf8(name);
    assert(s.to_tx =~= Seq::empty());
    let r = (ReceiverState {
        cans: 0,
        started: true,
        deadline: s.now + ACK_TIMEOUT as nat,
        size: Some(size),
        ..s.rx
    }).waiting(WaitState::Probe { name: safe(name), root: Seq::empty(), copy: 0 });
    assert(s.rx.fed(s.to_rx, s.now) == (r, Seq::<u8>::empty()));
    assert(s.step() =~= Session { rx: r, to_rx: Seq::empty(), ..s });
}

/// One path is looked up.
proof fn lemma_probed(s: Session, name: Seq<char>, root: Seq<char>, copy: nat)
    requires
        s.tx.loading is None,
        s.rx.outcome is Running,
        s.rx.backlog.len() == 0,
        s.rx.wait == (WaitState::Probe { name, root, copy }),
        copy > 0 ==> root == s.prefix + name,
    ensures
        ({
            let full = s.prefix + name;
            s.step() == Session {
                rx: s.rx.waiting(
                    if s.taken.contains(numbered(full, copy)) {
                        WaitState::Probe { name, root: full, copy: copy + 1 }
                    } else {
                        WaitState::Create { name, root: full, copy }
                    },
                ),
                ..s
            }
        }),
{
    let full = s.prefix + name;
    let path = s.path_of(target(name, root, copy));
    assert(path == numbered(full, copy));
    lemma_nothing_waited(s.rx, ReplyState::Probed { exists: s.taken.contains(path), shown: path }, s.now);
    assert(s.to_tx + Seq::<u8>::empty() =~= s.to_tx);
}

/// Paths are looked up until one is free.
proof fn lemma_probes(s: Session, name: Seq<char>, root: Seq<char>, copy: nat, k: nat) -> (n: nat)
    requires
        s.tx.loading is None,
        s.rx.outcome is Running,
        s.rx.backlog.len() == 0,
        s.rx.wait == (WaitState::Probe { name, root, copy }),
        copy > 0 ==> root == s.prefix + name,
        copy <= k,
        is_first_free(s.prefix + name, s.taken, k),
    ensures
        s.after(n) == (Session {
            rx: s.rx.waiting(WaitState::Create { name, root: s.prefix + name, copy: k }),
            ..s
        }),
    decreases k - copy,
{
    let full = s.prefix + name;
    lemma_probed(s, name, root, copy);
    let t = s.step();
    if copy == k {
        reveal_with_fuel(Session::after, 2);
        1
    } else {
        assert(s.taken.contains(numbered(full, copy)));
        let n = lemma_probes(t, name, full, copy + 1, k);
        assert(s.after(n + 1) == t.after(n));
        n + 1
    }
}

/// The file is created, and its data is asked for.
proof fn lemma_file_created(s: Session, name: Seq<char>, k: nat)
    requires
        s.tx.loading is None,
        s.rx.outcome is Running,
        s.rx.backlog.len() == 0,
        s.rx.wait == (WaitState::Create { name, root: s.prefix + name, copy: k }),
        s.to_tx.len() == 0,
    ensures
        ({
            let full = s.prefix + name;
            let path = numbered(full, k);
            s.step() == Session {
                rx: s.rx.waiting(WaitState::Idle).opened_file(name, full, k, s.now),
                to_tx: seq![ACK, CRC_REQ],
                taken: s.taken.insert(path),
                kept: s.kept.push(Kept { path, data: Seq::empty() }),
                ..s
            }
        }),
{
    lemma_nothing_waited(s.rx, ReplyState::Created(Ok(())), s.now);
    assert(s.to_tx + seq![ACK, CRC_REQ] =~= seq![ACK, CRC_REQ]);
}

/// The session after the announced file was created under number `k`.
spec fn file_created(s: Session, name: Seq<char>, size: u64, k: nat) -> Session {
    let full = s.prefix + safe(name);
    let path = numbered(full, k);
    let r = ReceiverState {
        cans: 0,
        started: true,
        deadline: s.now + ACK_TIMEOUT as nat,
        size: Some(size),
        ..s.rx
    };
    Session {
        rx: r.opened_file(safe(name), full, k, s.now),
        to_rx: Seq::empty(),
        to_tx: seq![ACK, CRC_REQ],
        taken: s.taken.insert(path),
        kept: s.kept.push(Kept { path, data: Seq::empty() }),
        ..s
    }
}

/// The announced file is created under the first number that is free.
#[verifier::spinoff_prover]
proof fn lemma_header_opens(s: Session, name: Seq<char>, size: u64, mtime: u64, k: nat) -> (n: nat)
    requires
        s.header_coming(name, size, mtime),
        is_first_free(s.prefix + safe(name), s.taken, k),
    ensures
        s.after(n) == file_created(s, name, size, k),
{
    lemma_header_arrives(s, name, size, mtime);
    let a = s.step();
    let m = lemma_probes(a, safe(name), Seq::empty(), 0, k);
    let b = a.after(m);
    lemma_file_created(b, safe(name), k);
    let c = b.step();
    assert(c =~= file_created(s, name, size, k));
    a.lemma_after_after(m, 1);
    reveal_with_fuel(Session::after, 2);
    assert(b.after(1) == c);
    assert(s.after(1 + (m + 1)) == a.after(m + 1));
    1 + (m + 1)
}

/// A block 0 makes the receiver create an empty file at a free path in its directory, under the
/// announced name where that is free. It then shows the file's name and length, has received
/// nothing of it, answers by ACK and `C`, and expects block 1.
pub proof fn header_opens_file(s: Session, name: Seq<char>, size: u64, mtime: u64)
    requires
        s.header_coming(name, size, mtime),
        s.taken.finite(),
    ensures
        exists|n: nat, k: nat|
            {
                let e = #[trigger] s.after(n);
                let full = s.prefix + safe(name);
                let path = free_path(full, s.taken);
                &&& #[trigger] is_first_free(s.prefix + safe(name), s.taken, k)
                &&& path == numbered(full, k)
                &&& e.kept == s.kept.push(Kept { path, data: Seq::empty() })
                &&& e.taken == s.taken.insert(path)
                &&& e.rx.size == Some(size)
                &&& e.rx.progress == s.rx.progress.opened(numbered(safe(name), k), Some(size))
                &&& e.rx.progress.bytes == 0
                &&& e.rx.progress.total == Some(size)
                &&& e.rx.path == Some(path)
                &&& e.rx.file_open
                &&& e.rx.phase == RecvPhase::Data
                &&& e.rx.expect == 1
                &&& e.rx.errors == 0
                &&& e.rx.outcome is Running
                &&& e.rx.wait is Idle
                &&& e.rx.deadline == s.now + ACK_TIMEOUT
                &&& e.to_tx == seq![ACK, CRC_REQ]
                &&& e.to_rx.len() == 0
                &&& e.tx == s.tx
            },
{
    let full = s.prefix + safe(name);
    free_path_is_free(full, s.taken);
    let k = choose|k: nat|
        is_first_free(full, s.taken, k) && free_path(full, s.taken) == numbered(full, k);
    let n = lemma_header_opens(s, name, size, mtime, k);
    let e = s.after(n);
    assert(is_first_free(full, s.taken, k));
}

/// The sender gets an acknowledgement and a start signal at once.
proof fn lemma_two_signals(t: SenderState, stage: Stage, now: nat)
    requires
        t.outcome is Running,
        t.loading is None,
        t.phase == SendPhase::WaitAck(stage),
    ensures
        ({
            let u = (SenderState { cans: 0, errors: 0, ..t }).acked(stage, now);
            let v = u.0.fed(seq![CRC_REQ], now);
            t.fed(seq![ACK, CRC_REQ], now) == (v.0, u.1 + v.1)
        }),
{
    assert(seq![ACK, CRC_REQ].skip(1) =~= seq![CRC_REQ]);
}

/// A sender that waits for a start signal sends what it has.
proof fn lemma_signal(t: SenderState, stage: Stage, now: nat)
    requires
        t.outcome is Running,
        t.loading is None,
        t.phase == SendPhase::WaitStart(stage),
    ensures
        ({
            let u = (SenderState { cans: 0, crc: true, ..t }).sent(stage, now);
            t.fed(seq![CRC_REQ], now) == (u, u.last)
        }),
{
    let u = (SenderState { cans: 0, crc: true, ..t }).sent(stage, now);
    assert(t.took(CRC_REQ, now) == (u, u.last));
    assert(seq![CRC_REQ].skip(1) =~= Seq::<u8>::empty());
    assert(u.fed(seq![CRC_REQ].skip(1), now) == (u, Seq::<u8>::empty()));
    assert(u.last + Seq::<u8>::empty() =~= u.last);
}

/// The sender learns that its file was accepted, and sends the first block, or the end.
proof fn lemma_data_starts(s: Session)
    requires
        s.tx.outcome is Running,
        s.tx.loading is None,
        s.tx.phase == SendPhase::WaitAck(Stage::Header),
        s.rx.wait is Idle,
        s.to_rx.len() == 0,
        s.to_tx == seq![ACK, CRC_REQ],
    ensures
        ({
            let u = (SenderState { cans: 0, errors: 0, crc: true, ..s.tx }).sent(
                Stage::Data,
                s.now,
            );
            s.step() == Session { tx: u, to_tx: Seq::empty(), to_rx: u.last, ..s }
        }),
{
    lemma_two_signals(s.tx, Stage::Header, s.now);
    let t = (SenderState { cans: 0, errors: 0, ..s.tx }).awaiting(Stage::Data, s.now);
    lemma_signal(t, Stage::Data, s.now);
    let u = (SenderState { cans: 0, errors: 0, crc: true, ..s.tx }).sent(Stage::Data, s.now);
    assert((SenderState { cans: 0, crc: true, ..t }).sent(Stage::Data, s.now) =~= u);
    assert(Seq::<u8>::empty() + u.last =~= u.last);
    assert(s.to_rx + u.last =~= u.last);
}

/// The sender has counted `sent` files since and the receiver `kept`, and neither met an error.
spec fn batch_counted(s: Session, e: Session, sent: nat, kept: nat) -> bool {
    &&& e.tx.progress.files_done == s.tx.progress.files_done + sent
    &&& e.tx.progress.errors == s.tx.progress.errors
    &&& e.rx.progress.files_done == s.rx.progress.files_done + kept
    &&& e.rx.progress.errors == s.rx.progress.errors
}

/// What the moving of one file leaves as it is.
pub open spec fn same_batch(s: Session, t: Session) -> bool {
    &&& t.tx.files == s.tx.files
    &&& t.tx.sent_files == s.tx.sent_files
    &&& t.tx.progress.file == s.tx.progress.file
    &&& t.source == s.source
    &&& t.prefix == s.prefix
    &&& t.now == s.now
}

/// A file that was announced is opened at a free path, and its first block, or its end, is on
/// its way.
#[verifier::spinoff_prover]
proof fn lemma_file_opens(s: Session, f: LoadedState) -> (n: nat)
    requires
        s.announcing(f),
        s.taken.finite(),
    ensures
        ({
            let path = free_path(s.prefix + safe(f.name), s.taken);
            let t = s.after(n);
            &&& if f.data.len() > 0 {
                t.moving(s.kept, path)
            } else {
                t.ending(s.kept, path)
            }
            &&& same_batch(s, t)
            &&& t.tx.protocol == Protocol::Ymodem
            &&& t.tx.data == f.data
            &&& t.tx.crc
            &&& t.rx.saved == s.rx.saved
            &&& t.taken == s.taken.insert(path)
            &&& s.same_counts(t)
        }),
{
    let full = s.prefix + safe(f.name);
    let path = free_path(full, s.taken);
    free_path_is_free(full, s.taken);
    let k = choose|k: nat|
        is_first_free(full, s.taken, k) && free_path(full, s.taken) == numbered(full, k);
    let m = lemma_header_opens(s, f.name, f.data.len() as u64, f.mtime, k);
    let c = s.after(m);
    lemma_data_starts(c);
    let d = c.step();
    s.lemma_after_after(m, 1);
    reveal_with_fuel(Session::after, 2);
    assert(c.after(1) == d);
    assert(f.data.take(0) =~= Seq::empty());
    assert(d.rx.wf());
    assert(d.tx.wf());
    if f.data.len() > 0 {
        assert(d.moving(s.kept, path));
    } else {
        assert(d.to_rx =~= seq![EOT]);
        assert(f.data =~= Seq::empty());
        assert(d.ending(s.kept, path));
    }
    m + 1
}

impl Session {
    /// A file of a batch is complete, and the receiver asks for what follows.
    pub open spec fn between(self) -> bool {
        &&& self.tx.outcome is Running
        &&& self.tx.loading is None
        &&& self.tx.backlog.len() == 0
        &&& self.tx.wf()
        &&& self.tx.protocol == Protocol::Ymodem
        &&& self.tx.phase == SendPhase::WaitAck(Stage::Eot)
        &&& self.rx.outcome is Running
        &&& self.rx.wait is Idle
        &&& self.rx.backlog.len() == 0
        &&& self.rx.buf.len() == 0
        &&& self.rx.wf()
        &&& self.rx.protocol == Protocol::Ymodem
        &&& self.rx.phase == RecvPhase::Header
        &&& self.rx.crc
        &&& self.to_rx.len() == 0
        &&& self.to_tx == seq![ACK, CRC_REQ]
    }
}

/// The end of a YMODEM file is handled.
#[verifier::spinoff_prover]
proof fn lemma_file_ends(s: Session, base: Seq<Kept>, path: Seq<char>)
    requires
        s.ending(base, path),
        s.tx.protocol == Protocol::Ymodem,
        s.tx.crc,
    ensures
        s.after(1).between(),
        same_batch(s, s.after(1)),
        s.after(1).rx.saved == s.rx.saved.push(path),
        s.after(1).kept == base.push(Kept { path, data: s.tx.data }),
        s.after(1).taken == s.taken,
        s.after(1).tx.progress == s.tx.progress,
        s.after(1).rx.progress == s.rx.progress.closed(),
{
    lemma_eot_arrives(s);
    reveal_with_fuel(Session::after, 2);
    let t = s.step();
    assert(t.rx.wf());
    assert(s.after(1) == t);
}

/// A file that was announced gets over.
proof fn lemma_file_moves(s: Session, f: LoadedState) -> (n: nat)
    requires
        s.announcing(f),
        s.taken.finite(),
    ensures
        ({
            let path = free_path(s.prefix + safe(f.name), s.taken);
            let t = s.after(n);
            &&& t.between()
            &&& same_batch(s, t)
            &&& t.rx.saved == s.rx.saved.push(path)
            &&& t.kept == s.kept.push(Kept { path, data: f.data })
            &&& t.taken == s.taken.insert(path)
            &&& batch_counted(s, t, 0, 1)
        }),
{
    let path = free_path(s.prefix + safe(f.name), s.taken);
    let a = lemma_file_opens(s, f);
    let t = s.after(a);
    let b = if f.data.len() > 0 {
        lemma_blocks_move(t, s.kept, path)
    } else {
        0
    };
    let u = t.after(b);
    lemma_file_ends(u, s.kept, path);
    t.lemma_after_after(b, 1);
    s.lemma_after_after(a, b + 1);
    a + (b + 1)
}

// ---------------------------------------------------------------- the batch

/// The sender reads its next file and announces it.
#[verifier::spinoff_prover]
proof fn lemma_next_file(s: Session)
    requires
        s.between(),
        s.tx.files.len() > 0,
        announceable(s.source[s.tx.files[0]]),
    ensures
        ({
            let f = s.source[s.tx.files[0]];
            let t = s.after(2);
            &&& t.announcing(f)
            &&& t.tx.files == s.tx.files.skip(1)
            &&& t.tx.sent_files == s.tx.sent_files.push(s.tx.progress.file)
            &&& batch_counted(s, t, 1, 0)
            &&& t.rx == s.rx
            &&& t.source == s.source
            &&& t.prefix == s.prefix
            &&& t.taken == s.taken
            &&& t.kept == s.kept
        }),
{
    let f = s.source[s.tx.files[0]];
    lemma_two_signals(s.tx, Stage::Eot, s.now);
    let a = (SenderState { cans: 0, errors: 0, ..s.tx }).acked(Stage::Eot, s.now).0;
    let b = SenderState { backlog: seq![CRC_REQ], ..a };
    assert(s.tx.backlog + seq![CRC_REQ] =~= seq![CRC_REQ]);
    assert(a.fed(seq![CRC_REQ], s.now) == (b, Seq::<u8>::empty()));
    let t = s.step();
    assert(s.to_rx =~= Seq::empty());
    assert(Seq::<u8>::empty() + Seq::<u8>::empty() =~= Seq::<u8>::empty());
    assert(t =~= Session { tx: b, to_tx: Seq::empty(), ..s });
    let c = b.loaded(Ok(f), s.now).0;
    let d = SenderState { backlog: Seq::empty(), ..c };
    lemma_signal(d, Stage::Header, s.now);
    let e = (SenderState { cans: 0, crc: true, ..d }).sent(Stage::Header, s.now);
    assert(Seq::<u8>::empty() + e.last =~= e.last);
    assert(b.resumed(ReplyState::Loaded(Ok(f)), s.now) == (e, e.last));
    assert(t.step() =~= Session { tx: e, to_tx: Seq::empty(), to_rx: e.last, ..s });
    lemma_two_steps(s);
}

/// The sender has no more files and says so.
#[verifier::spinoff_prover]
proof fn lemma_no_more_files(s: Session)
    requires
        s.between(),
        s.tx.files.len() == 0,
    ensures
        ({
            let t = s.step();
            &&& t.tx.outcome is Running
            &&& t.tx.loading is None
            &&& t.tx.phase == SendPhase::WaitAck(Stage::BatchEnd)
            &&& t.tx.sent_files == s.tx.sent_files.push(s.tx.progress.file)
            &&& t.tx.progress == s.tx.progress.closed()
            &&& t.to_rx == header_packet(Seq::empty())
            &&& t.to_tx.len() == 0
            &&& t.rx == s.rx
            &&& t.kept == s.kept
        }),
{
    lemma_two_signals(s.tx, Stage::Eot, s.now);
    let a = (SenderState { cans: 0, errors: 0, ..s.tx }).acked(Stage::Eot, s.now).0;
    lemma_signal(a, Stage::BatchEnd, s.now);
    let e = (SenderState { cans: 0, crc: true, ..a }).sent(Stage::BatchEnd, s.now);
    assert(Seq::<u8>::empty() + e.last =~= e.last);
    assert(s.to_rx + e.last =~= e.last);
}

/// The receiver learns that the batch is over, and says that it has.
#[verifier::spinoff_prover]
proof fn lemma_batch_end_arrives(s: Session)
    requires
        s.tx.loading is None,
        s.rx.outcome is Running,
        s.rx.wait is Idle,
        s.rx.buf.len() == 0,
        s.rx.phase == RecvPhase::Header,
        s.rx.crc,
        s.rx.saved.len() > 0,
        s.to_rx == header_packet(Seq::empty()),
        s.to_tx.len() == 0,
    ensures
        s.step().rx.outcome == OutcomeState::Done(
            comma_joined(s.rx.saved) + " を受信しました"@,
        ),
        s.step().tx == s.tx,
        s.step().rx.progress == s.rx.progress,
        s.step().kept == s.kept,
        s.step().to_rx.len() == 0,
        s.step().to_tx == seq![ACK],
{
    let body = padded(Seq::empty(), 128, 0);
    lemma_padded_len(Seq::empty(), 128, 0);
    framed_is_intact(0, body, true);
    packet_is_taken_whole(s.rx, s.to_rx, s.now);
    assert(s.to_tx + seq![ACK] =~= seq![ACK]);
}

/// The end of the batch is handled.
proof fn lemma_batch_ends(s: Session)
    requires
        s.between(),
        s.tx.files.len() == 0,
        s.rx.saved.len() > 0,
    ensures
        s.after(3).tx.outcome == OutcomeState::Done(
            comma_joined(s.tx.sent_files.push(s.tx.progress.file)) + " を送信しました"@,
        ),
        s.after(3).rx.outcome == OutcomeState::Done(
            comma_joined(s.rx.saved) + " を受信しました"@,
        ),
        s.after(3).kept == s.kept,
        s.after(3).tx.progress == s.tx.progress.closed(),
        s.after(3).rx.progress == s.rx.progress,
{
    lemma_no_more_files(s);
    let a = s.step();
    lemma_batch_end_arrives(a);
    let b = a.step();
    lemma_ack_arrives(b.tx, Stage::BatchEnd, b.now);
    lemma_three_steps(s);
}

/// The files that are read for these paths.
pub open spec fn read_files(
    source: Map<Seq<char>, LoadedState>,
    paths: Seq<Seq<char>>,
) -> Seq<LoadedState> {
    paths.map_values(|p: Seq<char>| source[p])
}

/// Once a file is complete, the next one is read and gets over.
#[verifier::spinoff_prover]
proof fn lemma_next_file_moves(s: Session) -> (n: nat)
    requires
        s.between(),
        s.tx.files.len() > 0,
        announceable(s.source[s.tx.files[0]]),
        s.taken.finite(),
    ensures
        ({
            let f = s.source[s.tx.files[0]];
            let path = free_path(s.prefix + safe(f.name), s.taken);
            let u = s.after(n);
            &&& u.between()
            &&& u.tx.files == s.tx.files.skip(1)
            &&& u.tx.sent_files == s.tx.sent_files.push(s.tx.progress.file)
            &&& u.tx.progress.file == f.name
            &&& u.rx.saved == s.rx.saved.push(path)
            &&& u.kept == s.kept.push(Kept { path, data: f.data })
            &&& u.taken == s.taken.insert(path)
            &&& u.source == s.source
            &&& u.prefix == s.prefix
            &&& batch_counted(s, u, 1, 1)
        }),
{
    lemma_next_file(s);
    let t = s.after(2);
    let a = lemma_file_moves(t, s.source[s.tx.files[0]]);
    s.lemma_after_after(2, a);
    2 + a
}

/// Once a file is complete, the files behind it get over.
#[verifier::spinoff_prover]
proof fn lemma_batch_goes_on(s: Session, files: Seq<LoadedState>) -> (n: nat)
    requires
        s.between(),
        files == read_files(s.source, s.tx.files),
        forall|i: int| 0 <= i < files.len() ==> announceable(#[trigger] files[i]),
        s.taken.finite(),
        s.rx.saved.len() > 0,
    ensures
        batch_ended(
            s.after(n),
            s.tx.sent_files.push(s.tx.progress.file) + file_names(files),
            s.rx.saved,
            s.kept,
            batch_kept(s.prefix, files, s.taken),
        ),
        batch_counted(s, s.after(n), files.len() + 1, files.len()),
    decreases files.len(),
{
    let kept = batch_kept(s.prefix, files, s.taken);
    let sent = s.tx.sent_files.push(s.tx.progress.file);
    if files.len() == 0 {
        lemma_batch_ends(s);
        assert(s.tx.files =~= Seq::empty());
        assert(sent + file_names(files) =~= sent);
        assert(s.rx.saved + kept_paths(kept) =~= s.rx.saved);
        assert(s.kept + kept =~= s.kept);
        3
    } else {
        let f = files[0];
        let rest = files.skip(1);
        assert(f == s.source[s.tx.files[0]]);
        let a = lemma_next_file_moves(s);
        let u = s.after(a);
        assert(rest =~= read_files(u.source, u.tx.files));
        let b = lemma_batch_goes_on(u, rest);
        s.lemma_after_after(a, b);
        let path = free_path(s.prefix + safe(f.name), s.taken);
        let tail = batch_kept(s.prefix, rest, u.taken);
        assert(kept == seq![Kept { path, data: f.data }] + tail);
        assert(kept_paths(kept) =~= seq![path] + kept_paths(tail));
        assert(file_names(files) =~= seq![f.name] + file_names(rest));
        assert(u.tx.sent_files.push(f.name) + file_names(rest) =~= sent + file_names(files));
        assert(u.rx.saved + kept_paths(tail) =~= s.rx.saved + kept_paths(kept));
        assert(u.kept + tail =~= s.kept + kept);
        a + b
    }
}

/// Both sides are done: these names were sent, and behind the files of `saved` and `base` these
/// are kept.
pub open spec fn batch_ended(
    e: Session,
    names: Seq<Seq<char>>,
    saved: Seq<Seq<char>>,
    base: Seq<Kept>,
    kept: Seq<Kept>,
) -> bool {
    &&& e.tx.outcome == OutcomeState::Done(comma_joined(names) + " を送信しました"@)
    &&& e.rx.outcome == OutcomeState::Done(
        comma_joined(saved + kept_paths(kept)) + " を受信しました"@,
    )
    &&& e.kept == base + kept
}

/// Once a file is announced, it and all files behind it get over.
proof fn lemma_batch_moves(s: Session, files: Seq<LoadedState>) -> (n: nat)
    requires
        files.len() > 0,
        s.announcing(files[0]),
        files.skip(1) == read_files(s.source, s.tx.files),
        forall|i: int| 0 <= i < files.len() ==> announceable(#[trigger] files[i]),
        s.taken.finite(),
    ensures
        batch_ended(
            s.after(n),
            s.tx.sent_files + file_names(files),
            s.rx.saved,
            s.kept,
            batch_kept(s.prefix, files, s.taken),
        ),
        batch_counted(s, s.after(n), files.len(), files.len()),
{
    let f = files[0];
    let rest = files.skip(1);
    let path = free_path(s.prefix + safe(f.name), s.taken);
    let kept = batch_kept(s.prefix, files, s.taken);
    let a = lemma_file_moves(s, f);
    let t = s.after(a);
    let b = lemma_batch_goes_on(t, rest);
    s.lemma_after_after(a, b);
    let tail = batch_kept(s.prefix, rest, t.taken);
    assert(kept == seq![Kept { path, data: f.data }] + tail);
    assert(kept_paths(kept) =~= seq![path] + kept_paths(tail));
    assert(file_names(files) =~= seq![f.name] + file_names(rest));
    assert(t.tx.sent_files.push(f.name) + file_names(rest) =~= s.tx.sent_files + file_names(files));
    assert(t.rx.saved + kept_paths(tail) =~= s.rx.saved + kept_paths(kept));
    assert(t.kept + tail =~= s.kept + kept);
    a + b
}

/// Once a block of a batch is on its way, its file and all files behind it get over.
pub proof fn ymodem_block_gets_over(s: Session, base: Seq<Kept>, path: Seq<char>)
    requires
        s.moving(base, path),
        s.tx.protocol == Protocol::Ymodem,
        s.tx.crc,
        forall|i: int|
            0 <= i < s.tx.files.len() ==> announceable(s.source[#[trigger] s.tx.files[i]]),
        s.taken.finite(),
    ensures
        exists|n: nat|
            {
                let files = read_files(s.source, s.tx.files);
                &&& batch_ended(
                    #[trigger] s.after(n),
                    s.tx.sent_files.push(s.tx.progress.file) + file_names(files),
                    s.rx.saved.push(path),
                    base.push(Kept { path, data: s.tx.data }),
                    batch_kept(s.prefix, files, s.taken),
                )
                &&& s.counted(s.after(n), files.len() + 1)
            },
{
    let files = read_files(s.source, s.tx.files);
    let a = lemma_blocks_move(s, base, path);
    let t = s.after(a);
    lemma_file_ends(t, base, path);
    let u = t.after(1);
    assert forall|i: int| 0 <= i < files.len() implies announceable(#[trigger] files[i]) by {
        assert(announceable(s.source[s.tx.files[i]]));
    }
    let b = lemma_batch_goes_on(u, files);
    s.lemma_after_after(a, 1);
    s.lemma_after_after(a + 1, b);
    assert(s.after(a + 1 + b) == u.after(b));
}

impl Session {
    /// A YMODEM batch of these files is about to be sent to a receiver that has sent its start
    /// signal and received nothing yet.
    pub open spec fn ymodem_start(self, paths: Seq<Seq<char>>) -> bool {
        &&& paths.len() > 0
        &&& self.tx.protocol == Protocol::Ymodem
        &&& exists|t: nat| self.tx == #[trigger] SenderState::start(Protocol::Ymodem, paths, t)
        &&& forall|i: int|
            0 <= i < paths.len() ==> self.source.contains_key(#[trigger] paths[i]) && announceable(
                self.source[paths[i]],
            )
        &&& self.rx.outcome is Running
        &&& self.rx.wf()
        &&& self.rx.protocol == Protocol::Ymodem
        &&& self.rx.phase == RecvPhase::Header
        &&& self.rx.crc
        &&& self.rx.wait is Idle
        &&& self.rx.buf.len() == 0
        &&& self.rx.backlog.len() == 0
        &&& self.to_rx.len() == 0
        &&& self.to_tx == seq![CRC_REQ]
        &&& self.taken.finite()
    }
}

/// A sender and a receiver that have just been made, with the receiver's start signal on its way,
/// are at the start of a YMODEM batch.
pub proof fn new_sides_start_ymodem(
    s: Session,
    paths: Seq<Seq<char>>,
    name: Seq<char>,
    t: nat,
    u: nat,
)
    requires
        paths.len() > 0,
        s.tx == SenderState::start(Protocol::Ymodem, paths, t),
        s.rx == ReceiverState::start(Protocol::Ymodem, s.rx.dest, name, u),
        s.to_rx == Seq::<u8>::empty(),
        s.to_tx == seq![CRC_REQ],
        forall|i: int|
            0 <= i < paths.len() ==> s.source.contains_key(#[trigger] paths[i]) && announceable(
                s.source[paths[i]],
            ),
        s.taken.finite(),
    ensures
        s.ymodem_start(paths),
{
}

/// The first file is read, and the start signal brings its announcement on its way.
#[verifier::spinoff_prover]
proof fn lemma_batch_starts(s: Session, paths: Seq<Seq<char>>)
    requires
        s.ymodem_start(paths),
    ensures
        ({
            let t = s.after(2);
            &&& t.announcing(s.source[paths[0]])
            &&& t.tx.files == paths.skip(1)
            &&& t.tx.sent_files.len() == 0
            &&& s.same_counts(t)
            &&& t.rx == s.rx
            &&& t.source == s.source
            &&& t.prefix == s.prefix
            &&& t.taken == s.taken
            &&& t.kept == s.kept
        }),
{
    let f = s.source[paths[0]];
    let a = s.step();
    let t = s.tx.loaded(Ok(f), s.now).0;
    assert(s.tx.backlog =~= Seq::<u8>::empty());
    assert(t =~= (SenderState { backlog: Seq::empty(), ..t }));
    assert(t.fed(Seq::empty(), s.now) == (t, Seq::<u8>::empty()));
    assert(s.to_rx =~= Seq::empty());
    assert(a =~= Session { tx: t, ..s });
    lemma_signal(t, Stage::Header, s.now);
    let u = (SenderState { cans: 0, crc: true, ..t }).sent(Stage::Header, s.now);
    assert(a.to_rx + u.last =~= u.last);
    assert(a.step() =~= Session { tx: u, to_tx: Seq::empty(), to_rx: u.last, ..s });
    lemma_two_steps(s);
}

/// A YMODEM batch over a line that loses nothing ends well on both sides. The receiver keeps
/// every file with exactly its data, in the order of sending, each at a path in its directory
/// that was free, under its own name where that was free. Each side counts the files and no error.
pub proof fn ymodem_moves_batch(s: Session, paths: Seq<Seq<char>>)
    requires
        s.ymodem_start(paths),
    ensures
        exists|n: nat|
            {
                let files = read_files(s.source, paths);
                &&& batch_ended(
                    #[trigger] s.after(n),
                    file_names(files),
                    s.rx.saved,
                    s.kept,
                    batch_kept(s.prefix, files, s.taken),
                )
                &&& s.counted(s.after(n), paths.len())
            },
{
    let files = read_files(s.source, paths);
    lemma_batch_starts(s, paths);
    let t = s.after(2);
    assert(files.skip(1) =~= read_files(t.source, t.tx.files));
    assert forall|i: int| 0 <= i < files.len() implies announceable(#[trigger] files[i]) by {
        assert(s.source.contains_key(paths[i]));
    }
    let n = lemma_batch_moves(t, files);
    assert(t.tx.sent_files + file_names(files) =~= file_names(files));
    s.lemma_after_after(2, n);
    let e = s.after(2 + n);
}

} // verus!
