//! A sender and a receiver joined by a line that loses nothing, with files that can be read and
//! written: what a transfer as a whole does.

use vstd::prelude::*;

use crate::io::{LoadedState, ReplyState, RequestState, TargetState};
use crate::packet::{padded, ACK, CRC_REQ, EOT, NAK, SUB};
use crate::progress::{OutcomeState, ProgressState};
use crate::protocol::Protocol;
use crate::receiver::{framed_is_intact, lemma_nothing_waited, packet_is_taken_whole};
use crate::receiver::{without_subs, ReceiverState, RecvPhase, WaitState};
use crate::sender::{SendPhase, SenderState, Stage};
use crate::text::comma_joined;

verus! {

/// A file that the receiver has created.
pub struct Kept {
    pub path: Seq<char>,
    pub data: Seq<u8>,
}

/// Both sides, the line between them, and their files.
#[verifier::ext_equal]
pub struct Session {
    pub tx: SenderState,
    pub rx: ReceiverState,
    /// What is on its way to the receiver, and to the sender.
    pub to_rx: Seq<u8>,
    pub to_tx: Seq<u8>,
    /// The files that can be read, by their paths.
    pub source: Map<Seq<char>, LoadedState>,
    /// The path of the destination directory, with its separator.
    pub prefix: Seq<char>,
    /// The paths at which there are files on the receiver's side.
    pub taken: Set<Seq<char>>,
    /// The files created there so far; the last one is written to.
    pub kept: Seq<Kept>,
    pub now: nat,
}

impl Session {
    /// The path of a file on the receiver's side.
    pub open spec fn path_of(self, t: TargetState) -> Seq<char> {
        match t {
            TargetState::Dest => self.rx.dest,
            TargetState::Within(name) => self.prefix + name,
            TargetState::At(path) => path,
        }
    }

    /// The receiver's file work `q` is done.
    pub open spec fn served(self, q: RequestState) -> Session {
        match q {
            RequestState::Probe(t) => {
                let path = self.path_of(t);
                let (r, out) = self.rx.resumed(
                    ReplyState::Probed { exists: self.taken.contains(path), shown: path },
                    self.now,
                );
                Session { rx: r, to_tx: self.to_tx + out, ..self }
            },
            RequestState::Create(t) => {
                let path = self.path_of(t);
                let (r, out) = self.rx.resumed(ReplyState::Created(Ok(())), self.now);
                Session {
                    rx: r,
                    to_tx: self.to_tx + out,
                    taken: self.taken.insert(path),
                    kept: self.kept.push(Kept { path, data: Seq::empty() }),
                    ..self
                }
            },
            RequestState::Write(bytes) => {
                let (r, out) = self.rx.resumed(ReplyState::Written(Ok(())), self.now);
                let last = self.kept.last();
                Session {
                    rx: r,
                    to_tx: self.to_tx + out,
                    kept: self.kept.drop_last().push(Kept { data: last.data + bytes, ..last }),
                    ..self
                }
            },
            RequestState::Load(_) => self,
        }
    }

    /// The next thing that happens: file work is done, else what is on the line arrives.
    pub open spec fn step(self) -> Session {
        if self.tx.outcome is Running && self.tx.loading is Some {
            let (t, out) = self.tx.resumed(
                ReplyState::Loaded(Ok(self.source[self.tx.loading->0])),
                self.now,
            );
            Session { tx: t, to_rx: self.to_rx + out, ..self }
        } else if self.rx.outcome is Running && self.rx.request() is Some {
            self.served(self.rx.request()->0)
        } else if self.to_rx.len() > 0 {
            let (r, out) = self.rx.fed(self.to_rx, self.now);
            Session { rx: r, to_rx: Seq::empty(), to_tx: self.to_tx + out, ..self }
        } else if self.to_tx.len() > 0 {
            let (t, out) = self.tx.fed(self.to_tx, self.now);
            Session { tx: t, to_tx: Seq::empty(), to_rx: self.to_rx + out, ..self }
        } else {
            self
        }
    }

    /// The session after `n` steps.
    pub open spec fn after(self, n: nat) -> Session
        decreases n,
    {
        if n == 0 {
            self
        } else {
            self.step().after((n - 1) as nat)
        }
    }

    pub proof fn lemma_after_after(self, m: nat, n: nat)
        ensures
            self.after(m).after(n) == self.after(m + n),
        decreases m,
    {
        if m > 0 {
            self.step().lemma_after_after((m - 1) as nat, n);
        }
    }
}

pub(crate) proof fn lemma_two_steps(s: Session)
    ensures
        s.after(2) == s.step().step(),
{
    reveal_with_fuel(Session::after, 4);
}

pub(crate) proof fn lemma_three_steps(s: Session)
    ensures
        s.after(3) == s.step().step().step(),
{
    reveal_with_fuel(Session::after, 5);
}

proof fn lemma_four_steps(s: Session)
    ensures
        s.after(4) == s.step().step().step().step(),
{
    reveal_with_fuel(Session::after, 6);
}

// ---------------------------------------------------------------- blocks of one file

/// Where the last block starts when `len` bytes are sent in blocks from `pos` on.
pub open spec fn last_start(len: nat, pos: nat, long: bool) -> nat
    decreases len - pos,
{
    let size: nat = if long && len - pos > 128 {
        1024
    } else {
        128
    };
    if pos + size >= len {
        pos
    } else {
        last_start(len, pos + size, long)
    }
}

/// What XMODEM keeps of a file: all of it but the SUB bytes at the end of its last block, which
/// cannot be told from fillers.
pub open spec fn xmodem_kept(data: Seq<u8>, long: bool) -> Seq<u8> {
    let n = last_start(data.len(), 0, long) as int;
    data.take(n) + without_subs(data.skip(n))
}

impl Session {
    /// Both sides run, wait for no file and have nothing pending.
    pub open spec fn ready(self) -> bool {
        &&& self.tx.outcome is Running
        &&& self.tx.loading is None
        &&& self.tx.backlog.len() == 0
        &&& self.tx.wf()
        &&& self.tx.data.len() <= u64::MAX
        &&& self.rx.outcome is Running
        &&& self.rx.wait is Idle
        &&& self.rx.backlog.len() == 0
        &&& self.rx.buf.len() == 0
        &&& self.rx.wf()
        &&& self.rx.protocol == self.tx.protocol
        &&& self.to_tx.len() == 0
    }

    /// Both sides are at the data of a file, in the same mode.
    pub open spec fn in_data(self) -> bool {
        &&& self.ready()
        &&& self.rx.phase == RecvPhase::Data
        &&& self.rx.crc == self.tx.crc
    }

    /// Whether long blocks are in use.
    pub open spec fn long(self) -> bool {
        self.tx.crc && self.tx.protocol != Protocol::Xmodem
    }

    /// The receiver has the file at `path` open behind the files of `base`, and has stored these
    /// bytes and held back those.
    pub open spec fn has_stored(
        self,
        base: Seq<Kept>,
        path: Seq<char>,
        stored: Seq<u8>,
        held: Seq<u8>,
    ) -> bool {
        &&& self.rx.file_open
        &&& self.rx.path == Some(path)
        &&& self.rx.held == held
        &&& self.kept == base.push(Kept { path, data: stored })
    }

    /// The receiver has not created the XMODEM file at `path` yet.
    pub open spec fn untouched(self, base: Seq<Kept>, path: Seq<char>) -> bool {
        &&& !self.rx.file_open
        &&& self.rx.path is None
        &&& self.rx.held.len() == 0
        &&& self.rx.dest == path
        &&& self.kept == base
    }

    /// The receiver has the file as far as the sender's position, and can still take the rest.
    pub open spec fn has_so_far(self, base: Seq<Kept>, path: Seq<char>) -> bool {
        let pos = self.tx.pos as int;
        if self.tx.protocol == Protocol::Ymodem {
            &&& self.has_stored(base, path, self.tx.data.take(pos), self.rx.held)
            &&& self.rx.size == Some(self.tx.data.len() as u64)
            &&& self.rx.progress.bytes == pos
        } else if pos == 0 {
            self.untouched(base, path)
        } else {
            let start = pos - self.rx.held.len();
            &&& start >= 0
            &&& self.has_stored(
                base,
                path,
                self.tx.data.take(start),
                self.tx.data.subrange(start, pos),
            )
            &&& last_start(self.tx.data.len(), self.tx.pos, self.long()) == last_start(
                self.tx.data.len(),
                0,
                self.long(),
            )
        }
    }

    /// The receiver has the whole file, its last XMODEM block held back with its fillers.
    pub open spec fn has_all(self, base: Seq<Kept>, path: Seq<char>) -> bool {
        let data = self.tx.data;
        if self.tx.protocol == Protocol::Ymodem {
            self.has_stored(base, path, data, self.rx.held)
        } else if data.len() == 0 {
            self.untouched(base, path)
        } else {
            let n = last_start(data.len(), 0, self.long());
            &&& n <= data.len()
            &&& self.has_stored(base, path, data.take(n as int), self.rx.held)
            &&& exists|size: nat|
                size >= data.len() - n && self.rx.held == #[trigger] padded(
                    data.skip(n as int),
                    size,
                    SUB,
                )
        }
    }

    /// A data block is on its way.
    pub open spec fn moving(self, base: Seq<Kept>, path: Seq<char>) -> bool {
        &&& self.in_data()
        &&& self.tx.phase == SendPhase::WaitAck(Stage::Data)
        &&& self.tx.pos < self.tx.data.len()
        &&& self.tx.last == self.tx.packet(Stage::Data)
        &&& self.tx.last_len == self.tx.block().len()
        &&& self.to_rx == self.tx.last
        &&& self.rx.expect == self.tx.blk
        &&& self.has_so_far(base, path)
    }

    /// The end of the file is on its way.
    pub open spec fn ending(self, base: Seq<Kept>, path: Seq<char>) -> bool {
        &&& self.in_data()
        &&& self.tx.phase == SendPhase::WaitAck(Stage::Eot)
        &&& self.to_rx == seq![EOT]
        &&& self.has_all(base, path)
    }

    /// What the data of one file leaves as it is.
    pub open spec fn same_file(self, t: Session) -> bool {
        &&& t.tx.protocol == self.tx.protocol
        &&& t.tx.files == self.tx.files
        &&& t.tx.data == self.tx.data
        &&& t.tx.crc == self.tx.crc
        &&& t.tx.sent_files == self.tx.sent_files
        &&& t.tx.progress.file == self.tx.progress.file
        &&& t.rx.dest == self.rx.dest
        &&& t.rx.saved == self.rx.saved
        &&& t.source == self.source
        &&& t.prefix == self.prefix
        &&& self.tx.protocol == Protocol::Ymodem ==> t.taken == self.taken
        &&& t.now == self.now
    }

    /// Neither side has completed a file or met an error since.
    pub open spec fn same_counts(self, t: Session) -> bool {
        &&& t.tx.progress.files_done == self.tx.progress.files_done
        &&& t.tx.progress.errors == self.tx.progress.errors
        &&& t.rx.progress.files_done == self.rx.progress.files_done
        &&& t.rx.progress.errors == self.rx.progress.errors
    }

    /// Each side has completed `n` files since, and met no error.
    pub open spec fn counted(self, t: Session, n: nat) -> bool {
        &&& t.tx.progress.files_done == self.tx.progress.files_done + n
        &&& t.tx.progress.errors == self.tx.progress.errors
        &&& t.rx.progress.files_done == self.rx.progress.files_done + n
        &&& t.rx.progress.errors == self.rx.progress.errors
    }
}

pub(crate) proof fn lemma_padded_len(s: Seq<u8>, size: nat, fill: u8)
    ensures
        padded(s, size, fill).len() == size,
{
}

/// The receiver takes a block that is on its way, and waits for its file work.
proof fn lemma_block_arrives(s: Session, base: Seq<Kept>, path: Seq<char>) -> (t: Session)
    requires
        s.moving(base, path),
    ensures
        t == s.step(),
        ({
            let body = padded(s.tx.block(), s.tx.block_size(), SUB);
            let r = ReceiverState {
                cans: 0,
                started: true,
                deadline: s.now + crate::io::ACK_TIMEOUT as nat,
                ..s.rx
            };
            t == Session { rx: r.storing(body), to_rx: Seq::empty(), ..s }
        }),
{
    let body = padded(s.tx.block(), s.tx.block_size(), SUB);
    let p = s.to_rx;
    lemma_padded_len(s.tx.block(), s.tx.block_size(), SUB);
    framed_is_intact(s.tx.blk, body, s.tx.crc);
    packet_is_taken_whole(s.rx, p, s.now);
    let t = s.step();
    assert(s.to_tx =~= Seq::empty());
    let r = ReceiverState {
        cans: 0,
        started: true,
        deadline: s.now + crate::io::ACK_TIMEOUT as nat,
        ..s.rx
    };
    assert(s.rx.fed(p, s.now) == (r.storing(body), Seq::<u8>::empty()));
    assert(t =~= Session { rx: r.storing(body), to_rx: Seq::empty(), ..s });
    t
}

/// A sender that gets one ACK goes on.
pub(crate) proof fn lemma_ack_arrives(t: SenderState, stage: Stage, now: nat)
    requires
        t.outcome is Running,
        t.loading is None,
        t.phase == SendPhase::WaitAck(stage),
    ensures
        t.fed(seq![ACK], now) == (SenderState { cans: 0, errors: 0, ..t }).acked(stage, now),
{
    let (u, out) = t.took(ACK, now);
    assert(seq![ACK].skip(1) =~= Seq::<u8>::empty());
    assert(u.fed(seq![ACK].skip(1), now) == (u, Seq::<u8>::empty()));
    assert(out + Seq::<u8>::empty() =~= out);
}

/// The XMODEM destination is created for a first block.
proof fn lemma_created(s: Session, body: Seq<u8>)
    requires
        s.tx.loading is None,
        s.rx.outcome is Running,
        s.rx.wait == WaitState::CreateForBlock(body),
        s.rx.backlog.len() == 0,
    ensures
        s.step() == (Session {
            rx: s.rx.waiting(WaitState::Idle).opened_dest().holding(body),
            taken: s.taken.insert(s.rx.dest),
            kept: s.kept.push(Kept { path: s.rx.dest, data: Seq::empty() }),
            ..s
        }),
{
    lemma_nothing_waited(s.rx, ReplyState::Created(Ok(())), s.now);
    assert(s.to_tx + Seq::<u8>::empty() =~= s.to_tx);
}

/// What a block brings is written and acknowledged.
proof fn lemma_written(s: Session, bytes: Seq<u8>, count: nat)
    requires
        s.tx.loading is None,
        s.rx.outcome is Running,
        s.rx.wait == (WaitState::WriteBlock { bytes, count }),
        s.rx.backlog.len() == 0,
        s.to_tx.len() == 0,
    ensures
        s.step() == (Session {
            rx: s.rx.waiting(WaitState::Idle).stored(count),
            to_tx: seq![ACK],
            kept: s.kept.drop_last().push(
                Kept { data: s.kept.last().data + bytes, ..s.kept.last() },
            ),
            ..s
        }),
{
    lemma_nothing_waited(s.rx, ReplyState::Written(Ok(())), s.now);
    assert(s.to_tx + seq![ACK] =~= seq![ACK]);
}

/// The sender after its current block was acknowledged.
pub open spec fn advanced(t: SenderState) -> SenderState {
    SenderState {
        cans: 0,
        errors: 0,
        pos: t.pos + t.last_len,
        blk: ((t.blk + 1) % 256) as u8,
        progress: ProgressState { bytes: t.pos + t.last_len, ..t.progress },
        ..t
    }
}

/// The sender learns that its block was stored, and goes on.
proof fn lemma_goes_on(s: Session)
    requires
        s.tx.outcome is Running,
        s.tx.loading is None,
        s.tx.phase == SendPhase::WaitAck(Stage::Data),
        s.rx.wait is Idle,
        s.to_rx.len() == 0,
        s.to_tx == seq![ACK],
    ensures
        s.step() == (Session {
            tx: advanced(s.tx).sent(Stage::Data, s.now),
            to_tx: Seq::empty(),
            to_rx: advanced(s.tx).sent(Stage::Data, s.now).last,
            ..s
        }),
{
    lemma_ack_arrives(s.tx, Stage::Data, s.now);
    let t = advanced(s.tx).sent(Stage::Data, s.now);
    assert(s.to_rx + t.last =~= t.last);
    assert((SenderState { cans: 0, errors: 0, ..s.tx }).acked(Stage::Data, s.now) == (t, t.last));
}

/// The session after the block on its way was stored and acknowledged.
pub open spec fn block_moved(s: Session) -> Session {
    let body = padded(s.tx.block(), s.tx.block_size(), SUB);
    let ymodem = s.tx.protocol == Protocol::Ymodem;
    let first = !ymodem && s.tx.pos == 0;
    let r = ReceiverState {
        cans: 0,
        started: true,
        deadline: s.now + crate::io::ACK_TIMEOUT as nat,
        held: if ymodem {
            s.rx.held
        } else {
            body
        },
        ..(if first {
            s.rx.opened_dest()
        } else {
            s.rx
        })
    };
    let kept = if first {
        s.kept.push(Kept { path: s.rx.dest, data: Seq::empty() })
    } else {
        s.kept
    };
    let t = advanced(s.tx).sent(Stage::Data, s.now);
    Session {
        tx: t,
        rx: r.stored(
            if ymodem {
                s.tx.block().len()
            } else {
                body.len()
            },
        ),
        to_rx: t.last,
        to_tx: Seq::empty(),
        taken: if first {
            s.taken.insert(s.rx.dest)
        } else {
            s.taken
        },
        kept: kept.drop_last().push(
            Kept {
                data: kept.last().data + (if ymodem {
                    s.tx.block()
                } else {
                    s.rx.held
                }),
                ..kept.last()
            },
        ),
        ..s
    }
}

/// The session after the block on its way was stored, while its acknowledgement is on its way.
pub open spec fn block_stored(s: Session) -> Session {
    Session { tx: s.tx, to_rx: Seq::empty(), to_tx: seq![ACK], ..block_moved(s) }
}

/// A YMODEM block that is on its way is stored and acknowledged.
#[verifier::spinoff_prover]
proof fn lemma_ymodem_block_moves(s: Session, base: Seq<Kept>, path: Seq<char>)
    requires
        s.moving(base, path),
        s.tx.protocol == Protocol::Ymodem,
    ensures
        s.after(2) == block_stored(s),
        s.after(3) == block_moved(s),
{
    let body = padded(s.tx.block(), s.tx.block_size(), SUB);
    lemma_padded_len(s.tx.block(), s.tx.block_size(), SUB);
    let a = lemma_block_arrives(s, base, path);
    let len = s.tx.block().len();
    assert(s.rx.wanted(body.len()) == len);
    assert(body.take(len as int) =~= s.tx.block());
    lemma_written(a, s.tx.block(), len);
    let c = a.step();
    lemma_goes_on(c);
    assert(c.step() =~= block_moved(s));
    assert(c =~= block_stored(s));
    lemma_two_steps(s);
    lemma_three_steps(s);
}

/// The first block of an XMODEM file is stored and acknowledged.
#[verifier::spinoff_prover]
proof fn lemma_first_block_moves(s: Session, base: Seq<Kept>, path: Seq<char>)
    requires
        s.moving(base, path),
        s.tx.protocol != Protocol::Ymodem,
        s.tx.pos == 0,
    ensures
        s.after(3) == block_stored(s),
        s.after(4) == block_moved(s),
{
    let body = padded(s.tx.block(), s.tx.block_size(), SUB);
    lemma_padded_len(s.tx.block(), s.tx.block_size(), SUB);
    let a = lemma_block_arrives(s, base, path);
    lemma_created(a, body);
    let b = a.step();
    lemma_written(b, s.rx.held, body.len());
    let c = b.step();
    lemma_goes_on(c);
    assert(c.step() =~= block_moved(s));
    assert(c =~= block_stored(s));
    lemma_three_steps(s);
    lemma_four_steps(s);
}

/// A later block of an XMODEM file is stored and acknowledged.
#[verifier::spinoff_prover]
proof fn lemma_later_block_moves(s: Session, base: Seq<Kept>, path: Seq<char>)
    requires
        s.moving(base, path),
        s.tx.protocol != Protocol::Ymodem,
        s.tx.pos > 0,
    ensures
        s.after(2) == block_stored(s),
        s.after(3) == block_moved(s),
{
    let body = padded(s.tx.block(), s.tx.block_size(), SUB);
    lemma_padded_len(s.tx.block(), s.tx.block_size(), SUB);
    let a = lemma_block_arrives(s, base, path);
    lemma_written(a, s.rx.held, body.len());
    let c = a.step();
    lemma_goes_on(c);
    assert(c.step() =~= block_moved(s));
    assert(c =~= block_stored(s));
    lemma_two_steps(s);
    lemma_three_steps(s);
}

/// A block that is on its way is stored and acknowledged.
pub(crate) proof fn lemma_block_moves(s: Session, base: Seq<Kept>, path: Seq<char>) -> (n: nat)
    requires
        s.moving(base, path),
    ensures
        n > 0,
        s.after((n - 1) as nat) == block_stored(s),
        s.after(n) == block_moved(s),
{
    if s.tx.protocol == Protocol::Ymodem {
        lemma_ymodem_block_moves(s, base, path);
        3
    } else if s.tx.pos == 0 {
        lemma_first_block_moves(s, base, path);
        4
    } else {
        lemma_later_block_moves(s, base, path);
        3
    }
}

/// When a block has moved, the next one, or the end of the file, is on its way.
pub(crate) proof fn lemma_next_is_on_its_way(s: Session, base: Seq<Kept>, path: Seq<char>)
    requires
        s.moving(base, path),
    ensures
        s.same_file(block_moved(s)),
        s.same_counts(block_moved(s)),
        block_moved(s).moving(base, path) && block_moved(s).tx.pos > s.tx.pos || block_moved(
            s,
        ).ending(base, path),
{
    let d = block_moved(s);
    let body = padded(s.tx.block(), s.tx.block_size(), SUB);
    lemma_padded_len(s.tx.block(), s.tx.block_size(), SUB);
    let data = s.tx.data;
    let pos = s.tx.pos as int;
    let len = s.tx.block().len() as int;
    let e = pos + len;
    assert(d.tx.pos == e);
    assert(d.tx.wf());
    assert(d.rx.wf());
    assert(d.in_data());
    if s.tx.protocol == Protocol::Ymodem {
        assert(data.take(pos) + s.tx.block() =~= data.take(e));
        assert(d.kept =~= base.push(Kept { path, data: data.take(e) }));
        if e >= data.len() {
            assert(data.take(e) =~= data);
        }
    } else {
        if s.tx.pos == 0 {
            assert(Seq::<u8>::empty() + s.rx.held =~= data.take(0));
            assert(d.kept =~= base.push(Kept { path, data: data.take(pos) }));
        } else {
            let start = pos - s.rx.held.len();
            assert(data.take(start) + data.subrange(start, pos) =~= data.take(pos));
            assert(d.kept =~= base.push(Kept { path, data: data.take(pos) }));
        }
        assert(last_start(data.len(), s.tx.pos, s.long()) == last_start(data.len(), 0, s.long()));
        if e < data.len() {
            assert(len == s.tx.block_size());
            assert(body =~= s.tx.block());
            assert(data.subrange(pos, e) =~= body);
        } else {
            assert(data.skip(pos) =~= s.tx.block());
            assert(last_start(data.len(), 0, s.long()) == pos);
            assert(d.rx.held == padded(data.skip(pos), s.tx.block_size(), SUB));
        }
    }
    if e < data.len() {
        assert(d.moving(base, path));
    } else {
        assert(d.to_rx =~= seq![EOT]);
        if s.tx.protocol == Protocol::Ymodem {
            assert(d.has_all(base, path));
        } else {
            let n = last_start(data.len(), 0, d.long());
            assert(n == pos);
            assert(d.has_stored(base, path, data.take(n as int), d.rx.held));
            let size = s.tx.block_size();
            assert(size >= data.len() - n && d.rx.held == padded(data.skip(n as int), size, SUB));
            assert(d.has_all(base, path));
        }
        assert(d.ending(base, path));
    }
}

/// Once a block is on its way, the whole file gets over, up to the end that is then on its way.
pub(crate) proof fn lemma_blocks_move(s: Session, base: Seq<Kept>, path: Seq<char>) -> (n: nat)
    requires
        s.moving(base, path),
    ensures
        s.same_file(s.after(n)),
        s.same_counts(s.after(n)),
        s.after(n).ending(base, path),
    decreases s.tx.data.len() - s.tx.pos,
{
    let m = lemma_block_moves(s, base, path);
    lemma_next_is_on_its_way(s, base, path);
    let d = block_moved(s);
    if d.ending(base, path) {
        m
    } else {
        let k = lemma_blocks_move(d, base, path);
        s.lemma_after_after(m, k);
        m + k
    }
}

// ---------------------------------------------------------------- XMODEM

proof fn lemma_fillers_go(x: Seq<u8>, size: nat)
    requires
        size >= x.len(),
    ensures
        without_subs(padded(x, size, SUB)) == without_subs(x),
    decreases size - x.len(),
{
    let p = padded(x, size, SUB);
    if size == x.len() {
        assert(p =~= x);
    } else {
        assert(p.last() == SUB);
        assert(p.drop_last() =~= padded(x, (size - 1) as nat, SUB));
        lemma_fillers_go(x, (size - 1) as nat);
    }
}

/// The end of a file arrives.
pub(crate) proof fn lemma_eot_arrives(s: Session)
    requires
        s.ready(),
        s.to_rx == seq![EOT],
    ensures
        s.step() == (Session {
            rx: (ReceiverState { cans: 0, ..s.rx }).got_eot(s.now).0,
            to_rx: Seq::empty(),
            to_tx: (ReceiverState { cans: 0, ..s.rx }).got_eot(s.now).1,
            ..s
        }),
{
    let (q, out) = (ReceiverState { cans: 0, ..s.rx }).got_eot(s.now);
    assert(s.to_rx.skip(1) =~= Seq::empty());
    assert(s.rx.took(EOT, s.now) == (q, out));
    assert(q.fed(s.to_rx.skip(1), s.now) == (q, Seq::<u8>::empty()));
    assert(out + Seq::<u8>::empty() =~= out);
    assert(s.rx.fed(s.to_rx, s.now) == (q, out));
    assert(s.to_tx + out =~= out);
}

/// The XMODEM destination is created for a file without data.
proof fn lemma_created_empty(s: Session)
    requires
        s.tx.loading is None,
        s.rx.outcome is Running,
        s.rx.wait == WaitState::CreateForEot,
        s.rx.backlog.len() == 0,
    ensures
        s.step() == (Session {
            rx: s.rx.waiting(WaitState::Idle).opened_dest().ending(),
            taken: s.taken.insert(s.rx.dest),
            kept: s.kept.push(Kept { path: s.rx.dest, data: Seq::empty() }),
            ..s
        }),
{
    lemma_nothing_waited(s.rx, ReplyState::Created(Ok(())), s.now);
    assert(s.to_tx + Seq::<u8>::empty() =~= s.to_tx);
}

/// The last bytes of an XMODEM file are written, and its end is acknowledged.
proof fn lemma_last_written(s: Session, bytes: Seq<u8>)
    requires
        s.tx.loading is None,
        s.rx.outcome is Running,
        s.rx.wait == WaitState::WriteEot(bytes),
        s.rx.backlog.len() == 0,
        s.rx.protocol != Protocol::Ymodem,
        s.to_tx.len() == 0,
    ensures
        s.step() == (Session {
            rx: s.rx.waiting(WaitState::Idle).finished(s.now).0,
            to_tx: seq![ACK],
            kept: s.kept.drop_last().push(
                Kept { data: s.kept.last().data + bytes, ..s.kept.last() },
            ),
            ..s
        }),
{
    lemma_nothing_waited(s.rx, ReplyState::Written(Ok(())), s.now);
    assert(s.to_tx + seq![ACK] =~= seq![ACK]);
}

/// The XMODEM sender learns that the file is complete.
proof fn lemma_sender_done(s: Session)
    requires
        s.tx.outcome is Running,
        s.tx.loading is None,
        s.tx.phase == SendPhase::WaitAck(Stage::Eot),
        s.tx.protocol != Protocol::Ymodem,
        !(s.rx.outcome is Running),
        s.to_rx.len() == 0,
        s.to_tx == seq![ACK],
    ensures
        s.step().tx.outcome == OutcomeState::Done(s.tx.progress.file + " を送信しました"@),
        s.step().tx.progress == s.tx.progress.closed(),
        s.step().rx == s.rx,
        s.step().kept == s.kept,
{
    lemma_ack_arrives(s.tx, Stage::Eot, s.now);
}

/// What is kept of an XMODEM file, once what was held back is written without its fillers.
proof fn lemma_kept_whole(s: Session, base: Seq<Kept>, path: Seq<char>)
    requires
        s.ending(base, path),
        s.tx.protocol != Protocol::Ymodem,
        s.tx.data.len() > 0,
    ensures
        s.tx.data.take(last_start(s.tx.data.len(), 0, s.long()) as int) + without_subs(s.rx.held)
            == xmodem_kept(s.tx.data, s.long()),
{
    let data = s.tx.data;
    let n = last_start(data.len(), 0, s.long()) as int;
    let size = choose|size: nat|
        size >= data.len() - n && s.rx.held == #[trigger] padded(data.skip(n), size, SUB);
    lemma_fillers_go(data.skip(n), size);
}

/// The end of an XMODEM file is handled: the rest of it is written, and both sides are done.
pub(crate) proof fn lemma_xmodem_ends(s: Session, base: Seq<Kept>, path: Seq<char>) -> (n: nat)
    requires
        s.ending(base, path),
        s.tx.protocol != Protocol::Ymodem,
    ensures
        s.after(n).tx.outcome == OutcomeState::Done(s.tx.progress.file + " を送信しました"@),
        s.after(n).rx.outcome == OutcomeState::Done(
            comma_joined(s.rx.saved.push(path)) + " を受信しました"@,
        ),
        s.after(n).kept == base.push(Kept { path, data: xmodem_kept(s.tx.data, s.long()) }),
        s.counted(s.after(n), 1),
{
    let data = s.tx.data;
    let w = without_subs(s.rx.held);
    lemma_eot_arrives(s);
    let a = s.step();
    if data.len() == 0 {
        lemma_created_empty(a);
        let b = a.step();
        lemma_last_written(b, w);
        let c = b.step();
        lemma_sender_done(c);
        assert(w =~= data.skip(0));
        assert(Seq::<u8>::empty() + w =~= xmodem_kept(data, s.long()));
        assert(c.kept =~= base.push(Kept { path, data: xmodem_kept(data, s.long()) }));
        lemma_four_steps(s);
        4
    } else {
        lemma_last_written(a, w);
        let c = a.step();
        lemma_sender_done(c);
        lemma_kept_whole(s, base, path);
        assert(c.kept =~= base.push(Kept { path, data: xmodem_kept(data, s.long()) }));
        lemma_three_steps(s);
        3
    }
}

/// A file that does not end in SUB is kept as it is.
proof fn lemma_nothing_cut(data: Seq<u8>, pos: nat, long: bool)
    requires
        pos < data.len() || data.len() == 0 && pos == 0,
    ensures
        last_start(data.len(), pos, long) < data.len() || data.len() == 0 && last_start(
            data.len(),
            pos,
            long,
        ) == 0,
    decreases data.len() - pos,
{
    let size: nat = if long && data.len() - pos > 128 {
        1024
    } else {
        128
    };
    if pos + size < data.len() {
        lemma_nothing_cut(data, pos + size, long);
    }
}

/// XMODEM keeps a file as it is where its last byte is not SUB.
pub proof fn xmodem_keeps_other_endings(data: Seq<u8>, long: bool)
    requires
        data.len() > 0 ==> data.last() != SUB,
    ensures
        xmodem_kept(data, long) == data,
{
    lemma_nothing_cut(data, 0, long);
    let n = last_start(data.len(), 0, long) as int;
    assert(data.skip(n).len() > 0 ==> data.skip(n).last() == data.last());
    assert(data.take(n) + data.skip(n) =~= data);
}

impl Session {
    /// One XMODEM file is about to be sent to a receiver that has sent its start signal, in
    /// either mode, and received nothing yet.
    pub open spec fn xmodem_start(self, path: Seq<char>) -> bool {
        &&& self.tx.protocol != Protocol::Ymodem
        &&& exists|t: nat|
            self.tx == #[trigger] SenderState::start(self.tx.protocol, seq![path], t)
        &&& self.source.contains_key(path)
        &&& self.source[path].data.len() <= u64::MAX
        &&& self.rx.outcome is Running
        &&& self.rx.wf()
        &&& self.rx.protocol == self.tx.protocol
        &&& self.rx.phase == RecvPhase::Data
        &&& self.rx.expect == 1
        &&& self.rx.wait is Idle
        &&& self.rx.buf.len() == 0
        &&& self.rx.backlog.len() == 0
        &&& self.rx.path is None
        &&& self.rx.held.len() == 0
        &&& !self.rx.file_open
        &&& self.to_rx.len() == 0
        &&& self.to_tx == seq![
            if self.rx.crc {
                CRC_REQ
            } else {
                NAK
            },
        ]
    }
}

/// A sender of one file and a receiver that have just been made, with the receiver's start
/// signal on its way, are at the start of an XMODEM transfer.
pub proof fn new_sides_start_xmodem(s: Session, path: Seq<char>, name: Seq<char>, t: nat, u: nat)
    requires
        s.tx.protocol != Protocol::Ymodem,
        s.tx == SenderState::start(s.tx.protocol, seq![path], t),
        s.rx == ReceiverState::start(s.tx.protocol, s.rx.dest, name, u),
        s.to_rx == Seq::<u8>::empty(),
        s.to_tx == seq![CRC_REQ],
        s.source.contains_key(path),
        s.source[path].data.len() <= u64::MAX,
    ensures
        s.xmodem_start(path),
{
}

/// The file is read, and the start signal brings its first block, or its end, on its way.
#[verifier::spinoff_prover]
proof fn lemma_xmodem_starts(s: Session, path: Seq<char>)
    requires
        s.xmodem_start(path),
    ensures
        ({
            let t = s.tx.loaded(Ok(s.source[path]), s.now).0;
            let u = (SenderState { cans: 0, crc: s.rx.crc, ..t }).sent(Stage::Data, s.now);
            s.after(2) == Session { tx: u, to_tx: Seq::empty(), to_rx: u.last, ..s }
        }),
{
    let file = s.source[path];
    // The file is read.
    let a = s.step();
    let t = s.tx.loaded(Ok(file), s.now).0;
    assert(s.tx.backlog =~= Seq::<u8>::empty());
    assert(t =~= (SenderState { backlog: Seq::empty(), ..t }));
    assert(t.fed(Seq::empty(), s.now) == (t, Seq::<u8>::empty()));
    assert(a =~= Session { tx: t, ..s });
    // The start signal arrives.
    let u = (SenderState { cans: 0, crc: s.rx.crc, ..t }).sent(Stage::Data, s.now);
    let signal = s.to_tx[0];
    assert(a.to_tx.skip(1) =~= Seq::empty());
    assert(t.took(signal, s.now) == (u, u.last));
    assert(u.fed(a.to_tx.skip(1), s.now) == (u, Seq::<u8>::empty()));
    assert(u.last + Seq::<u8>::empty() =~= u.last);
    assert(t.fed(a.to_tx, s.now) == (u, u.last));
    assert(a.to_rx + u.last =~= u.last);
    lemma_two_steps(s);
}

/// After that, the file is under way.
#[verifier::spinoff_prover]
proof fn lemma_xmodem_under_way(s: Session, path: Seq<char>)
    requires
        s.xmodem_start(path),
    ensures
        s.source[path].data.len() > 0 ==> s.after(2).moving(s.kept, s.rx.dest),
        s.source[path].data.len() == 0 ==> s.after(2).ending(s.kept, s.rx.dest),
        s.after(2).tx.data == s.source[path].data,
        s.after(2).tx.progress.file == s.source[path].name,
        s.after(2).tx.crc == s.rx.crc,
        s.after(2).tx.protocol == s.tx.protocol,
        s.after(2).rx == s.rx,
        s.same_counts(s.after(2)),
{
    lemma_xmodem_starts(s, path);
    let b = s.after(2);
    if s.source[path].data.len() == 0 {
        assert(b.to_rx =~= seq![EOT]);
    }
}

/// An XMODEM or XMODEM-1K transfer over a line that loses nothing ends well on both sides, and
/// the receiver keeps the file at its destination: all of it but SUB bytes at the end of the
/// last block, hence the very file where its last byte is not SUB. Each side counts one file and
/// no error.
pub proof fn xmodem_moves_file(s: Session, path: Seq<char>)
    requires
        s.xmodem_start(path),
    ensures
        exists|n: nat|
            {
                let e = #[trigger] s.after(n);
                let file = s.source[path];
                let long = s.rx.crc && s.tx.protocol != Protocol::Xmodem;
                &&& e.tx.outcome == OutcomeState::Done(file.name + " を送信しました"@)
                &&& e.rx.outcome == OutcomeState::Done(
                    comma_joined(s.rx.saved.push(s.rx.dest)) + " を受信しました"@,
                )
                &&& e.kept == s.kept.push(
                    Kept { path: s.rx.dest, data: xmodem_kept(file.data, long) },
                )
                &&& (file.data.len() > 0 ==> file.data.last() != SUB) ==> e.kept == s.kept.push(
                    Kept { path: s.rx.dest, data: file.data },
                )
                &&& s.counted(e, 1)
            },
{
    let file = s.source[path];
    let long = s.rx.crc && s.tx.protocol != Protocol::Xmodem;
    lemma_xmodem_under_way(s, path);
    let b = s.after(2);
    let m = if file.data.len() > 0 {
        lemma_blocks_move(b, s.kept, s.rx.dest)
    } else {
        0
    };
    let k = lemma_xmodem_ends(b.after(m), s.kept, s.rx.dest);
    b.lemma_after_after(m, k);
    s.lemma_after_after(2, m + k);
    assert(s.after(2 + (m + k)) == b.after(m).after(k));
    if file.data.len() > 0 ==> file.data.last() != SUB {
        xmodem_keeps_other_endings(file.data, long);
    }
}

} // verus!
