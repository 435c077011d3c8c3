//! What a sender makes of everything that the line can bring.

use vstd::prelude::*;

use crate::io::{LoadedState, ReplyState, RequestState};
use crate::listening::{inside, sound, whole_len};
use crate::packet::{framed, header_packet, header_text, padded, packet_layout};
use crate::progress::{OutcomeState, ProgressState};
use crate::protocol::Protocol;
use crate::sender::{SendPhase, SenderState, Stage};
use crate::text::comma_joined;

verus! {

/// A new sender runs, takes the first file first and keeps the others in order, waits a minute
/// for the receiver's signal to send block 0 with YMODEM and block 1 otherwise, and has nothing
/// done yet.
pub proof fn new_sender_reads_its_first_file(
    protocol: Protocol,
    files: Seq<Seq<char>>,
    now: nat,
)
    ensures
        ({
            let t = SenderState::start(protocol, files, now);
            &&& t.outcome is Running
            &&& t.protocol == protocol
            &&& t.crc
            &&& files.len() > 0 ==> t.request() == Some(RequestState::Load(files[0]))
            &&& files.len() > 0 ==> t.files == files.subrange(1, files.len() as int)
            &&& files.len() == 0 ==> t.request() is None && t.files.len() == 0
            &&& t.phase == SendPhase::WaitStart(
                if protocol == Protocol::Ymodem {
                    Stage::Header
                } else {
                    Stage::Data
                },
            )
            &&& t.deadline == now + 60_000_000_000
            &&& t.blk == 1 && t.pos == 0 && t.errors == 0 && t.cans == 0
            &&& t.data.len() == 0 && t.backlog.len() == 0 && t.sent_files.len() == 0
            &&& t.progress.bytes == 0 && t.progress.files_done == 0 && t.progress.errors == 0
            &&& t.progress.total is None && t.progress.file.len() == 0
        }),
{
    if files.len() > 0 {
        assert(files.skip(1) =~= files.subrange(1, files.len() as int));
    }
}

// ---------------------------------------------------------------- blocks

/// How many bytes the body of the next block has: 1024 where CRCs are used, the protocol has long
/// blocks, and more than 128 bytes are left; else 128.
pub open spec fn body_len(t: SenderState) -> int {
    if t.crc && (t.protocol == Protocol::Xmodem1k || t.protocol == Protocol::Ymodem)
        && t.data.len() - t.pos >= 129 {
        1024
    } else {
        128
    }
}

/// How many bytes of the file the next block carries.
pub open spec fn carried(t: SenderState) -> int {
    let left = t.data.len() - t.pos;
    if left < body_len(t) {
        left
    } else {
        body_len(t)
    }
}

/// Whether `p` is the packet that carries the next bytes of the file: a sound one, under the
/// number of the block, with those bytes first and SUB bytes behind them.
pub open spec fn carries_next(t: SenderState, p: Seq<u8>) -> bool {
    let n = carried(t);
    &&& p[0] == if body_len(t) == 1024 {
        0x02u8
    } else {
        0x01u8
    }
    &&& p.len() == whole_len(p[0], t.crc)
    &&& p[1] == t.blk
    &&& sound(p, t.crc)
    &&& inside(p).len() == body_len(t)
    &&& inside(p).take(n) == t.data.subrange(t.pos as int, t.pos + n)
    &&& forall|i: int| n <= i < body_len(t) ==> #[trigger] inside(p)[i] == 0x1a
}

/// Whether the sender `u` is `t` after it has sent `stage`, waiting ten seconds for the answer:
/// the next block where data is left, else the end of the file; block 0, or the empty one.
pub open spec fn has_sent(
    t: SenderState,
    stage: Stage,
    u: SenderState,
    out: Seq<u8>,
    now: nat,
) -> bool {
    let data = stage == Stage::Data && t.pos < t.data.len();
    &&& u == SenderState {
        last: out,
        last_len: if data {
            carried(t) as nat
        } else {
            t.last_len
        },
        phase: SendPhase::WaitAck(
            if stage == Stage::Data && !data {
                Stage::Eot
            } else {
                stage
            },
        ),
        deadline: now + 10_000_000_000,
        ..t
    }
    &&& data ==> carries_next(t, out)
    &&& stage == Stage::Data && !data ==> out == seq![0x04u8]
    &&& stage == Stage::Eot ==> out == seq![0x04u8]
    &&& stage == Stage::Header ==> out == header_packet(
        header_text(vstd::utf8::encode_utf8(t.progress.file), t.data.len(), t.mtime as nat),
    )
    &&& stage == Stage::BatchEnd ==> out == header_packet(Seq::empty())
}

#[verifier::spinoff_prover]
proof fn lemma_carries(t: SenderState)
    requires
        t.pos < t.data.len(),
    ensures
        t.packet(Stage::Data).len() > 0,
        carries_next(t, t.packet(Stage::Data)),
        t.block().len() == carried(t),
{
    let n = carried(t);
    let size = body_len(t);
    assert(t.block_size() == size);
    assert(t.block() =~= t.data.subrange(t.pos as int, t.pos + n));
    let body = padded(t.block(), size as nat, 0x1a);
    let p = framed(t.blk, body, t.crc);
    packet_layout(t.blk, body, t.crc);
    crate::receiver::framed_is_intact(t.blk, body, t.crc);
    assert(p == t.packet(Stage::Data));
    crate::listening::lemma_sound(p, t.crc);
    assert(inside(p) =~= body);
    assert(body.take(n) =~= t.block());
}

proof fn lemma_has_sent(t: SenderState, stage: Stage, now: nat)
    ensures
        has_sent(t, stage, t.sent(stage, now), t.sent(stage, now).last, now),
{
    if stage == Stage::Data && t.pos < t.data.len() {
        lemma_carries(t);
    }
}

// ---------------------------------------------------------------- the start signal

/// The signal `C` has the packet that is due sent, with CRCs.
pub proof fn c_starts_with_crcs(t: SenderState, stage: Stage, now: nat)
    requires
        t.phase == SendPhase::WaitStart(stage),
    ensures
        has_sent(
            SenderState { crc: true, cans: 0, ..t },
            stage,
            t.took(0x43, now).0,
            t.took(0x43, now).1,
            now,
        ),
{
    lemma_has_sent(SenderState { crc: true, cans: 0, ..t }, stage, now);
}

/// A NAK in its place has the first block of an XMODEM file sent, with checksums; at any other
/// time a sender that waits for `C` ignores it.
pub proof fn nak_starts_with_checksums(t: SenderState, stage: Stage, now: nat)
    requires
        t.phase == SendPhase::WaitStart(stage),
    ensures
        stage == Stage::Data && t.protocol != Protocol::Ymodem && t.blk == 1 ==> has_sent(
            SenderState { crc: false, cans: 0, ..t },
            stage,
            t.took(0x15, now).0,
            t.took(0x15, now).1,
            now,
        ),
        !(stage == Stage::Data && t.protocol != Protocol::Ymodem && t.blk == 1) ==> t.took(
            0x15,
            now,
        ) == (SenderState { cans: 0, ..t }, Seq::<u8>::empty()),
{
    lemma_has_sent(SenderState { crc: false, cans: 0, ..t }, stage, now);
}

/// While a sender waits, whatever is no answer to it is ignored: before the start signal all but
/// `C`, NAK and CAN, and after a packet all but ACK, NAK and CAN. Only a CAN before it counts no
/// more.
pub proof fn sender_ignores_the_rest(t: SenderState, b: u8, now: nat)
    requires
        b != 0x15,
        b != 0x18,
        t.phase is WaitStart ==> b != 0x43,
        t.phase is WaitAck ==> b != 0x06,
    ensures
        t.took(b, now) == (SenderState { cans: 0, ..t }, Seq::<u8>::empty()),
{
}

/// The first CAN changes nothing but its count; the second in a row ends the sending, without an
/// answer.
pub proof fn second_can_ends_the_sending(t: SenderState, now: nat)
    ensures
        t.cans == 0 ==> t.took(0x18, now) == (SenderState { cans: 1, ..t }, Seq::<u8>::empty()),
        t.cans >= 1 ==> t.took(0x18, now) == (
            SenderState {
                cans: t.cans + 1,
                outcome: OutcomeState::Failed("相手が中止しました"@),
                ..t
            },
            Seq::<u8>::empty(),
        ),
{
}

/// Input is taken byte by byte, each one as what the bytes before it have led to makes of it; the
/// answers follow each other in the same order. Input after the end is dropped.
pub proof fn sender_takes_byte_by_byte(t: SenderState, b: u8, rest: Seq<u8>, now: nat)
    ensures
        t.fed(Seq::empty(), now) == (t, Seq::<u8>::empty()),
        !(t.outcome is Running) ==> t.fed(rest, now) == (t, Seq::<u8>::empty()),
        t.outcome is Running && t.request() is None ==> t.fed(seq![b], now) == t.took(b, now),
        t.outcome is Running && t.request() is None ==> t.fed(seq![b] + rest, now) == ({
            let (u, first) = t.took(b, now);
            let (v, second) = u.fed(rest, now);
            (v, first + second)
        }),
{
    assert((seq![b] + rest).skip(1) =~= rest);
    assert(seq![b].skip(1) =~= Seq::empty());
    let (u, first) = t.took(b, now);
    assert(u.fed(Seq::empty(), now) == (u, Seq::<u8>::empty()));
    assert(first + Seq::<u8>::empty() =~= first);
}

// ---------------------------------------------------------------- answers

/// An acknowledged block is done with: what it carried counts, and the next block follows under
/// the next number, or the end of the file.
pub proof fn ack_moves_on(t: SenderState, now: nat)
    requires
        t.phase == SendPhase::WaitAck(Stage::Data),
    ensures
        ({
            let u = SenderState {
                cans: 0,
                errors: 0,
                pos: t.pos + t.last_len,
                blk: if t.blk == 255 {
                    0
                } else {
                    (t.blk + 1) as u8
                },
                progress: ProgressState { bytes: t.pos + t.last_len, ..t.progress },
                ..t
            };
            has_sent(u, Stage::Data, t.took(0x06, now).0, t.took(0x06, now).1, now)
        }),
{
    let u = SenderState {
        cans: 0,
        errors: 0,
        pos: t.pos + t.last_len,
        blk: if t.blk == 255 {
            0
        } else {
            (t.blk + 1) as u8
        },
        progress: ProgressState { bytes: t.pos + t.last_len, ..t.progress },
        ..t
    };
    assert(u.blk == ((t.blk + 1) % 256) as u8);
    lemma_has_sent(u, Stage::Data, now);
}

/// After an acknowledged block 0 a sender waits a minute for the signal to send the file; after
/// the acknowledged end of a file that file counts and is remembered. With XMODEM that is the
/// end; with YMODEM the next file is read, or the signal to end the batch is waited for; when
/// that is acknowledged, too, the sending is done. Nothing is sent for any of these.
pub proof fn ack_ends_what_it_answers(t: SenderState, now: nat)
    ensures
        ({
            let (u, out) = t.took(0x06, now);
            let v = SenderState { cans: 0, errors: 0, ..t };
            let w = SenderState {
                progress: ProgressState { files_done: t.progress.files_done + 1, ..t.progress },
                sent_files: t.sent_files.push(t.progress.file),
                ..v
            };
            let minute = now + 60_000_000_000;
            &&& t.phase is WaitAck && t.phase != SendPhase::WaitAck(Stage::Data) ==> out.len()
                == 0
            &&& t.phase == SendPhase::WaitAck(Stage::Header) ==> u == SenderState {
                phase: SendPhase::WaitStart(Stage::Data),
                deadline: minute,
                ..v
            }
            &&& t.phase == SendPhase::WaitAck(Stage::Eot) && t.protocol != Protocol::Ymodem
                ==> u == SenderState {
                outcome: OutcomeState::Done(t.progress.file + " を送信しました"@),
                ..w
            }
            &&& t.phase == SendPhase::WaitAck(Stage::Eot) && t.protocol == Protocol::Ymodem
                && t.files.len() == 0 ==> u == SenderState {
                phase: SendPhase::WaitStart(Stage::BatchEnd),
                deadline: minute,
                ..w
            }
            &&& t.phase == SendPhase::WaitAck(Stage::Eot) && t.protocol == Protocol::Ymodem
                && t.files.len() > 0 ==> u == SenderState {
                loading: Some(t.files[0]),
                files: t.files.subrange(1, t.files.len() as int),
                ..w
            }
            &&& t.phase == SendPhase::WaitAck(Stage::BatchEnd) ==> u == SenderState {
                outcome: OutcomeState::Done(
                    comma_joined(t.sent_files) + " を送信しました"@,
                ),
                ..v
            }
        }),
{
    if t.files.len() > 0 {
        assert(t.files.skip(1) =~= t.files.subrange(1, t.files.len() as int));
    }
}

/// What a repetition leads to: the last packet again and nothing but counts, or, for the eleventh
/// time in a row, the end with this message, which the receiver is told by five CAN bytes.
pub open spec fn repeats(
    t: SenderState,
    msg: Seq<char>,
    got: (SenderState, Seq<u8>),
    now: nat,
) -> bool {
    let u = SenderState {
        errors: t.errors + 1,
        progress: ProgressState { errors: t.progress.errors + 1, ..t.progress },
        ..t
    };
    if t.errors < 10 {
        got == (SenderState { deadline: now + 10_000_000_000, ..u }, t.last)
    } else {
        got == (
            SenderState { outcome: OutcomeState::Failed(msg), ..u },
            seq![0x18u8, 0x18, 0x18, 0x18, 0x18],
        )
    }
}

/// A packet that was refused, or that was not answered in time, is sent again.
pub proof fn unanswered_packets_are_sent_again(t: SenderState, now: nat)
    requires
        t.phase is WaitAck,
    ensures
        repeats(SenderState { cans: 0, ..t }, "再送が多すぎます"@, t.took(0x15, now), now),
        now >= t.deadline && t.request() is None ==> repeats(
            t,
            "応答がありません"@,
            t.ticked(now),
            now,
        ),
{
}

/// Before its deadline, and while it reads a file, a sender does nothing by itself; where the
/// start signal does not come by then, it gives up and tells the receiver.
pub proof fn sender_gives_up_without_a_signal(t: SenderState, now: nat)
    ensures
        now < t.deadline || t.request() is Some ==> t.ticked(now) == (t, Seq::<u8>::empty()),
        now >= t.deadline && t.request() is None && t.phase is WaitStart ==> t.ticked(now) == (
            SenderState { outcome: OutcomeState::Failed("受信側が応答しません"@), ..t },
            seq![0x18u8, 0x18, 0x18, 0x18, 0x18],
        ),
{
}

// ---------------------------------------------------------------- files

/// A file that was read is the next to be sent, from its first byte and its first block on; it is
/// shown by its name and its length. The first one waits as long for the signal as the sender
/// did; a further one waits a minute for the signal to send its block 0.
#[verifier::spinoff_prover]
pub proof fn read_file_is_sent_next(t: SenderState, f: LoadedState, now: nat)
    requires
        t.request() is Some,
        t.backlog.len() == 0,
        f.data.len() <= u64::MAX,
    ensures
        ({
            let (u, out) = t.resumed(ReplyState::Loaded(Ok(f)), now);
            &&& out.len() == 0
            &&& u == SenderState {
                data: f.data,
                mtime: f.mtime,
                pos: 0,
                blk: 1,
                loading: None,
                progress: ProgressState {
                    file: f.name,
                    bytes: 0,
                    total: Some(f.data.len() as u64),
                    ..t.progress
                },
                phase: if t.phase is WaitStart {
                    t.phase
                } else {
                    SendPhase::WaitStart(Stage::Header)
                },
                deadline: if t.phase is WaitStart {
                    t.deadline
                } else {
                    now + 60_000_000_000
                },
                ..t
            }
        }),
{
    let (u, out) = t.resumed(ReplyState::Loaded(Ok(f)), now);
    assert(t.backlog =~= Seq::empty());
    assert(Seq::<u8>::empty() + Seq::<u8>::empty() =~= Seq::<u8>::empty());
}

/// A file that cannot be read ends the sending with a message that names it and says why; where
/// something was sent already, the receiver is told by five CAN bytes.
#[verifier::spinoff_prover]
pub proof fn unreadable_file_ends_the_sending(t: SenderState, e: Seq<char>, now: nat)
    requires
        t.loading is Some,
        t.backlog.len() == 0,
    ensures
        t.resumed(ReplyState::Loaded(Err(e)), now) == (
            SenderState {
                loading: None,
                outcome: OutcomeState::Failed(
                    "読み込めません: "@ + t.loading->0 + ": "@ + e,
                ),
                ..t
            },
            if t.phase is WaitStart {
                Seq::empty()
            } else {
                seq![0x18u8, 0x18, 0x18, 0x18, 0x18]
            },
        ),
{
    let cans = crate::packet::cancel_seq();
    assert(t.backlog =~= Seq::empty());
    assert(cans + Seq::<u8>::empty() =~= cans);
    assert(Seq::<u8>::empty() + Seq::<u8>::empty() =~= Seq::<u8>::empty());
}

/// An answer that was not asked for is ignored, and input that comes while a file is read waits
/// behind what waits already.
pub proof fn sender_waits_for_its_file(
    t: SenderState,
    data: Seq<u8>,
    reply: ReplyState,
    now: nat,
)
    ensures
        t.request() is None || !(reply is Loaded) ==> t.resumed(reply, now) == (
            t,
            Seq::<u8>::empty(),
        ),
        t.request() is Some && t.outcome is Running ==> t.fed(data, now) == (
            SenderState { backlog: t.backlog + data, ..t },
            Seq::<u8>::empty(),
        ),
        t.loading matches Some(path) ==> t.request() == Some(RequestState::Load(path)),
{
    if data.len() == 0 {
        assert(t.backlog + data =~= t.backlog);
    }
}

} // verus!
