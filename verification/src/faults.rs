//! What a transfer makes of faults: damaged and lost packets, lost answers, and sides that give
//! up.

use vstd::prelude::*;

use crate::batch::{announceable, batch_ended, batch_kept, file_names, read_files};
use crate::batch::ymodem_block_gets_over;
use crate::io::{LoadedState, ReplyState, RequestState, ACK_TIMEOUT, MAX_ERRORS};
use crate::packet::{cancel_seq, header_size, header_text, padded};
use crate::packet::{ACK, CAN, CRC_REQ, NAK, SOH, STX, SUB};
use crate::progress::OutcomeState;
use crate::protocol::Protocol;
use crate::receiver::{framed_is_intact, intact, one_changed_byte_is_noticed};
use crate::receiver::{packet_is_taken_whole, packet_size, ReceiverState, WaitState};
use crate::sender::{SenderState, Stage};
use crate::session::{advanced, block_moved, block_stored, xmodem_kept, Kept, Session};
use crate::session::{lemma_ack_arrives, lemma_block_moves, lemma_blocks_move};
use crate::session::{lemma_next_is_on_its_way, lemma_padded_len, lemma_two_steps};
use crate::session::lemma_xmodem_ends;
use crate::text::comma_joined;
use crate::transfer::TransferState;

verus! {

/// Once a block of an XMODEM file is on its way, the file gets over, and each side counts one
/// file more and no further error.
pub proof fn xmodem_block_gets_over(s: Session, base: Seq<Kept>, path: Seq<char>)
    requires
        s.moving(base, path),
        s.tx.protocol != Protocol::Ymodem,
    ensures
        exists|n: nat|
            {
                let e = #[trigger] s.after(n);
                &&& e.tx.outcome == OutcomeState::Done(s.tx.progress.file + " を送信しました"@)
                &&& e.rx.outcome == OutcomeState::Done(
                    comma_joined(s.rx.saved.push(path)) + " を受信しました"@,
                )
                &&& e.kept == base.push(Kept { path, data: xmodem_kept(s.tx.data, s.long()) })
                &&& s.counted(e, 1)
            },
{
    let a = lemma_blocks_move(s, base, path);
    let b = lemma_xmodem_ends(s.after(a), base, path);
    s.lemma_after_after(a, b);
}

/// A sender that is asked for its packet again sends it again.
proof fn lemma_nak_arrives(t: SenderState, now: nat)
    requires
        t.outcome is Running,
        t.loading is None,
        t.phase is WaitAck,
    ensures
        t.fed(seq![NAK], now) == (SenderState { cans: 0, ..t }).repeated(
            "再送が多すぎます"@,
            now,
        ),
{
    let (u, out) = t.took(NAK, now);
    assert(seq![NAK].skip(1) =~= Seq::<u8>::empty());
    assert(u.fed(seq![NAK].skip(1), now) == (u, Seq::<u8>::empty()));
    assert(out + Seq::<u8>::empty() =~= out);
}

/// The session after a packet came in damaged, was asked for, and was sent again.
pub open spec fn sent_again(s: Session) -> Session {
    let deadline = s.now + ACK_TIMEOUT as nat;
    Session {
        tx: SenderState {
            cans: 0,
            errors: s.tx.errors + 1,
            progress: s.tx.progress.error(),
            deadline,
            ..s.tx
        },
        rx: ReceiverState {
            cans: 0,
            started: true,
            deadline,
            errors: s.rx.errors + 1,
            progress: s.rx.progress.error(),
            ..s.rx
        },
        ..s
    }
}

/// A packet that is on its way arrives with one byte changed, other than its start byte.
#[verifier::spinoff_prover]
proof fn lemma_changed_packet(s: Session, i: int, b: u8)
    requires
        s.ready(),
        s.tx.phase is WaitAck,
        s.to_rx == s.tx.last,
        s.to_rx.len() == packet_size(s.to_rx[0], s.rx.crc),
        s.to_rx[0] == SOH || s.to_rx[0] == STX,
        intact(s.to_rx, s.rx.crc),
        1 <= i < s.to_rx.len(),
        s.to_rx[i] != b,
        s.tx.errors < MAX_ERRORS,
        s.rx.errors < MAX_ERRORS,
    ensures
        (Session { to_rx: s.to_rx.update(i, b), ..s }).after(2) == sent_again(s),
{
    let q = s.to_rx.update(i, b);
    let bad = Session { to_rx: q, ..s };
    let goal = sent_again(s);
    one_changed_byte_is_noticed(s.to_rx, s.rx.crc, i, b);
    packet_is_taken_whole(s.rx, q, s.now);
    assert(s.rx.fed(q, s.now) == (goal.rx, seq![NAK]));
    let a = bad.step();
    assert(s.to_tx + seq![NAK] =~= seq![NAK]);
    assert(a =~= Session { rx: goal.rx, to_rx: Seq::empty(), to_tx: seq![NAK], ..s });
    lemma_nak_arrives(s.tx, s.now);
    assert(s.tx.fed(seq![NAK], s.now) == (goal.tx, s.tx.last));
    assert(Seq::<u8>::empty() + s.tx.last =~= s.tx.last);
    assert(s.to_tx =~= Seq::empty());
    assert(a.step() =~= goal);
    lemma_two_steps(bad);
}

/// A block that arrives with one byte changed, other than its start byte, is not stored: it is
/// asked for and sent again, and each side counts one error.
#[verifier::spinoff_prover]
pub proof fn changed_block_is_sent_again(
    s: Session,
    base: Seq<Kept>,
    path: Seq<char>,
    i: int,
    b: u8,
)
    requires
        s.moving(base, path),
        1 <= i < s.to_rx.len(),
        s.to_rx[i] != b,
        s.tx.errors < MAX_ERRORS,
        s.rx.errors < MAX_ERRORS,
    ensures
        (Session { to_rx: s.to_rx.update(i, b), ..s }).after(2) == sent_again(s),
        sent_again(s).moving(base, path),
{
    let body = padded(s.tx.block(), s.tx.block_size(), SUB);
    lemma_padded_len(s.tx.block(), s.tx.block_size(), SUB);
    framed_is_intact(s.tx.blk, body, s.tx.crc);
    lemma_changed_packet(s, i, b);
    assert(sent_again(s).tx.packet(Stage::Data) == s.tx.packet(Stage::Data));
}

/// An XMODEM transfer in which a block arrives with one byte changed, other than its start byte,
/// ends as if nothing had happened, but for the one error that each side counts.
pub proof fn xmodem_survives_changed_byte(
    s: Session,
    base: Seq<Kept>,
    path: Seq<char>,
    i: int,
    b: u8,
)
    requires
        s.moving(base, path),
        s.tx.protocol != Protocol::Ymodem,
        1 <= i < s.to_rx.len(),
        s.to_rx[i] != b,
        s.tx.errors < MAX_ERRORS,
        s.rx.errors < MAX_ERRORS,
    ensures
        exists|n: nat|
            {
                let e = #[trigger] (Session { to_rx: s.to_rx.update(i, b), ..s }).after(n);
                &&& e.tx.outcome == OutcomeState::Done(s.tx.progress.file + " を送信しました"@)
                &&& e.rx.outcome == OutcomeState::Done(
                    comma_joined(s.rx.saved.push(path)) + " を受信しました"@,
                )
                &&& e.kept == base.push(Kept { path, data: xmodem_kept(s.tx.data, s.long()) })
                &&& e.tx.progress.errors == s.tx.progress.errors + 1
                &&& e.rx.progress.errors == s.rx.progress.errors + 1
                &&& e.tx.progress.files_done == s.tx.progress.files_done + 1
                &&& e.rx.progress.files_done == s.rx.progress.files_done + 1
            },
{
    let bad = Session { to_rx: s.to_rx.update(i, b), ..s };
    changed_block_is_sent_again(s, base, path, i, b);
    let t = sent_again(s);
    xmodem_block_gets_over(t, base, path);
    let n = choose|n: nat|
        {
            let e = #[trigger] t.after(n);
            &&& e.tx.outcome == OutcomeState::Done(t.tx.progress.file + " を送信しました"@)
            &&& e.rx.outcome == OutcomeState::Done(
                comma_joined(t.rx.saved.push(path)) + " を受信しました"@,
            )
            &&& e.kept == base.push(Kept { path, data: xmodem_kept(t.tx.data, t.long()) })
            &&& t.counted(e, 1)
        };
    bad.lemma_after_after(2, n);
    assert(bad.after(2 + n) == t.after(n));
}

/// A YMODEM batch in which a block arrives with one byte changed, other than its start byte, ends
/// as if nothing had happened, but for the one error that each side counts.
pub proof fn ymodem_survives_changed_byte(
    s: Session,
    base: Seq<Kept>,
    path: Seq<char>,
    i: int,
    b: u8,
)
    requires
        s.moving(base, path),
        s.tx.protocol == Protocol::Ymodem,
        s.tx.crc,
        forall|k: int|
            0 <= k < s.tx.files.len() ==> announceable(s.source[#[trigger] s.tx.files[k]]),
        s.taken.finite(),
        1 <= i < s.to_rx.len(),
        s.to_rx[i] != b,
        s.tx.errors < MAX_ERRORS,
        s.rx.errors < MAX_ERRORS,
    ensures
        exists|n: nat|
            {
                let e = #[trigger] (Session { to_rx: s.to_rx.update(i, b), ..s }).after(n);
                let files = read_files(s.source, s.tx.files);
                &&& batch_ended(
                    e,
                    s.tx.sent_files.push(s.tx.progress.file) + file_names(files),
                    s.rx.saved.push(path),
                    base.push(Kept { path, data: s.tx.data }),
                    batch_kept(s.prefix, files, s.taken),
                )
                &&& e.tx.progress.errors == s.tx.progress.errors + 1
                &&& e.rx.progress.errors == s.rx.progress.errors + 1
            },
{
    let bad = Session { to_rx: s.to_rx.update(i, b), ..s };
    changed_block_is_sent_again(s, base, path, i, b);
    let t = sent_again(s);
    ymodem_block_gets_over(t, base, path);
    let files = read_files(t.source, t.tx.files);
    let n = choose|n: nat|
        {
            &&& batch_ended(
                #[trigger] t.after(n),
                t.tx.sent_files.push(t.tx.progress.file) + file_names(files),
                t.rx.saved.push(path),
                base.push(Kept { path, data: t.tx.data }),
                batch_kept(t.prefix, files, t.taken),
            )
            &&& t.counted(t.after(n), files.len() + 1)
        };
    bad.lemma_after_after(2, n);
    assert(bad.after(2 + n) == t.after(n));
}

/// A block that does not arrive is sent again when the sender's patience is over.
pub proof fn lost_block_is_sent_again(s: Session, base: Seq<Kept>, path: Seq<char>, later: nat)
    requires
        s.moving(base, path),
        s.tx.errors < MAX_ERRORS,
        s.tx.deadline <= later,
    ensures
        ({
            let t = Session {
                tx: s.tx.ticked(later).0,
                to_rx: s.tx.ticked(later).1,
                now: later,
                ..s
            };
            &&& t.moving(base, path)
            &&& t.tx.data == s.tx.data
            &&& t.tx.files == s.tx.files
            &&& t.tx.sent_files == s.tx.sent_files
            &&& t.tx.progress == s.tx.progress.error()
        }),
{
    let u = s.tx.ticked(later).0;
    assert(u.packet(Stage::Data) == s.tx.packet(Stage::Data));
}

/// A receiver that misses its next packet asks for it, once a packet has come at all, and the
/// sender sends it again.
#[verifier::spinoff_prover]
pub proof fn lost_block_is_asked_for(s: Session, base: Seq<Kept>, path: Seq<char>, later: nat)
    requires
        s.moving(base, path),
        s.rx.started,
        s.tx.errors < MAX_ERRORS,
        s.rx.errors < MAX_ERRORS,
        s.rx.deadline <= later,
    ensures
        ({
            let t = (Session {
                rx: s.rx.ticked(later).0,
                to_rx: Seq::empty(),
                to_tx: s.rx.ticked(later).1,
                now: later,
                ..s
            }).after(1);
            &&& t.moving(base, path)
            &&& t.tx.data == s.tx.data
            &&& t.tx.files == s.tx.files
            &&& t.tx.sent_files == s.tx.sent_files
            &&& t.tx.progress == s.tx.progress.error()
            &&& t.rx.progress == s.rx.progress.error()
        }),
{
    reveal_with_fuel(Session::after, 2);
    let a = Session {
        rx: s.rx.ticked(later).0,
        to_rx: Seq::empty(),
        to_tx: s.rx.ticked(later).1,
        now: later,
        ..s
    };
    assert(s.rx.buf =~= Seq::empty());
    assert(a.to_tx == seq![NAK]);
    lemma_nak_arrives(s.tx, later);
    let u = s.tx.fed(seq![NAK], later).0;
    assert(u.packet(Stage::Data) == s.tx.packet(Stage::Data));
    assert(Seq::<u8>::empty() + s.tx.last =~= s.tx.last);
    let t = a.step();
    assert(t =~= Session { tx: u, to_tx: Seq::empty(), to_rx: s.tx.last, ..a });
    assert(a.after(1) == t);
}

/// A block that is sent again because its acknowledgement was lost is acknowledged again and
/// not stored twice: the transfer goes on as if only time had passed.
#[verifier::spinoff_prover]
pub proof fn lost_ack_is_made_up_for(s: Session, base: Seq<Kept>, path: Seq<char>, later: nat)
    requires
        s.moving(base, path),
        s.tx.errors < MAX_ERRORS,
        s.tx.deadline <= later,
    ensures
        ({
            let stored = block_stored(s);
            let t = (Session {
                tx: s.tx.ticked(later).0,
                to_rx: s.tx.ticked(later).1,
                to_tx: Seq::empty(),
                now: later,
                ..stored
            }).after(2);
            &&& exists|n: nat| s.after(n) == stored
            &&& t.kept == stored.kept
            &&& t.taken == stored.taken
            &&& t.tx.data == s.tx.data
            &&& t.tx.files == s.tx.files
            &&& t.tx.sent_files == s.tx.sent_files
            &&& t.tx.progress.errors == s.tx.progress.errors + 1
            &&& t.moving(base, path) && t.tx.pos > s.tx.pos || t.ending(base, path)
        }),
{
    let n = lemma_block_moves(s, base, path);
    let stored = block_stored(s);
    assert(s.after((n - 1) as nat) == stored);
    let u = s.tx.ticked(later).0;
    let again = Session {
        tx: u,
        to_rx: s.tx.last,
        to_tx: Seq::empty(),
        now: later,
        ..stored
    };
    let body = padded(s.tx.block(), s.tx.block_size(), SUB);
    lemma_padded_len(s.tx.block(), s.tx.block_size(), SUB);
    framed_is_intact(s.tx.blk, body, s.tx.crc);
    packet_is_taken_whole(stored.rx, s.tx.last, later);
    let r = ReceiverState { cans: 0, deadline: later + ACK_TIMEOUT as nat, ..stored.rx };
    assert(stored.rx.fed(s.tx.last, later) == (r, seq![ACK]));
    let a = again.step();
    assert(Seq::<u8>::empty() + seq![ACK] =~= seq![ACK]);
    assert(a =~= Session { rx: r, to_rx: Seq::empty(), to_tx: seq![ACK], ..again });
    lemma_ack_arrives(u, Stage::Data, later);
    let v = advanced(u).sent(Stage::Data, later);
    assert((SenderState { cans: 0, errors: 0, ..u }).acked(Stage::Data, later) == (v, v.last));
    assert(Seq::<u8>::empty() + v.last =~= v.last);
    let c = a.step();
    assert(c =~= Session { tx: v, to_rx: v.last, to_tx: Seq::empty(), ..a });
    let delayed = Session { tx: u, now: later, ..s };
    assert(u.packet(Stage::Data) == s.tx.packet(Stage::Data));
    assert(u.block() == s.tx.block());
    assert(delayed.moving(base, path));
    lemma_next_is_on_its_way(delayed, base, path);
    assert(c =~= block_moved(delayed));
    lemma_two_steps(again);
}

/// A block 0 that arrives with one byte changed, other than its start byte, announces nothing:
/// it is asked for and sent again, and each side counts one error.
#[verifier::spinoff_prover]
pub proof fn changed_header_is_sent_again(s: Session, f: LoadedState, i: int, b: u8)
    requires
        s.announcing(f),
        1 <= i < s.to_rx.len(),
        s.to_rx[i] != b,
        s.tx.errors < MAX_ERRORS,
        s.rx.errors < MAX_ERRORS,
    ensures
        (Session { to_rx: s.to_rx.update(i, b), ..s }).after(2) == sent_again(s),
        sent_again(s).announcing(f),
{
    let text = header_text(vstd::utf8::encode_utf8(f.name), f.data.len(), f.mtime as nat);
    let body = padded(text, header_size(text), 0);
    lemma_padded_len(text, header_size(text), 0);
    framed_is_intact(0, body, true);
    lemma_changed_packet(s, i, b);
    assert(sent_again(s).tx.packet(Stage::Header) == s.tx.packet(Stage::Header));
}

// ---------------------------------------------------------------- giving up

/// `n` copies of `p`.
pub open spec fn copies(p: Seq<u8>, n: nat) -> Seq<u8>
    decreases n,
{
    if n == 0 {
        Seq::empty()
    } else {
        p + copies(p, (n - 1) as nat)
    }
}

/// A sender that is asked for its packet again and again sends it as often as it may, then gives
/// up and tells the receiver.
pub proof fn naks_end_the_sending(t: SenderState, now: nat)
    requires
        t.outcome is Running,
        t.loading is None,
        t.phase is WaitAck,
        t.wf(),
    ensures
        ({
            let left = (MAX_ERRORS - t.errors) as nat;
            let (u, out) = t.fed(Seq::new(left + 1, |i: int| NAK), now);
            &&& u.outcome == OutcomeState::Failed("再送が多すぎます"@)
            &&& out == copies(t.last, left) + cancel_seq()
        }),
    decreases MAX_ERRORS - t.errors,
{
    let left = (MAX_ERRORS - t.errors) as nat;
    let naks = Seq::new(left + 1, |i: int| NAK);
    let (u, out) = t.took(NAK, now);
    if left == 0 {
        assert(u.fed(naks.skip(1), now) == (u, Seq::<u8>::empty()));
        assert(copies(t.last, 0) + cancel_seq() =~= out + Seq::<u8>::empty());
    } else {
        let rest = (left - 1) as nat;
        assert(naks.skip(1) =~= Seq::new(rest + 1, |i: int| NAK));
        naks_end_the_sending(u, now);
        assert(t.last + (copies(t.last, rest) + cancel_seq()) =~= copies(t.last, left)
            + cancel_seq());
    }
}

/// The bad packet that is one too many ends the receiving; the sender is told, and the file is
/// closed.
pub proof fn bad_packets_end_the_receiving(r: ReceiverState, p: Seq<u8>, now: nat)
    requires
        r.outcome is Running,
        r.wait is Idle,
        r.buf.len() == 0,
        r.errors == MAX_ERRORS,
        p.len() == packet_size(p[0], r.crc),
        p[0] == SOH || p[0] == STX,
        !intact(p, r.crc),
    ensures
        r.fed(p, now).0.outcome == OutcomeState::Failed("受信エラーが多すぎます"@),
        !r.fed(p, now).0.file_open,
        r.fed(p, now).1 == cancel_seq(),
{
    packet_is_taken_whole(r, p, now);
}

/// What a side sends when it gives up or is cancelled ends the sender at the other end.
pub proof fn cancel_ends_the_sender(t: SenderState, now: nat)
    requires
        t.outcome is Running,
        t.loading is None,
    ensures
        t.fed(cancel_seq(), now).0.outcome == OutcomeState::Failed("相手が中止しました"@),
        t.fed(cancel_seq(), now).1.len() == 0,
{
    reveal_with_fuel(SenderState::fed, 4);
}

/// What a side sends when it gives up or is cancelled ends the receiver at the other end, where
/// it does not come amid a packet.
pub proof fn cancel_ends_the_receiver(r: ReceiverState, now: nat)
    requires
        r.outcome is Running,
        r.wait is Idle,
        r.buf.len() == 0,
    ensures
        r.fed(cancel_seq(), now).0.outcome == OutcomeState::Failed("相手が中止しました"@),
        !r.fed(cancel_seq(), now).0.file_open,
        r.fed(cancel_seq(), now).1.len() == 0,
{
    reveal_with_fuel(ReceiverState::fed, 4);
}

/// One CAN byte alone ends nothing, as the next byte shows it to be noise.
pub proof fn single_can_is_forgotten(t: SenderState, b: u8, now: nat)
    requires
        t.outcome is Running,
        t.cans == 0,
        b != CAN,
    ensures
        t.took(CAN, now).0.took(b, now) == t.took(b, now),
{
    let u = t.took(CAN, now).0;
    assert((SenderState { cans: 0, ..u }) =~= (SenderState { cans: 0, ..t }));
}

/// A cancelled transfer has failed, and the other side is told by five CAN bytes.
pub proof fn cancel_is_final(t: TransferState)
    requires
        t.outcome is Running,
    ensures
        t.cancelled().0.outcome == OutcomeState::Failed("中止しました"@),
        t.cancelled().1 == cancel_seq(),
        t.cancelled().0.cancelled() == (t.cancelled().0, Seq::<u8>::empty()),
{
}

/// A transfer that has ended stays as it is and sends nothing, whatever comes.
pub proof fn nothing_follows_the_end(
    t: TransferState,
    data: Seq<u8>,
    reply: ReplyState,
    now: nat,
)
    requires
        !(t.outcome is Running),
    ensures
        t.fed(data, now) == (t, Seq::<u8>::empty()),
        t.ticked(now) == (t, Seq::<u8>::empty()),
        t.resumed(reply, now) == (t, Seq::<u8>::empty()),
        t.cancelled() == (t, Seq::<u8>::empty()),
        t.request() is None,
{
}

impl ReceiverState {
    /// The receiver that hears nothing through its next `n` deadlines.
    pub open spec fn left_alone(self, n: nat) -> ReceiverState
        decreases n,
    {
        if n == 0 {
            self
        } else {
            self.left_alone((n - 1) as nat).ticked(self.left_alone((n - 1) as nat).deadline).0
        }
    }
}

proof fn lemma_left_alone(r: ReceiverState, n: nat)
    requires
        r.outcome is Running,
        r.wait is Idle,
        !r.started,
        r.start_tries == 1,
        r.crc,
        n <= 19,
    ensures
        ({
            let e = r.left_alone(n);
            &&& e.outcome is Running
            &&& e.wait is Idle
            &&& !e.started
            &&& e.start_tries == 1 + n
            &&& e.protocol == r.protocol
            &&& e.crc == !(r.protocol == Protocol::Xmodem && n >= 3)
        }),
    decreases n,
{
    if n > 0 {
        lemma_left_alone(r, (n - 1) as nat);
    }
}

/// A receiver that hears nothing repeats its start signal, plain XMODEM from the fourth time on
/// as a request for checksum mode, and gives up when twenty were sent in vain.
pub proof fn silence_ends_the_receiving(r: ReceiverState, n: nat)
    requires
        r.outcome is Running,
        r.wait is Idle,
        !r.started,
        r.start_tries == 1,
        r.crc,
        n < 19,
    ensures
        ({
            let e = r.left_alone(n);
            let signal = if r.protocol == Protocol::Xmodem && n >= 2 {
                NAK
            } else {
                CRC_REQ
            };
            e.ticked(e.deadline).1 == seq![signal]
        }),
        r.left_alone(20).outcome == OutcomeState::Failed("送信側が応答しません"@),
        r.left_alone(19).ticked(r.left_alone(19).deadline).1 == cancel_seq(),
{
    lemma_left_alone(r, n);
    lemma_left_alone(r, 19);
    assert(r.left_alone(20) == r.left_alone(19).ticked(r.left_alone(19).deadline).0);
}

impl SenderState {
    /// The sender that hears nothing through its next `n` deadlines.
    pub open spec fn left_alone(self, n: nat) -> SenderState
        decreases n,
    {
        if n == 0 {
            self
        } else {
            self.ticked(self.deadline).0.left_alone((n - 1) as nat)
        }
    }
}

/// A sender that hears nothing gives up: at once where it waits for the start signal, else after
/// as many repetitions as it may send.
pub proof fn silence_ends_the_sending(t: SenderState)
    requires
        t.outcome is Running,
        t.loading is None,
        t.wf(),
    ensures
        t.phase is WaitStart ==> t.left_alone(1).outcome == OutcomeState::Failed(
            "受信側が応答しません"@,
        ),
        t.phase is WaitAck ==> t.left_alone((MAX_ERRORS - t.errors + 1) as nat).outcome
            == OutcomeState::Failed("応答がありません"@),
    decreases MAX_ERRORS - t.errors,
{
    let u = t.ticked(t.deadline).0;
    if t.phase is WaitStart {
        reveal_with_fuel(SenderState::left_alone, 2);
        assert(t.left_alone(1) == u.left_alone(0));
    } else {
        let left = (MAX_ERRORS - t.errors) as nat;
        assert(t.left_alone(left + 1) == u.left_alone(left));
        if left > 0 {
            silence_ends_the_sending(u);
        }
    }
}

// ---------------------------------------------------------------- files on the receiver's side

/// A YMODEM file is created only at a path that was found to be free just before.
pub proof fn created_only_where_free(r: ReceiverState, reply: ReplyState, now: nat)
    requires
        r.fits(reply),
        r.answered(reply, now).0.wait is Create,
    ensures
        reply matches ReplyState::Probed { exists, .. } && !exists,
        r.request() matches Some(RequestState::Probe(t)) && r.answered(reply, now).0.request()
            == Some(RequestState::Create(t)),
{
}

/// Input never creates a YMODEM file by itself.
pub proof fn input_creates_nothing(r: ReceiverState, b: u8, now: nat)
    requires
        r.wait is Idle,
    ensures
        !(r.took(b, now).0.wait is Create),
{
}

/// What is stored of a YMODEM file never exceeds the announced length.
pub proof fn file_is_no_longer_than_announced(r: ReceiverState, body: Seq<u8>)
    requires
        r.protocol == Protocol::Ymodem,
        r.size is Some,
        r.progress.bytes <= r.size->0,
    ensures
        ({
            let s = r.storing(body);
            &&& s.wait is WriteBlock
            &&& s.wait->bytes.len() == s.wait->count
            &&& s.waiting(WaitState::Idle).stored(s.wait->count).progress.bytes <= r.size->0
        }),
{
}

} // verus!
