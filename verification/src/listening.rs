//! What a receiver makes of everything that the line can bring.

use vstd::prelude::*;

use crate::io::{ReplyState, RequestState, TargetState};
use crate::names::{name_field, name_text, numbered, safe, size_field, size_value};
use crate::packet::{crc_of, framed, sum_of, trailer};
use crate::progress::{OutcomeState, ProgressState};
use crate::protocol::Protocol;
use crate::receiver::{body_of, body_size, intact, lemma_nothing_waited, packet_is_taken_whole};
use crate::receiver::{packet_size, without_subs, ReceiverState, RecvPhase, WaitState};
use crate::text::{comma_joined, decimal};

verus! {

// ---------------------------------------------------------------- between packets

/// A byte that means something between packets: the start of one, the end of a file, or an abort.
pub open spec fn means_something(b: u8) -> bool {
    b == 0x01 || b == 0x02 || b == 0x04 || b == 0x18
}

/// Whatever stands between packets and means nothing, such as a line of text that the other side
/// prints, leaves the receiver as it is and is not answered; what follows is taken as if it stood
/// alone.
pub proof fn noise_between_packets_is_ignored(
    r: ReceiverState,
    noise: Seq<u8>,
    rest: Seq<u8>,
    now: nat,
)
    requires
        r.outcome is Running,
        r.wait is Idle,
        r.buf.len() == 0,
        forall|i: int| 0 <= i < noise.len() ==> !means_something(#[trigger] noise[i]),
    ensures
        r.fed(noise, now) == (r, Seq::<u8>::empty()),
        r.fed(noise + rest, now) == r.fed(rest, now),
    decreases noise.len(),
{
    r.lemma_fed_in_pieces(noise, rest, now);
    if noise.len() > 0 {
        let b = noise[0];
        assert(!means_something(b));
        assert(r.took(b, now).0 =~= r);
        assert(r.took(b, now).1 =~= Seq::empty());
        assert forall|i: int| 0 <= i < noise.skip(1).len() implies !means_something(
            #[trigger] noise.skip(1)[i],
        ) by {
            assert(noise.skip(1)[i] == noise[i + 1]);
        }
        noise_between_packets_is_ignored(r, noise.skip(1), rest, now);
        assert(Seq::<u8>::empty() + Seq::<u8>::empty() =~= Seq::<u8>::empty());
    }
    let out = r.fed(rest, now).1;
    assert(Seq::<u8>::empty() + out =~= out);
}

/// Input is taken byte by byte, each one as what the bytes before it have led to makes of it; the
/// answers follow each other in the same order. Input after the end is dropped.
pub proof fn receiver_takes_byte_by_byte(r: ReceiverState, b: u8, rest: Seq<u8>, now: nat)
    ensures
        r.fed(Seq::empty(), now) == (r, Seq::<u8>::empty()),
        !(r.outcome is Running) ==> r.fed(rest, now) == (r, Seq::<u8>::empty()),
        r.outcome is Running && r.request() is None ==> r.fed(seq![b], now) == r.took(b, now),
        r.outcome is Running && r.request() is None ==> r.fed(seq![b] + rest, now) == ({
            let (s, first) = r.took(b, now);
            let (t, second) = s.fed(rest, now);
            (t, first + second)
        }),
{
    assert((seq![b] + rest).skip(1) =~= rest);
    assert(seq![b].skip(1) =~= Seq::empty());
    let (s, first) = r.took(b, now);
    assert(s.fed(Seq::empty(), now) == (s, Seq::<u8>::empty()));
    assert(first + Seq::<u8>::empty() =~= first);
}

/// A start byte begins a packet, and makes a CAN before it count no more.
pub proof fn start_byte_begins_a_packet(r: ReceiverState, b: u8, now: nat)
    requires
        r.buf.len() == 0,
        b == 0x01 || b == 0x02,
    ensures
        r.took(b, now) == (ReceiverState { buf: seq![b], cans: 0, ..r }, Seq::<u8>::empty()),
{
}

/// The first CAN changes nothing but its count; the second in a row ends the receiving, with the
/// file closed and without an answer.
pub proof fn second_can_ends_the_receiving(r: ReceiverState, now: nat)
    requires
        r.buf.len() == 0,
    ensures
        r.cans == 0 ==> r.took(0x18, now) == (ReceiverState { cans: 1, ..r }, Seq::<u8>::empty()),
        r.cans >= 1 ==> r.took(0x18, now) == (
            ReceiverState {
                cans: r.cans + 1,
                outcome: OutcomeState::Failed("相手が中止しました"@),
                file_open: false,
                ..r
            },
            Seq::<u8>::empty(),
        ),
{
}

// ---------------------------------------------------------------- packets

/// The length of a packet that starts so: three bytes, the body, and one or two bytes of code.
pub open spec fn whole_len(first: u8, crc: bool) -> int {
    (if first == 0x02 {
        1027int
    } else {
        131int
    }) + (if crc {
        2int
    } else {
        1int
    })
}

/// The body of a packet.
pub open spec fn inside(p: Seq<u8>) -> Seq<u8> {
    p.subrange(
        3,
        if p[0] == 0x02 {
            1027int
        } else {
            131int
        },
    )
}

/// Whether a packet is sound: its block number and that number's complement add up to 255, and
/// the code behind its body is the body's own.
pub open spec fn sound(p: Seq<u8>, crc: bool) -> bool {
    let n = p.len() as int;
    &&& p[1] + p[2] == 255
    &&& if crc {
        p[n - 2] * 256 + p[n - 1] == crc_of(inside(p))
    } else {
        p[n - 1] == sum_of(inside(p))
    }
}

/// A packet is sound where the receiver finds it intact.
pub proof fn lemma_sound(p: Seq<u8>, crc: bool)
    requires
        p.len() == whole_len(p[0], crc),
    ensures
        p.len() == packet_size(p[0], crc),
        body_of(p) == inside(p),
        intact(p, crc) == sound(p, crc),
{
    let n = p.len() as int;
    let m = 3 + body_size(p[0]) as int;
    let tail = p.skip(m);
    let body = body_of(p);
    let want = trailer(body, crc);
    assert(body =~= inside(p));
    if crc {
        let c = crc_of(body);
        let (h, l) = (p[n - 2], p[n - 1]);
        assert(tail.len() == 2 && tail[0] == h && tail[1] == l);
        assert((h as u16 * 256 + l as u16 == c) == (h == (c >> 8) as u8 && l == (c & 0xff) as u8))
            by (bit_vector);
        if tail == want {
            assert(tail[0] == want[0] && tail[1] == want[1]);
        } else if h == want[0] && l == want[1] {
            assert(tail =~= want);
        }
    } else {
        assert(tail.len() == 1 && tail[0] == p[n - 1]);
        if tail == want {
            assert(tail[0] == want[0]);
        } else if tail[0] == want[0] {
            assert(tail =~= want);
        }
    }
}

/// Inside a packet every byte is gathered, whatever it is, and nothing is answered before the
/// packet is complete.
pub proof fn packet_is_gathered(r: ReceiverState, b: u8, now: nat)
    requires
        0 < r.buf.len(),
        r.buf.len() + 1 < whole_len(r.buf[0], r.crc),
    ensures
        r.took(b, now) == (ReceiverState { buf: r.buf.push(b), ..r }, Seq::<u8>::empty()),
{
}

/// The receiver after a packet was refused once more.
pub open spec fn refused(r: ReceiverState, now: nat) -> ReceiverState {
    ReceiverState {
        cans: 0,
        started: true,
        deadline: now + 10_000_000_000,
        errors: r.errors + 1,
        progress: ProgressState { errors: r.progress.errors + 1, ..r.progress },
        ..r
    }
}

/// What a refused packet leads to: a NAK and nothing but counts, or, for the eleventh in a row,
/// the end, with the file closed and the sender told by five CAN bytes.
pub open spec fn refuses(r: ReceiverState, got: (ReceiverState, Seq<u8>), now: nat) -> bool {
    if r.errors < 10 {
        got == (refused(r, now), seq![0x15u8])
    } else {
        &&& got.0 == ReceiverState {
            outcome: OutcomeState::Failed("受信エラーが多すぎます"@),
            file_open: false,
            ..refused(r, now)
        }
        &&& got.1 == seq![0x18u8, 0x18, 0x18, 0x18, 0x18]
    }
}

/// A packet that is not sound is refused, in either phase; so is a sound one with another number
/// than 0 where a block 0 is due.
pub proof fn wrong_packet_is_refused(r: ReceiverState, p: Seq<u8>, now: nat)
    requires
        r.outcome is Running,
        r.wait is Idle,
        r.buf.len() == 0,
        p[0] == 0x01 || p[0] == 0x02,
        p.len() == whole_len(p[0], r.crc),
        !sound(p, r.crc) || r.phase == RecvPhase::Header && p[1] != 0,
    ensures
        refuses(r, r.fed(p, now), now),
{
    lemma_sound(p, r.crc);
    packet_is_taken_whole(r, p, now);
}

/// The block before the one that is due, sent again, is acknowledged and otherwise ignored.
pub proof fn block_sent_twice_is_acknowledged(r: ReceiverState, p: Seq<u8>, now: nat)
    requires
        r.outcome is Running,
        r.wait is Idle,
        r.buf.len() == 0,
        r.phase == RecvPhase::Data,
        p[0] == 0x01 || p[0] == 0x02,
        p.len() == whole_len(p[0], r.crc),
        sound(p, r.crc),
        r.expect == (p[1] + 1) % 256,
    ensures
        r.fed(p, now) == (
            ReceiverState { cans: 0, started: true, deadline: now + 10_000_000_000, ..r },
            seq![0x06u8],
        ),
{
    lemma_sound(p, r.crc);
    packet_is_taken_whole(r, p, now);
}

/// A block that is neither due nor the one before ends the receiving, with the file closed and
/// the sender told by five CAN bytes.
pub proof fn skipped_block_ends_the_receiving(r: ReceiverState, p: Seq<u8>, now: nat)
    requires
        r.outcome is Running,
        r.wait is Idle,
        r.buf.len() == 0,
        r.phase == RecvPhase::Data,
        p[0] == 0x01 || p[0] == 0x02,
        p.len() == whole_len(p[0], r.crc),
        sound(p, r.crc),
        r.expect != p[1],
        r.expect != (p[1] + 1) % 256,
    ensures
        r.fed(p, now).0 == (ReceiverState {
            cans: 0,
            started: true,
            deadline: now + 10_000_000_000,
            outcome: OutcomeState::Failed("ブロック番号が飛びました"@),
            file_open: false,
            ..r
        }),
        r.fed(p, now).1 == seq![0x18u8, 0x18, 0x18, 0x18, 0x18],
{
    lemma_sound(p, r.crc);
    packet_is_taken_whole(r, p, now);
}

/// How much of a block of `n` bytes belongs to a YMODEM file of which `have` bytes are stored:
/// all of it as far as the announced length goes, and all of it where none was announced.
pub open spec fn share(size: Option<u64>, have: nat, n: nat) -> nat {
    match size {
        Some(size) => {
            let left = if size >= have {
                (size - have) as nat
            } else {
                0
            };
            if left < n {
                left
            } else {
                n
            }
        },
        None => n,
    }
}

/// A sound packet with the block that is due is stored: with YMODEM its bytes are to be written,
/// as far as they belong to the file; with XMODEM the bytes of the block before are, once the
/// destination was created. Nothing is answered before that is done.
pub proof fn due_block_is_stored(r: ReceiverState, p: Seq<u8>, now: nat)
    requires
        r.outcome is Running,
        r.wait is Idle,
        r.buf.len() == 0,
        r.phase == RecvPhase::Data,
        p[0] == 0x01 || p[0] == 0x02,
        p.len() == whole_len(p[0], r.crc),
        sound(p, r.crc),
        r.expect == p[1],
    ensures
        ({
            let (a, out) = r.fed(p, now);
            let n = inside(p).len();
            &&& out.len() == 0
            &&& a.outcome is Running
            &&& (a.progress, a.expect, a.errors, a.file_open, a.path, a.saved, a.size) == (
                r.progress,
                r.expect,
                r.errors,
                r.file_open,
                r.path,
                r.saved,
                r.size,
            )
            &&& a.request() == Some(
                if r.protocol == Protocol::Ymodem {
                    RequestState::Write(
                        inside(p).take(share(r.size, r.progress.bytes, n) as int),
                    )
                } else if r.file_open {
                    RequestState::Write(r.held)
                } else {
                    RequestState::Create(TargetState::Dest)
                },
            )
        }),
{
    lemma_sound(p, r.crc);
    packet_is_taken_whole(r, p, now);
    assert(r.wanted(inside(p).len()) == share(r.size, r.progress.bytes, inside(p).len()));
}

/// Every sound packet is one that framing its body under its number gives.
pub proof fn sound_packets_are_framed(p: Seq<u8>, crc: bool)
    requires
        p[0] == 0x01 || p[0] == 0x02,
        p.len() == whole_len(p[0], crc),
        sound(p, crc),
    ensures
        p == framed(p[1], inside(p), crc),
{
    lemma_sound(p, crc);
    let q = framed(p[1], inside(p), crc);
    assert(q.len() == p.len());
    let m = 3 + body_size(p[0]) as int;
    assert(p.skip(m) == trailer(inside(p), crc));
    assert forall|i: int| 0 <= i < p.len() implies p[i] == q[i] by {
        if i >= m {
            assert(p[i] == p.skip(m)[i - m]);
        } else if i >= 3 {
            assert(inside(p)[i - 3] == p[i]);
        }
    }
    assert(p =~= q);
}

// ---------------------------------------------------------------- the end of a file

/// Fillers are cut off the end, and nothing else: what is left ends in another byte, and the
/// whole was it and SUB bytes behind.
pub proof fn only_fillers_are_cut(s: Seq<u8>)
    ensures
        without_subs(s).len() <= s.len(),
        without_subs(s) == s.take(without_subs(s).len() as int),
        forall|i: int| without_subs(s).len() <= i < s.len() ==> #[trigger] s[i] == 0x1a,
        without_subs(s).len() > 0 ==> without_subs(s).last() != 0x1a,
    decreases s.len(),
{
    if s.len() > 0 && s.last() == 0x1a {
        only_fillers_are_cut(s.drop_last());
        let w = without_subs(s);
        assert(w =~= s.take(w.len() as int));
        assert forall|i: int| w.len() <= i < s.len() implies #[trigger] s[i] == 0x1a by {
            if i < s.len() - 1 {
                assert(s.drop_last()[i] == s[i]);
            }
        }
    } else {
        assert(s.take(s.len() as int) =~= s);
    }
}

/// Where a block 0 is due, the end of a file is acknowledged and otherwise ignored.
pub proof fn end_before_a_header_is_acknowledged(r: ReceiverState, now: nat)
    requires
        r.buf.len() == 0,
        r.phase == RecvPhase::Header,
    ensures
        r.took(0x04, now) == (ReceiverState { cans: 0, ..r }, seq![0x06u8]),
{
}

/// The end of a YMODEM file closes it, counts it, remembers its path, and asks for the next
/// block 0 at once.
pub proof fn end_of_ymodem_file_asks_for_the_next(r: ReceiverState, path: Seq<char>, now: nat)
    requires
        r.buf.len() == 0,
        r.phase == RecvPhase::Data,
        r.protocol == Protocol::Ymodem,
        r.path == Some(path),
    ensures
        r.took(0x04, now) == (
            ReceiverState {
                cans: 0,
                progress: ProgressState { files_done: r.progress.files_done + 1, ..r.progress },
                path: None,
                saved: r.saved.push(path),
                file_open: false,
                phase: RecvPhase::Header,
                expect: 1,
                deadline: now + 10_000_000_000,
                ..r
            },
            seq![0x06u8, 0x43],
        ),
{
}

/// The end of an XMODEM file writes what was held back, without its fillers, into the file, which
/// is created first where no block came. It is acknowledged when that is done, and the receiving
/// is done, too.
#[verifier::spinoff_prover]
pub proof fn end_of_xmodem_file_ends_the_receiving(r: ReceiverState, now: nat)
    requires
        r.outcome is Running,
        r.wait is Idle,
        r.buf.len() == 0,
        r.backlog.len() == 0,
        r.phase == RecvPhase::Data,
        r.protocol != Protocol::Ymodem,
        r.file_open ==> r.path is Some,
    ensures
        ({
            let (a, first) = r.took(0x04, now);
            let (w, second) = if r.file_open {
                (a, Seq::empty())
            } else {
                a.resumed(ReplyState::Created(Ok(())), now)
            };
            let (e, third) = w.resumed(ReplyState::Written(Ok(())), now);
            let path = if r.file_open {
                r.path->0
            } else {
                r.dest
            };
            &&& !r.file_open ==> a.request() == Some(RequestState::Create(TargetState::Dest))
            &&& w.request() == Some(RequestState::Write(without_subs(r.held)))
            &&& first.len() == 0 && second.len() == 0
            &&& third == seq![0x06u8]
            &&& e.outcome == OutcomeState::Done(
                comma_joined(r.saved.push(path)) + " を受信しました"@,
            )
            &&& e.saved == r.saved.push(path)
            &&& !e.file_open
            &&& e.progress.files_done == r.progress.files_done + 1
            &&& e.progress.errors == r.progress.errors
            &&& e.progress.bytes == r.progress.bytes
            &&& !r.file_open ==> e.progress.file == r.dest_name
        }),
{
    let a = r.took(0x04, now).0;
    let w = if r.file_open {
        a
    } else {
        lemma_nothing_waited(a, ReplyState::Created(Ok(())), now);
        a.resumed(ReplyState::Created(Ok(())), now).0
    };
    assert(w.wait is WriteEot);
    lemma_nothing_waited(w, ReplyState::Written(Ok(())), now);
}

/// An empty block 0 ends the batch: it is acknowledged, and the receiving is done.
pub proof fn empty_header_ends_the_batch(r: ReceiverState, body: Seq<u8>)
    requires
        body.len() > 0,
        body[0] == 0,
    ensures
        r.got_header(body) == (
            ReceiverState {
                outcome: OutcomeState::Done(
                    if r.saved.len() == 0 {
                        "受信するファイルはありませんでした"@
                    } else {
                        comma_joined(r.saved) + " を受信しました"@
                    },
                ),
                ..r
            },
            seq![0x06u8],
        ),
{
}

/// A sound block 0 is taken as what its body says.
pub proof fn header_is_taken(r: ReceiverState, p: Seq<u8>, now: nat)
    requires
        r.outcome is Running,
        r.wait is Idle,
        r.buf.len() == 0,
        r.phase == RecvPhase::Header,
        p[0] == 0x01 || p[0] == 0x02,
        p.len() == whole_len(p[0], r.crc),
        sound(p, r.crc),
        p[1] == 0,
    ensures
        r.fed(p, now) == (ReceiverState {
            cans: 0,
            started: true,
            deadline: now + 10_000_000_000,
            ..r
        }).got_header(inside(p)),
{
    lemma_sound(p, r.crc);
    packet_is_taken_whole(r, p, now);
}

// ---------------------------------------------------------------- files

/// A block 0 that is not empty has the receiver look for a file: in the destination directory,
/// under the safe form of what precedes the first NUL. What follows the NUL, up to a space or
/// another NUL, gives the length, where it is a number. Nothing is answered yet.
pub proof fn header_looks_for_its_file(r: ReceiverState, body: Seq<u8>)
    requires
        body.len() > 0,
        body[0] != 0,
    ensures
        ({
            let (a, out) = r.got_header(body);
            &&& out.len() == 0
            &&& a == ReceiverState { wait: a.wait, size: size_value(size_field(body)), ..r }
            &&& a.request() == Some(
                RequestState::Probe(TargetState::Within(safe(name_text(name_field(body))))),
            )
            &&& a.wait matches WaitState::Probe { name, copy, .. }
            &&& copy == 0 && name == safe(name_text(name_field(body)))
        }),
{
}

/// A file that exists already is not touched: the next path is looked for, which has the next
/// number behind the path that was shown for the first one. A file that does not exist is
/// created, just where it was looked for.
#[verifier::spinoff_prover]
pub proof fn taken_paths_are_passed_over(
    r: ReceiverState,
    name: Seq<char>,
    known: Seq<char>,
    copy: nat,
    shown: Seq<char>,
    now: nat,
)
    requires
        r.backlog.len() == 0,
        r.wait == (WaitState::Probe { name, root: known, copy }),
    ensures
        ({
            let root = if copy == 0 {
                shown
            } else {
                known
            };
            let (taken, a) = r.resumed(ReplyState::Probed { exists: true, shown }, now);
            let (free, b) = r.resumed(ReplyState::Probed { exists: false, shown }, now);
            &&& a.len() == 0 && b.len() == 0
            &&& taken == ReceiverState { wait: taken.wait, ..r }
            &&& taken.wait == WaitState::Probe { name, root, copy: copy + 1 }
            &&& taken.request() == Some(
                RequestState::Probe(TargetState::At(root + "."@ + decimal(copy + 1))),
            )
            &&& free == ReceiverState { wait: free.wait, ..r }
            &&& free.wait == WaitState::Create { name, root, copy }
            &&& free.request() == Some(
                RequestState::Create(
                    if copy == 0 {
                        TargetState::Within(name)
                    } else {
                        TargetState::At(known + "."@ + decimal(copy))
                    },
                ),
            )
        }),
{
    lemma_nothing_waited(r, ReplyState::Probed { exists: true, shown }, now);
    lemma_nothing_waited(r, ReplyState::Probed { exists: false, shown }, now);
}

/// A YMODEM file that was created is open under its name and path, both with the number that was
/// free; its length is the announced one, nothing of it has come, block 1 is due, and its data is
/// asked for by ACK and `C`.
#[verifier::spinoff_prover]
pub proof fn created_file_is_asked_for(
    r: ReceiverState,
    name: Seq<char>,
    root: Seq<char>,
    copy: nat,
    now: nat,
)
    requires
        r.backlog.len() == 0,
        r.wait == (WaitState::Create { name, root, copy }),
    ensures
        ({
            let with = |s: Seq<char>|
                if copy == 0 {
                    s
                } else {
                    s + "."@ + decimal(copy)
                };
            r.resumed(ReplyState::Created(Ok(())), now) == (
                ReceiverState {
                    wait: WaitState::Idle,
                    file_open: true,
                    progress: ProgressState {
                        file: with(name),
                        bytes: 0,
                        total: r.size,
                        ..r.progress
                    },
                    path: Some(with(root)),
                    phase: RecvPhase::Data,
                    expect: 1,
                    errors: 0,
                    deadline: now + 10_000_000_000,
                    ..r
                },
                seq![0x06u8, 0x43],
            )
        }),
{
    lemma_nothing_waited(r, ReplyState::Created(Ok(())), now);
}

/// The destination of an XMODEM file, created for its first block, is open and shown; the block
/// is held back, and what was held back before is to be written.
#[verifier::spinoff_prover]
pub proof fn created_destination_takes_the_block(r: ReceiverState, body: Seq<u8>, now: nat)
    requires
        r.backlog.len() == 0,
        r.wait == WaitState::CreateForBlock(body),
    ensures
        ({
            let (a, out) = r.resumed(ReplyState::Created(Ok(())), now);
            &&& out.len() == 0
            &&& a.request() == Some(RequestState::Write(r.held))
            &&& a == ReceiverState {
                wait: WaitState::WriteBlock { bytes: r.held, count: body.len() },
                file_open: true,
                progress: ProgressState { file: r.dest_name, ..r.progress },
                path: Some(r.dest),
                held: body,
                ..r
            }
        }),
{
    lemma_nothing_waited(r, ReplyState::Created(Ok(())), now);
}

/// A block that was written counts, is acknowledged, and makes the next number due; bad packets
/// before it count no more.
#[verifier::spinoff_prover]
pub proof fn written_block_is_acknowledged(
    r: ReceiverState,
    bytes: Seq<u8>,
    count: nat,
    now: nat,
)
    requires
        r.backlog.len() == 0,
        r.wait == (WaitState::WriteBlock { bytes, count }),
    ensures
        r.request() == Some(RequestState::Write(bytes)),
        r.resumed(ReplyState::Written(Ok(())), now) == (
            ReceiverState {
                wait: WaitState::Idle,
                progress: ProgressState { bytes: r.progress.bytes + count, ..r.progress },
                expect: if r.expect == 255 {
                    0
                } else {
                    (r.expect + 1) as u8
                },
                errors: 0,
                ..r
            },
            seq![0x06u8],
        ),
{
    lemma_nothing_waited(r, ReplyState::Written(Ok(())), now);
    assert(((r.expect + 1) % 256) as u8 == if r.expect == 255 {
        0
    } else {
        (r.expect + 1) as u8
    });
}

/// How much a block counts: with YMODEM the bytes that are written, with XMODEM all of it, though
/// it is held back.
pub proof fn blocks_count_what_they_carry(r: ReceiverState, p: Seq<u8>, now: nat)
    requires
        r.outcome is Running,
        r.wait is Idle,
        r.buf.len() == 0,
        r.phase == RecvPhase::Data,
        p[0] == 0x01 || p[0] == 0x02,
        p.len() == whole_len(p[0], r.crc),
        sound(p, r.crc),
        r.expect == p[1],
    ensures
        ({
            let a = r.fed(p, now).0;
            let n = inside(p).len();
            let mine = share(r.size, r.progress.bytes, n);
            &&& r.protocol == Protocol::Ymodem ==> a.wait == WaitState::WriteBlock {
                bytes: inside(p).take(mine as int),
                count: mine,
            }
            &&& r.protocol == Protocol::Ymodem ==> a.held == r.held
            &&& r.protocol != Protocol::Ymodem && r.file_open ==> a.wait
                == WaitState::WriteBlock { bytes: r.held, count: n } && a.held == inside(p)
            &&& r.protocol != Protocol::Ymodem && !r.file_open ==> a.wait
                == WaitState::CreateForBlock(inside(p)) && a.held == r.held
        }),
{
    lemma_sound(p, r.crc);
    packet_is_taken_whole(r, p, now);
    assert(r.wanted(inside(p).len()) == share(r.size, r.progress.bytes, inside(p).len()));
}

// ---------------------------------------------------------------- file errors

/// A file that cannot be created or written ends the receiving with a message that says why; the
/// file is closed, and the sender is told by five CAN bytes.
#[verifier::spinoff_prover]
pub proof fn file_errors_end_the_receiving(r: ReceiverState, e: Seq<char>, now: nat)
    requires
        r.outcome is Running,
        r.backlog.len() == 0,
    ensures
        ({
            let cans = seq![0x18u8, 0x18, 0x18, 0x18, 0x18];
            let ended = |msg: Seq<char>|
                (
                    ReceiverState {
                        wait: WaitState::Idle,
                        outcome: OutcomeState::Failed(msg),
                        file_open: false,
                        ..r
                    },
                    cans,
                );
            let uncreated = r.resumed(ReplyState::Created(Err(e)), now);
            let unwritten = r.resumed(ReplyState::Written(Err(e)), now);
            &&& r.wait matches WaitState::Create { root, copy, .. } ==> uncreated == ended(
                "保存できません "@ + numbered(root, copy) + ": "@ + e,
            )
            &&& r.wait is CreateForBlock || r.wait is CreateForEot ==> uncreated == ended(
                "保存できません: "@ + r.dest + ": "@ + e,
            )
            &&& r.wait is WriteBlock || r.wait is WriteEot ==> unwritten == ended(e)
        }),
{
    if r.fits(ReplyState::Created(Err(e))) {
        lemma_nothing_waited(r, ReplyState::Created(Err(e)), now);
    }
    if r.fits(ReplyState::Written(Err(e))) {
        lemma_nothing_waited(r, ReplyState::Written(Err(e)), now);
    }
}

/// An answer that was not asked for is ignored.
pub proof fn unasked_answers_are_ignored(r: ReceiverState, reply: ReplyState, now: nat)
    requires
        r.request() matches Some(RequestState::Probe(_)) ==> !(reply is Probed),
        r.request() matches Some(RequestState::Create(_)) ==> !(reply is Created),
        r.request() matches Some(RequestState::Write(_)) ==> !(reply is Written),
    ensures
        r.resumed(reply, now) == (r, Seq::<u8>::empty()),
{
}

/// Input that comes during file work waits behind what waits already, and is not answered.
pub proof fn input_waits_for_file_work(r: ReceiverState, data: Seq<u8>, now: nat)
    requires
        r.outcome is Running,
        r.request() is Some,
    ensures
        r.fed(data, now) == (
            ReceiverState { backlog: r.backlog + data, ..r },
            Seq::<u8>::empty(),
        ),
{
    if data.len() == 0 {
        assert(r.backlog + data =~= r.backlog);
    }
}

// ---------------------------------------------------------------- time

/// Before its deadline, and while it waits for file work, a receiver does nothing by itself.
pub proof fn time_alone_does_nothing_early(r: ReceiverState, now: nat)
    requires
        now < r.deadline || r.request() is Some,
    ensures
        r.ticked(now) == (r, Seq::<u8>::empty()),
{
}

/// Once a packet has come, a receiver that misses the next one drops what it has of it and asks
/// for it again, ten seconds from now at the latest, or gives up after ten times in a row.
pub proof fn missing_packet_is_asked_for(r: ReceiverState, now: nat)
    requires
        r.outcome is Running,
        r.request() is None,
        r.started,
        now >= r.deadline,
    ensures
        ({
            let asked = ReceiverState {
                buf: Seq::empty(),
                errors: r.errors + 1,
                progress: ProgressState { errors: r.progress.errors + 1, ..r.progress },
                deadline: now + 10_000_000_000,
                ..r
            };
            if r.errors < 10 {
                r.ticked(now) == (asked, seq![0x15u8])
            } else {
                r.ticked(now) == (
                    ReceiverState {
                        outcome: OutcomeState::Failed("受信エラーが多すぎます"@),
                        file_open: false,
                        ..asked
                    },
                    seq![0x18u8, 0x18, 0x18, 0x18, 0x18],
                )
            }
        }),
{
}

/// Before a packet has come, a receiver repeats its start signal every three seconds. Plain
/// XMODEM asks for checksums from its fourth signal on; nothing else ever changes the mode. It
/// gives up instead of sending signal 21.
pub proof fn start_signal_is_repeated(r: ReceiverState, now: nat)
    requires
        r.outcome is Running,
        r.request() is None,
        !r.started,
        now >= r.deadline,
    ensures
        ({
            let crc = r.crc && (r.protocol != Protocol::Xmodem || r.start_tries < 3);
            if r.start_tries < 20 {
                &&& r.ticked(now).0 == ReceiverState {
                    crc,
                    start_tries: r.start_tries + 1,
                    deadline: now + 3_000_000_000,
                    ..r
                }
                &&& r.ticked(now).1 == seq![
                    if crc {
                        0x43u8
                    } else {
                        0x15u8
                    },
                ]
            } else {
                &&& r.ticked(now).0.outcome == OutcomeState::Failed("送信側が応答しません"@)
                &&& r.ticked(now).1 == seq![0x18u8, 0x18, 0x18, 0x18, 0x18]
            }
        }),
{
}

/// A new receiver runs, wants CRCs, waits for block 0 with YMODEM and for block 1 otherwise, has
/// nothing yet, and repeats its signal in three seconds.
pub proof fn new_receiver_waits_for_its_first_packet(
    protocol: Protocol,
    dest: Seq<char>,
    name: Seq<char>,
    now: nat,
)
    ensures
        ({
            let r = ReceiverState::start(protocol, dest, name, now);
            &&& r.outcome is Running
            &&& r.protocol == protocol && r.dest == dest && r.dest_name == name
            &&& r.crc
            &&& r.phase == if protocol == Protocol::Ymodem {
                RecvPhase::Header
            } else {
                RecvPhase::Data
            }
            &&& r.expect == 1
            &&& r.buf.len() == 0 && r.held.len() == 0 && r.backlog.len() == 0
            &&& r.saved.len() == 0
            &&& !r.file_open && r.path is None && r.size is None
            &&& !r.started && r.start_tries == 1
            &&& r.errors == 0 && r.cans == 0
            &&& r.deadline == now + 3_000_000_000
            &&& r.request() is None
            &&& r.progress.bytes == 0 && r.progress.files_done == 0 && r.progress.errors == 0
            &&& r.progress.total is None && r.progress.file.len() == 0
        }),
{
}

} // verus!
