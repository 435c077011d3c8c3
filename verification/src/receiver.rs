//! The receiving side of a transfer.

use vstd::prelude::*;
use vstd::slice::slice_subrange;

use crate::io::{after, Reply, ReplyState, Request, RequestState, Target, TargetState};
use crate::io::{request_state, ACK_TIMEOUT, MAX_ERRORS, START_INTERVAL};
use crate::names::{name_field, name_text, numbered, safe, size_field, size_value};
use crate::names::{decode_name_inverts_utf8, header_is_read_back, read_header, unique_path};
use crate::packet::{append, cancel_bytes, checksum, copy_bytes, crc16};
use crate::packet::{cancel_seq, complement, framed, header_size, header_text, padded, trailer};
use crate::packet::trailer_len;
use crate::packet::{ACK, CAN, CRC_REQ, EOT, NAK, SOH, STX, SUB};
use crate::progress::{Outcome, OutcomeState, Progress, ProgressState};
use crate::protocol::Protocol;
use crate::text::{comma_joined, concat, join_commas, texts};

verus! {

/// What a receiver expects.
#[derive(Clone, Copy, PartialEq, Eq, Debug, Structural)]
pub enum RecvPhase {
    /// YMODEM's block 0.
    Header,
    /// A data block or the end of the file.
    Data,
}

/// The file work that a receiver waits for.
pub enum WaitState {
    Idle,
    /// Whether the file to be kept as `name`, with number `copy`, exists; `root` is the path
    /// without a number as it is shown, known once number 0 was looked for.
    Probe { name: Seq<char>, root: Seq<char>, copy: nat },
    /// The creation of that file.
    Create { name: Seq<char>, root: Seq<char>, copy: nat },
    /// The creation of the destination, for a first block with this body.
    CreateForBlock(Seq<u8>),
    /// The writing of `bytes`, for a block that moves `count` bytes.
    WriteBlock { bytes: Seq<u8>, count: nat },
    /// The creation of the destination, for a file without data.
    CreateForEot,
    /// The writing of the file's last bytes.
    WriteEot(Seq<u8>),
}

/// The model of a receiver.
#[verifier::ext_equal]
pub struct ReceiverState {
    pub protocol: Protocol,
    /// The destination's path and name as they are shown.
    pub dest: Seq<char>,
    pub dest_name: Seq<char>,
    /// Whether packets carry a CRC.
    pub crc: bool,
    pub phase: RecvPhase,
    /// The number of the next block.
    pub expect: u8,
    /// The packet that is coming in.
    pub buf: Seq<u8>,
    /// Whether a file is open, its path as it is shown, and its announced length.
    pub file_open: bool,
    pub path: Option<Seq<char>>,
    pub size: Option<u64>,
    /// XMODEM's last block, held back until it is known whether its fillers must go.
    pub held: Seq<u8>,
    /// Whether a packet has come, and the start signals sent so far.
    pub started: bool,
    pub start_tries: nat,
    pub deadline: nat,
    /// Bad packets in a row, and CAN bytes in a row.
    pub errors: nat,
    pub cans: nat,
    pub progress: ProgressState,
    pub outcome: OutcomeState,
    pub saved: Seq<Seq<char>>,
    /// The file work that is under way, and the input that waits for it.
    pub wait: WaitState,
    pub backlog: Seq<u8>,
}

/// The length of the body behind the start byte `first`.
pub open spec fn body_size(first: u8) -> nat {
    if first == STX {
        1024
    } else {
        128
    }
}

/// The length of the packet behind the start byte `first`.
pub open spec fn packet_size(first: u8, crc: bool) -> nat {
    3 + body_size(first) + trailer_len(crc)
}

/// A packet's body.
pub open spec fn body_of(p: Seq<u8>) -> Seq<u8> {
    p.subrange(3, 3 + body_size(p[0]) as int)
}

/// Whether a packet arrived intact, as far as its block number and its trailer show.
pub open spec fn intact(p: Seq<u8>, crc: bool) -> bool {
    &&& p[1] == complement(p[2])
    &&& p.skip(3 + body_size(p[0]) as int) == trailer(body_of(p), crc)
}

/// `s` without the SUB bytes at its end.
pub open spec fn without_subs(s: Seq<u8>) -> Seq<u8>
    decreases s.len(),
{
    if s.len() > 0 && s.last() == SUB {
        without_subs(s.drop_last())
    } else {
        s
    }
}

/// The file to be kept as `name`, with number `copy`.
pub open spec fn target(name: Seq<char>, root: Seq<char>, copy: nat) -> TargetState {
    if copy == 0 {
        TargetState::Within(name)
    } else {
        TargetState::At(numbered(root, copy))
    }
}

impl ReceiverState {
    /// What holds of every receiver.
    pub open spec fn wf(self) -> bool {
        &&& self.outcome is Running ==> self.errors <= MAX_ERRORS && self.cans < 2
            && self.start_tries <= 20
        &&& self.outcome is Running && self.protocol == Protocol::Ymodem && self.phase
            == RecvPhase::Data ==> self.file_open
        &&& self.wait matches WaitState::WriteBlock { count, .. } ==> count <= 1024
        &&& self.wait matches WaitState::CreateForBlock(body) ==> body.len() <= 1024
    }

    /// Whether `n` more bytes of input, or answers to requests, can be counted.
    pub open spec fn has_room(self, n: nat) -> bool {
        &&& self.progress.has_room(n)
        &&& self.wait matches WaitState::Probe { copy, .. } ==> copy + n <= u64::MAX
    }

    /// A receiver that has just sent its first start signal.
    pub open spec fn start(
        protocol: Protocol,
        dest: Seq<char>,
        dest_name: Seq<char>,
        now: nat,
    ) -> ReceiverState {
        ReceiverState {
            protocol,
            dest,
            dest_name,
            crc: true,
            phase: if protocol == Protocol::Ymodem {
                RecvPhase::Header
            } else {
                RecvPhase::Data
            },
            expect: 1,
            buf: Seq::empty(),
            file_open: false,
            path: None,
            size: None,
            held: Seq::empty(),
            started: false,
            start_tries: 1,
            deadline: now + START_INTERVAL as nat,
            errors: 0,
            cans: 0,
            progress: ProgressState::start(),
            outcome: OutcomeState::Running,
            saved: Seq::empty(),
            wait: WaitState::Idle,
            backlog: Seq::empty(),
        }
    }

    /// The end of the transfer with an error; the sender is told by five CAN bytes.
    pub open spec fn failed(self, msg: Seq<char>) -> ReceiverState {
        ReceiverState { outcome: OutcomeState::Failed(msg), file_open: false, ..self }
    }

    pub open spec fn done(self, msg: Seq<char>) -> ReceiverState {
        ReceiverState { outcome: OutcomeState::Done(msg), ..self }
    }

    pub open spec fn waiting(self, wait: WaitState) -> ReceiverState {
        ReceiverState { wait, ..self }
    }

    /// A request to send the packet again, or the end where there were too many.
    pub open spec fn naked(self) -> (ReceiverState, Seq<u8>) {
        let s = ReceiverState {
            errors: self.errors + 1,
            progress: self.progress.error(),
            ..self
        };
        if s.errors > MAX_ERRORS {
            (s.failed("受信エラーが多すぎます"@), cancel_seq())
        } else {
            (s, seq![NAK])
        }
    }

    /// What a block 0 with this body does: an empty one ends the batch, another announces a
    /// file, whose name must not be taken.
    pub open spec fn got_header(self, body: Seq<u8>) -> (ReceiverState, Seq<u8>) {
        if body[0] == 0 {
            let msg = if self.saved.len() == 0 {
                "受信するファイルはありませんでした"@
            } else {
                comma_joined(self.saved) + " を受信しました"@
            };
            (self.done(msg), seq![ACK])
        } else {
            (
                ReceiverState { size: size_value(size_field(body)), ..self }.waiting(
                    WaitState::Probe {
                        name: safe(name_text(name_field(body))),
                        root: Seq::empty(),
                        copy: 0,
                    },
                ),
                Seq::empty(),
            )
        }
    }

    /// How many of `n` bytes of a block belong to the file.
    pub open spec fn wanted(self, n: nat) -> nat {
        match self.size {
            Some(size) => if self.progress.bytes + n <= size {
                n
            } else if self.progress.bytes <= size {
                (size - self.progress.bytes) as nat
            } else {
                0
            },
            None => n,
        }
    }

    /// Holds `body` back, and writes what was held back before.
    pub open spec fn holding(self, body: Seq<u8>) -> ReceiverState {
        ReceiverState { held: body, ..self }.waiting(
            WaitState::WriteBlock { bytes: self.held, count: body.len() },
        )
    }

    /// Starts to store the next block of the file.
    pub open spec fn storing(self, body: Seq<u8>) -> ReceiverState {
        if self.protocol == Protocol::Ymodem {
            let bytes = body.take(self.wanted(body.len()) as int);
            self.waiting(WaitState::WriteBlock { bytes, count: bytes.len() })
        } else if !self.file_open {
            self.waiting(WaitState::CreateForBlock(body))
        } else {
            self.holding(body)
        }
    }

    /// What the complete packet `p` does, and what is sent for it at once.
    pub open spec fn got_packet(self, p: Seq<u8>, now: nat) -> (ReceiverState, Seq<u8>) {
        let s = ReceiverState { started: true, deadline: now + ACK_TIMEOUT as nat, ..self };
        if !intact(p, self.crc) {
            s.naked()
        } else if self.phase == RecvPhase::Header {
            if p[1] != 0 {
                s.naked()
            } else {
                s.got_header(body_of(p))
            }
        } else if p[1] == (self.expect + 255) % 256 {
            (s, seq![ACK])
        } else if p[1] != self.expect {
            (s.failed("ブロック番号が飛びました"@), cancel_seq())
        } else {
            (s.storing(body_of(p)), Seq::empty())
        }
    }

    /// The end of a file: it is closed, and with YMODEM the next block 0 is asked for.
    pub open spec fn finished(self, now: nat) -> (ReceiverState, Seq<u8>) {
        let saved = match self.path {
            Some(p) => self.saved.push(p),
            None => self.saved,
        };
        let s = ReceiverState {
            progress: self.progress.closed(),
            path: None,
            saved,
            file_open: false,
            ..self
        };
        if self.protocol == Protocol::Ymodem {
            (
                ReceiverState {
                    phase: RecvPhase::Header,
                    expect: 1,
                    deadline: now + ACK_TIMEOUT as nat,
                    ..s
                },
                seq![ACK, CRC_REQ],
            )
        } else {
            (s.done(comma_joined(saved) + " を受信しました"@), seq![ACK])
        }
    }

    /// Writes what is held back, without its fillers.
    pub open spec fn ending(self) -> ReceiverState {
        ReceiverState { held: Seq::empty(), ..self }.waiting(
            WaitState::WriteEot(without_subs(self.held)),
        )
    }

    /// What the end of the file does.
    pub open spec fn got_eot(self, now: nat) -> (ReceiverState, Seq<u8>) {
        if self.phase == RecvPhase::Header {
            (self, seq![ACK])
        } else if self.protocol == Protocol::Ymodem {
            self.finished(now)
        } else if !self.file_open {
            (self.waiting(WaitState::CreateForEot), Seq::empty())
        } else {
            (self.ending(), Seq::empty())
        }
    }

    /// What one byte from the sender does, and what is sent for it at once.
    pub open spec fn took(self, b: u8, now: nat) -> (ReceiverState, Seq<u8>) {
        if self.buf.len() == 0 {
            if b == SOH || b == STX {
                (ReceiverState { buf: seq![b], cans: 0, ..self }, Seq::empty())
            } else if b == EOT {
                ReceiverState { cans: 0, ..self }.got_eot(now)
            } else if b == CAN {
                let s = ReceiverState { cans: self.cans + 1, ..self };
                if s.cans >= 2 {
                    (s.failed("相手が中止しました"@), Seq::empty())
                } else {
                    (s, Seq::empty())
                }
            } else {
                (self, Seq::empty())
            }
        } else {
            let p = self.buf.push(b);
            if p.len() == packet_size(p[0], self.crc) {
                ReceiverState { buf: Seq::empty(), ..self }.got_packet(p, now)
            } else {
                (ReceiverState { buf: p, ..self }, Seq::empty())
            }
        }
    }

    /// What input from the sender does, and what is sent for it at once. Input that comes during
    /// file work waits; input after the end is dropped.
    pub open spec fn fed(self, data: Seq<u8>, now: nat) -> (ReceiverState, Seq<u8>)
        decreases data.len(),
    {
        if data.len() == 0 || !(self.outcome is Running) {
            (self, Seq::empty())
        } else if !(self.wait is Idle) {
            (ReceiverState { backlog: self.backlog + data, ..self }, Seq::empty())
        } else {
            let (s, out) = self.took(data[0], now);
            let (t, more) = s.fed(data.skip(1), now);
            (t, out + more)
        }
    }

    /// The destination of an XMODEM file is open.
    pub open spec fn opened_dest(self) -> ReceiverState {
        ReceiverState {
            file_open: true,
            progress: ProgressState { file: self.dest_name, ..self.progress },
            path: Some(self.dest),
            ..self
        }
    }

    /// The announced file is open, and its data is asked for.
    pub open spec fn opened_file(
        self,
        name: Seq<char>,
        root: Seq<char>,
        copy: nat,
        now: nat,
    ) -> ReceiverState {
        ReceiverState {
            file_open: true,
            progress: self.progress.opened(numbered(name, copy), self.size),
            path: Some(numbered(root, copy)),
            phase: RecvPhase::Data,
            expect: 1,
            errors: 0,
            deadline: now + ACK_TIMEOUT as nat,
            ..self
        }
    }

    /// The block is stored.
    pub open spec fn stored(self, count: nat) -> ReceiverState {
        ReceiverState {
            progress: ProgressState { bytes: self.progress.bytes + count, ..self.progress },
            expect: ((self.expect + 1) % 256) as u8,
            errors: 0,
            ..self
        }
    }

    /// Whether `reply` answers the request under way.
    pub open spec fn fits(self, reply: ReplyState) -> bool {
        match self.wait {
            WaitState::Idle => false,
            WaitState::Probe { .. } => reply is Probed,
            WaitState::Create { .. } => reply is Created,
            WaitState::CreateForBlock(_) => reply is Created,
            WaitState::CreateForEot => reply is Created,
            WaitState::WriteBlock { .. } => reply is Written,
            WaitState::WriteEot(_) => reply is Written,
        }
    }

    /// What the answer to the request does, before the input that waited is taken up.
    pub open spec fn answered(self, reply: ReplyState, now: nat) -> (ReceiverState, Seq<u8>) {
        let s = self.waiting(WaitState::Idle);
        match (self.wait, reply) {
            (WaitState::Probe { name, root, copy }, ReplyState::Probed { exists, shown }) => {
                let root = if copy == 0 {
                    shown
                } else {
                    root
                };
                if exists {
                    (s.waiting(WaitState::Probe { name, root, copy: copy + 1 }), Seq::empty())
                } else {
                    (s.waiting(WaitState::Create { name, root, copy }), Seq::empty())
                }
            },
            (WaitState::Create { name, root, copy }, ReplyState::Created(r)) => match r {
                Ok(_) => (s.opened_file(name, root, copy, now), seq![ACK, CRC_REQ]),
                Err(e) => (
                    s.failed("保存できません "@ + numbered(root, copy) + ": "@ + e),
                    cancel_seq(),
                ),
            },
            (WaitState::CreateForBlock(body), ReplyState::Created(r)) => match r {
                Ok(_) => (s.opened_dest().holding(body), Seq::empty()),
                Err(e) => (
                    s.failed("保存できません: "@ + self.dest + ": "@ + e),
                    cancel_seq(),
                ),
            },
            (WaitState::CreateForEot, ReplyState::Created(r)) => match r {
                Ok(_) => (s.opened_dest().ending(), Seq::empty()),
                Err(e) => (
                    s.failed("保存できません: "@ + self.dest + ": "@ + e),
                    cancel_seq(),
                ),
            },
            (WaitState::WriteBlock { count, .. }, ReplyState::Written(r)) => match r {
                Ok(_) => (s.stored(count), seq![ACK]),
                Err(e) => (s.failed(e), cancel_seq()),
            },
            (WaitState::WriteEot(_), ReplyState::Written(r)) => match r {
                Ok(_) => s.finished(now),
                Err(e) => (s.failed(e), cancel_seq()),
            },
            _ => (self, Seq::empty()),
        }
    }

    /// What the answer to the request does, and what is sent for it and for the input that
    /// waited. An answer that does not fit the request is ignored.
    pub open spec fn resumed(self, reply: ReplyState, now: nat) -> (ReceiverState, Seq<u8>) {
        if self.fits(reply) {
            let (s, out) = self.answered(reply, now);
            let (t, more) = ReceiverState { backlog: Seq::empty(), ..s }.fed(self.backlog, now);
            (t, out + more)
        } else {
            (self, Seq::empty())
        }
    }

    /// What the passing of time does, and what is sent for it: the start signal again until a
    /// packet has come, which plain XMODEM turns into a request for checksum mode; afterwards a
    /// request to send the packet again.
    pub open spec fn ticked(self, now: nat) -> (ReceiverState, Seq<u8>) {
        if now < self.deadline || !(self.wait is Idle) {
            (self, Seq::empty())
        } else if !self.started {
            let s = ReceiverState { start_tries: self.start_tries + 1, ..self };
            if s.start_tries > 20 {
                (s.failed("送信側が応答しません"@), cancel_seq())
            } else {
                let crc = self.crc && !(self.protocol == Protocol::Xmodem && s.start_tries > 3);
                (
                    ReceiverState { crc, deadline: now + START_INTERVAL as nat, ..s },
                    if crc {
                        seq![CRC_REQ]
                    } else {
                        seq![NAK]
                    },
                )
            }
        } else {
            let (s, out) = ReceiverState { buf: Seq::empty(), ..self }.naked();
            (ReceiverState { deadline: now + ACK_TIMEOUT as nat, ..s }, out)
        }
    }

    /// The file work that the receiver waits for.
    pub open spec fn request(self) -> Option<RequestState> {
        match self.wait {
            WaitState::Idle => None,
            WaitState::Probe { name, root, copy } => Some(
                RequestState::Probe(target(name, root, copy)),
            ),
            WaitState::Create { name, root, copy } => Some(
                RequestState::Create(target(name, root, copy)),
            ),
            WaitState::CreateForBlock(_) => Some(RequestState::Create(TargetState::Dest)),
            WaitState::CreateForEot => Some(RequestState::Create(TargetState::Dest)),
            WaitState::WriteBlock { bytes, .. } => Some(RequestState::Write(bytes)),
            WaitState::WriteEot(bytes) => Some(RequestState::Write(bytes)),
        }
    }
}

// ---------------------------------------------------------------- the receiver

/// The file work that a receiver waits for.
enum Wait {
    Idle,
    Probe { name: String, root: String, copy: u64 },
    Create { name: String, root: String, copy: u64 },
    CreateForBlock(Vec<u8>),
    WriteBlock { bytes: Vec<u8>, count: usize },
    CreateForEot,
    WriteEot(Vec<u8>),
}

impl View for Wait {
    type V = WaitState;

    closed spec fn view(&self) -> WaitState {
        match self {
            Wait::Idle => WaitState::Idle,
            Wait::Probe { name, root, copy } => WaitState::Probe {
                name: name@,
                root: root@,
                copy: *copy as nat,
            },
            Wait::Create { name, root, copy } => WaitState::Create {
                name: name@,
                root: root@,
                copy: *copy as nat,
            },
            Wait::CreateForBlock(body) => WaitState::CreateForBlock(body@),
            Wait::WriteBlock { bytes, count } => WaitState::WriteBlock {
                bytes: bytes@,
                count: *count as nat,
            },
            Wait::CreateForEot => WaitState::CreateForEot,
            Wait::WriteEot(bytes) => WaitState::WriteEot(bytes@),
        }
    }
}

/// The receiving side of a transfer.
pub struct Receiver {
    protocol: Protocol,
    dest: String,
    dest_name: String,
    crc: bool,
    phase: RecvPhase,
    expect: u8,
    buf: Vec<u8>,
    file_open: bool,
    path: Option<String>,
    size: Option<u64>,
    held: Vec<u8>,
    started: bool,
    start_tries: u32,
    deadline: u128,
    errors: u32,
    cans: u32,
    progress: Progress,
    outcome: Outcome,
    saved: Vec<String>,
    wait: Wait,
    backlog: Vec<u8>,
}

impl View for Receiver {
    type V = ReceiverState;

    closed spec fn view(&self) -> ReceiverState {
        ReceiverState {
            protocol: self.protocol,
            dest: self.dest@,
            dest_name: self.dest_name@,
            crc: self.crc,
            phase: self.phase,
            expect: self.expect,
            buf: self.buf@,
            file_open: self.file_open,
            path: match self.path {
                Some(p) => Some(p@),
                None => None,
            },
            size: self.size,
            held: self.held@,
            started: self.started,
            start_tries: self.start_tries as nat,
            deadline: self.deadline as nat,
            errors: self.errors as nat,
            cans: self.cans as nat,
            progress: self.progress@,
            outcome: self.outcome@,
            saved: texts(self.saved@),
            wait: self.wait@,
            backlog: self.backlog@,
        }
    }
}

/// Removes the SUB bytes at the end of `s`.
fn drop_subs(s: &mut Vec<u8>)
    ensures
        final(s)@ == without_subs(old(s)@),
{
    while s.len() > 0 && s[s.len() - 1] == SUB
        invariant
            without_subs(s@) == without_subs(old(s)@),
        decreases s@.len(),
    {
        let ghost before = s@;
        s.pop();
        assert(s@ =~= before.drop_last());
    }
}

impl Receiver {
    /// A receiver for this destination, and the start signal that it sends.
    pub fn new(protocol: Protocol, dest: String, dest_name: String, now: u64) -> (r: (
        Receiver,
        Vec<u8>,
    ))
        ensures
            r.0@ == ReceiverState::start(protocol, dest@, dest_name@, now as nat),
            r.0@.wf(),
            r.1@ == seq![CRC_REQ],
    {
        let r = Receiver {
            protocol,
            dest,
            dest_name,
            crc: true,
            phase: if protocol == Protocol::Ymodem {
                RecvPhase::Header
            } else {
                RecvPhase::Data
            },
            expect: 1,
            buf: Vec::new(),
            file_open: false,
            path: None,
            size: None,
            held: Vec::new(),
            started: false,
            start_tries: 1,
            deadline: after(now, START_INTERVAL),
            errors: 0,
            cans: 0,
            progress: Progress::default(),
            outcome: Outcome::Running,
            saved: Vec::new(),
            wait: Wait::Idle,
            backlog: Vec::new(),
        };
        let out = vec![CRC_REQ];
        assert(out@ =~= seq![CRC_REQ]);
        assert(r@ =~= ReceiverState::start(protocol, dest@, dest_name@, now as nat));
        (r, out)
    }

    /// The progress to show.
    pub fn progress(&self) -> (r: Progress)
        ensures
            r@ == self@.progress,
    {
        self.progress.copy()
    }

    /// How the receiving stands.
    pub fn outcome(&self) -> (r: Outcome)
        ensures
            r@ == self@.outcome,
    {
        self.outcome.copy()
    }

    /// Whether a file is open.
    pub fn file_open(&self) -> (r: bool)
        ensures
            r == self@.file_open,
    {
        self.file_open
    }

    /// Whether `n` more bytes of input, behind those that wait, or answers to requests can be
    /// counted.
    pub fn has_room(&self, n: usize) -> (r: bool)
        ensures
            r == self@.has_room(self@.backlog.len() + n as nat),
    {
        let more = self.backlog.len() as u128 + n as u128;
        let copies_fit = match &self.wait {
            Wait::Probe { copy, .. } => *copy as u128 + more <= u64::MAX as u128,
            _ => true,
        };
        self.progress.errors as u128 + more <= u32::MAX as u128
            && self.progress.files_done as u128 + more <= u32::MAX as u128
            && self.progress.bytes as u128 + 1024 * more <= u64::MAX as u128 && copies_fit
    }

    /// The file work that the receiver waits for.
    pub fn request(&self) -> (r: Option<Request>)
        ensures
            request_state(r) == self@.request(),
    {
        match &self.wait {
            Wait::Idle => None,
            Wait::Probe { name, root, copy } => Some(
                Request::Probe(target_of(name.as_str(), root.as_str(), *copy)),
            ),
            Wait::Create { name, root, copy } => Some(
                Request::Create(target_of(name.as_str(), root.as_str(), *copy)),
            ),
            Wait::CreateForBlock(_) => Some(Request::Create(Target::Dest)),
            Wait::CreateForEot => Some(Request::Create(Target::Dest)),
            Wait::WriteBlock { bytes, .. } => Some(Request::Write(copy_bytes(bytes.as_slice()))),
            Wait::WriteEot(bytes) => Some(Request::Write(copy_bytes(bytes.as_slice()))),
        }
    }

    /// Closes the file that is open, if one is.
    fn close_file(&mut self)
        ensures
            final(self)@ == (ReceiverState { file_open: false, ..old(self)@ }),
    {
        self.file_open = false;
    }

    /// Ends the receiving with an error, and tells the sender.
    fn fail(&mut self, msg: String, out: &mut Vec<u8>)
        ensures
            final(self)@ == old(self)@.failed(msg@),
            final(out)@ == old(out)@ + cancel_seq(),
    {
        append(out, cancel_bytes().as_slice());
        self.close_file();
        self.outcome = Outcome::Failed(msg);
    }

    /// The length of the packet behind the start byte `first`.
    fn packet_len(&self, first: u8) -> (r: usize)
        ensures
            r == packet_size(first, self@.crc),
    {
        let size: usize = if first == STX { 1024 } else { 128 };
        3 + size + if self.crc { 2 } else { 1 }
    }

    /// Asks for the packet again, or gives up.
    fn nak(&mut self, out: &mut Vec<u8>)
        requires
            old(self)@.wf(),
            old(self)@.outcome is Running,
            old(self)@.has_room(1),
        ensures
            final(self)@ == old(self)@.naked().0,
            final(out)@ == old(out)@ + old(self)@.naked().1,
            final(self)@.wf(),
    {
        self.errors = self.errors + 1;
        self.progress.errors = self.progress.errors + 1;
        if self.errors > MAX_ERRORS {
            self.fail("受信エラーが多すぎます".to_owned(), out);
        } else {
            out.push(NAK);
        }
        assert(out@ =~= old(out)@ + old(self)@.naked().1);
    }

    /// Takes a block 0 with this body.
    pub fn on_header(&mut self, body: &[u8], out: &mut Vec<u8>)
        requires
            old(self)@.wf(),
            body@.len() == 128 || body@.len() == 1024,
        ensures
            final(self)@ == old(self)@.got_header(body@).0,
            final(out)@ == old(out)@ + old(self)@.got_header(body@).1,
            final(self)@.wf(),
    {
        if body[0] == 0 {
            out.push(ACK);
            let msg = if self.saved.len() == 0 {
                "受信するファイルはありませんでした".to_owned()
            } else {
                let names = join_commas(&self.saved);
                concat(names.as_str(), " を受信しました")
            };
            self.outcome = Outcome::Done(msg);
        } else {
            let announced = read_header(body);
            self.size = announced.size;
            self.wait = Wait::Probe { name: announced.name, root: String::new(), copy: 0 };
        }
        assert(out@ =~= old(out)@ + old(self)@.got_header(body@).1);
    }

    /// The destination of an XMODEM file is open now.
    fn open_xmodem_file(&mut self)
        ensures
            final(self)@ == old(self)@.opened_dest(),
    {
        self.file_open = true;
        self.progress.file = self.dest_name.clone();
        self.path = Some(self.dest.clone());
    }

    /// Holds `body` back, and writes what was held back before.
    fn hold(&mut self, body: Vec<u8>)
        requires
            old(self)@.wf(),
            body@.len() <= 1024,
        ensures
            final(self)@ == old(self)@.holding(body@),
            final(self)@.wf(),
    {
        let count = body.len();
        let mut held = body;
        std::mem::swap(&mut held, &mut self.held);
        self.wait = Wait::WriteBlock { bytes: held, count };
    }

    /// Starts to store the next block of the file.
    fn write_block(&mut self, body: &[u8])
        requires
            old(self)@.wf(),
            body@.len() <= 1024,
        ensures
            final(self)@ == old(self)@.storing(body@),
            final(self)@.wf(),
    {
        if self.protocol == Protocol::Ymodem {
            let n = match self.size {
                Some(size) => {
                    let left = size.saturating_sub(self.progress.bytes);
                    if left < body.len() as u64 {
                        left as usize
                    } else {
                        body.len()
                    }
                },
                None => body.len(),
            };
            let bytes = copy_bytes(slice_subrange(body, 0, n));
            assert(bytes@ =~= body@.take(self@.wanted(body@.len()) as int));
            self.wait = Wait::WriteBlock { bytes, count: n };
        } else if !self.file_open {
            self.wait = Wait::CreateForBlock(copy_bytes(body));
        } else {
            self.hold(copy_bytes(body));
        }
    }

    /// Takes a complete packet.
    pub fn on_packet(&mut self, p: &[u8], now: u64, out: &mut Vec<u8>)
        requires
            old(self)@.wf(),
            old(self)@.outcome is Running,
            old(self)@.has_room(1),
            p@.len() == packet_size(p@[0], old(self)@.crc),
        ensures
            final(self)@ == old(self)@.got_packet(p@, now as nat).0,
            final(out)@ == old(out)@ + old(self)@.got_packet(p@, now as nat).1,
            final(self)@.wf(),
    {
        self.started = true;
        self.deadline = after(now, ACK_TIMEOUT);
        let size: usize = if p[0] == STX { 1024 } else { 128 };
        let blk = p[1];
        let nblk = p[2];
        let body = slice_subrange(p, 3, 3 + size);
        assert(!nblk == 255 - nblk) by (bit_vector);
        let ghost tail = p@.skip(3 + size as int);
        let code_ok = if self.crc {
            let code = crc16(body);
            let ok = p[3 + size] == (code >> 8) as u8 && p[4 + size] == (code & 0xff) as u8;
            proof {
                let want = trailer(body@, true);
                assert(tail.len() == 2 && tail[0] == p@[3 + size as int] && tail[1] == p@[4
                    + size as int]);
                if ok {
                    assert(tail =~= want);
                } else {
                    assert(tail[0] != want[0] || tail[1] != want[1]);
                }
            }
            ok
        } else {
            let ok = p[3 + size] == checksum(body);
            proof {
                let want = trailer(body@, false);
                assert(tail.len() == 1 && tail[0] == p@[3 + size as int]);
                if ok {
                    assert(tail =~= want);
                } else {
                    assert(tail[0] != want[0]);
                }
            }
            ok
        };
        if !(blk == !nblk && code_ok) {
            self.nak(out);
            return;
        }
        if self.phase == RecvPhase::Header {
            if blk != 0 {
                self.nak(out);
                return;
            }
            self.on_header(body, out);
            return;
        }
        if blk == self.expect.wrapping_sub(1) {
            out.push(ACK);
            assert(out@ =~= old(out)@ + seq![ACK]);
            return;
        }
        if blk != self.expect {
            self.fail("ブロック番号が飛びました".to_owned(), out);
            return;
        }
        self.write_block(body);
        assert(out@ =~= old(out)@ + Seq::<u8>::empty());
    }

    /// Ends the file: closes it and acknowledges its end.
    fn finish(&mut self, now: u64, out: &mut Vec<u8>)
        requires
            old(self)@.wf(),
            old(self)@.has_room(1),
        ensures
            final(self)@ == old(self)@.finished(now as nat).0,
            final(out)@ == old(out)@ + old(self)@.finished(now as nat).1,
            final(self)@.wf(),
    {
        out.push(ACK);
        self.progress.files_done = self.progress.files_done + 1;
        let ghost saved = texts(self.saved@);
        if let Some(p) = self.path.take() {
            self.saved.push(p);
            assert(texts(self.saved@) =~= saved.push(p@));
        }
        self.close_file();
        if self.protocol == Protocol::Ymodem {
            self.phase = RecvPhase::Header;
            self.expect = 1;
            out.push(CRC_REQ);
            self.deadline = after(now, ACK_TIMEOUT);
        } else {
            let names = join_commas(&self.saved);
            self.outcome = Outcome::Done(concat(names.as_str(), " を受信しました"));
        }
        assert(out@ =~= old(out)@ + old(self)@.finished(now as nat).1);
    }

    /// Writes what is held back, without its fillers.
    fn end(&mut self)
        requires
            old(self)@.wf(),
        ensures
            final(self)@ == old(self)@.ending(),
            final(self)@.wf(),
    {
        let mut last: Vec<u8> = Vec::new();
        std::mem::swap(&mut last, &mut self.held);
        drop_subs(&mut last);
        self.wait = Wait::WriteEot(last);
    }

    /// Takes the end of the file.
    fn on_eot(&mut self, now: u64, out: &mut Vec<u8>)
        requires
            old(self)@.wf(),
            old(self)@.has_room(1),
        ensures
            final(self)@ == old(self)@.got_eot(now as nat).0,
            final(out)@ == old(out)@ + old(self)@.got_eot(now as nat).1,
            final(self)@.wf(),
    {
        if self.phase == RecvPhase::Header {
            out.push(ACK);
            assert(out@ =~= old(out)@ + seq![ACK]);
            return;
        }
        if self.protocol == Protocol::Ymodem {
            self.finish(now, out);
            return;
        }
        if !self.file_open {
            self.wait = Wait::CreateForEot;
        } else {
            self.end();
        }
        assert(out@ =~= old(out)@ + Seq::<u8>::empty());
    }

    /// Takes one byte from the sender.
    fn take(&mut self, b: u8, now: u64, out: &mut Vec<u8>)
        requires
            old(self)@.wf(),
            old(self)@.outcome is Running,
            old(self)@.has_room(1),
        ensures
            final(self)@ == old(self)@.took(b, now as nat).0,
            final(out)@ == old(out)@ + old(self)@.took(b, now as nat).1,
            final(self)@.wf(),
    {
        if self.buf.len() == 0 {
            if b == SOH || b == STX {
                self.buf.push(b);
                assert(self.buf@ =~= seq![b]);
                self.cans = 0;
            } else if b == EOT {
                self.cans = 0;
                self.on_eot(now, out);
                return;
            } else if b == CAN {
                self.cans = self.cans + 1;
                if self.cans >= 2 {
                    self.close_file();
                    self.outcome = Outcome::Failed("相手が中止しました".to_owned());
                }
            }
            assert(out@ =~= old(out)@ + Seq::<u8>::empty());
            return;
        }
        self.buf.push(b);
        if self.buf.len() == self.packet_len(self.buf[0]) {
            let mut packet: Vec<u8> = Vec::new();
            std::mem::swap(&mut packet, &mut self.buf);
            self.on_packet(packet.as_slice(), now, out);
        } else {
            assert(out@ =~= old(out)@ + Seq::<u8>::empty());
        }
    }

    /// Takes input from the sender, and appends what is sent for it at once to `out`.
    pub fn input(&mut self, data: &[u8], now: u64, out: &mut Vec<u8>)
        requires
            old(self)@.wf(),
            old(self)@.progress.has_room(data@.len()),
        ensures
            final(self)@ == old(self)@.fed(data@, now as nat).0,
            final(out)@ == old(out)@ + old(self)@.fed(data@, now as nat).1,
            final(self)@.wf(),
    {
        let ghost goal = self@.fed(data@, now as nat);
        let mut i: usize = 0;
        assert(data@.skip(0) =~= data@);
        while i < data.len() && self.outcome.is_running() && matches!(self.wait, Wait::Idle)
            invariant
                i <= data@.len(),
                self@.wf(),
                self@.progress.has_room((data@.len() - i) as nat),
                goal.0 == self@.fed(data@.skip(i as int), now as nat).0,
                old(out)@ + goal.1 == out@ + self@.fed(data@.skip(i as int), now as nat).1,
            decreases data@.len() - i,
        {
            assert(data@.skip(i as int).skip(1) =~= data@.skip(i + 1));
            let ghost before = self@;
            let ghost sent = out@;
            self.take(data[i], now, out);
            proof {
                before.lemma_took_counts(data@[i as int], now as nat);
                let step = before.took(data@[i as int], now as nat).1;
                let rest = self@.fed(data@.skip(i + 1), now as nat).1;
                assert(sent + (step + rest) =~= sent + step + rest);
            }
            i = i + 1;
        }
        if i < data.len() && self.outcome.is_running() {
            let rest = slice_subrange(data, i, data.len());
            assert(rest@ =~= data@.skip(i as int));
            append(&mut self.backlog, rest);
        }
        assert(out@ + Seq::<u8>::empty() =~= out@);
    }

    /// Whether `reply` answers the request under way.
    fn accepts(&self, reply: &Reply) -> (r: bool)
        ensures
            r == self@.fits(reply@),
    {
        match self.wait {
            Wait::Idle => false,
            Wait::Probe { .. } => matches!(reply, Reply::Probed { .. }),
            Wait::Create { .. } => matches!(reply, Reply::Created(_)),
            Wait::CreateForBlock(_) => matches!(reply, Reply::Created(_)),
            Wait::CreateForEot => matches!(reply, Reply::Created(_)),
            Wait::WriteBlock { .. } => matches!(reply, Reply::Written(_)),
            Wait::WriteEot(_) => matches!(reply, Reply::Written(_)),
        }
    }

    /// Ends the receiving where the destination could not be created.
    fn fail_create(&mut self, e: String, out: &mut Vec<u8>)
        ensures
            final(self)@ == old(self)@.failed(
                "保存できません: "@ + old(self)@.dest + ": "@ + e@,
            ),
            final(out)@ == old(out)@ + cancel_seq(),
    {
        let msg = concat("保存できません: ", self.dest.as_str());
        let msg = concat(msg.as_str(), ": ");
        let msg = concat(msg.as_str(), e.as_str());
        self.fail(msg, out);
    }

    /// Takes the answer to the request.
    fn answer(&mut self, reply: Reply, now: u64, out: &mut Vec<u8>)
        requires
            old(self)@.wf(),
            old(self)@.has_room(1),
            old(self)@.fits(reply@),
        ensures
            final(self)@ == old(self)@.answered(reply@, now as nat).0,
            final(out)@ == old(out)@ + old(self)@.answered(reply@, now as nat).1,
            final(self)@.wf(),
    {
        let ghost goal = self@.answered(reply@, now as nat);
        let mut wait = Wait::Idle;
        std::mem::swap(&mut wait, &mut self.wait);
        match wait {
            Wait::Probe { name, root, copy } => {
                if let Reply::Probed { exists, shown } = reply {
                    let root = if copy == 0 { shown } else { root };
                    if exists {
                        self.wait = Wait::Probe { name, root, copy: copy + 1 };
                    } else {
                        self.wait = Wait::Create { name, root, copy };
                    }
                }
            },
            Wait::Create { name, root, copy } => {
                if let Reply::Created(r) = reply {
                    let path = unique_path(root.as_str(), copy);
                    match r {
                        Ok(_) => {
                            self.file_open = true;
                            self.progress.file = unique_path(name.as_str(), copy);
                            self.progress.bytes = 0;
                            self.progress.total = self.size;
                            self.path = Some(path);
                            self.phase = RecvPhase::Data;
                            self.expect = 1;
                            self.errors = 0;
                            out.push(ACK);
                            out.push(CRC_REQ);
                            self.deadline = after(now, ACK_TIMEOUT);
                        },
                        Err(e) => {
                            let msg = concat("保存できません ", path.as_str());
                            let msg = concat(msg.as_str(), ": ");
                            let msg = concat(msg.as_str(), e.as_str());
                            self.fail(msg, out);
                        },
                    }
                }
            },
            Wait::CreateForBlock(body) => {
                if let Reply::Created(r) = reply {
                    match r {
                        Ok(_) => {
                            self.open_xmodem_file();
                            self.hold(body);
                        },
                        Err(e) => self.fail_create(e, out),
                    }
                }
            },
            Wait::CreateForEot => {
                if let Reply::Created(r) = reply {
                    match r {
                        Ok(_) => {
                            self.open_xmodem_file();
                            self.end();
                        },
                        Err(e) => self.fail_create(e, out),
                    }
                }
            },
            Wait::WriteBlock { bytes, count } => {
                if let Reply::Written(r) = reply {
                    match r {
                        Ok(_) => {
                            self.progress.bytes = self.progress.bytes + count as u64;
                            self.expect = self.expect.wrapping_add(1);
                            self.errors = 0;
                            out.push(ACK);
                        },
                        Err(e) => self.fail(e, out),
                    }
                }
            },
            Wait::WriteEot(bytes) => {
                if let Reply::Written(r) = reply {
                    match r {
                        Ok(_) => self.finish(now, out),
                        Err(e) => self.fail(e, out),
                    }
                }
            },
            Wait::Idle => {},
        }
        assert(out@ =~= old(out)@ + goal.1);
    }

    /// Takes the answer to the request, goes on with the input that waited, and appends what is
    /// sent to `out`.
    pub fn resume(&mut self, reply: Reply, now: u64, out: &mut Vec<u8>)
        requires
            old(self)@.wf(),
            old(self)@.has_room(old(self)@.backlog.len() + 1),
        ensures
            final(self)@ == old(self)@.resumed(reply@, now as nat).0,
            final(out)@ == old(out)@ + old(self)@.resumed(reply@, now as nat).1,
            final(self)@.wf(),
    {
        if !self.accepts(&reply) {
            assert(out@ =~= old(out)@ + Seq::<u8>::empty());
            return;
        }
        let ghost start = self@;
        let ghost r = reply@;
        proof {
            start.lemma_answered_counts(r, now as nat);
        }
        self.answer(reply, now, out);
        let mut waiting: Vec<u8> = Vec::new();
        std::mem::swap(&mut waiting, &mut self.backlog);
        self.input(waiting.as_slice(), now, out);
        proof {
            let s = ReceiverState { backlog: Seq::empty(), ..start.answered(r, now as nat).0 };
            let more = s.fed(start.backlog, now as nat).1;
            assert(old(out)@ + start.answered(r, now as nat).1 + more =~= old(out)@ + (
            start.answered(r, now as nat).1 + more));
        }
    }

    /// Lets time pass, and appends what is sent for it to `out`.
    pub fn tick(&mut self, now: u64, out: &mut Vec<u8>)
        requires
            old(self)@.wf(),
            old(self)@.outcome is Running,
            old(self)@.has_room(1),
        ensures
            final(self)@ == old(self)@.ticked(now as nat).0,
            final(out)@ == old(out)@ + old(self)@.ticked(now as nat).1,
            final(self)@.wf(),
    {
        if (now as u128) < self.deadline || !matches!(self.wait, Wait::Idle) {
            assert(out@ =~= old(out)@ + Seq::<u8>::empty());
            return;
        }
        if !self.started {
            self.start_tries = self.start_tries + 1;
            if self.start_tries > 20 {
                self.fail("送信側が応答しません".to_owned(), out);
                return;
            }
            if self.protocol == Protocol::Xmodem && self.start_tries > 3 {
                self.crc = false;
            }
            out.push(if self.crc { CRC_REQ } else { NAK });
            self.deadline = after(now, START_INTERVAL);
            assert(out@ =~= old(out)@ + old(self)@.ticked(now as nat).1);
            return;
        }
        self.buf.clear();
        self.nak(out);
        self.deadline = after(now, ACK_TIMEOUT);
    }
}

/// The file to be kept as `name`, with number `copy`.
fn target_of(name: &str, root: &str, copy: u64) -> (r: Target)
    ensures
        r@ == target(name@, root@, copy as nat),
{
    if copy == 0 {
        Target::Within(name.to_owned())
    } else {
        Target::At(unique_path(root, copy))
    }
}

impl ReceiverState {
    /// An answer is counted at most once, and leaves the input that waits alone.
    pub proof fn lemma_answered_counts(self, reply: ReplyState, now: nat)
        requires
            self.wf(),
        ensures
            self.answered(reply, now).0.progress.errors == self.progress.errors,
            self.answered(reply, now).0.progress.files_done <= self.progress.files_done + 1,
            self.answered(reply, now).0.progress.bytes <= self.progress.bytes + 1024,
            self.answered(reply, now).0.backlog == self.backlog,
    {
    }

    /// One byte is counted at most once.
    pub proof fn lemma_took_counts(self, b: u8, now: nat)
        ensures
            self.took(b, now).0.progress.errors <= self.progress.errors + 1,
            self.took(b, now).0.progress.files_done <= self.progress.files_done + 1,
            self.took(b, now).0.progress.bytes == self.progress.bytes,
            self.took(b, now).0.backlog == self.backlog,
            self.took(b, now).0.wait matches WaitState::Probe { copy, .. } ==> self.wait is Idle
                ==> copy == 0,
    {
    }

    /// Where `m` bytes can be counted behind some input, they can be counted after it.
    pub proof fn lemma_fed_keeps_room(self, data: Seq<u8>, m: nat, now: nat)
        requires
            self.has_room(self.backlog.len() + data.len() + m),
        ensures
            self.fed(data, now).0.has_room(self.fed(data, now).0.backlog.len() + m),
        decreases data.len(),
    {
        if data.len() > 0 && self.outcome is Running && self.wait is Idle {
            self.lemma_took_counts(data[0], now);
            self.took(data[0], now).0.lemma_fed_keeps_room(data.skip(1), m, now);
        }
    }

    /// It does not matter in what pieces input comes.
    pub proof fn lemma_fed_in_pieces(self, a: Seq<u8>, b: Seq<u8>, now: nat)
        ensures
            self.fed(a + b, now) == ({
                let (t, first) = self.fed(a, now);
                let (u, second) = t.fed(b, now);
                (u, first + second)
            }),
        decreases a.len(),
    {
        let (t, first) = self.fed(a, now);
        let (u, second) = t.fed(b, now);
        if a.len() == 0 {
            assert(a + b =~= b);
            assert(first + second =~= second);
        } else if !(self.outcome is Running) {
            assert(first + second =~= Seq::empty());
        } else if !(self.wait is Idle) {
            assert(self.backlog + (a + b) =~= self.backlog + a + b);
            assert(first + second =~= Seq::empty());
            if b.len() == 0 {
                assert(a + b =~= a);
            }
        } else {
            let (s, out) = self.took(a[0], now);
            assert((a + b).skip(1) =~= a.skip(1) + b);
            s.lemma_fed_in_pieces(a.skip(1), b, now);
            let (v, rest) = s.fed(a.skip(1), now);
            assert(out + (rest + second) =~= out + rest + second);
        }
    }

    /// An answer has nothing to do with the input that waits.
    proof fn lemma_answered_ignores_backlog(self, backlog: Seq<u8>, reply: ReplyState, now: nat)
        requires
            self.fits(reply),
        ensures
            (ReceiverState { backlog, ..self }).answered(reply, now) == (
                ReceiverState { backlog, ..self.answered(reply, now).0 },
                self.answered(reply, now).1,
            ),
    {
    }

    /// Input that comes during file work is taken up afterwards, as if it had come then.
    pub proof fn lemma_waiting_input_is_kept(self, data: Seq<u8>, reply: ReplyState, now: nat)
        requires
            self.outcome is Running,
            self.fits(reply),
        ensures
            self.fed(data, now).0.resumed(reply, now) == ({
                let (t, first) = self.resumed(reply, now);
                let (u, second) = t.fed(data, now);
                (u, first + second)
            }),
    {
        let w = self.fed(data, now).0;
        let (s, out) = self.answered(reply, now);
        let (x, more) = w.answered(reply, now);
        if data.len() == 0 {
            assert(self.backlog + data =~= self.backlog);
        }
        assert(w =~= (ReceiverState { backlog: self.backlog + data, ..self }));
        self.lemma_answered_ignores_backlog(self.backlog + data, reply, now);
        let clear = ReceiverState { backlog: Seq::empty(), ..s };
        assert((ReceiverState { backlog: Seq::empty(), ..x }) =~= clear);
        assert(more == out);
        clear.lemma_fed_in_pieces(self.backlog, data, now);
        let (v, first) = clear.fed(self.backlog, now);
        let (u, second) = v.fed(data, now);
        assert(out + (first + second) =~= out + first + second);
    }
}

/// A framed body of either size is an intact packet.
pub proof fn framed_is_intact(blk: u8, body: Seq<u8>, crc: bool)
    requires
        body.len() == 128 || body.len() == 1024,
    ensures
        ({
            let p = framed(blk, body, crc);
            &&& p.len() == packet_size(p[0], crc)
            &&& p[1] == blk
            &&& body_of(p) == body
            &&& intact(p, crc)
        }),
{
    let p = framed(blk, body, crc);
    assert(body_of(p) =~= body);
    assert(p.skip(3 + body_size(p[0]) as int) =~= trailer(body, crc));
}

/// A packet of which one byte was changed, other than the start byte, is not intact any more.
pub proof fn one_changed_byte_is_noticed(p: Seq<u8>, crc: bool, i: int, b: u8)
    requires
        p.len() == packet_size(p[0], crc),
        intact(p, crc),
        1 <= i < p.len(),
        p[i] != b,
    ensures
        !intact(p.update(i, b), crc),
{
    let q = p.update(i, b);
    let n = 3 + body_size(p[0]) as int;
    assert(q[0] == p[0]);
    if i >= n {
        assert(body_of(q) =~= body_of(p));
        assert(q.skip(n)[i - n] != p.skip(n)[i - n]);
    } else if i >= 3 {
        assert(body_of(q) =~= body_of(p).update(i - 3, b));
        assert(q.skip(n) =~= p.skip(n));
        crate::packet::trailer_notices_changed_byte(body_of(p), i - 3, b, crc);
    }
}

// ---------------------------------------------------------------- packets on the line

/// A packet that arrives whole is taken as one, behind what of it has come already.
proof fn lemma_rest_of_packet(r: ReceiverState, p: Seq<u8>, i: int, now: nat)
    requires
        r.outcome is Running,
        r.wait is Idle,
        1 <= i < p.len(),
        r.buf == p.take(i),
        p.len() == packet_size(p[0], r.crc),
    ensures
        r.fed(p.skip(i), now) == (ReceiverState { buf: Seq::empty(), ..r }).got_packet(p, now),
    decreases p.len() - i,
{
    let rest = p.skip(i);
    let b = p[i];
    assert(rest[0] == b);
    assert(rest.skip(1) =~= p.skip(i + 1));
    assert(p.take(i).push(b) =~= p.take(i + 1));
    assert(p.take(i + 1)[0] == p[0]);
    let (s, out) = r.took(b, now);
    let done = (ReceiverState { buf: Seq::empty(), ..r }).got_packet(p, now);
    if i + 1 == p.len() {
        assert(p.take(i + 1) =~= p);
        assert((s, out) == done);
        assert(p.skip(i + 1).len() == 0);
        assert(s.fed(p.skip(i + 1), now) == (s, Seq::<u8>::empty()));
        assert(out + Seq::<u8>::empty() =~= out);
    } else {
        assert(p.take(i + 1).len() != packet_size(p[0], r.crc));
        assert(s == (ReceiverState { buf: p.take(i + 1), ..r }));
        lemma_rest_of_packet(s, p, i + 1, now);
        assert(out =~= Seq::empty());
        assert(out + done.1 =~= done.1);
    }
}

/// A packet that arrives whole is taken as one.
pub proof fn packet_is_taken_whole(r: ReceiverState, p: Seq<u8>, now: nat)
    requires
        r.outcome is Running,
        r.wait is Idle,
        r.buf.len() == 0,
        p.len() == packet_size(p[0], r.crc),
        p[0] == SOH || p[0] == STX,
    ensures
        r.fed(p, now) == (ReceiverState { cans: 0, ..r }).got_packet(p, now),
{
    let (s, out) = r.took(p[0], now);
    assert(s.buf =~= p.take(1));
    lemma_rest_of_packet(s, p, 1, now);
    let t = ReceiverState { buf: Seq::empty(), ..s };
    assert(t =~= (ReceiverState { cans: 0, ..r }));
    assert(out + t.got_packet(p, now).1 =~= t.got_packet(p, now).1);
}

/// Whether `r`, on the way to `a` by a block with this body and these bytes sent, accepts the
/// block once its file work has succeeded: it is acknowledged by one ACK, the next number is
/// expected, and the count of bad packets in a row starts again. With YMODEM its bytes are
/// written, as far as they belong to the file; with XMODEM, where a first block creates the file,
/// those of the block before it are, and it is held back itself.
pub open spec fn accepts_block(
    r: ReceiverState,
    a: ReceiverState,
    first: Seq<u8>,
    body: Seq<u8>,
    now: nat,
) -> bool {
    let size = body.len();
    let ymodem = r.protocol == Protocol::Ymodem;
    let creates = !ymodem && !r.file_open;
    let (w, second) = if creates {
        a.resumed(ReplyState::Created(Ok(())), now)
    } else {
        (a, Seq::empty())
    };
    let (e, third) = w.resumed(ReplyState::Written(Ok(())), now);
    let bytes = if ymodem {
        body.take(r.wanted(size) as int)
    } else {
        r.held
    };
    &&& creates ==> a.request() == Some(RequestState::Create(TargetState::Dest))
    &&& w.request() == Some(RequestState::Write(bytes))
    &&& first + second + third == seq![ACK]
    &&& e.expect == (r.expect + 1) % 256
    &&& e.errors == 0
    &&& e.progress.errors == r.progress.errors
    &&& e.progress.bytes == r.progress.bytes + (if ymodem {
        r.wanted(size)
    } else {
        size
    })
    &&& e.held == (if ymodem {
        r.held
    } else {
        body
    })
    &&& e.deadline == now + ACK_TIMEOUT
    &&& e.outcome is Running
    &&& e.phase == RecvPhase::Data
    &&& e.wait is Idle
    &&& e.buf == r.buf
}

/// A complete packet with the next block of a file is accepted.
#[verifier::spinoff_prover]
pub proof fn packet_with_next_block_is_accepted(
    r: ReceiverState,
    payload: Seq<u8>,
    size: nat,
    now: nat,
)
    requires
        r.outcome is Running,
        r.phase == RecvPhase::Data,
        r.wait is Idle,
        r.backlog.len() == 0,
        size == 128 || size == 1024,
    ensures
        ({
            let body = padded(payload, size, SUB);
            let (a, first) = r.got_packet(framed(r.expect, body, r.crc), now);
            accepts_block(r, a, first, body, now)
        }),
{
    let body = padded(payload, size, SUB);
    assert(body.len() == size);
    let p = framed(r.expect, body, r.crc);
    framed_is_intact(r.expect, body, r.crc);
    let a = r.got_packet(p, now).0;
    assert(r.got_packet(p, now).1 =~= Seq::empty());
    let creates = r.protocol != Protocol::Ymodem && !r.file_open;
    let w = if creates {
        lemma_nothing_waited(a, ReplyState::Created(Ok(())), now);
        a.resumed(ReplyState::Created(Ok(())), now).0
    } else {
        a
    };
    lemma_nothing_waited(w, ReplyState::Written(Ok(())), now);
    assert(w.wait is WriteBlock);
}

/// The next block of a file is accepted when it comes in whole.
pub proof fn next_block_is_accepted(r: ReceiverState, payload: Seq<u8>, size: nat, now: nat)
    requires
        r.outcome is Running,
        r.phase == RecvPhase::Data,
        r.wait is Idle,
        r.buf.len() == 0,
        r.backlog.len() == 0,
        size == 128 || size == 1024,
    ensures
        ({
            let body = padded(payload, size, SUB);
            let (a, first) = r.fed(framed(r.expect, body, r.crc), now);
            accepts_block(r, a, first, body, now)
        }),
{
    let body = padded(payload, size, SUB);
    assert(body.len() == size);
    framed_is_intact(r.expect, body, r.crc);
    packet_is_taken_whole(r, framed(r.expect, body, r.crc), now);
    packet_with_next_block_is_accepted(ReceiverState { cans: 0, ..r }, payload, size, now);
}

impl ReceiverState {
    /// The receiver after it was told that `n` paths are taken: `root`, then `root` with numbers.
    pub open spec fn told_taken(self, root: Seq<char>, n: nat, now: nat) -> ReceiverState
        decreases n,
    {
        if n == 0 {
            self
        } else {
            let m = (n - 1) as nat;
            let shown = numbered(root, m);
            self.told_taken(root, m, now).resumed(
                ReplyState::Probed { exists: true, shown },
                now,
            ).0
        }
    }
}

proof fn lemma_told_taken(r: ReceiverState, name: Seq<char>, root: Seq<char>, n: nat, now: nat)
    requires
        r.backlog.len() == 0,
        r.wait == (WaitState::Probe { name, root: Seq::empty(), copy: 0 }),
    ensures
        ({
            let known = if n == 0 {
                Seq::empty()
            } else {
                root
            };
            r.told_taken(root, n, now) == r.waiting(WaitState::Probe { name, root: known, copy: n })
        }),
    decreases n,
{
    if n > 0 {
        let m = (n - 1) as nat;
        lemma_told_taken(r, name, root, m, now);
        let reply = ReplyState::Probed { exists: true, shown: numbered(root, m) };
        lemma_nothing_waited(r.told_taken(root, m, now), reply, now);
    }
}

/// A block 0 makes the receiver look for a free path under the announced name, `root`, then
/// `root` with numbers. It creates the file at the first path that is free, number `k`, and is
/// then ready for its block 1: it shows the file's name and length, has received nothing of it,
/// and has answered by ACK and `C`.
#[verifier::spinoff_prover]
pub proof fn block_zero_opens_file(
    r: ReceiverState,
    name: Seq<char>,
    size: u64,
    mtime: u64,
    root: Seq<char>,
    k: nat,
    now: nat,
)
    requires
        r.outcome is Running,
        r.backlog.len() == 0,
        vstd::utf8::encode_utf8(name).len() > 0,
        forall|i: int|
            0 <= i < vstd::utf8::encode_utf8(name).len() ==> vstd::utf8::encode_utf8(name)[i] != 0,
        header_text(vstd::utf8::encode_utf8(name), size as nat, mtime as nat).len() <= 1024,
    ensures
        ({
            let text = header_text(vstd::utf8::encode_utf8(name), size as nat, mtime as nat);
            let (a, first) = r.got_header(padded(text, header_size(text), 0));
            let b = a.told_taken(root, k, now);
            let free = ReplyState::Probed { exists: false, shown: numbered(root, k) };
            let (c, second) = b.resumed(free, now);
            let (e, third) = c.resumed(ReplyState::Created(Ok(())), now);
            let at = target(safe(name), root, k);
            &&& b.request() == Some(RequestState::Probe(at))
            &&& c.request() == Some(RequestState::Create(at))
            &&& first + second + third == seq![ACK, CRC_REQ]
            &&& e.size == Some(size)
            &&& e.progress == r.progress.opened(numbered(safe(name), k), Some(size))
            &&& e.progress.total == Some(size)
            &&& e.progress.bytes == 0
            &&& e.path == Some(numbered(root, k))
            &&& e.file_open
            &&& e.phase == RecvPhase::Data
            &&& e.expect == 1
            &&& e.errors == 0
            &&& e.deadline == now + ACK_TIMEOUT
            &&& e.outcome is Running
            &&& e.wait is Idle
        }),
{
    let raw = vstd::utf8::encode_utf8(name);
    let text = header_text(raw, size as nat, mtime as nat);
    let body = padded(text, header_size(text), 0);
    header_is_read_back(raw, size, mtime as nat);
    decode_name_inverts_utf8(name);
    let (a, first) = r.got_header(body);
    lemma_told_taken(a, safe(name), root, k, now);
    let b = a.told_taken(root, k, now);
    let free = ReplyState::Probed { exists: false, shown: numbered(root, k) };
    lemma_nothing_waited(b, free, now);
    let (c, second) = b.resumed(free, now);
    assert(c.wait == (WaitState::Create { name: safe(name), root, copy: k }));
    lemma_nothing_waited(c, ReplyState::Created(Ok(())), now);
    let third = c.resumed(ReplyState::Created(Ok(())), now).1;
    assert(first + second + third =~= seq![ACK, CRC_REQ]);
}

/// An answer alone counts where no input had to wait for it.
pub proof fn lemma_nothing_waited(r: ReceiverState, reply: ReplyState, now: nat)
    requires
        r.backlog.len() == 0,
        r.fits(reply),
    ensures
        r.resumed(reply, now) == r.answered(reply, now),
        r.answered(reply, now).0.backlog == r.backlog,
{
    let (s, out) = r.answered(reply, now);
    let q = ReceiverState { backlog: Seq::empty(), ..s };
    assert(r.backlog =~= Seq::<u8>::empty());
    assert(s =~= q);
    assert(q.fed(r.backlog, now) == (q, Seq::<u8>::empty()));
    assert(out + Seq::<u8>::empty() =~= out);
}

} // verus!
