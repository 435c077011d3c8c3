//! The sending side of a transfer.

use std::collections::VecDeque;

use vstd::prelude::*;
use vstd::slice::slice_subrange;

use crate::io::{after, LoadedState, Reply, ReplyState, Request, RequestState};
use crate::io::{loaded_state, request_state, ACK_TIMEOUT, MAX_ERRORS, START_TIMEOUT};
use crate::packet::{append, cancel_bytes, make_packet, ymodem_header};
use crate::packet::{ACK, CAN, CRC_REQ, EOT, NAK, SUB};
use crate::packet::{cancel_seq, framed, header_packet, header_text, padded};
use crate::progress::{Outcome, OutcomeState, Progress, ProgressState};
use crate::protocol::Protocol;
use crate::text::{comma_joined, concat, join_commas, texts};

verus! {

/// What is being sent.
#[derive(Clone, Copy, PartialEq, Eq, Debug, Structural)]
pub enum Stage {
    /// YMODEM's block 0.
    Header,
    /// A data block.
    Data,
    /// The end of one file.
    Eot,
    /// YMODEM's empty block 0, which ends the batch.
    BatchEnd,
}

/// What a sender waits for.
#[derive(Clone, Copy, PartialEq, Eq, Debug, Structural)]
pub enum SendPhase {
    /// The receiver's start signal.
    WaitStart(Stage),
    /// The answer to what was sent.
    WaitAck(Stage),
}

/// The model of a sender.
#[verifier::ext_equal]
pub struct SenderState {
    pub protocol: Protocol,
    /// Paths of the files to come.
    pub files: Seq<Seq<char>>,
    /// The file under way, how much of it is acknowledged, and the number of the next block.
    pub data: Seq<u8>,
    pub pos: nat,
    pub blk: u8,
    /// Whether packets carry a CRC.
    pub crc: bool,
    pub phase: SendPhase,
    /// What was sent last, and how many bytes of the file it carries.
    pub last: Seq<u8>,
    pub last_len: nat,
    pub deadline: nat,
    /// Repetitions of the current packet, and CAN bytes in a row.
    pub errors: nat,
    pub cans: nat,
    pub progress: ProgressState,
    pub outcome: OutcomeState,
    pub sent_files: Seq<Seq<char>>,
    pub mtime: u64,
    /// The file that is being read, and the input that waits for it.
    pub loading: Option<Seq<char>>,
    pub backlog: Seq<u8>,
}

impl SenderState {
    /// What holds of every sender.
    pub open spec fn wf(self) -> bool {
        &&& self.pos <= self.data.len()
        &&& self.phase == SendPhase::WaitAck(Stage::Data) ==> self.pos + self.last_len
            <= self.data.len()
        &&& self.outcome is Running ==> self.errors <= MAX_ERRORS && self.cans < 2
    }

    /// Whether `n` more bytes of input can be counted.
    pub open spec fn has_room(self, n: nat) -> bool {
        &&& self.progress.errors + n <= u32::MAX
        &&& self.progress.files_done + n <= u32::MAX
    }

    /// A sender that waits for its first file; without files it has no data to send.
    pub open spec fn start(protocol: Protocol, files: Seq<Seq<char>>, now: nat) -> SenderState {
        SenderState {
            protocol,
            files: if files.len() > 0 {
                files.skip(1)
            } else {
                files
            },
            data: Seq::empty(),
            pos: 0,
            blk: 1,
            crc: true,
            phase: SendPhase::WaitStart(
                if protocol == Protocol::Ymodem {
                    Stage::Header
                } else {
                    Stage::Data
                },
            ),
            last: Seq::empty(),
            last_len: 0,
            deadline: now + START_TIMEOUT as nat,
            errors: 0,
            cans: 0,
            progress: ProgressState::start(),
            outcome: OutcomeState::Running,
            sent_files: Seq::empty(),
            mtime: 0,
            loading: if files.len() > 0 {
                Some(files[0])
            } else {
                None
            },
            backlog: Seq::empty(),
        }
    }

    pub open spec fn failed(self, msg: Seq<char>) -> SenderState {
        SenderState { outcome: OutcomeState::Failed(msg), ..self }
    }

    pub open spec fn done(self, msg: Seq<char>) -> SenderState {
        SenderState { outcome: OutcomeState::Done(msg), ..self }
    }

    /// Waits for the receiver's signal to send `stage`.
    pub open spec fn awaiting(self, stage: Stage, now: nat) -> SenderState {
        SenderState {
            phase: SendPhase::WaitStart(stage),
            deadline: now + START_TIMEOUT as nat,
            ..self
        }
    }

    /// The body size of the next data block: long blocks need CRC mode, a protocol that has
    /// them, and more than a short block's worth of data.
    pub open spec fn block_size(self) -> nat {
        if self.crc && self.protocol != Protocol::Xmodem && self.data.len() - self.pos > 128 {
            1024
        } else {
            128
        }
    }

    /// The file's bytes that the next data block carries.
    pub open spec fn block(self) -> Seq<u8> {
        let end = self.pos + self.block_size();
        self.data.subrange(
            self.pos as int,
            if end <= self.data.len() {
                end as int
            } else {
                self.data.len() as int
            },
        )
    }

    /// What is sent at `stage`.
    pub open spec fn packet(self, stage: Stage) -> Seq<u8> {
        match stage {
            Stage::Header => header_packet(
                header_text(
                    vstd::utf8::encode_utf8(self.progress.file),
                    self.data.len(),
                    self.mtime as nat,
                ),
            ),
            Stage::Data => framed(self.blk, padded(self.block(), self.block_size(), SUB), self.crc),
            Stage::Eot => seq![EOT],
            Stage::BatchEnd => header_packet(Seq::empty()),
        }
    }

    /// The stage that follows from `stage`: a file without further data ends.
    pub open spec fn next_stage(self, stage: Stage) -> Stage {
        if stage == Stage::Data && self.pos >= self.data.len() {
            Stage::Eot
        } else {
            stage
        }
    }

    /// The sender that has just sent `stage`, or the end of the file where no data is left; its
    /// `last` is what went out.
    pub open spec fn sent(self, stage: Stage, now: nat) -> SenderState {
        let stage = self.next_stage(stage);
        SenderState {
            last: self.packet(stage),
            last_len: if stage == Stage::Data {
                self.block().len()
            } else {
                self.last_len
            },
            phase: SendPhase::WaitAck(stage),
            deadline: now + ACK_TIMEOUT as nat,
            ..self
        }
    }

    /// The last packet again, or the end of the transfer where it was repeated too often.
    pub open spec fn repeated(self, msg: Seq<char>, now: nat) -> (SenderState, Seq<u8>) {
        let s = SenderState {
            errors: self.errors + 1,
            progress: self.progress.error(),
            ..self
        };
        if s.errors > MAX_ERRORS {
            (s.failed(msg), cancel_seq())
        } else {
            (SenderState { deadline: now + ACK_TIMEOUT as nat, ..s }, s.last)
        }
    }

    /// What follows when `stage` was acknowledged.
    pub open spec fn acked(self, stage: Stage, now: nat) -> (SenderState, Seq<u8>) {
        match stage {
            Stage::Header => (self.awaiting(Stage::Data, now), Seq::empty()),
            Stage::Data => {
                let pos = self.pos + self.last_len;
                let s = SenderState {
                    pos,
                    blk: ((self.blk + 1) % 256) as u8,
                    progress: ProgressState { bytes: pos, ..self.progress },
                    ..self
                }.sent(Stage::Data, now);
                (s, s.last)
            },
            Stage::Eot => {
                let s = SenderState {
                    progress: self.progress.closed(),
                    sent_files: self.sent_files.push(self.progress.file),
                    ..self
                };
                if self.protocol != Protocol::Ymodem {
                    (s.done(self.progress.file + " を送信しました"@), Seq::empty())
                } else if self.files.len() == 0 {
                    (s.awaiting(Stage::BatchEnd, now), Seq::empty())
                } else {
                    (
                        SenderState {
                            loading: Some(self.files[0]),
                            files: self.files.skip(1),
                            ..s
                        },
                        Seq::empty(),
                    )
                }
            },
            Stage::BatchEnd => (
                self.done(comma_joined(self.sent_files) + " を送信しました"@),
                Seq::empty(),
            ),
        }
    }

    /// What one byte from the receiver does, and what is sent for it.
    pub open spec fn took(self, b: u8, now: nat) -> (SenderState, Seq<u8>) {
        if b == CAN {
            let s = SenderState { cans: self.cans + 1, ..self };
            if s.cans >= 2 {
                (s.failed("相手が中止しました"@), Seq::empty())
            } else {
                (s, Seq::empty())
            }
        } else {
            let s = SenderState { cans: 0, ..self };
            match self.phase {
                SendPhase::WaitStart(stage) => {
                    if b == CRC_REQ {
                        let t = SenderState { crc: true, ..s }.sent(stage, now);
                        (t, t.last)
                    } else if b == NAK && stage == Stage::Data && self.protocol != Protocol::Ymodem
                        && self.blk == 1 {
                        let t = SenderState { crc: false, ..s }.sent(stage, now);
                        (t, t.last)
                    } else {
                        (s, Seq::empty())
                    }
                },
                SendPhase::WaitAck(stage) => {
                    if b == ACK {
                        SenderState { errors: 0, ..s }.acked(stage, now)
                    } else if b == NAK {
                        s.repeated("再送が多すぎます"@, now)
                    } else {
                        (s, Seq::empty())
                    }
                },
            }
        }
    }

    /// What input from the receiver does, and what is sent for it. Input that comes while a file
    /// is being read waits; input after the end is dropped.
    pub open spec fn fed(self, data: Seq<u8>, now: nat) -> (SenderState, Seq<u8>)
        decreases data.len(),
    {
        if data.len() == 0 || !(self.outcome is Running) {
            (self, Seq::empty())
        } else if self.loading is Some {
            (SenderState { backlog: self.backlog + data, ..self }, Seq::empty())
        } else {
            let (s, out) = self.took(data[0], now);
            let (t, more) = s.fed(data.skip(1), now);
            (t, out + more)
        }
    }

    /// What the end of a reading does, before the input that waited is taken up.
    pub open spec fn loaded(self, r: Result<LoadedState, Seq<char>>, now: nat) -> (
        SenderState,
        Seq<u8>,
    ) {
        let s = SenderState { loading: None, ..self };
        let first = self.phase is WaitStart;
        match r {
            Ok(f) => {
                let t = SenderState {
                    data: f.data,
                    mtime: f.mtime,
                    pos: 0,
                    blk: 1,
                    progress: self.progress.opened(f.name, Some(f.data.len() as u64)),
                    ..s
                };
                if first {
                    (t, Seq::empty())
                } else {
                    (t.awaiting(Stage::Header, now), Seq::empty())
                }
            },
            Err(e) => {
                let msg = "読み込めません: "@ + self.loading->0 + ": "@ + e;
                if first {
                    (s.failed(msg), Seq::empty())
                } else {
                    (s.failed(msg), cancel_seq())
                }
            },
        }
    }

    /// What the answer to the request does, and what is sent for it and for the input that
    /// waited. An answer that does not fit the request is ignored.
    pub open spec fn resumed(self, reply: ReplyState, now: nat) -> (SenderState, Seq<u8>) {
        match (self.loading, reply) {
            (Some(_), ReplyState::Loaded(r)) => {
                let (s, out) = self.loaded(r, now);
                let (t, more) = SenderState { backlog: Seq::empty(), ..s }.fed(self.backlog, now);
                (t, out + more)
            },
            _ => (self, Seq::empty()),
        }
    }

    /// What the passing of time does, and what is sent for it.
    pub open spec fn ticked(self, now: nat) -> (SenderState, Seq<u8>) {
        if now < self.deadline || self.loading is Some {
            (self, Seq::empty())
        } else {
            match self.phase {
                SendPhase::WaitStart(_) => (
                    self.failed("受信側が応答しません"@),
                    cancel_seq(),
                ),
                SendPhase::WaitAck(_) => self.repeated("応答がありません"@, now),
            }
        }
    }

    /// The file work that the sender waits for.
    pub open spec fn request(self) -> Option<RequestState> {
        match self.loading {
            Some(path) => Some(RequestState::Load(path)),
            None => None,
        }
    }
}

/// The sending side of a transfer.
pub struct Sender {
    protocol: Protocol,
    files: VecDeque<String>,
    data: Vec<u8>,
    pos: usize,
    blk: u8,
    crc: bool,
    phase: SendPhase,
    last: Vec<u8>,
    last_len: usize,
    deadline: u128,
    errors: u32,
    cans: u32,
    progress: Progress,
    outcome: Outcome,
    sent_files: Vec<String>,
    mtime: u64,
    loading: Option<String>,
    backlog: Vec<u8>,
}

impl View for Sender {
    type V = SenderState;

    closed spec fn view(&self) -> SenderState {
        SenderState {
            protocol: self.protocol,
            files: texts(self.files@),
            data: self.data@,
            pos: self.pos as nat,
            blk: self.blk,
            crc: self.crc,
            phase: self.phase,
            last: self.last@,
            last_len: self.last_len as nat,
            deadline: self.deadline as nat,
            errors: self.errors as nat,
            cans: self.cans as nat,
            progress: self.progress@,
            outcome: self.outcome@,
            sent_files: texts(self.sent_files@),
            mtime: self.mtime,
            loading: match self.loading {
                Some(s) => Some(s@),
                None => None,
            },
            backlog: self.backlog@,
        }
    }
}

impl Sender {
    /// A sender for these files, which asks for the first of them, if there is one.
    pub fn new(protocol: Protocol, files: Vec<String>, now: u64) -> (r: Sender)
        ensures
            r@ == SenderState::start(protocol, texts(files@), now as nat),
            r@.wf(),
    {
        let mut queue: VecDeque<String> = VecDeque::new();
        let mut first: Option<String> = None;
        let ghost all = texts(files@);
        assert(texts(queue@) =~= Seq::empty());
        if files.len() > 0 {
            first = Some(files[0].clone());
            let mut i: usize = 1;
            assert(texts(queue@) =~= all.subrange(1, 1));
            while i < files.len()
                invariant
                    1 <= i <= files@.len(),
                    all == texts(files@),
                    texts(queue@) == all.subrange(1, i as int),
                decreases files@.len() - i,
            {
                let ghost before = queue@;
                let path = files[i].clone();
                queue.push_back(path);
                assert(texts(queue@) =~= texts(before).push(path@));
                assert(texts(queue@) =~= all.subrange(1, i + 1));
                i = i + 1;
            }
            assert(all.skip(1) =~= all.subrange(1, files@.len() as int));
        }
        let s = Sender {
            protocol,
            files: queue,
            data: Vec::new(),
            pos: 0,
            blk: 1,
            crc: true,
            phase: SendPhase::WaitStart(
                if protocol == Protocol::Ymodem {
                    Stage::Header
                } else {
                    Stage::Data
                },
            ),
            last: Vec::new(),
            last_len: 0,
            deadline: after(now, START_TIMEOUT),
            errors: 0,
            cans: 0,
            progress: Progress::default(),
            outcome: Outcome::Running,
            sent_files: Vec::new(),
            mtime: 0,
            loading: first,
            backlog: Vec::new(),
        };
        assert(s@ =~= SenderState::start(protocol, texts(files@), now as nat));
        s
    }

    /// The progress to show.
    pub fn progress(&self) -> (r: Progress)
        ensures
            r@ == self@.progress,
    {
        self.progress.copy()
    }

    /// How the sending stands.
    pub fn outcome(&self) -> (r: Outcome)
        ensures
            r@ == self@.outcome,
    {
        self.outcome.copy()
    }

    /// Whether `n` more bytes of input, behind those that wait, can be counted.
    pub fn has_room(&self, n: usize) -> (r: bool)
        ensures
            r == self@.has_room(self@.backlog.len() + n as nat),
    {
        let more = self.backlog.len() as u128 + n as u128;
        self.progress.errors as u128 + more <= u32::MAX as u128
            && self.progress.files_done as u128 + more <= u32::MAX as u128
    }

    /// The file work that the sender waits for.
    pub fn request(&self) -> (r: Option<Request>)
        ensures
            request_state(r) == self@.request(),
    {
        match &self.loading {
            Some(path) => Some(Request::Load(path.clone())),
            None => None,
        }
    }

    /// Ends the sending with an error, and tells the receiver.
    fn fail(&mut self, msg: String, out: &mut Vec<u8>)
        ensures
            final(self)@ == old(self)@.failed(msg@),
            final(out)@ == old(out)@ + cancel_seq(),
    {
        append(out, cancel_bytes().as_slice());
        self.outcome = Outcome::Failed(msg);
    }

    /// Sends `packet`, and waits for the answer.
    fn transmit(&mut self, packet: Vec<u8>, stage: Stage, now: u64, out: &mut Vec<u8>)
        ensures
            final(self)@ == (SenderState {
                last: packet@,
                phase: SendPhase::WaitAck(stage),
                deadline: now as nat + ACK_TIMEOUT as nat,
                ..old(self)@
            }),
            final(out)@ == old(out)@ + packet@,
    {
        append(out, packet.as_slice());
        self.last = packet;
        self.phase = SendPhase::WaitAck(stage);
        self.deadline = after(now, ACK_TIMEOUT);
    }

    /// Sends `stage`, or the end of the file where no data is left.
    fn send_stage(&mut self, stage: Stage, now: u64, out: &mut Vec<u8>)
        requires
            old(self)@.wf(),
        ensures
            final(self)@ == old(self)@.sent(stage, now as nat),
            final(self)@.wf(),
            final(out)@ == old(out)@ + final(self)@.last,
    {
        match stage {
            Stage::Header => {
                let packet = ymodem_header(
                    Some((self.progress.file.as_str(), self.data.len() as u64, self.mtime)),
                );
                self.transmit(packet, stage, now, out);
            },
            Stage::BatchEnd => {
                self.transmit(ymodem_header(None), stage, now, out);
            },
            Stage::Eot => {
                let packet = vec![EOT];
                assert(packet@ =~= seq![EOT]);
                self.transmit(packet, stage, now, out);
            },
            Stage::Data => {
                if self.pos >= self.data.len() {
                    let packet = vec![EOT];
                    assert(packet@ =~= seq![EOT]);
                    self.transmit(packet, Stage::Eot, now, out);
                    return;
                }
                let rest = self.data.len() - self.pos;
                let use_1k = self.crc && self.protocol != Protocol::Xmodem && rest > 128;
                let size: usize = if use_1k { 1024 } else { 128 };
                let len: usize = if rest < size { rest } else { size };
                let block = slice_subrange(self.data.as_slice(), self.pos, self.pos + len);
                let packet = make_packet(self.blk, block, size, self.crc);
                self.last_len = len;
                self.transmit(packet, stage, now, out);
            },
        }
    }

    /// Sends the last packet again, or gives up.
    fn repeat(&mut self, msg: &str, now: u64, out: &mut Vec<u8>)
        requires
            old(self)@.wf(),
            old(self)@.outcome is Running,
            old(self)@.has_room(1),
        ensures
            final(self)@ == old(self)@.repeated(msg@, now as nat).0,
            final(out)@ == old(out)@ + old(self)@.repeated(msg@, now as nat).1,
            final(self)@.wf(),
    {
        self.errors = self.errors + 1;
        self.progress.errors = self.progress.errors + 1;
        if self.errors > MAX_ERRORS {
            self.fail(msg.to_owned(), out);
        } else {
            append(out, self.last.as_slice());
            self.deadline = after(now, ACK_TIMEOUT);
        }
    }

    /// Goes on after `stage` was acknowledged.
    fn on_ack(&mut self, stage: Stage, now: u64, out: &mut Vec<u8>)
        requires
            old(self)@.wf(),
            old(self)@.phase == SendPhase::WaitAck(stage),
            old(self)@.outcome is Running,
            old(self)@.has_room(1),
        ensures
            final(self)@ == old(self)@.acked(stage, now as nat).0,
            final(out)@ == old(out)@ + old(self)@.acked(stage, now as nat).1,
            final(self)@.wf(),
    {
        match stage {
            Stage::Header => {
                self.phase = SendPhase::WaitStart(Stage::Data);
                self.deadline = after(now, START_TIMEOUT);
            },
            Stage::Data => {
                assert(self.data@.len() == self.data.len());
                self.pos = self.pos + self.last_len;
                self.phase = SendPhase::WaitStart(Stage::Data);
                self.blk = self.blk.wrapping_add(1);
                self.progress.bytes = self.pos as u64;
                self.send_stage(Stage::Data, now, out);
            },
            Stage::Eot => {
                self.progress.files_done = self.progress.files_done + 1;
                let ghost sent = texts(self.sent_files@);
                self.sent_files.push(self.progress.file.clone());
                assert(texts(self.sent_files@) =~= sent.push(self.progress.file@));
                if self.protocol != Protocol::Ymodem {
                    self.outcome = Outcome::Done(
                        concat(self.progress.file.as_str(), " を送信しました"),
                    );
                    return;
                }
                let ghost files = texts(self.files@);
                match self.files.pop_front() {
                    Some(path) => {
                        assert(texts(self.files@) =~= files.skip(1));
                        self.loading = Some(path);
                    },
                    None => {
                        self.phase = SendPhase::WaitStart(Stage::BatchEnd);
                        self.deadline = after(now, START_TIMEOUT);
                    },
                }
            },
            Stage::BatchEnd => {
                let names = join_commas(&self.sent_files);
                self.outcome = Outcome::Done(concat(names.as_str(), " を送信しました"));
            },
        }
        assert(out@ =~= old(out)@ + old(self)@.acked(stage, now as nat).1);
    }

    /// Takes one byte from the receiver.
    fn take(&mut self, b: u8, now: u64, out: &mut Vec<u8>)
        requires
            old(self)@.wf(),
            old(self)@.outcome is Running,
            old(self)@.has_room(1),
        ensures
            final(self)@ == old(self)@.took(b, now as nat).0,
            final(out)@ == old(out)@ + old(self)@.took(b, now as nat).1,
            final(self)@.wf(),
    {
        if b == CAN {
            self.cans = self.cans + 1;
            if self.cans >= 2 {
                self.outcome = Outcome::Failed("相手が中止しました".to_owned());
            }
            assert(out@ =~= old(out)@ + Seq::<u8>::empty());
            return;
        }
        self.cans = 0;
        match self.phase {
            SendPhase::WaitStart(stage) => {
                if b == CRC_REQ {
                    self.crc = true;
                    self.send_stage(stage, now, out);
                } else if b == NAK && stage == Stage::Data && self.protocol != Protocol::Ymodem
                    && self.blk == 1 {
                    self.crc = false;
                    self.send_stage(stage, now, out);
                } else {
                    assert(out@ =~= old(out)@ + Seq::<u8>::empty());
                }
            },
            SendPhase::WaitAck(stage) => {
                if b == ACK {
                    self.errors = 0;
                    self.on_ack(stage, now, out);
                } else if b == NAK {
                    self.repeat("再送が多すぎます", now, out);
                } else {
                    assert(out@ =~= old(out)@ + Seq::<u8>::empty());
                }
            },
        }
    }

    /// Takes input from the receiver, and appends what is sent for it to `out`.
    pub fn input(&mut self, data: &[u8], now: u64, out: &mut Vec<u8>)
        requires
            old(self)@.wf(),
            old(self)@.has_room(data@.len()),
        ensures
            final(self)@ == old(self)@.fed(data@, now as nat).0,
            final(out)@ == old(out)@ + old(self)@.fed(data@, now as nat).1,
            final(self)@.wf(),
    {
        let ghost goal = self@.fed(data@, now as nat);
        let mut i: usize = 0;
        assert(data@.skip(0) =~= data@);
        while i < data.len() && self.outcome.is_running() && self.loading.is_none()
            invariant
                i <= data@.len(),
                self@.wf(),
                self@.has_room((data@.len() - i) as nat),
                goal.0 == self@.fed(data@.skip(i as int), now as nat).0,
                old(out)@ + goal.1 == out@ + self@.fed(data@.skip(i as int), now as nat).1,
            decreases data@.len() - i,
        {
            assert(data@.skip(i as int).skip(1) =~= data@.skip(i + 1));
            let ghost before = self@;
            let ghost sent = out@;
            self.take(data[i], now, out);
            proof {
                before.lemma_took_counts(data@[i as int], now as nat);
                let step = before.took(data@[i as int], now as nat).1;
                let rest = self@.fed(data@.skip(i + 1), now as nat).1;
                assert(sent + (step + rest) =~= sent + step + rest);
            }
            i = i + 1;
        }
        if i < data.len() && self.outcome.is_running() {
            let rest = slice_subrange(data, i, data.len());
            assert(rest@ =~= data@.skip(i as int));
            append(&mut self.backlog, rest);
        }
        assert(out@ + Seq::<u8>::empty() =~= out@);
    }

    /// Takes the answer to the request, goes on with the input that waited, and appends what is
    /// sent to `out`.
    pub fn resume(&mut self, reply: Reply, now: u64, out: &mut Vec<u8>)
        requires
            old(self)@.wf(),
            old(self)@.has_room(old(self)@.backlog.len()),
        ensures
            final(self)@ == old(self)@.resumed(reply@, now as nat).0,
            final(out)@ == old(out)@ + old(self)@.resumed(reply@, now as nat).1,
            final(self)@.wf(),
    {
        let Reply::Loaded(result) = reply else {
            assert(out@ =~= old(out)@ + Seq::<u8>::empty());
            return;
        };
        let Some(path) = self.loading.take() else {
            assert(out@ =~= old(out)@ + Seq::<u8>::empty());
            return;
        };
        let ghost r = loaded_state(result);
        let ghost start = old(self)@;
        match result {
            Ok(f) => {
                assert(f.data@.len() == f.data.len());
                self.progress.file = f.name;
                self.progress.bytes = 0;
                self.progress.total = Some(f.data.len() as u64);
                self.data = f.data;
                self.mtime = f.mtime;
                self.pos = 0;
                self.blk = 1;
                if let SendPhase::WaitAck(_) = self.phase {
                    self.phase = SendPhase::WaitStart(Stage::Header);
                    self.deadline = after(now, START_TIMEOUT);
                }
                assert(out@ =~= old(out)@ + start.loaded(r, now as nat).1);
            },
            Err(e) => {
                let msg = concat("読み込めません: ", path.as_str());
                let msg = concat(msg.as_str(), ": ");
                let msg = concat(msg.as_str(), e.as_str());
                match self.phase {
                    SendPhase::WaitStart(_) => {
                        self.outcome = Outcome::Failed(msg);
                    },
                    SendPhase::WaitAck(_) => {
                        self.fail(msg, out);
                    },
                }
                assert(out@ =~= old(out)@ + start.loaded(r, now as nat).1);
            },
        }
        assert(self@ =~= start.loaded(r, now as nat).0);
        let ghost sent = out@;
        let mut waiting: Vec<u8> = Vec::new();
        std::mem::swap(&mut waiting, &mut self.backlog);
        self.input(waiting.as_slice(), now, out);
        proof {
            let s = SenderState { backlog: Seq::empty(), ..start.loaded(r, now as nat).0 };
            let more = s.fed(start.backlog, now as nat).1;
            assert(old(out)@ + start.loaded(r, now as nat).1 + more =~= old(out)@ + (start.loaded(
                r,
                now as nat,
            ).1 + more));
        }
    }

    /// Lets time pass, and appends what is sent for it to `out`.
    pub fn tick(&mut self, now: u64, out: &mut Vec<u8>)
        requires
            old(self)@.wf(),
            old(self)@.outcome is Running,
            old(self)@.has_room(1),
        ensures
            final(self)@ == old(self)@.ticked(now as nat).0,
            final(out)@ == old(out)@ + old(self)@.ticked(now as nat).1,
            final(self)@.wf(),
    {
        if (now as u128) < self.deadline || self.loading.is_some() {
            assert(out@ =~= old(out)@ + Seq::<u8>::empty());
            return;
        }
        match self.phase {
            SendPhase::WaitStart(_) => {
                self.fail("受信側が応答しません".to_owned(), out);
            },
            SendPhase::WaitAck(_) => {
                self.repeat("応答がありません", now, out);
            },
        }
    }
}

impl SenderState {
    /// One byte is counted at most once, and no byte undoes a well-formed state.
    pub proof fn lemma_took_counts(self, b: u8, now: nat)
        ensures
            self.took(b, now).0.progress.errors <= self.progress.errors + 1,
            self.took(b, now).0.progress.files_done <= self.progress.files_done + 1,
            self.took(b, now).0.backlog == self.backlog,
    {
    }

    /// Where `m` bytes can be counted behind some input, they can be counted after it.
    pub proof fn lemma_fed_keeps_room(self, data: Seq<u8>, m: nat, now: nat)
        requires
            self.has_room(self.backlog.len() + data.len() + m),
        ensures
            self.fed(data, now).0.has_room(self.fed(data, now).0.backlog.len() + m),
        decreases data.len(),
    {
        if data.len() > 0 && self.outcome is Running && !(self.loading is Some) {
            self.lemma_took_counts(data[0], now);
            self.took(data[0], now).0.lemma_fed_keeps_room(data.skip(1), m, now);
        }
    }

    /// It does not matter in what pieces input comes.
    pub proof fn lemma_fed_in_pieces(self, a: Seq<u8>, b: Seq<u8>, now: nat)
        ensures
            self.fed(a + b, now) == ({
                let (t, first) = self.fed(a, now);
                let (u, second) = t.fed(b, now);
                (u, first + second)
            }),
        decreases a.len(),
    {
        let (t, first) = self.fed(a, now);
        let (u, second) = t.fed(b, now);
        if a.len() == 0 {
            assert(a + b =~= b);
            assert(first + second =~= second);
        } else if !(self.outcome is Running) {
            assert(first + second =~= Seq::empty());
        } else if self.loading is Some {
            assert(self.backlog + (a + b) =~= self.backlog + a + b);
            assert(first + second =~= Seq::empty());
            if b.len() == 0 {
                assert(a + b =~= a);
            }
        } else {
            let (s, out) = self.took(a[0], now);
            assert((a + b).skip(1) =~= a.skip(1) + b);
            s.lemma_fed_in_pieces(a.skip(1), b, now);
            let (v, rest) = s.fed(a.skip(1), now);
            assert(out + (rest + second) =~= out + rest + second);
        }
    }

    /// Input that comes while a file is read is taken up afterwards, as if it had come then.
    pub proof fn lemma_waiting_input_is_kept(self, data: Seq<u8>, reply: ReplyState, now: nat)
        requires
            self.outcome is Running,
            self.loading is Some,
            reply is Loaded,
        ensures
            self.fed(data, now).0.resumed(reply, now) == ({
                let (t, first) = self.resumed(reply, now);
                let (u, second) = t.fed(data, now);
                (u, first + second)
            }),
    {
        let w = self.fed(data, now).0;
        let r = reply->Loaded_0;
        let (s, out) = self.loaded(r, now);
        let (x, more) = w.loaded(r, now);
        if data.len() == 0 {
            assert(self.backlog + data =~= self.backlog);
        }
        assert(w =~= (SenderState { backlog: self.backlog + data, ..self }));
        let clear = SenderState { backlog: Seq::empty(), ..s };
        assert((SenderState { backlog: Seq::empty(), ..x }) =~= clear);
        assert(more == out);
        clear.lemma_fed_in_pieces(self.backlog, data, now);
        let (v, first) = clear.fed(self.backlog, now);
        let (u, second) = v.fed(data, now);
        assert(out + (first + second) =~= out + first + second);
    }
}

} // verus!
