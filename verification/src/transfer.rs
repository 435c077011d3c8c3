//! A file transfer, cut off from the serial line, the clock and the files.
//!
//! What the line received goes to `input`, the time to `tick`, and both return what the line has
//! to send. File work is done by the caller: `request` says what the transfer waits for, and
//! `resume` takes the answer.

use vstd::prelude::*;

use crate::io::{request_state, Reply, ReplyState, Request, RequestState};
use crate::packet::{cancel_bytes, cancel_seq, CRC_REQ};
use crate::progress::{Outcome, OutcomeState, Progress, ProgressState};
use crate::protocol::{Direction, Protocol};
use crate::receiver::{Receiver, ReceiverState};
use crate::sender::{Sender, SenderState};
use crate::text::{concat, texts};

verus! {

/// A file to be sent.
#[derive(Debug)]
pub struct Source {
    /// Its path as it is shown.
    pub path: String,
    /// Whether there is such a file.
    pub is_file: bool,
}

/// Where received files go.
#[derive(Debug)]
pub struct Destination {
    /// The path as it is shown.
    pub path: String,
    /// Its last component.
    pub name: String,
    /// Whether there is such a directory.
    pub is_dir: bool,
}

/// The model of either side.
pub enum SideState {
    Send(SenderState),
    Recv(ReceiverState),
}

impl SideState {
    pub open spec fn wf(self) -> bool {
        match self {
            SideState::Send(s) => s.wf(),
            SideState::Recv(r) => r.wf(),
        }
    }

    pub open spec fn progress(self) -> ProgressState {
        match self {
            SideState::Send(s) => s.progress,
            SideState::Recv(r) => r.progress,
        }
    }

    pub open spec fn outcome(self) -> OutcomeState {
        match self {
            SideState::Send(s) => s.outcome,
            SideState::Recv(r) => r.outcome,
        }
    }

    pub open spec fn backlog(self) -> Seq<u8> {
        match self {
            SideState::Send(s) => s.backlog,
            SideState::Recv(r) => r.backlog,
        }
    }

    pub open spec fn request(self) -> Option<RequestState> {
        match self {
            SideState::Send(s) => s.request(),
            SideState::Recv(r) => r.request(),
        }
    }

    /// Whether `n` more bytes of input, or answers to requests, can be counted.
    pub open spec fn has_room(self, n: nat) -> bool {
        match self {
            SideState::Send(s) => s.has_room(s.backlog.len() + n),
            SideState::Recv(r) => r.has_room(r.backlog.len() + n),
        }
    }

    pub open spec fn fed(self, data: Seq<u8>, now: nat) -> (SideState, Seq<u8>) {
        match self {
            SideState::Send(s) => (SideState::Send(s.fed(data, now).0), s.fed(data, now).1),
            SideState::Recv(r) => (SideState::Recv(r.fed(data, now).0), r.fed(data, now).1),
        }
    }

    pub open spec fn ticked(self, now: nat) -> (SideState, Seq<u8>) {
        match self {
            SideState::Send(s) => (SideState::Send(s.ticked(now).0), s.ticked(now).1),
            SideState::Recv(r) => (SideState::Recv(r.ticked(now).0), r.ticked(now).1),
        }
    }

    pub open spec fn resumed(self, reply: ReplyState, now: nat) -> (SideState, Seq<u8>) {
        match self {
            SideState::Send(s) => (
                SideState::Send(s.resumed(reply, now).0),
                s.resumed(reply, now).1,
            ),
            SideState::Recv(r) => (
                SideState::Recv(r.resumed(reply, now).0),
                r.resumed(reply, now).1,
            ),
        }
    }
}

/// The model of a transfer.
pub struct TransferState {
    pub protocol: Protocol,
    pub direction: Direction,
    pub progress: ProgressState,
    pub outcome: OutcomeState,
    pub side: SideState,
}

impl TransferState {
    /// What holds of every transfer: it shows the progress of its side, and runs only while its
    /// side does.
    pub open spec fn wf(self) -> bool {
        &&& self.side.wf()
        &&& self.progress == self.side.progress()
        &&& self.outcome is Running ==> self.side.outcome() is Running
        &&& self.direction == (match self.side {
            SideState::Send(_) => Direction::Send,
            SideState::Recv(_) => Direction::Recv,
        })
    }

    /// Whether the transfer runs only while its side does.
    pub open spec fn in_sync(self) -> bool {
        self.outcome is Running ==> self.side.outcome() is Running
    }

    /// The transfer with this side; it shows the side's progress and, while it runs, the side's
    /// outcome.
    pub open spec fn with_side(self, side: SideState) -> TransferState {
        TransferState {
            progress: side.progress(),
            outcome: if self.outcome is Running {
                side.outcome()
            } else {
                self.outcome
            },
            side,
            ..self
        }
    }

    /// A new transfer with this side.
    pub open spec fn start(protocol: Protocol, direction: Direction, side: SideState) -> TransferState {
        TransferState {
            protocol,
            direction,
            progress: side.progress(),
            outcome: side.outcome(),
            side,
        }
    }

    pub open spec fn fed(self, data: Seq<u8>, now: nat) -> (TransferState, Seq<u8>) {
        if self.outcome is Running {
            (self.with_side(self.side.fed(data, now).0), self.side.fed(data, now).1)
        } else {
            (self, Seq::empty())
        }
    }

    pub open spec fn ticked(self, now: nat) -> (TransferState, Seq<u8>) {
        if self.outcome is Running {
            (self.with_side(self.side.ticked(now).0), self.side.ticked(now).1)
        } else {
            (self, Seq::empty())
        }
    }

    pub open spec fn resumed(self, reply: ReplyState, now: nat) -> (TransferState, Seq<u8>) {
        if self.outcome is Running {
            (self.with_side(self.side.resumed(reply, now).0), self.side.resumed(reply, now).1)
        } else {
            (self, Seq::empty())
        }
    }

    pub open spec fn cancelled(self) -> (TransferState, Seq<u8>) {
        if self.outcome is Running {
            (
                TransferState { outcome: OutcomeState::Failed("中止しました"@), ..self },
                cancel_seq(),
            )
        } else {
            (self, Seq::empty())
        }
    }

    pub open spec fn request(self) -> Option<RequestState> {
        if self.outcome is Running {
            self.side.request()
        } else {
            None
        }
    }
}

/// Either side of a transfer.
pub enum Inner {
    Send(Sender),
    Recv(Receiver),
}

impl View for Inner {
    type V = SideState;

    open spec fn view(&self) -> SideState {
        match self {
            Inner::Send(s) => SideState::Send(s@),
            Inner::Recv(r) => SideState::Recv(r@),
        }
    }
}

/// A file transfer.
pub struct Transfer {
    pub protocol: Protocol,
    pub direction: Direction,
    pub progress: Progress,
    pub outcome: Outcome,
    pub inner: Inner,
}

impl View for Transfer {
    type V = TransferState;

    open spec fn view(&self) -> TransferState {
        TransferState {
            protocol: self.protocol,
            direction: self.direction,
            progress: self.progress@,
            outcome: self.outcome@,
            side: self.inner@,
        }
    }
}

/// The paths of the files.
pub open spec fn paths(files: Seq<Source>) -> Seq<Seq<char>> {
    files.map_values(|f: Source| f.path@)
}

/// Why these files cannot be sent, if they cannot: none, more than the protocol takes, or one
/// that is not there.
pub open spec fn send_refusal(protocol: Protocol, files: Seq<Source>) -> Option<Seq<char>> {
    if files.len() == 0 {
        Some("送信するファイルを指定してください"@)
    } else if protocol != Protocol::Ymodem && files.len() > 1 {
        Some(protocol.name() + " は 1 ファイルずつしか送れません"@)
    } else {
        missing(files)
    }
}

/// The complaint about the first file that is not there.
pub open spec fn missing(files: Seq<Source>) -> Option<Seq<char>>
    decreases files.len(),
{
    if files.len() == 0 {
        None
    } else if !files[0].is_file {
        Some("ファイルがありません: "@ + files[0].path@)
    } else {
        missing(files.skip(1))
    }
}

/// Why nothing can be received there, if it cannot: YMODEM needs a directory, XMODEM a file.
pub open spec fn recv_refusal(protocol: Protocol, dest: Destination) -> Option<Seq<char>> {
    if protocol == Protocol::Ymodem {
        if dest.is_dir {
            None
        } else {
            Some("保存先ディレクトリがありません: "@ + dest.path@)
        }
    } else {
        if dest.is_dir {
            Some("XMODEM は保存するファイル名を指定してください: "@ + dest.path@)
        } else {
            None
        }
    }
}

impl Transfer {
    /// A transfer that sends these files, and waits for the first of them; or the reason why
    /// they cannot be sent.
    pub fn send(protocol: Protocol, files: Vec<Source>, now: u64) -> (r: Result<Self, String>)
        ensures
            match r {
                Ok(t) => {
                    &&& send_refusal(protocol, files@) is None
                    &&& t@ == TransferState::start(
                        protocol,
                        Direction::Send,
                        SideState::Send(
                            SenderState::start(protocol, paths(files@), now as nat),
                        ),
                    )
                    &&& t@.wf()
                },
                Err(e) => send_refusal(protocol, files@) == Some(e@),
            },
    {
        if files.len() == 0 {
            return Err("送信するファイルを指定してください".to_owned());
        }
        if protocol != Protocol::Ymodem && files.len() > 1 {
            return Err(concat(protocol.label(), " は 1 ファイルずつしか送れません"));
        }
        let mut list: Vec<String> = Vec::new();
        let mut i: usize = 0;
        assert(files@.skip(0) =~= files@);
        while i < files.len()
            invariant
                i <= files@.len(),
                texts(list@) == paths(files@).take(i as int),
                missing(files@) == missing(files@.skip(i as int)),
                send_refusal(protocol, files@) == missing(files@),
            decreases files@.len() - i,
        {
            if !files[i].is_file {
                return Err(concat("ファイルがありません: ", files[i].path.as_str()));
            }
            let ghost before = list@;
            let path = files[i].path.clone();
            list.push(path);
            assert(texts(list@) =~= texts(before).push(path@));
            assert(texts(list@) =~= paths(files@).take(i + 1));
            assert(files@.skip(i as int).skip(1) =~= files@.skip(i + 1));
            i = i + 1;
        }
        assert(paths(files@).take(i as int) =~= paths(files@));
        let sender = Sender::new(protocol, list, now);
        Ok(
            Transfer {
                protocol,
                direction: Direction::Send,
                progress: sender.progress(),
                outcome: sender.outcome(),
                inner: Inner::Send(sender),
            },
        )
    }

    /// A transfer that receives into `dest`, a file for XMODEM and a directory for YMODEM, and
    /// the start signal to send; or the reason why nothing can be received there.
    pub fn recv(protocol: Protocol, dest: Destination, now: u64) -> (r: Result<
        (Self, Vec<u8>),
        String,
    >)
        ensures
            match r {
                Ok((t, out)) => {
                    &&& recv_refusal(protocol, dest) is None
                    &&& t@ == TransferState::start(
                        protocol,
                        Direction::Recv,
                        SideState::Recv(
                            ReceiverState::start(protocol, dest.path@, dest.name@, now as nat),
                        ),
                    )
                    &&& t@.wf()
                    &&& out@ == seq![CRC_REQ]
                },
                Err(e) => recv_refusal(protocol, dest) == Some(e@),
            },
    {
        match protocol {
            Protocol::Ymodem => {
                if !dest.is_dir {
                    return Err(
                        concat("保存先ディレクトリがありません: ", dest.path.as_str()),
                    );
                }
            },
            _ => {
                if dest.is_dir {
                    return Err(
                        concat(
                            "XMODEM は保存するファイル名を指定してください: ",
                            dest.path.as_str(),
                        ),
                    );
                }
            },
        }
        let (receiver, out) = Receiver::new(protocol, dest.path, dest.name, now);
        Ok(
            (
                Transfer {
                    protocol,
                    direction: Direction::Recv,
                    progress: receiver.progress(),
                    outcome: receiver.outcome(),
                    inner: Inner::Recv(receiver),
                },
                out,
            ),
        )
    }

    /// Whether the transfer still runs.
    pub fn is_running(&self) -> (r: bool)
        ensures
            r == (self@.outcome is Running),
    {
        self.outcome.is_running()
    }

    /// Whether `n` more bytes of input, or answers to requests, can be counted.
    pub fn has_room(&self, n: usize) -> (r: bool)
        ensures
            r == self@.side.has_room(n as nat),
    {
        match &self.inner {
            Inner::Send(s) => s.has_room(n),
            Inner::Recv(r) => r.has_room(n),
        }
    }

    /// Takes what the line received, and returns what it has to send.
    pub fn input(&mut self, data: &[u8], now: u64) -> (out: Vec<u8>)
        requires
            old(self)@.wf(),
            old(self)@.outcome is Running ==> old(self)@.side.has_room(data@.len()),
        ensures
            final(self)@ == old(self)@.fed(data@, now as nat).0,
            out@ == old(self)@.fed(data@, now as nat).1,
            final(self)@.wf(),
    {
        let mut out: Vec<u8> = Vec::new();
        if self.is_running() {
            match &mut self.inner {
                Inner::Send(s) => s.input(data, now, &mut out),
                Inner::Recv(r) => r.input(data, now, &mut out),
            }
            self.sync();
            assert(out@ =~= old(self)@.fed(data@, now as nat).1);
        }
        out
    }

    /// Lets time pass, and returns what the line has to send.
    pub fn tick(&mut self, now: u64) -> (out: Vec<u8>)
        requires
            old(self)@.wf(),
            old(self)@.outcome is Running ==> old(self)@.side.has_room(1),
        ensures
            final(self)@ == old(self)@.ticked(now as nat).0,
            out@ == old(self)@.ticked(now as nat).1,
            final(self)@.wf(),
    {
        let mut out: Vec<u8> = Vec::new();
        if self.is_running() {
            match &mut self.inner {
                Inner::Send(s) => s.tick(now, &mut out),
                Inner::Recv(r) => r.tick(now, &mut out),
            }
            self.sync();
            assert(out@ =~= old(self)@.ticked(now as nat).1);
        }
        out
    }

    /// The file work that the transfer waits for.
    pub fn request(&self) -> (r: Option<Request>)
        ensures
            request_state(r) == self@.request(),
    {
        if !self.is_running() {
            return None;
        }
        match &self.inner {
            Inner::Send(s) => s.request(),
            Inner::Recv(r) => r.request(),
        }
    }

    /// Takes the answer to the request, and returns what the line has to send.
    pub fn resume(&mut self, reply: Reply, now: u64) -> (out: Vec<u8>)
        requires
            old(self)@.wf(),
            old(self)@.outcome is Running ==> old(self)@.side.has_room(1),
        ensures
            final(self)@ == old(self)@.resumed(reply@, now as nat).0,
            out@ == old(self)@.resumed(reply@, now as nat).1,
            final(self)@.wf(),
    {
        let mut out: Vec<u8> = Vec::new();
        if self.is_running() {
            match &mut self.inner {
                Inner::Send(s) => s.resume(reply, now, &mut out),
                Inner::Recv(r) => r.resume(reply, now, &mut out),
            }
            self.sync();
            assert(out@ =~= old(self)@.resumed(reply@, now as nat).1);
        }
        out
    }

    /// Whether the file that was created last is still to be written; otherwise it is to be
    /// closed.
    pub fn file_open(&self) -> (r: bool)
        ensures
            r == (self@.side matches SideState::Recv(s) && s.file_open),
    {
        match &self.inner {
            Inner::Send(_) => false,
            Inner::Recv(r) => r.file_open(),
        }
    }

    /// Aborts the transfer at the user's wish, and returns what tells the other side.
    pub fn cancel(&mut self) -> (out: Vec<u8>)
        ensures
            final(self)@ == old(self)@.cancelled().0,
            out@ == old(self)@.cancelled().1,
            old(self)@.wf() ==> final(self)@.wf(),
    {
        if !self.is_running() {
            return Vec::new();
        }
        self.outcome = Outcome::Failed("中止しました".to_owned());
        cancel_bytes()
    }

    /// Shows what the side has come to.
    fn sync(&mut self)
        ensures
            final(self)@ == old(self)@.with_side(old(self)@.side),
    {
        let (progress, outcome) = match &self.inner {
            Inner::Send(s) => (s.progress(), s.outcome()),
            Inner::Recv(r) => (r.progress(), r.outcome()),
        };
        self.progress = progress;
        if self.is_running() {
            self.outcome = outcome;
        }
    }
}

/// It does not matter in what pieces the line hands its input over: the answers are the same, and
/// so is the transfer afterwards. Where all of it can be counted at once, so can each piece.
pub proof fn input_may_come_in_pieces(t: TransferState, a: Seq<u8>, b: Seq<u8>, now: nat)
    requires
        t.in_sync(),
    ensures
        t.side.has_room(a.len() + b.len()) ==> t.side.has_room(a.len()) && t.fed(
            a,
            now,
        ).0.side.has_room(b.len()),
        t.fed(a + b, now) == ({
            let (u, first) = t.fed(a, now);
            let (v, second) = u.fed(b, now);
            (v, first + second)
        }),
{
    let (u, first) = t.fed(a, now);
    let (v, second) = u.fed(b, now);
    match t.side {
        SideState::Send(s) => {
            s.lemma_fed_in_pieces(a, b, now);
            if t.side.has_room(a.len() + b.len()) {
                s.lemma_fed_keeps_room(a, b.len(), now);
            }
        },
        SideState::Recv(r) => {
            r.lemma_fed_in_pieces(a, b, now);
            if t.side.has_room(a.len() + b.len()) {
                r.lemma_fed_keeps_room(a, b.len(), now);
            }
        },
    }
    if !(u.outcome is Running) {
        assert(first + second =~= first);
        if t.outcome is Running {
            assert(t.side.fed(a, now).0.fed(b, now) == (t.side.fed(a, now).0, Seq::<u8>::empty()));
            assert(t.side.fed(a + b, now).1 =~= first);
        }
    }
}

/// Input that comes during file work is not lost: it has the effect that it would have had after
/// the work.
pub proof fn waiting_input_is_kept(t: TransferState, data: Seq<u8>, reply: ReplyState, now: nat)
    requires
        t.in_sync(),
        t.outcome is Running,
        t.side matches SideState::Send(s) ==> s.loading is Some && reply is Loaded,
        t.side matches SideState::Recv(r) ==> r.fits(reply),
    ensures
        t.fed(data, now).1.len() == 0,
        t.fed(data, now).0.resumed(reply, now) == ({
            let (u, first) = t.resumed(reply, now);
            let (v, second) = u.fed(data, now);
            (v, first + second)
        }),
{
    let (u, first) = t.resumed(reply, now);
    let (v, second) = u.fed(data, now);
    match t.side {
        SideState::Send(s) => s.lemma_waiting_input_is_kept(data, reply, now),
        SideState::Recv(r) => r.lemma_waiting_input_is_kept(data, reply, now),
    }
    if !(u.outcome is Running) {
        assert(first + second =~= first);
        let side = t.side.resumed(reply, now).0;
        assert(side.fed(data, now) == (side, Seq::<u8>::empty()));
        assert(t.side.fed(data, now).0.resumed(reply, now).1 =~= first);
    }
}

// ---------------------------------------------------------------- refusals

/// Files are sent where there is at least one, no more than one unless the protocol is YMODEM,
/// and all of them are there. Otherwise the reason is the first of these that fails, and of the
/// files that are not there the first one is named.
pub proof fn files_are_refused_with_a_reason(protocol: Protocol, files: Seq<Source>)
    ensures
        ({
            let r = send_refusal(protocol, files);
            let many = files.len() > 1 && protocol != Protocol::Ymodem;
            &&& r is None <==> files.len() > 0 && !many && (forall|i: int|
                0 <= i < files.len() ==> (#[trigger] files[i]).is_file)
            &&& files.len() == 0 ==> r == Some("送信するファイルを指定してください"@)
            &&& many && protocol == Protocol::Xmodem ==> r == Some(
                "XMODEM"@ + " は 1 ファイルずつしか送れません"@,
            )
            &&& many && protocol == Protocol::Xmodem1k ==> r == Some(
                "XMODEM-1K"@ + " は 1 ファイルずつしか送れません"@,
            )
            &&& forall|i: int|
                0 <= i < files.len() && !many && !(#[trigger] files[i]).is_file && (forall|j: int|
                    0 <= j < i ==> (#[trigger] files[j]).is_file) ==> r == Some(
                    "ファイルがありません: "@ + files[i].path@,
                )
        }),
{
    lemma_missing(files);
}

proof fn lemma_missing(files: Seq<Source>)
    ensures
        missing(files) is None <==> (forall|i: int|
            0 <= i < files.len() ==> (#[trigger] files[i]).is_file),
        forall|i: int|
            0 <= i < files.len() && !(#[trigger] files[i]).is_file && (forall|j: int|
                0 <= j < i ==> (#[trigger] files[j]).is_file) ==> missing(files) == Some(
                "ファイルがありません: "@ + files[i].path@,
            ),
    decreases files.len(),
{
    if files.len() > 0 && files[0].is_file {
        let rest = files.skip(1);
        lemma_missing(rest);
        if missing(files) is None {
            assert forall|i: int| 0 <= i < files.len() implies (#[trigger] files[i]).is_file by {
                if i > 0 {
                    assert(rest[i - 1] == files[i]);
                }
            }
        }
        if forall|i: int| 0 <= i < files.len() ==> (#[trigger] files[i]).is_file {
            assert forall|i: int| 0 <= i < rest.len() implies (#[trigger] rest[i]).is_file by {
                assert(rest[i] == files[i + 1]);
            }
        }
        assert forall|i: int|
            0 <= i < files.len() && !(#[trigger] files[i]).is_file && (forall|j: int|
                0 <= j < i ==> (#[trigger] files[j]).is_file) implies missing(files) == Some(
            "ファイルがありません: "@ + files[i].path@,
        ) by {
            assert(rest[i - 1] == files[i]);
            assert forall|j: int| 0 <= j < i - 1 implies (#[trigger] rest[j]).is_file by {
                assert(rest[j] == files[j + 1]);
            }
        }
    } else if files.len() > 0 {
        assert(!files[0].is_file);
        assert forall|i: int|
            0 <= i < files.len() && !(#[trigger] files[i]).is_file && (forall|j: int|
                0 <= j < i ==> (#[trigger] files[j]).is_file) implies i == 0 by {
            if i > 0 {
                assert(files[0].is_file);
            }
        }
    }
}

/// YMODEM receives into a directory that is there, and XMODEM into anything that is none.
pub proof fn destinations_are_refused_with_a_reason(protocol: Protocol, dest: Destination)
    ensures
        recv_refusal(protocol, dest) == if dest.is_dir == (protocol == Protocol::Ymodem) {
            None
        } else if dest.is_dir {
            Some("XMODEM は保存するファイル名を指定してください: "@ + dest.path@)
        } else {
            Some("保存先ディレクトリがありません: "@ + dest.path@)
        },
{
}

/// The files are sent in the order in which they were given.
pub proof fn files_keep_their_order(files: Seq<Source>, i: int)
    requires
        0 <= i < files.len(),
    ensures
        paths(files).len() == files.len(),
        paths(files)[i] == files[i].path@,
{
}

// ---------------------------------------------------------------- what a transfer hands on

/// While it runs, a transfer hands everything on to its side: what came in, the time, and the
/// answers to requests. It shows the side's progress and outcome, and sends what the side does.
pub proof fn running_transfer_hands_on(
    t: TransferState,
    data: Seq<u8>,
    reply: ReplyState,
    now: nat,
)
    requires
        t.outcome is Running,
    ensures
        ({
            let (a, x) = t.fed(data, now);
            let (b, y) = t.ticked(now);
            let (c, z) = t.resumed(reply, now);
            &&& t.side matches SideState::Send(s) ==> {
                &&& a.side == SideState::Send(s.fed(data, now).0) && x == s.fed(data, now).1
                &&& b.side == SideState::Send(s.ticked(now).0) && y == s.ticked(now).1
                &&& c.side == SideState::Send(s.resumed(reply, now).0) && z == s.resumed(
                    reply,
                    now,
                ).1
                &&& (a.progress, a.outcome) == (s.fed(data, now).0.progress, s.fed(
                    data,
                    now,
                ).0.outcome)
                &&& (b.progress, b.outcome) == (s.ticked(now).0.progress, s.ticked(now).0.outcome)
                &&& (c.progress, c.outcome) == (s.resumed(reply, now).0.progress, s.resumed(
                    reply,
                    now,
                ).0.outcome)
                &&& t.request() == s.request()
            }
            &&& t.side matches SideState::Recv(r) ==> {
                &&& a.side == SideState::Recv(r.fed(data, now).0) && x == r.fed(data, now).1
                &&& b.side == SideState::Recv(r.ticked(now).0) && y == r.ticked(now).1
                &&& c.side == SideState::Recv(r.resumed(reply, now).0) && z == r.resumed(
                    reply,
                    now,
                ).1
                &&& (a.progress, a.outcome) == (r.fed(data, now).0.progress, r.fed(
                    data,
                    now,
                ).0.outcome)
                &&& (b.progress, b.outcome) == (r.ticked(now).0.progress, r.ticked(now).0.outcome)
                &&& (c.progress, c.outcome) == (r.resumed(reply, now).0.progress, r.resumed(
                    reply,
                    now,
                ).0.outcome)
                &&& t.request() == r.request()
            }
            &&& (a.protocol, a.direction) == (t.protocol, t.direction)
            &&& (b.protocol, b.direction) == (t.protocol, t.direction)
            &&& (c.protocol, c.direction) == (t.protocol, t.direction)
        }),
{
}

/// Cancelling a running transfer ends it with a message and five CAN bytes for the other side,
/// and changes nothing else; once it has ended, nothing changes it or comes from it any more.
pub proof fn ended_transfer_stays_as_it_is(
    t: TransferState,
    data: Seq<u8>,
    reply: ReplyState,
    now: nat,
)
    ensures
        t.outcome is Running ==> t.cancelled() == (
            TransferState { outcome: OutcomeState::Failed("中止しました"@), ..t },
            seq![0x18u8, 0x18, 0x18, 0x18, 0x18],
        ),
        !(t.outcome is Running) ==> {
            &&& t.cancelled() == (t, Seq::<u8>::empty())
            &&& t.fed(data, now) == (t, Seq::<u8>::empty())
            &&& t.ticked(now) == (t, Seq::<u8>::empty())
            &&& t.resumed(reply, now) == (t, Seq::<u8>::empty())
            &&& t.request() is None
        },
{
}

/// A new transfer is of this protocol and direction, and shows what its side shows.
pub proof fn new_transfer_shows_its_side(
    protocol: Protocol,
    direction: Direction,
    s: SenderState,
    r: ReceiverState,
)
    ensures
        ({
            let a = TransferState::start(protocol, direction, SideState::Send(s));
            let b = TransferState::start(protocol, direction, SideState::Recv(r));
            &&& (a.protocol, a.direction) == (protocol, direction)
            &&& (a.progress, a.outcome) == (s.progress, s.outcome)
            &&& a.side == SideState::Send(s)
            &&& (b.protocol, b.direction) == (protocol, direction)
            &&& (b.progress, b.outcome) == (r.progress, r.outcome)
            &&& b.side == SideState::Recv(r)
        }),
{
}

/// Input can be counted where the counts of errors and files have room for one more with every
/// byte that waits or comes; a receiver also counts 1024 bytes for each, and the numbers that it
/// tries for a path.
pub proof fn what_can_be_counted(s: SenderState, r: ReceiverState, n: nat)
    ensures
        SideState::Send(s).has_room(n) <==> {
            &&& s.progress.errors + s.backlog.len() + n <= 0xffff_ffff
            &&& s.progress.files_done + s.backlog.len() + n <= 0xffff_ffff
        },
        SideState::Recv(r).has_room(n) <==> {
            &&& r.progress.errors + r.backlog.len() + n <= 0xffff_ffff
            &&& r.progress.files_done + r.backlog.len() + n <= 0xffff_ffff
            &&& r.progress.bytes + 1024 * (r.backlog.len() + n) <= 0xffff_ffff_ffff_ffff
            &&& r.wait matches crate::receiver::WaitState::Probe { copy, .. } ==> copy
                + r.backlog.len() + n <= 0xffff_ffff_ffff_ffff
        },
{
}

} // verus!
