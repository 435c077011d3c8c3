//! Two transfers joined by a line that loses nothing: what `send`, `recv`, `input` and `resume` do
//! together.

use vstd::prelude::*;

use crate::batch::{announceable, batch_ended, batch_keeps_free_names, batch_kept, file_names};
use crate::batch::{kept_paths, new_sides_start_ymodem, read_files, ymodem_moves_batch};
use crate::io::{LoadedState, ReplyState, RequestState, TargetState};
use crate::names::safe;
use crate::packet::{CRC_REQ, SUB};
use crate::progress::OutcomeState;
use crate::protocol::{Direction, Protocol};
use crate::receiver::ReceiverState;
use crate::sender::SenderState;
use crate::session::{new_sides_start_xmodem, xmodem_kept, xmodem_moves_file, Kept, Session};
use crate::text::comma_joined;
use crate::transfer::{input_may_come_in_pieces, waiting_input_is_kept, SideState, TransferState};

verus! {

/// Two transfers, the line between them, and their files.
#[verifier::ext_equal]
pub struct Link {
    pub tx: TransferState,
    pub rx: TransferState,
    /// What is on its way to the receiver, and to the sender.
    pub to_rx: Seq<u8>,
    pub to_tx: Seq<u8>,
    /// The files that can be read, by their paths.
    pub source: Map<Seq<char>, LoadedState>,
    /// The path of the destination, and as a directory with its separator.
    pub dest: Seq<char>,
    pub prefix: Seq<char>,
    /// The paths at which there are files on the receiver's side.
    pub taken: Set<Seq<char>>,
    /// The files created there so far; the last one is written to.
    pub kept: Seq<Kept>,
    pub now: nat,
}

impl Link {
    /// The path of a file on the receiver's side.
    pub open spec fn path_of(self, t: TargetState) -> Seq<char> {
        match t {
            TargetState::Dest => self.dest,
            TargetState::Within(name) => self.prefix + name,
            TargetState::At(path) => path,
        }
    }

    /// How the receiver's file work `q` goes.
    pub open spec fn reply_to(self, q: RequestState) -> ReplyState {
        match q {
            RequestState::Probe(t) => {
                let path = self.path_of(t);
                ReplyState::Probed { exists: self.taken.contains(path), shown: path }
            },
            RequestState::Create(_) => ReplyState::Created(Ok(())),
            RequestState::Write(_) => ReplyState::Written(Ok(())),
            RequestState::Load(path) => ReplyState::Loaded(Ok(self.source[path])),
        }
    }

    /// The receiver's file work `q` is done, and the receiver goes on.
    pub open spec fn served(self, q: RequestState) -> Link {
        let (r, out) = self.rx.resumed(self.reply_to(q), self.now);
        let l = Link { rx: r, to_tx: self.to_tx + out, ..self };
        match q {
            RequestState::Create(t) => {
                let path = self.path_of(t);
                Link {
                    taken: self.taken.insert(path),
                    kept: self.kept.push(Kept { path, data: Seq::empty() }),
                    ..l
                }
            },
            RequestState::Write(bytes) => {
                let last = self.kept.last();
                Link {
                    kept: self.kept.drop_last().push(Kept { data: last.data + bytes, ..last }),
                    ..l
                }
            },
            _ => l,
        }
    }

    /// The receiver is handed `data`.
    pub open spec fn heard(self, data: Seq<u8>) -> Link {
        let (r, out) = self.rx.fed(data, self.now);
        Link { rx: r, to_tx: self.to_tx + out, ..self }
    }

    /// The next thing that happens: file work is done, else what is on the line arrives.
    pub open spec fn step(self) -> Link {
        if self.tx.request() is Some {
            let (t, out) = self.tx.resumed(self.reply_to(self.tx.request()->0), self.now);
            Link { tx: t, to_rx: self.to_rx + out, ..self }
        } else if self.rx.request() is Some {
            self.served(self.rx.request()->0)
        } else if self.to_rx.len() > 0 {
            Link { to_rx: Seq::empty(), ..self.heard(self.to_rx) }
        } else if self.to_tx.len() > 0 {
            let (t, out) = self.tx.fed(self.to_tx, self.now);
            Link { tx: t, to_tx: Seq::empty(), to_rx: self.to_rx + out, ..self }
        } else {
            self
        }
    }

    /// The link after `n` steps.
    pub open spec fn after(self, n: nat) -> Link
        decreases n,
    {
        if n == 0 {
            self
        } else {
            self.step().after((n - 1) as nat)
        }
    }

    /// The two sides by themselves.
    pub open spec fn session(self) -> Session {
        Session {
            tx: self.tx.side->Send_0,
            rx: self.rx.side->Recv_0,
            to_rx: self.to_rx,
            to_tx: self.to_tx,
            source: self.source,
            prefix: self.prefix,
            taken: self.taken,
            kept: self.kept,
            now: self.now,
        }
    }

    /// A sender and a receiver that show what their sides have come to.
    pub open spec fn in_step(self) -> bool {
        &&& self.tx.side is Send
        &&& self.tx.outcome == self.tx.side.outcome()
        &&& self.tx.progress == self.tx.side.progress()
        &&& self.rx.side is Recv
        &&& self.rx.outcome == self.rx.side.outcome()
        &&& self.rx.progress == self.rx.side.progress()
        &&& self.rx.side->Recv_0.dest == self.dest
    }

    /// How this link came to have these two sides: they are those that `send` and `recv` give,
    /// and the receiver's start signal is on its way.
    pub open spec fn is_new(
        self,
        protocol: Protocol,
        paths: Seq<Seq<char>>,
        name: Seq<char>,
        t: nat,
        u: nat,
    ) -> bool {
        &&& self.tx == TransferState::start(
            protocol,
            Direction::Send,
            SideState::Send(SenderState::start(protocol, paths, t)),
        )
        &&& self.rx == TransferState::start(
            protocol,
            Direction::Recv,
            SideState::Recv(ReceiverState::start(protocol, self.dest, name, u)),
        )
        &&& self.to_rx == Seq::<u8>::empty()
        &&& self.to_tx == seq![CRC_REQ]
    }
}

/// No byte moves the destination.
proof fn lemma_fed_keeps_dest(r: ReceiverState, data: Seq<u8>, now: nat)
    ensures
        r.fed(data, now).0.dest == r.dest,
    decreases data.len(),
{
    if data.len() > 0 && r.outcome is Running && r.wait is Idle {
        let s = r.took(data[0], now).0;
        assert(s.dest == r.dest);
        lemma_fed_keeps_dest(s, data.skip(1), now);
    }
}

/// No answer moves the destination.
proof fn lemma_resumed_keeps_dest(r: ReceiverState, reply: ReplyState, now: nat)
    ensures
        r.resumed(reply, now).0.dest == r.dest,
{
    if r.fits(reply) {
        let s = r.answered(reply, now).0;
        assert(s.dest == r.dest);
        lemma_fed_keeps_dest(ReceiverState { backlog: Seq::empty(), ..s }, r.backlog, now);
    }
}

/// Transfers do what their sides do.
#[verifier::spinoff_prover]
proof fn lemma_step(l: Link)
    requires
        l.in_step(),
    ensures
        l.step().in_step(),
        l.step().session() == l.session().step(),
        l.step().dest == l.dest,
{
    let s = l.session();
    lemma_fed_keeps_dest(s.rx, l.to_rx, l.now);
    if l.tx.request() is Some {
        assert(l.step().session() =~= s.step());
    } else if l.rx.request() is Some {
        let q = l.rx.request()->0;
        lemma_resumed_keeps_dest(s.rx, l.reply_to(q), l.now);
        assert(l.step().session() =~= s.step());
    } else {
        assert(l.step().session() =~= s.step());
    }
}

/// Transfers do what their sides do, for as long as they work.
proof fn lemma_follows(l: Link, n: nat)
    requires
        l.in_step(),
    ensures
        l.after(n).in_step(),
        l.after(n).session() == l.session().after(n),
        l.after(n).dest == l.dest,
    decreases n,
{
    if n > 0 {
        lemma_step(l);
        lemma_follows(l.step(), (n - 1) as nat);
    }
}

/// An XMODEM or XMODEM-1K transfer, started on both sides and left to itself, ends well on both,
/// and the receiver keeps the file at its destination: all of it but SUB bytes at the end of the
/// last block, hence the very file where its last byte is not SUB. Each side counts one file and
/// no error.
pub proof fn xmodem_transfer_moves_file(
    l: Link,
    protocol: Protocol,
    path: Seq<char>,
    name: Seq<char>,
    t: nat,
    u: nat,
)
    requires
        protocol != Protocol::Ymodem,
        l.is_new(protocol, seq![path], name, t, u),
        l.source.contains_key(path),
        l.source[path].data.len() <= u64::MAX,
    ensures
        exists|n: nat|
            {
                let e = #[trigger] l.after(n);
                let file = l.source[path];
                let long = protocol == Protocol::Xmodem1k;
                &&& e.tx.outcome == OutcomeState::Done(file.name + " を送信しました"@)
                &&& e.rx.outcome == OutcomeState::Done(l.dest + " を受信しました"@)
                &&& e.kept == l.kept.push(
                    Kept { path: l.dest, data: xmodem_kept(file.data, long) },
                )
                &&& (file.data.len() > 0 ==> file.data.last() != SUB) ==> e.kept == l.kept.push(
                    Kept { path: l.dest, data: file.data },
                )
                &&& e.tx.progress.files_done == 1 && e.tx.progress.errors == 0
                &&& e.rx.progress.files_done == 1 && e.rx.progress.errors == 0
            },
{
    let s = l.session();
    new_sides_start_xmodem(s, path, name, t, u);
    xmodem_moves_file(s, path);
    let file = s.source[path];
    let long = s.rx.crc && s.tx.protocol != Protocol::Xmodem;
    let n = choose|n: nat|
        {
            let e = #[trigger] s.after(n);
            &&& e.tx.outcome == OutcomeState::Done(file.name + " を送信しました"@)
            &&& e.rx.outcome == OutcomeState::Done(
                comma_joined(s.rx.saved.push(s.rx.dest)) + " を受信しました"@,
            )
            &&& e.kept == s.kept.push(Kept { path: s.rx.dest, data: xmodem_kept(file.data, long) })
            &&& (file.data.len() > 0 ==> file.data.last() != SUB) ==> e.kept == s.kept.push(
                Kept { path: s.rx.dest, data: file.data },
            )
            &&& s.counted(e, 1)
        };
    lemma_follows(l, n);
    let saved = s.rx.saved.push(s.rx.dest);
    assert(saved.len() == 1 && saved[0] == l.dest);
    assert(l.after(n).session() == s.after(n));
}

/// A YMODEM batch, started on both sides and left to itself, ends well on both. The receiver
/// keeps every file with exactly its data, in the order of sending, each at a path in its
/// directory that was free. Each side counts the files and no error.
pub proof fn ymodem_transfer_moves_batch(
    l: Link,
    paths: Seq<Seq<char>>,
    name: Seq<char>,
    t: nat,
    u: nat,
)
    requires
        paths.len() > 0,
        l.is_new(Protocol::Ymodem, paths, name, t, u),
        forall|i: int|
            0 <= i < paths.len() ==> l.source.contains_key(#[trigger] paths[i]) && announceable(
                l.source[paths[i]],
            ),
        l.taken.finite(),
    ensures
        exists|n: nat|
            {
                let e = #[trigger] l.after(n);
                let files = read_files(l.source, paths);
                let kept = batch_kept(l.prefix, files, l.taken);
                &&& e.tx.outcome == OutcomeState::Done(
                    comma_joined(file_names(files)) + " を送信しました"@,
                )
                &&& e.rx.outcome == OutcomeState::Done(
                    comma_joined(kept_paths(kept)) + " を受信しました"@,
                )
                &&& e.kept == l.kept + kept
                &&& e.tx.progress.files_done == paths.len() && e.tx.progress.errors == 0
                &&& e.rx.progress.files_done == paths.len() && e.rx.progress.errors == 0
            },
{
    let s = l.session();
    new_sides_start_ymodem(s, paths, name, t, u);
    ymodem_moves_batch(s, paths);
    let files = read_files(s.source, paths);
    let kept = batch_kept(s.prefix, files, s.taken);
    let n = choose|n: nat|
        {
            &&& batch_ended(#[trigger] s.after(n), file_names(files), s.rx.saved, s.kept, kept)
            &&& s.counted(s.after(n), paths.len())
        };
    lemma_follows(l, n);
    assert(s.rx.saved + kept_paths(kept) =~= kept_paths(kept));
    assert(l.after(n).session() == s.after(n));
}

/// A YMODEM batch of files whose names are safe as they are, differ from each other, and are free
/// on the receiver's side arrives under those names, every file with exactly its data.
pub proof fn ymodem_transfer_keeps_names(
    l: Link,
    paths: Seq<Seq<char>>,
    name: Seq<char>,
    t: nat,
    u: nat,
)
    requires
        paths.len() > 0,
        l.is_new(Protocol::Ymodem, paths, name, t, u),
        forall|i: int|
            0 <= i < paths.len() ==> {
                let f = l.source[#[trigger] paths[i]];
                &&& l.source.contains_key(paths[i])
                &&& announceable(f)
                &&& safe(f.name) == f.name
                &&& !l.taken.contains(l.prefix + f.name)
            },
        forall|i: int, j: int|
            0 <= i < j < paths.len() ==> l.source[#[trigger] paths[i]].name
                != l.source[#[trigger] paths[j]].name,
        l.taken.finite(),
    ensures
        exists|n: nat|
            {
                let e = #[trigger] l.after(n);
                &&& e.tx.outcome is Done
                &&& e.rx.outcome is Done
                &&& e.kept == l.kept + read_files(l.source, paths).map_values(
                    |f: LoadedState| Kept { path: l.prefix + f.name, data: f.data },
                )
                &&& e.tx.progress.files_done == paths.len() && e.tx.progress.errors == 0
                &&& e.rx.progress.files_done == paths.len() && e.rx.progress.errors == 0
            },
{
    let files = read_files(l.source, paths);
    ymodem_transfer_moves_batch(l, paths, name, t, u);
    assert forall|i: int| 0 <= i < files.len() implies safe((#[trigger] files[i]).name)
        == files[i].name && !l.taken.contains(l.prefix + files[i].name) by {
        assert(files[i] == l.source[paths[i]]);
    }
    assert forall|i: int, j: int| 0 <= i < j < files.len() implies (#[trigger] files[i]).name != (
    #[trigger] files[j]).name by {
        assert(files[i] == l.source[paths[i]] && files[j] == l.source[paths[j]]);
    }
    batch_keeps_free_names(l.prefix, files, l.taken);
}

// ---------------------------------------------------------------- pieces of input

impl Link {
    /// The receiver's next piece of file work is done, if it waits for any.
    pub open spec fn worked(self) -> Link {
        match self.rx.request() {
            Some(q) => self.served(q),
            None => self,
        }
    }

    /// `n` pieces of its file work are done.
    pub open spec fn worked_n(self, n: nat) -> Link
        decreases n,
    {
        if n == 0 {
            self
        } else {
            self.worked_n((n - 1) as nat).worked()
        }
    }
}

/// File work is answered as it was asked for.
#[verifier::spinoff_prover]
proof fn lemma_reply_fits(l: Link)
    requires
        l.rx.side is Recv,
        l.rx.request() is Some,
    ensures
        l.rx.outcome is Running,
        l.rx.side->Recv_0.fits(l.reply_to(l.rx.request()->0)),
{
}

/// What is handed over while the receiver waits for file work does not change what it waits for.
#[verifier::spinoff_prover]
proof fn lemma_request_stays(l: Link, data: Seq<u8>)
    requires
        l.rx.side is Recv,
        l.rx.in_sync(),
        l.rx.request() is Some,
    ensures
        l.heard(data) == (Link { rx: l.rx.fed(data, l.now).0, ..l }),
        l.heard(data).rx.request() == l.rx.request(),
{
    let r = l.rx.side->Recv_0;
    let w = ReceiverState { backlog: r.backlog + data, ..r };
    assert(r.backlog + Seq::<u8>::empty() =~= r.backlog);
    if data.len() == 0 {
        assert(r.fed(data, l.now) == (r, Seq::<u8>::empty()));
    } else {
        assert(r.fed(data, l.now) == (w, Seq::<u8>::empty()));
        assert(w.request() == r.request());
    }
    assert(l.to_tx + Seq::<u8>::empty() =~= l.to_tx);
}

/// What is handed over while the receiver waits for file work makes no difference to that work.
#[verifier::spinoff_prover]
proof fn lemma_work_and_input_commute(l: Link, data: Seq<u8>)
    requires
        l.rx.side is Recv,
        l.rx.in_sync(),
        l.rx.request() is Some,
    ensures
        l.heard(data).worked() == l.worked().heard(data),
        l.worked().rx.side is Recv,
        l.worked().rx.in_sync(),
{
    let q = l.rx.request()->0;
    let reply = l.reply_to(q);
    lemma_reply_fits(l);
    lemma_request_stays(l, data);
    waiting_input_is_kept(l.rx, data, reply, l.now);
    let h = l.heard(data);
    assert(h.reply_to(q) == reply);
    let (r, first) = l.rx.resumed(reply, l.now);
    let (v, second) = r.fed(data, l.now);
    assert(h.rx.resumed(reply, l.now) == (v, first + second));
    assert(l.to_tx + (first + second) =~= l.to_tx + first + second);
    assert(h.served(q) =~= l.served(q).heard(data));
}

/// It does not matter whether the receiver gets its input in one piece, or in two with file work
/// done in between: it answers the same, and its files hold the same.
pub proof fn pieces_store_the_same(l: Link, a: Seq<u8>, b: Seq<u8>, n: nat)
    requires
        l.rx.side is Recv,
        l.rx.in_sync(),
        forall|k: nat| k < n ==> (#[trigger] l.heard(a).worked_n(k)).rx.request() is Some,
    ensures
        l.heard(a).worked_n(n).heard(b) == l.heard(a + b).worked_n(n),
        l.heard(a).worked_n(n).rx.side is Recv,
        l.heard(a).worked_n(n).rx.in_sync(),
    decreases n,
{
    if n == 0 {
        input_may_come_in_pieces(l.rx, a, b, l.now);
        let (r, first) = l.rx.fed(a, l.now);
        let second = r.fed(b, l.now).1;
        assert(l.to_tx + (first + second) =~= l.to_tx + first + second);
        assert(l.heard(a).heard(b) =~= l.heard(a + b));
    } else {
        let m = (n - 1) as nat;
        pieces_store_the_same(l, a, b, m);
        let h = l.heard(a).worked_n(m);
        lemma_work_and_input_commute(h, b);
    }
}

} // verus!
