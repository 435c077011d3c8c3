//! How far a transfer has come, and how it ended.

use vstd::prelude::*;

verus! {

/// How far a transfer has come.
#[derive(Clone, Debug)]
pub struct Progress {
    /// The file under way.
    pub file: String,
    /// How many of its bytes have gone over.
    pub bytes: u64,
    /// Its length, where it is known.
    pub total: Option<u64>,
    /// Files completed.
    pub files_done: u32,
    /// Packets that had to be repeated.
    pub errors: u32,
}

/// The model of `Progress`.
#[verifier::ext_equal]
pub struct ProgressState {
    pub file: Seq<char>,
    pub bytes: nat,
    pub total: Option<u64>,
    pub files_done: nat,
    pub errors: nat,
}

impl View for Progress {
    type V = ProgressState;

    open spec fn view(&self) -> ProgressState {
        ProgressState {
            file: self.file@,
            bytes: self.bytes as nat,
            total: self.total,
            files_done: self.files_done as nat,
            errors: self.errors as nat,
        }
    }
}

impl ProgressState {
    /// Nothing done yet.
    pub open spec fn start() -> ProgressState {
        ProgressState { file: Seq::empty(), bytes: 0, total: None, files_done: 0, errors: 0 }
    }

    /// One more repeated packet.
    pub open spec fn error(self) -> ProgressState {
        ProgressState { errors: self.errors + 1, ..self }
    }

    /// A new file of this name and length.
    pub open spec fn opened(self, file: Seq<char>, total: Option<u64>) -> ProgressState {
        ProgressState { file, bytes: 0, total, ..self }
    }

    /// One more file completed.
    pub open spec fn closed(self) -> ProgressState {
        ProgressState { files_done: self.files_done + 1, ..self }
    }

    /// Whether `n` more bytes of input can be counted.
    pub open spec fn has_room(self, n: nat) -> bool {
        &&& self.errors + n <= u32::MAX
        &&& self.files_done + n <= u32::MAX
        &&& self.bytes + 1024 * n <= u64::MAX
    }
}

impl Default for Progress {
    fn default() -> (r: Progress)
        ensures
            r@ == ProgressState::start(),
    {
        Progress { file: String::new(), bytes: 0, total: None, files_done: 0, errors: 0 }
    }
}

impl Progress {
    /// A copy of `self`.
    pub fn copy(&self) -> (r: Progress)
        ensures
            r@ == self@,
    {
        Progress {
            file: self.file.clone(),
            bytes: self.bytes,
            total: self.total,
            files_done: self.files_done,
            errors: self.errors,
        }
    }
}

/// How a transfer stands.
#[derive(Clone, Debug)]
pub enum Outcome {
    Running,
    /// It ended well; the message says what was moved.
    Done(String),
    /// It failed; the message says why.
    Failed(String),
}

/// The model of `Outcome`.
pub enum OutcomeState {
    Running,
    Done(Seq<char>),
    Failed(Seq<char>),
}

impl View for Outcome {
    type V = OutcomeState;

    open spec fn view(&self) -> OutcomeState {
        match self {
            Outcome::Running => OutcomeState::Running,
            Outcome::Done(s) => OutcomeState::Done(s@),
            Outcome::Failed(s) => OutcomeState::Failed(s@),
        }
    }
}

impl Outcome {
    /// Whether the transfer still runs.
    pub fn is_running(&self) -> (r: bool)
        ensures
            r == (self@ is Running),
    {
        matches!(self, Outcome::Running)
    }

    /// A copy of `self`.
    pub fn copy(&self) -> (r: Outcome)
        ensures
            r@ == self@,
    {
        match self {
            Outcome::Running => Outcome::Running,
            Outcome::Done(s) => Outcome::Done(s.clone()),
            Outcome::Failed(s) => Outcome::Failed(s.clone()),
        }
    }
}

} // verus!
