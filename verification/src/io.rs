//! The file work that a transfer asks its caller to do.

use vstd::prelude::*;

verus! {

/// How long a sender or receiver waits for an answer, in nanoseconds, as all times are.
pub const ACK_TIMEOUT: u64 = 10_000_000_000;

/// How long a sender waits for the receiver's start signal.
pub const START_TIMEOUT: u64 = 60_000_000_000;

/// How often a receiver repeats its start signal.
pub const START_INTERVAL: u64 = 3_000_000_000;

/// How often one block may be repeated.
pub const MAX_ERRORS: u32 = 10;

/// A file on the receiver's side.
#[derive(Debug)]
pub enum Target {
    /// The destination itself.
    Dest,
    /// The file of this name in the destination directory.
    Within(String),
    /// The file at this path.
    At(String),
}

/// The model of `Target`.
pub enum TargetState {
    Dest,
    Within(Seq<char>),
    At(Seq<char>),
}

impl View for Target {
    type V = TargetState;

    open spec fn view(&self) -> TargetState {
        match self {
            Target::Dest => TargetState::Dest,
            Target::Within(name) => TargetState::Within(name@),
            Target::At(path) => TargetState::At(path@),
        }
    }
}

/// What a transfer waits for.
#[derive(Debug)]
pub enum Request {
    /// Read the file at this path.
    Load(String),
    /// Find out whether this file exists.
    Probe(Target),
    /// Create this file, and write to it from now on.
    Create(Target),
    /// Write these bytes to the open file.
    Write(Vec<u8>),
}

/// The model of `Request`.
pub enum RequestState {
    Load(Seq<char>),
    Probe(TargetState),
    Create(TargetState),
    Write(Seq<u8>),
}

impl View for Request {
    type V = RequestState;

    open spec fn view(&self) -> RequestState {
        match self {
            Request::Load(path) => RequestState::Load(path@),
            Request::Probe(t) => RequestState::Probe(t@),
            Request::Create(t) => RequestState::Create(t@),
            Request::Write(bytes) => RequestState::Write(bytes@),
        }
    }
}

/// The model of an optional request.
pub open spec fn request_state(r: Option<Request>) -> Option<RequestState> {
    match r {
        Some(q) => Some(q@),
        None => None,
    }
}

/// A file that was read.
#[derive(Debug)]
pub struct LoadedFile {
    /// The name under which it is announced.
    pub name: String,
    pub data: Vec<u8>,
    /// When it was modified last, in seconds since 1970; 0 where that is not known.
    pub mtime: u64,
}

/// The model of `LoadedFile`.
pub struct LoadedState {
    pub name: Seq<char>,
    pub data: Seq<u8>,
    pub mtime: u64,
}

impl View for LoadedFile {
    type V = LoadedState;

    open spec fn view(&self) -> LoadedState {
        LoadedState { name: self.name@, data: self.data@, mtime: self.mtime }
    }
}

/// How a request went; an error is what the system says of it.
#[derive(Debug)]
pub enum Reply {
    Loaded(Result<LoadedFile, String>),
    /// Whether the file exists, and its full path as it is shown.
    Probed { exists: bool, shown: String },
    Created(Result<(), String>),
    Written(Result<(), String>),
}

/// The model of `Reply`.
pub enum ReplyState {
    Loaded(Result<LoadedState, Seq<char>>),
    Probed { exists: bool, shown: Seq<char> },
    Created(Result<(), Seq<char>>),
    Written(Result<(), Seq<char>>),
}

/// The model of a result without a value.
pub open spec fn result_state(r: Result<(), String>) -> Result<(), Seq<char>> {
    match r {
        Ok(_) => Ok(()),
        Err(e) => Err(e@),
    }
}

/// The model of what came of a reading.
pub open spec fn loaded_state(r: Result<LoadedFile, String>) -> Result<LoadedState, Seq<char>> {
    match r {
        Ok(f) => Ok(f@),
        Err(e) => Err(e@),
    }
}

impl View for Reply {
    type V = ReplyState;

    open spec fn view(&self) -> ReplyState {
        match self {
            Reply::Loaded(r) => ReplyState::Loaded(loaded_state(*r)),
            Reply::Probed { exists, shown } => ReplyState::Probed { exists: *exists, shown: shown@ },
            Reply::Created(r) => ReplyState::Created(result_state(*r)),
            Reply::Written(r) => ReplyState::Written(result_state(*r)),
        }
    }
}

/// The time `span` after `now`.
pub fn after(now: u64, span: u64) -> (r: u128)
    ensures
        r == now + span,
{
    now as u128 + span as u128
}

} // verus!
