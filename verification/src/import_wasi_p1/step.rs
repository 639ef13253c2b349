//! What a host function needs of the host before it can go on.
use crate::files::PathOpen;
use crate::path::HostPath;
use crate::wasi_ctx::{ClockSource, SeekTarget, WriteTarget};
use vstd::prelude::*;

verus! {

/// How far a host function has come.
#[derive(Debug)]
pub enum Step {
    /// It is done. A text ends the guest.
    Done(Option<String>),
    /// It is done, and a file is to be closed.
    Close(u64),
    /// A clock is to be read.
    ReadClock(ClockRequest),
    /// A file is to be positioned.
    Seek(SeekRequest),
    /// Bytes are to be written.
    Write(WriteRequest),
    /// Bytes are to be read.
    Read(ReadRequest),
    /// A path is to be looked at.
    Probe(OpenRequest),
    /// It is to be found out whether a path is a directory.
    CheckDir(OpenTarget),
    /// A file is to be opened.
    OpenFile(OpenTarget),
}

/// A clock to read, and where the guest wants the time.
#[derive(Clone, Copy, Debug, PartialEq, Eq, Structural)]
pub struct ClockRequest {
    pub source: ClockSource,
    pub time_ptr: u32,
}

/// A file to position, and where the guest wants the new position.
#[derive(Clone, Copy, Debug, PartialEq, Eq, Structural)]
pub struct SeekRequest {
    pub file: u64,
    pub target: SeekTarget,
    pub offset_ptr: u32,
}

/// Bytes to write, and where the guest wants their number.
#[derive(Debug)]
pub struct WriteRequest {
    pub target: WriteTarget,
    pub chunks: Vec<Vec<u8>>,
    pub nwritten_ptr: u32,
}

/// A region of the guest's memory.
#[derive(Clone, Copy, Debug, PartialEq, Eq, Structural)]
pub struct Iov {
    pub base: u32,
    pub len: u32,
}

/// A file to read from, the regions to fill, the one to fill next, how much was read so far, and
/// where the guest wants the number of bytes that were read.
#[derive(Debug)]
pub struct ReadRequest {
    pub file: u64,
    pub iovs: Vec<Iov>,
    pub next: usize,
    pub total: u32,
    pub nread_ptr: u32,
}

/// A path to open, and where the guest wants the descriptor.
#[derive(Debug)]
pub struct OpenRequest {
    pub open: PathOpen,
    pub opened_fd_ptr: u32,
}

/// A path to open, where it leads, and where the guest wants the descriptor.
#[derive(Debug)]
pub struct OpenTarget {
    pub open: PathOpen,
    pub full: HostPath,
    pub opened_fd_ptr: u32,
}

} // verus!
