//! What a guest has been given: arguments, environment, output streams, random numbers, clocks,
//! and the table of file descriptors.
use crate::errno::{
    ERRNO_BADF, ERRNO_INVAL, ERRNO_IO, ERRNO_NOSYS, ERRNO_NOTDIR, ERRNO_PERM,
};
use crate::memory;
use crate::path::HostPath;
use crate::random;
use crate::random::{draw_blocks, fill_from_blocks};
use std::collections::hash_map::RandomState;
use vstd::prelude::*;
use vstd::string::StrSliceExecFns;

verus! {

pub const FILETYPE_UNKNOWN: u8 = 0;

pub const FILETYPE_CHARACTER_DEVICE: u8 = 2;

pub const FILETYPE_DIRECTORY: u8 = 3;

pub const FILETYPE_REGULAR_FILE: u8 = 4;

pub const FILETYPE_SYMBOLIC_LINK: u8 = 7;

/// A directory that the guest finds open when it starts.
#[derive(Debug)]
pub struct PreopenDir {
    pub root: HostPath,
    /// The name by which the guest knows it.
    pub guest_path: String,
    pub writable: bool,
}

/// What a file descriptor stands for. An open file is known by the number that the host gave
/// it.
#[derive(Debug)]
pub enum FdEntry {
    Stdin,
    Stdout,
    Stderr,
    PreopenDir(PreopenDir),
    OpenDir { root: HostPath, writable: bool },
    OpenFile { file: u64, writable: bool },
}

/// What a guest has been given.
#[derive(Debug)]
pub struct WasiProcMacroCtx {
    /// The arguments, each with a zero byte at its end.
    pub args_entries: Vec<Vec<u8>>,
    /// The environment, as `name=value`, each with a zero byte at its end.
    pub env_entries: Vec<Vec<u8>>,
    pub stdout_capture: Vec<u8>,
    pub stderr_capture: Vec<u8>,
    /// Whether the host prints what the guest prints.
    pub mirror_stdio: bool,
    /// Whether random numbers and clocks are replaced by zeros.
    pub deterministic_random: bool,
    pub random_state: RandomState,
    pub random_counter: u64,
    pub fds: Vec<Option<FdEntry>>,
}

/// The first free slot of a table of file descriptors from `from` on; its length where there is
/// none.
pub open spec fn free_slot(fds: Seq<Option<FdEntry>>, from: nat) -> nat
    decreases fds.len() - from,
{
    if from >= fds.len() {
        fds.len()
    } else if fds[from as int] is None {
        from
    } else {
        free_slot(fds, from + 1)
    }
}

/// A table of file descriptors with an entry in its first free slot.
pub open spec fn with_entry(fds: Seq<Option<FdEntry>>, entry: FdEntry) -> Seq<Option<FdEntry>> {
    let slot = free_slot(fds, 0);
    if slot < fds.len() {
        fds.update(slot as int, Some(entry))
    } else {
        fds.push(Some(entry))
    }
}

impl WasiProcMacroCtx {
    /// What a file descriptor stands for.
    pub open spec fn entry(&self, fd: u32) -> Option<FdEntry> {
        if (fd as int) < self.fds@.len() {
            self.fds@[fd as int]
        } else {
            None
        }
    }

    /// The entry of a file descriptor.
    pub fn fd_entry(&self, fd: u32) -> (found: Option<&FdEntry>)
        ensures
            match self.entry(fd) {
                Some(entry) => found == Some(&entry),
                None => found is None,
            },
    {
        let i: usize = fd as usize;
        if i < self.fds.len() {
            self.fds[i].as_ref()
        } else {
            None
        }
    }

    /// Puts an entry into the first free slot and returns the number of the slot.
    pub fn alloc_fd(&mut self, entry: FdEntry) -> (fd: u32)
        ensures
            fd == free_slot(old(self).fds@, 0) as u32,
            *final(self) == (WasiProcMacroCtx { fds: final(self).fds, ..*old(self) }),
            final(self).fds@ == with_entry(old(self).fds@, entry),
    {
        let mut i: usize = 0;
        while i < self.fds.len()
            invariant
                i <= self.fds@.len(),
                *self == *old(self),
                free_slot(self.fds@, 0) == free_slot(self.fds@, i as nat),
            decreases self.fds@.len() - i,
        {
            if self.fds[i].is_none() {
                self.fds[i] = Some(entry);
                return i as u32;
            }
            i += 1;
        }
        self.fds.push(Some(entry));
        (self.fds.len() - 1) as u32
    }

    /// A fresh context: the standard streams, then the given directories, and nothing printed
    /// yet.
    pub fn new(
        args_entries: Vec<Vec<u8>>,
        env_entries: Vec<Vec<u8>>,
        mirror_stdio: bool,
        deterministic_random: bool,
        preopens: Vec<PreopenDir>,
    ) -> (ctx: WasiProcMacroCtx)
        ensures
            ctx.args_entries == args_entries,
            ctx.env_entries == env_entries,
            ctx.stdout_capture@.len() == 0,
            ctx.stderr_capture@.len() == 0,
            ctx.mirror_stdio == mirror_stdio,
            ctx.deterministic_random == deterministic_random,
            ctx.random_counter == 0,
            ctx.fds@ == initial_fds(preopens@),
    {
        let mut fds: Vec<Option<FdEntry>> = vec![
            Some(FdEntry::Stdin),
            Some(FdEntry::Stdout),
            Some(FdEntry::Stderr),
        ];
        assert(fds@ =~= initial_fds(preopens@.take(0)));
        for dir in it: preopens
            invariant
                it.seq() == preopens@,
                fds@ =~= initial_fds(preopens@.take(it.index())),
        {
            fds.push(Some(FdEntry::PreopenDir(dir)));
        }
        assert(preopens@.take(preopens@.len() as int) =~= preopens@);
        WasiProcMacroCtx {
            args_entries,
            env_entries,
            stdout_capture: Vec::new(),
            stderr_capture: Vec::new(),
            mirror_stdio,
            deterministic_random,
            random_state: RandomState::new(),
            random_counter: 0,
            fds,
        }
    }

    /// Adds to what the guest has printed. The result says whether the host is to print it, too.
    pub fn write_stdout(&mut self, bytes: &[u8]) -> (mirror: bool)
        ensures
            mirror == old(self).mirror_stdio,
            *final(self) == (WasiProcMacroCtx {
                stdout_capture: final(self).stdout_capture,
                ..*old(self)
            }),
            final(self).stdout_capture@ == old(self).stdout_capture@ + bytes@,
    {
        self.stdout_capture.extend_from_slice(bytes);
        assert(self.stdout_capture@ =~= old(self).stdout_capture@ + bytes@);
        self.mirror_stdio
    }

    /// Adds to what the guest has printed as errors. The result says whether the host is to
    /// print it, too.
    pub fn write_stderr(&mut self, bytes: &[u8]) -> (mirror: bool)
        ensures
            mirror == old(self).mirror_stdio,
            *final(self) == (WasiProcMacroCtx {
                stderr_capture: final(self).stderr_capture,
                ..*old(self)
            }),
            final(self).stderr_capture@ == old(self).stderr_capture@ + bytes@,
    {
        self.stderr_capture.extend_from_slice(bytes);
        assert(self.stderr_capture@ =~= old(self).stderr_capture@ + bytes@);
        self.mirror_stdio
    }

    /// What the guest has printed.
    pub fn captured_stdout(&self) -> (bytes: Vec<u8>)
        ensures
            bytes@ == self.stdout_capture@,
    {
        vstd::slice::slice_to_vec(self.stdout_capture.as_slice())
    }

    /// What the guest has printed as errors.
    pub fn captured_stderr(&self) -> (bytes: Vec<u8>)
        ensures
            bytes@ == self.stderr_capture@,
    {
        vstd::slice::slice_to_vec(self.stderr_capture.as_slice())
    }

    /// Whether the host prints what the guest prints.
    pub fn mirror_stdio_enabled(&self) -> (yes: bool)
        ensures
            yes == self.mirror_stdio,
    {
        self.mirror_stdio
    }

    /// The environment.
    pub fn environ_entries(&self) -> (entries: &Vec<Vec<u8>>)
        ensures
            *entries == self.env_entries,
    {
        &self.env_entries
    }

    /// The arguments.
    pub fn args_entries(&self) -> (entries: &Vec<Vec<u8>>)
        ensures
            *entries == self.args_entries,
    {
        &self.args_entries
    }

    /// Replaces `out` by random bytes; by zeros where random numbers are replaced by zeros. One
    /// number of the counter is used for each eight bytes.
    pub fn random_fill(&mut self, out: &mut Vec<u8>)
        ensures
            final(out)@.len() == old(out)@.len(),
            are_given(*old(self), final(out)@),
            *final(self) == drawn(*old(self), old(out)@.len()),
    {
        let len: usize = out.len();
        let mut i: usize = 0;
        if self.deterministic_random {
            while i < len
                invariant
                    i <= len,
                    out@.len() == len,
                    len == old(out)@.len(),
                    forall|j: int| 0 <= j < i ==> out@[j] == 0,
                decreases len - i,
            {
                out[i] = 0;
                i += 1;
            }
            return;
        }
        let blocks = draw_blocks(&self.random_state, &mut self.random_counter, len);
        fill_from_blocks(out, &blocks);
        assert(random::are_drawn(blocks@, old(self).random_counter, out@.len()));
    }

    /// The open file behind a file descriptor that is to be read.
    pub fn fd_read_one(&self, fd: u32) -> (file: Result<u64, i32>)
        ensures
            file == self.file_of(fd),
    {
        match self.fd_entry(fd) {
            Some(FdEntry::OpenFile { file, .. }) => Ok(*file),
            _ => Err(ERRNO_BADF),
        }
    }

    /// The open file behind a file descriptor.
    pub open spec fn file_of(&self, fd: u32) -> Result<u64, i32> {
        match self.entry(fd) {
            Some(FdEntry::OpenFile { file, .. }) => Ok(file),
            _ => Err(ERRNO_BADF),
        }
    }

    /// Where to write for a file descriptor: descriptors 1 and 2 are always the output streams;
    /// any other has to be an open file that was opened for writing.
    pub open spec fn target_of(&self, fd: u32) -> Result<WriteTarget, i32> {
        if fd == 1 {
            Ok(WriteTarget::Stdout)
        } else if fd == 2 {
            Ok(WriteTarget::Stderr)
        } else {
            match self.entry(fd) {
                Some(FdEntry::OpenFile { file, writable }) => if writable {
                    Ok(WriteTarget::File(file))
                } else {
                    Err(ERRNO_PERM)
                },
                _ => Err(ERRNO_BADF),
            }
        }
    }

    /// Where to write for a file descriptor.
    pub fn fd_write_target(&self, fd: u32) -> (target: Result<WriteTarget, i32>)
        ensures
            target == self.target_of(fd),
    {
        if fd == 1 {
            return Ok(WriteTarget::Stdout);
        }
        if fd == 2 {
            return Ok(WriteTarget::Stderr);
        }
        match self.fd_entry(fd) {
            Some(FdEntry::OpenFile { file, writable }) => if *writable {
                Ok(WriteTarget::File(*file))
            } else {
                Err(ERRNO_PERM)
            },
            _ => Err(ERRNO_BADF),
        }
    }

    /// Whether the host has a part in writing to a target.
    pub fn fd_write_needs_host(&self, target: WriteTarget) -> (yes: bool)
        ensures
            yes == (target is File || self.mirror_stdio),
    {
        match target {
            WriteTarget::File(_) => true,
            _ => self.mirror_stdio,
        }
    }

    /// Accounts for a write of which the host has taken the first `delivered` chunks. The
    /// streams keep what was delivered, and the chunk that was not.
    pub fn fd_write(
        &mut self,
        target: WriteTarget,
        chunks: &Vec<Vec<u8>>,
        delivered: usize,
    ) -> (written: Result<u32, i32>)
        requires
            delivered <= chunks@.len(),
        ensures
            written == written_of(memory::byte_seqs(chunks@), delivered as nat),
            printed(
                *old(self),
                *final(self),
                target,
                memory::concat(attempted(memory::byte_seqs(chunks@), delivered as nat)),
            ),
    {
        let ghost list = memory::byte_seqs(chunks@);
        let mut total: u32 = 0;
        let mut i: usize = 0;
        proof {
            assert(list.take(0) =~= Seq::<Seq<u8>>::empty());
            assert(self.stdout_capture@ =~= old(self).stdout_capture@ + Seq::<u8>::empty());
            assert(self.stderr_capture@ =~= old(self).stderr_capture@ + Seq::<u8>::empty());
        }
        while i < chunks.len()
            invariant
                i <= delivered <= chunks@.len(),
                list == memory::byte_seqs(chunks@),
                total == saturated_total(list.take(i as int)),
                printed(*old(self), *self, target, memory::concat(list.take(i as int))),
            decreases chunks@.len() - i,
        {
            proof {
                assert(list.take(i + 1).drop_last() =~= list.take(i as int));
                assert(list.take(i + 1).last() == chunks@[i as int]@);
            }
            match target {
                WriteTarget::Stdout => {
                    self.write_stdout(chunks[i].as_slice());
                    assert(self.stdout_capture@ =~= old(self).stdout_capture@ + memory::concat(
                        list.take(i + 1),
                    ));
                },
                WriteTarget::Stderr => {
                    self.write_stderr(chunks[i].as_slice());
                    assert(self.stderr_capture@ =~= old(self).stderr_capture@ + memory::concat(
                        list.take(i + 1),
                    ));
                },
                WriteTarget::File(_) => {},
            }
            if i == delivered {
                return Err(ERRNO_IO);
            }
            total = total.saturating_add(chunks[i].len() as u32);
            i += 1;
        }
        assert(list.take(i as int) =~= list);
        Ok(total)
    }

    /// Which file is released when a file descriptor is freed. The standard streams and the
    /// directories that were open from the start cannot be freed.
    pub open spec fn release_of(&self, fd: u32) -> Result<Option<u64>, i32> {
        match self.entry(fd) {
            Some(FdEntry::OpenDir { .. }) => Ok(None),
            Some(FdEntry::OpenFile { file, .. }) => Ok(Some(file)),
            _ => Err(ERRNO_BADF),
        }
    }

    /// The table of file descriptors after one was freed, if it can be.
    pub open spec fn fds_without(&self, fd: u32) -> Seq<Option<FdEntry>> {
        if self.release_of(fd) is Ok {
            self.fds@.update(fd as int, None)
        } else {
            self.fds@
        }
    }

    /// Frees a file descriptor. The standard streams and the directories that were open from the
    /// start stay. The result names the file that the host is to close.
    pub fn fd_close(&mut self, fd: u32) -> (released: Result<Option<u64>, i32>)
        ensures
            released == old(self).release_of(fd),
            *final(self) == (WasiProcMacroCtx { fds: final(self).fds, ..*old(self) }),
            final(self).fds@ == old(self).fds_without(fd),
    {
        let released: Option<u64> = match self.fd_entry(fd) {
            Some(FdEntry::OpenDir { .. }) => None,
            Some(FdEntry::OpenFile { file, .. }) => Some(*file),
            _ => return Err(ERRNO_BADF),
        };
        self.fds[fd as usize] = None;
        Ok(released)
    }

    /// Where a seek is to go: the offset counts from the start, from where the file stands, or
    /// from its end.
    pub open spec fn seek_of(&self, fd: u32, offset: i64, whence: u8) -> Result<
        (u64, SeekTarget),
        i32,
    > {
        match self.file_of(fd) {
            Ok(file) => if whence == 0 {
                Ok((file, SeekTarget::Start(offset as u64)))
            } else if whence == 1 {
                Ok((file, SeekTarget::Current(offset)))
            } else if whence == 2 {
                Ok((file, SeekTarget::End(offset)))
            } else {
                Err(ERRNO_INVAL)
            },
            Err(errno) => Err(errno),
        }
    }

    /// The file and the place that a seek asks for.
    pub fn fd_seek(&self, fd: u32, offset: i64, whence: u8) -> (request: Result<
        (u64, SeekTarget),
        i32,
    >)
        ensures
            request == self.seek_of(fd, offset, whence),
    {
        let file: u64 = match self.fd_read_one(fd) {
            Ok(file) => file,
            Err(errno) => return Err(errno),
        };
        match whence {
            0 => Ok((file, SeekTarget::Start(offset as u64))),
            1 => Ok((file, SeekTarget::Current(offset))),
            2 => Ok((file, SeekTarget::End(offset))),
            _ => Err(ERRNO_INVAL),
        }
    }

    /// The seek that leaves a file where it stands.
    pub fn fd_tell(&self, fd: u32) -> (request: Result<(u64, SeekTarget), i32>)
        ensures
            request == (match self.file_of(fd) {
                Ok(file) => Ok((file, SeekTarget::Current(0))),
                Err(errno) => Err(errno),
            }),
    {
        self.fd_seek(fd, 0, 1)
    }

    /// The kind of file behind a file descriptor.
    pub open spec fn filetype_of(&self, fd: u32) -> Result<u8, i32> {
        match self.entry(fd) {
            None => Err(ERRNO_BADF),
            Some(FdEntry::Stdin | FdEntry::Stdout | FdEntry::Stderr) => Ok(
                FILETYPE_CHARACTER_DEVICE,
            ),
            Some(FdEntry::PreopenDir(_) | FdEntry::OpenDir { .. }) => Ok(FILETYPE_DIRECTORY),
            Some(FdEntry::OpenFile { .. }) => Ok(FILETYPE_REGULAR_FILE),
        }
    }

    /// The kind of file behind a file descriptor.
    pub fn fd_filetype(&self, fd: u32) -> (filetype: Result<u8, i32>)
        ensures
            filetype == self.filetype_of(fd),
    {
        match self.fd_entry(fd) {
            None => Err(ERRNO_BADF),
            Some(FdEntry::Stdin) | Some(FdEntry::Stdout) | Some(FdEntry::Stderr) => Ok(
                FILETYPE_CHARACTER_DEVICE,
            ),
            Some(FdEntry::PreopenDir(_)) | Some(FdEntry::OpenDir { .. }) => Ok(FILETYPE_DIRECTORY),
            Some(FdEntry::OpenFile { .. }) => Ok(FILETYPE_REGULAR_FILE),
        }
    }

    /// The directory that was open from the start behind a file descriptor.
    pub open spec fn preopen_of(&self, fd: u32) -> Option<PreopenDir> {
        match self.entry(fd) {
            Some(FdEntry::PreopenDir(dir)) => Some(dir),
            _ => None,
        }
    }

    /// The length of the name of a directory that was open from the start, in bytes.
    pub fn fd_prestat_dir(&self, fd: u32) -> (len: Result<u32, i32>)
        ensures
            len == (match self.preopen_of(fd) {
                Some(dir) => Ok(vstd::utf8::encode_utf8(dir.guest_path@).len() as usize as u32),
                None => Err(ERRNO_BADF),
            }),
    {
        match self.fd_entry(fd) {
            Some(FdEntry::PreopenDir(dir)) => Ok(dir.guest_path.as_str().len() as u32),
            _ => Err(ERRNO_BADF),
        }
    }

    /// The name of a directory that was open from the start.
    pub fn fd_prestat_dir_name(&self, fd: u32) -> (name: Result<Vec<u8>, i32>)
        ensures
            match self.preopen_of(fd) {
                Some(dir) => name matches Ok(bytes) && bytes@ == vstd::utf8::encode_utf8(
                    dir.guest_path@,
                ),
                None => name matches Err(errno) && errno == ERRNO_BADF,
            },
    {
        match self.fd_entry(fd) {
            Some(FdEntry::PreopenDir(dir)) => Ok(dir.guest_path.as_str().as_bytes_vec()),
            _ => Err(ERRNO_BADF),
        }
    }

    /// Which clock is to be read, for the clocks that exist: the time of day and the time since
    /// the start. Both stand at zero where random numbers are replaced by zeros.
    pub open spec fn clock_of(&self, clock_id: u32) -> Result<ClockSource, i32> {
        if clock_id > 1 {
            Err(ERRNO_NOSYS)
        } else if self.deterministic_random {
            Ok(ClockSource::Zero)
        } else if clock_id == 0 {
            Ok(ClockSource::Realtime)
        } else {
            Ok(ClockSource::Monotonic)
        }
    }

    /// Which clock is to be read.
    pub fn clock_time_get(&self, clock_id: u32) -> (source: Result<ClockSource, i32>)
        ensures
            source == self.clock_of(clock_id),
    {
        match clock_id {
            0 => if self.deterministic_random {
                Ok(ClockSource::Zero)
            } else {
                Ok(ClockSource::Realtime)
            },
            1 => if self.deterministic_random {
                Ok(ClockSource::Zero)
            } else {
                Ok(ClockSource::Monotonic)
            },
            _ => Err(ERRNO_NOSYS),
        }
    }

    /// The directory behind a file descriptor and whether it may be written to.
    pub open spec fn dir_of(&self, fd: u32) -> Result<(crate::path::PathModel, bool), i32> {
        match self.entry(fd) {
            None => Err(ERRNO_BADF),
            Some(FdEntry::PreopenDir(dir)) => Ok((dir.root@, dir.writable)),
            Some(FdEntry::OpenDir { root, writable }) => Ok((root@, writable)),
            Some(_) => Err(ERRNO_NOTDIR),
        }
    }

    /// The directory behind a file descriptor and whether it may be written to.
    pub fn fd_dir(&self, fd: u32) -> (dir: Result<(HostPath, bool), i32>)
        ensures
            dir_result(dir) == self.dir_of(fd),
    {
        match self.fd_entry(fd) {
            Some(entry) => dir_root_from_entry(entry),
            None => Err(ERRNO_BADF),
        }
    }
}

/// Whether `bytes` are random bytes that a context gives: zeros where random numbers are replaced
/// by zeros, and otherwise the bytes of blocks that were drawn from its counter.
pub open spec fn are_given(ctx: WasiProcMacroCtx, bytes: Seq<u8>) -> bool {
    if ctx.deterministic_random {
        forall|i: int| 0 <= i < bytes.len() ==> bytes[i] == 0
    } else {
        exists|blocks: Seq<u64>| #[trigger]
            random::are_drawn(blocks, ctx.random_counter, bytes.len()) && bytes
                == random::block_bytes(blocks).take(bytes.len() as int)
    }
}

/// A context after `len` random bytes were drawn.
pub open spec fn drawn(ctx: WasiProcMacroCtx, len: nat) -> WasiProcMacroCtx {
    if ctx.deterministic_random {
        ctx
    } else {
        WasiProcMacroCtx {
            random_counter: random::advanced(ctx.random_counter, random::blocks_for(len)),
            ..ctx
        }
    }
}

/// The table of file descriptors that a guest starts with.
pub open spec fn initial_fds(preopens: Seq<PreopenDir>) -> Seq<Option<FdEntry>> {
    seq![Some(FdEntry::Stdin), Some(FdEntry::Stdout), Some(FdEntry::Stderr)] + Seq::new(
        preopens.len(),
        |i: int| Some(FdEntry::PreopenDir(preopens[i])),
    )
}

/// Where bytes are written to.
#[derive(Clone, Copy, Debug, PartialEq, Eq, Structural)]
pub enum WriteTarget {
    Stdout,
    Stderr,
    File(u64),
}

/// Where a seek is to go.
#[derive(Clone, Copy, Debug, PartialEq, Eq, Structural)]
pub enum SeekTarget {
    Start(u64),
    Current(i64),
    End(i64),
}

/// Where a time comes from.
#[derive(Clone, Copy, Debug, PartialEq, Eq, Structural)]
pub enum ClockSource {
    /// No clock: the time is zero.
    Zero,
    /// The time of day.
    Realtime,
    /// The time since the start.
    Monotonic,
}

/// Whether all that was done to a context is that bytes were added to the stream that the target
/// stands for, if it stands for one.
pub open spec fn printed(
    before: WasiProcMacroCtx,
    after: WasiProcMacroCtx,
    target: WriteTarget,
    bytes: Seq<u8>,
) -> bool {
    &&& after == (WasiProcMacroCtx {
        stdout_capture: after.stdout_capture,
        stderr_capture: after.stderr_capture,
        ..before
    })
    &&& after.stdout_capture@ == (if target is Stdout {
        before.stdout_capture@ + bytes
    } else {
        before.stdout_capture@
    })
    &&& after.stderr_capture@ == (if target is Stderr {
        before.stderr_capture@ + bytes
    } else {
        before.stderr_capture@
    })
}

/// The chunks of a write that were attempted: those that were delivered, and the next one.
pub open spec fn attempted(chunks: Seq<Seq<u8>>, delivered: nat) -> Seq<Seq<u8>> {
    if delivered < chunks.len() {
        chunks.take((delivered + 1) as int)
    } else {
        chunks
    }
}

/// The length of all chunks together, or the largest number where that is more.
pub open spec fn saturated_total(chunks: Seq<Seq<u8>>) -> u32
    decreases chunks.len(),
{
    if chunks.len() == 0 {
        0
    } else {
        let total = saturated_total(chunks.drop_last()) + (chunks.last().len() as usize as u32);
        if total > u32::MAX {
            u32::MAX
        } else {
            total as u32
        }
    }
}

/// How many bytes the guest is told to have written, where the host has taken the first
/// `delivered` chunks.
pub open spec fn written_of(chunks: Seq<Seq<u8>>, delivered: nat) -> Result<u32, i32> {
    if delivered == chunks.len() {
        Ok(saturated_total(chunks))
    } else {
        Err(ERRNO_IO)
    }
}

/// What a result says of a directory.
pub open spec fn dir_result(result: Result<(HostPath, bool), i32>) -> Result<
    (crate::path::PathModel, bool),
    i32,
> {
    match result {
        Ok(dir) => Ok((dir.0@, dir.1)),
        Err(errno) => Err(errno),
    }
}

/// The directory that an entry stands for and whether it may be written to.
pub fn dir_root_from_entry(entry: &FdEntry) -> (dir: Result<(HostPath, bool), i32>)
    ensures
        dir_result(dir) == (match *entry {
            FdEntry::PreopenDir(dir) => Ok((dir.root@, dir.writable)),
            FdEntry::OpenDir { root, writable } => Ok((root@, writable)),
            _ => Err(ERRNO_NOTDIR),
        }),
{
    match entry {
        FdEntry::PreopenDir(dir) => Ok((dir.root.duplicate(), dir.writable)),
        FdEntry::OpenDir { root, writable } => Ok((root.duplicate(), *writable)),
        _ => Err(ERRNO_NOTDIR),
    }
}

/// The resolution of a clock: a nanosecond, for the clocks that exist.
pub open spec fn resolution(clock_id: u32) -> Result<u64, i32> {
    if clock_id <= 1 {
        Ok(1)
    } else {
        Err(ERRNO_NOSYS)
    }
}

/// The resolution of a clock.
pub fn clock_res_get(clock_id: u32) -> (nanos: Result<u64, i32>)
    ensures
        nanos == resolution(clock_id),
{
    match clock_id {
        0 | 1 => Ok(1),
        _ => Err(ERRNO_NOSYS),
    }
}

/// The time of a clock, of which the host has read the nanoseconds. A time of day before 1970
/// cannot be told.
pub open spec fn clock_time(source: ClockSource, nanos: Option<u128>) -> Result<u64, i32> {
    match source {
        ClockSource::Zero => Ok(0),
        _ => match nanos {
            Some(nanos) => Ok((nanos % 0x1_0000_0000_0000_0000) as u64),
            None => Err(ERRNO_IO),
        },
    }
}

/// The time of a clock, of which the host has read the nanoseconds.
pub fn clock_reading(source: ClockSource, nanos: Option<u128>) -> (time: Result<u64, i32>)
    ensures
        time == clock_time(source, nanos),
{
    match source {
        ClockSource::Zero => Ok(0),
        _ => match nanos {
            Some(nanos) => Ok((nanos % 0x1_0000_0000_0000_0000) as u64),
            None => Err(ERRNO_IO),
        },
    }
}

/// What is printed is added to what was printed before, and touches nothing else.
pub proof fn law_prints_accumulate(
    first: WasiProcMacroCtx,
    second: WasiProcMacroCtx,
    third: WasiProcMacroCtx,
    target: WriteTarget,
    a: Seq<u8>,
    b: Seq<u8>,
)
    requires
        printed(first, second, target, a),
        printed(second, third, target, b),
    ensures
        printed(first, third, target, a + b),
{
    assert(first.stdout_capture@ + a + b =~= first.stdout_capture@ + (a + b));
    assert(first.stderr_capture@ + a + b =~= first.stderr_capture@ + (a + b));
}

/// Where random numbers are replaced by zeros, each clock that exists stands at zero, and no
/// random number is drawn.
pub proof fn law_deterministic_guests_see_zeros(
    ctx: &WasiProcMacroCtx,
    clock_id: u32,
    nanos: Option<u128>,
    len: nat,
)
    requires
        ctx.deterministic_random,
    ensures
        clock_id <= 1 ==> (ctx.clock_of(clock_id) matches Ok(source) && clock_time(source, nanos)
            == Ok::<u64, i32>(0)),
        drawn(*ctx, len) == *ctx,
{
}

/// The slot for a new entry is the first one that is free, and the end of the table where none is.
pub proof fn law_first_free_slot(fds: Seq<Option<FdEntry>>, slot: nat)
    requires
        slot <= fds.len(),
        forall|i: int| 0 <= i < slot ==> (#[trigger] fds[i]) is Some,
        slot < fds.len() ==> fds[slot as int] is None,
    ensures
        free_slot(fds, 0) == slot,
        forall|entry: FdEntry| #[trigger]
            with_entry(fds, entry) == (if slot == fds.len() {
                fds.push(Some(entry))
            } else {
                fds.update(slot as int, Some(entry))
            }),
{
    lemma_free_slot_from(fds, 0, slot);
}

/// No slot before the first free one is free.
proof fn lemma_free_slot_from(fds: Seq<Option<FdEntry>>, from: nat, slot: nat)
    requires
        from <= slot <= fds.len(),
        forall|i: int| 0 <= i < slot ==> (#[trigger] fds[i]) is Some,
        slot < fds.len() ==> fds[slot as int] is None,
    ensures
        free_slot(fds, from) == slot,
    decreases slot - from,
{
    if from < slot {
        assert(fds[from as int] is Some);
        lemma_free_slot_from(fds, from + 1, slot);
    }
}

/// What a descriptor stands for is what the table holds under its number, and nothing beyond the
/// table.
pub proof fn law_entries(ctx: &WasiProcMacroCtx, fd: u32)
    ensures
        fd < ctx.fds@.len() ==> ctx.entry(fd) == ctx.fds@[fd as int],
        fd >= ctx.fds@.len() ==> ctx.entry(fd) is None,
{
}

/// What can be done with a descriptor that stands for nothing: nothing at all, except that the
/// numbers 1 and 2 are always those of the output streams.
pub proof fn law_closed_descriptors(ctx: &WasiProcMacroCtx, fd: u32, offset: i64, whence: u8)
    requires
        ctx.entry(fd) is None,
    ensures
        ctx.file_of(fd) == Err::<u64, i32>(8),
        fd != 1 && fd != 2 ==> ctx.target_of(fd) == Err::<WriteTarget, i32>(8),
        ctx.release_of(fd) == Err::<Option<u64>, i32>(8),
        ctx.seek_of(fd, offset, whence) == Err::<(u64, SeekTarget), i32>(8),
        ctx.filetype_of(fd) == Err::<u8, i32>(8),
        ctx.preopen_of(fd) is None,
        ctx.dir_of(fd) == Err::<(crate::path::PathModel, bool), i32>(8),
        ctx.fds_without(fd) == ctx.fds@,
{
}

/// What can be done with a standard stream: it is described as a character device. Only the numbers
/// 1 and 2 can be written to.
pub proof fn law_stream_descriptors(ctx: &WasiProcMacroCtx, fd: u32, offset: i64, whence: u8)
    requires
        ctx.entry(fd) matches Some(entry) && (entry == FdEntry::Stdin || entry == FdEntry::Stdout
            || entry == FdEntry::Stderr),
    ensures
        ctx.file_of(fd) == Err::<u64, i32>(8),
        fd != 1 && fd != 2 ==> ctx.target_of(fd) == Err::<WriteTarget, i32>(8),
        ctx.release_of(fd) == Err::<Option<u64>, i32>(8),
        ctx.seek_of(fd, offset, whence) == Err::<(u64, SeekTarget), i32>(8),
        ctx.filetype_of(fd) == Ok::<u8, i32>(2),
        ctx.preopen_of(fd) is None,
        ctx.dir_of(fd) == Err::<(crate::path::PathModel, bool), i32>(54),
        ctx.fds_without(fd) == ctx.fds@,
{
}

/// The numbers 1 and 2 are those of the output streams, whatever they stand for.
pub proof fn law_output_streams(ctx: &WasiProcMacroCtx)
    ensures
        ctx.target_of(1) == Ok::<WriteTarget, i32>(WriteTarget::Stdout),
        ctx.target_of(2) == Ok::<WriteTarget, i32>(WriteTarget::Stderr),
{
}

/// What can be done with a directory that was open from the start: it has a name, paths can be
/// named in it, and it cannot be closed.
pub proof fn law_preopen_descriptors(
    ctx: &WasiProcMacroCtx,
    fd: u32,
    dir: PreopenDir,
    offset: i64,
    whence: u8,
)
    requires
        ctx.entry(fd) == Some(FdEntry::PreopenDir(dir)),
    ensures
        ctx.file_of(fd) == Err::<u64, i32>(8),
        fd != 1 && fd != 2 ==> ctx.target_of(fd) == Err::<WriteTarget, i32>(8),
        ctx.release_of(fd) == Err::<Option<u64>, i32>(8),
        ctx.seek_of(fd, offset, whence) == Err::<(u64, SeekTarget), i32>(8),
        ctx.filetype_of(fd) == Ok::<u8, i32>(3),
        ctx.preopen_of(fd) == Some(dir),
        ctx.dir_of(fd) == Ok::<(crate::path::PathModel, bool), i32>((dir.root@, dir.writable)),
        ctx.fds_without(fd) == ctx.fds@,
{
}

/// What can be done with a directory that was opened: paths can be named in it, and it can be
/// closed, which concerns no file of the host.
pub proof fn law_opened_directories(
    ctx: &WasiProcMacroCtx,
    fd: u32,
    root: HostPath,
    writable: bool,
    offset: i64,
    whence: u8,
)
    requires
        ctx.entry(fd) == Some(FdEntry::OpenDir { root, writable }),
    ensures
        ctx.file_of(fd) == Err::<u64, i32>(8),
        fd != 1 && fd != 2 ==> ctx.target_of(fd) == Err::<WriteTarget, i32>(8),
        ctx.release_of(fd) == Ok::<Option<u64>, i32>(None),
        ctx.seek_of(fd, offset, whence) == Err::<(u64, SeekTarget), i32>(8),
        ctx.filetype_of(fd) == Ok::<u8, i32>(3),
        ctx.preopen_of(fd) is None,
        ctx.dir_of(fd) == Ok::<(crate::path::PathModel, bool), i32>((root@, writable)),
        ctx.fds_without(fd) == ctx.fds@.update(fd as int, None),
{
}

/// What can be done with a file that was opened: it can be read and positioned, written to if it
/// was opened for that, and closed. A position counts from the start, from where the file stands,
/// or from its end.
pub proof fn law_opened_files(
    ctx: &WasiProcMacroCtx,
    fd: u32,
    file: u64,
    writable: bool,
    offset: i64,
    whence: u8,
)
    requires
        ctx.entry(fd) == Some(FdEntry::OpenFile { file, writable }),
    ensures
        ctx.file_of(fd) == Ok::<u64, i32>(file),
        fd != 1 && fd != 2 ==> ctx.target_of(fd) == (if writable {
            Ok::<WriteTarget, i32>(WriteTarget::File(file))
        } else {
            Err(63)
        }),
        ctx.release_of(fd) == Ok::<Option<u64>, i32>(Some(file)),
        whence == 0 ==> ctx.seek_of(fd, offset, whence) == Ok::<(u64, SeekTarget), i32>(
            (file, SeekTarget::Start(offset as u64)),
        ),
        whence == 1 ==> ctx.seek_of(fd, offset, whence) == Ok::<(u64, SeekTarget), i32>(
            (file, SeekTarget::Current(offset)),
        ),
        whence == 2 ==> ctx.seek_of(fd, offset, whence) == Ok::<(u64, SeekTarget), i32>(
            (file, SeekTarget::End(offset)),
        ),
        whence > 2 ==> ctx.seek_of(fd, offset, whence) == Err::<(u64, SeekTarget), i32>(28),
        ctx.filetype_of(fd) == Ok::<u8, i32>(4),
        ctx.preopen_of(fd) is None,
        ctx.dir_of(fd) == Err::<(crate::path::PathModel, bool), i32>(54),
        ctx.fds_without(fd) == ctx.fds@.update(fd as int, None),
{
}

/// The numbers for kinds of files.
pub proof fn law_kinds_of_files()
    ensures
        FILETYPE_UNKNOWN == 0,
        FILETYPE_CHARACTER_DEVICE == 2,
        FILETYPE_DIRECTORY == 3,
        FILETYPE_REGULAR_FILE == 4,
        FILETYPE_SYMBOLIC_LINK == 7,
{
}

/// There are two clocks, the time of day and the time since the start, each with a resolution of a
/// nanosecond. Each is read by the host, and is told modulo the largest number, unless random
/// numbers are replaced by zeros.
pub proof fn law_clocks(ctx: &WasiProcMacroCtx, clock_id: u32, nanos: u128)
    ensures
        clock_id > 1 ==> ctx.clock_of(clock_id) == Err::<ClockSource, i32>(52) && resolution(
            clock_id,
        ) == Err::<u64, i32>(52),
        clock_id <= 1 ==> resolution(clock_id) == Ok::<u64, i32>(1),
        !ctx.deterministic_random ==> ctx.clock_of(0) == Ok::<ClockSource, i32>(
            ClockSource::Realtime,
        ) && ctx.clock_of(1) == Ok::<ClockSource, i32>(ClockSource::Monotonic),
        ctx.deterministic_random ==> ctx.clock_of(0) == Ok::<ClockSource, i32>(ClockSource::Zero)
            && ctx.clock_of(1) == Ok::<ClockSource, i32>(ClockSource::Zero),
        clock_time(ClockSource::Realtime, Some(nanos)) == Ok::<u64, i32>(
            (nanos % 0x1_0000_0000_0000_0000) as u64,
        ),
        clock_time(ClockSource::Monotonic, Some(nanos)) == Ok::<u64, i32>(
            (nanos % 0x1_0000_0000_0000_0000) as u64,
        ),
        nanos <= 0xffff_ffff_ffff_ffff ==> clock_time(ClockSource::Realtime, Some(nanos)) == Ok::<
            u64,
            i32,
        >(nanos as u64) && clock_time(ClockSource::Monotonic, Some(nanos)) == Ok::<u64, i32>(
            nanos as u64,
        ),
        clock_time(ClockSource::Realtime, None) == Err::<u64, i32>(29),
        clock_time(ClockSource::Monotonic, None) == Err::<u64, i32>(29),
        forall|told: Option<u128>|
            #[trigger] clock_time(ClockSource::Zero, told) == Ok::<u64, i32>(0),
{
}

/// Random bytes are zeros where random numbers are replaced by zeros. Otherwise they are the bytes
/// of as many blocks as are needed, and as many numbers of the counter are used up; nothing else of
/// the context changes.
pub proof fn law_random_bytes(ctx: WasiProcMacroCtx, bytes: Seq<u8>)
    requires
        are_given(ctx, bytes),
    ensures
        ctx.deterministic_random ==> bytes == Seq::new(bytes.len(), |i: int| 0u8) && drawn(
            ctx,
            bytes.len(),
        ) == ctx,
        !ctx.deterministic_random ==> exists|blocks: Seq<u64>|
            #![trigger random::block_bytes(blocks)]
            random::are_drawn(blocks, ctx.random_counter, bytes.len()) && bytes
                == random::block_bytes(blocks).take(bytes.len() as int),
        !ctx.deterministic_random ==> drawn(ctx, bytes.len()) == (WasiProcMacroCtx {
            random_counter: ((ctx.random_counter + (bytes.len() + 7) / 8)
                % 0x1_0000_0000_0000_0000) as u64,
            ..ctx
        }),
{
    if ctx.deterministic_random {
        assert(bytes =~= Seq::new(bytes.len(), |i: int| 0u8));
    }
}

/// A guest starts with the three streams under the numbers 0, 1 and 2, and its directories in their
/// order from 3 on.
pub proof fn law_first_descriptors(preopens: Seq<PreopenDir>)
    ensures
        initial_fds(preopens).len() == preopens.len() + 3,
        initial_fds(preopens)[0] == Some(FdEntry::Stdin),
        initial_fds(preopens)[1] == Some(FdEntry::Stdout),
        initial_fds(preopens)[2] == Some(FdEntry::Stderr),
        forall|i: int|
            0 <= i < preopens.len() ==> initial_fds(preopens)[i + 3] == Some(
                FdEntry::PreopenDir(#[trigger] preopens[i]),
            ),
{
}

/// What is printed to a stream is added to what it has, and to nothing else; what is written to a
/// file is added to no stream.
pub proof fn law_printing(
    before: WasiProcMacroCtx,
    after: WasiProcMacroCtx,
    target: WriteTarget,
    bytes: Seq<u8>,
)
    requires
        printed(before, after, target, bytes),
    ensures
        target == WriteTarget::Stdout ==> after.stdout_capture@ == before.stdout_capture@ + bytes
            && after.stderr_capture@ == before.stderr_capture@,
        target == WriteTarget::Stderr ==> after.stderr_capture@ == before.stderr_capture@ + bytes
            && after.stdout_capture@ == before.stdout_capture@,
        target is File ==> after.stdout_capture@ == before.stdout_capture@
            && after.stderr_capture@ == before.stderr_capture@,
        after.args_entries == before.args_entries,
        after.env_entries == before.env_entries,
        after.mirror_stdio == before.mirror_stdio,
        after.deterministic_random == before.deterministic_random,
        after.random_state == before.random_state,
        after.random_counter == before.random_counter,
        after.fds == before.fds,
{
}

/// A write that the host has taken whole is told by its length, as long as that can be told, and
/// all of it is kept. Of another write the part that the host has taken is kept, and the chunk that
/// it has not; it is an error.
pub proof fn law_writes(chunks: Seq<Seq<u8>>, delivered: nat)
    requires
        delivered <= chunks.len(),
    ensures
        delivered == chunks.len() ==> attempted(chunks, delivered) == chunks && written_of(
            chunks,
            delivered,
        ) is Ok,
        delivered == chunks.len() && chunks.flatten().len() <= 0xffff_ffff ==> written_of(
            chunks,
            delivered,
        ) == Ok::<u32, i32>(chunks.flatten().len() as u32),
        delivered < chunks.len() ==> attempted(chunks, delivered) == chunks.take(
            (delivered + 1) as int,
        ) && written_of(chunks, delivered) == Err::<u32, i32>(29),
{
    lemma_saturated_total(chunks);
}

/// The length of all chunks, where it can be told.
proof fn lemma_saturated_total(chunks: Seq<Seq<u8>>)
    ensures
        chunks.flatten().len() <= 0xffff_ffff ==> saturated_total(chunks) == chunks.flatten().len(),
    decreases chunks.len(),
{
    if chunks.len() > 0 {
        let fewer = chunks.drop_last();
        lemma_saturated_total(fewer);
        assert(fewer.push(chunks.last()) =~= chunks);
        fewer.lemma_flatten_push(chunks.last());
    }
}

/// The length of all chunks is told as the largest number where it is more, as long as the length
/// of each can be told.
pub proof fn law_totals_are_capped(chunks: Seq<Seq<u8>>)
    requires
        forall|i: int| 0 <= i < chunks.len() ==> (#[trigger] chunks[i]).len() <= 0xffff_ffff,
    ensures
        saturated_total(chunks) == (if chunks.flatten().len() <= 0xffff_ffff {
            chunks.flatten().len() as u32
        } else {
            0xffff_ffffu32
        }),
    decreases chunks.len(),
{
    if chunks.len() > 0 {
        let fewer = chunks.drop_last();
        assert forall|i: int| 0 <= i < fewer.len() implies (#[trigger] fewer[i]).len()
            <= 0xffff_ffff by {
            assert(fewer[i] == chunks[i]);
        }
        law_totals_are_capped(fewer);
        assert(chunks[chunks.len() - 1] == chunks.last());
        assert(fewer.push(chunks.last()) =~= chunks);
        fewer.lemma_flatten_push(chunks.last());
    }
}

/// What is found for a directory is where it is and whether it may be written to.
pub proof fn law_found_directories(root: HostPath, writable: bool, errno: i32)
    ensures
        dir_result(Ok((root, writable))) == Ok::<(crate::path::PathModel, bool), i32>(
            (root@, writable),
        ),
        dir_result(Err(errno)) == Err::<(crate::path::PathModel, bool), i32>(errno),
{
}

} // verus!
