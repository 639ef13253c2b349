//! Opening files and directories, and what the guest is told about them.
use crate::errno::{
    io_error_to_errno, IoErrorKind, ERRNO_BADF, ERRNO_INVAL, ERRNO_IO, ERRNO_NOTDIR, ERRNO_PERM,
};
use crate::path;
use crate::path::{HostPath, PathModel};
use crate::resolve;
use crate::resolve::{
    normalize_rel_path, resolve_existing_in_preopen, resolve_in_preopen, PathProbe,
};
use crate::wasi_ctx;
use crate::wasi_ctx::{
    FdEntry, WasiProcMacroCtx, FILETYPE_CHARACTER_DEVICE, FILETYPE_DIRECTORY,
    FILETYPE_REGULAR_FILE, FILETYPE_SYMBOLIC_LINK, FILETYPE_UNKNOWN,
};
use vstd::prelude::*;

verus! {

/// The right to write, among the rights that a guest asks for.
pub const RIGHTS_FD_WRITE: u64 = 64;

/// Create the file where it does not exist.
pub const OFLAGS_CREAT: u32 = 1;

/// Open a directory, and nothing else.
pub const OFLAGS_DIRECTORY: u32 = 2;

/// Make the file empty.
pub const OFLAGS_TRUNC: u32 = 8;

/// Follow symbolic links.
pub const LOOKUP_SYMLINK_FOLLOW: u32 = 1;

/// What the guest is told of a file.
#[derive(Clone, Copy, Debug, PartialEq, Eq, Structural)]
pub struct Filestat {
    pub dev: u64,
    pub ino: u64,
    pub filetype: u8,
    pub nlink: u64,
    pub size: u64,
    pub atim: u64,
    pub mtim: u64,
    pub ctim: u64,
}

/// What the host says of a file. A time is in nanoseconds since 1970, where the host can tell
/// it and it is not earlier.
#[derive(Clone, Copy, Debug, PartialEq, Eq, Structural)]
pub struct HostMetadata {
    pub is_symlink: bool,
    pub is_dir: bool,
    pub len: u64,
    pub accessed: Option<u128>,
    pub modified: Option<u128>,
    pub created: Option<u128>,
}

/// A time in nanoseconds as the guest is told: zero where there is none, and no more than the
/// largest number.
pub open spec fn wasi_nanos(time: Option<u128>) -> u64 {
    match time {
        Some(nanos) => if nanos > u64::MAX {
            u64::MAX
        } else {
            nanos as u64
        },
        None => 0,
    }
}

/// What the guest is told of a file that the host says this of.
pub open spec fn filestat_of(meta: HostMetadata) -> Filestat {
    Filestat {
        dev: 0,
        ino: 0,
        filetype: if meta.is_symlink {
            FILETYPE_SYMBOLIC_LINK
        } else if meta.is_dir {
            FILETYPE_DIRECTORY
        } else {
            FILETYPE_REGULAR_FILE
        },
        nlink: 1,
        size: meta.len,
        atim: wasi_nanos(meta.accessed),
        mtim: wasi_nanos(meta.modified),
        ctim: wasi_nanos(meta.created),
    }
}

/// A time in nanoseconds as the guest is told.
pub fn system_time_to_wasi_nanos(time: Option<u128>) -> (nanos: u64)
    ensures
        nanos == wasi_nanos(time),
{
    match time {
        Some(nanos) => if nanos > u64::MAX as u128 {
            u64::MAX
        } else {
            nanos as u64
        },
        None => 0,
    }
}

/// What the guest is told of a file that the host says this of.
pub fn metadata_to_filestat(meta: &HostMetadata) -> (stat: Filestat)
    ensures
        stat == filestat_of(*meta),
{
    let filetype: u8 = if meta.is_symlink {
        FILETYPE_SYMBOLIC_LINK
    } else if meta.is_dir {
        FILETYPE_DIRECTORY
    } else {
        FILETYPE_REGULAR_FILE
    };
    Filestat {
        dev: 0,
        ino: 0,
        filetype,
        nlink: 1,
        size: meta.len,
        atim: system_time_to_wasi_nanos(meta.accessed),
        mtim: system_time_to_wasi_nanos(meta.modified),
        ctim: system_time_to_wasi_nanos(meta.created),
    }
}

/// The kind of an entry of a directory.
pub open spec fn wasi_filetype(is_symlink: bool, is_dir: bool, is_file: bool) -> u8 {
    if is_symlink {
        FILETYPE_SYMBOLIC_LINK
    } else if is_dir {
        FILETYPE_DIRECTORY
    } else if is_file {
        FILETYPE_REGULAR_FILE
    } else {
        FILETYPE_UNKNOWN
    }
}

/// The kind of an entry of a directory.
pub fn std_filetype_to_wasi(is_symlink: bool, is_dir: bool, is_file: bool) -> (filetype: u8)
    ensures
        filetype == wasi_filetype(is_symlink, is_dir, is_file),
{
    if is_symlink {
        FILETYPE_SYMBOLIC_LINK
    } else if is_dir {
        FILETYPE_DIRECTORY
    } else if is_file {
        FILETYPE_REGULAR_FILE
    } else {
        FILETYPE_UNKNOWN
    }
}

/// What has to be looked at to describe a file descriptor.
#[derive(Debug)]
pub enum StatSource {
    /// Nothing: it is a standard stream.
    Stream,
    /// A directory.
    Dir(HostPath),
    /// An open file.
    File(u64),
}

/// What has to be looked at to describe a file descriptor.
pub fn fd_filestat_source(ctx: &WasiProcMacroCtx, fd: u32) -> (source: Result<StatSource, i32>)
    ensures
        match ctx.entry(fd) {
            None => source == Err::<StatSource, i32>(ERRNO_BADF),
            Some(FdEntry::Stdin | FdEntry::Stdout | FdEntry::Stderr) => source == Ok::<
                StatSource,
                i32,
            >(StatSource::Stream),
            Some(FdEntry::PreopenDir(dir)) => source matches Ok(StatSource::Dir(root)) && root@
                == dir.root@,
            Some(FdEntry::OpenDir { root: dir, .. }) => source matches Ok(StatSource::Dir(root))
                && root@ == dir@,
            Some(FdEntry::OpenFile { file, .. }) => source == Ok::<StatSource, i32>(
                StatSource::File(file),
            ),
        },
{
    match ctx.fd_entry(fd) {
        None => Err(ERRNO_BADF),
        Some(FdEntry::Stdin) | Some(FdEntry::Stdout) | Some(FdEntry::Stderr) => Ok(
            StatSource::Stream,
        ),
        Some(FdEntry::PreopenDir(dir)) => Ok(StatSource::Dir(dir.root.duplicate())),
        Some(FdEntry::OpenDir { root, .. }) => Ok(StatSource::Dir(root.duplicate())),
        Some(FdEntry::OpenFile { file, .. }) => Ok(StatSource::File(*file)),
    }
}

/// The description of a file descriptor, from what the host says of its source.
pub fn fd_filestat(source: &StatSource, meta: Option<HostMetadata>) -> (stat: Result<Filestat, i32>)
    ensures
        stat == (match *source {
            StatSource::Stream => Ok(
                Filestat {
                    dev: 0,
                    ino: 0,
                    filetype: FILETYPE_CHARACTER_DEVICE,
                    nlink: 1,
                    size: 0,
                    atim: 0,
                    mtim: 0,
                    ctim: 0,
                },
            ),
            StatSource::Dir(_) => match meta {
                Some(meta) => Ok(Filestat { filetype: FILETYPE_DIRECTORY, ..filestat_of(meta) }),
                None => Err(ERRNO_IO),
            },
            StatSource::File(_) => match meta {
                Some(meta) => Ok(filestat_of(meta)),
                None => Err(ERRNO_IO),
            },
        }),
{
    match source {
        StatSource::Stream => Ok(
            Filestat {
                dev: 0,
                ino: 0,
                filetype: FILETYPE_CHARACTER_DEVICE,
                nlink: 1,
                size: 0,
                atim: 0,
                mtim: 0,
                ctim: 0,
            },
        ),
        StatSource::Dir(_) => match meta {
            Some(meta) => {
                let mut stat = metadata_to_filestat(&meta);
                stat.filetype = FILETYPE_DIRECTORY;
                Ok(stat)
            },
            None => Err(ERRNO_IO),
        },
        StatSource::File(_) => match meta {
            Some(meta) => Ok(metadata_to_filestat(&meta)),
            None => Err(ERRNO_IO),
        },
    }
}

/// A path below a directory, before the host is asked about it.
#[derive(Debug)]
pub struct Lookup {
    /// The directory.
    pub root: HostPath,
    /// The path as the guest wrote it.
    pub rel: HostPath,
    /// Where the path leads, as far as its names say.
    pub target: HostPath,
}

impl Lookup {
    /// Whether the lookup is that of a guest path below a directory.
    pub open spec fn is_of(&self, root: PathModel, rel: Seq<u8>) -> bool {
        &&& self.root@ == root
        &&& self.rel@ == path::path_of(root.kind, rel)
        &&& resolve::is_safe(self.rel@)
        &&& self.target@ == root.join(resolve::normalized(self.rel@))
    }
}

/// All paths of a lookup have the names that occur in a path, if those of its directory do.
pub proof fn law_lookup_names(lookup: &Lookup, root: PathModel, rel: Seq<u8>)
    requires
        lookup.is_of(root, rel),
        root.wf(),
    ensures
        lookup.root@.wf(),
        lookup.rel@.wf(),
        lookup.target@.wf(),
{
    path::law_parsed_names(root.kind, rel);
    resolve::law_target_names(root, path::path_of(root.kind, rel));
}

/// A path below a directory; an error where it could lead out of it.
fn look_up(root: HostPath, rel: &[u8]) -> (lookup: Result<Lookup, i32>)
    ensures
        resolve::is_safe(path::path_of(root@.kind, rel@)) <==> lookup is Ok,
        lookup matches Ok(lookup) ==> lookup.is_of(root@, rel@),
        lookup matches Err(errno) ==> errno == ERRNO_PERM,
{
    let rel = HostPath::parse_as(root.kind, rel);
    match normalize_rel_path(&rel) {
        Ok(normalized) => {
            let target = root.join(&normalized);
            Ok(Lookup { root, rel, target })
        },
        Err(errno) => Err(errno),
    }
}

/// A request to describe a path.
#[derive(Debug)]
pub struct PathStat {
    pub lookup: Lookup,
    pub follow_symlink: bool,
}

/// Why a path cannot be described before the host is asked, if it cannot.
pub open spec fn path_stat_error(ctx: &WasiProcMacroCtx, dirfd: u32, rel: Seq<u8>) -> Option<i32> {
    if !vstd::utf8::valid_utf8(rel) {
        Some(ERRNO_INVAL)
    } else {
        match ctx.dir_of(dirfd) {
            Err(errno) => Some(errno),
            Ok((root, _)) => if resolve::is_safe(path::path_of(root.kind, rel)) {
                None
            } else {
                Some(ERRNO_PERM)
            },
        }
    }
}

/// Starts to describe a path below a directory.
pub fn path_filestat(ctx: &WasiProcMacroCtx, dirfd: u32, lookupflags: u32, rel: &[u8]) -> (request:
    Result<PathStat, i32>)
    ensures
        match path_stat_error(ctx, dirfd, rel@) {
            Some(errno) => request == Err::<PathStat, i32>(errno),
            None => request matches Ok(request) && request.lookup.is_of(
                ctx.dir_of(dirfd)->Ok_0.0,
                rel@,
            ) && request.follow_symlink == (lookupflags & LOOKUP_SYMLINK_FOLLOW != 0),
        },
{
    if std::str::from_utf8(rel).is_err() {
        return Err(ERRNO_INVAL);
    }
    let (root, _): (HostPath, bool) = match ctx.fd_dir(dirfd) {
        Ok(dir) => dir,
        Err(errno) => return Err(errno),
    };
    match look_up(root, rel) {
        Ok(lookup) => Ok(
            PathStat { lookup, follow_symlink: (lookupflags & LOOKUP_SYMLINK_FOLLOW) != 0 },
        ),
        Err(errno) => Err(errno),
    }
}

/// The path to describe, from what the host says of the lookup.
pub fn path_filestat_resolve(request: &PathStat, probe: &PathProbe) -> (found: Result<
    HostPath,
    i32,
>)
    ensures
        resolve::path_result(found) == resolve::resolved_existing(
            request.lookup.root@,
            request.lookup.rel@,
            request.follow_symlink,
            probe,
        ),
        found matches Ok(found) ==> request.lookup.root@.wf() && request.lookup.rel@.wf()
            && probe.wf() ==> found@.wf(),
{
    resolve_existing_in_preopen(
        &request.lookup.root,
        &request.lookup.rel,
        request.follow_symlink,
        probe,
    )
}

/// The description of a path, from what the host says of it.
pub fn path_filestat_finish(meta: Result<HostMetadata, IoErrorKind>) -> (stat: Result<
    Filestat,
    i32,
>)
    ensures
        stat == (match meta {
            Ok(meta) => Ok(filestat_of(meta)),
            Err(kind) => Err(crate::errno::errno_of(kind)),
        }),
{
    match meta {
        Ok(meta) => Ok(metadata_to_filestat(&meta)),
        Err(kind) => Err(io_error_to_errno(kind)),
    }
}

/// Whether a guest asks for more than reading: it wants the file created or emptied, it sets a
/// flag of the descriptor, or it asks for the right to write.
pub open spec fn wants_write(oflags: u32, fdflags: u32, rights_base: u64) -> bool {
    ||| oflags & OFLAGS_CREAT != 0
    ||| oflags & OFLAGS_TRUNC != 0
    ||| fdflags != 0
    ||| rights_base & RIGHTS_FD_WRITE != 0
}

/// Whether a guest asks for more than reading.
pub fn wants_write_access(oflags: u32, fdflags: u32, rights_base: u64) -> (yes: bool)
    ensures
        yes == wants_write(oflags, fdflags, rights_base),
{
    let create_or_trunc: bool = (oflags & OFLAGS_CREAT) != 0 || (oflags & OFLAGS_TRUNC) != 0;
    let fd_writeish: bool = fdflags != 0;
    let rights_write: bool = (rights_base & RIGHTS_FD_WRITE) != 0;
    create_or_trunc || fd_writeish || rights_write
}

/// How a file is to be opened. It is always opened for reading.
#[derive(Clone, Copy, Debug, PartialEq, Eq, Structural)]
pub struct OpenOptions {
    pub write: bool,
    pub create: bool,
    pub truncate: bool,
}

/// A request to open a file or a directory.
#[derive(Debug)]
pub struct PathOpen {
    pub lookup: Lookup,
    /// Whether the directory that the path was named in may be written to.
    pub writable: bool,
    pub write_requested: bool,
    pub want_directory: bool,
    pub options: OpenOptions,
}

impl PathOpen {
    /// Whether the request was let through: it asks to write only below a directory that may be
    /// written to.
    pub open spec fn wf(&self) -> bool {
        &&& self.write_requested ==> self.writable
        &&& self.options.write == self.write_requested
        &&& self.options.create ==> self.write_requested
        &&& self.options.truncate ==> self.write_requested
    }
}

/// Why a path cannot be opened before the host is asked, if it cannot.
pub open spec fn path_open_error(
    ctx: &WasiProcMacroCtx,
    dirfd: u32,
    rel: Seq<u8>,
    write_requested: bool,
) -> Option<i32> {
    if !vstd::utf8::valid_utf8(rel) {
        Some(ERRNO_INVAL)
    } else {
        match ctx.dir_of(dirfd) {
            Err(errno) => Some(errno),
            Ok((root, writable)) => if write_requested && !writable {
                Some(ERRNO_PERM)
            } else if !resolve::is_safe(path::path_of(root.kind, rel)) {
                Some(ERRNO_PERM)
            } else {
                None
            },
        }
    }
}

/// Whether `request` asks for what the arguments say.
pub open spec fn asks_for(
    request: &PathOpen,
    ctx: &WasiProcMacroCtx,
    dirfd: u32,
    rel: Seq<u8>,
    oflags: u32,
    fdflags: u32,
    rights_base: u64,
) -> bool {
    let write = wants_write(oflags, fdflags, rights_base);
    &&& request.wf()
    &&& request.lookup.is_of(ctx.dir_of(dirfd)->Ok_0.0, rel)
    &&& request.writable == ctx.dir_of(dirfd)->Ok_0.1
    &&& request.write_requested == write
    &&& request.want_directory == (oflags & OFLAGS_DIRECTORY != 0)
    &&& request.options == (OpenOptions {
        write,
        create: oflags & OFLAGS_CREAT != 0,
        truncate: oflags & OFLAGS_TRUNC != 0,
    })
}

/// Starts to open a path below a directory.
pub fn path_open(
    ctx: &WasiProcMacroCtx,
    dirfd: u32,
    rel: &[u8],
    oflags: u32,
    fdflags: u32,
    rights_base: u64,
) -> (request: Result<PathOpen, i32>)
    ensures
        match path_open_error(ctx, dirfd, rel@, wants_write(oflags, fdflags, rights_base)) {
            Some(errno) => request == Err::<PathOpen, i32>(errno),
            None => request matches Ok(request) && asks_for(
                &request,
                ctx,
                dirfd,
                rel@,
                oflags,
                fdflags,
                rights_base,
            ),
        },
{
    if std::str::from_utf8(rel).is_err() {
        return Err(ERRNO_INVAL);
    }
    let write_requested: bool = wants_write_access(oflags, fdflags, rights_base);
    let (root, writable): (HostPath, bool) = match ctx.fd_dir(dirfd) {
        Ok(dir) => dir,
        Err(errno) => return Err(errno),
    };
    if write_requested && !writable {
        return Err(ERRNO_PERM);
    }
    match look_up(root, rel) {
        Ok(lookup) => Ok(
            PathOpen {
                lookup,
                writable,
                write_requested,
                want_directory: (oflags & OFLAGS_DIRECTORY) != 0,
                options: OpenOptions {
                    write: write_requested,
                    create: (oflags & OFLAGS_CREAT) != 0,
                    truncate: (oflags & OFLAGS_TRUNC) != 0,
                },
            },
        ),
        Err(errno) => Err(errno),
    }
}

/// The path to open for a request, from what the host says of the lookup. A directory has to
/// exist, and a link in its place is not followed.
pub open spec fn open_path(request: &PathOpen, probe: &PathProbe) -> Result<PathModel, i32> {
    if request.want_directory {
        resolve::resolved_existing(request.lookup.root@, request.lookup.rel@, false, probe)
    } else {
        resolve::resolved(request.lookup.root@, request.lookup.rel@, probe)
    }
}

/// The path to open for a request, from what the host says of the lookup.
pub fn path_open_resolve(request: &PathOpen, probe: &PathProbe) -> (found: Result<HostPath, i32>)
    ensures
        resolve::path_result(found) == open_path(request, probe),
        found matches Ok(found) ==> request.lookup.root@.wf() && request.lookup.rel@.wf()
            && probe.wf() ==> found@.wf(),
{
    if request.want_directory {
        resolve_existing_in_preopen(&request.lookup.root, &request.lookup.rel, false, probe)
    } else {
        resolve_in_preopen(&request.lookup.root, &request.lookup.rel, probe)
    }
}

/// The descriptor for a directory, if the host says that the path is one.
pub open spec fn dir_fd(fds: Seq<Option<FdEntry>>, is_dir: Result<bool, IoErrorKind>) -> Result<
    u32,
    i32,
> {
    match is_dir {
        Err(kind) => Err(crate::errno::errno_of(kind)),
        Ok(false) => Err(ERRNO_NOTDIR),
        Ok(true) => Ok(wasi_ctx::free_slot(fds, 0) as u32),
    }
}

/// The descriptor for a file that the host has opened, if it could.
pub open spec fn file_fd(fds: Seq<Option<FdEntry>>, file: Option<u64>) -> Result<u32, i32> {
    match file {
        Some(_) => Ok(wasi_ctx::free_slot(fds, 0) as u32),
        None => Err(ERRNO_IO),
    }
}

/// Whether all that was done to a context is that an entry was put into the first free slot, if
/// there is a descriptor for it.
pub open spec fn opened(
    before: WasiProcMacroCtx,
    after: WasiProcMacroCtx,
    fd: Result<u32, i32>,
    entry: FdEntry,
) -> bool {
    &&& after == (WasiProcMacroCtx { fds: after.fds, ..before })
    &&& after.fds@ == (if fd is Ok {
        wasi_ctx::with_entry(before.fds@, entry)
    } else {
        before.fds@
    })
}

/// Gives the guest a descriptor for a directory, if the host says that the path is one. It may
/// be written to if the directory may that the path was named in.
pub fn path_open_dir(
    ctx: &mut WasiProcMacroCtx,
    request: &PathOpen,
    full: HostPath,
    is_dir: Result<bool, IoErrorKind>,
) -> (fd: Result<u32, i32>)
    ensures
        fd == dir_fd(old(ctx).fds@, is_dir),
        opened(
            *old(ctx),
            *final(ctx),
            fd,
            FdEntry::OpenDir { root: full, writable: request.writable },
        ),
{
    match is_dir {
        Err(kind) => Err(io_error_to_errno(kind)),
        Ok(false) => Err(ERRNO_NOTDIR),
        Ok(true) => Ok(ctx.alloc_fd(FdEntry::OpenDir { root: full, writable: request.writable })),
    }
}

/// Gives the guest a descriptor for a file that the host has opened, if it could. It may be
/// written to if writing was asked for.
pub fn path_open_file(ctx: &mut WasiProcMacroCtx, request: &PathOpen, file: Option<u64>) -> (fd:
    Result<u32, i32>)
    ensures
        fd == file_fd(old(ctx).fds@, file),
        opened(
            *old(ctx),
            *final(ctx),
            fd,
            FdEntry::OpenFile { file: file->Some_0, writable: request.write_requested },
        ),
{
    match file {
        Some(file) => Ok(
            ctx.alloc_fd(FdEntry::OpenFile { file, writable: request.write_requested }),
        ),
        None => Err(ERRNO_IO),
    }
}

/// A path that could lead out of the directory that it is named in is refused, whether it is to
/// be opened or described.
pub proof fn law_unsafe_paths_are_not_looked_up(
    ctx: &WasiProcMacroCtx,
    dirfd: u32,
    rel: Seq<u8>,
    write_requested: bool,
)
    requires
        vstd::utf8::valid_utf8(rel),
        ctx.dir_of(dirfd) is Ok,
        ({
            let kind = ctx.dir_of(dirfd)->Ok_0.0.kind;
            ||| path::pieces(kind, rel).contains(path::parent_dir())
            ||| rel.len() > 0 && path::separates(kind, rel[0])
            ||| path::drive_of(kind, rel) is Some
        }),
    ensures
        path_open_error(ctx, dirfd, rel, write_requested) == Some(ERRNO_PERM),
        path_stat_error(ctx, dirfd, rel) == Some(ERRNO_PERM),
{
    let kind = ctx.dir_of(dirfd)->Ok_0.0.kind;
    if path::pieces(kind, rel).contains(path::parent_dir()) {
        lemma_named_keeps_parent(path::pieces(kind, rel), path::path_of(kind, rel).rooted);
    }
}

/// A name that leads to a parent directory is never left out.
proof fn lemma_named_keeps_parent(list: Seq<Seq<u8>>, rooted: bool)
    requires
        list.contains(path::parent_dir()),
    ensures
        path::named(list, rooted).contains(path::parent_dir()),
    decreases list.len(),
{
    let names = path::named(list, rooted);
    let before = path::named(list.drop_last(), rooted);
    assert(path::parent_dir()[1] == path::DOT && path::parent_dir().len() == 2);
    if list.last() == path::parent_dir() {
        assert(list.last() != path::current());
        assert(names.last() == path::parent_dir());
    } else {
        let k = choose|k: int| 0 <= k < list.len() && list[k] == path::parent_dir();
        assert(list.drop_last()[k] == path::parent_dir());
        lemma_named_keeps_parent(list.drop_last(), rooted);
        let j = choose|j: int| 0 <= j < before.len() && before[j] == path::parent_dir();
        assert(names[j] == path::parent_dir());
    }
}

/// A relative path is let through unless there is a reason to refuse it, for opening and for
/// describing: it is not UTF-8, the descriptor is no directory, the directory may not be written
/// to though writing is asked for, it starts with a separator or a drive, or one of its pieces is
/// `..`. Each reason has its error number, and the first one counts.
pub proof fn law_paths_are_let_through(
    ctx: &WasiProcMacroCtx,
    dirfd: u32,
    rel: Seq<u8>,
    write_requested: bool,
)
    ensures
        path_open_error(ctx, dirfd, rel, write_requested) == (if !vstd::utf8::valid_utf8(rel) {
            Some(28i32)
        } else {
            match ctx.dir_of(dirfd) {
                Err(errno) => Some(errno),
                Ok((root, writable)) => if (write_requested && !writable) || path::drive_of(
                    root.kind,
                    rel,
                ) is Some || (rel.len() > 0 && path::separates(root.kind, rel[0])) || path::pieces(
                    root.kind,
                    rel,
                ).contains(seq![0x2eu8, 0x2eu8]) {
                    Some(63i32)
                } else {
                    None
                },
            }
        }),
        path_stat_error(ctx, dirfd, rel) == path_open_error(ctx, dirfd, rel, false),
{
    if let Ok((root, _)) = ctx.dir_of(dirfd) {
        resolve::law_safe_texts(root.kind, rel);
    }
}

/// Where only slashes mean anything, a path leads to the directory that it is named in, followed by
/// the pieces between its slashes that are neither empty nor `.`.
pub proof fn law_lookups_lead_below_their_directory(lookup: &Lookup, root: PathModel, rel: Seq<u8>)
    requires
        lookup.is_of(root, rel),
        path::without_drives(root.kind, path::pieces(root.kind, rel)),
    ensures
        lookup.root@ == root,
        lookup.rel@ == path::path_of(root.kind, rel),
        lookup.target@ == (PathModel {
            names: root.names + path::pieces(root.kind, rel).filter(
                |piece: Seq<u8>| path::leads_on(piece),
            ),
            ..root
        }),
{
    resolve::law_normalized_text(root.kind, rel);
}

/// Where only slashes mean anything, no piece starts with a drive.
pub proof fn law_slash_pieces_have_no_drive(rel: Seq<u8>)
    ensures
        path::without_drives(path::PathKind::Slash, path::pieces(path::PathKind::Slash, rel)),
{
}

/// What a guest asks for when it opens a path: to write exactly if it asks for the file to be
/// created or emptied, for a flag of the descriptor, or for the right to write; for a directory by
/// a flag of its own.
pub proof fn law_flags_of_opening(
    request: &PathOpen,
    ctx: &WasiProcMacroCtx,
    dirfd: u32,
    rel: Seq<u8>,
    oflags: u32,
    fdflags: u32,
    rights_base: u64,
)
    ensures
        wants_write(oflags, fdflags, rights_base) <==> oflags & 1 != 0 || oflags & 8 != 0 || fdflags
            != 0 || rights_base & 64 != 0,
        asks_for(request, ctx, dirfd, rel, oflags, fdflags, rights_base) && ctx.dir_of(
            dirfd,
        ) is Ok ==> {
            &&& request.write_requested == wants_write(oflags, fdflags, rights_base)
            &&& request.want_directory == (oflags & 2 != 0)
            &&& request.options.write == request.write_requested
            &&& request.options.create == (oflags & 1 != 0)
            &&& request.options.truncate == (oflags & 8 != 0)
            &&& request.writable == ctx.dir_of(dirfd)->Ok_0.1
            &&& request.write_requested ==> request.writable
            &&& request.lookup.is_of(ctx.dir_of(dirfd)->Ok_0.0, rel)
        },
        LOOKUP_SYMLINK_FOLLOW == 1,
{
}

/// A directory is opened as what exists, without following a link in its place; anything else may
/// be new.
pub proof fn law_opened_paths(request: &PathOpen, probe: &PathProbe)
    ensures
        request.want_directory ==> open_path(request, probe) == resolve::resolved_existing(
            request.lookup.root@,
            request.lookup.rel@,
            false,
            probe,
        ),
        !request.want_directory ==> open_path(request, probe) == resolve::resolved(
            request.lookup.root@,
            request.lookup.rel@,
            probe,
        ),
{
}

/// A descriptor is given out exactly where the host has what was asked for: the first slot that is
/// free. The context changes in nothing but its table.
pub proof fn law_given_descriptors(
    before: WasiProcMacroCtx,
    after: WasiProcMacroCtx,
    entry: FdEntry,
    is_dir: Result<bool, IoErrorKind>,
    file: Option<u64>,
    slot: nat,
)
    requires
        slot <= before.fds@.len() <= u32::MAX,
        forall|i: int| 0 <= i < slot ==> (#[trigger] before.fds@[i]) is Some,
        slot < before.fds@.len() ==> before.fds@[slot as int] is None,
    ensures
        dir_fd(before.fds@, is_dir) == (match is_dir {
            Ok(true) => Ok::<u32, i32>(slot as u32),
            Ok(false) => Err(54),
            Err(kind) => Err(crate::errno::errno_of(kind)),
        }),
        file_fd(before.fds@, file) == (match file {
            Some(_) => Ok::<u32, i32>(slot as u32),
            None => Err(29),
        }),
        opened(before, after, Ok(slot as u32), entry) ==> {
            &&& after == (WasiProcMacroCtx { fds: after.fds, ..before })
            &&& after.fds@ == (if slot == before.fds@.len() {
                before.fds@.push(Some(entry))
            } else {
                before.fds@.update(slot as int, Some(entry))
            })
        },
        forall|errno: i32| #[trigger]
            opened(before, after, Err(errno), entry) ==> after == (WasiProcMacroCtx {
                fds: after.fds,
                ..before
            }) && after.fds@ == before.fds@,
{
    wasi_ctx::law_first_free_slot(before.fds@, slot);
}

/// What a guest is told of a file: the kind of it, its length, and three times, which are zero
/// where the host cannot tell them and at most the largest number. There is one link to it, and no
/// device and no inode.
pub proof fn law_descriptions_of_files(meta: HostMetadata)
    ensures
        ({
            let stat = filestat_of(meta);
            &&& meta.is_symlink ==> stat.filetype == 7
            &&& !meta.is_symlink && meta.is_dir ==> stat.filetype == 3
            &&& !meta.is_symlink && !meta.is_dir ==> stat.filetype == 4
            &&& stat.size == meta.len
            &&& stat.dev == 0 && stat.ino == 0 && stat.nlink == 1
            &&& stat.atim == wasi_nanos(meta.accessed)
            &&& stat.mtim == wasi_nanos(meta.modified)
            &&& stat.ctim == wasi_nanos(meta.created)
        }),
        wasi_nanos(None) == 0,
        forall|nanos: u128|
            nanos <= 0xffff_ffff_ffff_ffff ==> #[trigger] wasi_nanos(Some(nanos)) == nanos,
        forall|nanos: u128| nanos > 0xffff_ffff_ffff_ffff ==> #[trigger] wasi_nanos(Some(nanos))
            == 0xffff_ffff_ffff_ffffu64,
{
}

/// The kinds of entries of a directory: a link whatever it leads to, else a directory, else a file,
/// else something that has no kind.
pub proof fn law_kinds_of_entries(is_dir: bool, is_file: bool)
    ensures
        wasi_filetype(true, is_dir, is_file) == 7,
        wasi_filetype(false, true, is_file) == 3,
        wasi_filetype(false, false, true) == 4,
        wasi_filetype(false, false, false) == 0,
{
}

/// A lookup leads to the directory that it is made in, followed by what the path leads to.
pub proof fn law_parts_of_lookups(lookup: &Lookup, root: PathModel, rel: Seq<u8>)
    requires
        lookup.is_of(root, rel),
    ensures
        lookup.root@ == root,
        lookup.rel@ == path::path_of(root.kind, rel),
        lookup.target@ == root.join(resolve::normalized(path::path_of(root.kind, rel))),
{
}

} // verus!
