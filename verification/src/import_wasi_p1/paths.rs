//! Opening paths, and what a guest is told of its descriptors.
use crate::errno::{IoErrorKind, ERRNO_BADF, ERRNO_FAULT, ERRNO_INVAL, ERRNO_PERM};
use crate::files;
use crate::files::{
    path_open, path_open_dir, path_open_file, path_open_resolve, OFLAGS_CREAT, OFLAGS_TRUNC,
};
use crate::import_wasi_p1;
use crate::import_wasi_p1::stack;
use crate::import_wasi_p1::stack::{
    pop_i64, pop_u32, push_bytes, push_errno, push_u32, within, Answer,
};
use crate::import_wasi_p1::step::{OpenRequest, OpenTarget, Step};
use crate::memory;
use crate::memory::{copy_out, u32_le_bytes};
use crate::resolve::PathProbe;
use crate::runtime::{Interpreter, WasiFunc};
use crate::wasi_ctx::{FdEntry, WasiProcMacroCtx};
use vstd::prelude::*;

verus! {

/// The flags of a descriptor that ask for another way of writing.
pub const FDFLAGS_MASK: u32 = 0x1f;

/// Whether a guest asks for something that it never gets: that a file is created or emptied, or
/// another way of writing.
pub open spec fn refused(oflags: u32, fdflags: u32) -> bool {
    ||| oflags & OFLAGS_CREAT != 0
    ||| oflags & OFLAGS_TRUNC != 0
    ||| fdflags & FDFLAGS_MASK != 0
}

/// Why a path cannot be opened before the host is asked, if it cannot. The path is the region of
/// `len` bytes at `ptr`.
pub open spec fn open_error(
    ctx: &WasiProcMacroCtx,
    memory: Seq<u8>,
    dirfd: u32,
    ptr: u32,
    len: u32,
    oflags: u32,
    fdflags: u32,
    rights_base: u64,
) -> Option<i32> {
    if refused(oflags, fdflags) {
        Some(ERRNO_PERM)
    } else if ptr + len > memory.len() {
        Some(ERRNO_FAULT)
    } else {
        files::path_open_error(
            ctx,
            dirfd,
            memory.subrange(ptr as int, ptr + len),
            files::wants_write(oflags, fdflags, rights_base),
        )
    }
}

/// What [`wasi_path_open`] does to a guest, and what it needs of the host.
pub open spec fn path_open_ran(
    before: Interpreter,
    after: Interpreter,
    ctx: &WasiProcMacroCtx,
    step: Step,
) -> bool {
    let params = import_wasi_p1::wasi_params(WasiFunc::PathOpen);
    let args = before.stack@;
    let memory = before.memory@;
    let dirfd = stack::word_arg(args, 9, 0);
    let ptr = stack::word_arg(args, 9, 2);
    let len = stack::word_arg(args, 9, 3);
    let oflags = stack::word_arg(args, 9, 4);
    let rights_base = stack::long_arg(args, 9, 5);
    let fdflags = stack::word_arg(args, 9, 7);
    let opened_fd_ptr = stack::word_arg(args, 9, 8);
    let error = open_error(
        ctx,
        memory,
        dirfd,
        ptr,
        len,
        oflags,
        fdflags,
        rights_base,
    );
    if stack::takes(args, params) && error is None {
        &&& step matches Step::Probe(request)
        &&& request.opened_fd_ptr == opened_fd_ptr
        &&& files::asks_for(
            &request.open,
            ctx,
            dirfd,
            memory.subrange(ptr as int, ptr + len),
            oflags,
            fdflags,
            rights_base,
        )
        &&& stack::dropped(before, after, params)
    } else {
        &&& step == Step::Done(None)
        &&& stack::ran(
            before,
            after,
            params,
            stack::fail(memory, error->Some_0),
        )
    }
}

/// Starts to open a path.
pub fn wasi_path_open(interp: &mut Interpreter, ctx: &WasiProcMacroCtx) -> (step: Step)
    ensures
        path_open_ran(*old(interp), *final(interp), ctx, step),
{
    proof {
        reveal_with_fuel(stack::takes, 10);
        reveal_with_fuel(stack::left, 10);
    }
    let opened_fd_ptr: u32 = match pop_u32(interp) {
        Some(opened_fd_ptr) => opened_fd_ptr,
        None => return Step::Done(None),
    };
    let fdflags: u32 = match pop_u32(interp) {
        Some(fdflags) => fdflags,
        None => return Step::Done(None),
    };
    if pop_i64(interp).is_none() {
        return Step::Done(None);
    }
    let rights_base: u64 = match pop_i64(interp) {
        Some(rights_base) => rights_base as u64,
        None => return Step::Done(None),
    };
    let oflags: u32 = match pop_u32(interp) {
        Some(oflags) => oflags,
        None => return Step::Done(None),
    };
    let path_len: u32 = match pop_u32(interp) {
        Some(path_len) => path_len,
        None => return Step::Done(None),
    };
    let path_ptr: u32 = match pop_u32(interp) {
        Some(path_ptr) => path_ptr,
        None => return Step::Done(None),
    };
    if pop_u32(interp).is_none() {
        return Step::Done(None);
    }
    let dirfd: u32 = match pop_u32(interp) {
        Some(dirfd) => dirfd,
        None => return Step::Done(None),
    };
    proof {
        let given = stack::long_arg(old(interp).stack@, 9, 5);
        assert((given as i64) as u64 == given) by (bit_vector);
    }
    if (oflags & OFLAGS_CREAT) != 0 || (oflags & OFLAGS_TRUNC) != 0 || (fdflags & FDFLAGS_MASK)
        != 0 {
        push_errno(interp, ERRNO_PERM);
        return Step::Done(None);
    }
    if !within(interp.memory.len(), path_ptr as u64, path_len as u64) {
        push_errno(interp, ERRNO_FAULT);
        return Step::Done(None);
    }
    let path: Vec<u8> = copy_out(
        interp.memory.as_slice(),
        path_ptr as usize,
        path_len as usize,
    );
    match path_open(ctx, dirfd, path.as_slice(), oflags, fdflags, rights_base) {
        Ok(open) => Step::Probe(OpenRequest { open, opened_fd_ptr }),
        Err(errno) => {
            push_errno(interp, errno);
            Step::Done(None)
        },
    }
}

/// Goes on with opening a path that the host has looked at.
pub fn path_open_probed(interp: &mut Interpreter, request: OpenRequest, probe: &PathProbe) -> (step:
    Step)
    ensures
        match files::open_path(&request.open, probe) {
            Err(errno) => {
                &&& step == Step::Done(None)
                &&& stack::answered(
                    *old(interp),
                    *final(interp),
                    stack::fail(old(interp).memory@, errno),
                )
            },
            Ok(full) => {
                &&& *final(interp) == *old(interp)
                &&& if request.open.want_directory {
                    &&& step matches Step::CheckDir(target)
                    &&& target.open == request.open
                    &&& target.full@ == full
                    &&& target.opened_fd_ptr == request.opened_fd_ptr
                } else {
                    &&& step matches Step::OpenFile(target)
                    &&& target.open == request.open
                    &&& target.full@ == full
                    &&& target.opened_fd_ptr == request.opened_fd_ptr
                }
            },
        },
{
    match path_open_resolve(&request.open, probe) {
        Ok(full) => {
            let is_dir: bool = request.open.want_directory;
            let target = OpenTarget {
                open: request.open,
                full,
                opened_fd_ptr: request.opened_fd_ptr,
            };
            if is_dir {
                Step::CheckDir(target)
            } else {
                Step::OpenFile(target)
            }
        },
        Err(errno) => {
            push_errno(interp, errno);
            Step::Done(None)
        },
    }
}

/// A descriptor that is put where the guest wants it, or the reason why there is none.
pub open spec fn fd_answer(memory: Seq<u8>, ptr: u32, fd: Result<u32, i32>) -> Answer {
    match fd {
        Ok(fd) => stack::store(memory, ptr, memory::le_bytes(fd as nat, 4)),
        Err(errno) => stack::fail(memory, errno),
    }
}

/// Answers with a descriptor, or the reason why there is none.
fn push_fd(interp: &mut Interpreter, ptr: u32, fd: Result<u32, i32>)
    ensures
        stack::answered(*old(interp), *final(interp), fd_answer(old(interp).memory@, ptr, fd)),
{
    match fd {
        Ok(fd) => push_u32(interp, ptr, fd),
        Err(errno) => push_errno(interp, errno),
    }
}

/// Ends the opening of a directory, of which the host has found out whether it is one. A
/// descriptor stays open where the guest cannot be told it.
pub fn path_open_dir_finish(
    interp: &mut Interpreter,
    ctx: &mut WasiProcMacroCtx,
    target: OpenTarget,
    is_dir: Result<bool, IoErrorKind>,
)
    ensures
        files::opened(
            *old(ctx),
            *final(ctx),
            files::dir_fd(old(ctx).fds@, is_dir),
            FdEntry::OpenDir { root: target.full, writable: target.open.writable },
        ),
        stack::answered(
            *old(interp),
            *final(interp),
            fd_answer(
                old(interp).memory@,
                target.opened_fd_ptr,
                files::dir_fd(old(ctx).fds@, is_dir),
            ),
        ),
{
    let fd: Result<u32, i32> = path_open_dir(ctx, &target.open, target.full, is_dir);
    push_fd(interp, target.opened_fd_ptr, fd);
}

/// Ends the opening of a file that the host has opened, if it could. A descriptor stays open
/// where the guest cannot be told it.
pub fn path_open_file_finish(
    interp: &mut Interpreter,
    ctx: &mut WasiProcMacroCtx,
    target: OpenTarget,
    file: Option<u64>,
)
    ensures
        files::opened(
            *old(ctx),
            *final(ctx),
            files::file_fd(old(ctx).fds@, file),
            FdEntry::OpenFile { file: file->Some_0, writable: target.open.write_requested },
        ),
        stack::answered(
            *old(interp),
            *final(interp),
            fd_answer(
                old(interp).memory@,
                target.opened_fd_ptr,
                files::file_fd(old(ctx).fds@, file),
            ),
        ),
{
    let fd: Result<u32, i32> = path_open_file(ctx, &target.open, file);
    push_fd(interp, target.opened_fd_ptr, fd);
}

/// What a guest is told of a descriptor: the kind of file, no flags and no rights.
pub open spec fn fdstat_bytes(filetype: u8) -> Seq<u8> {
    seq![filetype] + Seq::new(23, |i: int| 0u8)
}

/// What [`wasi_fd_fdstat_get`] does to a guest.
pub open spec fn fd_fdstat_get_ran(
    before: Interpreter,
    after: Interpreter,
    ctx: &WasiProcMacroCtx,
) -> bool {
    stack::ran(
        before,
        after,
        import_wasi_p1::wasi_params(WasiFunc::FdFdstatGet),
        match ctx.filetype_of(stack::word_arg(before.stack@, 2, 0)) {
            Ok(filetype) => stack::store(
                before.memory@,
                stack::word_arg(before.stack@, 2, 1),
                fdstat_bytes(filetype),
            ),
            Err(errno) => stack::fail(before.memory@, errno),
        },
    )
}

/// Tells the kind of file behind a descriptor.
pub fn wasi_fd_fdstat_get(interp: &mut Interpreter, ctx: &WasiProcMacroCtx) -> (trap: Option<
    String,
>)
    ensures
        trap is None,
        fd_fdstat_get_ran(*old(interp), *final(interp), ctx),
{
    proof {
        reveal_with_fuel(stack::takes, 3);
        reveal_with_fuel(stack::left, 3);
    }
    let stat_ptr: u32 = pop_u32(interp)?;
    let fd: u32 = pop_u32(interp)?;
    match ctx.fd_filetype(fd) {
        Ok(filetype) => {
            let mut bytes: Vec<u8> = vec![0u8; 24];
            bytes.set(0, filetype);
            assert(bytes@ =~= fdstat_bytes(filetype));
            push_bytes(interp, stat_ptr, bytes.as_slice());
        },
        Err(errno) => push_errno(interp, errno),
    }
    None
}

/// What a guest is told of a directory that was open from the start: that it is a directory, and
/// how long its name is.
pub open spec fn prestat_bytes(name_len: u32) -> Seq<u8> {
    Seq::new(4, |i: int| 0u8) + memory::le_bytes(name_len as nat, 4)
}

/// What [`wasi_fd_prestat_get`] does to a guest.
pub open spec fn fd_prestat_get_ran(
    before: Interpreter,
    after: Interpreter,
    ctx: &WasiProcMacroCtx,
) -> bool {
    stack::ran(
        before,
        after,
        import_wasi_p1::wasi_params(WasiFunc::FdPrestatGet),
        match ctx.preopen_of(stack::word_arg(before.stack@, 2, 0)) {
            Some(dir) => stack::store(
                before.memory@,
                stack::word_arg(before.stack@, 2, 1),
                prestat_bytes(
                    vstd::utf8::encode_utf8(dir.guest_path@).len() as usize as u32,
                ),
            ),
            None => stack::fail(before.memory@, ERRNO_BADF),
        },
    )
}

/// Tells how long the name of a directory is that was open from the start.
pub fn wasi_fd_prestat_get(interp: &mut Interpreter, ctx: &WasiProcMacroCtx) -> (trap: Option<
    String,
>)
    ensures
        trap is None,
        fd_prestat_get_ran(*old(interp), *final(interp), ctx),
{
    proof {
        reveal_with_fuel(stack::takes, 3);
        reveal_with_fuel(stack::left, 3);
    }
    let prestat_ptr: u32 = pop_u32(interp)?;
    let fd: u32 = pop_u32(interp)?;
    match ctx.fd_prestat_dir(fd) {
        Ok(name_len) => {
            let mut bytes: Vec<u8> = vec![0u8; 4];
            let mut len_bytes: Vec<u8> = u32_le_bytes(name_len);
            bytes.append(&mut len_bytes);
            assert(bytes@ =~= prestat_bytes(name_len));
            push_bytes(interp, prestat_ptr, bytes.as_slice());
        },
        Err(errno) => push_errno(interp, errno),
    }
    None
}

/// A name, if the guest has provided enough room for it.
pub open spec fn name_answer(memory: Seq<u8>, ptr: u32, room: u32, name: Seq<u8>) -> Answer {
    if name.len() > room {
        stack::fail(memory, ERRNO_INVAL)
    } else {
        stack::store(memory, ptr, name)
    }
}

/// What [`wasi_fd_prestat_dir_name`] does to a guest.
pub open spec fn fd_prestat_dir_name_ran(
    before: Interpreter,
    after: Interpreter,
    ctx: &WasiProcMacroCtx,
) -> bool {
    stack::ran(
        before,
        after,
        import_wasi_p1::wasi_params(WasiFunc::FdPrestatDirName),
        match ctx.preopen_of(stack::word_arg(before.stack@, 3, 0)) {
            Some(dir) => name_answer(
                before.memory@,
                stack::word_arg(before.stack@, 3, 1),
                stack::word_arg(before.stack@, 3, 2),
                vstd::utf8::encode_utf8(dir.guest_path@),
            ),
            None => stack::fail(before.memory@, ERRNO_BADF),
        },
    )
}

/// Tells the name of a directory that was open from the start.
pub fn wasi_fd_prestat_dir_name(interp: &mut Interpreter, ctx: &WasiProcMacroCtx) -> (trap: Option<
    String,
>)
    ensures
        trap is None,
        fd_prestat_dir_name_ran(*old(interp), *final(interp), ctx),
{
    proof {
        reveal_with_fuel(stack::takes, 4);
        reveal_with_fuel(stack::left, 4);
    }
    let path_len: u32 = pop_u32(interp)?;
    let path_ptr: u32 = pop_u32(interp)?;
    let fd: u32 = pop_u32(interp)?;
    match ctx.fd_prestat_dir_name(fd) {
        Ok(name) => if name.len() > path_len as usize {
            push_errno(interp, ERRNO_INVAL);
        } else {
            push_bytes(interp, path_ptr, name.as_slice());
        },
        Err(errno) => push_errno(interp, errno),
    }
    None
}

/// A guest that provides as much room for the name of a directory as it was told of gets the
/// name.
pub proof fn law_prestat_tells_room(memory: Seq<u8>, ptr: u32, name: Seq<u8>)
    requires
        name.len() <= u32::MAX,
        ptr + name.len() <= memory.len(),
    ensures
        memory::le_value(prestat_bytes(name.len() as u32).skip(4)) == name.len(),
        ({
            let answer = name_answer(memory, ptr, name.len() as u32, name);
            &&& answer.errno == crate::errno::ERRNO_SUCCESS
            &&& answer.memory.subrange(ptr as int, ptr + name.len()) == name
        }),
{
    reveal_with_fuel(memory::pow256, 5);
    memory::lemma_le_bytes_len(name.len(), 4);
    memory::law_le_round_trip(name.len(), 4);
    assert(prestat_bytes(name.len() as u32).skip(4) =~= memory::le_bytes(name.len(), 4));
    memory::law_splice_read_back(memory, ptr as int, name);
}

/// A guest never gets a file created or emptied, and never another way of writing.
pub proof fn law_guests_never_create(
    request: &files::PathOpen,
    ctx: &WasiProcMacroCtx,
    memory: Seq<u8>,
    dirfd: u32,
    ptr: u32,
    len: u32,
    oflags: u32,
    fdflags: u32,
    rights_base: u64,
)
    requires
        open_error(ctx, memory, dirfd, ptr, len, oflags, fdflags, rights_base) is None,
        files::asks_for(
            request,
            ctx,
            dirfd,
            memory.subrange(ptr as int, ptr + len),
            oflags,
            fdflags,
            rights_base,
        ),
    ensures
        !request.options.create,
        !request.options.truncate,
        fdflags & FDFLAGS_MASK == 0,
{
}

} // verus!
