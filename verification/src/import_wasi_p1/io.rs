//! Reading, writing, positioning and closing.
use crate::errno::{ERRNO_FAULT, ERRNO_IO, ERRNO_SUCCESS};
use crate::import_wasi_p1;
use crate::import_wasi_p1::stack;
use crate::import_wasi_p1::stack::{
    pop_i64, pop_u32, push_errno, push_u32, within, write_u32, Answer,
};
use crate::import_wasi_p1::step::{Iov, ReadRequest, SeekRequest, Step, WriteRequest};
use crate::import_wasi_p1::system;
use crate::import_wasi_p1::system::push_long;
use crate::memory;
use crate::memory::{copy_into, copy_out, read_u32};
use crate::runtime::{Interpreter, WasiFunc};
use crate::wasi_ctx;
use crate::wasi_ctx::{SeekTarget, WasiProcMacroCtx, WriteTarget};
use vstd::prelude::*;

verus! {

/// Region `i` of the list of regions at `ptr`.
pub open spec fn iov_at(memory: Seq<u8>, ptr: u32, i: int) -> Iov {
    let at = ptr + 8 * i;
    Iov {
        base: memory::le_value(memory.subrange(at, at + 4)) as u32,
        len: memory::le_value(memory.subrange(at + 4, at + 8)) as u32,
    }
}

/// Whether region `i` of the list at `ptr` and its place in the list lie within the memory.
pub open spec fn iov_fits(memory: Seq<u8>, ptr: u32, i: int) -> bool {
    &&& ptr + 8 * i + 8 <= memory.len()
    &&& in_memory(iov_at(memory, ptr, i), memory.len())
}

/// Whether a region lies within the memory.
pub open spec fn in_memory(iov: Iov, len: nat) -> bool {
    iov.base + iov.len <= len
}

/// Whether the first `n` regions of the list at `ptr` and the list lie within the memory.
pub open spec fn iovs_fit(memory: Seq<u8>, ptr: u32, n: nat) -> bool {
    forall|i: int| 0 <= i < n ==> #[trigger] iov_fits(memory, ptr, i)
}

/// The first `n` regions of the list at `ptr`.
pub open spec fn iov_list(memory: Seq<u8>, ptr: u32, n: nat) -> Seq<Iov> {
    Seq::new(n, |i: int| iov_at(memory, ptr, i))
}

/// What the regions hold.
pub open spec fn contents(memory: Seq<u8>, iovs: Seq<Iov>) -> Seq<Seq<u8>> {
    Seq::new(
        iovs.len(),
        |i: int| memory.subrange(iovs[i].base as int, iovs[i].base + iovs[i].len),
    )
}

/// The first `n` regions of the list at `ptr`, if all of it lies within the memory.
fn read_iovs(memory: &Vec<u8>, ptr: u32, n: u32) -> (iovs: Option<Vec<Iov>>)
    ensures
        iovs is Some <==> iovs_fit(memory@, ptr, n as nat),
        iovs matches Some(list) ==> list@ == iov_list(memory@, ptr, n as nat),
{
    let mut list: Vec<Iov> = Vec::new();
    let mut i: u32 = 0;
    while i < n
        invariant
            i <= n,
            iovs_fit(memory@, ptr, i as nat),
            list@ =~= iov_list(memory@, ptr, i as nat),
        decreases n - i,
    {
        let at: u64 = ptr as u64 + 8 * (i as u64);
        if !within(memory.len(), at, 8) {
            assert(!iov_fits(memory@, ptr, i as int));
            return None;
        }
        let iov = Iov {
            base: read_u32(memory, at as usize),
            len: read_u32(memory, (at + 4) as usize),
        };
        assert(iov == iov_at(memory@, ptr, i as int));
        if !within(memory.len(), iov.base as u64, iov.len as u64) {
            assert(!iov_fits(memory@, ptr, i as int));
            return None;
        }
        list.push(iov);
        i += 1;
    }
    Some(list)
}

/// Copies of what the regions hold.
fn copy_regions(memory: &Vec<u8>, iovs: &Vec<Iov>) -> (chunks: Vec<Vec<u8>>)
    requires
        forall|i: int| 0 <= i < iovs@.len() ==> in_memory(#[trigger] iovs@[i], memory@.len()),
    ensures
        memory::byte_seqs(chunks@) == contents(memory@, iovs@),
{
    let mut chunks: Vec<Vec<u8>> = Vec::new();
    let mut i: usize = 0;
    while i < iovs.len()
        invariant
            i <= iovs@.len(),
            forall|i: int| 0 <= i < iovs@.len() ==> in_memory(#[trigger] iovs@[i], memory@.len()),
            chunks@.len() == i,
            forall|j: int| 0 <= j < i ==> (#[trigger] chunks@[j])@ == contents(memory@, iovs@)[j],
        decreases iovs@.len() - i,
    {
        let iov: Iov = iovs[i];
        let chunk: Vec<u8> = copy_out(memory.as_slice(), iov.base as usize, iov.len as usize);
        assert(chunk@ == contents(memory@, iovs@)[i as int]);
        chunks.push(chunk);
        i += 1;
    }
    assert(memory::byte_seqs(chunks@) =~= contents(memory@, iovs@));
    chunks
}

/// The number of bytes that were written, put where the guest wants it. Where writing failed, a
/// zero stands there.
pub open spec fn write_answer(memory: Seq<u8>, ptr: u32, written: Result<u32, i32>) -> Answer {
    match written {
        Ok(n) => stack::store(memory, ptr, memory::le_bytes(n as nat, 4)),
        Err(errno) => stack::store_with(memory, ptr, memory::le_bytes(0, 4), errno),
    }
}

/// Answers how many bytes were written.
fn push_written(interp: &mut Interpreter, ptr: u32, written: Result<u32, i32>)
    ensures
        stack::answered(
            *old(interp),
            *final(interp),
            write_answer(old(interp).memory@, ptr, written),
        ),
{
    proof {
        memory::lemma_le_bytes_len(0, 4);
    }
    match written {
        Ok(n) => push_u32(interp, ptr, n),
        Err(errno) => if write_u32(&mut interp.memory, ptr, 0) {
            push_errno(interp, errno);
        } else {
            push_errno(interp, ERRNO_FAULT);
        },
    }
}

/// Whether the host has a part in a write to a target.
pub open spec fn host_writes(ctx: &WasiProcMacroCtx, target: WriteTarget) -> bool {
    target is File || ctx.mirror_stdio
}

/// What [`wasi_fd_write`] does to a guest and its context, and what it needs of the host.
pub open spec fn fd_write_ran(
    before: Interpreter,
    after: Interpreter,
    ctx: WasiProcMacroCtx,
    ctx_after: WasiProcMacroCtx,
    step: Step,
) -> bool {
    let params = import_wasi_p1::wasi_params(WasiFunc::FdWrite);
    let args = before.stack@;
    let memory = before.memory@;
    let target = ctx.target_of(stack::word_arg(args, 4, 0));
    let ptr = stack::word_arg(args, 4, 1);
    let n = stack::word_arg(args, 4, 2) as nat;
    let nwritten_ptr = stack::word_arg(args, 4, 3);
    let chunks = contents(memory, iov_list(memory, ptr, n));
    if !stack::takes(args, params) || !iovs_fit(memory, ptr, n) {
        &&& step == Step::Done(None)
        &&& ctx_after == ctx
        &&& stack::ran(
            before,
            after,
            params,
            stack::fail(memory, ERRNO_FAULT),
        )
    } else {
        match target {
            Err(errno) => {
                &&& step == Step::Done(None)
                &&& ctx_after == ctx
                &&& stack::ran(
                    before,
                    after,
                    params,
                    write_answer(memory, nwritten_ptr, Err(errno)),
                )
            },
            Ok(target) => if host_writes(&ctx, target) {
                &&& step matches Step::Write(request)
                &&& request.target == target
                &&& memory::byte_seqs(request.chunks@) == chunks
                &&& request.nwritten_ptr == nwritten_ptr
                &&& ctx_after == ctx
                &&& stack::dropped(before, after, params)
            } else {
                &&& step == Step::Done(None)
                &&& wasi_ctx::printed(
                    ctx,
                    ctx_after,
                    target,
                    memory::concat(chunks),
                )
                &&& stack::ran(
                    before,
                    after,
                    params,
                    write_answer(
                        memory,
                        nwritten_ptr,
                        Ok(wasi_ctx::saturated_total(chunks)),
                    ),
                )
            },
        }
    }
}

/// Writes what the regions of a list hold.
pub fn wasi_fd_write(interp: &mut Interpreter, ctx: &mut WasiProcMacroCtx) -> (step: Step)
    ensures
        fd_write_ran(*old(interp), *final(interp), *old(ctx), *final(ctx), step),
{
    proof {
        reveal_with_fuel(stack::takes, 5);
        reveal_with_fuel(stack::left, 5);
    }
    let nwritten_ptr: u32 = match pop_u32(interp) {
        Some(nwritten_ptr) => nwritten_ptr,
        None => return Step::Done(None),
    };
    let iovs_len: u32 = match pop_u32(interp) {
        Some(iovs_len) => iovs_len,
        None => return Step::Done(None),
    };
    let iovs_ptr: u32 = match pop_u32(interp) {
        Some(iovs_ptr) => iovs_ptr,
        None => return Step::Done(None),
    };
    let fd: u32 = match pop_u32(interp) {
        Some(fd) => fd,
        None => return Step::Done(None),
    };
    let iovs: Vec<Iov> = match read_iovs(&interp.memory, iovs_ptr, iovs_len) {
        Some(iovs) => iovs,
        None => {
            push_errno(interp, ERRNO_FAULT);
            return Step::Done(None);
        },
    };
    assert forall|i: int| 0 <= i < iovs@.len() implies in_memory(
        #[trigger] iovs@[i],
        interp.memory@.len(),
    ) by {
        assert(iov_fits(interp.memory@, iovs_ptr, i));
    }
    let chunks: Vec<Vec<u8>> = copy_regions(&interp.memory, &iovs);
    match ctx.fd_write_target(fd) {
        Err(errno) => push_written(interp, nwritten_ptr, Err(errno)),
        Ok(target) => {
            let request = WriteRequest { target, chunks, nwritten_ptr };
            if ctx.fd_write_needs_host(target) {
                return Step::Write(request);
            }
            let all: usize = request.chunks.len();
            fd_write_finish(interp, ctx, &request, all);
        },
    }
    Step::Done(None)
}

/// Goes on with a write of which the host has taken the first `delivered` chunks.
pub fn fd_write_finish(
    interp: &mut Interpreter,
    ctx: &mut WasiProcMacroCtx,
    request: &WriteRequest,
    delivered: usize,
)
    requires
        delivered <= request.chunks@.len(),
    ensures
        wasi_ctx::printed(
            *old(ctx),
            *final(ctx),
            request.target,
            memory::concat(
                wasi_ctx::attempted(memory::byte_seqs(request.chunks@), delivered as nat),
            ),
        ),
        stack::answered(
            *old(interp),
            *final(interp),
            write_answer(
                old(interp).memory@,
                request.nwritten_ptr,
                wasi_ctx::written_of(memory::byte_seqs(request.chunks@), delivered as nat),
            ),
        ),
{
    let written: Result<u32, i32> = ctx.fd_write(request.target, &request.chunks, delivered);
    push_written(interp, request.nwritten_ptr, written);
}

/// What [`wasi_fd_close`] does to a guest and its context, and what it needs of the host.
pub open spec fn fd_close_ran(
    before: Interpreter,
    after: Interpreter,
    ctx: WasiProcMacroCtx,
    ctx_after: WasiProcMacroCtx,
    step: Step,
) -> bool {
    let params = import_wasi_p1::wasi_params(WasiFunc::FdClose);
    let args = before.stack@;
    let fd = stack::word_arg(args, 1, 0);
    let released = ctx.release_of(fd);
    let answer = match released {
        Ok(_) => stack::fail(before.memory@, ERRNO_SUCCESS),
        Err(errno) => stack::fail(before.memory@, errno),
    };
    &&& stack::ran(before, after, params, answer)
    &&& ctx_after == (WasiProcMacroCtx { fds: ctx_after.fds, ..ctx })
    &&& if stack::takes(args, params) {
        &&& ctx_after.fds@ == ctx.fds_without(fd)
        &&& step == (match released {
            Ok(Some(file)) => Step::Close(file),
            _ => Step::Done(None),
        })
    } else {
        &&& ctx_after.fds@ == ctx.fds@
        &&& step == Step::Done(None)
    }
}

/// Frees a file descriptor.
pub fn wasi_fd_close(interp: &mut Interpreter, ctx: &mut WasiProcMacroCtx) -> (step: Step)
    ensures
        fd_close_ran(*old(interp), *final(interp), *old(ctx), *final(ctx), step),
{
    proof {
        reveal_with_fuel(stack::takes, 2);
        reveal_with_fuel(stack::left, 2);
    }
    let fd: u32 = match pop_u32(interp) {
        Some(fd) => fd,
        None => return Step::Done(None),
    };
    match ctx.fd_close(fd) {
        Ok(released) => {
            push_errno(interp, ERRNO_SUCCESS);
            match released {
                Some(file) => Step::Close(file),
                None => Step::Done(None),
            }
        },
        Err(errno) => {
            push_errno(interp, errno);
            Step::Done(None)
        },
    }
}

/// Whether a step asks the host to position a file, or the guest was answered why not.
pub open spec fn seek_started(
    before: Interpreter,
    after: Interpreter,
    func: WasiFunc,
    request: Result<(u64, SeekTarget), i32>,
    offset_ptr: u32,
    step: Step,
) -> bool {
    let params = import_wasi_p1::wasi_params(func);
    if stack::takes(before.stack@, params) && request is Ok {
        &&& step == Step::Seek(
            SeekRequest { file: request->Ok_0.0, target: request->Ok_0.1, offset_ptr },
        )
        &&& stack::dropped(before, after, params)
    } else {
        &&& step == Step::Done(None)
        &&& stack::ran(before, after, params, stack::fail(before.memory@, request->Err_0))
    }
}

/// What [`wasi_fd_seek`] does to a guest, and what it needs of the host.
pub open spec fn fd_seek_ran(
    before: Interpreter,
    after: Interpreter,
    ctx: &WasiProcMacroCtx,
    step: Step,
) -> bool {
    seek_started(
        before,
        after,
        WasiFunc::FdSeek,
        ctx.seek_of(
            stack::word_arg(before.stack@, 4, 0),
            stack::long_arg(before.stack@, 4, 1) as i64,
            stack::word_arg(before.stack@, 4, 2) as u8,
        ),
        stack::word_arg(before.stack@, 4, 3),
        step,
    )
}

/// Positions a file.
pub fn wasi_fd_seek(interp: &mut Interpreter, ctx: &WasiProcMacroCtx) -> (step: Step)
    ensures
        fd_seek_ran(*old(interp), *final(interp), ctx, step),
{
    proof {
        reveal_with_fuel(stack::takes, 5);
        reveal_with_fuel(stack::left, 5);
    }
    let offset_ptr: u32 = match pop_u32(interp) {
        Some(offset_ptr) => offset_ptr,
        None => return Step::Done(None),
    };
    let whence: u8 = match pop_u32(interp) {
        Some(whence) => whence as u8,
        None => return Step::Done(None),
    };
    let offset: i64 = match pop_i64(interp) {
        Some(offset) => offset,
        None => return Step::Done(None),
    };
    let fd: u32 = match pop_u32(interp) {
        Some(fd) => fd,
        None => return Step::Done(None),
    };
    match ctx.fd_seek(fd, offset, whence) {
        Ok((file, target)) => Step::Seek(SeekRequest { file, target, offset_ptr }),
        Err(errno) => {
            push_errno(interp, errno);
            Step::Done(None)
        },
    }
}

/// What [`wasi_fd_tell`] does to a guest, and what it needs of the host.
pub open spec fn fd_tell_ran(
    before: Interpreter,
    after: Interpreter,
    ctx: &WasiProcMacroCtx,
    step: Step,
) -> bool {
    seek_started(
        before,
        after,
        WasiFunc::FdTell,
        ctx.seek_of(stack::word_arg(before.stack@, 2, 0), 0, 1),
        stack::word_arg(before.stack@, 2, 1),
        step,
    )
}

/// Tells where a file stands.
pub fn wasi_fd_tell(interp: &mut Interpreter, ctx: &WasiProcMacroCtx) -> (step: Step)
    ensures
        fd_tell_ran(*old(interp), *final(interp), ctx, step),
{
    proof {
        reveal_with_fuel(stack::takes, 3);
        reveal_with_fuel(stack::left, 3);
    }
    let offset_ptr: u32 = match pop_u32(interp) {
        Some(offset_ptr) => offset_ptr,
        None => return Step::Done(None),
    };
    let fd: u32 = match pop_u32(interp) {
        Some(fd) => fd,
        None => return Step::Done(None),
    };
    match ctx.fd_tell(fd) {
        Ok((file, target)) => Step::Seek(SeekRequest { file, target, offset_ptr }),
        Err(errno) => {
            push_errno(interp, errno);
            Step::Done(None)
        },
    }
}

/// Tells where a file stands that the host has positioned, if it could.
pub fn seek_finish(interp: &mut Interpreter, request: SeekRequest, position: Option<u64>)
    ensures
        stack::answered(
            *old(interp),
            *final(interp),
            system::long_answer(
                old(interp).memory@,
                request.offset_ptr,
                match position {
                    Some(position) => Ok(position),
                    None => Err(ERRNO_IO),
                },
            ),
        ),
{
    match position {
        Some(position) => push_long(interp, request.offset_ptr, Ok(position)),
        None => push_long(interp, request.offset_ptr, Err(ERRNO_IO)),
    }
}

impl ReadRequest {
    /// Whether the regions lie within the memory, and one is still to be filled.
    pub open spec fn wf(&self, memory_len: nat) -> bool {
        &&& self.next < self.iovs@.len()
        &&& forall|i: int|
            0 <= i < self.iovs@.len() ==> in_memory(#[trigger] self.iovs@[i], memory_len)
    }
}

/// What [`wasi_fd_read`] does to a guest, and what it needs of the host.
pub open spec fn fd_read_ran(
    before: Interpreter,
    after: Interpreter,
    ctx: &WasiProcMacroCtx,
    step: Step,
) -> bool {
    let params = import_wasi_p1::wasi_params(WasiFunc::FdRead);
    let args = before.stack@;
    let memory = before.memory@;
    let file = ctx.file_of(stack::word_arg(args, 4, 0));
    let ptr = stack::word_arg(args, 4, 1);
    let n = stack::word_arg(args, 4, 2) as nat;
    let nread_ptr = stack::word_arg(args, 4, 3);
    if stack::takes(args, params) && iovs_fit(memory, ptr, n) && n > 0 && file is Ok {
        &&& step matches Step::Read(request)
        &&& request.file == file->Ok_0
        &&& request.iovs@ == iov_list(memory, ptr, n)
        &&& request.next == 0
        &&& request.total == 0
        &&& request.nread_ptr == nread_ptr
        &&& request.wf(after.memory@.len())
        &&& stack::dropped(before, after, params)
    } else {
        &&& step == Step::Done(None)
        &&& stack::ran(
            before,
            after,
            params,
            if !iovs_fit(memory, ptr, n) {
                stack::fail(memory, ERRNO_FAULT)
            } else if n == 0 {
                stack::store(memory, nread_ptr, memory::le_bytes(0, 4))
            } else {
                stack::fail(memory, file->Err_0)
            },
        )
    }
}

/// Reads into the regions of a list.
pub fn wasi_fd_read(interp: &mut Interpreter, ctx: &WasiProcMacroCtx) -> (step: Step)
    ensures
        fd_read_ran(*old(interp), *final(interp), ctx, step),
{
    proof {
        reveal_with_fuel(stack::takes, 5);
        reveal_with_fuel(stack::left, 5);
    }
    let nread_ptr: u32 = match pop_u32(interp) {
        Some(nread_ptr) => nread_ptr,
        None => return Step::Done(None),
    };
    let iovs_len: u32 = match pop_u32(interp) {
        Some(iovs_len) => iovs_len,
        None => return Step::Done(None),
    };
    let iovs_ptr: u32 = match pop_u32(interp) {
        Some(iovs_ptr) => iovs_ptr,
        None => return Step::Done(None),
    };
    let fd: u32 = match pop_u32(interp) {
        Some(fd) => fd,
        None => return Step::Done(None),
    };
    let iovs: Vec<Iov> = match read_iovs(&interp.memory, iovs_ptr, iovs_len) {
        Some(iovs) => iovs,
        None => {
            push_errno(interp, ERRNO_FAULT);
            return Step::Done(None);
        },
    };
    if iovs.len() == 0 {
        push_u32(interp, nread_ptr, 0);
        return Step::Done(None);
    }
    match ctx.fd_read_one(fd) {
        Ok(file) => {
            assert forall|i: int| 0 <= i < iovs@.len() implies in_memory(
                #[trigger] iovs@[i],
                interp.memory@.len(),
            ) by {
                assert(iov_fits(interp.memory@, iovs_ptr, i));
            }
            Step::Read(ReadRequest { file, iovs, next: 0, total: 0, nread_ptr })
        },
        Err(errno) => {
            push_errno(interp, errno);
            Step::Done(None)
        },
    }
}

/// The sum of two numbers, or the largest number where that is more.
pub open spec fn capped_sum(a: u32, b: nat) -> u32 {
    if a + b > u32::MAX {
        u32::MAX
    } else {
        (a + b) as u32
    }
}

/// Goes on with a read of which the host has read the next region, if it could. The next region
/// is asked for when this one was filled; otherwise the guest is told how much was read.
pub fn fd_read_continue(interp: &mut Interpreter, request: ReadRequest, reply: Option<Vec<u8>>) -> (
step: Step)
    requires
        request.wf(old(interp).memory@.len()),
        reply matches Some(bytes) ==> bytes@.len() <= request.iovs@[request.next as int].len,
    ensures
        match reply {
            None => {
                &&& step == Step::Done(None)
                &&& stack::answered(
                    *old(interp),
                    *final(interp),
                    stack::fail(old(interp).memory@, ERRNO_IO),
                )
            },
            Some(bytes) => {
                let iov = request.iovs@[request.next as int];
                let memory = memory::splice(old(interp).memory@, iov.base as int, bytes@);
                let total = capped_sum(request.total, bytes@.len());
                if bytes@.len() < iov.len || request.next + 1 == request.iovs@.len() {
                    &&& step == Step::Done(None)
                    &&& stack::answered(
                        *old(interp),
                        *final(interp),
                        stack::store(
                            memory,
                            request.nread_ptr,
                            memory::le_bytes(total as nat, 4),
                        ),
                    )
                } else {
                    &&& step == Step::Read(
                        ReadRequest { next: (request.next + 1) as usize, total, ..request },
                    )
                    &&& step->Read_0.wf(final(interp).memory@.len())
                    &&& final(interp).stack@ == old(interp).stack@
                    &&& final(interp).memory@ == memory
                }
            },
        },
{
    let bytes: Vec<u8> = match reply {
        Some(bytes) => bytes,
        None => {
            push_errno(interp, ERRNO_IO);
            return Step::Done(None);
        },
    };
    let iov: Iov = request.iovs[request.next];
    assert(in_memory(iov, interp.memory@.len()));
    copy_into(&mut interp.memory, iov.base as usize, bytes.as_slice());
    let total: u32 = request.total.saturating_add(bytes.len() as u32);
    let left: usize = request.iovs.len() - request.next - 1;
    if bytes.len() < iov.len as usize || left == 0 {
        push_u32(interp, request.nread_ptr, total);
        return Step::Done(None);
    }
    Step::Read(
        ReadRequest {
            file: request.file,
            iovs: request.iovs,
            next: request.next + 1,
            total,
            nread_ptr: request.nread_ptr,
        },
    )
}

/// How many bytes the first `k` regions hold.
pub open spec fn room(iovs: Seq<Iov>, k: nat) -> nat
    decreases k,
{
    if k == 0 {
        0
    } else {
        room(iovs, (k - 1) as nat) + iovs[k - 1].len as nat
    }
}

/// The memory after the first `k` regions were filled with what `data` begins with, one region
/// after the other.
pub open spec fn scattered(memory: Seq<u8>, iovs: Seq<Iov>, k: nat, data: Seq<u8>) -> Seq<u8>
    decreases k,
{
    if k == 0 {
        memory
    } else {
        let at = room(iovs, (k - 1) as nat) as int;
        memory::splice(
            scattered(memory, iovs, (k - 1) as nat, data),
            iovs[k - 1].base as int,
            data.subrange(at, at + iovs[k - 1].len),
        )
    }
}

/// What a file gives for region `k` when it holds `data` from where the first region was read:
/// as much of the rest as fits.
pub open spec fn file_reply(iovs: Seq<Iov>, k: nat, data: Seq<u8>) -> Seq<u8> {
    let at = room(iovs, k);
    let end = if at + iovs[k as int].len <= data.len() {
        at + iovs[k as int].len
    } else {
        data.len() as int
    };
    data.subrange(at as int, end)
}

/// Reading fills one region after the other. While the file has enough left, a region is filled,
/// the next one is asked for, and the number of bytes so far is kept.
pub proof fn law_read_fills_in_order(
    request: ReadRequest,
    memory: Seq<u8>,
    now: Seq<u8>,
    data: Seq<u8>,
)
    requires
        request.wf(memory.len()),
        room(request.iovs@, request.iovs@.len()) <= u32::MAX,
        room(request.iovs@, (request.next + 1) as nat) <= data.len(),
        request.total == room(request.iovs@, request.next as nat),
        now == scattered(memory, request.iovs@, request.next as nat, data),
    ensures
        ({
            let k = request.next as nat;
            let reply = file_reply(request.iovs@, k, data);
            &&& reply.len() == request.iovs@[k as int].len
            &&& memory::splice(now, request.iovs@[k as int].base as int, reply) == scattered(
                memory,
                request.iovs@,
                k + 1,
                data,
            )
            &&& capped_sum(request.total, reply.len()) == room(request.iovs@, k + 1)
        }),
{
    lemma_room_grows(request.iovs@, (request.next + 1) as nat, request.iovs@.len());
}

/// Reading ends with the end of the file: the guest is told how many bytes there were, as far as
/// it asked for them.
pub proof fn law_read_ends_with_file(request: ReadRequest, memory_len: nat, data: Seq<u8>)
    requires
        request.wf(memory_len),
        room(request.iovs@, request.next as nat) <= data.len() < room(
            request.iovs@,
            (request.next + 1) as nat,
        ),
        data.len() <= u32::MAX,
        request.total == room(request.iovs@, request.next as nat),
    ensures
        ({
            let reply = file_reply(request.iovs@, request.next as nat, data);
            &&& reply.len() < request.iovs@[request.next as int].len
            &&& capped_sum(request.total, reply.len()) == data.len()
        }),
{
}

/// More regions hold no fewer bytes.
proof fn lemma_room_grows(iovs: Seq<Iov>, k: nat, n: nat)
    requires
        k <= n,
    ensures
        room(iovs, k) <= room(iovs, n),
    decreases n,
{
    if k < n {
        lemma_room_grows(iovs, k, (n - 1) as nat);
    }
}

/// Whether two regions share no byte.
pub open spec fn apart(a: Iov, b: Iov) -> bool {
    a.base + a.len <= b.base || b.base + b.len <= a.base
}

/// Where the regions share no byte, each region that was filled holds its part of the data.
pub proof fn law_regions_hold_data(
    memory: Seq<u8>,
    iovs: Seq<Iov>,
    k: nat,
    data: Seq<u8>,
    i: int,
)
    requires
        0 <= i < k <= iovs.len(),
        room(iovs, k) <= data.len(),
        forall|j: int| 0 <= j < iovs.len() ==> in_memory(#[trigger] iovs[j], memory.len()),
        forall|a: int, b: int|
            0 <= a < b < iovs.len() ==> apart(#[trigger] iovs[a], #[trigger] iovs[b]),
    ensures
        scattered(memory, iovs, k, data).subrange(
            iovs[i].base as int,
            iovs[i].base + iovs[i].len,
        ) == data.subrange(
            room(iovs, i as nat) as int,
            (room(iovs, i as nat) + iovs[i].len) as int,
        ),
    decreases k,
{
    lemma_scattered_len(memory, iovs, k, data);
    lemma_scattered_len(memory, iovs, (k - 1) as nat, data);
    let after = scattered(memory, iovs, k, data);
    let before = scattered(memory, iovs, (k - 1) as nat, data);
    let lo = iovs[i].base as int;
    let hi = iovs[i].base + iovs[i].len;
    assert(in_memory(iovs[i], memory.len()));
    if i == k - 1 {
        let at = room(iovs, i as nat) as int;
        assert(after.subrange(lo, hi) =~= data.subrange(at, at + iovs[i].len));
    } else {
        law_regions_hold_data(memory, iovs, (k - 1) as nat, data, i);
        assert(apart(iovs[i], iovs[k - 1]));
        assert(after.subrange(lo, hi) =~= before.subrange(lo, hi));
    }
}

/// Filling regions does not change the size of the memory.
proof fn lemma_scattered_len(memory: Seq<u8>, iovs: Seq<Iov>, k: nat, data: Seq<u8>)
    ensures
        scattered(memory, iovs, k, data).len() == memory.len(),
    decreases k,
{
    if k > 0 {
        lemma_scattered_len(memory, iovs, (k - 1) as nat, data);
    }
}

} // verus!
