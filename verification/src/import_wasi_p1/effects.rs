//! What each host function does, told by what its caller hands over and finds afterwards.
use crate::files;
use crate::import_wasi_p1;
use crate::import_wasi_p1::args;
use crate::import_wasi_p1::io;
use crate::import_wasi_p1::paths;
use crate::import_wasi_p1::stack;
use crate::import_wasi_p1::step::{ClockRequest, Iov, SeekRequest, Step};
use crate::import_wasi_p1::system;
use crate::memory;
use crate::runtime::{Interpreter, Value, WasiFunc};
use crate::wasi_ctx;
use crate::wasi_ctx::{ClockSource, SeekTarget, WasiProcMacroCtx, WriteTarget};
use vstd::prelude::*;

verus! {

/// Whether `bytes` stand at `ptr` after something was done to a memory, and everything else is as
/// it was.
pub open spec fn holds_at(before: Seq<u8>, after: Seq<u8>, ptr: u32, bytes: Seq<u8>) -> bool {
    &&& after.len() == before.len()
    &&& after.subrange(ptr as int, ptr + bytes.len()) == bytes
    &&& forall|i: int|
        0 <= i < before.len() && !(ptr <= i < ptr + bytes.len()) ==> (#[trigger] after[i])
            == before[i]
}

/// Whether a number stands at `ptr` in `n` bytes after something was done to a memory, and
/// everything else is as it was.
pub open spec fn holds_number(
    before: Seq<u8>,
    after: Seq<u8>,
    ptr: u32,
    n: nat,
    value: nat,
) -> bool {
    &&& after.len() == before.len()
    &&& memory::le_value(after.subrange(ptr as int, ptr + n)) == value
    &&& forall|i: int|
        0 <= i < before.len() && !(ptr <= i < ptr + n) ==> (#[trigger] after[i]) == before[i]
}

/// A number that was put into a memory stands there.
proof fn lemma_holds_number(before: Seq<u8>, ptr: u32, n: nat, value: nat)
    requires
        n == 4 && value <= u32::MAX || n == 8 && value <= u64::MAX,
        ptr + n <= before.len(),
    ensures
        memory::le_bytes(value, n).len() == n,
        holds_number(
            before,
            memory::splice(before, ptr as int, memory::le_bytes(value, n)),
            ptr,
            n,
            value,
        ),
{
    reveal_with_fuel(memory::pow256, 9);
    memory::lemma_le_bytes_len(value, n);
    memory::law_le_round_trip(value, n);
    memory::law_splice_read_back(before, ptr as int, memory::le_bytes(value, n));
}

/// A host function that does not find its arguments on the stack takes what it finds, gives no
/// answer and does nothing, but for the one that ends the guest, which does so with 255, and for
/// the one that lists directories, which looks at no argument.
pub proof fn law_no_answer_without_arguments(
    func: WasiFunc,
    before: Interpreter,
    after: Interpreter,
    ctx: WasiProcMacroCtx,
    ctx_after: WasiProcMacroCtx,
    step: Step,
)
    requires
        import_wasi_p1::called(func, before, after, ctx, ctx_after, step),
        func != WasiFunc::FdReaddir,
        !stack::takes(before.stack@, import_wasi_p1::wasi_params(func)),
    ensures
        after.stack@ == stack::left(before.stack@, import_wasi_p1::wasi_params(func)),
        after.memory@ == before.memory@,
        ctx_after == (WasiProcMacroCtx { fds: ctx_after.fds, ..ctx }),
        ctx_after.fds@ == ctx.fds@,
        func != WasiFunc::ProcExit ==> step == Step::Done(None),
        func == WasiFunc::ProcExit ==> step is Done && step->Done_0 is Some
            && step->Done_0->Some_0@ == "WasiProcExit(255)"@,
{
    if func == WasiFunc::ProcExit {
        reveal_strlit("WasiProcExit(255)");
        reveal_strlit("WasiProcExit(");
        reveal_strlit(")");
        reveal_with_fuel(crate::text::decimal, 4);
        assert("WasiProcExit("@ + crate::text::decimal(255) + ")"@ =~= "WasiProcExit(255)"@);
    }
}

/// A guest that asks how many arguments or variables it has finds their number at the first place
/// and how long they are together at the second one, if both lie within its memory.
pub proof fn law_called_sizes(
    func: WasiFunc,
    before: Interpreter,
    after: Interpreter,
    ctx: WasiProcMacroCtx,
    ctx_after: WasiProcMacroCtx,
    step: Step,
    rest: Seq<Value>,
    count_ptr: u32,
    size_ptr: u32,
)
    requires
        func == WasiFunc::ArgsSizesGet || func == WasiFunc::EnvironSizesGet,
        import_wasi_p1::called(func, before, after, ctx, ctx_after, step),
        before.stack@ == rest.push(Value::I32(count_ptr)).push(Value::I32(size_ptr)),
        ctx.args_entries@.len() <= u32::MAX,
        ctx.env_entries@.len() <= u32::MAX,
        memory::byte_seqs(ctx.args_entries@).flatten().len() <= u32::MAX,
        memory::byte_seqs(ctx.env_entries@).flatten().len() <= u32::MAX,
    ensures
        ctx_after == ctx,
        step == Step::Done(None),
        after.memory@.len() == before.memory@.len(),
        ({
            let entries = if func == WasiFunc::ArgsSizesGet {
                ctx.args_entries@
            } else {
                ctx.env_entries@
            };
            let count = memory::le_bytes(entries.len(), 4);
            let total = memory::byte_seqs(entries).flatten().len();
            let end = before.memory@.len();
            &&& count_ptr + 4 > end ==> after.stack@ == rest.push(Value::I32(21)) && after.memory@
                == before.memory@
            &&& count_ptr + 4 <= end && size_ptr + 4 > end ==> {
                &&& after.stack@ == rest.push(Value::I32(21))
                &&& holds_number(before.memory@, after.memory@, count_ptr, 4, entries.len())
            }
            &&& count_ptr + 4 <= end && size_ptr + 4 <= end ==> {
                &&& after.stack@ == rest.push(Value::I32(0))
                &&& memory::le_value(after.memory@.subrange(size_ptr as int, size_ptr + 4)) == total
                &&& forall|i: int|
                    0 <= i < end && !(size_ptr <= i < size_ptr + 4) ==> (
                    #[trigger] after.memory@[i]) == (if count_ptr <= i < count_ptr + 4 {
                        count[i - count_ptr]
                    } else {
                        before.memory@[i]
                    })
            }
        }),
{
    reveal_with_fuel(stack::takes, 3);
    reveal_with_fuel(stack::left, 3);
    let args = before.stack@;
    assert(args.drop_last() =~= rest.push(Value::I32(count_ptr)));
    assert(args.drop_last().drop_last() =~= rest);
    let entries = if func == WasiFunc::ArgsSizesGet {
        ctx.args_entries@
    } else {
        ctx.env_entries@
    };
    let total = memory::byte_seqs(entries).flatten().len();
    memory::law_concat_flattens(memory::byte_seqs(entries));
    memory::lemma_le_bytes_len(entries.len(), 4);
    memory::lemma_le_bytes_len(total, 4);
    let end = before.memory@.len();
    if count_ptr + 4 <= end {
        lemma_holds_number(before.memory@, count_ptr, 4, entries.len());
        let first = memory::splice(
            before.memory@,
            count_ptr as int,
            memory::le_bytes(entries.len(), 4),
        );
        if size_ptr + 4 <= end {
            lemma_holds_number(first, size_ptr, 4, total);
        }
    }
}

/// A guest that asks for its arguments or variables gets all of them, put at the two places that it
/// names, and an error number that says whether they fit.
pub proof fn law_called_strings(
    func: WasiFunc,
    before: Interpreter,
    after: Interpreter,
    ctx: WasiProcMacroCtx,
    ctx_after: WasiProcMacroCtx,
    step: Step,
    rest: Seq<Value>,
    slots: u32,
    buf_ptr: u32,
)
    requires
        func == WasiFunc::ArgsGet || func == WasiFunc::EnvironGet,
        import_wasi_p1::called(func, before, after, ctx, ctx_after, step),
        before.stack@ == rest.push(Value::I32(slots)).push(Value::I32(buf_ptr)),
    ensures
        ctx_after == ctx,
        step == Step::Done(None),
        ({
            let entries = memory::byte_seqs(
                if func == WasiFunc::ArgsGet {
                    ctx.args_entries@
                } else {
                    ctx.env_entries@
                },
            );
            let answer = args::strings_answer(
                before.memory@,
                entries,
                0,
                slots as nat,
                buf_ptr as nat,
            );
            let fits = entries.len() == 0 || slots + 4 * entries.len() <= before.memory@.len()
                && buf_ptr + entries.flatten().len() <= before.memory@.len();
            &&& after.memory@ == answer.memory
            &&& after.stack@ == rest.push(
                Value::I32(
                    if fits {
                        0
                    } else {
                        21
                    },
                ),
            )
        }),
{
    reveal_with_fuel(stack::takes, 3);
    reveal_with_fuel(stack::left, 3);
    let args = before.stack@;
    assert(args.drop_last() =~= rest.push(Value::I32(slots)));
    assert(args.drop_last().drop_last() =~= rest);
    let entries = memory::byte_seqs(
        if func == WasiFunc::ArgsGet {
            ctx.args_entries@
        } else {
            ctx.env_entries@
        },
    );
    args::law_room_for_all_strings(before.memory@, entries, slots as nat, buf_ptr as nat);
}

/// A guest that writes hands over what the regions of its list hold, all of it and in their order.
/// What goes to a stream that the host does not print is kept at once; otherwise the host is asked
/// to write it. Without a descriptor to write to, a zero stands where the guest wants the number
/// of bytes.
pub proof fn law_called_fd_write(
    before: Interpreter,
    after: Interpreter,
    ctx: WasiProcMacroCtx,
    ctx_after: WasiProcMacroCtx,
    step: Step,
    rest: Seq<Value>,
    fd: u32,
    ptr: u32,
    n: u32,
    nwritten_ptr: u32,
)
    requires
        import_wasi_p1::called(WasiFunc::FdWrite, before, after, ctx, ctx_after, step),
        before.stack@ == rest.push(Value::I32(fd)).push(Value::I32(ptr)).push(Value::I32(n))
            .push(Value::I32(nwritten_ptr)),
    ensures
        !io::iovs_fit(before.memory@, ptr, n as nat) ==> {
            &&& step == Step::Done(None)
            &&& ctx_after == ctx
            &&& after.memory@ == before.memory@
            &&& after.stack@ == rest.push(Value::I32(21))
        },
        io::iovs_fit(before.memory@, ptr, n as nat) ==> {
            let chunks = io::contents(before.memory@, io::iov_list(before.memory@, ptr, n as nat));
            let end = before.memory@.len();
            let total = chunks.flatten().len();
            &&& ctx.target_of(fd) matches Err(errno) ==> {
                &&& step == Step::Done(None)
                &&& ctx_after == ctx
                &&& nwritten_ptr + 4 <= end ==> after.stack@ == rest.push(
                    Value::I32(errno as u32),
                ) && holds_number(before.memory@, after.memory@, nwritten_ptr, 4, 0)
                &&& nwritten_ptr + 4 > end ==> after.stack@ == rest.push(Value::I32(21))
                    && after.memory@ == before.memory@
            }
            &&& ctx.target_of(fd) matches Ok(target) ==> (target is File || ctx.mirror_stdio) ==> {
                &&& step matches Step::Write(request)
                &&& request.target == target
                &&& request.nwritten_ptr == nwritten_ptr
                &&& memory::byte_seqs(request.chunks@) == chunks
                &&& ctx_after == ctx
                &&& after.stack@ == rest
                &&& after.memory@ == before.memory@
            }
            &&& ctx.target_of(fd) matches Ok(target) ==> !(target is File) && !ctx.mirror_stdio
                ==> {
                &&& step == Step::Done(None)
                &&& target is Stdout ==> ctx_after.stdout_capture@ == ctx.stdout_capture@
                    + chunks.flatten() && ctx_after.stderr_capture@ == ctx.stderr_capture@
                &&& target is Stderr ==> ctx_after.stderr_capture@ == ctx.stderr_capture@
                    + chunks.flatten() && ctx_after.stdout_capture@ == ctx.stdout_capture@
                &&& nwritten_ptr + 4 <= end && total <= u32::MAX ==> after.stack@ == rest.push(
                    Value::I32(0),
                ) && holds_number(before.memory@, after.memory@, nwritten_ptr, 4, total)
                &&& nwritten_ptr + 4 <= end && total > u32::MAX ==> after.stack@ == rest.push(
                    Value::I32(0),
                ) && holds_number(before.memory@, after.memory@, nwritten_ptr, 4, 0xffff_ffff)
                &&& nwritten_ptr + 4 > end ==> after.stack@ == rest.push(Value::I32(21))
                    && after.memory@ == before.memory@
            }
        },
{
    reveal_with_fuel(stack::takes, 5);
    reveal_with_fuel(stack::left, 5);
    let args = before.stack@;
    assert(
        args.drop_last()
            =~= rest.push(Value::I32(fd)).push(Value::I32(ptr)).push(Value::I32(n))
    );
    assert(
        args.drop_last().drop_last()
            =~= rest.push(Value::I32(fd)).push(Value::I32(ptr))
    );
    assert(args.drop_last().drop_last().drop_last() =~= rest.push(Value::I32(fd)));
    assert(args.drop_last().drop_last().drop_last().drop_last() =~= rest);
    if io::iovs_fit(before.memory@, ptr, n as nat) {
        let chunks = io::contents(before.memory@, io::iov_list(before.memory@, ptr, n as nat));
        assert forall|i: int| 0 <= i < chunks.len() implies (#[trigger] chunks[i]).len()
            <= 0xffff_ffff by {
            assert(io::iov_fits(before.memory@, ptr, i));
        }
        memory::law_concat_flattens(chunks);
        wasi_ctx::law_totals_are_capped(chunks);
        let told = wasi_ctx::saturated_total(chunks);
        memory::lemma_le_bytes_len(0, 4);
        memory::lemma_le_bytes_len(told as nat, 4);
        if nwritten_ptr + 4 <= before.memory@.len() {
            lemma_holds_number(before.memory@, nwritten_ptr, 4, 0);
            lemma_holds_number(before.memory@, nwritten_ptr, 4, told as nat);
        }
    }
}

/// A guest that reads has the host asked for the regions of its list, from the first one on.
/// Without regions it has read nothing.
pub proof fn law_called_fd_read(
    before: Interpreter,
    after: Interpreter,
    ctx: WasiProcMacroCtx,
    ctx_after: WasiProcMacroCtx,
    step: Step,
    rest: Seq<Value>,
    fd: u32,
    ptr: u32,
    n: u32,
    nread_ptr: u32,
)
    requires
        import_wasi_p1::called(WasiFunc::FdRead, before, after, ctx, ctx_after, step),
        before.stack@ == rest.push(Value::I32(fd)).push(Value::I32(ptr)).push(Value::I32(n))
            .push(Value::I32(nread_ptr)),
    ensures
        ctx_after == ctx,
        !io::iovs_fit(before.memory@, ptr, n as nat) ==> {
            &&& step == Step::Done(None)
            &&& after.memory@ == before.memory@
            &&& after.stack@ == rest.push(Value::I32(21))
        },
        n == 0 ==> {
            &&& step == Step::Done(None)
            &&& nread_ptr + 4 <= before.memory@.len() ==> after.stack@ == rest.push(Value::I32(0))
                && holds_number(before.memory@, after.memory@, nread_ptr, 4, 0)
            &&& nread_ptr + 4 > before.memory@.len() ==> after.stack@ == rest.push(Value::I32(21))
                && after.memory@ == before.memory@
        },
        n > 0 && io::iovs_fit(before.memory@, ptr, n as nat) ==> {
            &&& after.memory@ == before.memory@
            &&& ctx.file_of(fd) matches Ok(file) ==> {
                &&& step matches Step::Read(request)
                &&& request.file == file
                &&& request.iovs@ == io::iov_list(before.memory@, ptr, n as nat)
                &&& request.next == 0
                &&& request.total == 0
                &&& request.nread_ptr == nread_ptr
                &&& after.stack@ == rest
            }
            &&& ctx.file_of(fd) matches Err(errno) ==> step == Step::Done(None) && after.stack@
                == rest.push(Value::I32(errno as u32))
        },
{
    reveal_with_fuel(stack::takes, 5);
    reveal_with_fuel(stack::left, 5);
    let args = before.stack@;
    assert(
        args.drop_last()
            =~= rest.push(Value::I32(fd)).push(Value::I32(ptr)).push(Value::I32(n))
    );
    assert(
        args.drop_last().drop_last()
            =~= rest.push(Value::I32(fd)).push(Value::I32(ptr))
    );
    assert(args.drop_last().drop_last().drop_last() =~= rest.push(Value::I32(fd)));
    assert(args.drop_last().drop_last().drop_last().drop_last() =~= rest);
    memory::lemma_le_bytes_len(0, 4);
    if n == 0 && nread_ptr + 4 <= before.memory@.len() {
        lemma_holds_number(before.memory@, nread_ptr, 4, 0);
    }
}

/// A guest that closes a descriptor frees it, and no other, if it stands for a file or a directory
/// that the guest has opened; a file is closed by the host.
pub proof fn law_called_fd_close(
    before: Interpreter,
    after: Interpreter,
    ctx: WasiProcMacroCtx,
    ctx_after: WasiProcMacroCtx,
    step: Step,
    rest: Seq<Value>,
    fd: u32,
)
    requires
        import_wasi_p1::called(WasiFunc::FdClose, before, after, ctx, ctx_after, step),
        before.stack@ == rest.push(Value::I32(fd)),
    ensures
        after.memory@ == before.memory@,
        ctx_after == (WasiProcMacroCtx { fds: ctx_after.fds, ..ctx }),
        ({
            let entry = ctx.entry(fd);
            let is_file = entry is Some && entry->Some_0 is OpenFile;
            let is_dir = entry is Some && entry->Some_0 is OpenDir;
            &&& is_file || is_dir ==> after.stack@ == rest.push(Value::I32(0)) && ctx_after.fds@
                == ctx.fds@.update(fd as int, None)
            &&& is_file ==> step == Step::Close(entry->Some_0->OpenFile_file)
            &&& is_dir ==> step == Step::Done(None)
            &&& !is_file && !is_dir ==> {
                &&& after.stack@ == rest.push(Value::I32(8))
                &&& ctx_after.fds@ == ctx.fds@
                &&& step == Step::Done(None)
            }
        }),
{
    reveal_with_fuel(stack::takes, 2);
    reveal_with_fuel(stack::left, 2);
    let args = before.stack@;
    assert(args.drop_last() =~= rest);
}

/// A guest that positions a file has the host asked for it: from the start, from where the file
/// stands or from its end.
pub proof fn law_called_fd_seek(
    before: Interpreter,
    after: Interpreter,
    ctx: WasiProcMacroCtx,
    ctx_after: WasiProcMacroCtx,
    step: Step,
    rest: Seq<Value>,
    fd: u32,
    offset: u64,
    whence: u32,
    offset_ptr: u32,
)
    requires
        import_wasi_p1::called(WasiFunc::FdSeek, before, after, ctx, ctx_after, step),
        before.stack@ == rest.push(Value::I32(fd)).push(Value::I64(offset))
            .push(Value::I32(whence)).push(Value::I32(offset_ptr)),
    ensures
        ctx_after == ctx,
        after.memory@ == before.memory@,
        ({
            let entry = ctx.entry(fd);
            let is_file = entry is Some && entry->Some_0 is OpenFile;
            let file = entry->Some_0->OpenFile_file;
            &&& is_file && whence % 0x100 == 0 ==> step == Step::Seek(
                (SeekRequest { file, target: SeekTarget::Start(offset), offset_ptr }),
            ) && after.stack@ == rest
            &&& is_file && whence % 0x100 == 1 ==> step == Step::Seek(
                (SeekRequest { file, target: SeekTarget::Current(offset as i64), offset_ptr }),
            ) && after.stack@ == rest
            &&& is_file && whence % 0x100 == 2 ==> step == Step::Seek(
                (SeekRequest { file, target: SeekTarget::End(offset as i64), offset_ptr }),
            ) && after.stack@ == rest
            &&& is_file && whence % 0x100 > 2 ==> step == Step::Done(None) && after.stack@
                == rest.push(Value::I32(28))
            &&& !is_file ==> step == Step::Done(None) && after.stack@ == rest.push(Value::I32(8))
        }),
{
    reveal_with_fuel(stack::takes, 5);
    reveal_with_fuel(stack::left, 5);
    let args = before.stack@;
    assert(
        args.drop_last()
            =~= rest.push(Value::I32(fd)).push(Value::I64(offset)).push(Value::I32(whence))
    );
    assert(
        args.drop_last().drop_last()
            =~= rest.push(Value::I32(fd)).push(Value::I64(offset))
    );
    assert(args.drop_last().drop_last().drop_last() =~= rest.push(Value::I32(fd)));
    assert(args.drop_last().drop_last().drop_last().drop_last() =~= rest);
    assert((offset as i64) as u64 == offset) by (bit_vector);
    assert(whence as u8 == whence % 0x100) by (bit_vector);
}

/// A guest that asks where a file stands has the host leave it there and tell.
pub proof fn law_called_fd_tell(
    before: Interpreter,
    after: Interpreter,
    ctx: WasiProcMacroCtx,
    ctx_after: WasiProcMacroCtx,
    step: Step,
    rest: Seq<Value>,
    fd: u32,
    offset_ptr: u32,
)
    requires
        import_wasi_p1::called(WasiFunc::FdTell, before, after, ctx, ctx_after, step),
        before.stack@ == rest.push(Value::I32(fd)).push(Value::I32(offset_ptr)),
    ensures
        ctx_after == ctx,
        after.memory@ == before.memory@,
        ({
            let entry = ctx.entry(fd);
            let is_file = entry is Some && entry->Some_0 is OpenFile;
            let file = entry->Some_0->OpenFile_file;
            &&& is_file ==> step == Step::Seek(
                (SeekRequest { file, target: SeekTarget::Current(0), offset_ptr }),
            ) && after.stack@ == rest
            &&& !is_file ==> step == Step::Done(None) && after.stack@ == rest.push(Value::I32(8))
        }),
{
    reveal_with_fuel(stack::takes, 3);
    reveal_with_fuel(stack::left, 3);
    let args = before.stack@;
    assert(args.drop_last() =~= rest.push(Value::I32(fd)));
    assert(args.drop_last().drop_last() =~= rest);
}

/// A guest is told of a descriptor what kind of file it stands for, in 24 bytes of which the
/// others are zero.
pub proof fn law_called_fd_fdstat_get(
    before: Interpreter,
    after: Interpreter,
    ctx: WasiProcMacroCtx,
    ctx_after: WasiProcMacroCtx,
    step: Step,
    rest: Seq<Value>,
    fd: u32,
    stat_ptr: u32,
)
    requires
        import_wasi_p1::called(WasiFunc::FdFdstatGet, before, after, ctx, ctx_after, step),
        before.stack@ == rest.push(Value::I32(fd)).push(Value::I32(stat_ptr)),
    ensures
        ctx_after == ctx,
        step == Step::Done(None),
        ctx.filetype_of(fd) matches Ok(filetype) ==> {
            &&& stat_ptr + 24 <= before.memory@.len() ==> {
                &&& after.stack@ == rest.push(Value::I32(0))
                &&& after.memory@.len() == before.memory@.len()
                &&& forall|i: int|
                    0 <= i < before.memory@.len() ==> (#[trigger] after.memory@[i]) == (if i
                        == stat_ptr {
                        filetype
                    } else if stat_ptr < i < stat_ptr + 24 {
                        0
                    } else {
                        before.memory@[i]
                    })
            }
            &&& stat_ptr + 24 > before.memory@.len() ==> after.stack@ == rest.push(Value::I32(21))
                && after.memory@ == before.memory@
        },
        ctx.filetype_of(fd) matches Err(errno) ==> after.stack@ == rest.push(
            Value::I32(errno as u32),
        ) && after.memory@ == before.memory@,
{
    reveal_with_fuel(stack::takes, 3);
    reveal_with_fuel(stack::left, 3);
    let args = before.stack@;
    assert(args.drop_last() =~= rest.push(Value::I32(fd)));
    assert(args.drop_last().drop_last() =~= rest);
}

/// A guest is told of a directory that was open from the start how long its name is, behind four
/// zeros. Of any other descriptor it is told that there is none.
pub proof fn law_called_fd_prestat_get(
    before: Interpreter,
    after: Interpreter,
    ctx: WasiProcMacroCtx,
    ctx_after: WasiProcMacroCtx,
    step: Step,
    rest: Seq<Value>,
    fd: u32,
    prestat_ptr: u32,
)
    requires
        import_wasi_p1::called(WasiFunc::FdPrestatGet, before, after, ctx, ctx_after, step),
        before.stack@ == rest.push(Value::I32(fd)).push(Value::I32(prestat_ptr)),
    ensures
        ctx_after == ctx,
        step == Step::Done(None),
        ctx.preopen_of(fd) matches Some(dir) ==> {
            let name = vstd::utf8::encode_utf8(dir.guest_path@);
            &&& prestat_ptr + 8 <= before.memory@.len() && name.len() <= u32::MAX ==> {
                &&& after.stack@ == rest.push(Value::I32(0))
                &&& holds_at(
                    before.memory@,
                    after.memory@,
                    prestat_ptr,
                    seq![0u8, 0, 0, 0] + memory::le_bytes(name.len(), 4),
                )
            }
            &&& prestat_ptr + 8 > before.memory@.len() ==> after.stack@ == rest.push(
                Value::I32(21),
            ) && after.memory@ == before.memory@
        },
        ctx.preopen_of(fd) is None ==> after.stack@ == rest.push(Value::I32(8)) && after.memory@
            == before.memory@,
{
    reveal_with_fuel(stack::takes, 3);
    reveal_with_fuel(stack::left, 3);
    let args = before.stack@;
    assert(args.drop_last() =~= rest.push(Value::I32(fd)));
    assert(args.drop_last().drop_last() =~= rest);
    if let Some(dir) = ctx.preopen_of(fd) {
        let name = vstd::utf8::encode_utf8(dir.guest_path@);
        memory::lemma_le_bytes_len((name.len() as usize as u32) as nat, 4);
        let bytes = paths::prestat_bytes(name.len() as usize as u32);
        assert(bytes.len() == 8);
        if prestat_ptr + 8 <= before.memory@.len() && name.len() <= u32::MAX {
            assert(bytes =~= seq![0u8, 0, 0, 0] + memory::le_bytes(name.len(), 4));
            memory::law_splice_read_back(before.memory@, prestat_ptr as int, bytes);
        }
    }
}

/// A guest gets the name of a directory that was open from the start, if it provides enough room.
pub proof fn law_called_fd_prestat_dir_name(
    before: Interpreter,
    after: Interpreter,
    ctx: WasiProcMacroCtx,
    ctx_after: WasiProcMacroCtx,
    step: Step,
    rest: Seq<Value>,
    fd: u32,
    path_ptr: u32,
    path_len: u32,
)
    requires
        import_wasi_p1::called(WasiFunc::FdPrestatDirName, before, after, ctx, ctx_after, step),
        before.stack@ == rest.push(Value::I32(fd)).push(Value::I32(path_ptr))
            .push(Value::I32(path_len)),
    ensures
        ctx_after == ctx,
        step == Step::Done(None),
        ctx.preopen_of(fd) matches Some(dir) ==> {
            let name = vstd::utf8::encode_utf8(dir.guest_path@);
            let end = before.memory@.len();
            &&& name.len() > path_len ==> after.stack@ == rest.push(Value::I32(28))
                && after.memory@ == before.memory@
            &&& name.len() <= path_len && path_ptr + name.len() > end ==> after.stack@ == rest.push(
                Value::I32(21),
            ) && after.memory@ == before.memory@
            &&& name.len() <= path_len && path_ptr + name.len() <= end ==> after.stack@
                == rest.push(Value::I32(0)) && holds_at(
                before.memory@,
                after.memory@,
                path_ptr,
                name,
            )
        },
        ctx.preopen_of(fd) is None ==> after.stack@ == rest.push(Value::I32(8)) && after.memory@
            == before.memory@,
{
    reveal_with_fuel(stack::takes, 4);
    reveal_with_fuel(stack::left, 4);
    let args = before.stack@;
    assert(args.drop_last() =~= rest.push(Value::I32(fd)).push(Value::I32(path_ptr)));
    assert(args.drop_last().drop_last() =~= rest.push(Value::I32(fd)));
    assert(args.drop_last().drop_last().drop_last() =~= rest);
    if let Some(dir) = ctx.preopen_of(fd) {
        let name = vstd::utf8::encode_utf8(dir.guest_path@);
        if path_ptr + name.len() <= before.memory@.len() {
            memory::law_splice_read_back(before.memory@, path_ptr as int, name);
        }
    }
}

/// A guest that opens a path has the host look at it, unless it asks for what it never gets, the
/// path lies beyond its memory, or there is another reason against it. What the path leads to
/// through links and the rights that are handed on play no part.
pub proof fn law_called_path_open(
    before: Interpreter,
    after: Interpreter,
    ctx: WasiProcMacroCtx,
    ctx_after: WasiProcMacroCtx,
    step: Step,
    rest: Seq<Value>,
    dirfd: u32,
    lookupflags: u32,
    ptr: u32,
    len: u32,
    oflags: u32,
    rights_base: u64,
    rights_inheriting: u64,
    fdflags: u32,
    opened_fd_ptr: u32,
)
    requires
        import_wasi_p1::called(WasiFunc::PathOpen, before, after, ctx, ctx_after, step),
        before.stack@ == rest.push(Value::I32(dirfd)).push(Value::I32(lookupflags))
            .push(Value::I32(ptr)).push(Value::I32(len)).push(Value::I32(oflags))
            .push(Value::I64(rights_base)).push(Value::I64(rights_inheriting))
            .push(Value::I32(fdflags)).push(Value::I32(opened_fd_ptr)),
    ensures
        ctx_after == ctx,
        after.memory@ == before.memory@,
        ({
            let never = oflags & 1 != 0 || oflags & 8 != 0 || fdflags & 0x1f != 0;
            let beyond = ptr + len > before.memory@.len();
            let path = before.memory@.subrange(ptr as int, ptr + len);
            let reason = files::path_open_error(
                &ctx,
                dirfd,
                path,
                files::wants_write(oflags, fdflags, rights_base),
            );
            &&& never ==> step == Step::Done(None) && after.stack@ == rest.push(Value::I32(63))
            &&& !never && beyond ==> step == Step::Done(None) && after.stack@ == rest.push(
                Value::I32(21),
            )
            &&& !never && !beyond ==> (reason matches Some(errno) ==> step == Step::Done(None)
                && after.stack@ == rest.push(Value::I32(errno as u32)))
            &&& !never && !beyond && reason is None ==> {
                &&& step matches Step::Probe(request)
                &&& request.opened_fd_ptr == opened_fd_ptr
                &&& files::asks_for(
                    &request.open,
                    &ctx,
                    dirfd,
                    path,
                    oflags,
                    fdflags,
                    rights_base,
                )
                &&& after.stack@ == rest
            }
        }),
{
    let opened = seq![
        Value::I32(dirfd),
        Value::I32(lookupflags),
        Value::I32(ptr),
        Value::I32(len),
        Value::I32(oflags),
        Value::I64(rights_base),
        Value::I64(rights_inheriting),
        Value::I32(fdflags),
        Value::I32(opened_fd_ptr),
    ];
    assert(before.stack@ =~= rest + opened);
    stack::law_arguments_are_taken(
        rest,
        opened,
        import_wasi_p1::wasi_params(WasiFunc::PathOpen),
    );
}

/// A guest that asks for random bytes finds them in the region that it names, and everything else
/// as it was.
pub proof fn law_called_random_get(
    before: Interpreter,
    after: Interpreter,
    ctx: WasiProcMacroCtx,
    ctx_after: WasiProcMacroCtx,
    step: Step,
    rest: Seq<Value>,
    ptr: u32,
    len: u32,
)
    requires
        import_wasi_p1::called(WasiFunc::RandomGet, before, after, ctx, ctx_after, step),
        before.stack@ == rest.push(Value::I32(ptr)).push(Value::I32(len)),
    ensures
        step == Step::Done(None),
        after.memory@.len() == before.memory@.len(),
        ptr + len > before.memory@.len() ==> {
            &&& after.stack@ == rest.push(Value::I32(21))
            &&& after.memory@ == before.memory@
            &&& ctx_after == ctx
        },
        ptr + len <= before.memory@.len() ==> {
            &&& after.stack@ == rest.push(Value::I32(0))
            &&& wasi_ctx::are_given(ctx, after.memory@.subrange(ptr as int, ptr + len))
            &&& forall|i: int|
                0 <= i < before.memory@.len() && !(ptr <= i < ptr + len) ==> (
                #[trigger] after.memory@[i]) == before.memory@[i]
            &&& ctx_after == wasi_ctx::drawn(ctx, len as nat)
        },
        ctx.deterministic_random ==> forall|i: int|
            ptr <= i < ptr + len && ptr + len <= before.memory@.len() ==> (
            #[trigger] after.memory@[i]) == 0,
{
    reveal_with_fuel(stack::takes, 3);
    reveal_with_fuel(stack::left, 3);
    let args = before.stack@;
    assert(args.drop_last() =~= rest.push(Value::I32(ptr)));
    assert(args.drop_last().drop_last() =~= rest);
    if ctx.deterministic_random && ptr + len <= before.memory@.len() {
        let bytes = after.memory@.subrange(ptr as int, ptr + len);
        wasi_ctx::law_random_bytes(ctx, bytes);
        assert forall|i: int| ptr <= i < ptr + len implies (#[trigger] after.memory@[i]) == 0 by {
            assert(bytes[i - ptr] == 0);
        }
    }
}

/// A guest is told that each clock counts single nanoseconds; there are two clocks.
pub proof fn law_called_clock_res_get(
    before: Interpreter,
    after: Interpreter,
    ctx: WasiProcMacroCtx,
    ctx_after: WasiProcMacroCtx,
    step: Step,
    rest: Seq<Value>,
    clock_id: u32,
    resolution_ptr: u32,
)
    requires
        import_wasi_p1::called(WasiFunc::ClockResGet, before, after, ctx, ctx_after, step),
        before.stack@ == rest.push(Value::I32(clock_id)).push(Value::I32(resolution_ptr)),
    ensures
        ctx_after == ctx,
        step == Step::Done(None),
        clock_id <= 1 && resolution_ptr + 8 <= before.memory@.len() ==> after.stack@ == rest.push(
            Value::I32(0),
        ) && holds_number(before.memory@, after.memory@, resolution_ptr, 8, 1),
        clock_id <= 1 && resolution_ptr + 8 > before.memory@.len() ==> after.stack@ == rest.push(
            Value::I32(21),
        ) && after.memory@ == before.memory@,
        clock_id > 1 ==> after.stack@ == rest.push(Value::I32(52)) && after.memory@
            == before.memory@,
{
    reveal_with_fuel(stack::takes, 3);
    reveal_with_fuel(stack::left, 3);
    let args = before.stack@;
    assert(args.drop_last() =~= rest.push(Value::I32(clock_id)));
    assert(args.drop_last().drop_last() =~= rest);
    memory::lemma_le_bytes_len(1, 8);
    if resolution_ptr + 8 <= before.memory@.len() {
        lemma_holds_number(before.memory@, resolution_ptr, 8, 1);
    }
}

/// A guest that asks for the time has the host read the clock, and is told zero where random
/// numbers are replaced by zeros. The precision plays no part.
pub proof fn law_called_clock_time_get(
    before: Interpreter,
    after: Interpreter,
    ctx: WasiProcMacroCtx,
    ctx_after: WasiProcMacroCtx,
    step: Step,
    rest: Seq<Value>,
    clock_id: u32,
    precision: u64,
    time_ptr: u32,
)
    requires
        import_wasi_p1::called(WasiFunc::ClockTimeGet, before, after, ctx, ctx_after, step),
        before.stack@ == rest.push(Value::I32(clock_id)).push(Value::I64(precision))
            .push(Value::I32(time_ptr)),
    ensures
        ctx_after == ctx,
        clock_id > 1 ==> {
            &&& step == Step::Done(None)
            &&& after.stack@ == rest.push(Value::I32(52))
            &&& after.memory@ == before.memory@
        },
        clock_id <= 1 && !ctx.deterministic_random ==> {
            &&& step matches Step::ReadClock(request)
            &&& request.time_ptr == time_ptr
            &&& ctx.clock_of(clock_id) == Ok::<ClockSource, i32>(request.source)
            &&& after.stack@ == rest
            &&& after.memory@ == before.memory@
        },
        clock_id <= 1 && ctx.deterministic_random ==> {
            &&& step == Step::Done(None)
            &&& time_ptr + 8 <= before.memory@.len() ==> after.stack@ == rest.push(Value::I32(0))
                && holds_number(before.memory@, after.memory@, time_ptr, 8, 0)
            &&& time_ptr + 8 > before.memory@.len() ==> after.stack@ == rest.push(Value::I32(21))
                && after.memory@ == before.memory@
        },
{
    reveal_with_fuel(stack::takes, 4);
    reveal_with_fuel(stack::left, 4);
    let args = before.stack@;
    assert(
        args.drop_last()
            =~= rest.push(Value::I32(clock_id)).push(Value::I64(precision))
    );
    assert(args.drop_last().drop_last() =~= rest.push(Value::I32(clock_id)));
    assert(args.drop_last().drop_last().drop_last() =~= rest);
    memory::lemma_le_bytes_len(0, 8);
    if time_ptr + 8 <= before.memory@.len() {
        lemma_holds_number(before.memory@, time_ptr, 8, 0);
    }
}

/// Listing directories is not offered: five values are taken, whatever they are, and the guest is
/// told so.
pub proof fn law_called_fd_readdir(
    before: Interpreter,
    after: Interpreter,
    ctx: WasiProcMacroCtx,
    ctx_after: WasiProcMacroCtx,
    step: Step,
    rest: Seq<Value>,
    values: Seq<Value>,
)
    requires
        import_wasi_p1::called(WasiFunc::FdReaddir, before, after, ctx, ctx_after, step),
        before.stack@ == rest + values,
        values.len() == 5 || values.len() < 5 && rest.len() == 0,
    ensures
        ctx_after == ctx,
        step == Step::Done(None),
        after.memory@ == before.memory@,
        after.stack@ == rest.push(Value::I32(52)),
{
    assert(before.stack@.take(rest.len() as int) =~= rest);
    assert(before.stack@.take(0) =~= Seq::<Value>::empty());
    if values.len() < 5 {
        assert(rest =~= Seq::<Value>::empty());
    }
}

/// A guest that ends itself does so with the number that it gives, written in decimal digits.
pub proof fn law_called_proc_exit(
    before: Interpreter,
    after: Interpreter,
    ctx: WasiProcMacroCtx,
    ctx_after: WasiProcMacroCtx,
    step: Step,
    rest: Seq<Value>,
    code: u32,
)
    requires
        import_wasi_p1::called(WasiFunc::ProcExit, before, after, ctx, ctx_after, step),
        before.stack@ == rest.push(Value::I32(code)),
    ensures
        ctx_after == ctx,
        after.memory@ == before.memory@,
        after.stack@ == rest,
        step is Done,
        step->Done_0 is Some,
        step->Done_0->Some_0@ == "WasiProcExit("@ + crate::text::decimal(code as nat) + ")"@,
{
    reveal_with_fuel(stack::takes, 2);
    reveal_with_fuel(stack::left, 2);
    let args = before.stack@;
    assert(args.drop_last() =~= rest);
}

/// The regions of a list stand one after the other, eight bytes each: four for where a region
/// begins and four for how long it is, least significant first. A region fits if it and its place
/// in the list lie within the memory.
pub proof fn law_regions_of_lists(memory: Seq<u8>, ptr: u32, n: nat, i: int)
    requires
        0 <= i < n,
    ensures
        io::iov_list(memory, ptr, n).len() == n,
        ptr + 8 * i + 8 > memory.len() ==> !io::iov_fits(memory, ptr, i),
        ptr + 8 * i + 8 <= memory.len() ==> {
            let at = ptr + 8 * i;
            let base = memory[at] + 0x100 * memory[at + 1] + 0x1_0000 * memory[at + 2] + 0x100_0000
                * memory[at + 3];
            let len = memory[at + 4] + 0x100 * memory[at + 5] + 0x1_0000 * memory[at + 6]
                + 0x100_0000 * memory[at + 7];
            &&& io::iov_list(memory, ptr, n)[i].base == base
            &&& io::iov_list(memory, ptr, n)[i].len == len
            &&& io::iov_fits(memory, ptr, i) <==> base + len <= memory.len()
        },
        io::iovs_fit(memory, ptr, n) ==> io::iov_fits(memory, ptr, i),
{
    if ptr + 8 * i + 8 <= memory.len() {
        let at = ptr + 8 * i;
        memory::law_number_of_bytes(memory.subrange(at, at + 4));
        memory::law_number_of_bytes(memory.subrange(at + 4, at + 8));
    }
}

/// The regions of a list fit if each of them does.
pub proof fn law_all_regions_fit(memory: Seq<u8>, ptr: u32, n: nat)
    requires
        forall|i: int| 0 <= i < n ==> #[trigger] io::iov_fits(memory, ptr, i),
    ensures
        io::iovs_fit(memory, ptr, n),
{
}

/// What regions hold is each of them as it stands in the memory.
pub proof fn law_contents_of_regions(memory: Seq<u8>, iovs: Seq<Iov>, i: int)
    requires
        0 <= i < iovs.len(),
    ensures
        io::contents(memory, iovs).len() == iovs.len(),
        io::contents(memory, iovs)[i] == memory.subrange(
            iovs[i].base as int,
            iovs[i].base + iovs[i].len,
        ),
{
}

/// A write that the host has a part in is answered with the number of bytes, or with an error and a
/// zero in the place of the number.
pub proof fn law_answers_to_writes(memory: Seq<u8>, ptr: u32, written: u32, errno: i32)
    ensures
        ptr + 4 <= memory.len() ==> {
            let good = io::write_answer(memory, ptr, Ok(written));
            let bad = io::write_answer(memory, ptr, Err(errno));
            &&& good.errno == 0
            &&& holds_number(memory, good.memory, ptr, 4, written as nat)
            &&& bad.errno == errno
            &&& holds_number(memory, bad.memory, ptr, 4, 0)
        },
        ptr + 4 > memory.len() ==> {
            let good = io::write_answer(memory, ptr, Ok(written));
            let bad = io::write_answer(memory, ptr, Err(errno));
            &&& good.errno == 21 && good.memory == memory
            &&& bad.errno == 21 && bad.memory == memory
        },
{
    memory::lemma_le_bytes_len(written as nat, 4);
    memory::lemma_le_bytes_len(0, 4);
    if ptr + 4 <= memory.len() {
        lemma_holds_number(memory, ptr, 4, written as nat);
        lemma_holds_number(memory, ptr, 4, 0);
    }
}

/// A position, a time and a resolution are put where the guest wants them, in eight bytes; a reason
/// against it is told alone.
pub proof fn law_answers_with_long_numbers(memory: Seq<u8>, ptr: u32, value: u64, errno: i32)
    ensures
        ptr + 8 <= memory.len() ==> system::long_answer(memory, ptr, Ok(value)).errno == 0
            && holds_number(
            memory,
            system::long_answer(memory, ptr, Ok(value)).memory,
            ptr,
            8,
            value as nat,
        ),
        ptr + 8 > memory.len() ==> system::long_answer(memory, ptr, Ok(value)).errno == 21
            && system::long_answer(memory, ptr, Ok(value)).memory == memory,
        system::long_answer(memory, ptr, Err(errno)).errno == errno,
        system::long_answer(memory, ptr, Err(errno)).memory == memory,
{
    memory::lemma_le_bytes_len(value as nat, 8);
    if ptr + 8 <= memory.len() {
        lemma_holds_number(memory, ptr, 8, value as nat);
    }
}

/// A descriptor is put where the guest wants it, in four bytes; a reason against it is told alone.
pub proof fn law_answers_with_descriptors(memory: Seq<u8>, ptr: u32, fd: u32, errno: i32)
    ensures
        ptr + 4 <= memory.len() ==> paths::fd_answer(memory, ptr, Ok(fd)).errno == 0
            && holds_number(
            memory,
            paths::fd_answer(memory, ptr, Ok(fd)).memory,
            ptr,
            4,
            fd as nat,
        ),
        ptr + 4 > memory.len() ==> paths::fd_answer(memory, ptr, Ok(fd)).errno == 21
            && paths::fd_answer(memory, ptr, Ok(fd)).memory == memory,
        paths::fd_answer(memory, ptr, Err(errno)).errno == errno,
        paths::fd_answer(memory, ptr, Err(errno)).memory == memory,
{
    memory::lemma_le_bytes_len(fd as nat, 4);
    if ptr + 4 <= memory.len() {
        lemma_holds_number(memory, ptr, 4, fd as nat);
    }
}

/// How much was read is added up, and is at most the largest number.
pub proof fn law_read_totals(a: u32, b: nat)
    ensures
        a + b <= 0xffff_ffff ==> io::capped_sum(a, b) == a + b,
        a + b > 0xffff_ffff ==> io::capped_sum(a, b) == 0xffff_ffff,
{
}

} // verus!
