//! Clocks, random numbers, and the end of the guest.
use crate::errno::{ERRNO_FAULT, ERRNO_NOSYS, ERRNO_SUCCESS};
use crate::import_wasi_p1;
use crate::import_wasi_p1::stack;
use crate::import_wasi_p1::stack::{
    pop_i64, pop_u32, push_errno, push_u64, within, Answer,
};
use crate::import_wasi_p1::step::{ClockRequest, Step};
use crate::memory;
use crate::memory::{copy_into, copy_out};
use crate::runtime::{Interpreter, Value, WasiFunc};
use crate::text;
use crate::text::decimal_text;
use crate::wasi_ctx;
use crate::wasi_ctx::{clock_reading, clock_res_get, ClockSource, WasiProcMacroCtx};
use vstd::prelude::*;
use vstd::string::StringExecFns;

verus! {

/// A 64-bit number that is put where the guest wants it, or the reason why there is none.
pub open spec fn long_answer(memory: Seq<u8>, ptr: u32, value: Result<u64, i32>) -> Answer {
    match value {
        Ok(value) => stack::store(memory, ptr, memory::le_bytes(value as nat, 8)),
        Err(errno) => stack::fail(memory, errno),
    }
}

/// Answers with a 64-bit number, or the reason why there is none.
pub fn push_long(interp: &mut Interpreter, ptr: u32, value: Result<u64, i32>)
    ensures
        stack::answered(
            *old(interp),
            *final(interp),
            long_answer(old(interp).memory@, ptr, value),
        ),
{
    match value {
        Ok(value) => push_u64(interp, ptr, value),
        Err(errno) => push_errno(interp, errno),
    }
}

/// What [`wasi_clock_res_get`] does to a guest.
pub open spec fn clock_res_get_ran(before: Interpreter, after: Interpreter) -> bool {
    stack::ran(
        before,
        after,
        import_wasi_p1::wasi_params(WasiFunc::ClockResGet),
        long_answer(
            before.memory@,
            stack::word_arg(before.stack@, 2, 1),
            wasi_ctx::resolution(stack::word_arg(before.stack@, 2, 0)),
        ),
    )
}

/// Tells the resolution of a clock.
pub fn wasi_clock_res_get(interp: &mut Interpreter) -> (trap: Option<String>)
    ensures
        trap is None,
        clock_res_get_ran(*old(interp), *final(interp)),
{
    proof {
        reveal_with_fuel(stack::takes, 3);
        reveal_with_fuel(stack::left, 3);
    }
    let resolution_ptr: u32 = pop_u32(interp)?;
    let clock_id: u32 = pop_u32(interp)?;
    push_long(interp, resolution_ptr, clock_res_get(clock_id));
    None
}

/// What [`wasi_clock_time_get`] does to a guest, and what it needs of the host.
pub open spec fn clock_time_get_ran(
    before: Interpreter,
    after: Interpreter,
    ctx: &WasiProcMacroCtx,
    step: Step,
) -> bool {
    let params = import_wasi_p1::wasi_params(WasiFunc::ClockTimeGet);
    let args = before.stack@;
    let time_ptr = stack::word_arg(args, 3, 2);
    let source = ctx.clock_of(stack::word_arg(args, 3, 0));
    if stack::takes(args, params) && (source matches Ok(source) && source
        != ClockSource::Zero) {
        &&& step == Step::ReadClock(ClockRequest { source: source->Ok_0, time_ptr })
        &&& stack::dropped(before, after, params)
    } else {
        &&& step == Step::Done(None)
        &&& stack::ran(
            before,
            after,
            params,
            long_answer(
                before.memory@,
                time_ptr,
                match source {
                    Ok(source) => Ok(0u64),
                    Err(errno) => Err(errno),
                },
            ),
        )
    }
}

/// Tells the time of a clock. The precision that the guest asks for plays no part.
pub fn wasi_clock_time_get(interp: &mut Interpreter, ctx: &WasiProcMacroCtx) -> (step: Step)
    ensures
        clock_time_get_ran(*old(interp), *final(interp), ctx, step),
{
    proof {
        reveal_with_fuel(stack::takes, 4);
        reveal_with_fuel(stack::left, 4);
    }
    let time_ptr: u32 = match pop_u32(interp) {
        Some(time_ptr) => time_ptr,
        None => return Step::Done(None),
    };
    if pop_i64(interp).is_none() {
        return Step::Done(None);
    }
    let clock_id: u32 = match pop_u32(interp) {
        Some(clock_id) => clock_id,
        None => return Step::Done(None),
    };
    match ctx.clock_time_get(clock_id) {
        Ok(ClockSource::Zero) => push_long(interp, time_ptr, Ok(0)),
        Ok(source) => return Step::ReadClock(ClockRequest { source, time_ptr }),
        Err(errno) => push_long(interp, time_ptr, Err(errno)),
    }
    Step::Done(None)
}

/// Tells the time that the host has read, in nanoseconds, if it could.
pub fn clock_time_finish(interp: &mut Interpreter, request: ClockRequest, nanos: Option<u128>)
    ensures
        stack::answered(
            *old(interp),
            *final(interp),
            long_answer(
                old(interp).memory@,
                request.time_ptr,
                wasi_ctx::clock_time(request.source, nanos),
            ),
        ),
{
    push_long(interp, request.time_ptr, clock_reading(request.source, nanos));
}

/// Whether a region of the memory, and nothing else, was filled with random bytes that a context
/// gives.
pub open spec fn randomized(
    before: Seq<u8>,
    after: Seq<u8>,
    ptr: u32,
    len: u32,
    ctx: WasiProcMacroCtx,
) -> bool {
    &&& after.len() == before.len()
    &&& forall|i: int| 0 <= i < before.len() && !(ptr <= i < ptr + len) ==> after[i] == before[i]
    &&& wasi_ctx::are_given(ctx, after.subrange(ptr as int, ptr + len))
}

/// What [`wasi_random_get`] does to a guest and its context.
pub open spec fn random_get_ran(
    before: Interpreter,
    after: Interpreter,
    ctx: WasiProcMacroCtx,
    ctx_after: WasiProcMacroCtx,
) -> bool {
    let params = import_wasi_p1::wasi_params(WasiFunc::RandomGet);
    let args = before.stack@;
    let memory = before.memory@;
    let ptr = stack::word_arg(args, 2, 0);
    let len = stack::word_arg(args, 2, 1);
    if stack::takes(args, params) && ptr + len <= memory.len() {
        &&& after.stack@ == stack::left(args, params).push(Value::I32(ERRNO_SUCCESS as u32))
        &&& randomized(memory, after.memory@, ptr, len, ctx)
        &&& ctx_after == wasi_ctx::drawn(ctx, len as nat)
    } else {
        &&& ctx_after == ctx
        &&& stack::ran(
            before,
            after,
            params,
            stack::fail(memory, ERRNO_FAULT),
        )
    }
}

/// Fills a region of the memory with random bytes.
pub fn wasi_random_get(interp: &mut Interpreter, ctx: &mut WasiProcMacroCtx) -> (trap: Option<
    String,
>)
    ensures
        trap is None,
        random_get_ran(*old(interp), *final(interp), *old(ctx), *final(ctx)),
{
    proof {
        reveal_with_fuel(stack::takes, 3);
        reveal_with_fuel(stack::left, 3);
    }
    let len: u32 = pop_u32(interp)?;
    let ptr: u32 = pop_u32(interp)?;
    if !within(interp.memory.len(), ptr as u64, len as u64) {
        push_errno(interp, ERRNO_FAULT);
        return None;
    }
    let mut region: Vec<u8> = copy_out(interp.memory.as_slice(), ptr as usize, len as usize);
    ctx.random_fill(&mut region);
    copy_into(&mut interp.memory, ptr as usize, region.as_slice());
    assert(interp.memory@.subrange(ptr as int, ptr + len) =~= region@);
    push_errno(interp, ERRNO_SUCCESS);
    None
}

/// What [`wasi_fd_readdir`] does to a guest.
pub open spec fn fd_readdir_ran(before: Interpreter, after: Interpreter) -> bool {
    &&& after.memory@ == before.memory@
    &&& after.stack@ == before.stack@.take(
        if before.stack@.len() < 5 {
            0
        } else {
            before.stack@.len() - 5
        },
    ).push(Value::I32(ERRNO_NOSYS as u32))
}

/// Listing directories is not offered to guests: five values are taken, of whatever type.
pub fn wasi_fd_readdir(interp: &mut Interpreter) -> (trap: Option<String>)
    ensures
        trap is None,
        fd_readdir_ran(*old(interp), *final(interp)),
{
    let _ = pop_u32(interp);
    let _ = pop_i64(interp);
    let _ = pop_u32(interp);
    let _ = pop_u32(interp);
    let _ = pop_u32(interp);
    assert(interp.stack@ =~= old(interp).stack@.take(
        if old(interp).stack@.len() < 5 {
            0
        } else {
            old(interp).stack@.len() - 5
        },
    ));
    push_errno(interp, ERRNO_NOSYS);
    None
}

/// How the end of a guest is written.
pub open spec fn exit_text(code: u32) -> Seq<char> {
    "WasiProcExit("@ + text::decimal(code as nat) + ")"@
}

/// What [`wasi_proc_exit`] does to a guest.
pub open spec fn proc_exit_ran(
    before: Interpreter,
    after: Interpreter,
    trap: Option<String>,
) -> bool {
    let params = import_wasi_p1::wasi_params(WasiFunc::ProcExit);
    &&& stack::dropped(before, after, params)
    &&& trap matches Some(text) && text@ == exit_text(
        if stack::takes(before.stack@, params) {
            stack::word_arg(before.stack@, 1, 0)
        } else {
            255
        },
    )
}

/// Ends the guest.
pub fn wasi_proc_exit(interp: &mut Interpreter) -> (trap: Option<String>)
    ensures
        proc_exit_ran(*old(interp), *final(interp), trap),
{
    proof {
        reveal_with_fuel(stack::takes, 2);
        reveal_with_fuel(stack::left, 2);
    }
    let code: u32 = match pop_u32(interp) {
        Some(code) => code,
        None => 255,
    };
    let mut text: String = String::from_str("WasiProcExit(");
    text.append(decimal_text(code).as_str());
    text.append(")");
    Some(text)
}

} // verus!
