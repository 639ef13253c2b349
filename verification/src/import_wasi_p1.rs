//! The WASI preview 1 functions that a procedural macro may import.
use crate::runtime::types::{same_values, Func, Int, Value as ValueType};
use crate::runtime::types;
use crate::runtime::{HostFunc, Interpreter, WasiFunc};
use crate::text::same_text;
use crate::import_wasi_p1::args::{
    wasi_args_get, wasi_args_sizes_get, wasi_environ_get, wasi_environ_sizes_get,
};
use crate::import_wasi_p1::io::{
    wasi_fd_close, wasi_fd_read, wasi_fd_seek, wasi_fd_tell, wasi_fd_write,
};
use crate::import_wasi_p1::paths::{
    wasi_fd_fdstat_get, wasi_fd_prestat_dir_name, wasi_fd_prestat_get, wasi_path_open,
};
use crate::import_wasi_p1::step::Step;
use crate::import_wasi_p1::system::{
    wasi_clock_res_get, wasi_clock_time_get, wasi_fd_readdir, wasi_proc_exit, wasi_random_get,
};
use crate::wasi_ctx::WasiProcMacroCtx;
use vstd::prelude::*;

pub mod args;
pub mod effects;
pub mod io;
pub mod paths;
pub mod stack;
pub mod step;
pub mod system;

verus! {

/// The name under which the functions are imported.
pub const WASI_P1_MODULE: &'static str = "wasi_snapshot_preview1";

#[verifier::allow_in_spec]
fn i32() -> ValueType
    returns
        ValueType::Int(Int::I32),
{
    ValueType::Int(Int::I32)
}

#[verifier::allow_in_spec]
fn i64() -> ValueType
    returns
        ValueType::Int(Int::I64),
{
    ValueType::Int(Int::I64)
}

/// The function that a name stands for.
pub open spec fn wasi_func(name: Seq<char>) -> Option<WasiFunc> {
    if name == "args_sizes_get"@ {
        Some(WasiFunc::ArgsSizesGet)
    } else if name == "args_get"@ {
        Some(WasiFunc::ArgsGet)
    } else if name == "environ_sizes_get"@ {
        Some(WasiFunc::EnvironSizesGet)
    } else if name == "environ_get"@ {
        Some(WasiFunc::EnvironGet)
    } else if name == "fd_write"@ {
        Some(WasiFunc::FdWrite)
    } else if name == "fd_read"@ {
        Some(WasiFunc::FdRead)
    } else if name == "fd_close"@ {
        Some(WasiFunc::FdClose)
    } else if name == "fd_seek"@ {
        Some(WasiFunc::FdSeek)
    } else if name == "fd_tell"@ {
        Some(WasiFunc::FdTell)
    } else if name == "fd_fdstat_get"@ {
        Some(WasiFunc::FdFdstatGet)
    } else if name == "path_open"@ {
        Some(WasiFunc::PathOpen)
    } else if name == "fd_prestat_get"@ {
        Some(WasiFunc::FdPrestatGet)
    } else if name == "fd_prestat_dir_name"@ {
        Some(WasiFunc::FdPrestatDirName)
    } else if name == "random_get"@ {
        Some(WasiFunc::RandomGet)
    } else if name == "clock_res_get"@ {
        Some(WasiFunc::ClockResGet)
    } else if name == "clock_time_get"@ {
        Some(WasiFunc::ClockTimeGet)
    } else if name == "fd_readdir"@ {
        Some(WasiFunc::FdReaddir)
    } else if name == "proc_exit"@ {
        Some(WasiFunc::ProcExit)
    } else {
        None
    }
}

/// What a function takes.
pub open spec fn wasi_params(func: WasiFunc) -> Seq<ValueType> {
    match func {
        WasiFunc::FdWrite | WasiFunc::FdRead => seq![
            types::word(),
            types::word(),
            types::word(),
            types::word(),
        ],
        WasiFunc::FdClose | WasiFunc::ProcExit => seq![types::word()],
        WasiFunc::FdSeek => seq![types::word(), types::long(), types::word(), types::word()],
        WasiFunc::PathOpen => seq![
            types::word(),
            types::word(),
            types::word(),
            types::word(),
            types::word(),
            types::long(),
            types::long(),
            types::word(),
            types::word(),
        ],
        WasiFunc::FdPrestatDirName => seq![types::word(), types::word(), types::word()],
        WasiFunc::ClockTimeGet => seq![types::word(), types::long(), types::word()],
        WasiFunc::FdReaddir => seq![
            types::word(),
            types::word(),
            types::word(),
            types::long(),
            types::word(),
        ],
        _ => seq![types::word(), types::word()],
    }
}

/// What a function gives back.
pub open spec fn wasi_results(func: WasiFunc) -> Seq<ValueType> {
    match func {
        WasiFunc::ProcExit => seq![],
        _ => seq![types::word()],
    }
}

fn signature_matches(sig: &Func, params: &[ValueType], results: &[ValueType]) -> (yes: bool)
    ensures
        yes == (sig.args@ == params@ && sig.result@ == results@),
{
    same_values(sig.args.as_slice(), params) && same_values(sig.result.as_slice(), results)
}

/// The function that a name stands for.
fn find_func(name: &str) -> (func: Option<WasiFunc>)
    ensures
        func == wasi_func(name@),
{
    if same_text(name, "args_sizes_get") {
        Some(WasiFunc::ArgsSizesGet)
    } else if same_text(name, "args_get") {
        Some(WasiFunc::ArgsGet)
    } else if same_text(name, "environ_sizes_get") {
        Some(WasiFunc::EnvironSizesGet)
    } else if same_text(name, "environ_get") {
        Some(WasiFunc::EnvironGet)
    } else if same_text(name, "fd_write") {
        Some(WasiFunc::FdWrite)
    } else if same_text(name, "fd_read") {
        Some(WasiFunc::FdRead)
    } else if same_text(name, "fd_close") {
        Some(WasiFunc::FdClose)
    } else if same_text(name, "fd_seek") {
        Some(WasiFunc::FdSeek)
    } else if same_text(name, "fd_tell") {
        Some(WasiFunc::FdTell)
    } else if same_text(name, "fd_fdstat_get") {
        Some(WasiFunc::FdFdstatGet)
    } else if same_text(name, "path_open") {
        Some(WasiFunc::PathOpen)
    } else if same_text(name, "fd_prestat_get") {
        Some(WasiFunc::FdPrestatGet)
    } else if same_text(name, "fd_prestat_dir_name") {
        Some(WasiFunc::FdPrestatDirName)
    } else if same_text(name, "random_get") {
        Some(WasiFunc::RandomGet)
    } else if same_text(name, "clock_res_get") {
        Some(WasiFunc::ClockResGet)
    } else if same_text(name, "clock_time_get") {
        Some(WasiFunc::ClockTimeGet)
    } else if same_text(name, "fd_readdir") {
        Some(WasiFunc::FdReaddir)
    } else if same_text(name, "proc_exit") {
        Some(WasiFunc::ProcExit)
    } else {
        None
    }
}

/// What is found for an import of [`WASI_P1_MODULE`]: nothing for an unknown name, and the
/// signature that the import should have where it has another one.
pub open spec fn lookup(name: Seq<char>, args: Seq<ValueType>, result: Seq<ValueType>) -> Result<
    Option<HostFunc>,
    Seq<char>,
> {
    match wasi_func(name) {
        None => Ok(None),
        Some(func) => if args == wasi_params(func) && result == wasi_results(func) {
            Ok(Some(HostFunc::Wasi(func)))
        } else {
            Err(types::signature_text(wasi_params(func), wasi_results(func)))
        },
    }
}

/// The host function for an import of [`WASI_P1_MODULE`].
pub fn host_func(name: &str, sig: &Func) -> (found: Result<Option<HostFunc>, &'static str>)
    ensures
        types::lookup_result(found) == lookup(name@, sig.args@, sig.result@),
{
    let func = match find_func(name) {
        Some(func) => func,
        None => return Ok(None),
    };
    let params: Vec<ValueType> = match func {
        WasiFunc::FdWrite | WasiFunc::FdRead => vec![i32(), i32(), i32(), i32()],
        WasiFunc::FdClose | WasiFunc::ProcExit => vec![i32()],
        WasiFunc::FdSeek => vec![i32(), i64(), i32(), i32()],
        WasiFunc::PathOpen => vec![
            i32(),
            i32(),
            i32(),
            i32(),
            i32(),
            i64(),
            i64(),
            i32(),
            i32(),
        ],
        WasiFunc::FdPrestatDirName => vec![i32(), i32(), i32()],
        WasiFunc::ClockTimeGet => vec![i32(), i64(), i32()],
        WasiFunc::FdReaddir => vec![i32(), i32(), i32(), i64(), i32()],
        _ => vec![i32(), i32()],
    };
    assert(params@ =~= wasi_params(func));
    let results: Vec<ValueType> = match func {
        WasiFunc::ProcExit => vec![],
        _ => vec![i32()],
    };
    assert(results@ =~= wasi_results(func));
    if signature_matches(sig, params.as_slice(), results.as_slice()) {
        Ok(Some(HostFunc::Wasi(func)))
    } else {
        Err(expected_signature(func))
    }
}

/// Whether a host function did what it does, to a guest and its context, and needs of the host
/// what `step` says.
pub open spec fn called(
    func: WasiFunc,
    before: Interpreter,
    after: Interpreter,
    ctx: WasiProcMacroCtx,
    ctx_after: WasiProcMacroCtx,
    step: Step,
) -> bool {
    match func {
        WasiFunc::FdWrite => io::fd_write_ran(before, after, ctx, ctx_after, step),
        WasiFunc::FdClose => io::fd_close_ran(before, after, ctx, ctx_after, step),
        WasiFunc::RandomGet => step == Step::Done(None) && system::random_get_ran(
            before,
            after,
            ctx,
            ctx_after,
        ),
        _ => ctx_after == ctx && match func {
            WasiFunc::FdRead => io::fd_read_ran(before, after, &ctx, step),
            WasiFunc::FdSeek => io::fd_seek_ran(before, after, &ctx, step),
            WasiFunc::FdTell => io::fd_tell_ran(before, after, &ctx, step),
            WasiFunc::PathOpen => paths::path_open_ran(before, after, &ctx, step),
            WasiFunc::ClockTimeGet => system::clock_time_get_ran(before, after, &ctx, step),
            WasiFunc::ProcExit => step matches Step::Done(trap) && system::proc_exit_ran(
                before,
                after,
                trap,
            ),
            _ => step == Step::Done(None) && match func {
                WasiFunc::ArgsSizesGet => args::args_sizes_get_ran(before, after, &ctx),
                WasiFunc::ArgsGet => args::args_get_ran(before, after, &ctx),
                WasiFunc::EnvironSizesGet => args::environ_sizes_get_ran(before, after, &ctx),
                WasiFunc::EnvironGet => args::environ_get_ran(before, after, &ctx),
                WasiFunc::FdFdstatGet => paths::fd_fdstat_get_ran(before, after, &ctx),
                WasiFunc::FdPrestatGet => paths::fd_prestat_get_ran(before, after, &ctx),
                WasiFunc::FdPrestatDirName => paths::fd_prestat_dir_name_ran(
                    before,
                    after,
                    &ctx,
                ),
                WasiFunc::ClockResGet => system::clock_res_get_ran(before, after),
                _ => system::fd_readdir_ran(before, after),
            },
        },
    }
}

/// Calls a host function. Where it tells how long all strings are together, the number has to
/// fit.
pub fn call(func: WasiFunc, interp: &mut Interpreter, ctx: &mut WasiProcMacroCtx) -> (step: Step)
    requires
        func == WasiFunc::ArgsSizesGet ==> args::strings_fit(old(ctx).args_entries@),
        func == WasiFunc::EnvironSizesGet ==> args::strings_fit(old(ctx).env_entries@),
    ensures
        called(func, *old(interp), *final(interp), *old(ctx), *final(ctx), step),
{
    match func {
        WasiFunc::ArgsSizesGet => Step::Done(wasi_args_sizes_get(interp, ctx)),
        WasiFunc::ArgsGet => Step::Done(wasi_args_get(interp, ctx)),
        WasiFunc::EnvironSizesGet => Step::Done(wasi_environ_sizes_get(interp, ctx)),
        WasiFunc::EnvironGet => Step::Done(wasi_environ_get(interp, ctx)),
        WasiFunc::FdWrite => wasi_fd_write(interp, ctx),
        WasiFunc::FdRead => wasi_fd_read(interp, ctx),
        WasiFunc::FdClose => wasi_fd_close(interp, ctx),
        WasiFunc::FdSeek => wasi_fd_seek(interp, ctx),
        WasiFunc::FdTell => wasi_fd_tell(interp, ctx),
        WasiFunc::FdFdstatGet => Step::Done(wasi_fd_fdstat_get(interp, ctx)),
        WasiFunc::PathOpen => wasi_path_open(interp, ctx),
        WasiFunc::FdPrestatGet => Step::Done(wasi_fd_prestat_get(interp, ctx)),
        WasiFunc::FdPrestatDirName => Step::Done(wasi_fd_prestat_dir_name(interp, ctx)),
        WasiFunc::RandomGet => Step::Done(wasi_random_get(interp, ctx)),
        WasiFunc::ClockResGet => Step::Done(wasi_clock_res_get(interp)),
        WasiFunc::ClockTimeGet => wasi_clock_time_get(interp, ctx),
        WasiFunc::FdReaddir => Step::Done(wasi_fd_readdir(interp)),
        WasiFunc::ProcExit => Step::Done(wasi_proc_exit(interp)),
    }
}

/// How the type of a function is written.
fn expected_signature(func: WasiFunc) -> (text: &'static str)
    ensures
        text@ == types::signature_text(wasi_params(func), wasi_results(func)),
{
    proof {
        reveal_strlit("i32");
        reveal_strlit("i64");
        reveal_strlit("(");
        reveal_strlit(")");
        reveal_strlit(", ");
        reveal_strlit(") -> (");
        let params = wasi_params(func);
        types::lemma_first_kinds(params, params.len());
        assert(params.take(params.len() as int) =~= params);
        types::lemma_type_list_push(params, types::word());
        reveal_with_fuel(types::first_kinds, 9);
    }
    let text: &'static str = match func {
        WasiFunc::FdWrite | WasiFunc::FdRead => {
            proof {
                reveal_strlit("(i32, i32, i32, i32) -> (i32)");
            }
            "(i32, i32, i32, i32) -> (i32)"
        },
        WasiFunc::FdClose => {
            proof {
                reveal_strlit("(i32) -> (i32)");
            }
            "(i32) -> (i32)"
        },
        WasiFunc::ProcExit => {
            proof {
                reveal_strlit("(i32) -> ()");
            }
            "(i32) -> ()"
        },
        WasiFunc::FdSeek => {
            proof {
                reveal_strlit("(i32, i64, i32, i32) -> (i32)");
            }
            "(i32, i64, i32, i32) -> (i32)"
        },
        WasiFunc::PathOpen => {
            proof {
                reveal_strlit("(i32, i32, i32, i32, i32, i64, i64, i32, i32) -> (i32)");
            }
            "(i32, i32, i32, i32, i32, i64, i64, i32, i32) -> (i32)"
        },
        WasiFunc::FdPrestatDirName => {
            proof {
                reveal_strlit("(i32, i32, i32) -> (i32)");
            }
            "(i32, i32, i32) -> (i32)"
        },
        WasiFunc::ClockTimeGet => {
            proof {
                reveal_strlit("(i32, i64, i32) -> (i32)");
            }
            "(i32, i64, i32) -> (i32)"
        },
        WasiFunc::FdReaddir => {
            proof {
                reveal_strlit("(i32, i32, i32, i64, i32) -> (i32)");
            }
            "(i32, i32, i32, i64, i32) -> (i32)"
        },
        _ => {
            proof {
                reveal_strlit("(i32, i32) -> (i32)");
            }
            "(i32, i32) -> (i32)"
        },
    };
    assert(text@ =~= types::signature_text(wasi_params(func), wasi_results(func)));
    text
}

/// The names of the functions, and that there are no others.
pub proof fn law_wasi_names(name: Seq<char>)
    ensures
        WASI_P1_MODULE@ == "wasi_snapshot_preview1"@,
        wasi_func("args_sizes_get"@) == Some(WasiFunc::ArgsSizesGet),
        wasi_func("args_get"@) == Some(WasiFunc::ArgsGet),
        wasi_func("environ_sizes_get"@) == Some(WasiFunc::EnvironSizesGet),
        wasi_func("environ_get"@) == Some(WasiFunc::EnvironGet),
        wasi_func("fd_write"@) == Some(WasiFunc::FdWrite),
        wasi_func("fd_read"@) == Some(WasiFunc::FdRead),
        wasi_func("fd_close"@) == Some(WasiFunc::FdClose),
        wasi_func("fd_seek"@) == Some(WasiFunc::FdSeek),
        wasi_func("fd_tell"@) == Some(WasiFunc::FdTell),
        wasi_func("fd_fdstat_get"@) == Some(WasiFunc::FdFdstatGet),
        wasi_func("path_open"@) == Some(WasiFunc::PathOpen),
        wasi_func("fd_prestat_get"@) == Some(WasiFunc::FdPrestatGet),
        wasi_func("fd_prestat_dir_name"@) == Some(WasiFunc::FdPrestatDirName),
        wasi_func("random_get"@) == Some(WasiFunc::RandomGet),
        wasi_func("clock_res_get"@) == Some(WasiFunc::ClockResGet),
        wasi_func("clock_time_get"@) == Some(WasiFunc::ClockTimeGet),
        wasi_func("fd_readdir"@) == Some(WasiFunc::FdReaddir),
        wasi_func("proc_exit"@) == Some(WasiFunc::ProcExit),
        wasi_func(name) is Some ==> {
            ||| name == "args_sizes_get"@
            ||| name == "args_get"@
            ||| name == "environ_sizes_get"@
            ||| name == "environ_get"@
            ||| name == "fd_write"@
            ||| name == "fd_read"@
            ||| name == "fd_close"@
            ||| name == "fd_seek"@
            ||| name == "fd_tell"@
            ||| name == "fd_fdstat_get"@
            ||| name == "path_open"@
            ||| name == "fd_prestat_get"@
            ||| name == "fd_prestat_dir_name"@
            ||| name == "random_get"@
            ||| name == "clock_res_get"@
            ||| name == "clock_time_get"@
            ||| name == "fd_readdir"@
            ||| name == "proc_exit"@
        },
{
    reveal_strlit("args_sizes_get");
    assert("args_sizes_get"@.len() == 14);
    reveal_strlit("args_get");
    assert("args_get"@.len() == 8);
    reveal_strlit("environ_sizes_get");
    assert("environ_sizes_get"@.len() == 17);
    reveal_strlit("environ_get");
    assert("environ_get"@.len() == 11);
    reveal_strlit("fd_write");
    assert("fd_write"@.len() == 8);
    reveal_strlit("fd_read");
    assert("fd_read"@.len() == 7);
    reveal_strlit("fd_close");
    assert("fd_close"@.len() == 8);
    reveal_strlit("fd_seek");
    assert("fd_seek"@.len() == 7);
    reveal_strlit("fd_tell");
    assert("fd_tell"@.len() == 7);
    reveal_strlit("fd_fdstat_get");
    assert("fd_fdstat_get"@.len() == 13);
    reveal_strlit("path_open");
    assert("path_open"@.len() == 9);
    reveal_strlit("fd_prestat_get");
    assert("fd_prestat_get"@.len() == 14);
    reveal_strlit("fd_prestat_dir_name");
    assert("fd_prestat_dir_name"@.len() == 19);
    reveal_strlit("random_get");
    assert("random_get"@.len() == 10);
    reveal_strlit("clock_res_get");
    assert("clock_res_get"@.len() == 13);
    reveal_strlit("clock_time_get");
    assert("clock_time_get"@.len() == 14);
    reveal_strlit("fd_readdir");
    assert("fd_readdir"@.len() == 10);
    reveal_strlit("proc_exit");
    assert("proc_exit"@.len() == 9);
    assert("args_get"@[0] != "fd_write"@[0]);
    assert("args_get"@[0] != "fd_close"@[0]);
    assert("fd_write"@[3] != "fd_close"@[3]);
    assert("fd_read"@[3] != "fd_seek"@[3]);
    assert("fd_read"@[3] != "fd_tell"@[3]);
    assert("fd_seek"@[3] != "fd_tell"@[3]);
    assert("args_sizes_get"@[0] != "fd_prestat_get"@[0]);
    assert("fd_fdstat_get"@[0] != "clock_res_get"@[0]);
    assert("args_sizes_get"@[0] != "clock_time_get"@[0]);
    assert("fd_prestat_get"@[0] != "clock_time_get"@[0]);
    assert("random_get"@[0] != "fd_readdir"@[0]);
    assert("path_open"@[1] != "proc_exit"@[1]);
}

/// What the functions take: `i32` but for an offset, rights, a precision and a cookie, which are
/// `i64`.
pub proof fn law_wasi_params(func: WasiFunc)
    ensures
        ({
            let word = ValueType::Int(Int::I32);
            let long = ValueType::Int(Int::I64);
            match func {
                WasiFunc::ArgsSizesGet => wasi_params(func) == seq![word, word],
                WasiFunc::ArgsGet => wasi_params(func) == seq![word, word],
                WasiFunc::EnvironSizesGet => wasi_params(func) == seq![word, word],
                WasiFunc::EnvironGet => wasi_params(func) == seq![word, word],
                WasiFunc::FdWrite => wasi_params(func) == seq![word, word, word, word],
                WasiFunc::FdRead => wasi_params(func) == seq![word, word, word, word],
                WasiFunc::FdClose => wasi_params(func) == seq![word],
                WasiFunc::FdSeek => wasi_params(func) == seq![word, long, word, word],
                WasiFunc::FdTell => wasi_params(func) == seq![word, word],
                WasiFunc::FdFdstatGet => wasi_params(func) == seq![word, word],
                WasiFunc::PathOpen => wasi_params(func) == seq![
                    word,
                    word,
                    word,
                    word,
                    word,
                    long,
                    long,
                    word,
                    word,
                ],
                WasiFunc::FdPrestatGet => wasi_params(func) == seq![word, word],
                WasiFunc::FdPrestatDirName => wasi_params(func) == seq![word, word, word],
                WasiFunc::RandomGet => wasi_params(func) == seq![word, word],
                WasiFunc::ClockResGet => wasi_params(func) == seq![word, word],
                WasiFunc::ClockTimeGet => wasi_params(func) == seq![word, long, word],
                WasiFunc::FdReaddir => wasi_params(func) == seq![word, word, word, long, word],
                WasiFunc::ProcExit => wasi_params(func) == seq![word],
            }
        }),
{
}

/// Each function gives an error number back, but for the one that ends the guest.
pub proof fn law_wasi_results(func: WasiFunc)
    ensures
        func != WasiFunc::ProcExit ==> wasi_results(func) == seq![ValueType::Int(Int::I32)],
        wasi_results(WasiFunc::ProcExit) == Seq::<ValueType>::empty(),
{
    assert(wasi_results(WasiFunc::ProcExit) =~= Seq::<ValueType>::empty());
}

/// A function is found by its name and its own types alone. With other types the search says which
/// it should have, and with another name it finds nothing.
pub proof fn law_wasi_lookup(name: Seq<char>, args: Seq<ValueType>, result: Seq<ValueType>)
    ensures
        wasi_func(name) is None ==> lookup(name, args, result) == Ok::<Option<HostFunc>, Seq<char>>(
            None,
        ),
        wasi_func(name) matches Some(func) ==> lookup(name, wasi_params(func), wasi_results(func))
            == Ok::<Option<HostFunc>, Seq<char>>(Some(HostFunc::Wasi(func))),
        wasi_func(name) matches Some(func) ==> args != wasi_params(func) || result != wasi_results(
            func,
        ) ==> lookup(name, args, result) == Err::<Option<HostFunc>, Seq<char>>(
            types::signature_text(wasi_params(func), wasi_results(func)),
        ),
{
}

} // verus!
