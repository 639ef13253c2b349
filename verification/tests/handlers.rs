use rustc_watt::errno::{
    IoErrorKind, ERRNO_BADF, ERRNO_FAULT, ERRNO_INVAL, ERRNO_IO, ERRNO_NOSYS, ERRNO_NOTDIR,
    ERRNO_PERM, ERRNO_SUCCESS,
};
use rustc_watt::import_wasi_p1::args::total_len;
use rustc_watt::import_wasi_p1::call;
use rustc_watt::import_wasi_p1::io::{fd_read_continue, fd_write_finish, seek_finish};
use rustc_watt::import_wasi_p1::paths::{
    path_open_dir_finish, path_open_file_finish, path_open_probed,
};
use rustc_watt::import_wasi_p1::stack::{pop_i64, pop_u32, write_u32, write_u64};
use rustc_watt::import_wasi_p1::step::{ClockRequest, Iov, Step};
use rustc_watt::import_wasi_p1::system::clock_time_finish;
use rustc_watt::path::HostPath;
use rustc_watt::resolve::PathProbe;
use rustc_watt::runtime::{Interpreter, Value, WasiFunc};
use rustc_watt::wasi_ctx::{
    ClockSource, FdEntry, PreopenDir, SeekTarget, WasiProcMacroCtx, WriteTarget,
};

fn ctx_with(args: Vec<Vec<u8>>, env: Vec<Vec<u8>>, deterministic: bool) -> WasiProcMacroCtx {
    WasiProcMacroCtx::new(args, env, false, deterministic, vec![])
}

fn ctx_with_dir(path: &str, writable: bool) -> WasiProcMacroCtx {
    WasiProcMacroCtx::new(
        vec![],
        vec![],
        false,
        false,
        vec![PreopenDir {
            root: HostPath::parse(path.as_bytes()),
            guest_path: path.to_string(),
            writable,
        }],
    )
}

fn guest() -> Interpreter {
    Interpreter { stack: vec![], memory: vec![0; 65536] }
}

fn push(interp: &mut Interpreter, values: &[u32]) {
    for value in values {
        interp.push(Value::I32(*value));
    }
}

fn done(step: Step) {
    assert!(matches!(step, Step::Done(None)), "{step:?}");
}

fn errno(interp: &mut Interpreter) -> i32 {
    match interp.pop() {
        Some(Value::I32(v)) => v as i32,
        other => panic!("no error number: {other:?}"),
    }
}

fn load32(interp: &Interpreter, at: usize) -> u32 {
    let m = &interp.memory;
    u32::from_le_bytes([m[at], m[at + 1], m[at + 2], m[at + 3]])
}

fn load64(interp: &Interpreter, at: usize) -> u64 {
    (load32(interp, at) as u64) | ((load32(interp, at + 4) as u64) << 32)
}

fn store32(interp: &mut Interpreter, at: usize, value: u32) {
    interp.memory[at..at + 4].copy_from_slice(&value.to_le_bytes());
}

fn found(path: &str) -> PathProbe {
    PathProbe {
        root_has_canonical_dir: true,
        root_is_dir: true,
        exists: true,
        canonical: Ok(HostPath::parse(path.as_bytes())),
        canonical_parent: Err(IoErrorKind::Other),
    }
}

fn parent_found(path: &str) -> PathProbe {
    PathProbe {
        root_has_canonical_dir: true,
        root_is_dir: true,
        exists: false,
        canonical: Err(IoErrorKind::NotFound),
        canonical_parent: Ok(HostPath::parse(path.as_bytes())),
    }
}

#[test]
fn stdout_capture_works() {
    let mut ctx = ctx_with(vec![], vec![], false);
    assert!(ctx.captured_stdout().is_empty());
    assert!(!ctx.write_stdout(b"hello"));
    assert_eq!(ctx.captured_stdout(), b"hello");
    assert!(ctx.captured_stderr().is_empty());
}

#[test]
fn args_sizes_and_get_use_runtime_context() {
    let args = vec![b"rustc\0".to_vec(), b"--crate-name\0".to_vec()];
    let ctx = ctx_with(args.clone(), vec![], false);
    let got = ctx.args_entries();
    assert_eq!(*got, args);
}

#[test]
fn executes_fd_write_to_stdout_capture() {
    let mut ctx = ctx_with(vec![], vec![], false);
    let mut interp = guest();
    interp.memory[16..21].copy_from_slice(b"hello");
    store32(&mut interp, 0, 16);
    store32(&mut interp, 4, 5);
    push(&mut interp, &[1, 0, 1, 8]);
    done(call(WasiFunc::FdWrite, &mut interp, &mut ctx));
    assert_eq!(interp.stack, vec![Value::I32(0)]);
    assert_eq!(ctx.captured_stdout(), b"hello");
    assert_eq!(load32(&interp, 8), 5);
}

#[test]
fn executes_random_get_deterministically() {
    let mut ctx = ctx_with(vec![], vec![], true);
    let mut interp = guest();
    interp.memory[0..8].copy_from_slice(&[7; 8]);
    push(&mut interp, &[0, 4]);
    done(call(WasiFunc::RandomGet, &mut interp, &mut ctx));
    assert_eq!(errno(&mut interp), ERRNO_SUCCESS);
    assert_eq!(load32(&interp, 0), 0);
    assert_eq!(interp.memory[4..8], [7; 4]);
}

#[test]
fn executes_clock_time_get_in_deterministic_mode() {
    let mut ctx = ctx_with(vec![], vec![], true);
    let mut interp = guest();
    interp.memory[8..24].copy_from_slice(&[9; 16]);
    push(&mut interp, &[0, 16]);
    done(call(WasiFunc::ClockResGet, &mut interp, &mut ctx));
    assert_eq!(errno(&mut interp), ERRNO_SUCCESS);
    interp.push(Value::I32(0));
    interp.push(Value::I64(0));
    interp.push(Value::I32(8));
    done(call(WasiFunc::ClockTimeGet, &mut interp, &mut ctx));
    assert_eq!(errno(&mut interp), ERRNO_SUCCESS);
    assert_eq!(load64(&interp, 16), 1);
    assert_eq!(load64(&interp, 8), 0);
}

#[test]
fn executes_args_and_environ_queries() {
    let mut ctx = ctx_with(vec![b"rustc\0".to_vec()], vec![b"K=V\0".to_vec()], false);
    let mut interp = guest();
    push(&mut interp, &[0, 4]);
    done(call(WasiFunc::ArgsSizesGet, &mut interp, &mut ctx));
    assert_eq!(errno(&mut interp), ERRNO_SUCCESS);
    push(&mut interp, &[8, 16]);
    done(call(WasiFunc::ArgsGet, &mut interp, &mut ctx));
    assert_eq!(errno(&mut interp), ERRNO_SUCCESS);
    push(&mut interp, &[24, 28]);
    done(call(WasiFunc::EnvironSizesGet, &mut interp, &mut ctx));
    assert_eq!(errno(&mut interp), ERRNO_SUCCESS);
    push(&mut interp, &[32, 40]);
    done(call(WasiFunc::EnvironGet, &mut interp, &mut ctx));
    assert_eq!(errno(&mut interp), ERRNO_SUCCESS);
    assert_eq!(interp.memory[16], 114);
    assert_eq!(interp.memory[40], 75);
    assert_eq!((load32(&interp, 0), load32(&interp, 4)), (1, 6));
    assert_eq!(load32(&interp, 8), 16);
    assert_eq!((load32(&interp, 24), load32(&interp, 28)), (1, 4));
    assert_eq!(load32(&interp, 32), 40);
}

#[test]
fn strings_read_back() {
    let entries = vec![b"a\0".to_vec(), b"bcd\0".to_vec(), b"ef\0".to_vec()];
    assert_eq!(total_len(&entries), Some(9));
    let mut ctx = ctx_with(entries.clone(), vec![], false);
    let mut interp = guest();
    push(&mut interp, &[100, 200]);
    done(call(WasiFunc::ArgsGet, &mut interp, &mut ctx));
    assert_eq!(errno(&mut interp), ERRNO_SUCCESS);
    for (i, entry) in entries.iter().enumerate() {
        let at = load32(&interp, 100 + 4 * i) as usize;
        assert_eq!(&interp.memory[at..at + entry.len()], entry.as_slice());
    }
    assert_eq!(&interp.memory[200..209], b"a\0bcd\0ef\0");
    assert_eq!(interp.memory[209], 0);
}

#[test]
fn empty_strings_take_no_room() {
    let entries = vec![vec![], b"x\0".to_vec(), vec![]];
    let mut ctx = ctx_with(entries, vec![], false);
    let mut interp = Interpreter { stack: vec![], memory: vec![0; 16] };
    push(&mut interp, &[0, 14]);
    done(call(WasiFunc::ArgsGet, &mut interp, &mut ctx));
    assert_eq!(errno(&mut interp), ERRNO_SUCCESS);
    assert_eq!(load32(&interp, 0), 14);
    assert_eq!(load32(&interp, 4), 14);
    assert_eq!(load32(&interp, 8), 16);
    assert_eq!(&interp.memory[14..], b"x\0");
}

#[test]
fn strings_stop_where_they_do_not_fit() {
    let entries = vec![b"a\0".to_vec(), b"bcd\0".to_vec()];
    let mut ctx = ctx_with(entries, vec![], false);
    let mut interp = Interpreter { stack: vec![], memory: vec![0; 16] };
    push(&mut interp, &[0, 12]);
    done(call(WasiFunc::ArgsGet, &mut interp, &mut ctx));
    assert_eq!(errno(&mut interp), ERRNO_FAULT);
    // The first string and the place of the second one were written.
    assert_eq!(&interp.memory[12..14], b"a\0");
    assert_eq!(load32(&interp, 0), 12);
    assert_eq!(load32(&interp, 4), 14);
    assert_eq!(interp.memory[14..16], [0, 0]);

    let mut small = Interpreter { stack: vec![], memory: vec![0; 6] };
    push(&mut small, &[4, 0]);
    done(call(WasiFunc::ArgsSizesGet, &mut small, &mut ctx));
    assert_eq!(errno(&mut small), ERRNO_FAULT);
    assert_eq!(small.memory, vec![0; 6]);
    push(&mut small, &[0, 4]);
    done(call(WasiFunc::ArgsSizesGet, &mut small, &mut ctx));
    assert_eq!(errno(&mut small), ERRNO_FAULT);
    assert_eq!(small.memory, vec![2, 0, 0, 0, 0, 0]);
}

fn open_path(
    interp: &mut Interpreter,
    ctx: &mut WasiProcMacroCtx,
    path: &[u8],
    oflags: u32,
    rights: u64,
    fdflags: u32,
    fd_ptr: u32,
) -> Step {
    interp.memory[32..32 + path.len()].copy_from_slice(path);
    push(interp, &[3, 0, 32, path.len() as u32, oflags]);
    interp.push(Value::I64(rights));
    interp.push(Value::I64(0));
    push(interp, &[fdflags, fd_ptr]);
    call(WasiFunc::PathOpen, interp, ctx)
}

#[test]
fn executes_path_open_fd_write_and_close() {
    let mut ctx = ctx_with_dir("/work", true);
    let mut interp = guest();
    interp.memory[64..69].copy_from_slice(b"hello");

    let step = open_path(&mut interp, &mut ctx, b"out.txt", 0, 64, 0, 24);
    let request = match step {
        Step::Probe(request) => request,
        other => panic!("{other:?}"),
    };
    assert!(interp.stack.is_empty());
    let target = match path_open_probed(&mut interp, request, &found("/work/out.txt")) {
        Step::OpenFile(target) => target,
        other => panic!("{other:?}"),
    };
    assert_eq!(target.full.names, vec![b"work".to_vec(), b"out.txt".to_vec()]);
    assert!(target.open.options.write);
    assert!(!target.open.options.create);
    path_open_file_finish(&mut interp, &mut ctx, target, Some(77));
    assert_eq!(errno(&mut interp), ERRNO_SUCCESS);
    let fd = load32(&interp, 24);
    assert_eq!(fd, 4);

    store32(&mut interp, 0, 64);
    store32(&mut interp, 4, 5);
    push(&mut interp, &[fd, 0, 1, 28]);
    let request = match call(WasiFunc::FdWrite, &mut interp, &mut ctx) {
        Step::Write(request) => request,
        other => panic!("{other:?}"),
    };
    assert_eq!(request.target, WriteTarget::File(77));
    assert_eq!(request.chunks, vec![b"hello".to_vec()]);
    fd_write_finish(&mut interp, &mut ctx, &request, 1);
    assert_eq!(errno(&mut interp), ERRNO_SUCCESS);
    assert_eq!(load32(&interp, 28), 5);

    push(&mut interp, &[fd]);
    assert!(matches!(call(WasiFunc::FdClose, &mut interp, &mut ctx), Step::Close(77)));
    assert_eq!(interp.stack, vec![Value::I32(0)]);
    assert!(ctx.fd_entry(fd).is_none());
}

#[test]
fn executes_path_open_fd_read_and_close() {
    let mut ctx = ctx_with_dir("/work", false);
    let mut interp = guest();
    let request = match open_path(&mut interp, &mut ctx, b"in.txt", 0, 0, 0, 24) {
        Step::Probe(request) => request,
        other => panic!("{other:?}"),
    };
    let target = match path_open_probed(&mut interp, request, &found("/work/in.txt")) {
        Step::OpenFile(target) => target,
        other => panic!("{other:?}"),
    };
    assert!(!target.open.options.write);
    path_open_file_finish(&mut interp, &mut ctx, target, Some(5));
    assert_eq!(errno(&mut interp), ERRNO_SUCCESS);
    let fd = load32(&interp, 24);

    store32(&mut interp, 0, 64);
    store32(&mut interp, 4, 3);
    push(&mut interp, &[fd, 0, 1, 28]);
    let request = match call(WasiFunc::FdRead, &mut interp, &mut ctx) {
        Step::Read(request) => request,
        other => panic!("{other:?}"),
    };
    assert_eq!(request.file, 5);
    assert_eq!(request.iovs, vec![Iov { base: 64, len: 3 }]);
    done(fd_read_continue(&mut interp, request, Some(b"ABC".to_vec())));
    assert_eq!(errno(&mut interp), ERRNO_SUCCESS);
    assert_eq!(load32(&interp, 28), 3);
    push(&mut interp, &[fd]);
    assert!(matches!(call(WasiFunc::FdClose, &mut interp, &mut ctx), Step::Close(5)));
    assert_eq!(interp.memory[64] - 65, 0);
}

#[test]
fn executes_fd_prestat_queries_and_readdir_nosys() {
    let mut ctx = ctx_with_dir("/tmp/dir", false);
    let mut interp = guest();
    push(&mut interp, &[3, 0]);
    done(call(WasiFunc::FdPrestatGet, &mut interp, &mut ctx));
    assert_eq!(errno(&mut interp), ERRNO_SUCCESS);
    assert_eq!(load32(&interp, 0), 0);
    let len = load32(&interp, 4);
    assert_eq!(len, 8);
    push(&mut interp, &[3, 8, len]);
    done(call(WasiFunc::FdPrestatDirName, &mut interp, &mut ctx));
    assert_eq!(errno(&mut interp), ERRNO_SUCCESS);
    assert_eq!(interp.memory[8], b'/');
    assert_eq!(&interp.memory[8..16], b"/tmp/dir");

    push(&mut interp, &[3, 16, 8]);
    interp.push(Value::I64(0));
    interp.push(Value::I32(24));
    done(call(WasiFunc::FdReaddir, &mut interp, &mut ctx));
    assert_eq!(interp.stack, vec![Value::I32(ERRNO_NOSYS as u32)]);
}

#[test]
fn executes_proc_exit_as_typed_runtime_error() {
    let mut ctx = ctx_with(vec![], vec![], false);
    let mut interp = guest();
    push(&mut interp, &[7]);
    match call(WasiFunc::ProcExit, &mut interp, &mut ctx) {
        Step::Done(Some(text)) => assert_eq!(text, "WasiProcExit(7)"),
        other => panic!("{other:?}"),
    }
    push(&mut interp, &[u32::MAX]);
    match call(WasiFunc::ProcExit, &mut interp, &mut ctx) {
        Step::Done(Some(text)) => assert_eq!(text, "WasiProcExit(4294967295)"),
        other => panic!("{other:?}"),
    }
    interp.push(Value::I64(1));
    match call(WasiFunc::ProcExit, &mut interp, &mut ctx) {
        Step::Done(Some(text)) => assert_eq!(text, "WasiProcExit(255)"),
        other => panic!("{other:?}"),
    }
    assert!(interp.stack.is_empty());
}

#[test]
fn arguments_of_another_type_end_a_call() {
    let mut ctx = ctx_with(vec![b"x\0".to_vec()], vec![], false);
    let mut interp = guest();
    interp.push(Value::F32(1));
    interp.push(Value::I64(2));
    interp.push(Value::I32(3));
    done(call(WasiFunc::ArgsSizesGet, &mut interp, &mut ctx));
    assert_eq!(interp.stack, vec![Value::F32(1)]);
    interp.stack.clear();
    done(call(WasiFunc::FdClose, &mut interp, &mut ctx));
    assert!(interp.stack.is_empty());
    assert_eq!(interp.memory, vec![0; 65536]);
}

#[test]
fn readdir_takes_five_values_of_any_type() {
    let mut ctx = ctx_with(vec![], vec![], false);
    let mut interp = guest();
    interp.push(Value::I64(11));
    for _ in 0..5 {
        interp.push(Value::F64(0));
    }
    done(call(WasiFunc::FdReaddir, &mut interp, &mut ctx));
    assert_eq!(interp.stack, vec![Value::I64(11), Value::I32(52)]);
    interp.stack.truncate(1);
    done(call(WasiFunc::FdReaddir, &mut interp, &mut ctx));
    assert_eq!(interp.stack, vec![Value::I32(52)]);
}

#[test]
fn pops_and_stores() {
    let mut interp = guest();
    interp.push(Value::I64(u64::MAX));
    interp.push(Value::I32(5));
    assert_eq!(pop_u32(&mut interp), Some(5));
    assert_eq!(pop_i64(&mut interp), Some(-1));
    assert_eq!(pop_u32(&mut interp), None);
    interp.push(Value::I64(1));
    assert_eq!(pop_u32(&mut interp), None);
    assert!(interp.stack.is_empty());

    let mut memory = vec![0u8; 8];
    assert!(write_u32(&mut memory, 4, 0x01020304));
    assert_eq!(memory, vec![0, 0, 0, 0, 4, 3, 2, 1]);
    assert!(!write_u32(&mut memory, 5, 1));
    assert!(!write_u32(&mut memory, u32::MAX, 1));
    assert!(write_u64(&mut memory, 0, 0x1122334455667788));
    assert_eq!(memory, vec![0x88, 0x77, 0x66, 0x55, 0x44, 0x33, 0x22, 0x11]);
    assert!(!write_u64(&mut memory, 1, 0));
}

#[test]
fn writes_gather_their_regions() {
    let mut ctx = ctx_with(vec![], vec![], false);
    let mut interp = guest();
    interp.memory[100..106].copy_from_slice(b"abcdef");
    store32(&mut interp, 0, 100);
    store32(&mut interp, 4, 2);
    store32(&mut interp, 8, 104);
    store32(&mut interp, 12, 0);
    store32(&mut interp, 16, 103);
    store32(&mut interp, 20, 3);
    push(&mut interp, &[2, 0, 3, 40]);
    done(call(WasiFunc::FdWrite, &mut interp, &mut ctx));
    assert_eq!(errno(&mut interp), ERRNO_SUCCESS);
    assert_eq!(ctx.captured_stderr(), b"abdef");
    assert!(ctx.captured_stdout().is_empty());
    assert_eq!(load32(&interp, 40), 5);
    // What is printed is added.
    push(&mut interp, &[2, 0, 1, 40]);
    done(call(WasiFunc::FdWrite, &mut interp, &mut ctx));
    assert_eq!(ctx.captured_stderr(), b"abdefab");
}

#[test]
fn writes_fail_with_a_zero_count() {
    let mut ctx = ctx_with_dir("/work", false);
    let mut interp = guest();
    store32(&mut interp, 0, 100);
    store32(&mut interp, 4, 2);
    store32(&mut interp, 40, 9);
    push(&mut interp, &[3, 0, 1, 40]);
    done(call(WasiFunc::FdWrite, &mut interp, &mut ctx));
    assert_eq!(errno(&mut interp), ERRNO_BADF);
    assert_eq!(load32(&interp, 40), 0);
    push(&mut interp, &[9, 0, 1, 65533]);
    done(call(WasiFunc::FdWrite, &mut interp, &mut ctx));
    assert_eq!(errno(&mut interp), ERRNO_FAULT);
    // A file that was not opened for writing.
    let fd = ctx.alloc_fd(FdEntry::OpenFile { file: 1, writable: false });
    push(&mut interp, &[fd, 0, 1, 40]);
    done(call(WasiFunc::FdWrite, &mut interp, &mut ctx));
    assert_eq!(errno(&mut interp), ERRNO_PERM);
}

#[test]
fn writes_refuse_regions_outside_of_the_memory() {
    let mut ctx = ctx_with(vec![], vec![], false);
    let mut interp = guest();
    store32(&mut interp, 0, 65530);
    store32(&mut interp, 4, 7);
    push(&mut interp, &[1, 0, 1, 40]);
    done(call(WasiFunc::FdWrite, &mut interp, &mut ctx));
    assert_eq!(errno(&mut interp), ERRNO_FAULT);
    push(&mut interp, &[1, 65532, 1, 40]);
    done(call(WasiFunc::FdWrite, &mut interp, &mut ctx));
    assert_eq!(errno(&mut interp), ERRNO_FAULT);
    push(&mut interp, &[1, 0, u32::MAX, 40]);
    done(call(WasiFunc::FdWrite, &mut interp, &mut ctx));
    assert_eq!(errno(&mut interp), ERRNO_FAULT);
    assert!(ctx.captured_stdout().is_empty());
    // No region at all is no error.
    push(&mut interp, &[1, 0, 0, 40]);
    done(call(WasiFunc::FdWrite, &mut interp, &mut ctx));
    assert_eq!(errno(&mut interp), ERRNO_SUCCESS);
}

#[test]
fn mirrored_writes_keep_what_the_host_refused() {
    let mut ctx = WasiProcMacroCtx::new(vec![], vec![], true, false, vec![]);
    let mut interp = guest();
    interp.memory[100..104].copy_from_slice(b"abcd");
    for i in 0..2 {
        store32(&mut interp, 8 * i, 100 + 2 * i as u32);
        store32(&mut interp, 8 * i + 4, 2);
    }
    push(&mut interp, &[1, 0, 2, 40]);
    let request = match call(WasiFunc::FdWrite, &mut interp, &mut ctx) {
        Step::Write(request) => request,
        other => panic!("{other:?}"),
    };
    assert_eq!(request.target, WriteTarget::Stdout);
    assert!(ctx.captured_stdout().is_empty());
    fd_write_finish(&mut interp, &mut ctx, &request, 1);
    assert_eq!(errno(&mut interp), ERRNO_IO);
    assert_eq!(ctx.captured_stdout(), b"abcd");
    assert_eq!(load32(&interp, 40), 0);
}

fn reading_ctx() -> (WasiProcMacroCtx, u32) {
    let mut ctx = ctx_with(vec![], vec![], false);
    let fd = ctx.alloc_fd(FdEntry::OpenFile { file: 8, writable: false });
    (ctx, fd)
}

fn reading_guest(regions: &[(u32, u32)]) -> Interpreter {
    let mut interp = guest();
    for (i, (base, len)) in regions.iter().enumerate() {
        store32(&mut interp, 8 * i, *base);
        store32(&mut interp, 8 * i + 4, *len);
    }
    interp
}

#[test]
fn reads_fill_regions_in_order() {
    let (mut ctx, fd) = reading_ctx();
    let mut interp = reading_guest(&[(100, 2), (200, 3), (300, 4)]);
    push(&mut interp, &[fd, 0, 3, 40]);
    let request = match call(WasiFunc::FdRead, &mut interp, &mut ctx) {
        Step::Read(request) => request,
        other => panic!("{other:?}"),
    };
    let request = match fd_read_continue(&mut interp, request, Some(b"ab".to_vec())) {
        Step::Read(request) => request,
        other => panic!("{other:?}"),
    };
    assert_eq!((request.next, request.total), (1, 2));
    // A region that is not filled ends the read.
    done(fd_read_continue(&mut interp, request, Some(b"c".to_vec())));
    assert_eq!(errno(&mut interp), ERRNO_SUCCESS);
    assert_eq!(load32(&interp, 40), 3);
    assert_eq!(&interp.memory[100..102], b"ab");
    assert_eq!(&interp.memory[200..203], b"c\0\0");
    assert!(interp.stack.is_empty());
}

#[test]
fn reads_that_fail_tell_no_count() {
    let (mut ctx, fd) = reading_ctx();
    let mut interp = reading_guest(&[(100, 2), (200, 3)]);
    store32(&mut interp, 40, 77);
    push(&mut interp, &[fd, 0, 2, 40]);
    let request = match call(WasiFunc::FdRead, &mut interp, &mut ctx) {
        Step::Read(request) => request,
        other => panic!("{other:?}"),
    };
    let request = match fd_read_continue(&mut interp, request, Some(b"ab".to_vec())) {
        Step::Read(request) => request,
        other => panic!("{other:?}"),
    };
    done(fd_read_continue(&mut interp, request, None));
    assert_eq!(errno(&mut interp), ERRNO_IO);
    assert_eq!(load32(&interp, 40), 77);
    assert_eq!(&interp.memory[100..102], b"ab");
}

#[test]
fn reads_check_the_descriptor_only_for_a_region() {
    let (mut ctx, _) = reading_ctx();
    let mut interp = reading_guest(&[(100, 2)]);
    push(&mut interp, &[99, 0, 0, 40]);
    done(call(WasiFunc::FdRead, &mut interp, &mut ctx));
    assert_eq!(errno(&mut interp), ERRNO_SUCCESS);
    push(&mut interp, &[99, 0, 1, 40]);
    done(call(WasiFunc::FdRead, &mut interp, &mut ctx));
    assert_eq!(errno(&mut interp), ERRNO_BADF);
    push(&mut interp, &[99, 65530, 1, 40]);
    done(call(WasiFunc::FdRead, &mut interp, &mut ctx));
    assert_eq!(errno(&mut interp), ERRNO_FAULT);
}

#[test]
fn clocks_are_read_by_the_host() {
    let mut ctx = ctx_with(vec![], vec![], false);
    let mut interp = guest();
    for (id, source) in [(0, ClockSource::Realtime), (1, ClockSource::Monotonic)] {
        interp.push(Value::I32(id));
        interp.push(Value::I64(1000));
        interp.push(Value::I32(8));
        let request = match call(WasiFunc::ClockTimeGet, &mut interp, &mut ctx) {
            Step::ReadClock(request) => request,
            other => panic!("{other:?}"),
        };
        assert_eq!(request, ClockRequest { source, time_ptr: 8 });
        clock_time_finish(&mut interp, request, Some((1u128 << 64) + 5));
        assert_eq!(errno(&mut interp), ERRNO_SUCCESS);
        assert_eq!(load64(&interp, 8), 5);
        clock_time_finish(&mut interp, request, None);
        assert_eq!(errno(&mut interp), ERRNO_IO);
    }
    interp.push(Value::I32(2));
    interp.push(Value::I64(0));
    interp.push(Value::I32(8));
    done(call(WasiFunc::ClockTimeGet, &mut interp, &mut ctx));
    assert_eq!(errno(&mut interp), ERRNO_NOSYS);
    push(&mut interp, &[2, 8]);
    done(call(WasiFunc::ClockResGet, &mut interp, &mut ctx));
    assert_eq!(errno(&mut interp), ERRNO_NOSYS);
    push(&mut interp, &[1, 65530]);
    done(call(WasiFunc::ClockResGet, &mut interp, &mut ctx));
    assert_eq!(errno(&mut interp), ERRNO_FAULT);
}

#[test]
fn random_bytes_stay_in_their_region() {
    let mut ctx = ctx_with(vec![], vec![], false);
    let mut interp = guest();
    push(&mut interp, &[10, 20]);
    done(call(WasiFunc::RandomGet, &mut interp, &mut ctx));
    assert_eq!(errno(&mut interp), ERRNO_SUCCESS);
    assert_eq!(interp.memory[0..10], [0; 10]);
    assert_eq!(interp.memory[30..50], [0; 20]);
    assert!(interp.memory[10..30].iter().any(|b| *b != 0));
    assert_eq!(ctx.random_counter, 3);
    // They are those that the context gives.
    ctx.random_counter = 0;
    let mut same = vec![0; 20];
    ctx.random_fill(&mut same);
    assert_eq!(interp.memory[10..30], same[..]);
    push(&mut interp, &[65530, 7]);
    done(call(WasiFunc::RandomGet, &mut interp, &mut ctx));
    assert_eq!(errno(&mut interp), ERRNO_FAULT);
    assert_eq!(ctx.random_counter, 3);
}

#[test]
fn seeks_and_tells_ask_the_host() {
    let (mut ctx, fd) = reading_ctx();
    let mut interp = guest();
    for (whence, target) in [
        (0, SeekTarget::Start(u64::MAX - 1)),
        (1, SeekTarget::Current(-2)),
        (2, SeekTarget::End(-2)),
        (0x102, SeekTarget::End(-2)),
    ] {
        interp.push(Value::I32(fd));
        interp.push(Value::I64(-2i64 as u64));
        push(&mut interp, &[whence, 16]);
        let request = match call(WasiFunc::FdSeek, &mut interp, &mut ctx) {
            Step::Seek(request) => request,
            other => panic!("{other:?}"),
        };
        assert_eq!((request.file, request.target, request.offset_ptr), (8, target, 16));
        seek_finish(&mut interp, request, Some(0x0102030405060708));
        assert_eq!(errno(&mut interp), ERRNO_SUCCESS);
        assert_eq!(load64(&interp, 16), 0x0102030405060708);
        seek_finish(&mut interp, request, None);
        assert_eq!(errno(&mut interp), ERRNO_IO);
    }
    interp.push(Value::I32(fd));
    interp.push(Value::I64(0));
    push(&mut interp, &[3, 16]);
    done(call(WasiFunc::FdSeek, &mut interp, &mut ctx));
    assert_eq!(errno(&mut interp), ERRNO_INVAL);
    push(&mut interp, &[fd, 16]);
    match call(WasiFunc::FdTell, &mut interp, &mut ctx) {
        Step::Seek(request) => assert_eq!(request.target, SeekTarget::Current(0)),
        other => panic!("{other:?}"),
    }
    push(&mut interp, &[1, 16]);
    done(call(WasiFunc::FdTell, &mut interp, &mut ctx));
    assert_eq!(errno(&mut interp), ERRNO_BADF);
}

#[test]
fn closing_spares_what_was_open_from_the_start() {
    let mut ctx = ctx_with_dir("/work", true);
    let mut interp = guest();
    for fd in 0..5 {
        push(&mut interp, &[fd]);
        done(call(WasiFunc::FdClose, &mut interp, &mut ctx));
        assert_eq!(errno(&mut interp), ERRNO_BADF);
    }
    assert_eq!(ctx.fds.len(), 4);
    let dir = FdEntry::OpenDir { root: HostPath::parse(b"/work/a"), writable: true };
    assert_eq!(ctx.alloc_fd(dir), 4);
    assert_eq!(ctx.alloc_fd(FdEntry::OpenFile { file: 3, writable: true }), 5);
    push(&mut interp, &[4]);
    done(call(WasiFunc::FdClose, &mut interp, &mut ctx));
    assert_eq!(errno(&mut interp), ERRNO_SUCCESS);
    // The freed descriptor is the next one.
    assert_eq!(ctx.alloc_fd(FdEntry::OpenFile { file: 4, writable: true }), 4);
    assert_eq!(ctx.alloc_fd(FdEntry::OpenFile { file: 5, writable: true }), 6);
}

#[test]
fn descriptors_are_described() {
    let mut ctx = ctx_with_dir("/work", true);
    ctx.alloc_fd(FdEntry::OpenFile { file: 3, writable: true });
    let mut interp = guest();
    for (fd, filetype) in [(0, 2), (1, 2), (2, 2), (3, 3), (4, 4)] {
        interp.memory[100..124].copy_from_slice(&[9; 24]);
        push(&mut interp, &[fd, 100]);
        done(call(WasiFunc::FdFdstatGet, &mut interp, &mut ctx));
        assert_eq!(errno(&mut interp), ERRNO_SUCCESS);
        assert_eq!(interp.memory[100], filetype);
        assert_eq!(interp.memory[101..124], [0; 23]);
    }
    push(&mut interp, &[5, 100]);
    done(call(WasiFunc::FdFdstatGet, &mut interp, &mut ctx));
    assert_eq!(errno(&mut interp), ERRNO_BADF);
    push(&mut interp, &[0, 65520]);
    done(call(WasiFunc::FdFdstatGet, &mut interp, &mut ctx));
    assert_eq!(errno(&mut interp), ERRNO_FAULT);
}

#[test]
fn directory_names_need_room() {
    let mut ctx = ctx_with_dir("/work", true);
    let mut interp = guest();
    push(&mut interp, &[3, 8, 4]);
    done(call(WasiFunc::FdPrestatDirName, &mut interp, &mut ctx));
    assert_eq!(errno(&mut interp), ERRNO_INVAL);
    push(&mut interp, &[3, 65533, 5]);
    done(call(WasiFunc::FdPrestatDirName, &mut interp, &mut ctx));
    assert_eq!(errno(&mut interp), ERRNO_FAULT);
    push(&mut interp, &[1, 8, 5]);
    done(call(WasiFunc::FdPrestatDirName, &mut interp, &mut ctx));
    assert_eq!(errno(&mut interp), ERRNO_BADF);
    push(&mut interp, &[1, 8]);
    done(call(WasiFunc::FdPrestatGet, &mut interp, &mut ctx));
    assert_eq!(errno(&mut interp), ERRNO_BADF);
    push(&mut interp, &[3, 65530]);
    done(call(WasiFunc::FdPrestatGet, &mut interp, &mut ctx));
    assert_eq!(errno(&mut interp), ERRNO_FAULT);
}

#[test]
fn opening_refuses_what_no_guest_gets() {
    let mut ctx = ctx_with_dir("/work", true);
    let mut interp = guest();
    for (oflags, fdflags) in [(1, 0), (8, 0), (0, 1), (0, 16)] {
        done(open_path(&mut interp, &mut ctx, b"x", oflags, 0, fdflags, 24));
        assert_eq!(errno(&mut interp), ERRNO_PERM);
    }
    // A path outside of the memory.
    push(&mut interp, &[3, 0, 65530, 9, 0]);
    interp.push(Value::I64(0));
    interp.push(Value::I64(0));
    push(&mut interp, &[0, 24]);
    done(call(WasiFunc::PathOpen, &mut interp, &mut ctx));
    assert_eq!(errno(&mut interp), ERRNO_FAULT);
    done(open_path(&mut interp, &mut ctx, b"\xff", 0, 0, 0, 24));
    assert_eq!(errno(&mut interp), ERRNO_INVAL);
    done(open_path(&mut interp, &mut ctx, b"/etc/passwd", 0, 0, 0, 24));
    assert_eq!(errno(&mut interp), ERRNO_PERM);
    assert_eq!(ctx.fds.len(), 4);
}

#[test]
fn opening_a_directory() {
    let mut ctx = ctx_with_dir("/work", false);
    let mut interp = guest();
    for (is_dir, expected) in [
        (Ok(true), ERRNO_SUCCESS),
        (Ok(false), ERRNO_NOTDIR),
        (Err(IoErrorKind::PermissionDenied), ERRNO_PERM),
    ] {
        let request = match open_path(&mut interp, &mut ctx, b"sub", 2, 0, 0, 24) {
            Step::Probe(request) => request,
            other => panic!("{other:?}"),
        };
        let target = match path_open_probed(&mut interp, request, &parent_found("/work")) {
            Step::CheckDir(target) => target,
            other => panic!("{other:?}"),
        };
        assert_eq!(target.full.names, vec![b"work".to_vec(), b"sub".to_vec()]);
        path_open_dir_finish(&mut interp, &mut ctx, target, is_dir);
        assert_eq!(errno(&mut interp), expected);
    }
    assert_eq!(load32(&interp, 24), 4);
    assert_eq!(ctx.fds.len(), 5);
    assert!(matches!(ctx.fd_entry(4), Some(FdEntry::OpenDir { writable: false, .. })));
}

#[test]
fn a_descriptor_stays_open_where_it_cannot_be_told() {
    let mut ctx = ctx_with_dir("/work", false);
    let mut interp = guest();
    let request = match open_path(&mut interp, &mut ctx, b"a", 0, 0, 0, 65534) {
        Step::Probe(request) => request,
        other => panic!("{other:?}"),
    };
    let target = match path_open_probed(&mut interp, request, &found("/work/a")) {
        Step::OpenFile(target) => target,
        other => panic!("{other:?}"),
    };
    path_open_file_finish(&mut interp, &mut ctx, target, Some(1));
    assert_eq!(errno(&mut interp), ERRNO_FAULT);
    assert!(ctx.fd_entry(4).is_some());

    let request = match open_path(&mut interp, &mut ctx, b"a", 0, 0, 0, 24) {
        Step::Probe(request) => request,
        other => panic!("{other:?}"),
    };
    let target = match path_open_probed(&mut interp, request, &found("/work/a")) {
        Step::OpenFile(target) => target,
        other => panic!("{other:?}"),
    };
    path_open_file_finish(&mut interp, &mut ctx, target, None);
    assert_eq!(errno(&mut interp), ERRNO_IO);
    assert_eq!(ctx.fds.len(), 5);

    let request = match open_path(&mut interp, &mut ctx, b"a", 0, 0, 0, 24) {
        Step::Probe(request) => request,
        other => panic!("{other:?}"),
    };
    done(path_open_probed(&mut interp, request, &found("/elsewhere/a")));
    assert_eq!(errno(&mut interp), ERRNO_PERM);
}
