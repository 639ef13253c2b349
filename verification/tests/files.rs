use std::io::{Cursor, Seek, SeekFrom};

use rustc_watt::errno::{
    io_error_to_errno, IoErrorKind, ERRNO_BADF, ERRNO_INVAL, ERRNO_IO, ERRNO_NOENT, ERRNO_NOSYS,
    ERRNO_NOTDIR, ERRNO_PERM,
};
use rustc_watt::files::{
    fd_filestat, fd_filestat_source, metadata_to_filestat, path_filestat, path_filestat_finish,
    path_filestat_resolve, path_open, path_open_dir, path_open_file, path_open_resolve,
    std_filetype_to_wasi, system_time_to_wasi_nanos, wants_write_access, HostMetadata, StatSource,
    RIGHTS_FD_WRITE,
};
use rustc_watt::path::{HostPath, PathKind};
use rustc_watt::readdir::{fd_readdir, HostDirEntry};
use rustc_watt::resolve::{
    normalize_rel_path, resolve_existing_in_preopen, resolve_in_preopen, PathProbe,
};
use rustc_watt::wasi_ctx::{
    clock_reading, clock_res_get, ClockSource, FdEntry, PreopenDir, SeekTarget, WasiProcMacroCtx,
    WriteTarget, FILETYPE_CHARACTER_DEVICE, FILETYPE_DIRECTORY, FILETYPE_REGULAR_FILE,
    FILETYPE_SYMBOLIC_LINK, FILETYPE_UNKNOWN,
};

fn path(text: &str) -> HostPath {
    HostPath::parse(text.as_bytes())
}

fn show(path: &HostPath) -> String {
    let names: Vec<String> =
        path.names.iter().map(|n| String::from_utf8(n.clone()).unwrap()).collect();
    format!("{}{}", if path.rooted { "/" } else { "" }, names.join("/"))
}

fn ctx_with_dir(dir: &str, writable: bool) -> WasiProcMacroCtx {
    WasiProcMacroCtx::new(
        vec![],
        vec![],
        false,
        false,
        vec![PreopenDir { root: path(dir), guest_path: dir.to_string(), writable }],
    )
}

fn zero_ctx() -> WasiProcMacroCtx {
    WasiProcMacroCtx::new(vec![], vec![], false, true, vec![])
}

fn nothing_found() -> PathProbe {
    PathProbe {
        root_has_canonical_dir: true,
        root_is_dir: true,
        exists: false,
        canonical: Err(IoErrorKind::NotFound),
        canonical_parent: Err(IoErrorKind::NotFound),
    }
}

fn found(at: &str) -> PathProbe {
    PathProbe { exists: true, canonical: Ok(path(at)), ..nothing_found() }
}

fn parent_found(at: &str) -> PathProbe {
    PathProbe { canonical_parent: Ok(path(at)), ..nothing_found() }
}

fn opaque_root(exists: bool) -> PathProbe {
    PathProbe { root_has_canonical_dir: false, exists, ..nothing_found() }
}

#[test]
fn path_open_respects_read_only_preopen() {
    let mut ctx = ctx_with_dir("/tmp/a", false);
    let request = path_open(&ctx, 3, b"a.txt", 0, 0, 0).unwrap();
    let full = path_open_resolve(&request, &found("/tmp/a/a.txt")).unwrap();
    assert_eq!(show(&full), "/tmp/a/a.txt");
    let read_fd = path_open_file(&mut ctx, &request, Some(9)).unwrap();
    assert!(read_fd >= 4);
    assert!(matches!(
        ctx.fd_entry(read_fd).unwrap(),
        FdEntry::OpenFile { writable: false, .. }
    ));
}

#[test]
fn path_open_denies_parent_traversal() {
    let ctx = ctx_with_dir("/tmp/a", false);
    let err = path_open(&ctx, 3, b"../escape.txt", 0, 0, 0).unwrap_err();
    assert_eq!(err, ERRNO_PERM);
}

#[test]
fn read_only_preopen_denies_write_open() {
    let ctx = ctx_with_dir("/tmp/a", false);
    let err = path_open(&ctx, 3, b"new.txt", 0x1, 0, RIGHTS_FD_WRITE).unwrap_err();
    assert_eq!(err, ERRNO_PERM);
}

#[test]
fn writable_preopen_allows_write_open_and_write() {
    let mut ctx = ctx_with_dir("/tmp/a", true);
    let request = path_open(&ctx, 3, b"out.txt", 0x1, 0, RIGHTS_FD_WRITE).unwrap();
    assert!(request.options.write && request.options.create && !request.options.truncate);
    let full = path_open_resolve(&request, &parent_found("/tmp/a")).unwrap();
    assert_eq!(show(&full), "/tmp/a/out.txt");
    let fd = path_open_file(&mut ctx, &request, Some(3)).unwrap();
    let target = ctx.fd_write_target(fd).unwrap();
    assert_eq!(target, WriteTarget::File(3));
    assert!(ctx.fd_write_needs_host(target));
    let chunks = vec![b"hello".to_vec(), b" wasm".to_vec()];
    let wrote = ctx.fd_write(target, &chunks, 2).unwrap();
    assert_eq!(wrote, 10);
    assert_eq!(ctx.fd_close(fd).unwrap(), Some(3));
    assert!(ctx.captured_stdout().is_empty());
}

#[test]
fn fd_seek_and_tell_round_trip() {
    let mut ctx = ctx_with_dir("/tmp/a", true);
    let request = path_open(&ctx, 3, b"seek.txt", 0, 0, 0).unwrap();
    let fd = path_open_file(&mut ctx, &request, Some(6)).unwrap();
    let mut file = Cursor::new(b"abcdef");
    let mut go = |asked: Result<(u64, SeekTarget), i32>| {
        let (number, target) = asked.unwrap();
        assert_eq!(number, 6);
        let target = match target {
            SeekTarget::Start(offset) => SeekFrom::Start(offset),
            SeekTarget::Current(offset) => SeekFrom::Current(offset),
            SeekTarget::End(offset) => SeekFrom::End(offset),
        };
        file.seek(target).unwrap()
    };
    assert_eq!(ctx.fd_tell(fd).unwrap(), (6, SeekTarget::Current(0)));
    assert_eq!(ctx.fd_seek(fd, 2, 0).unwrap(), (6, SeekTarget::Start(2)));
    assert_eq!(go(ctx.fd_tell(fd)), 0);
    assert_eq!(go(ctx.fd_seek(fd, 2, 0)), 2);
    assert_eq!(go(ctx.fd_tell(fd)), 2);
    assert_eq!(ctx.fd_close(fd), Ok(Some(6)));
    assert_eq!(ctx.fd_tell(fd), Err(ERRNO_BADF));
}

#[test]
fn fd_prestat_reports_preopen_name() {
    let ctx = ctx_with_dir("/tmp/a", false);
    let len = ctx.fd_prestat_dir(3).unwrap();
    let name = ctx.fd_prestat_dir_name(3).unwrap();
    assert_eq!(len as usize, "/tmp/a".len());
    assert_eq!(name, b"/tmp/a");
}

#[test]
fn fd_prestat_can_report_guest_visible_name() {
    let ctx = WasiProcMacroCtx::new(
        vec![],
        vec![],
        false,
        false,
        vec![PreopenDir {
            root: path("/tmp/a"),
            guest_path: "/./".to_string(),
            writable: false,
        }],
    );
    let len = ctx.fd_prestat_dir(3).unwrap();
    let name = ctx.fd_prestat_dir_name(3).unwrap();
    assert_eq!(len as usize, "/./".len());
    assert_eq!(name, b"/./");
}

fn metadata(is_dir: bool, len: u64) -> HostMetadata {
    HostMetadata {
        is_symlink: false,
        is_dir,
        len,
        accessed: Some(1),
        modified: Some(1 << 70),
        created: None,
    }
}

#[test]
fn path_filestat_reads_relative_metadata() {
    let ctx = ctx_with_dir("/tmp/a", false);
    let request = path_filestat(&ctx, 3, 1, b"meta.txt").unwrap();
    assert!(request.follow_symlink);
    let full = path_filestat_resolve(&request, &found("/tmp/a/meta.txt")).unwrap();
    assert_eq!(show(&full), "/tmp/a/meta.txt");
    let stat = path_filestat_finish(Ok(metadata(false, 5))).unwrap();
    assert_eq!(stat.filetype, FILETYPE_REGULAR_FILE);
    assert_eq!(stat.size, 5);
    assert_eq!((stat.atim, stat.mtim, stat.ctim), (1, u64::MAX, 0));
    assert_eq!((stat.dev, stat.ino, stat.nlink), (0, 0, 1));
}

fn entry(name: &str) -> HostDirEntry {
    HostDirEntry {
        name: name.as_bytes().to_vec(),
        is_symlink: false,
        is_dir: true,
        is_file: false,
    }
}

fn contains(bytes: &[u8], part: &[u8]) -> bool {
    bytes.windows(part.len()).any(|w| w == part)
}

#[test]
fn directory_open_and_readdir_work() {
    let mut ctx = ctx_with_dir("/tmp/a", false);
    let request = path_open(&ctx, 3, b"wit", 0x2, 0, 0).unwrap();
    let full = path_open_resolve(&request, &parent_found("/tmp/a")).unwrap();
    let fd = path_open_dir(&mut ctx, &request, full, Ok(true)).unwrap();
    assert_eq!(ctx.fd_filetype(fd).unwrap(), FILETYPE_DIRECTORY);
    assert_eq!(show(&ctx.fd_dir(fd).unwrap().0), "/tmp/a/wit");

    let mut buf = vec![0u8; 256];
    let listing = Ok(vec![entry("b.wit"), entry("a.wit")]);
    let used = fd_readdir(&ctx, fd, 0, &mut buf, &listing).unwrap() as usize;
    assert_eq!(used, 58);
    let bytes = &buf[..used];
    assert!(contains(bytes, b"a.wit"));
    assert!(contains(bytes, b"b.wit"));
    assert_eq!(&bytes[0..8], &1u64.to_le_bytes());
    assert_eq!(&bytes[8..16], &[0; 8]);
    assert_eq!(&bytes[16..24], &[5, 0, 0, 0, 3, 0, 0, 0]);
    assert_eq!(&bytes[24..29], b"a.wit");
    assert_eq!(&bytes[29..37], &2u64.to_le_bytes());
    assert_eq!(ctx.fd_close(fd), Ok(None));
}

#[test]
fn directory_readdir_paginates_small_std_style_buffers() {
    let mut ctx = ctx_with_dir("/tmp/a", false);
    let request = path_open(&ctx, 3, b"wit/deps", 0x2, 0, 0).unwrap();
    let full = path_open_resolve(&request, &parent_found("/tmp/a/wit")).unwrap();
    assert_eq!(show(&full), "/tmp/a/wit/deps");
    let fd = path_open_dir(&mut ctx, &request, full, Ok(true)).unwrap();
    assert_eq!(show(&ctx.fd_dir(fd).unwrap().0), "/tmp/a/wit/deps");
    let listing = Ok(vec![
        entry("wasi-random-0.2.0"),
        entry("wasi-cli-0.2.0"),
        entry("wasi-io-0.2.0"),
        entry("wasi-clocks-0.2.0"),
        entry("wasi-http-0.2.0"),
    ]);
    let mut buf = vec![0u8; 128];
    let used = fd_readdir(&ctx, fd, 0, &mut buf, &listing).unwrap() as usize;
    assert_eq!(used, buf.len());
    assert!(contains(&buf[..used], b"wasi-http-0.2.0"));

    // `3` is the cookie of the last complete entry from the first page:
    // wasi-cli, wasi-clocks, wasi-http.
    let used2 = fd_readdir(&ctx, fd, 3, &mut buf, &listing).unwrap() as usize;
    assert!(used2 > 0);
    assert!(used2 < buf.len());
    let bytes2 = &buf[..used2];
    assert!(contains(bytes2, b"wasi-io-0.2.0"));
    assert!(contains(bytes2, b"wasi-random-0.2.0"));
    assert_eq!(fd_readdir(&ctx, fd, 5, &mut buf, &listing), Ok(0));
    assert_eq!(fd_readdir(&ctx, fd, u64::MAX, &mut buf, &listing), Ok(0));
    assert_eq!(ctx.fd_close(fd), Ok(None));
}

#[test]
fn readdir_cuts_names_but_not_headers() {
    let ctx = ctx_with_dir("/tmp/a", false);
    let listing = Ok(vec![entry("abcdef"), entry("b")]);
    let mut buf = vec![9u8; 26];
    assert_eq!(fd_readdir(&ctx, 3, 0, &mut buf, &listing), Ok(26));
    assert_eq!(buf[16..20], [6, 0, 0, 0]);
    assert_eq!(&buf[24..26], b"ab");
    // The second header does not fit: the page is padded with what was there.
    let mut buf = vec![9u8; 40];
    assert_eq!(fd_readdir(&ctx, 3, 0, &mut buf, &listing), Ok(40));
    assert_eq!(&buf[24..30], b"abcdef");
    assert_eq!(buf[30..40], [9; 10]);
    let mut buf = vec![9u8; 10];
    assert_eq!(fd_readdir(&ctx, 3, 0, &mut buf, &listing), Ok(10));
    assert_eq!(buf, vec![9u8; 10]);
}

#[test]
fn readdir_replaces_what_is_not_utf8() {
    let ctx = ctx_with_dir("/tmp/a", false);
    let odd = HostDirEntry {
        name: b"a\xffb".to_vec(),
        is_symlink: true,
        is_dir: false,
        is_file: false,
    };
    let mut buf = vec![0u8; 64];
    let used = fd_readdir(&ctx, 3, 0, &mut buf, &Ok(vec![odd])).unwrap() as usize;
    assert_eq!(&buf[24..used], "a\u{fffd}b".as_bytes());
    assert_eq!(buf[20], FILETYPE_SYMBOLIC_LINK);
}

#[test]
fn readdir_errors() {
    let ctx = ctx_with_dir("/tmp/a", false);
    let mut buf = vec![0u8; 8];
    let listing = Ok(vec![]);
    assert_eq!(fd_readdir(&ctx, 9, 0, &mut buf, &listing), Err(ERRNO_BADF));
    assert_eq!(fd_readdir(&ctx, 1, 0, &mut buf, &listing), Err(ERRNO_NOTDIR));
    let failed = Err(IoErrorKind::PermissionDenied);
    assert_eq!(fd_readdir(&ctx, 3, 0, &mut buf, &failed), Err(ERRNO_PERM));
    assert_eq!(fd_readdir(&ctx, 3, 0, &mut buf, &listing), Ok(0));
}

#[test]
fn readdir_keeps_the_order_of_equal_names() {
    let ctx = ctx_with_dir("/tmp/a", false);
    let mut first = entry("x");
    first.is_symlink = true;
    let second = entry("x");
    let mut buf = vec![0u8; 128];
    fd_readdir(&ctx, 3, 0, &mut buf, &Ok(vec![first, second, entry("w")])).unwrap();
    assert_eq!((buf[24], buf[20]), (b'w', FILETYPE_DIRECTORY));
    assert_eq!((buf[49], buf[45]), (b'x', FILETYPE_SYMBOLIC_LINK));
    assert_eq!((buf[74], buf[70]), (b'x', FILETYPE_DIRECTORY));
}

#[test]
fn relative_paths_ignore_current_dir_segments() {
    let mut ctx = ctx_with_dir("/tmp/a", false);
    let request = path_filestat(&ctx, 3, 1, b"./wit").unwrap();
    assert_eq!(show(&request.lookup.target), "/tmp/a/wit");
    let full = path_filestat_resolve(&request, &found("/tmp/a/wit")).unwrap();
    assert_eq!(show(&full), "/tmp/a/wit");
    assert_eq!(
        path_filestat_finish(Ok(metadata(true, 0))).unwrap().filetype,
        FILETYPE_DIRECTORY
    );
    let request = path_open(&ctx, 3, b"./wit/world.wit", 0, 0, 0).unwrap();
    assert_eq!(show(&request.lookup.target), "/tmp/a/wit/world.wit");
    let full = path_open_resolve(&request, &found("/tmp/a/wit/world.wit")).unwrap();
    assert_eq!(show(&full), "/tmp/a/wit/world.wit");
    let fd = path_open_file(&mut ctx, &request, Some(1)).unwrap();
    assert!(fd >= 4);
    assert!(matches!(ctx.fd_entry(fd).unwrap(), FdEntry::OpenFile { .. }));
    assert_eq!(ctx.fd_close(fd), Ok(Some(1)));
}

#[test]
fn path_open_denies_symlink_breakout() {
    let ctx = ctx_with_dir("/tmp/a", false);
    let request = path_open(&ctx, 3, b"escape/secret.txt", 0, 0, 0).unwrap();
    let err = path_open_resolve(&request, &found("/tmp/outside/secret.txt")).unwrap_err();
    assert_eq!(err, ERRNO_PERM);
    // Nor does a name that only begins like that of the directory.
    let err = path_open_resolve(&request, &found("/tmp/ab/secret.txt")).unwrap_err();
    assert_eq!(err, ERRNO_PERM);
}

#[test]
fn random_fill_deterministic_override() {
    let mut ctx = zero_ctx();
    let mut out = vec![1u8; 16];
    ctx.random_fill(&mut out);
    assert_eq!(out, vec![0u8; 16]);
    assert_eq!(ctx.random_counter, 0);
}

#[test]
fn deterministic_mode_zeroes_supported_clocks() {
    let ctx = zero_ctx();
    assert_eq!(clock_res_get(0).unwrap(), 1);
    assert_eq!(clock_res_get(1).unwrap(), 1);
    assert_eq!(clock_reading(ctx.clock_time_get(0).unwrap(), None).unwrap(), 0);
    assert_eq!(clock_reading(ctx.clock_time_get(1).unwrap(), None).unwrap(), 0);
    assert_eq!(ctx.clock_time_get(999).unwrap_err(), ERRNO_NOSYS);
    assert_eq!(clock_reading(ClockSource::Realtime, Some(7)), Ok(7));
    assert_eq!(clock_reading(ClockSource::Monotonic, None), Err(ERRNO_IO));
}

#[test]
fn unsafe_relative_paths() {
    assert_eq!(show(&normalize_rel_path(&path("./a/./b//c/.")).unwrap()), "a/b/c");
    assert_eq!(show(&normalize_rel_path(&path("")).unwrap()), "");
    assert_eq!(normalize_rel_path(&path("/a")).unwrap_err(), ERRNO_PERM);
    assert_eq!(normalize_rel_path(&path("a/../b")).unwrap_err(), ERRNO_PERM);
    assert_eq!(normalize_rel_path(&path("a/..")).unwrap_err(), ERRNO_PERM);
    assert_eq!(show(&normalize_rel_path(&path("a/...")).unwrap()), "a/...");
}

#[test]
fn resolving_a_path_that_need_not_exist() {
    let root = path("/r");
    let rel = path("d/f");
    let r = |probe: &PathProbe| {
        resolve_in_preopen(&root, &rel, probe).map(|p| show(&p))
    };
    assert_eq!(r(&found("/r/x")), Ok("/r/x".to_string()));
    assert_eq!(r(&found("/q")), Err(ERRNO_PERM));
    let unreadable = PathProbe { exists: true, ..nothing_found() };
    assert_eq!(r(&unreadable), Err(ERRNO_IO));
    assert_eq!(r(&opaque_root(true)), Ok("/r/d/f".to_string()));
    assert_eq!(r(&nothing_found()), Err(ERRNO_NOENT));
    assert_eq!(r(&opaque_root(false)), Ok("/r/d/f".to_string()));
    assert_eq!(r(&parent_found("/r/e")), Ok("/r/e/f".to_string()));
    assert_eq!(r(&parent_found("/q")), Err(ERRNO_PERM));
    assert_eq!(
        resolve_in_preopen(&path("/"), &path(""), &nothing_found()).unwrap_err(),
        ERRNO_PERM
    );
    assert_eq!(
        resolve_in_preopen(&path(".."), &path(""), &parent_found("..")).unwrap_err(),
        ERRNO_INVAL
    );
    // Everything lies below the empty path.
    let below_empty = |probe: &PathProbe| {
        resolve_in_preopen(&path(""), &rel, probe).map(|p| show(&p))
    };
    assert_eq!(below_empty(&found("/q/x")), Ok("/q/x".to_string()));
    assert_eq!(below_empty(&found("x")), Ok("x".to_string()));
    assert_eq!(below_empty(&parent_found("/q")), Ok("/q/f".to_string()));
    // What is not UTF-8 in a name is replaced.
    let odd = HostPath::parse(b"/r/a\xff");
    let there = PathProbe {
        canonical_parent: Ok(HostPath::parse(b"/r/a\xff")),
        ..nothing_found()
    };
    assert_eq!(
        resolve_in_preopen(&odd, &path(""), &there).unwrap().names,
        vec![b"r".to_vec(), b"a\xff".to_vec(), "a\u{fffd}".as_bytes().to_vec()]
    );
    // The fallback is for absolute directories only.
    let relative = resolve_in_preopen(&path("r"), &rel, &opaque_root(true));
    assert_eq!(relative.unwrap_err(), ERRNO_IO);
}

#[test]
fn resolving_a_path_that_has_to_exist() {
    let root = path("/r");
    let r = |rel: &str, follow: bool, probe: &PathProbe| {
        resolve_existing_in_preopen(&root, &path(rel), follow, probe).map(|p| show(&p))
    };
    assert_eq!(r("a", true, &found("/r/b")), Ok("/r/b".to_string()));
    assert_eq!(r("a", true, &found("/b")), Err(ERRNO_PERM));
    assert_eq!(r("a", true, &nothing_found()), Err(ERRNO_NOENT));
    assert_eq!(r("a", true, &opaque_root(true)), Ok("/r/a".to_string()));
    assert_eq!(r("", true, &opaque_root(true)), Ok("/r".to_string()));
    assert_eq!(r(".", false, &nothing_found()), Ok("/r".to_string()));
    assert_eq!(r("a/l", false, &parent_found("/r/a")), Ok("/r/a/l".to_string()));
    assert_eq!(r("a/l", false, &parent_found("/")), Err(ERRNO_PERM));
    assert_eq!(r("a/l", false, &nothing_found()), Err(ERRNO_NOENT));
    assert_eq!(r("a/l", false, &opaque_root(false)), Ok("/r/a/l".to_string()));
    assert_eq!(r("../a", true, &found("/r/a")), Err(ERRNO_PERM));
}

#[test]
fn directories_inherit_whether_they_are_writable() {
    let mut ctx = ctx_with_dir("/tmp/a", true);
    let request = path_open(&ctx, 3, b"sub", 0x2, 0, 0).unwrap();
    let full = path_open_resolve(&request, &parent_found("/tmp/a")).unwrap();
    let fd = path_open_dir(&mut ctx, &request, full, Ok(true)).unwrap();
    assert!(ctx.fd_dir(fd).unwrap().1);
    let below = path_open(&ctx, fd, b"f", 0, 0, RIGHTS_FD_WRITE).unwrap();
    assert_eq!(show(&below.lookup.target), "/tmp/a/sub/f");

    let mut ctx = ctx_with_dir("/tmp/a", false);
    let request = path_open(&ctx, 3, b"sub", 0x2, 0, 0).unwrap();
    let full = path_open_resolve(&request, &parent_found("/tmp/a")).unwrap();
    let fd = path_open_dir(&mut ctx, &request, full, Ok(true)).unwrap();
    assert_eq!(path_open(&ctx, fd, b"f", 0, 0, RIGHTS_FD_WRITE).unwrap_err(), ERRNO_PERM);
}

#[test]
fn opening_below_what_is_no_directory() {
    let ctx = ctx_with_dir("/tmp/a", true);
    assert_eq!(path_open(&ctx, 0, b"f", 0, 0, 0).unwrap_err(), ERRNO_NOTDIR);
    assert_eq!(path_open(&ctx, 7, b"f", 0, 0, 0).unwrap_err(), ERRNO_BADF);
    assert_eq!(path_open(&ctx, 7, b"\xc0", 0, 0, 0).unwrap_err(), ERRNO_INVAL);
    assert_eq!(path_filestat(&ctx, 0, 0, b"f").unwrap_err(), ERRNO_NOTDIR);
    assert_eq!(path_filestat(&ctx, 7, 0, b"f").unwrap_err(), ERRNO_BADF);
    assert_eq!(path_filestat(&ctx, 3, 0, b"\xc0").unwrap_err(), ERRNO_INVAL);
    assert_eq!(path_filestat(&ctx, 3, 0, b"..").unwrap_err(), ERRNO_PERM);
    assert!(!path_filestat(&ctx, 3, 2, b"f").unwrap().follow_symlink);
}

#[test]
fn asking_to_write() {
    assert!(!wants_write_access(0, 0, 0));
    assert!(!wants_write_access(6, 0, !64));
    assert!(wants_write_access(1, 0, 0));
    assert!(wants_write_access(8, 0, 0));
    assert!(wants_write_access(0, 0x20, 0));
    assert!(wants_write_access(0, 0, 64));
}

#[test]
fn descriptions_of_descriptors() {
    let mut ctx = ctx_with_dir("/tmp/a", true);
    let fd = ctx.alloc_fd(FdEntry::OpenFile { file: 12, writable: false });
    assert!(matches!(fd_filestat_source(&ctx, 1), Ok(StatSource::Stream)));
    assert!(matches!(fd_filestat_source(&ctx, 3), Ok(StatSource::Dir(_))));
    assert!(matches!(fd_filestat_source(&ctx, fd), Ok(StatSource::File(12))));
    assert!(matches!(fd_filestat_source(&ctx, 50), Err(ERRNO_BADF)));

    let stream = fd_filestat(&StatSource::Stream, None).unwrap();
    assert_eq!((stream.filetype, stream.nlink, stream.size), (FILETYPE_CHARACTER_DEVICE, 1, 0));
    let dir = fd_filestat(&StatSource::Dir(path("/")), Some(metadata(false, 3))).unwrap();
    assert_eq!((dir.filetype, dir.size), (FILETYPE_DIRECTORY, 3));
    let file = fd_filestat(&StatSource::File(1), Some(metadata(false, 3))).unwrap();
    assert_eq!(file.filetype, FILETYPE_REGULAR_FILE);
    assert_eq!(fd_filestat(&StatSource::File(1), None), Err(ERRNO_IO));
    assert_eq!(fd_filestat(&StatSource::Dir(path("/")), None), Err(ERRNO_IO));
    let link = HostMetadata { is_symlink: true, ..metadata(true, 1) };
    assert_eq!(metadata_to_filestat(&link).filetype, FILETYPE_SYMBOLIC_LINK);
    assert_eq!(path_filestat_finish(Err(IoErrorKind::NotFound)), Err(ERRNO_NOENT));
}

#[test]
fn kinds_times_and_errors() {
    assert_eq!(std_filetype_to_wasi(true, true, true), FILETYPE_SYMBOLIC_LINK);
    assert_eq!(std_filetype_to_wasi(false, true, true), FILETYPE_DIRECTORY);
    assert_eq!(std_filetype_to_wasi(false, false, true), FILETYPE_REGULAR_FILE);
    assert_eq!(std_filetype_to_wasi(false, false, false), FILETYPE_UNKNOWN);
    assert_eq!(system_time_to_wasi_nanos(None), 0);
    assert_eq!(system_time_to_wasi_nanos(Some(5)), 5);
    assert_eq!(system_time_to_wasi_nanos(Some(u64::MAX as u128 + 1)), u64::MAX);
    assert_eq!(io_error_to_errno(IoErrorKind::NotFound), 44);
    assert_eq!(io_error_to_errno(IoErrorKind::PermissionDenied), 63);
    assert_eq!(io_error_to_errno(IoErrorKind::InvalidInput), 28);
    assert_eq!(io_error_to_errno(IoErrorKind::NotADirectory), 54);
    assert_eq!(io_error_to_errno(IoErrorKind::Other), 29);
}

#[test]
fn read_only_guests_write_no_file() {
    let mut ctx = ctx_with_dir("/tmp/a", false);
    let request = path_open(&ctx, 3, b"f", 0, 0, 0).unwrap();
    let fd = path_open_file(&mut ctx, &request, Some(1)).unwrap();
    assert_eq!(ctx.fd_write_target(fd), Err(ERRNO_PERM));
    assert_eq!(ctx.fd_write_target(1), Ok(WriteTarget::Stdout));
    assert_eq!(ctx.fd_write_target(2), Ok(WriteTarget::Stderr));
    assert_eq!(ctx.fd_write_target(0), Err(ERRNO_BADF));
    assert_eq!(ctx.fd_read_one(fd), Ok(1));
    assert_eq!(ctx.fd_read_one(0), Err(ERRNO_BADF));
}

fn windows_path(prefix: &str, rooted: bool, names: &[&str]) -> HostPath {
    HostPath {
        kind: PathKind::Windows,
        prefix: if prefix.is_empty() { None } else { Some(prefix.as_bytes().to_vec()) },
        rooted,
        names: names.iter().map(|name| name.as_bytes().to_vec()).collect(),
    }
}

fn windows_ctx() -> WasiProcMacroCtx {
    WasiProcMacroCtx::new(
        vec![],
        vec![],
        false,
        false,
        vec![PreopenDir {
            root: windows_path("\\\\?\\C:", true, &["r"]),
            guest_path: "/".to_string(),
            writable: false,
        }],
    )
}

#[test]
fn windows_prefixes_are_refused() {
    let windows = windows_ctx();
    let slash = ctx_with_dir("/r", false);
    for rel in ["C:/x", "c:x", "C:", "C:\\x", "\\x", "\\\\server\\share", "a\\..\\b"] {
        assert_eq!(path_open(&windows, 3, rel.as_bytes(), 0, 0, 0).unwrap_err(), ERRNO_PERM);
        assert_eq!(path_filestat(&windows, 3, 0, rel.as_bytes()).unwrap_err(), ERRNO_PERM);
        // Where only slashes mean anything, these are plain names.
        assert!(path_open(&slash, 3, rel.as_bytes(), 0, 0, 0).is_ok());
    }
    for rel in ["/x", "../x", "a/../b"] {
        assert_eq!(path_open(&windows, 3, rel.as_bytes(), 0, 0, 0).unwrap_err(), ERRNO_PERM);
        assert_eq!(path_open(&slash, 3, rel.as_bytes(), 0, 0, 0).unwrap_err(), ERRNO_PERM);
    }
}

#[test]
fn windows_paths_are_resolved() {
    let ctx = windows_ctx();
    let request = path_open(&ctx, 3, b".\\a/./b\\1:c", 0, 0, 0).unwrap();
    let target = &request.lookup.target;
    assert_eq!(target.prefix, Some(b"\\\\?\\C:".to_vec()));
    assert!(target.rooted && target.is_absolute());
    assert_eq!(show(target), "/r/a/b/1:c");
    let inside = windows_path("\\\\?\\C:", true, &["r", "z"]);
    let probe = PathProbe { exists: true, canonical: Ok(inside), ..nothing_found() };
    assert_eq!(show(&path_open_resolve(&request, &probe).unwrap()), "/r/z");
    let other_drive = windows_path("\\\\?\\D:", true, &["r", "z"]);
    let probe = PathProbe { exists: true, canonical: Ok(other_drive), ..nothing_found() };
    assert_eq!(path_open_resolve(&request, &probe).unwrap_err(), ERRNO_PERM);
    let parent = windows_path("\\\\?\\C:", true, &["r"]);
    let probe = PathProbe { canonical_parent: Ok(parent), ..nothing_found() };
    assert_eq!(show(&path_open_resolve(&request, &probe).unwrap()), "/r/1:c");
}

#[test]
fn a_drive_in_a_name_takes_the_place_of_what_was_before() {
    let ctx = windows_ctx();
    let request = path_open(&ctx, 3, b"a/d:x/y", 0, 0, 0).unwrap();
    let target = &request.lookup.target;
    assert_eq!(target.prefix, Some(b"D:".to_vec()));
    assert!(!target.rooted && !target.is_absolute());
    assert_eq!(show(target), "x/y");
    let elsewhere = windows_path("\\\\?\\D:", true, &["x", "y"]);
    let probe = PathProbe { exists: true, canonical: Ok(elsewhere), ..nothing_found() };
    assert_eq!(path_open_resolve(&request, &probe).unwrap_err(), ERRNO_PERM);
    // Of a drive alone there is no parent directory.
    let request = path_open(&ctx, 3, b"a/d:", 0x2, 0, 0).unwrap();
    assert_eq!(path_open_resolve(&request, &nothing_found()).unwrap_err(), ERRNO_PERM);
}

#[test]
fn what_comes_of_a_read_only_directory_is_read_only() {
    let mut ctx = WasiProcMacroCtx::new(
        vec![],
        vec![],
        false,
        false,
        vec![
            PreopenDir { root: path("/w"), guest_path: "/w".to_string(), writable: true },
            PreopenDir { root: path("/r"), guest_path: "/r".to_string(), writable: false },
        ],
    );
    let request = path_open(&ctx, 4, b"d", 0x2, 0, 0).unwrap();
    let full = path_open_resolve(&request, &parent_found("/r")).unwrap();
    let dir = path_open_dir(&mut ctx, &request, full, Ok(true)).unwrap();
    assert_eq!(path_open(&ctx, dir, b"f", 0x1, 0, 0).unwrap_err(), ERRNO_PERM);
    let request = path_open(&ctx, dir, b"f", 0, 0, 0).unwrap();
    let file = path_open_file(&mut ctx, &request, Some(1)).unwrap();
    assert_eq!(ctx.fd_write_target(file), Err(ERRNO_PERM));
    assert_eq!(ctx.fd_write_target(dir), Err(ERRNO_BADF));
    // The other directory can still be written to.
    let request = path_open(&ctx, 3, b"f", 0x1, 0, 0).unwrap();
    let file = path_open_file(&mut ctx, &request, Some(2)).unwrap();
    assert_eq!(ctx.fd_write_target(file), Ok(WriteTarget::File(2)));
}
