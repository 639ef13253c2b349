use rustc_watt::memory::{
    copy_into, copy_out, read_u32, same_bytes, u32_le_bytes, u64_le_bytes,
};
use rustc_watt::order::{bytes_before, TextSet};
use rustc_watt::path::HostPath;
use rustc_watt::random::fill_from_blocks;
use rustc_watt::text::{decimal_text, join_texts, same_text, split, starts_with};
use rustc_watt::wasi_ctx::{FdEntry, WasiProcMacroCtx};

#[test]
fn texts_are_split() {
    assert_eq!(split("a;;b", ';'), vec!["a", "", "b"]);
    assert_eq!(split("", ';'), vec![""]);
    assert_eq!(split(";", ';'), vec!["", ""]);
}

#[test]
fn texts_are_compared_and_joined() {
    assert!(same_text("a\u{e9}", "a\u{e9}"));
    assert!(!same_text("a", "b"));
    assert!(!same_text("a", "ab"));
    assert!(starts_with("abc", "ab"));
    assert!(starts_with("abc", ""));
    assert!(!starts_with("abc", "abcd"));
    assert!(!starts_with("abc", "b"));
    let list = vec!["x".to_string(), "".to_string(), "y".to_string()];
    assert_eq!(join_texts(&list, ", "), "x, , y");
    assert_eq!(join_texts(&vec![], ", "), "");
    assert_eq!(decimal_text(0), "0");
    assert_eq!(decimal_text(10), "10");
    assert_eq!(decimal_text(u32::MAX), "4294967295");
}

#[test]
fn numbers_go_round() {
    assert_eq!(u32_le_bytes(0x01020304), vec![4, 3, 2, 1]);
    assert_eq!(u64_le_bytes(0x0102030405060708), vec![8, 7, 6, 5, 4, 3, 2, 1]);
    let mut memory = vec![9; 8];
    for value in [0, 1, 255, 256, 0xfffefdfc, u32::MAX] {
        copy_into(&mut memory, 2, &u32_le_bytes(value));
        assert_eq!(read_u32(&memory, 2), value);
        assert_eq!((memory[1], memory[6]), (9, 9));
    }
    assert_eq!(copy_out(&memory, 1, 2), vec![9, 255]);
    assert!(copy_out(&memory, 8, 0).is_empty());
    assert!(same_bytes(b"ab", b"ab"));
    assert!(!same_bytes(b"ab", b"abc"));
    assert!(!same_bytes(b"ab", b"ac"));
}

#[test]
fn byte_strings_are_ordered() {
    assert!(bytes_before(b"", b"a"));
    assert!(bytes_before(b"a", b"ab"));
    assert!(bytes_before(b"Z", b"a"));
    assert!(bytes_before(b"ab", b"b"));
    assert!(!bytes_before(b"a", b"a"));
    assert!(!bytes_before(b"b", b"ab"));
    assert!(!bytes_before(b"a", b""));
}

#[test]
fn text_sets_are_sorted_and_hold_nothing_twice() {
    let mut set = TextSet::new();
    for text in ["m", "a", "z", "m", "b", "a", "\u{e9}", "ma"] {
        set.insert(text.to_string());
    }
    assert_eq!(set.into_list(), vec!["a", "b", "m", "ma", "z", "\u{e9}"]);
}

fn names(text: &str) -> Vec<String> {
    HostPath::parse(text.as_bytes())
        .names
        .into_iter()
        .map(|n| String::from_utf8(n).unwrap())
        .collect()
}

#[test]
fn paths_are_parsed() {
    assert_eq!(names("/a//b/./c/"), vec!["a", "b", "c"]);
    assert_eq!(names("./a"), vec![".", "a"]);
    assert_eq!(names("a/./b/.."), vec!["a", "b", ".."]);
    assert!(names("").is_empty());
    assert!(names("///").is_empty());
    assert!(names("/.").is_empty());
    assert!(HostPath::parse(b"/").rooted);
    assert!(!HostPath::parse(b"a/b").rooted);
}

#[test]
fn paths_are_walked() {
    let path = HostPath::parse(b"/a/b");
    assert!(path.starts_with(&HostPath::parse(b"/a")));
    assert!(path.starts_with(&HostPath::parse(b"/")));
    assert!(path.starts_with(&path.duplicate()));
    assert!(!path.starts_with(&HostPath::parse(b"a")));
    assert!(!path.starts_with(&HostPath::parse(b"/a/b/c")));
    assert!(!path.starts_with(&HostPath::parse(b"/aa")));
    assert!(path.starts_with(&HostPath::parse(b"")));
    assert!(HostPath::parse(b"a").starts_with(&HostPath::parse(b"")));
    assert!(HostPath::parse(b"").starts_with(&HostPath::parse(b"")));
    assert!(!HostPath::parse(b"a").starts_with(&HostPath::parse(b"/")));
    assert!(!path.starts_with(&HostPath::parse(b".")));
    assert_eq!(path.parent().unwrap().names, vec![b"a".to_vec()]);
    assert!(HostPath::parse(b"/").parent().is_none());
    assert_eq!(path.file_name(), Some(b"b".to_vec()));
    assert_eq!(HostPath::parse(b"/a/..").file_name(), None);
    assert_eq!(HostPath::parse(b"/").file_name(), None);
    let longer = path.join(&HostPath::parse(b"c/d")).join_name(b"e".to_vec());
    assert_eq!(longer.names.len(), 5);
    assert!(longer.rooted);
}

#[test]
fn blocks_are_cut_to_length() {
    let mut out = vec![1; 11];
    fill_from_blocks(&mut out, &vec![0x0102030405060708, 0x1112131415161718]);
    assert_eq!(out, vec![8, 7, 6, 5, 4, 3, 2, 1, 0x18, 0x17, 0x16]);
    let mut none: Vec<u8> = vec![];
    fill_from_blocks(&mut none, &vec![]);
    assert!(none.is_empty());
}

#[test]
fn random_blocks_differ() {
    let mut ctx = WasiProcMacroCtx::new(vec![], vec![], false, false, vec![]);
    ctx.random_counter = u64::MAX;
    let mut out = vec![0; 16];
    ctx.random_fill(&mut out);
    assert_ne!(out[0..8], out[8..16]);
    assert_eq!(ctx.random_counter, 1);
    let mut empty: Vec<u8> = vec![];
    ctx.random_fill(&mut empty);
    assert_eq!(ctx.random_counter, 1);
}

#[test]
fn random_bytes_depend_on_the_counter() {
    let mut ctx = WasiProcMacroCtx::new(vec![], vec![], false, false, vec![]);
    let mut first = vec![0; 20];
    ctx.random_fill(&mut first);
    assert_eq!(ctx.random_counter, 3);
    let mut next = vec![0; 20];
    ctx.random_fill(&mut next);
    assert_ne!(first, next);
    ctx.random_counter = 0;
    let mut again = vec![0; 11];
    ctx.random_fill(&mut again);
    assert_eq!(again[..], first[..11]);
}

#[test]
fn descriptors_start_with_the_streams() {
    let ctx = WasiProcMacroCtx::new(vec![], vec![], false, false, vec![]);
    assert!(matches!(ctx.fd_entry(0), Some(FdEntry::Stdin)));
    assert!(matches!(ctx.fd_entry(1), Some(FdEntry::Stdout)));
    assert!(matches!(ctx.fd_entry(2), Some(FdEntry::Stderr)));
    assert!(ctx.fd_entry(3).is_none());
    assert!(ctx.fd_entry(u32::MAX).is_none());
}
