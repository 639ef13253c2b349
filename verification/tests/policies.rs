use rustc_watt::path::{HostPath, PathKind};
use rustc_watt::policy::{
    collect_args_entries, collect_env_entries, from_host, parse_preopen_spec, preopen_queries,
    preopens_from_host, preopens_from_policy, requested_preopens, CurrentDir, HostEnv, HostVar,
    WasiPolicy, WasiPreopenDir, WasiState,
};

fn path(text: &str) -> HostPath {
    HostPath::parse(text.as_bytes())
}

fn var(name: &str, value: &str) -> HostVar {
    HostVar { name: name.as_bytes().to_vec(), value: value.as_bytes().to_vec() }
}

fn host() -> HostEnv {
    HostEnv {
        args: vec![b"rustc".to_vec(), b"-O".to_vec()],
        vars: vec![var("PATH", "/bin"), var("HOME", "/root"), var("PATHS", "x")],
        preopens_var: None,
        random_var: None,
        current_dir: Some(CurrentDir {
            path: b"/work/../here".to_vec(),
            canonical: Some(path("/here")),
        }),
    }
}

#[test]
fn parse_preopen_spec_modes() {
    assert_eq!(parse_preopen_spec("/tmp:rw"), Some(("/tmp".to_string(), true)));
    assert_eq!(parse_preopen_spec("/tmp:ro"), Some(("/tmp".to_string(), false)));
    assert_eq!(parse_preopen_spec("/tmp"), Some(("/tmp".to_string(), false)));
}

#[test]
fn preopen_specs_are_trimmed() {
    assert_eq!(parse_preopen_spec(""), None);
    assert_eq!(parse_preopen_spec(" \t\n"), None);
    assert_eq!(parse_preopen_spec("  /a b :rw "), Some(("/a b".to_string(), true)));
    assert_eq!(parse_preopen_spec(":rw"), Some(("".to_string(), true)));
    assert_eq!(parse_preopen_spec("rw"), Some(("rw".to_string(), false)));
    assert_eq!(parse_preopen_spec("/a:rx"), Some(("/a:rx".to_string(), false)));
    assert_eq!(parse_preopen_spec("/a:rw:ro"), Some(("/a:rw".to_string(), false)));
    assert_eq!(parse_preopen_spec("\u{3000}\u{e9}:ro"), Some(("\u{e9}".to_string(), false)));
}

#[test]
fn preopen_variables_are_cut_at_semicolons() {
    let list = requested_preopens(&Some(" /a:rw;; /b ;/c:ro".to_string()));
    assert_eq!(
        list,
        vec![
            ("/a".to_string(), true),
            ("/b".to_string(), false),
            ("/c".to_string(), false),
        ]
    );
    assert!(requested_preopens(&None).is_empty());
    assert!(requested_preopens(&Some("".to_string())).is_empty());
}

#[test]
fn default_fallback_preopen_is_writable() {
    let preopens = preopens_from_host(&host(), &vec![]);
    assert!(!preopens.is_empty());
    assert!(preopens[0].writable);
    assert_eq!(preopens[0].guest_path, "/work/../here");
    assert_eq!(preopens[0].root.names, vec![b"here".to_vec()]);
}

#[test]
fn requested_directories_replace_the_fallback() {
    let mut env = host();
    env.preopens_var = Some("/a:rw;/missing;b".to_string());
    let queries = preopen_queries(&None, &env);
    assert_eq!(queries, vec![b"/a".to_vec(), b"/missing".to_vec(), b"b".to_vec()]);
    let canons = vec![Some(path("/real/a")), None, Some(path("/work/b"))];
    let preopens = preopens_from_host(&env, &canons);
    assert_eq!(preopens.len(), 2);
    assert_eq!((preopens[0].guest_path.as_str(), preopens[0].writable), ("/a", true));
    assert_eq!(preopens[0].root.names, vec![b"real".to_vec(), b"a".to_vec()]);
    assert_eq!((preopens[1].guest_path.as_str(), preopens[1].writable), ("b", false));
    // Where none of them is a directory, the fallback is there.
    let preopens = preopens_from_host(&env, &vec![None, None, None]);
    assert_eq!(preopens.len(), 1);
    assert!(preopens[0].writable);
    env.current_dir = None;
    assert!(preopens_from_host(&env, &vec![None, None, None]).is_empty());
}

#[test]
fn env_allowlist_filters_entries() {
    let vars = host().vars;
    let key = "PATH".to_string();
    let allow = vec![key.clone()];
    let env = collect_env_entries(&vars, Some(&allow));
    assert!(!env.is_empty());
    for entry in env {
        let s = String::from_utf8_lossy(&entry);
        assert!(s.starts_with(&(key.clone() + "=")));
    }
}

#[test]
fn env_allowlist_empty_allows_all() {
    let vars = host().vars;
    let all = collect_env_entries(&vars, None);
    let allow_all = collect_env_entries(&vars, Some(&vec![]));
    assert_eq!(all, allow_all);
    assert_eq!(all.len(), 3);
    assert_eq!(all[1], b"HOME=/root\0");
}

#[test]
fn host_texts_are_made_utf8() {
    assert_eq!(
        collect_args_entries(&vec![b"a\xffb".to_vec(), vec![]]),
        vec!["a\u{fffd}b\0".as_bytes().to_vec(), b"\0".to_vec()]
    );
    let vars = vec![HostVar { name: b"K\x80".to_vec(), value: b"\xc3\xa9".to_vec() }];
    let entries = collect_env_entries(&vars, None);
    assert_eq!(entries, vec!["K\u{fffd}=\u{e9}\0".as_bytes().to_vec()]);
    let allow = vec!["K\u{fffd}".to_string()];
    assert_eq!(collect_env_entries(&vars, Some(&allow)).len(), 1);
}

#[test]
fn policy_can_disable_args_and_env_inheritance() {
    let mut state = WasiState::new(&host(), &vec![]);
    assert_eq!(state.ctx.args_entries().len(), 2);
    assert_eq!(state.ctx.environ_entries().len(), 3);
    let mut policy = WasiPolicy::native_like();
    policy.inherit_args = false;
    policy.inherit_env = false;
    policy.preopens = vec![WasiPreopenDir {
        path: b"/here".to_vec(),
        windows: None,
        guest_path: None,
        writable: false,
    }];
    state.set_policy(policy, &host(), &vec![Some(path("/here"))]);
    assert!(state.ctx.args_entries().is_empty());
    assert!(state.ctx.environ_entries().is_empty());
    assert!(state.active_policy().is_some());
    state.clear_policy(&host(), &vec![]);
    assert!(state.active_policy().is_none());
    assert_eq!(state.ctx.args_entries().len(), 2);
}

#[test]
fn policy_preopen_can_override_guest_visible_name() {
    let mut state = WasiState::new(&host(), &vec![]);
    let mut policy = WasiPolicy::native_like();
    policy.preopens = vec![WasiPreopenDir {
        path: b"/tmp/dir".to_vec(),
        windows: None,
        guest_path: Some(b"/.".to_vec()),
        writable: false,
    }];
    state.set_policy(policy, &host(), &vec![Some(path("/tmp/dir"))]);
    let len = state.ctx.fd_prestat_dir(3).unwrap();
    let name = state.ctx.fd_prestat_dir_name(3).unwrap();
    assert_eq!(len as usize, "/.".len());
    assert_eq!(name, b"/.");
    state.clear_policy(&host(), &vec![]);
}

#[test]
fn policy_controls_mirror_stdio_toggle() {
    let mut state = WasiState::new(&host(), &vec![]);
    let mut policy = WasiPolicy::native_like();
    policy.mirror_stdio = false;
    state.set_policy(policy, &host(), &vec![]);
    assert!(!state.ctx.mirror_stdio_enabled());

    state.clear_policy(&host(), &vec![]);
    assert!(state.ctx.mirror_stdio_enabled());
}

#[test]
fn policies_are_trusted_with_absolute_paths() {
    let mut policy = WasiPolicy::native_like();
    for (text, writable) in [("/.", true), ("rel", true), ("/b", false)] {
        policy.preopens.push(WasiPreopenDir {
            path: text.as_bytes().to_vec(),
            windows: None,
            guest_path: None,
            writable,
        });
    }
    let read = |prefix: &str| HostPath {
        kind: PathKind::Windows,
        prefix: if prefix.is_empty() { None } else { Some(prefix.as_bytes().to_vec()) },
        rooted: true,
        names: vec![b"w".to_vec()],
    };
    for (text, windows) in [("/w", read("")), ("C:/w", read("C:"))] {
        policy.preopens.push(WasiPreopenDir {
            path: text.as_bytes().to_vec(),
            windows: Some(windows),
            guest_path: None,
            writable: false,
        });
    }
    let canons = vec![None, None, Some(path("/real")), None, None];
    let list = preopens_from_policy(&policy, &canons);
    // On Windows a path without a prefix is not absolute.
    assert_eq!(list.len(), 3);
    assert_eq!(list[2].root.prefix, Some(b"C:".to_vec()));
    assert_eq!((list[2].guest_path.as_str(), list[2].writable), ("C:/w", false));
    assert!(list[0].root.rooted && list[0].root.names.is_empty());
    assert_eq!((list[0].guest_path.as_str(), list[0].writable), ("/.", true));
    assert_eq!(list[1].root.names, vec![b"real".to_vec()]);
    assert_eq!((list[1].guest_path.as_str(), list[1].writable), ("/b", false));
}

#[test]
fn a_policy_without_directories_has_no_fallback() {
    let mut env = host();
    env.preopens_var = Some("/a:rw".to_string());
    env.random_var = Some("1".to_string());
    let policy = Some(WasiPolicy::native_like());
    assert!(preopen_queries(&policy, &env).is_empty());
    let ctx = from_host(&policy, &env, &vec![]);
    assert_eq!(ctx.fds.len(), 3);
    assert!(!ctx.deterministic_random);
}

#[test]
fn the_random_variable() {
    for (value, expected) in [
        ("1", true),
        ("true", true),
        ("TrUe", true),
        ("0", false),
        ("", false),
        ("11", false),
        ("truE ", false),
        ("yes", false),
    ] {
        let mut env = host();
        env.random_var = Some(value.to_string());
        assert_eq!(from_host(&None, &env, &vec![]).deterministic_random, expected, "{value}");
    }
    assert!(!from_host(&None, &host(), &vec![]).deterministic_random);
}

#[test]
fn starting_over_forgets_what_was_printed() {
    let mut state = WasiState::new(&host(), &vec![]);
    state.ctx.write_stdout(b"x");
    state.ctx.write_stderr(b"y");
    state.reset_from_host(&host(), &vec![]);
    assert!(state.ctx.captured_stdout().is_empty());
    assert!(state.ctx.captured_stderr().is_empty());
    assert_eq!(state.ctx.fds.len(), 4);
    assert!(state.ctx.mirror_stdio_enabled());
}
