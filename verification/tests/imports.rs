use rustc_watt::import;
use rustc_watt::import_wasi_p1;
use rustc_watt::import_wasi_p2_core;
use rustc_watt::interpret::{extern_vals, mk_host_func, InstantiateError, RuntimeState};
use rustc_watt::module_support::ensure_wasm32_wasip1_proc_macro_module;
use rustc_watt::runtime::ast::{Import, ImportDesc, Instr, Module};
use rustc_watt::runtime::types::{Float, Func, Int, Value};
use rustc_watt::runtime::{
    init_store, Error, Extern, ExternVal, HostFunc, WasiFunc, WattFunc,
};

fn i32() -> Value {
    Value::Int(Int::I32)
}

fn i64() -> Value {
    Value::Int(Int::I64)
}

fn func(args: Vec<Value>, result: Vec<Value>) -> Func {
    Func { args, result }
}

#[test]
fn watt_imports_enforce_signatures() {
    let store = init_store();
    let ok = Func { args: vec![i32()], result: vec![i32()] };
    let bad = Func { args: vec![i32()], result: vec![] };

    assert!(import::host_func("string_len", &store, &ok).unwrap().is_some());
    assert!(import::host_func("string_len", &store, &bad).is_err());
}

#[test]
fn exposes_expected_proc_macro_subset() {
    let sig = Func { args: vec![i32(), i32()], result: vec![i32()] };
    assert!(import_wasi_p1::host_func("environ_sizes_get", &sig).unwrap().is_some());
    assert!(import_wasi_p1::host_func("environ_get", &sig).unwrap().is_some());
    assert!(import_wasi_p1::host_func("args_get", &sig).unwrap().is_some());
    assert!(import_wasi_p1::host_func("not_supported", &sig).unwrap().is_none());
}

#[test]
fn validates_signatures() {
    let wrong = Func { args: vec![i32()], result: vec![i32()] };
    assert!(import_wasi_p1::host_func("environ_sizes_get", &wrong).is_err());
    assert!(import_wasi_p1::host_func("proc_exit", &wrong).is_err());
}

#[test]
fn accepts_known_p2_prefixes() {
    assert!(import_wasi_p2_core::is_supported_module("wasi:cli/environment@0.2.0"));
    assert!(import_wasi_p2_core::is_supported_module("wasi:io/streams@0.2.0"));
    assert!(import_wasi_p2_core::is_supported_module("wasi_snapshot_preview2"));
    assert!(!import_wasi_p2_core::is_supported_module("env"));
}

#[test]
fn maps_supported_names_to_handlers() {
    let sig = Func { args: vec![i32(), i32()], result: vec![i32()] };
    assert!(import_wasi_p2_core::host_func("environ_sizes_get", &sig).unwrap().is_some());
    assert!(import_wasi_p2_core::host_func("not_supported", &sig).unwrap().is_none());
}

#[test]
fn p2_prefixes_are_whole_prefixes() {
    assert!(import_wasi_p2_core::is_supported_module("wasi:random/random@0.2.0"));
    assert!(import_wasi_p2_core::is_supported_module("wasi_snapshot_preview2_extra"));
    assert!(!import_wasi_p2_core::is_supported_module("wasi:random/random"));
    assert!(!import_wasi_p2_core::is_supported_module(""));
    assert!(!import_wasi_p2_core::is_supported_module("a wasi_snapshot_preview2"));
}

#[test]
fn rejects_unknown_imports() {
    let mut store = init_store();
    let sig = Extern::Func(Func { args: vec![i32()], result: vec![] });
    let err = mk_host_func(("unknown.module", "some_func", sig), &mut store).unwrap_err();

    assert!(matches!(
        err,
        Error::UnsupportedImport { module, name }
        if module == "unknown.module" && name == "some_func"
    ));
}

#[test]
fn rejects_signature_mismatch() {
    let mut store = init_store();
    let bad_sig = Extern::Func(Func { args: vec![i32()], result: vec![i32()] });
    let err =
        mk_host_func(("wasi_snapshot_preview1", "proc_exit", bad_sig), &mut store).unwrap_err();

    assert!(matches!(
        err,
        Error::UnsupportedImportSignature { module, name, .. }
        if module == "wasi_snapshot_preview1" && name == "proc_exit"
    ));
}

#[test]
fn signature_errors_name_both_signatures() {
    let mut store = init_store();
    let sig = Extern::Func(func(
        vec![i32(), Value::Float(Float::F32), Value::Float(Float::F64)],
        vec![i64()],
    ));
    let err =
        mk_host_func(("wasi_snapshot_preview1", "path_open", sig), &mut store).unwrap_err();
    assert_eq!(
        err,
        Error::UnsupportedImportSignature {
            module: "wasi_snapshot_preview1".to_string(),
            name: "path_open".to_string(),
            expected: "(i32, i32, i32, i32, i32, i64, i64, i32, i32) -> (i32)".to_string(),
            found: "(i32, f32, f64) -> (i64)".to_string(),
        }
    );
    assert!(store.funcs.is_empty());
}

#[test]
fn non_function_imports_are_rejected() {
    for sig in vec![Extern::Table, Extern::Memory, Extern::Global] {
        let mut store = init_store();
        let err = mk_host_func(("watt-0.5", "string_len", sig), &mut store).unwrap_err();
        assert_eq!(
            err,
            Error::UnsupportedImportSignature {
                module: "watt-0.5".to_string(),
                name: "string_len".to_string(),
                expected: "func".to_string(),
                found: "non-func import".to_string(),
            }
        );
    }
}

#[test]
fn every_wasi_name_has_its_signature() {
    let one = || func(vec![i32()], vec![i32()]);
    let two = || func(vec![i32(), i32()], vec![i32()]);
    let four = || func(vec![i32(), i32(), i32(), i32()], vec![i32()]);
    let table = vec![
        ("args_sizes_get", two(), WasiFunc::ArgsSizesGet),
        ("args_get", two(), WasiFunc::ArgsGet),
        ("environ_sizes_get", two(), WasiFunc::EnvironSizesGet),
        ("environ_get", two(), WasiFunc::EnvironGet),
        ("fd_write", four(), WasiFunc::FdWrite),
        ("fd_read", four(), WasiFunc::FdRead),
        ("fd_close", one(), WasiFunc::FdClose),
        ("fd_seek", func(vec![i32(), i64(), i32(), i32()], vec![i32()]), WasiFunc::FdSeek),
        ("fd_tell", two(), WasiFunc::FdTell),
        ("fd_fdstat_get", two(), WasiFunc::FdFdstatGet),
        (
            "path_open",
            func(
                vec![i32(), i32(), i32(), i32(), i32(), i64(), i64(), i32(), i32()],
                vec![i32()],
            ),
            WasiFunc::PathOpen,
        ),
        ("fd_prestat_get", two(), WasiFunc::FdPrestatGet),
        (
            "fd_prestat_dir_name",
            func(vec![i32(), i32(), i32()], vec![i32()]),
            WasiFunc::FdPrestatDirName,
        ),
        ("random_get", two(), WasiFunc::RandomGet),
        ("clock_res_get", two(), WasiFunc::ClockResGet),
        ("clock_time_get", func(vec![i32(), i64(), i32()], vec![i32()]), WasiFunc::ClockTimeGet),
        (
            "fd_readdir",
            func(vec![i32(), i32(), i32(), i64(), i32()], vec![i32()]),
            WasiFunc::FdReaddir,
        ),
        ("proc_exit", func(vec![i32()], vec![]), WasiFunc::ProcExit),
    ];
    for (name, sig, expected) in &table {
        assert_eq!(import_wasi_p1::host_func(name, sig), Ok(Some(HostFunc::Wasi(*expected))));
        assert_eq!(import_wasi_p2_core::host_func(name, sig), Ok(Some(HostFunc::Wasi(*expected))));
    }
    let wrong = func(vec![Value::Float(Float::F64)], vec![]);
    let texts: Vec<&str> = table
        .iter()
        .map(|(name, _, _)| import_wasi_p1::host_func(name, &wrong).unwrap_err())
        .collect();
    assert_eq!(texts[0], "(i32, i32) -> (i32)");
    assert_eq!(texts[4], "(i32, i32, i32, i32) -> (i32)");
    assert_eq!(texts[6], "(i32) -> (i32)");
    assert_eq!(texts[7], "(i32, i64, i32, i32) -> (i32)");
    assert_eq!(texts[12], "(i32, i32, i32) -> (i32)");
    assert_eq!(texts[15], "(i32, i64, i32) -> (i32)");
    assert_eq!(texts[16], "(i32, i32, i32, i64, i32) -> (i32)");
    assert_eq!(texts[17], "(i32) -> ()");
}

#[test]
fn every_watt_name_has_its_signature() {
    let store = init_store();
    let table = vec![
        ("token_stream_serialize", 1, 1, WattFunc::TokenStreamSerialize, "(i32) -> (i32)"),
        ("token_stream_deserialize", 2, 1, WattFunc::TokenStreamDeserialize, "(i32, i32) -> (i32)"),
        ("token_stream_parse", 2, 1, WattFunc::TokenStreamParse, "(i32, i32) -> (i32)"),
        ("string_new", 2, 1, WattFunc::StringNew, "(i32, i32) -> (i32)"),
        ("literal_to_string", 1, 1, WattFunc::LiteralToString, "(i32) -> (i32)"),
        ("string_len", 1, 1, WattFunc::StringLen, "(i32) -> (i32)"),
        ("bytes_len", 1, 1, WattFunc::BytesLen, "(i32) -> (i32)"),
        ("string_read", 2, 0, WattFunc::StringRead, "(i32, i32) -> ()"),
        ("bytes_read", 2, 0, WattFunc::BytesRead, "(i32, i32) -> ()"),
        ("print_panic", 1, 0, WattFunc::PrintPanic, "(i32) -> ()"),
    ];
    for (name, args, results, expected, text) in table {
        let sig = func(vec![i32(); args], vec![i32(); results]);
        assert_eq!(import::host_func(name, &store, &sig), Ok(Some(HostFunc::Watt(expected))));
        let wrong = func(vec![i64()], vec![i32()]);
        assert_eq!(import::host_func(name, &store, &wrong), Err(text));
    }
    let sig = func(vec![i32()], vec![i32()]);
    assert_eq!(import::host_func("string_lens", &store, &sig), Ok(None));
}

fn import(module: &str, name: &str, desc: ImportDesc) -> Import {
    Import { module: module.to_string(), name: name.to_string(), desc }
}

fn module(types: Vec<Func>, imports: Vec<Import>) -> Module {
    Module {
        types,
        imports,
        funcs: vec![],
        globals: vec![],
        elems: vec![],
        data: vec![],
    }
}

#[test]
fn extern_vals_link_in_order() {
    let m = module(
        vec![func(vec![i32()], vec![]), func(vec![i32()], vec![i32()])],
        vec![
            import("watt-0.4", "string_len", ImportDesc::Func(1)),
            import("wasi_snapshot_preview1", "proc_exit", ImportDesc::Func(0)),
            import("watt-0.5", "bytes_len", ImportDesc::Func(1)),
        ],
    );
    let mut store = init_store();
    let vals = extern_vals(&m, &mut store).unwrap();
    assert_eq!(vals, vec![ExternVal::Func(0), ExternVal::Func(1), ExternVal::Func(2)]);
    assert_eq!(store.funcs[0].code, HostFunc::Watt(WattFunc::StringLen));
    assert_eq!(store.funcs[1].code, HostFunc::Wasi(WasiFunc::ProcExit));
    assert_eq!(store.funcs[1].ty.args, vec![i32()]);
    assert_eq!(store.funcs[2].code, HostFunc::Watt(WattFunc::BytesLen));
    let more = extern_vals(&m, &mut store).unwrap();
    assert_eq!(more[0], ExternVal::Func(3));
    assert_eq!(store.funcs.len(), 6);
}

#[test]
fn extern_vals_stop_at_the_first_error() {
    let m = module(
        vec![func(vec![i32()], vec![i32()])],
        vec![
            import("watt-0.5", "string_len", ImportDesc::Func(0)),
            import("watt-0.5", "nothing", ImportDesc::Func(0)),
            import("env", "x", ImportDesc::Func(0)),
        ],
    );
    let mut store = init_store();
    let err = extern_vals(&m, &mut store).unwrap_err();
    assert_eq!(
        err,
        Error::UnsupportedImport { module: "watt-0.5".to_string(), name: "nothing".to_string() }
    );
    assert_eq!(store.funcs.len(), 1);
}

#[test]
fn unknown_watt_names_are_supported_but_do_not_link() {
    let m = module(
        vec![func(vec![i32()], vec![i32()])],
        vec![import("watt-0.5", "nothing", ImportDesc::Func(0))],
    );
    let census = ensure_wasm32_wasip1_proc_macro_module(&m).unwrap();
    assert_eq!(census.imports, vec!["watt-0.5::nothing".to_string()]);
    let mut state = RuntimeState::new();
    let err = state.instantiate(&m).unwrap_err();
    assert!(matches!(
        err,
        InstantiateError::Unresolved(Error::UnsupportedImport { name, .. }) if name == "nothing"
    ));
}

#[test]
fn supported_modules_link() {
    let m = module(
        vec![func(vec![i32(), i32()], vec![i32()])],
        vec![
            import("watt-0.5", "string_new", ImportDesc::Func(0)),
            import("wasi_snapshot_preview1", "random_get", ImportDesc::Func(0)),
        ],
    );
    assert!(ensure_wasm32_wasip1_proc_macro_module(&m).is_ok());
    let mut state = RuntimeState::new();
    let vals = state.instantiate(&m).unwrap();
    assert_eq!(vals, vec![ExternVal::Func(0), ExternVal::Func(1)]);
}

#[test]
fn instantiate_checks_before_it_links() {
    let mut m = module(
        vec![func(vec![i32(), i32()], vec![i32()])],
        vec![import("watt-0.5", "string_new", ImportDesc::Func(0))],
    );
    m.funcs.push(vec![Instr::DataDrop(0)]);
    let mut state = RuntimeState::new();
    assert_eq!(
        state.instantiate(&m).unwrap_err(),
        InstantiateError::Unsupported(Error::UnsupportedInstruction("data.drop"))
    );
    assert!(state.store.funcs.is_empty());
}
