use rustc_watt::module_support::{
    ensure_wasm32_wasip1_proc_macro_module, format_func_sig, render_census_snapshot,
    validate_wasm32_wasip1_proc_macro_module, ModuleCapabilityCensus,
};
use rustc_watt::runtime::ast::{ConvertOp, IUnOp, Import, ImportDesc, Instr, Module};
use rustc_watt::runtime::types::{Float, Func, Int, Value};
use rustc_watt::runtime::Error;

fn i32() -> Value {
    Value::Int(Int::I32)
}

fn i64() -> Value {
    Value::Int(Int::I64)
}

fn func(args: Vec<Value>, result: Vec<Value>) -> Func {
    Func { args, result }
}

fn empty() -> Module {
    Module {
        types: vec![],
        imports: vec![],
        funcs: vec![],
        globals: vec![],
        elems: vec![],
        data: vec![],
    }
}

fn wasi(list: Vec<(&str, Func)>) -> Module {
    let mut m = empty();
    for (i, (name, ty)) in list.into_iter().enumerate() {
        m.types.push(ty);
        m.imports.push(Import {
            module: "wasi_snapshot_preview1".to_string(),
            name: name.to_string(),
            desc: ImportDesc::Func(i as u32),
        });
    }
    m
}

fn census(m: Module) -> ModuleCapabilityCensus {
    validate_wasm32_wasip1_proc_macro_module(Ok(m)).unwrap()
}

#[test]
fn rejects_threads_prefixed_module() {
    let decoded = Err(Error::UnsupportedWasmFeature("threads"));
    let err = validate_wasm32_wasip1_proc_macro_module(decoded).unwrap_err();
    assert!(matches!(err, Error::UnsupportedWasmFeature("threads")));
}

#[test]
fn rejects_unsupported_bulk_memory_ops_before_execution() {
    let mut m = empty();
    m.funcs.push(vec![Instr::RefNull, Instr::Other, Instr::Other, Instr::TableGrow(0)]);
    let err = validate_wasm32_wasip1_proc_macro_module(Ok(m)).unwrap_err();
    assert!(
        matches!(err, Error::UnsupportedInstruction("table.grow")),
        "unexpected error: {err:?}"
    );
}

#[test]
fn records_supported_feature_census() {
    let mut m = wasi(vec![("random_get", func(vec![i32(), i32()], vec![i32()]))]);
    m.funcs.push(vec![Instr::Other, Instr::Convert(ConvertOp::TruncSat)]);
    let census = validate_wasm32_wasip1_proc_macro_module(Ok(m)).unwrap();
    assert!(census.imports.iter().any(|entry| entry == "wasi_snapshot_preview1::random_get"));
    assert!(census.wasm_features.iter().any(|entry| entry == "nontrapping-fptoint"));
    assert!(census.special_instructions.iter().any(|entry| entry == "trunc_sat"));
}

#[test]
fn capability_corpus_matches_snapshot() {
    let two = || func(vec![i32(), i32()], vec![i32()]);
    let four = || func(vec![i32(), i32(), i32(), i32()], vec![i32()]);
    let mut pass_through = empty();
    pass_through.funcs.push(vec![Instr::Other]);
    let args_env_stdio = wasi(vec![
        ("args_sizes_get", two()),
        ("args_get", two()),
        ("environ_sizes_get", two()),
        ("environ_get", two()),
        ("fd_write", four()),
    ]);
    let filesystem = wasi(vec![
        ("fd_read", four()),
        ("fd_write", four()),
        ("fd_close", func(vec![i32()], vec![i32()])),
        ("fd_seek", func(vec![i32(), i64(), i32(), i32()], vec![i32()])),
        ("fd_tell", two()),
        ("fd_fdstat_get", two()),
        (
            "path_open",
            func(
                vec![i32(), i32(), i32(), i32(), i32(), i64(), i64(), i32(), i32()],
                vec![i32()],
            ),
        ),
        ("fd_prestat_get", two()),
        ("fd_prestat_dir_name", func(vec![i32(), i32(), i32()], vec![i32()])),
        ("fd_readdir", func(vec![i32(), i32(), i32(), i64(), i32()], vec![i32()])),
    ]);
    let random_clock_proc_exit = wasi(vec![
        ("random_get", two()),
        ("clock_res_get", two()),
        ("clock_time_get", func(vec![i32(), i64(), i32()], vec![i32()])),
        ("proc_exit", func(vec![i32()], vec![])),
    ]);
    let mut wasm_features = empty();
    wasm_features.funcs.push(vec![
        Instr::Other,
        Instr::Other,
        Instr::Other,
        Instr::MemoryCopy,
        Instr::Other,
        Instr::Other,
        Instr::Other,
        Instr::MemoryFill,
        Instr::Other,
        Instr::IUnary(IUnOp::Extend8S),
        Instr::Other,
        Instr::Other,
        Instr::Convert(ConvertOp::TruncSat),
        Instr::Other,
        Instr::RefNull,
        Instr::RefIsNull,
    ]);
    let list = vec![
        ("pass-through".to_string(), census(pass_through)),
        ("args-env-stdio".to_string(), census(args_env_stdio)),
        ("filesystem".to_string(), census(filesystem)),
        ("random-clock-proc-exit".to_string(), census(random_clock_proc_exit)),
        ("wasm-features".to_string(), census(wasm_features)),
    ];
    let expected = "\
[pass-through]
imports=
features=
instructions=

[args-env-stdio]
imports=wasi_snapshot_preview1::args_get,wasi_snapshot_preview1::args_sizes_get,\
wasi_snapshot_preview1::environ_get,wasi_snapshot_preview1::environ_sizes_get,\
wasi_snapshot_preview1::fd_write
features=wasi-preview1
instructions=

[filesystem]
imports=wasi_snapshot_preview1::fd_close,wasi_snapshot_preview1::fd_fdstat_get,\
wasi_snapshot_preview1::fd_prestat_dir_name,wasi_snapshot_preview1::fd_prestat_get,\
wasi_snapshot_preview1::fd_read,wasi_snapshot_preview1::fd_readdir,\
wasi_snapshot_preview1::fd_seek,wasi_snapshot_preview1::fd_tell,\
wasi_snapshot_preview1::fd_write,wasi_snapshot_preview1::path_open
features=wasi-preview1
instructions=

[random-clock-proc-exit]
imports=wasi_snapshot_preview1::clock_res_get,wasi_snapshot_preview1::clock_time_get,\
wasi_snapshot_preview1::proc_exit,wasi_snapshot_preview1::random_get
features=wasi-preview1
instructions=

[wasm-features]
imports=
features=bulk-memory,nontrapping-fptoint,reference-types,sign-ext
instructions=i.extend8_s,memory.copy,memory.fill,ref.is_null,ref.null,trunc_sat
";
    assert_eq!(render_census_snapshot(&list), expected);
}

#[test]
fn nested_bodies_are_looked_at() {
    let mut m = empty();
    m.funcs.push(vec![
        Instr::Block(vec![Instr::Loop(vec![Instr::RefFunc(3)])]),
        Instr::If(vec![Instr::IUnary(IUnOp::Extend32S)], vec![Instr::IUnary(IUnOp::Extend16S)]),
        Instr::IUnary(IUnOp::Clz),
        Instr::Convert(ConvertOp::Other),
    ]);
    let census = ensure_wasm32_wasip1_proc_macro_module(&m).unwrap();
    assert_eq!(census.special_instructions, vec!["i.extend16_s", "i64.extend32_s", "ref.func"]);
    assert_eq!(census.wasm_features, vec!["reference-types", "sign-ext"]);
    assert!(census.imports.is_empty());
}

#[test]
fn the_first_unsupported_instruction_is_reported() {
    // Bodies come after the expression that they stand in, the last body first, and the first
    // branch of an `If` before the second one.
    let mut m = empty();
    m.funcs.push(vec![
        Instr::Block(vec![Instr::MemoryInit(0)]),
        Instr::If(vec![Instr::ElemDrop(0)], vec![Instr::TableCopy(0, 0)]),
    ]);
    assert_eq!(
        ensure_wasm32_wasip1_proc_macro_module(&m).unwrap_err(),
        Error::UnsupportedInstruction("elem.drop")
    );
    m.funcs[0].push(Instr::TableSize(0));
    assert_eq!(
        ensure_wasm32_wasip1_proc_macro_module(&m).unwrap_err(),
        Error::UnsupportedInstruction("table.size")
    );
}

#[test]
fn all_unsupported_instructions_are_refused_everywhere() {
    let ops: Vec<(fn() -> Instr, &str)> = vec![
        (|| Instr::MemoryInit(1), "memory.init"),
        (|| Instr::DataDrop(1), "data.drop"),
        (|| Instr::TableInit(1, 2), "table.init"),
        (|| Instr::ElemDrop(1), "elem.drop"),
        (|| Instr::TableCopy(1, 2), "table.copy"),
        (|| Instr::TableGrow(1), "table.grow"),
        (|| Instr::TableSize(1), "table.size"),
        (|| Instr::TableFill(1), "table.fill"),
    ];
    for (make, name) in ops {
        for place in 0..4 {
            let mut m = empty();
            let expr = vec![make()];
            match place {
                0 => m.funcs.push(expr),
                1 => m.globals.push(expr),
                2 => m.elems.push(expr),
                _ => m.data.push(expr),
            }
            let err = ensure_wasm32_wasip1_proc_macro_module(&m).unwrap_err();
            assert!(matches!(err, Error::UnsupportedInstruction(op) if op == name));
        }
    }
}

#[test]
fn imports_are_checked_before_instructions() {
    let mut m = wasi(vec![("no_such_function", func(vec![], vec![]))]);
    m.funcs.push(vec![Instr::TableFill(0)]);
    let err = ensure_wasm32_wasip1_proc_macro_module(&m).unwrap_err();
    assert!(matches!(err, Error::UnsupportedImport { name, .. } if name == "no_such_function"));
}

#[test]
fn imports_are_listed_once_and_in_order() {
    let two = || func(vec![i32(), i32()], vec![i32()]);
    let mut m = wasi(vec![("random_get", two()), ("args_get", two()), ("random_get", two())]);
    m.imports.push(Import {
        module: "watt-0.5".to_string(),
        name: "string_new".to_string(),
        desc: ImportDesc::Func(0),
    });
    let census = ensure_wasm32_wasip1_proc_macro_module(&m).unwrap();
    assert_eq!(
        census.imports,
        vec![
            "wasi_snapshot_preview1::args_get",
            "wasi_snapshot_preview1::random_get",
            "watt-0.5::string_new",
        ]
    );
    assert_eq!(census.wasm_features, vec!["wasi-preview1"]);
}

#[test]
fn imports_that_are_no_functions_are_refused() {
    for desc in vec![ImportDesc::Table, ImportDesc::Memory, ImportDesc::Global] {
        let mut m = empty();
        m.imports.push(Import { module: "env".to_string(), name: "x".to_string(), desc });
        assert_eq!(
            ensure_wasm32_wasip1_proc_macro_module(&m).unwrap_err(),
            Error::UnsupportedImportSignature {
                module: "env".to_string(),
                name: "x".to_string(),
                expected: "func".to_string(),
                found: "non-func import".to_string(),
            }
        );
    }
}

#[test]
fn decoding_errors_are_passed_on() {
    let err = validate_wasm32_wasip1_proc_macro_module(Err(Error::UnknownExport)).unwrap_err();
    assert_eq!(err, Error::UnknownExport);
}

#[test]
fn signatures_are_written() {
    assert_eq!(format_func_sig(&func(vec![], vec![])), "() -> ()");
    assert_eq!(format_func_sig(&func(vec![i32()], vec![i64(), i64()])), "(i32) -> (i64, i64)");
    assert_eq!(
        format_func_sig(&func(
            vec![Value::Float(Float::F32), Value::Float(Float::F64)],
            vec![i32()]
        )),
        "(f32, f64) -> (i32)"
    );
}
