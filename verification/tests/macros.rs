use rustc_watt::data::Data;
use rustc_watt::import::watt_call::{answer, call, WattStep};
use rustc_watt::interpret::{
    proc_macro, Exports, MacroFailure, MacroStep, MissingExport, Stage, StartError,
};
use rustc_watt::runtime::{
    get_export, Error, ExportInst, ExternVal, Interpreter, ModuleInst, Value, WattFunc,
};
use rustc_watt::sym::{
    bytes_len, bytes_read, literal_to_string, parse_input, print_panic, region, string_len,
    string_new, string_read, token_stream_deserialize, token_stream_parse,
    token_stream_serialize, SymPanic, PARSE_FAILED,
};

fn data() -> Data<&'static str> {
    Data::new()
}

fn export(name: &str, value: ExternVal) -> ExportInst {
    ExportInst { name: name.to_string(), value }
}

fn instance() -> ModuleInst {
    ModuleInst {
        exports: vec![
            export("memory", ExternVal::Memory(0)),
            export("expand", ExternVal::Func(10)),
            export("raw_to_token_stream", ExternVal::Func(11)),
            export("token_stream_into_raw", ExternVal::Func(12)),
            export("expand", ExternVal::Func(99)),
        ],
    }
}

#[test]
fn strings_go_round() {
    let mut d = data();
    let mut memory = b"..h\xc3\xa9llo......".to_vec();
    assert_eq!(string_new(&mut d, &memory, 2, 6), Ok(0));
    assert_eq!(string_new(&mut d, &memory, 0, 2), Ok(1));
    assert_eq!(string_len(&d, 0), Ok(6));
    assert_eq!(string_read(&d, &mut memory, 0, 8), Ok(()));
    assert_eq!(&memory[8..14], "h\u{e9}llo".as_bytes());
    assert_eq!(string_read(&d, &mut memory, 0, 9), Err(SymPanic::OutOfBounds));
    assert_eq!(string_read(&d, &mut memory, 0, u32::MAX), Err(SymPanic::OutOfBounds));
    assert_eq!(string_read(&d, &mut memory, 2, 0), Err(SymPanic::UnknownHandle));
    assert_eq!(string_len(&d, 2), Err(SymPanic::UnknownHandle));
    assert_eq!(string_new(&mut d, &memory, 9, 6), Err(SymPanic::OutOfBounds));
    assert_eq!(string_new(&mut d, &memory, 3, 1), Err(SymPanic::NonUtf8));
    assert_eq!(print_panic(&d, 1), SymPanic::Message("..".to_string()));
    assert_eq!(print_panic(&d, 5), SymPanic::UnknownHandle);
}

#[test]
fn literals_become_strings() {
    let mut d = data();
    assert_eq!(literal_to_string(&mut d, 0), Err(SymPanic::UnknownHandle));
    d.literal.push("1u8".to_string());
    assert_eq!(literal_to_string(&mut d, 0), Ok(0));
    assert_eq!(literal_to_string(&mut d, 0), Ok(1));
    assert_eq!(d.string.get(1).unwrap(), "1u8");
}

#[test]
fn byte_strings_are_handed_out() {
    let mut d = data();
    assert_eq!(d.tokenstream.push("ts"), Some(0));
    assert_eq!(token_stream_serialize(&mut d, 1, vec![1]), Err(SymPanic::UnknownHandle));
    assert_eq!(token_stream_serialize(&mut d, 0, vec![1, 2, 3]), Ok(0));
    assert_eq!(bytes_len(&d, 0), Ok(3));
    assert_eq!(bytes_len(&d, 1), Err(SymPanic::UnknownHandle));
    let mut memory = vec![0; 4];
    assert_eq!(bytes_read(&d, &mut memory, 0, 1), Ok(()));
    assert_eq!(memory, vec![0, 1, 2, 3]);
    assert_eq!(bytes_read(&d, &mut memory, 0, 2), Err(SymPanic::OutOfBounds));
    assert_eq!(bytes_read(&d, &mut memory, 7, 0), Err(SymPanic::UnknownHandle));
    assert_eq!(memory, vec![0, 1, 2, 3]);
}

#[test]
fn token_streams_come_from_the_guest() {
    let mut d = data();
    let memory = b"a + b\xff".to_vec();
    assert_eq!(region(&memory, 2, 3), Ok(b"+ b".to_vec()));
    assert_eq!(region(&memory, 2, 5), Err(SymPanic::OutOfBounds));
    assert_eq!(token_stream_deserialize(&mut d, "x"), Ok(0));
    assert_eq!(parse_input(&memory, 0, 5), Ok(Some("a + b".to_string())));
    assert_eq!(parse_input(&memory, 0, 6), Ok(None));
    assert_eq!(parse_input(&memory, 0, 7), Err(SymPanic::OutOfBounds));
    assert_eq!(token_stream_parse(&mut d, Some("y")), Ok(1));
    assert_eq!(token_stream_parse(&mut d, None), Ok(u32::MAX));
    assert_eq!(d.tokenstream.get(1), Some(&"y"));
    assert_eq!(d.tokenstream.get(2), None);
}

fn guest(memory: &[u8], args: &[u32]) -> Interpreter {
    Interpreter {
        stack: args.iter().map(|v| Value::I32(*v)).collect(),
        memory: memory.to_vec(),
    }
}

#[test]
fn token_stream_functions_are_called() {
    let mut d = data();
    d.literal.push("'c'".to_string());
    d.tokenstream.push("ts");
    d.bytes.push(vec![5, 6]);

    let mut g = guest(b"hi", &[0, 2]);
    assert!(matches!(call(WattFunc::StringNew, &mut g, &mut d), WattStep::Done));
    assert_eq!(g.stack, vec![Value::I32(0)]);
    assert!(matches!(call(WattFunc::StringLen, &mut g, &mut d), WattStep::Done));
    assert_eq!(g.stack, vec![Value::I32(2)]);

    let mut g = guest(b"....", &[0, 1]);
    assert!(matches!(call(WattFunc::StringRead, &mut g, &mut d), WattStep::Done));
    assert_eq!(g.memory, b".hi.");
    assert!(g.stack.is_empty());
    let mut g = guest(b"....", &[0, 2]);
    assert!(matches!(call(WattFunc::BytesRead, &mut g, &mut d), WattStep::Done));
    assert_eq!(g.memory, b"..\x05\x06");
    let mut g = guest(b"....", &[0, 3]);
    assert!(matches!(
        call(WattFunc::BytesRead, &mut g, &mut d),
        WattStep::Panic(SymPanic::OutOfBounds)
    ));

    let mut g = guest(b"", &[0]);
    assert!(matches!(call(WattFunc::BytesLen, &mut g, &mut d), WattStep::Done));
    assert_eq!(g.stack, vec![Value::I32(2)]);
    let mut g = guest(b"", &[0]);
    assert!(matches!(call(WattFunc::LiteralToString, &mut g, &mut d), WattStep::Done));
    assert_eq!(g.stack, vec![Value::I32(1)]);
    let mut g = guest(b"", &[0]);
    match call(WattFunc::PrintPanic, &mut g, &mut d) {
        WattStep::Panic(SymPanic::Message(text)) => assert_eq!(text, "hi"),
        other => panic!("{other:?}"),
    }

    let mut g = guest(b"", &[0]);
    assert!(matches!(
        call(WattFunc::TokenStreamSerialize, &mut g, &mut d),
        WattStep::Encode(0)
    ));
    answer(&mut g, 3);
    assert_eq!(g.stack, vec![Value::I32(3)]);
    assert!(matches!(
        call(WattFunc::TokenStreamSerialize, &mut g, &mut d),
        WattStep::Panic(SymPanic::UnknownHandle)
    ));
    let mut g = guest(b"abc", &[1, 2]);
    match call(WattFunc::TokenStreamDeserialize, &mut g, &mut d) {
        WattStep::Decode(bytes) => assert_eq!(bytes, b"bc"),
        other => panic!("{other:?}"),
    }
    let mut g = guest(b"abc", &[1, 2]);
    match call(WattFunc::TokenStreamParse, &mut g, &mut d) {
        WattStep::Parse(text) => assert_eq!(text, "bc"),
        other => panic!("{other:?}"),
    }
    let mut g = guest(b"a\xff", &[0, 2]);
    assert!(matches!(call(WattFunc::TokenStreamParse, &mut g, &mut d), WattStep::Done));
    assert_eq!(g.stack, vec![Value::I32(PARSE_FAILED)]);
}

#[test]
fn exports_are_looked_up() {
    let inst = instance();
    assert_eq!(get_export(&inst, "memory").unwrap(), ExternVal::Memory(0));
    assert_eq!(get_export(&inst, "expand").unwrap(), ExternVal::Func(10));
    assert_eq!(get_export(&inst, "nothing").unwrap_err(), Error::UnknownExport);
    let exports = Exports::collect(&inst, "expand").unwrap();
    assert_eq!(
        (exports.main, exports.raw_to_token_stream, exports.token_stream_into_raw),
        (10, 11, 12)
    );
    assert_eq!(Exports::collect(&inst, "memory"), Err(MissingExport::EntryPoint));
    let mut short = instance();
    short.exports.remove(3);
    assert_eq!(Exports::collect(&short, "expand"), Err(MissingExport::TokenStreamIntoRaw));
    short.exports.remove(2);
    assert_eq!(Exports::collect(&short, "expand"), Err(MissingExport::RawToTokenStream));
}

#[test]
fn a_macro_is_run() {
    let mut d = data();
    d.tokenstream.push("earlier");
    let mut call = proc_macro("expand", vec!["attr", "item"], &instance(), &mut d).unwrap();
    assert_eq!(call.raws, vec![1, 2]);
    assert_eq!(d.tokenstream.get(2), Some(&"item"));
    let mut seen = vec![];
    let replies = [Value::I32(100), Value::I32(200), Value::I64(7), Value::I32(1)];
    let mut output = None;
    for reply in replies {
        seen.push(call.call());
        match call.resume(vec![reply]) {
            MacroStep::Call(next) => call = next,
            MacroStep::Done(handle) => {
                output = Some(handle);
                break;
            }
            MacroStep::Failed(failure) => panic!("{failure:?}"),
        }
    }
    assert_eq!(output, Some(1));
    assert_eq!(
        seen,
        vec![
            (11, vec![Value::I32(1)]),
            (11, vec![Value::I32(2)]),
            (10, vec![Value::I32(100), Value::I32(200)]),
            (12, vec![Value::I64(7)]),
        ]
    );
}

#[test]
fn a_macro_without_inputs_is_run() {
    let mut d = data();
    let call = proc_macro("expand", vec![], &instance(), &mut d).unwrap();
    assert_eq!(call.stage, Stage::Main);
    assert_eq!(call.call(), (10, vec![]));
    let call = match call.resume(vec![Value::I32(4)]) {
        MacroStep::Call(next) => next,
        other => panic!("{other:?}"),
    };
    match call.resume(vec![Value::F32(4)]) {
        MacroStep::Failed(failure) => {
            assert_eq!(failure, MacroFailure::ResultType(Value::F32(4)))
        }
        other => panic!("{other:?}"),
    }
}

#[test]
fn a_macro_fails() {
    let mut d = data();
    assert_eq!(
        proc_macro("nothing", vec!["x"], &instance(), &mut d).unwrap_err(),
        StartError::Missing(MissingExport::EntryPoint)
    );
    assert_eq!(d.tokenstream.get(0), None);
    for result in [vec![], vec![Value::I32(1), Value::I32(2)]] {
        let call = proc_macro("expand", vec!["x"], &instance(), &mut d).unwrap();
        match call.resume(result) {
            MacroStep::Failed(failure) => assert_eq!(failure, MacroFailure::ResultCount),
            other => panic!("{other:?}"),
        }
    }
}

#[test]
fn no_number_stands_for_two_values() {
    let mut d: Data<()> = Data::new();
    assert!(d.tokenstream.has_numbers(0x1_0000_0000));
    assert!(!d.tokenstream.has_numbers(0x1_0000_0001));
    assert_eq!(d.tokenstream.push(()), Some(0));
    assert!(!d.tokenstream.has_numbers(0x1_0000_0000));
    assert!(!d.tokenstream.has_numbers(usize::MAX));
    let inputs = vec![(); 0x1_0000_0000];
    let refused = proc_macro("expand", inputs, &instance(), &mut d).unwrap_err();
    assert_eq!(refused, StartError::NoNumberLeft);
    assert_eq!(d.tokenstream.get(1), None);
}
