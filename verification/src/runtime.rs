//! The guest's side of the host interface: values, stack, memory, and what a module imports
//! and exports.
use crate::runtime::types::{Float, Func, Int};
use crate::text::same_text;
use vstd::prelude::*;

pub mod ast;
pub mod types;

verus! {

/// A value on the stack. A float is held by its bits.
#[derive(Clone, Copy, Debug, PartialEq, Eq, Structural)]
pub enum Value {
    I32(u32),
    I64(u64),
    F32(u32),
    F64(u64),
}

/// The type of a value.
pub open spec fn type_of(value: Value) -> types::Value {
    match value {
        Value::I32(_) => types::Value::Int(Int::I32),
        Value::I64(_) => types::Value::Int(Int::I64),
        Value::F32(_) => types::Value::Float(Float::F32),
        Value::F64(_) => types::Value::Float(Float::F64),
    }
}

/// The running guest, as a host function sees it.
#[derive(Debug)]
pub struct Interpreter {
    pub stack: Vec<Value>,
    pub memory: Vec<u8>,
}

impl Interpreter {
    /// Takes the topmost value.
    pub fn pop(&mut self) -> (value: Option<Value>)
        ensures
            final(self).memory == old(self).memory,
            old(self).stack@.len() == 0 ==> value is None && final(self).stack@ == old(
                self,
            ).stack@,
            old(self).stack@.len() > 0 ==> value == Some(old(self).stack@.last())
                && final(self).stack@ == old(self).stack@.drop_last(),
    {
        self.stack.pop()
    }

    /// Puts a value on top.
    pub fn push(&mut self, value: Value)
        ensures
            final(self).memory == old(self).memory,
            final(self).stack@ == old(self).stack@.push(value),
    {
        self.stack.push(value);
    }
}

/// Why a module or an import is rejected.
#[derive(Debug, PartialEq, Eq)]
pub enum Error {
    UnsupportedImport { module: String, name: String },
    UnsupportedImportSignature { module: String, name: String, expected: String, found: String },
    UnsupportedInstruction(&'static str),
    /// What a decoder refuses.
    UnsupportedWasmFeature(&'static str),
    UnknownExport,
}

/// What an [`Error`] says.
pub enum ErrorModel {
    UnsupportedImport { module: Seq<char>, name: Seq<char> },
    UnsupportedImportSignature {
        module: Seq<char>,
        name: Seq<char>,
        expected: Seq<char>,
        found: Seq<char>,
    },
    UnsupportedInstruction(Seq<char>),
    UnsupportedWasmFeature(Seq<char>),
    UnknownExport,
}

impl View for Error {
    type V = ErrorModel;

    open spec fn view(&self) -> ErrorModel {
        match self {
            Error::UnsupportedImport { module, name } => ErrorModel::UnsupportedImport {
                module: module@,
                name: name@,
            },
            Error::UnsupportedImportSignature { module, name, expected, found } =>
                ErrorModel::UnsupportedImportSignature {
                module: module@,
                name: name@,
                expected: expected@,
                found: found@,
            },
            Error::UnsupportedInstruction(op) => ErrorModel::UnsupportedInstruction(op@),
            Error::UnsupportedWasmFeature(feature) => ErrorModel::UnsupportedWasmFeature(feature@),
            Error::UnknownExport => ErrorModel::UnknownExport,
        }
    }
}

/// What a host offers for an import or a module exports: its type.
#[derive(Debug)]
pub enum Extern {
    Func(Func),
    Table,
    Memory,
    Global,
}

/// Where a function stands in the store.
pub type FuncAddr = usize;

/// A host or guest entity in the store.
#[derive(Clone, Copy, Debug, PartialEq, Eq, Structural)]
pub enum ExternVal {
    Func(FuncAddr),
    Table(usize),
    Memory(usize),
    Global(usize),
}

/// A function of the WASI preview 1 interface.
#[derive(Clone, Copy, Debug, PartialEq, Eq, Structural)]
pub enum WasiFunc {
    ArgsSizesGet,
    ArgsGet,
    EnvironSizesGet,
    EnvironGet,
    FdWrite,
    FdRead,
    FdClose,
    FdSeek,
    FdTell,
    FdFdstatGet,
    PathOpen,
    FdPrestatGet,
    FdPrestatDirName,
    RandomGet,
    ClockResGet,
    ClockTimeGet,
    FdReaddir,
    ProcExit,
}

/// A function of the token stream interface.
#[derive(Clone, Copy, Debug, PartialEq, Eq, Structural)]
pub enum WattFunc {
    TokenStreamSerialize,
    TokenStreamDeserialize,
    TokenStreamParse,
    StringNew,
    LiteralToString,
    StringLen,
    BytesLen,
    StringRead,
    BytesRead,
    PrintPanic,
}

/// A function that the host provides.
#[derive(Clone, Copy, Debug, PartialEq, Eq, Structural)]
pub enum HostFunc {
    Watt(WattFunc),
    Wasi(WasiFunc),
}

/// A host function that was given a place in the store.
#[derive(Debug)]
pub struct FuncInst {
    pub ty: Func,
    pub code: HostFunc,
}

/// The host functions that modules were linked with.
#[derive(Debug)]
pub struct Store {
    pub funcs: Vec<FuncInst>,
}

/// An empty store.
pub fn init_store() -> (store: Store)
    ensures
        store.funcs@.len() == 0,
{
    Store { funcs: Vec::new() }
}

/// Gives a host function a place in the store.
pub fn alloc_func(store: &mut Store, ty: &Func, code: HostFunc) -> (addr: FuncAddr)
    ensures
        addr == old(store).funcs@.len(),
        final(store).funcs@.len() == addr + 1,
        final(store).funcs@.take(addr as int) == old(store).funcs@,
        final(store).funcs@[addr as int].code == code,
        final(store).funcs@[addr as int].ty.args@ == ty.args@,
        final(store).funcs@[addr as int].ty.result@ == ty.result@,
{
    let addr: usize = store.funcs.len();
    store.funcs.push(FuncInst { ty: ty.clone(), code });
    assert(store.funcs@.take(addr as int) =~= old(store).funcs@);
    addr
}

/// An export of an instantiated module.
#[derive(Debug)]
pub struct ExportInst {
    pub name: String,
    pub value: ExternVal,
}

/// An instantiated module.
#[derive(Debug)]
pub struct ModuleInst {
    pub exports: Vec<ExportInst>,
}

impl ModuleInst {
    /// What the module exports under a name, where it exports something under it.
    pub open spec fn export(&self, name: Seq<char>) -> Option<ExternVal> {
        first_export(self.exports@, name)
    }
}

/// The first of `exports` under a name.
pub open spec fn first_export(exports: Seq<ExportInst>, name: Seq<char>) -> Option<ExternVal>
    decreases exports.len(),
{
    if exports.len() == 0 {
        None
    } else if exports[0].name@ == name {
        Some(exports[0].value)
    } else {
        first_export(exports.drop_first(), name)
    }
}

/// Looks an export up by its name.
pub fn get_export(instance: &ModuleInst, name: &str) -> (value: Result<ExternVal, Error>)
    ensures
        match instance.export(name@) {
            Some(found) => value == Ok::<ExternVal, Error>(found),
            None => value == Err::<ExternVal, Error>(Error::UnknownExport),
        },
{
    let mut i: usize = 0;
    assert(instance.exports@.skip(0) =~= instance.exports@);
    while i < instance.exports.len()
        invariant
            i <= instance.exports@.len(),
            first_export(instance.exports@.skip(i as int), name@) == instance.export(name@),
        decreases instance.exports@.len() - i,
    {
        assert(instance.exports@.skip(i as int).drop_first() =~= instance.exports@.skip(i + 1));
        if same_text(instance.exports[i].name.as_str(), name) {
            return Ok(instance.exports[i].value);
        }
        i += 1;
    }
    Err(Error::UnknownExport)
}

/// The types of values.
pub proof fn law_types_of_values(word: u32, long: u64)
    ensures
        type_of(Value::I32(word)) == types::Value::Int(Int::I32),
        type_of(Value::I64(long)) == types::Value::Int(Int::I64),
        type_of(Value::F32(word)) == types::Value::Float(Float::F32),
        type_of(Value::F64(long)) == types::Value::Float(Float::F64),
{
}

/// An export is found by its name: the first one of that name, and none exactly if there is none of
/// that name.
pub proof fn law_exports_are_found(instance: &ModuleInst, name: Seq<char>)
    ensures
        instance.export(name) is None <==> forall|i: int|
            0 <= i < instance.exports@.len() ==> (#[trigger] instance.exports@[i]).name@ != name,
        forall|i: int|
            0 <= i < instance.exports@.len() && (#[trigger] instance.exports@[i]).name@ == name && (
            forall|j: int|
                0 <= j < i ==> (#[trigger] instance.exports@[j]).name@ != name) ==> instance.export(
                name,
            ) == Some(instance.exports@[i].value),
{
    lemma_first_export(instance.exports@, name);
}

/// The first export of a name.
proof fn lemma_first_export(exports: Seq<ExportInst>, name: Seq<char>)
    ensures
        first_export(exports, name) is None <==> forall|i: int|
            0 <= i < exports.len() ==> (#[trigger] exports[i]).name@ != name,
        forall|i: int|
            0 <= i < exports.len() && (#[trigger] exports[i]).name@ == name && (forall|j: int|
                0 <= j < i ==> (#[trigger] exports[j]).name@ != name) ==> first_export(
                exports,
                name,
            ) == Some(exports[i].value),
    decreases exports.len(),
{
    if exports.len() > 0 && exports[0].name@ != name {
        let rest = exports.drop_first();
        lemma_first_export(rest, name);
        assert forall|i: int| 0 <= i < rest.len() implies (#[trigger] rest[i]) == exports[i
            + 1] by {}
        if first_export(rest, name) is None {
            assert forall|i: int| 0 <= i < exports.len() implies (#[trigger] exports[i]).name@
                != name by {
                if i > 0 {
                    assert(rest[i - 1].name@ != name);
                }
            }
        } else {
            let k = choose|k: int| 0 <= k < rest.len() && (#[trigger] rest[k]).name@ == name;
            assert(exports[k + 1].name@ == name);
        }
        assert forall|i: int|
            0 <= i < exports.len() && (#[trigger] exports[i]).name@ == name && (forall|j: int|
                0 <= j < i ==> (#[trigger] exports[j]).name@
                    != name) implies first_export(exports, name) == Some(exports[i].value) by {
            assert(rest[i - 1] == exports[i]);
            assert forall|j: int| 0 <= j < i - 1 implies (#[trigger] rest[j]).name@ != name by {
                assert(exports[j + 1].name@ != name);
            }
        }
    }
}

/// What an error says is what its parts hold.
pub proof fn law_parts_of_errors(error: &Error)
    ensures
        match error {
            Error::UnsupportedImport { module, name } => error@ == (ErrorModel::UnsupportedImport {
                module: module@,
                name: name@,
            }),
            Error::UnsupportedImportSignature { module, name, expected, found } => error@ == (
            ErrorModel::UnsupportedImportSignature {
                module: module@,
                name: name@,
                expected: expected@,
                found: found@,
            }),
            Error::UnsupportedInstruction(op) => error@ == ErrorModel::UnsupportedInstruction(op@),
            Error::UnsupportedWasmFeature(feature) => error@ == ErrorModel::UnsupportedWasmFeature(
                feature@,
            ),
            Error::UnknownExport => error@ == ErrorModel::UnknownExport,
        },
{
}

} // verus!
