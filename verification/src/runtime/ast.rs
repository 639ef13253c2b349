//! The parts of a decoded module that decide whether it is supported.
use crate::runtime::types::Func;
use vstd::prelude::*;

verus! {

/// An operation on one integer.
#[derive(Clone, Copy, Debug, PartialEq, Eq, Structural)]
pub enum IUnOp {
    Clz,
    Ctz,
    Popcnt,
    Extend8S,
    Extend16S,
    Extend32S,
}

/// A conversion between number types.
#[derive(Clone, Copy, Debug, PartialEq, Eq, Structural)]
pub enum ConvertOp {
    /// A float to an integer, saturating.
    TruncSat,
    /// Any other conversion.
    Other,
}

/// A sequence of instructions.
pub type Expr = Vec<Instr>;

/// An instruction.
#[derive(Debug)]
pub enum Instr {
    Block(Expr),
    Loop(Expr),
    If(Expr, Expr),
    RefNull,
    RefIsNull,
    RefFunc(u32),
    MemoryCopy,
    MemoryFill,
    MemoryInit(u32),
    DataDrop(u32),
    TableInit(u32, u32),
    ElemDrop(u32),
    TableCopy(u32, u32),
    TableGrow(u32),
    TableSize(u32),
    TableFill(u32),
    IUnary(IUnOp),
    Convert(ConvertOp),
    /// An instruction of the first version of WebAssembly.
    Other,
}

/// What an import is.
#[derive(Clone, Copy, Debug, PartialEq, Eq, Structural)]
pub enum ImportDesc {
    /// A function, by the index of its type.
    Func(u32),
    Table,
    Memory,
    Global,
}

/// An import.
#[derive(Debug)]
pub struct Import {
    pub module: String,
    pub name: String,
    pub desc: ImportDesc,
}

/// A module, as far as its support is decided by it.
#[derive(Debug)]
pub struct Module {
    pub types: Vec<Func>,
    pub imports: Vec<Import>,
    /// The bodies of the functions.
    pub funcs: Vec<Expr>,
    /// The initial values of the globals.
    pub globals: Vec<Expr>,
    /// The offsets of the element segments.
    pub elems: Vec<Expr>,
    /// The offsets of the data segments.
    pub data: Vec<Expr>,
}

impl Module {
    /// Whether each imported function has a type.
    pub open spec fn wf(&self) -> bool {
        forall|i: int|
            0 <= i < self.imports@.len() ==> (#[trigger] self.imports@[i].desc matches
                ImportDesc::Func(idx) ==> (idx as int) < self.types@.len())
    }
}

} // verus!
