//! Linking a module with the host, and running a procedural macro.
use crate::data;
use crate::data::Data;
use crate::import;
use crate::import::is_watt;
use crate::import_wasi_p1;
use crate::import_wasi_p1::WASI_P1_MODULE;
use crate::module_support;
use crate::module_support::{
    ensure_wasm32_wasip1_proc_macro_module, import_unknown, non_func_error, signature_error,
};
use crate::runtime::ast::{Import, ImportDesc, Module};
use crate::runtime::types::{Func, Value as ValueType};
use crate::runtime::{
    alloc_func, get_export, init_store, Error, ErrorModel, Extern, ExternVal, FuncAddr, FuncInst,
    HostFunc, ModuleInst, Store, Value,
};
use crate::text::same_text;
use vstd::prelude::*;

verus! {

/// The host function for the import of a function, or why there is none.
pub open spec fn linked(
    module: Seq<char>,
    name: Seq<char>,
    args: Seq<ValueType>,
    result: Seq<ValueType>,
) -> Result<HostFunc, ErrorModel> {
    let found = if import::is_watt_module(module) {
        import::lookup(name, args, result)
    } else if module == WASI_P1_MODULE@ {
        import_wasi_p1::lookup(name, args, result)
    } else {
        Ok(None)
    };
    match found {
        Ok(Some(func)) => Ok(func),
        Ok(None) => Err(module_support::unknown_import(module, name)),
        Err(expected) => Err(
            module_support::wrong_signature(module, name, expected, args, result),
        ),
    }
}

/// Whether a function in a store is a host function with the given type.
pub open spec fn is_instance(
    inst: FuncInst,
    func: HostFunc,
    args: Seq<ValueType>,
    result: Seq<ValueType>,
) -> bool {
    &&& inst.code == func
    &&& inst.ty.args@ == args
    &&& inst.ty.result@ == result
}

/// Whether a host function with the given type was added to a store, and nothing else was done.
pub open spec fn func_added(
    before: Store,
    after: Store,
    func: HostFunc,
    args: Seq<ValueType>,
    result: Seq<ValueType>,
) -> bool {
    &&& after.funcs@.len() == before.funcs@.len() + 1
    &&& after.funcs@.drop_last() == before.funcs@
    &&& is_instance(after.funcs@.last(), func, args, result)
}

/// Links an import, given by the name of its module, its own name, and its type: adds the host
/// function for it to the store.
pub fn mk_host_func(import: (&str, &str, Extern), store: &mut Store) -> (value: Result<
    ExternVal,
    Error,
>)
    ensures
        match import.2 {
            Extern::Func(func) => match linked(import.0@, import.1@, func.args@, func.result@) {
                Ok(host) => {
                    &&& value == Ok::<ExternVal, Error>(
                        ExternVal::Func(old(store).funcs@.len() as usize),
                    )
                    &&& func_added(*old(store), *final(store), host, func.args@, func.result@)
                },
                Err(error) => {
                    &&& value matches Err(e) && e@ == error
                    &&& *final(store) == *old(store)
                },
            },
            _ => {
                &&& value matches Err(e) && e@ == module_support::not_a_function(
                    import.0@,
                    import.1@,
                )
                &&& *final(store) == *old(store)
            },
        },
{
    let (module, name, sig) = import;
    match sig {
        Extern::Func(func) => link_func(module, name, &func, store),
        _ => Err(non_func_error(module, name)),
    }
}

/// Links the import of a function.
fn link_func(module: &str, name: &str, func: &Func, store: &mut Store) -> (value: Result<
    ExternVal,
    Error,
>)
    ensures
        match linked(module@, name@, func.args@, func.result@) {
            Ok(host) => {
                &&& value == Ok::<ExternVal, Error>(
                    ExternVal::Func(old(store).funcs@.len() as usize),
                )
                &&& func_added(*old(store), *final(store), host, func.args@, func.result@)
            },
            Err(error) => {
                &&& value matches Err(e) && e@ == error
                &&& *final(store) == *old(store)
            },
        },
{
    let found: Result<Option<HostFunc>, &'static str> = if is_watt(module) {
        import::host_func(name, store, func)
    } else if same_text(module, WASI_P1_MODULE) {
        import_wasi_p1::host_func(name, func)
    } else {
        Ok(None)
    };
    match found {
        Ok(Some(host)) => {
            let addr: FuncAddr = alloc_func(store, func, host);
            assert(store.funcs@.drop_last() =~= store.funcs@.take(addr as int));
            Ok(ExternVal::Func(addr))
        },
        Ok(None) => Err(import_unknown(module, name)),
        Err(expected) => Err(signature_error(module, name, expected, func)),
    }
}

/// The host function for an import of a module, or why there is none.
pub open spec fn import_link(module: &Module, import: Import) -> Result<HostFunc, ErrorModel> {
    match import.desc {
        ImportDesc::Func(idx) => linked(
            import.module@,
            import.name@,
            module.types@[idx as int].args@,
            module.types@[idx as int].result@,
        ),
        _ => Err(module_support::not_a_function(import.module@, import.name@)),
    }
}

/// How many imports come before the first one that cannot be linked.
pub open spec fn linkable(module: &Module, from: nat) -> nat
    decreases module.imports@.len() - from,
{
    if from >= module.imports@.len() || import_link(module, module.imports@[from as int]) is Err {
        from
    } else {
        linkable(module, from + 1)
    }
}

/// Whether the first `n` imports of a module were linked: the store has the host function of each
/// at its end, in the order of the imports.
pub open spec fn imports_linked(module: &Module, before: Store, after: Store, n: nat) -> bool {
    &&& after.funcs@.len() == before.funcs@.len() + n
    &&& after.funcs@.take(before.funcs@.len() as int) == before.funcs@
    &&& forall|i: int|
        0 <= i < n ==> {
            let idx = (#[trigger] module.imports@[i]).desc->Func_0;
            is_instance(
                after.funcs@[before.funcs@.len() + i],
                import_link(module, module.imports@[i])->Ok_0,
                module.types@[idx as int].args@,
                module.types@[idx as int].result@,
            )
        }
}

/// Links the imports of a module, in their order.
pub fn extern_vals(module: &Module, store: &mut Store) -> (values: Result<Vec<ExternVal>, Error>)
    requires
        module.wf(),
    ensures
        imports_linked(module, *old(store), *final(store), linkable(module, 0)),
        if linkable(module, 0) >= module.imports@.len() {
            &&& values matches Ok(values) && values@ == Seq::new(
                module.imports@.len(),
                |i: int| ExternVal::Func((old(store).funcs@.len() + i) as usize),
            )
        } else {
            values matches Err(e) && e@ == import_link(
                module,
                module.imports@[linkable(module, 0) as int],
            )->Err_0
        },
{
    let ghost start = store.funcs@.len();
    let mut values: Vec<ExternVal> = Vec::new();
    let mut i: usize = 0;
    assert(store.funcs@.take(start as int) =~= store.funcs@);
    while i < module.imports.len()
        invariant
            i <= module.imports@.len(),
            module.wf(),
            start == old(store).funcs@.len(),
            linkable(module, 0) == linkable(module, i as nat),
            imports_linked(module, *old(store), *store, i as nat),
            values@ =~= Seq::new(
                i as nat,
                |j: int| ExternVal::Func((old(store).funcs@.len() + j) as usize),
            ),
        decreases module.imports@.len() - i,
    {
        let import: &Import = &module.imports[i];
        let ghost before = *store;
        let linked: Result<ExternVal, Error> = match import.desc {
            ImportDesc::Func(idx) => link_func(
                import.module.as_str(),
                import.name.as_str(),
                &module.types[idx as usize],
                store,
            ),
            _ => Err(non_func_error(import.module.as_str(), import.name.as_str())),
        };
        match linked {
            Ok(value) => {
                values.push(value);
                proof {
                    let now = store.funcs@;
                    assert(now.take(start as int) =~= before.funcs@.take(start as int)) by {
                        assert(now.drop_last().take(start as int) =~= now.take(start as int));
                    }
                    assert forall|j: int| 0 <= j < i + 1 implies ({
                        let idx = (#[trigger] module.imports@[j]).desc->Func_0;
                        is_instance(
                            now[start + j],
                            import_link(module, module.imports@[j])->Ok_0,
                            module.types@[idx as int].args@,
                            module.types@[idx as int].result@,
                        )
                    }) by {
                        if j < i {
                            assert(now[start + j] == now.drop_last()[start + j]);
                            assert(now[start + j] == before.funcs@[start + j]);
                        } else {
                            assert(now[start + j] == now.last());
                        }
                    }
                }
            },
            Err(error) => return Err(error),
        }
        i += 1;
    }
    Ok(values)
}

/// A host function is linked only with the types of its own signature: those of the arguments
/// that it takes and of what it gives back.
pub proof fn law_linked_with_own_signature(
    module: Seq<char>,
    name: Seq<char>,
    args: Seq<ValueType>,
    result: Seq<ValueType>,
)
    ensures
        linked(module, name, args, result) matches Ok(HostFunc::Wasi(func)) ==> args
            == import_wasi_p1::wasi_params(func) && result == import_wasi_p1::wasi_results(func),
        linked(module, name, args, result) matches Ok(HostFunc::Watt(func)) ==> args
            == import::watt_params(func) && result == import::watt_results(func),
{
}

/// Whether an import has a name of the token stream interface that stands for nothing.
pub open spec fn is_unknown_watt(import: Import) -> bool {
    import::is_watt_module(import.module@) && import::watt_func(import.name@) is None
}

/// An import is supported exactly if it can be linked, with the same error otherwise, unless it has
/// an unknown name of the token stream interface.
pub proof fn law_supported_imports_link(module: &Module, import: Import)
    requires
        !is_unknown_watt(import),
    ensures
        module_support::import_error(module, import) == (match import_link(module, import) {
            Ok(_) => None,
            Err(error) => Some(error),
        }),
{
}

/// A module that is supported can be linked, unless it imports an unknown name of the token stream
/// interface.
pub proof fn law_supported_modules_link(module: &Module)
    requires
        module_support::module_error(module) is None,
        forall|i: int|
            0 <= i < module.imports@.len() ==> !is_unknown_watt(#[trigger] module.imports@[i]),
    ensures
        linkable(module, 0) == module.imports@.len(),
{
    lemma_supported_from(module, 0);
}

/// From some import on, all can be linked.
proof fn lemma_supported_from(module: &Module, from: nat)
    requires
        from <= module.imports@.len(),
        module_support::module_error(module) is None,
        forall|i: int|
            0 <= i < module.imports@.len() ==> !is_unknown_watt(#[trigger] module.imports@[i]),
    ensures
        linkable(module, from) == module.imports@.len(),
    decreases module.imports@.len() - from,
{
    if from < module.imports@.len() {
        let import = module.imports@[from as int];
        lemma_no_import_error(module, module.imports@.len(), from as int);
        law_supported_imports_link(module, import);
        lemma_supported_from(module, from + 1);
    }
}

/// Where the first imports hold no error, none of them is one.
proof fn lemma_no_import_error(module: &Module, n: nat, i: int)
    requires
        0 <= i < n,
        module_support::first_import_error(module, n) is None,
    ensures
        module_support::import_error(module, module.imports@[i]) is None,
    decreases n,
{
    if i < n - 1 {
        lemma_no_import_error(module, (n - 1) as nat, i);
    }
}

/// Why a module is not instantiated.
#[derive(Debug, PartialEq, Eq)]
pub enum InstantiateError {
    /// It is not supported.
    Unsupported(Error),
    /// An import of it cannot be linked.
    Unresolved(Error),
}

/// The host functions that were linked.
#[derive(Debug)]
pub struct RuntimeState {
    pub store: Store,
}

impl RuntimeState {
    /// No host function linked yet.
    pub fn new() -> (state: RuntimeState)
        ensures
            state.store.funcs@.len() == 0,
    {
        RuntimeState { store: init_store() }
    }

    /// Checks a module and links its imports.
    pub fn instantiate(&mut self, module: &Module) -> (values: Result<
        Vec<ExternVal>,
        InstantiateError,
    >)
        requires
            module.wf(),
        ensures
            match module_support::module_error(module) {
                Some(error) => {
                    &&& values matches Err(InstantiateError::Unsupported(e)) && e@ == error
                    &&& *final(self) == *old(self)
                },
                None => {
                    &&& imports_linked(
                        module,
                        old(self).store,
                        final(self).store,
                        linkable(module, 0),
                    )
                    &&& if linkable(module, 0) >= module.imports@.len() {
                        values matches Ok(values) && values@ == Seq::new(
                            module.imports@.len(),
                            |i: int| ExternVal::Func((old(self).store.funcs@.len() + i) as usize),
                        )
                    } else {
                        values matches Err(InstantiateError::Unresolved(e)) && e@ == import_link(
                            module,
                            module.imports@[linkable(module, 0) as int],
                        )->Err_0
                    }
                },
            },
    {
        if let Err(error) = ensure_wasm32_wasip1_proc_macro_module(module) {
            return Err(InstantiateError::Unsupported(error));
        }
        match extern_vals(module, &mut self.store) {
            Ok(values) => Ok(values),
            Err(error) => Err(InstantiateError::Unresolved(error)),
        }
    }
}

/// The functions that a procedural macro is run with.
#[derive(Clone, Copy, Debug, PartialEq, Eq, Structural)]
pub struct Exports {
    pub main: FuncAddr,
    pub raw_to_token_stream: FuncAddr,
    pub token_stream_into_raw: FuncAddr,
}

/// The export that a module does not have.
#[derive(Clone, Copy, Debug, PartialEq, Eq, Structural)]
pub enum MissingExport {
    EntryPoint,
    RawToTokenStream,
    TokenStreamIntoRaw,
}

/// The function that a module exports under a name.
pub open spec fn exported_func(instance: &ModuleInst, name: Seq<char>) -> Option<FuncAddr> {
    match instance.export(name) {
        Some(ExternVal::Func(func)) => Some(func),
        _ => None,
    }
}

/// The functions that a procedural macro is run with, or the first one that is missing.
pub open spec fn exports_of(instance: &ModuleInst, entry_point: Seq<char>) -> Result<
    Exports,
    MissingExport,
> {
    match exported_func(instance, entry_point) {
        None => Err(MissingExport::EntryPoint),
        Some(main) => match exported_func(instance, "raw_to_token_stream"@) {
            None => Err(MissingExport::RawToTokenStream),
            Some(raw_to_token_stream) => match exported_func(
                instance,
                "token_stream_into_raw"@,
            ) {
                None => Err(MissingExport::TokenStreamIntoRaw),
                Some(token_stream_into_raw) => Ok(
                    Exports { main, raw_to_token_stream, token_stream_into_raw },
                ),
            },
        },
    }
}

impl Exports {
    /// Looks up the functions that a procedural macro is run with.
    pub fn collect(instance: &ModuleInst, entry_point: &str) -> (exports: Result<
        Exports,
        MissingExport,
    >)
        ensures
            exports == exports_of(instance, entry_point@),
    {
        let main: FuncAddr = match get_export(instance, entry_point) {
            Ok(ExternVal::Func(func)) => func,
            _ => return Err(MissingExport::EntryPoint),
        };
        let raw_to_token_stream: FuncAddr = match get_export(instance, "raw_to_token_stream") {
            Ok(ExternVal::Func(func)) => func,
            _ => return Err(MissingExport::RawToTokenStream),
        };
        let token_stream_into_raw: FuncAddr = match get_export(instance, "token_stream_into_raw") {
            Ok(ExternVal::Func(func)) => func,
            _ => return Err(MissingExport::TokenStreamIntoRaw),
        };
        Ok(Exports { main, raw_to_token_stream, token_stream_into_raw })
    }
}

/// Which call of a procedural macro is next.
#[derive(Clone, Copy, Debug, PartialEq, Eq, Structural)]
pub enum Stage {
    /// An input is to be made a token stream of the guest.
    Input(usize),
    /// The macro is to be run.
    Main,
    /// What the macro gave back is to be made known to the host.
    Output(Value),
}

/// A procedural macro that is being run: the numbers of its inputs, and what the guest made of
/// them so far.
#[derive(Debug)]
pub struct MacroCall {
    pub exports: Exports,
    pub raws: Vec<u32>,
    pub args: Vec<Value>,
    pub stage: Stage,
}

/// Why a procedural macro gives nothing back.
#[derive(Clone, Copy, Debug, PartialEq, Eq, Structural)]
pub enum MacroFailure {
    /// A call gave back more or less than one value.
    ResultCount,
    /// The output of the macro is known by something else than an `i32`.
    ResultType(Value),
}

/// How far a procedural macro has come.
#[derive(Debug)]
pub enum MacroStep {
    /// A function of the guest is to be called.
    Call(MacroCall),
    /// The macro is done. Its output is the token stream with this number.
    Done(u32),
    /// The macro gives nothing back.
    Failed(MacroFailure),
}

impl MacroCall {
    /// Whether the call that is next is one that can be next.
    pub open spec fn wf(&self) -> bool {
        self.stage matches Stage::Input(i) ==> i < self.raws@.len()
    }

    /// The function to call and its arguments.
    pub open spec fn wanted(&self) -> (FuncAddr, Seq<Value>) {
        match self.stage {
            Stage::Input(i) => (
                self.exports.raw_to_token_stream,
                seq![Value::I32(self.raws@[i as int])],
            ),
            Stage::Main => (self.exports.main, self.args@),
            Stage::Output(value) => (self.exports.token_stream_into_raw, seq![value]),
        }
    }

    /// The function to call and its arguments.
    pub fn call(&self) -> (wanted: (FuncAddr, Vec<Value>))
        requires
            self.wf(),
        ensures
            (wanted.0, wanted.1@) == self.wanted(),
    {
        match self.stage {
            Stage::Input(i) => {
                let args: Vec<Value> = vec![Value::I32(self.raws[i])];
                assert(args@ =~= self.wanted().1);
                (self.exports.raw_to_token_stream, args)
            },
            Stage::Main => {
                (self.exports.main, vstd::slice::slice_to_vec(self.args.as_slice()))
            },
            Stage::Output(value) => {
                let args: Vec<Value> = vec![value];
                assert(args@ =~= self.wanted().1);
                (self.exports.token_stream_into_raw, args)
            },
        }
    }

    /// Whether `step` is where a macro has come to when a call has given back `result`.
    pub open spec fn goes_on(&self, result: Seq<Value>, step: MacroStep) -> bool {
        if result.len() != 1 {
            step == MacroStep::Failed(MacroFailure::ResultCount)
        } else {
            match self.stage {
                Stage::Input(i) => {
                    &&& step matches MacroStep::Call(next)
                    &&& next.wf()
                    &&& next.exports == self.exports
                    &&& next.raws@ == self.raws@
                    &&& next.args@ == self.args@.push(result[0])
                    &&& next.stage == input_stage(self.raws@.len(), i + 1)
                },
                Stage::Main => {
                    &&& step matches MacroStep::Call(next)
                    &&& next.wf()
                    &&& next.exports == self.exports
                    &&& next.raws@ == self.raws@
                    &&& next.args@ == self.args@
                    &&& next.stage == Stage::Output(result[0])
                },
                Stage::Output(_) => match result[0] {
                    Value::I32(handle) => step == MacroStep::Done(handle),
                    value => step == MacroStep::Failed(MacroFailure::ResultType(value)),
                },
            }
        }
    }

    /// Goes on with a macro when a call has given back `result`.
    pub fn resume(self, result: Vec<Value>) -> (step: MacroStep)
        requires
            self.wf(),
        ensures
            self.goes_on(result@, step),
    {
        if result.len() != 1 {
            return MacroStep::Failed(MacroFailure::ResultCount);
        }
        let value: Value = result[0];
        let mut next = self;
        match next.stage {
            Stage::Input(i) => {
                next.args.push(value);
                next.stage = if next.raws.len() - i > 1 {
                    Stage::Input(i + 1)
                } else {
                    Stage::Main
                };
                MacroStep::Call(next)
            },
            Stage::Main => {
                next.stage = Stage::Output(value);
                MacroStep::Call(next)
            },
            Stage::Output(_) => match value {
                Value::I32(handle) => MacroStep::Done(handle),
                _ => MacroStep::Failed(MacroFailure::ResultType(value)),
            },
        }
    }
}

/// What is next when `i` of `n` inputs are token streams of the guest.
pub open spec fn input_stage(n: nat, i: int) -> Stage {
    if i < n {
        Stage::Input(i as usize)
    } else {
        Stage::Main
    }
}

/// Why a procedural macro cannot be started.
#[derive(Clone, Copy, Debug, PartialEq, Eq, Structural)]
pub enum StartError {
    Missing(MissingExport),
    /// There are more inputs than numbers for them.
    NoNumberLeft,
}

/// Starts a procedural macro: makes its inputs known by number. The macro is the function that
/// the module exports under the name `fun`.
pub fn proc_macro<T>(fun: &str, inputs: Vec<T>, instance: &ModuleInst, data: &mut Data<T>) -> (call:
    Result<MacroCall, StartError>)
    ensures
        match exports_of(instance, fun@) {
            Err(missing) => {
                &&& call == Err::<MacroCall, StartError>(StartError::Missing(missing))
                &&& *final(data) == *old(data)
            },
            Ok(_) if !data::numbers_suffice(old(data).tokenstream@.len() + inputs@.len()) => {
                &&& call == Err::<MacroCall, StartError>(StartError::NoNumberLeft)
                &&& *final(data) == *old(data)
            },
            Ok(exports) => {
                &&& call matches Ok(call)
                &&& call.wf()
                &&& call.exports == exports
                &&& call.raws@ == Seq::new(
                    inputs@.len(),
                    |i: int| (old(data).tokenstream@.len() + i) as u32,
                )
                &&& call.args@ == Seq::<Value>::empty()
                &&& call.stage == input_stage(inputs@.len(), 0)
                &&& *final(data) == (Data { tokenstream: final(data).tokenstream, ..*old(data) })
                &&& final(data).tokenstream@ == old(data).tokenstream@ + inputs@
            },
        },
{
    let exports: Exports = match Exports::collect(instance, fun) {
        Ok(exports) => exports,
        Err(missing) => return Err(StartError::Missing(missing)),
    };
    if !data.tokenstream.has_numbers(inputs.len()) {
        return Err(StartError::NoNumberLeft);
    }
    let mut raws: Vec<u32> = Vec::new();
    assert(data.tokenstream@ =~= old(data).tokenstream@ + inputs@.take(0));
    for input in it: inputs
        invariant
            it.seq() == inputs@,
            raws@ =~= Seq::new(
                it.index() as nat,
                |i: int| (old(data).tokenstream@.len() + i) as u32,
            ),
            *data == (Data { tokenstream: data.tokenstream, ..*old(data) }),
            data.tokenstream@ =~= old(data).tokenstream@ + inputs@.take(it.index()),
            data::numbers_suffice(old(data).tokenstream@.len() + inputs@.len()),
    {
        match data.tokenstream.push(input) {
            Some(raw) => raws.push(raw),
            None => return Err(StartError::NoNumberLeft),
        }
    }
    assert(inputs@.take(inputs@.len() as int) =~= inputs@);
    let stage: Stage = if raws.len() > 0 {
        Stage::Input(0)
    } else {
        Stage::Main
    };
    Ok(MacroCall { exports, raws, args: Vec::new(), stage })
}

/// Whether a macro has come to `after` when the first inputs were made the token streams
/// `replies` of the guest.
pub open spec fn inputs_done(before: MacroCall, after: MacroCall, replies: Seq<Value>) -> bool {
    &&& after.exports == before.exports
    &&& after.raws@ == before.raws@
    &&& after.args@ == replies
    &&& after.stage == input_stage(before.raws@.len(), replies.len() as int)
}

/// The inputs of a macro are made token streams of the guest one by one: after some of them the
/// guest is asked for the next one, and its reply is added to the arguments of the macro.
pub proof fn law_inputs_in_order(
    start: MacroCall,
    before: MacroCall,
    after: MacroCall,
    replies: Seq<Value>,
    reply: Value,
)
    requires
        start.raws@.len() <= usize::MAX,
        replies.len() < start.raws@.len(),
        inputs_done(start, before, replies),
        before.goes_on(seq![reply], MacroStep::Call(after)),
    ensures
        before.wanted() == (
            start.exports.raw_to_token_stream,
            seq![Value::I32(start.raws@[replies.len() as int])],
        ),
        inputs_done(start, after, replies.push(reply)),
{
}

/// When all inputs are token streams of the guest, the macro is called with them in their order;
/// what it gives back is handed to the guest once more; and the number that comes of that is the
/// output.
pub proof fn law_macro_output(
    start: MacroCall,
    ready: MacroCall,
    called: MacroCall,
    replies: Seq<Value>,
    output: Value,
    handle: u32,
)
    requires
        replies.len() == start.raws@.len(),
        inputs_done(start, ready, replies),
        ready.goes_on(seq![output], MacroStep::Call(called)),
    ensures
        ready.wanted() == (start.exports.main, replies),
        called.wanted() == (start.exports.token_stream_into_raw, seq![output]),
        called.goes_on(seq![Value::I32(handle)], MacroStep::Done(handle)),
{
}

/// Where an import of a function is looked up: by the name of its module. What is found is linked;
/// where nothing is found the import is unknown, and where something else is wanted the error says
/// what.
pub proof fn law_where_imports_are_looked_up(
    module: Seq<char>,
    name: Seq<char>,
    args: Seq<ValueType>,
    result: Seq<ValueType>,
)
    ensures
        ({
            let watt = module == "watt-0.4"@ || module == "watt-0.5"@;
            let wasi = module == "wasi_snapshot_preview1"@;
            let unknown = ErrorModel::UnsupportedImport { module, name };
            &&& watt ==> (linked(module, name, args, result) matches Ok(func)
                ==> import::lookup(name, args, result) == Ok::<Option<HostFunc>, Seq<char>>(
                Some(func),
            ))
            &&& watt ==> (import::lookup(name, args, result) matches Ok(Some(func)) ==> linked(
                module,
                name,
                args,
                result,
            ) == Ok::<HostFunc, ErrorModel>(func))
            &&& wasi ==> (import_wasi_p1::lookup(name, args, result) matches Ok(Some(func))
                ==> linked(module, name, args, result) == Ok::<HostFunc, ErrorModel>(func))
            &&& watt && import::watt_func(name) is None ==> linked(module, name, args, result)
                == Err::<HostFunc, ErrorModel>(unknown)
            &&& wasi && import_wasi_p1::wasi_func(name) is None ==> linked(
                module,
                name,
                args,
                result,
            ) == Err::<HostFunc, ErrorModel>(unknown)
            &&& !watt && !wasi ==> linked(module, name, args, result) == Err::<
                HostFunc,
                ErrorModel,
            >(unknown)
            &&& watt ==> (import::lookup(name, args, result) matches Err(expected) ==> linked(
                module,
                name,
                args,
                result,
            ) == Err::<HostFunc, ErrorModel>(
                ErrorModel::UnsupportedImportSignature {
                    module,
                    name,
                    expected,
                    found: crate::runtime::types::signature_text(args, result),
                },
            ))
            &&& wasi ==> (import_wasi_p1::lookup(name, args, result) matches Err(expected)
                ==> linked(module, name, args, result) == Err::<HostFunc, ErrorModel>(
                ErrorModel::UnsupportedImportSignature {
                    module,
                    name,
                    expected,
                    found: crate::runtime::types::signature_text(args, result),
                },
            ))
        }),
{
    reveal_strlit("watt-0.4");
    assert("watt-0.4"@.len() == 8);
    reveal_strlit("watt-0.5");
    assert("watt-0.5"@.len() == 8);
    reveal_strlit("wasi_snapshot_preview1");
    assert("wasi_snapshot_preview1"@.len() == 22);
}

/// An import of a function is linked by its names and its type; nothing else can be linked.
pub proof fn law_imports_are_linked_with_their_type(module: &Module, import: Import, idx: u32)
    ensures
        import.desc == ImportDesc::Func(idx) ==> import_link(module, import) == linked(
            import.module@,
            import.name@,
            module.types@[idx as int].args@,
            module.types@[idx as int].result@,
        ),
        !(import.desc is Func) ==> import_link(module, import) is Err,
{
}

/// Imports are linked up to the first one that cannot be.
pub proof fn law_imports_are_linked_up_to_an_error(module: &Module)
    ensures
        linkable(module, 0) <= module.imports@.len(),
        forall|i: int|
            0 <= i < linkable(module, 0) ==> import_link(
                module,
                #[trigger] module.imports@[i],
            ) is Ok,
        linkable(module, 0) < module.imports@.len() ==> import_link(
            module,
            module.imports@[linkable(module, 0) as int],
        ) is Err,
{
    lemma_linkable(module, 0);
}

/// From some import on, those before the first error can be linked.
proof fn lemma_linkable(module: &Module, from: nat)
    requires
        from <= module.imports@.len(),
    ensures
        from <= linkable(module, from) <= module.imports@.len(),
        forall|i: int|
            from <= i < linkable(module, from) ==> import_link(
                module,
                #[trigger] module.imports@[i],
            ) is Ok,
        linkable(module, from) < module.imports@.len() ==> import_link(
            module,
            module.imports@[linkable(module, from) as int],
        ) is Err,
    decreases module.imports@.len() - from,
{
    if from < module.imports@.len() && import_link(module, module.imports@[from as int]) is Ok {
        lemma_linkable(module, from + 1);
    }
}

/// Each import that was linked has its host function in the store, with its type, at its place
/// behind what was there; and what was there stays.
pub proof fn law_store_of_linked_imports(
    module: &Module,
    before: Store,
    after: Store,
    n: nat,
    i: int,
)
    requires
        imports_linked(module, before, after, n),
        0 <= i < after.funcs@.len(),
        n <= module.imports@.len(),
    ensures
        after.funcs@.len() == before.funcs@.len() + n,
        i < before.funcs@.len() ==> after.funcs@[i] == before.funcs@[i],
        i >= before.funcs@.len() ==> {
            let import = module.imports@[i - before.funcs@.len()];
            &&& (import_link(module, import) matches Ok(func) ==> after.funcs@[i].code == func)
            &&& (import.desc matches ImportDesc::Func(idx) ==> after.funcs@[i].ty.args@
                == module.types@[idx as int].args@ && after.funcs@[i].ty.result@
                == module.types@[idx as int].result@)
        },
{
    if i < before.funcs@.len() {
        assert(after.funcs@.take(before.funcs@.len() as int)[i] == before.funcs@[i]);
    } else {
        let j = i - before.funcs@.len();
        assert(is_instance(
            after.funcs@[before.funcs@.len() + j],
            import_link(module, module.imports@[j])->Ok_0,
            module.types@[module.imports@[j].desc->Func_0 as int].args@,
            module.types@[module.imports@[j].desc->Func_0 as int].result@,
        ));
    }
}

/// A host function that was added to a store stands at its end, with its type, and the others stay.
pub proof fn law_added_function(
    before: Store,
    after: Store,
    func: HostFunc,
    args: Seq<ValueType>,
    result: Seq<ValueType>,
)
    requires
        func_added(before, after, func, args, result),
    ensures
        after.funcs@.len() == before.funcs@.len() + 1,
        forall|i: int|
            0 <= i < before.funcs@.len() ==> (#[trigger] after.funcs@[i]) == before.funcs@[i],
        after.funcs@.last().code == func,
        after.funcs@.last().ty.args@ == args,
        after.funcs@.last().ty.result@ == result,
{
    assert forall|i: int| 0 <= i < before.funcs@.len() implies (#[trigger] after.funcs@[i])
        == before.funcs@[i] by {
        assert(after.funcs@.drop_last()[i] == after.funcs@[i]);
    }
}

/// A macro is run with the function that is named and with two others, by their names. The first
/// one that is not exported as a function is missed.
pub proof fn law_exports_of_macros(instance: &ModuleInst, entry_point: Seq<char>)
    ensures
        ({
            let main = instance.export(entry_point);
            let input = instance.export("raw_to_token_stream"@);
            let output = instance.export("token_stream_into_raw"@);
            let exports = exports_of(instance, entry_point);
            let has_main = main is Some && main->Some_0 is Func;
            let has_input = input is Some && input->Some_0 is Func;
            let has_output = output is Some && output->Some_0 is Func;
            &&& !has_main ==> exports == Err::<Exports, MissingExport>(MissingExport::EntryPoint)
            &&& has_main && !has_input ==> exports == Err::<Exports, MissingExport>(
                MissingExport::RawToTokenStream,
            )
            &&& has_main && has_input && !has_output ==> exports == Err::<Exports, MissingExport>(
                MissingExport::TokenStreamIntoRaw,
            )
            &&& has_main && has_input && has_output ==> {
                &&& exports matches Ok(found)
                &&& main == Some(ExternVal::Func(found.main))
                &&& input == Some(ExternVal::Func(found.raw_to_token_stream))
                &&& output == Some(ExternVal::Func(found.token_stream_into_raw))
            }
        }),
{
}

/// What is called next: the function for inputs with the number of the next one, the macro with
/// what was made of its inputs, the function for outputs with what the macro gave back.
pub proof fn law_next_calls(call: &MacroCall, i: usize, value: Value)
    ensures
        call.stage == Stage::Input(i) ==> call.wanted().0 == call.exports.raw_to_token_stream
            && call.wanted().1.len() == 1 && call.wanted().1[0] == Value::I32(call.raws@[i as int]),
        call.stage == Stage::Main ==> call.wanted().0 == call.exports.main && call.wanted().1
            == call.args@,
        call.stage == Stage::Output(value) ==> call.wanted().0
            == call.exports.token_stream_into_raw && call.wanted().1.len() == 1
            && call.wanted().1[0] == value,
{
}

/// How a macro goes on: each call has to give back one value. That of an input is added to the
/// arguments, and the next input or else the macro follows; that of the macro is its output, which
/// is handed to the guest once more; and that of the output is the number of a token stream.
pub proof fn law_macros_go_on(call: MacroCall, result: Seq<Value>, step: MacroStep)
    requires
        call.wf(),
        call.raws@.len() <= usize::MAX,
        call.goes_on(result, step),
    ensures
        result.len() != 1 ==> step == MacroStep::Failed(MacroFailure::ResultCount),
        result.len() == 1 && !(call.stage is Output) ==> {
            &&& step matches MacroStep::Call(next)
            &&& next.exports == call.exports
            &&& next.raws@ == call.raws@
            &&& (call.stage is Main ==> next.args@ == call.args@ && next.stage == Stage::Output(
                result[0],
            ))
            &&& (call.stage matches Stage::Input(i) ==> {
                &&& next.args@.len() == call.args@.len() + 1
                &&& next.args@.last() == result[0]
                &&& next.args@.drop_last() == call.args@
                &&& (i + 1 < call.raws@.len() ==> next.stage == Stage::Input((i + 1) as usize))
                &&& (i + 1 >= call.raws@.len() ==> next.stage == Stage::Main)
            })
        },
        result.len() == 1 && call.stage is Output ==> {
            &&& (result[0] matches Value::I32(handle) ==> step == MacroStep::Done(handle))
            &&& (!(result[0] is I32) ==> step == MacroStep::Failed(
                MacroFailure::ResultType(result[0]),
            ))
        },
{
    if result.len() == 1 && call.stage is Input {
        assert(call.args@.push(result[0]).drop_last() =~= call.args@);
    }
}

/// What follows when some of the inputs are token streams of the guest: the next one, or the macro
/// where there is none.
pub proof fn law_inputs_come_first(n: nat, i: int)
    requires
        0 <= i,
        n <= usize::MAX,
    ensures
        i < n ==> input_stage(n, i) == Stage::Input(i as usize),
        i >= n ==> input_stage(n, i) == Stage::Main,
{
}

} // verus!
