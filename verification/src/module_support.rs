//! Whether a module is supported, and what it makes use of.
use crate::import;
use crate::import::is_watt;
use crate::import_wasi_p1;
use crate::import_wasi_p1::WASI_P1_MODULE;
use crate::order;
use crate::order::TextSet;
use crate::runtime::ast::{ConvertOp, Expr, IUnOp, Import, ImportDesc, Instr, Module};
use crate::runtime::types;
use crate::runtime::types::{kind_text, Func, Value as ValueType};
use crate::runtime::{init_store, Error, ErrorModel, Store};
use crate::text;
use crate::text::{join_texts, same_text};
use vstd::prelude::*;
use vstd::string::StringExecFns;

verus! {

/// What a module makes use of. Each list is in the order of its texts, and holds none twice.
#[derive(Debug, PartialEq, Eq)]
pub struct ModuleCapabilityCensus {
    pub imports: Vec<String>,
    pub wasm_features: Vec<String>,
    pub special_instructions: Vec<String>,
}

/// The instruction that is not supported, if it is not.
pub open spec fn unsupported(instr: Instr) -> Option<Seq<char>> {
    match instr {
        Instr::MemoryInit(_) => Some("memory.init"@),
        Instr::DataDrop(_) => Some("data.drop"@),
        Instr::TableInit(_, _) => Some("table.init"@),
        Instr::ElemDrop(_) => Some("elem.drop"@),
        Instr::TableCopy(_, _) => Some("table.copy"@),
        Instr::TableGrow(_) => Some("table.grow"@),
        Instr::TableSize(_) => Some("table.size"@),
        Instr::TableFill(_) => Some("table.fill"@),
        _ => None,
    }
}

/// The feature that an instruction belongs to and the name that it is listed under, if it is
/// listed.
pub open spec fn capability(instr: Instr) -> Option<(Seq<char>, Seq<char>)> {
    match instr {
        Instr::RefNull => Some(("reference-types"@, "ref.null"@)),
        Instr::RefIsNull => Some(("reference-types"@, "ref.is_null"@)),
        Instr::RefFunc(_) => Some(("reference-types"@, "ref.func"@)),
        Instr::MemoryCopy => Some(("bulk-memory"@, "memory.copy"@)),
        Instr::MemoryFill => Some(("bulk-memory"@, "memory.fill"@)),
        Instr::IUnary(IUnOp::Extend8S) => Some(("sign-ext"@, "i.extend8_s"@)),
        Instr::IUnary(IUnOp::Extend16S) => Some(("sign-ext"@, "i.extend16_s"@)),
        Instr::IUnary(IUnOp::Extend32S) => Some(("sign-ext"@, "i64.extend32_s"@)),
        Instr::Convert(ConvertOp::TruncSat) => Some(("nontrapping-fptoint"@, "trunc_sat"@)),
        _ => None,
    }
}

/// The instructions of an expression in the order in which they are looked at: those that stand
/// in it first, then those of the bodies in it, the last body first.
pub open spec fn visit(expr: Expr) -> Seq<Instr>
    decreases expr, 0nat,
{
    expr@ + visit_bodies(expr@, expr@.len())
}

/// The instructions of the bodies in the first `n` instructions, the last body first.
pub open spec fn visit_bodies(instrs: Seq<Instr>, n: nat) -> Seq<Instr>
    decreases instrs, n,
{
    if n == 0 || n > instrs.len() {
        Seq::empty()
    } else {
        visit_body(instrs[n - 1]) + visit_bodies(instrs, (n - 1) as nat)
    }
}

/// The instructions of the bodies of an instruction.
pub open spec fn visit_body(instr: Instr) -> Seq<Instr>
    decreases instr, 0nat,
{
    match instr {
        Instr::Block(body) => visit(body),
        Instr::Loop(body) => visit(body),
        Instr::If(then_body, else_body) => visit(then_body) + visit(else_body),
        _ => Seq::empty(),
    }
}

/// The instructions of several expressions, the last expression first.
pub open spec fn visit_pending(pending: Seq<&Expr>) -> Seq<Instr>
    decreases pending.len(),
{
    if pending.len() == 0 {
        Seq::empty()
    } else {
        visit(*pending.last()) + visit_pending(pending.drop_last())
    }
}

/// The instructions of several expressions, one expression after the other.
pub open spec fn visit_all(exprs: Seq<Expr>) -> Seq<Instr>
    decreases exprs.len(),
{
    if exprs.len() == 0 {
        Seq::empty()
    } else {
        visit_all(exprs.drop_last()) + visit(exprs.last())
    }
}

/// All instructions of a module, in the order in which they are looked at.
pub open spec fn module_instrs(module: &Module) -> Seq<Instr> {
    visit_all(module.funcs@) + visit_all(module.globals@) + visit_all(module.elems@) + visit_all(
        module.data@,
    )
}

/// The first instruction that is not supported.
pub open spec fn first_unsupported(instrs: Seq<Instr>) -> Option<Seq<char>>
    decreases instrs.len(),
{
    if instrs.len() == 0 {
        None
    } else {
        match first_unsupported(instrs.drop_last()) {
            Some(op) => Some(op),
            None => unsupported(instrs.last()),
        }
    }
}

/// The features in `base` and those that the instructions belong to.
pub open spec fn features_of(base: Set<Seq<char>>, instrs: Seq<Instr>) -> Set<Seq<char>>
    decreases instrs.len(),
{
    if instrs.len() == 0 {
        base
    } else {
        let before = features_of(base, instrs.drop_last());
        match capability(instrs.last()) {
            Some((feature, _)) => before.insert(feature),
            None => before,
        }
    }
}

/// The names in `base` and those that the instructions are listed under.
pub open spec fn names_of(base: Set<Seq<char>>, instrs: Seq<Instr>) -> Set<Seq<char>>
    decreases instrs.len(),
{
    if instrs.len() == 0 {
        base
    } else {
        let before = names_of(base, instrs.drop_last());
        match capability(instrs.last()) {
            Some((_, name)) => before.insert(name),
            None => before,
        }
    }
}

/// What the first unsupported instruction is in two parts, one after the other.
proof fn lemma_first_unsupported_add(a: Seq<Instr>, b: Seq<Instr>)
    ensures
        first_unsupported(a + b) == (match first_unsupported(a) {
            Some(op) => Some(op),
            None => first_unsupported(b),
        }),
    decreases b.len(),
{
    if b.len() == 0 {
        assert(a + b =~= a);
    } else {
        lemma_first_unsupported_add(a, b.drop_last());
        assert((a + b).drop_last() =~= a + b.drop_last());
    }
}

/// What the capabilities are of two parts, one after the other.
proof fn lemma_capabilities_add(base: Set<Seq<char>>, a: Seq<Instr>, b: Seq<Instr>)
    ensures
        features_of(base, a + b) == features_of(features_of(base, a), b),
        names_of(base, a + b) == names_of(names_of(base, a), b),
    decreases b.len(),
{
    if b.len() == 0 {
        assert(a + b =~= a);
    } else {
        lemma_capabilities_add(base, a, b.drop_last());
        assert((a + b).drop_last() =~= a + b.drop_last());
    }
}

/// A feature is listed exactly if it was before or an instruction belongs to it.
pub proof fn law_features_are_those_used(
    base: Set<Seq<char>>,
    instrs: Seq<Instr>,
    feature: Seq<char>,
)
    ensures
        features_of(base, instrs).contains(feature) <==> base.contains(feature) || exists|i: int|
            0 <= i < instrs.len() && (capability(#[trigger] instrs[i]) matches Some((f, _)) && f
                == feature),
    decreases instrs.len(),
{
    if instrs.len() > 0 {
        let before = instrs.drop_last();
        law_features_are_those_used(base, before, feature);
        assert(forall|i: int| 0 <= i < before.len() ==> before[i] == instrs[i]);
        assert(instrs[instrs.len() - 1] == instrs.last());
        if exists|i: int|
            0 <= i < before.len() && (capability(#[trigger] before[i]) matches Some((f, _)) && f
                == feature) {
            let i = choose|i: int|
                0 <= i < before.len() && (capability(#[trigger] before[i]) matches Some((f, _))
                    && f == feature);
            assert(before[i] == instrs[i]);
        }
    }
}

/// An instruction is listed exactly if it was before or it is used.
pub proof fn law_names_are_those_used(base: Set<Seq<char>>, instrs: Seq<Instr>, name: Seq<char>)
    ensures
        names_of(base, instrs).contains(name) <==> base.contains(name) || exists|i: int|
            0 <= i < instrs.len() && (capability(#[trigger] instrs[i]) matches Some((_, n)) && n
                == name),
    decreases instrs.len(),
{
    if instrs.len() > 0 {
        let before = instrs.drop_last();
        law_names_are_those_used(base, before, name);
        assert(forall|i: int| 0 <= i < before.len() ==> before[i] == instrs[i]);
        assert(instrs[instrs.len() - 1] == instrs.last());
        if exists|i: int|
            0 <= i < before.len() && (capability(#[trigger] before[i]) matches Some((_, n)) && n
                == name) {
            let i = choose|i: int|
                0 <= i < before.len() && (capability(#[trigger] before[i]) matches Some((_, n))
                    && n == name);
            assert(before[i] == instrs[i]);
        }
    }
}

/// The unsupported instructions are found wherever they stand: there is none exactly if each
/// instruction is supported.
pub proof fn law_unsupported_is_found(instrs: Seq<Instr>)
    ensures
        first_unsupported(instrs) is None <==> forall|i: int|
            0 <= i < instrs.len() ==> unsupported(#[trigger] instrs[i]) is None,
    decreases instrs.len(),
{
    if instrs.len() > 0 {
        let before = instrs.drop_last();
        law_unsupported_is_found(before);
        assert(instrs[instrs.len() - 1] == instrs.last());
        if first_unsupported(before) is Some {
            let i = choose|i: int|
                0 <= i < before.len() && unsupported(#[trigger] before[i]) is Some;
            assert(before[i] == instrs[i]);
        } else {
            assert forall|i: int| 0 <= i < before.len() implies unsupported(
                #[trigger] instrs[i],
            ) is None by {
                assert(before[i] == instrs[i]);
            }
        }
    }
}

/// The instruction that is not supported, if it is not.
fn unsupported_op(instr: &Instr) -> (op: Option<&'static str>)
    ensures
        match op {
            Some(op) => unsupported(*instr) == Some(op@),
            None => unsupported(*instr) is None,
        },
{
    match instr {
        Instr::MemoryInit(_) => Some("memory.init"),
        Instr::DataDrop(_) => Some("data.drop"),
        Instr::TableInit(_, _) => Some("table.init"),
        Instr::ElemDrop(_) => Some("elem.drop"),
        Instr::TableCopy(_, _) => Some("table.copy"),
        Instr::TableGrow(_) => Some("table.grow"),
        Instr::TableSize(_) => Some("table.size"),
        Instr::TableFill(_) => Some("table.fill"),
        _ => None,
    }
}

/// The feature that an instruction belongs to and the name that it is listed under, if it is
/// listed.
fn capability_of(instr: &Instr) -> (found: Option<(&'static str, &'static str)>)
    ensures
        match found {
            Some((feature, name)) => capability(*instr) == Some((feature@, name@)),
            None => capability(*instr) is None,
        },
{
    match instr {
        Instr::RefNull => Some(("reference-types", "ref.null")),
        Instr::RefIsNull => Some(("reference-types", "ref.is_null")),
        Instr::RefFunc(_) => Some(("reference-types", "ref.func")),
        Instr::MemoryCopy => Some(("bulk-memory", "memory.copy")),
        Instr::MemoryFill => Some(("bulk-memory", "memory.fill")),
        Instr::IUnary(op) => match op {
            IUnOp::Extend8S => Some(("sign-ext", "i.extend8_s")),
            IUnOp::Extend16S => Some(("sign-ext", "i.extend16_s")),
            IUnOp::Extend32S => Some(("sign-ext", "i64.extend32_s")),
            _ => None,
        },
        Instr::Convert(ConvertOp::TruncSat) => Some(("nontrapping-fptoint", "trunc_sat")),
        _ => None,
    }
}

/// Lists what the instructions of an expression make use of; an error for the first one that is
/// not supported.
fn collect_expr_capabilities(
    expr: &Expr,
    features: &mut TextSet,
    instructions: &mut TextSet,
) -> (result: Result<(), Error>)
    requires
        old(features).wf(),
        old(instructions).wf(),
    ensures
        match first_unsupported(visit(*expr)) {
            Some(op) => result matches Err(error) && error@ == ErrorModel::UnsupportedInstruction(
                op,
            ),
            None => {
                &&& result is Ok
                &&& final(features).wf()
                &&& final(features).list().to_set() == features_of(
                    old(features).list().to_set(),
                    visit(*expr),
                )
                &&& final(instructions).wf()
                &&& final(instructions).list().to_set() == names_of(
                    old(instructions).list().to_set(),
                    visit(*expr),
                )
            },
        },
{
    let mut pending: Vec<&Expr> = vec![expr];
    let ghost mut seen: Seq<Instr> = Seq::empty();
    proof {
        assert(pending@.drop_last() =~= Seq::<&Expr>::empty());
        reveal_with_fuel(visit_pending, 2);
        assert(seen + visit_pending(pending@) =~= visit(*expr));
    }
    while pending.len() > 0
        invariant
            seen + visit_pending(pending@) == visit(*expr),
            first_unsupported(seen) is None,
            features.wf(),
            features.list().to_set() == features_of(old(features).list().to_set(), seen),
            instructions.wf(),
            instructions.list().to_set() == names_of(old(instructions).list().to_set(), seen),
        decreases visit_pending(pending@).len(), pending@.len(),
    {
        let ghost before = pending@;
        let body: &Expr = pending[pending.len() - 1];
        pending.pop();
        let ghost rest = pending@;
        let ghost seen_before = seen;
        proof {
            assert(rest =~= before.drop_last());
            assert(seen_before + visit_pending(before) =~= seen_before + visit(*body)
                + visit_pending(rest));
        }
        let mut i: usize = 0;
        proof {
            assert(seen =~= seen_before + body@.take(0));
            assert(visit_pending(pending@) =~= visit_bodies(body@, 0) + visit_pending(rest));
        }
        while i < body.len()
            invariant
                i <= body@.len(),
                visit(*expr) == seen_before + visit(*body) + visit_pending(rest),
                seen == seen_before + body@.take(i as int),
                visit_pending(pending@) == visit_bodies(body@, i as nat) + visit_pending(rest),
                i == 0 ==> pending@ == rest,
                first_unsupported(seen) is None,
                features.wf(),
                features.list().to_set() == features_of(old(features).list().to_set(), seen),
                instructions.wf(),
                instructions.list().to_set() == names_of(old(instructions).list().to_set(), seen),
            decreases body@.len() - i,
        {
            let instr: &Instr = &body[i];
            let ghost next = seen.push(*instr);
            proof {
                assert(next.drop_last() =~= seen);
                assert(next =~= seen_before + body@.take(i + 1));
                let tail = body@.skip(i + 1) + visit_bodies(body@, body@.len()) + visit_pending(
                    rest,
                );
                assert(visit(*expr) =~= next + tail);
                lemma_first_unsupported_add(next, tail);
            }
            if let Some(op) = unsupported_op(instr) {
                return Err(Error::UnsupportedInstruction(op));
            }
            if let Some((feature, name)) = capability_of(instr) {
                features.insert(feature.to_owned());
                instructions.insert(name.to_owned());
            }
            let ghost pending_before = pending@;
            match instr {
                Instr::Block(inner) | Instr::Loop(inner) => {
                    pending.push(inner);
                    assert(pending@.drop_last() =~= pending_before);
                },
                Instr::If(then_body, else_body) => {
                    pending.push(else_body);
                    assert(pending@.drop_last() =~= pending_before);
                    let ghost with_else = pending@;
                    assert(visit_pending(with_else) == visit(*else_body) + visit_pending(
                        pending_before,
                    ));
                    pending.push(then_body);
                    assert(pending@.drop_last() =~= with_else);
                    assert(visit_pending(pending@) == visit(*then_body) + visit_pending(with_else));
                },
                _ => {},
            }
            proof {
                assert(visit_pending(pending@) =~= visit_body(*instr) + visit_pending(
                    pending_before,
                ));
                assert(visit_pending(pending@) =~= visit_bodies(body@, (i + 1) as nat)
                    + visit_pending(rest));
                seen = next;
            }
            i += 1;
        }
        proof {
            assert(body@.take(i as int) =~= body@);
            assert(seen + visit_pending(pending@) =~= seen_before + visit(*body)
                + visit_pending(rest));
        }
    }
    assert(seen + visit_pending(pending@) =~= seen);
    Ok(())
}

/// The instructions of an expression in the order in which they are written.
pub open spec fn written(expr: Expr) -> Seq<Instr>
    decreases expr, 0nat,
{
    written_first(expr@, expr@.len())
}

/// The first `n` instructions with their bodies, in the order in which they are written.
pub open spec fn written_first(instrs: Seq<Instr>, n: nat) -> Seq<Instr>
    decreases instrs, n,
{
    if n == 0 || n > instrs.len() {
        Seq::empty()
    } else {
        written_first(instrs, (n - 1) as nat) + (seq![instrs[n - 1]] + written_body(instrs[n - 1]))
    }
}

/// The instructions of the bodies of an instruction, in the order in which they are written.
pub open spec fn written_body(instr: Instr) -> Seq<Instr>
    decreases instr, 0nat,
{
    match instr {
        Instr::Block(body) => written(body),
        Instr::Loop(body) => written(body),
        Instr::If(then_body, else_body) => written(then_body) + written(else_body),
        _ => Seq::empty(),
    }
}

/// Each instruction of an expression is looked at, at any depth, as often as it is written.
pub proof fn law_visit_reaches_all(expr: Expr)
    ensures
        visit(expr).to_multiset() == written(expr).to_multiset(),
    decreases expr, 0nat,
{
    lemma_visit_first(expr@, expr@.len());
    assert(expr@.take(expr@.len() as int) =~= expr@);
}

/// The first `n` instructions and their bodies are looked at as often as they are written.
proof fn lemma_visit_first(instrs: Seq<Instr>, n: nat)
    requires
        n <= instrs.len(),
    ensures
        (instrs.take(n as int) + visit_bodies(instrs, n)).to_multiset() == written_first(
            instrs,
            n,
        ).to_multiset(),
    decreases instrs, n,
{
    if n == 0 {
        assert(instrs.take(0) + visit_bodies(instrs, 0) =~= written_first(instrs, 0));
    } else {
        let k = (n - 1) as nat;
        let instr = instrs[n - 1];
        lemma_visit_first(instrs, k);
        lemma_visit_body(instr);
        let first = instrs.take(k as int);
        let body = visit_body(instr);
        let bodies = visit_bodies(instrs, k);
        assert(instrs.take(n as int) =~= first + seq![instr]);
        vstd::seq_lib::lemma_multiset_commutative(first, seq![instr]);
        vstd::seq_lib::lemma_multiset_commutative(first + seq![instr], body + bodies);
        vstd::seq_lib::lemma_multiset_commutative(body, bodies);
        vstd::seq_lib::lemma_multiset_commutative(first, bodies);
        vstd::seq_lib::lemma_multiset_commutative(seq![instr], written_body(instr));
        vstd::seq_lib::lemma_multiset_commutative(
            written_first(instrs, k),
            seq![instr] + written_body(instr),
        );
        assert((instrs.take(n as int) + visit_bodies(instrs, n)).to_multiset()
            =~= written_first(instrs, n).to_multiset());
    }
}

/// The bodies of an instruction are looked at as often as they are written.
proof fn lemma_visit_body(instr: Instr)
    ensures
        visit_body(instr).to_multiset() == written_body(instr).to_multiset(),
    decreases instr, 0nat,
{
    match instr {
        Instr::Block(body) => {
            law_visit_reaches_all(body);
        },
        Instr::Loop(body) => {
            law_visit_reaches_all(body);
        },
        Instr::If(then_body, else_body) => {
            law_visit_reaches_all(then_body);
            law_visit_reaches_all(else_body);
            vstd::seq_lib::lemma_multiset_commutative(visit(then_body), visit(else_body));
            vstd::seq_lib::lemma_multiset_commutative(written(then_body), written(else_body));
        },
        _ => {},
    }
}

/// That an import is unknown.
pub open spec fn unknown_import(module: Seq<char>, name: Seq<char>) -> ErrorModel {
    ErrorModel::UnsupportedImport { module, name }
}

/// That an import has another signature than it should have.
pub open spec fn wrong_signature(
    module: Seq<char>,
    name: Seq<char>,
    expected: Seq<char>,
    args: Seq<ValueType>,
    result: Seq<ValueType>,
) -> ErrorModel {
    ErrorModel::UnsupportedImportSignature {
        module,
        name,
        expected,
        found: types::signature_text(args, result),
    }
}

/// That an import is no function.
pub open spec fn not_a_function(module: Seq<char>, name: Seq<char>) -> ErrorModel {
    ErrorModel::UnsupportedImportSignature {
        module,
        name,
        expected: "func"@,
        found: "non-func import"@,
    }
}

/// Why the import of a function is not supported, if it is not. An unknown name of the token
/// stream interface is let through; it is an error when the module is linked.
pub open spec fn func_error(
    module: Seq<char>,
    name: Seq<char>,
    args: Seq<ValueType>,
    result: Seq<ValueType>,
) -> Option<ErrorModel> {
    if import::is_watt_module(module) {
        match import::lookup(name, args, result) {
            Ok(_) => None,
            Err(expected) => Some(wrong_signature(module, name, expected, args, result)),
        }
    } else if module == WASI_P1_MODULE@ {
        match import_wasi_p1::lookup(name, args, result) {
            Ok(Some(_)) => None,
            Ok(None) => Some(unknown_import(module, name)),
            Err(expected) => Some(wrong_signature(module, name, expected, args, result)),
        }
    } else {
        Some(unknown_import(module, name))
    }
}

/// Why an import is not supported, if it is not.
pub open spec fn import_error(module: &Module, import: Import) -> Option<ErrorModel> {
    match import.desc {
        ImportDesc::Func(idx) => func_error(
            import.module@,
            import.name@,
            module.types@[idx as int].args@,
            module.types@[idx as int].result@,
        ),
        _ => Some(not_a_function(import.module@, import.name@)),
    }
}

/// Why the first unsupported one of the first `n` imports is not supported.
pub open spec fn first_import_error(module: &Module, n: nat) -> Option<ErrorModel>
    decreases n,
{
    if n == 0 {
        None
    } else {
        match first_import_error(module, (n - 1) as nat) {
            Some(error) => Some(error),
            None => import_error(module, module.imports@[n - 1]),
        }
    }
}

/// Why a module is not supported, if it is not. Imports come before instructions.
pub open spec fn module_error(module: &Module) -> Option<ErrorModel> {
    match first_import_error(module, module.imports@.len()) {
        Some(error) => Some(error),
        None => match first_unsupported(module_instrs(module)) {
            Some(op) => Some(ErrorModel::UnsupportedInstruction(op)),
            None => None,
        },
    }
}

/// How an import is listed.
pub open spec fn import_text(import: Import) -> Seq<char> {
    import.module@ + "::"@ + import.name@
}

/// How the imports are listed.
pub open spec fn import_texts(imports: Seq<Import>) -> Seq<Seq<char>> {
    Seq::new(imports.len(), |i: int| import_text(imports[i]))
}

/// The feature that the imports make use of, if they do.
pub open spec fn import_features(imports: Seq<Import>) -> Set<Seq<char>>
    decreases imports.len(),
{
    if imports.len() == 0 {
        Set::empty()
    } else if imports.last().module@ == WASI_P1_MODULE@ {
        import_features(imports.drop_last()).insert("wasi-preview1"@)
    } else {
        import_features(imports.drop_last())
    }
}

/// The one feature of imports is listed exactly if a function of WASI preview 1 is imported.
pub proof fn law_import_feature(imports: Seq<Import>, feature: Seq<char>)
    ensures
        import_features(imports).contains(feature) <==> feature == "wasi-preview1"@ && exists|
            i: int,
        | 0 <= i < imports.len() && (#[trigger] imports[i]).module@ == WASI_P1_MODULE@,
    decreases imports.len(),
{
    if imports.len() > 0 {
        let before = imports.drop_last();
        law_import_feature(before, feature);
        assert(imports[imports.len() - 1] == imports.last());
        if exists|i: int|
            0 <= i < before.len() && (#[trigger] before[i]).module@ == WASI_P1_MODULE@ {
            let i = choose|i: int|
                0 <= i < before.len() && (#[trigger] before[i]).module@ == WASI_P1_MODULE@;
            assert(imports[i] == before[i]);
        }
        if exists|i: int|
            0 <= i < imports.len() && (#[trigger] imports[i]).module@ == WASI_P1_MODULE@ {
            let i = choose|i: int|
                0 <= i < imports.len() && (#[trigger] imports[i]).module@ == WASI_P1_MODULE@;
            if i < before.len() {
                assert(imports[i] == before[i]);
            }
        }
    }
}

/// A module has one census: two that list what it makes use of say the same.
pub proof fn law_census_is_unique(
    module: &Module,
    a: &ModuleCapabilityCensus,
    b: &ModuleCapabilityCensus,
)
    requires
        is_census(module, a),
        is_census(module, b),
    ensures
        text::texts(a.imports@) == text::texts(b.imports@),
        text::texts(a.wasm_features@) == text::texts(b.wasm_features@),
        text::texts(a.special_instructions@) == text::texts(b.special_instructions@),
{
    order::law_sorted_list_is_unique(text::texts(a.imports@), text::texts(b.imports@));
    order::law_sorted_list_is_unique(text::texts(a.wasm_features@), text::texts(b.wasm_features@));
    order::law_sorted_list_is_unique(
        text::texts(a.special_instructions@),
        text::texts(b.special_instructions@),
    );
}

/// Whether a census lists what a module makes use of.
pub open spec fn is_census(module: &Module, census: &ModuleCapabilityCensus) -> bool {
    let imports = text::texts(census.imports@);
    let features = text::texts(census.wasm_features@);
    let names = text::texts(census.special_instructions@);
    &&& order::strictly_sorted(imports)
    &&& imports.to_set() == import_texts(module.imports@).to_set()
    &&& order::strictly_sorted(features)
    &&& features.to_set() == features_of(
        import_features(module.imports@),
        module_instrs(module),
    )
    &&& order::strictly_sorted(names)
    &&& names.to_set() == names_of(Set::empty(), module_instrs(module))
}

/// Appends a list of types.
fn append_types(out: &mut String, values: &Vec<ValueType>)
    ensures
        final(out)@ == old(out)@ + types::type_list(values@),
{
    let ghost before = out@;
    let mut i: usize = 0;
    proof {
        types::lemma_type_list_push(values@, types::word());
        assert(values@.take(0) =~= Seq::<ValueType>::empty());
        assert(out@ =~= before + types::type_list(values@.take(0)));
    }
    while i < values.len()
        invariant
            i <= values@.len(),
            out@ == before + types::type_list(values@.take(i as int)),
        decreases values@.len() - i,
    {
        proof {
            types::lemma_type_list_push(values@.take(i as int), values@[i as int]);
            if i == 0 {
                assert(values@.take(1) =~= seq![values@[0]]);
                assert(values@.take(0) =~= Seq::<ValueType>::empty());
            } else {
                assert(values@.take(i + 1) =~= values@.take(i as int).push(values@[i as int]));
            }
        }
        if i > 0 {
            out.append(", ");
        }
        out.append(kind_text(values[i]));
        assert(out@ =~= before + types::type_list(values@.take(i + 1)));
        i += 1;
    }
    assert(values@.take(i as int) =~= values@);
}

/// How the type of a function is written.
pub fn format_func_sig(func: &Func) -> (text: String)
    ensures
        text@ == types::signature_text(func.args@, func.result@),
{
    let mut text: String = String::from_str("(");
    append_types(&mut text, &func.args);
    text.append(") -> (");
    append_types(&mut text, &func.result);
    text.append(")");
    text
}

/// Whether the import of a function is supported.
fn check_func(module: &str, name: &str, func: &Func, store: &Store) -> (result: Result<(), Error>)
    ensures
        match func_error(module@, name@, func.args@, func.result@) {
            Some(error) => result matches Err(e) && e@ == error,
            None => result is Ok,
        },
{
    if is_watt(module) {
        return match import::host_func(name, store, func) {
            Ok(_) => Ok(()),
            Err(expected) => Err(signature_error(module, name, expected, func)),
        };
    }
    if same_text(module, WASI_P1_MODULE) {
        return match import_wasi_p1::host_func(name, func) {
            Ok(Some(_)) => Ok(()),
            Ok(None) => Err(import_unknown(module, name)),
            Err(expected) => Err(signature_error(module, name, expected, func)),
        };
    }
    Err(import_unknown(module, name))
}

/// That an import is unknown.
pub fn import_unknown(module: &str, name: &str) -> (error: Error)
    ensures
        error@ == unknown_import(module@, name@),
{
    Error::UnsupportedImport { module: module.to_owned(), name: name.to_owned() }
}

/// That an import has another signature than it should have.
pub fn signature_error(module: &str, name: &str, expected: &str, func: &Func) -> (error: Error)
    ensures
        error@ == wrong_signature(module@, name@, expected@, func.args@, func.result@),
{
    Error::UnsupportedImportSignature {
        module: module.to_owned(),
        name: name.to_owned(),
        expected: expected.to_owned(),
        found: format_func_sig(func),
    }
}

/// That an import is no function.
pub fn non_func_error(module: &str, name: &str) -> (error: Error)
    ensures
        error@ == not_a_function(module@, name@),
{
    Error::UnsupportedImportSignature {
        module: module.to_owned(),
        name: name.to_owned(),
        expected: "func".to_owned(),
        found: "non-func import".to_owned(),
    }
}

/// Lists what several expressions make use of; an error for the first instruction that is not
/// supported.
fn collect_all(exprs: &Vec<Expr>, features: &mut TextSet, instructions: &mut TextSet) -> (result:
    Result<(), Error>)
    requires
        old(features).wf(),
        old(instructions).wf(),
    ensures
        match first_unsupported(visit_all(exprs@)) {
            Some(op) => result matches Err(error) && error@ == ErrorModel::UnsupportedInstruction(
                op,
            ),
            None => {
                &&& result is Ok
                &&& final(features).wf()
                &&& final(features).list().to_set() == features_of(
                    old(features).list().to_set(),
                    visit_all(exprs@),
                )
                &&& final(instructions).wf()
                &&& final(instructions).list().to_set() == names_of(
                    old(instructions).list().to_set(),
                    visit_all(exprs@),
                )
            },
        },
{
    let mut i: usize = 0;
    assert(exprs@.take(0) =~= Seq::<Expr>::empty());
    while i < exprs.len()
        invariant
            i <= exprs@.len(),
            first_unsupported(visit_all(exprs@.take(i as int))) is None,
            features.wf(),
            features.list().to_set() == features_of(
                old(features).list().to_set(),
                visit_all(exprs@.take(i as int)),
            ),
            instructions.wf(),
            instructions.list().to_set() == names_of(
                old(instructions).list().to_set(),
                visit_all(exprs@.take(i as int)),
            ),
        decreases exprs@.len() - i,
    {
        let ghost seen = visit_all(exprs@.take(i as int));
        let ghost here = visit(exprs@[i as int]);
        proof {
            assert(exprs@.take(i + 1).drop_last() =~= exprs@.take(i as int));
            assert(exprs@.take(i + 1).last() == exprs@[i as int]);
            lemma_first_unsupported_add(seen, here);
            lemma_capabilities_add(old(features).list().to_set(), seen, here);
            lemma_capabilities_add(old(instructions).list().to_set(), seen, here);
        }
        if let Err(error) = collect_expr_capabilities(&exprs[i], features, instructions) {
            proof {
                lemma_visit_all_prefix(exprs@, (i + 1) as nat);
            }
            return Err(error);
        }
        i += 1;
    }
    assert(exprs@.take(i as int) =~= exprs@);
    Ok(())
}

/// What is unsupported in the first expressions is what is unsupported in all of them.
proof fn lemma_visit_all_prefix(exprs: Seq<Expr>, n: nat)
    requires
        n <= exprs.len(),
        first_unsupported(visit_all(exprs.take(n as int))) is Some,
    ensures
        first_unsupported(visit_all(exprs)) == first_unsupported(visit_all(exprs.take(n as int))),
    decreases exprs.len(),
{
    if n == exprs.len() {
        assert(exprs.take(n as int) =~= exprs);
    } else {
        assert(exprs.drop_last().take(n as int) =~= exprs.take(n as int));
        lemma_visit_all_prefix(exprs.drop_last(), n);
        lemma_first_unsupported_add(visit_all(exprs.drop_last()), visit(exprs.last()));
    }
}

/// Lists the imports of a module and the feature that they make use of; an error for the first
/// one that is not supported.
fn collect_imports(module: &Module, imports: &mut TextSet, features: &mut TextSet) -> (result:
    Result<(), Error>)
    requires
        module.wf(),
        old(imports).wf(),
        old(imports).list().to_set() == Set::<Seq<char>>::empty(),
        old(features).wf(),
        old(features).list().to_set() == Set::<Seq<char>>::empty(),
    ensures
        match first_import_error(module, module.imports@.len()) {
            Some(error) => result matches Err(e) && e@ == error,
            None => {
                &&& result is Ok
                &&& final(imports).wf()
                &&& final(imports).list().to_set() == import_texts(module.imports@).to_set()
                &&& final(features).wf()
                &&& final(features).list().to_set() == import_features(module.imports@)
            },
        },
{
    let store = init_store();
    let ghost all = module.imports@;
    let mut i: usize = 0;
    proof {
        assert(import_texts(all.take(0)).to_set() =~= Set::<Seq<char>>::empty());
        assert(all.take(0) =~= Seq::<Import>::empty());
    }
    while i < module.imports.len()
        invariant
            i <= module.imports@.len(),
            all == module.imports@,
            module.wf(),
            first_import_error(module, i as nat) is None,
            imports.wf(),
            imports.list().to_set() == import_texts(all.take(i as int)).to_set(),
            features.wf(),
            features.list().to_set() == import_features(all.take(i as int)),
        decreases module.imports@.len() - i,
    {
        let import: &Import = &module.imports[i];
        proof {
            let before = import_texts(all.take(i as int));
            let after = import_texts(all.take(i + 1));
            assert(after =~= before.push(import_text(*import)));
            assert(after.to_set() =~= before.to_set().insert(import_text(*import))) by {
                broadcast use vstd::seq_lib::group_seq_properties;

            }
            assert(all.take(i + 1).drop_last() =~= all.take(i as int));
            assert(all.take(i + 1).last() == *import);
            lemma_import_error_prefix(module, (i + 1) as nat, all.len());
        }
        let func: &Func = match import.desc {
            ImportDesc::Func(idx) => &module.types[idx as usize],
            _ => return Err(non_func_error(import.module.as_str(), import.name.as_str())),
        };
        let mut text: String = import.module.as_str().to_owned();
        text.append("::");
        text.append(import.name.as_str());
        imports.insert(text);
        if same_text(import.module.as_str(), WASI_P1_MODULE) {
            features.insert("wasi-preview1".to_owned());
        }
        if let Err(error) = check_func(import.module.as_str(), import.name.as_str(), func, &store) {
            return Err(error);
        }
        i += 1;
    }
    assert(all.take(i as int) =~= all);
    Ok(())
}

/// What is wrong with the first imports is what is wrong with more of them.
proof fn lemma_import_error_prefix(module: &Module, n: nat, m: nat)
    requires
        n <= m,
    ensures
        first_import_error(module, n) is Some ==> first_import_error(module, m)
            == first_import_error(module, n),
    decreases m,
{
    if n < m {
        lemma_import_error_prefix(module, n, (m - 1) as nat);
    }
}

/// Whether a module is supported: what it makes use of, or why it is not. Each imported function
/// has to have a type.
pub fn ensure_wasm32_wasip1_proc_macro_module(module: &Module) -> (result: Result<
    ModuleCapabilityCensus,
    Error,
>)
    requires
        module.wf(),
    ensures
        match module_error(module) {
            Some(error) => result matches Err(e) && e@ == error,
            None => result matches Ok(census) && is_census(module, &census),
        },
{
    let mut imports = TextSet::new();
    let mut features = TextSet::new();
    let mut instructions = TextSet::new();
    proof {
        assert(Seq::<Seq<char>>::empty().to_set() =~= Set::<Seq<char>>::empty());
    }
    if let Err(error) = collect_imports(module, &mut imports, &mut features) {
        return Err(error);
    }
    proof {
        let a = visit_all(module.funcs@);
        let b = visit_all(module.globals@);
        let c = visit_all(module.elems@);
        let d = visit_all(module.data@);
        lemma_first_unsupported_add(a, b);
        lemma_first_unsupported_add(a + b, c);
        lemma_first_unsupported_add(a + b + c, d);
        let base = import_features(module.imports@);
        lemma_capabilities_add(base, a, b);
        lemma_capabilities_add(base, a + b, c);
        lemma_capabilities_add(base, a + b + c, d);
        let none = Set::<Seq<char>>::empty();
        lemma_capabilities_add(none, a, b);
        lemma_capabilities_add(none, a + b, c);
        lemma_capabilities_add(none, a + b + c, d);
    }
    if let Err(error) = collect_all(&module.funcs, &mut features, &mut instructions) {
        return Err(error);
    }
    if let Err(error) = collect_all(&module.globals, &mut features, &mut instructions) {
        return Err(error);
    }
    if let Err(error) = collect_all(&module.elems, &mut features, &mut instructions) {
        return Err(error);
    }
    if let Err(error) = collect_all(&module.data, &mut features, &mut instructions) {
        return Err(error);
    }
    Ok(
        ModuleCapabilityCensus {
            imports: imports.into_list(),
            wasm_features: features.into_list(),
            special_instructions: instructions.into_list(),
        },
    )
}

/// Whether a module is supported that was to be decoded: as for
/// [`ensure_wasm32_wasip1_proc_macro_module`], or why it could not be decoded.
pub fn validate_wasm32_wasip1_proc_macro_module(decoded: Result<Module, Error>) -> (result: Result<
    ModuleCapabilityCensus,
    Error,
>)
    requires
        decoded matches Ok(module) ==> module.wf(),
    ensures
        match decoded {
            Err(error) => result matches Err(e) && e == error,
            Ok(module) => match module_error(&module) {
                Some(error) => result matches Err(e) && e@ == error,
                None => result matches Ok(census) && is_census(&module, &census),
            },
        },
{
    match decoded {
        Ok(module) => ensure_wasm32_wasip1_proc_macro_module(&module),
        Err(error) => Err(error),
    }
}

/// What a census says.
pub open spec fn census_text(name: Seq<char>, census: &ModuleCapabilityCensus) -> Seq<char> {
    "["@ + name + "]\n"@ + "imports="@ + text::joined(text::texts(census.imports@), ","@) + "\n"@
        + "features="@ + text::joined(text::texts(census.wasm_features@), ","@) + "\n"@
        + "instructions="@ + text::joined(text::texts(census.special_instructions@), ","@) + "\n"@
}

/// What several censuses say, with an empty line between them.
pub open spec fn snapshot_text(list: Seq<(String, ModuleCapabilityCensus)>) -> Seq<char>
    decreases list.len(),
{
    if list.len() == 0 {
        Seq::empty()
    } else {
        snapshot_text(list.drop_last()) + (if list.len() > 1 {
            "\n"@
        } else {
            Seq::empty()
        }) + census_text(list.last().0@, &list.last().1)
    }
}

/// Writes down what several modules make use of, each under its name.
pub fn render_census_snapshot(list: &Vec<(String, ModuleCapabilityCensus)>) -> (out: String)
    ensures
        out@ == snapshot_text(list@),
{
    let mut out: String = String::new();
    let mut i: usize = 0;
    assert(list@.take(0) =~= Seq::<(String, ModuleCapabilityCensus)>::empty());
    assert(out@ =~= Seq::<char>::empty());
    while i < list.len()
        invariant
            i <= list@.len(),
            out@ == snapshot_text(list@.take(i as int)),
        decreases list@.len() - i,
    {
        let ghost before = out@;
        proof {
            assert(list@.take(i + 1).drop_last() =~= list@.take(i as int));
            assert(list@.take(i + 1).last() == list@[i as int]);
        }
        let census: &ModuleCapabilityCensus = &list[i].1;
        if i > 0 {
            out.append("\n");
        }
        out.append("[");
        out.append(list[i].0.as_str());
        out.append("]\n");
        out.append("imports=");
        out.append(join_texts(&census.imports, ",").as_str());
        out.append("\n");
        out.append("features=");
        out.append(join_texts(&census.wasm_features, ",").as_str());
        out.append("\n");
        out.append("instructions=");
        out.append(join_texts(&census.special_instructions, ",").as_str());
        out.append("\n");
        assert(out@ =~= before + (if i > 0 {
            "\n"@
        } else {
            Seq::empty()
        }) + census_text(list@[i as int].0@, census));
        i += 1;
    }
    assert(list@.take(i as int) =~= list@);
    out
}

/// Whether an instruction stands somewhere in an expression, at any depth.
pub open spec fn occurs(instr: Instr, expr: Expr) -> bool
    decreases expr, 0nat,
{
    occurs_among(instr, expr@)
}

/// Whether an instruction is one of several, or stands in a body of one of them.
pub open spec fn occurs_among(instr: Instr, instrs: Seq<Instr>) -> bool
    decreases instrs, 0nat,
{
    exists|i: int|
        0 <= i < instrs.len() && (#[trigger] instrs[i] == instr || occurs_within(instr, instrs[i]))
}

/// Whether an instruction stands in a body of another one.
pub open spec fn occurs_within(instr: Instr, outer: Instr) -> bool
    decreases outer, 0nat,
{
    match outer {
        Instr::Block(body) => occurs(instr, body),
        Instr::Loop(body) => occurs(instr, body),
        Instr::If(then_body, else_body) => occurs(instr, then_body) || occurs(instr, else_body),
        _ => false,
    }
}

/// Whether an expression belongs to a module: it is the body of a function, the initial value of a
/// global, or the offset of a segment.
pub open spec fn belongs(expr: Expr, module: &Module) -> bool {
    ||| module.funcs@.contains(expr)
    ||| module.globals@.contains(expr)
    ||| module.elems@.contains(expr)
    ||| module.data@.contains(expr)
}

/// Exactly the instructions that stand somewhere in an expression are looked at.
pub proof fn law_looked_at_are_those_that_occur(expr: Expr, instr: Instr)
    ensures
        visit(expr).contains(instr) <==> occurs(instr, expr),
    decreases expr, 0nat,
{
    lemma_bodies_looked_at(expr@, expr@.len(), instr);
    let bodies = visit_bodies(expr@, expr@.len());
    lemma_contains_add(expr@, bodies, instr);
    if occurs(instr, expr) {
        let i = choose|i: int|
            0 <= i < expr@.len() && (#[trigger] expr@[i] == instr || occurs_within(
                instr,
                expr@[i],
            ));
        if expr@[i] == instr {
            assert(expr@.contains(instr));
        }
    }
}

/// Exactly the instructions that stand in the bodies of the first `n` ones are looked at there.
proof fn lemma_bodies_looked_at(instrs: Seq<Instr>, n: nat, instr: Instr)
    requires
        n <= instrs.len(),
    ensures
        visit_bodies(instrs, n).contains(instr) <==> exists|i: int|
            0 <= i < n && occurs_within(instr, #[trigger] instrs[i]),
    decreases instrs, n,
{
    if n > 0 {
        let k = (n - 1) as nat;
        lemma_bodies_looked_at(instrs, k, instr);
        lemma_body_looked_at(instrs[n - 1], instr);
        lemma_contains_add(visit_body(instrs[n - 1]), visit_bodies(instrs, k), instr);
    }
}

/// Exactly the instructions that stand in the bodies of one are looked at there.
proof fn lemma_body_looked_at(outer: Instr, instr: Instr)
    ensures
        visit_body(outer).contains(instr) <==> occurs_within(instr, outer),
    decreases outer, 0nat,
{
    match outer {
        Instr::Block(body) => law_looked_at_are_those_that_occur(body, instr),
        Instr::Loop(body) => law_looked_at_are_those_that_occur(body, instr),
        Instr::If(then_body, else_body) => {
            law_looked_at_are_those_that_occur(then_body, instr);
            law_looked_at_are_those_that_occur(else_body, instr);
            lemma_contains_add(visit(then_body), visit(else_body), instr);
        },
        _ => {},
    }
}

/// What two lists hold together.
proof fn lemma_contains_add(a: Seq<Instr>, b: Seq<Instr>, instr: Instr)
    ensures
        (a + b).contains(instr) <==> a.contains(instr) || b.contains(instr),
{
    if a.contains(instr) {
        let i = choose|i: int| 0 <= i < a.len() && a[i] == instr;
        assert((a + b)[i] == instr);
    }
    if b.contains(instr) {
        let i = choose|i: int| 0 <= i < b.len() && b[i] == instr;
        assert((a + b)[a.len() + i] == instr);
    }
}

/// The bodies in an expression are looked at after the instructions that stand in it, the last
/// body first.
pub proof fn law_order_of_looking(expr: Expr)
    ensures
        visit(expr) == expr@ + expr@.reverse().map_values(
            |instr: Instr| visit_body(instr),
        ).flatten(),
        forall|body: Expr| #[trigger] visit_body(Instr::Block(body)) == visit(body),
        forall|body: Expr| #[trigger] visit_body(Instr::Loop(body)) == visit(body),
        forall|a: Expr, b: Expr| #[trigger] visit_body(Instr::If(a, b)) == visit(a) + visit(b),
{
    lemma_bodies_reversed(expr@, expr@.len());
    assert(expr@.take(expr@.len() as int) =~= expr@);
}

/// The bodies of the first `n` instructions, the last body first.
proof fn lemma_bodies_reversed(instrs: Seq<Instr>, n: nat)
    requires
        n <= instrs.len(),
    ensures
        visit_bodies(instrs, n) == instrs.take(n as int).reverse().map_values(
            |instr: Instr| visit_body(instr),
        ).flatten(),
    decreases n,
{
    let look = |instr: Instr| visit_body(instr);
    let list = instrs.take(n as int).reverse().map_values(look);
    if n > 0 {
        let k = (n - 1) as nat;
        lemma_bodies_reversed(instrs, k);
        let rest = instrs.take(k as int).reverse().map_values(look);
        assert(list.drop_first() =~= rest);
        assert(list.first() == visit_body(instrs[n - 1]));
    }
}

/// Every expression of a module is looked at: the functions, the globals, the element segments
/// and the data segments, in this order, and each instruction as often as it is written.
pub proof fn law_modules_are_looked_at_whole(module: &Module)
    ensures
        module_instrs(module) == (module.funcs@ + module.globals@ + module.elems@
            + module.data@).map_values(|expr: Expr| visit(expr)).flatten(),
        module_instrs(module).to_multiset() == (module.funcs@ + module.globals@ + module.elems@
            + module.data@).map_values(|expr: Expr| written(expr)).flatten().to_multiset(),
{
    let a = module.funcs@;
    let b = module.globals@;
    let c = module.elems@;
    let d = module.data@;
    lemma_visit_all_add(a, b);
    lemma_visit_all_add(a + b, c);
    lemma_visit_all_add(a + b + c, d);
    lemma_visit_all_flat(a + b + c + d);
}

/// The instructions of two lists of expressions.
proof fn lemma_visit_all_add(a: Seq<Expr>, b: Seq<Expr>)
    ensures
        visit_all(a + b) == visit_all(a) + visit_all(b),
    decreases b.len(),
{
    if b.len() == 0 {
        assert(a + b =~= a);
        assert(visit_all(a) + visit_all(b) =~= visit_all(a));
    } else {
        lemma_visit_all_add(a, b.drop_last());
        assert((a + b).drop_last() =~= a + b.drop_last());
        assert(visit_all(a + b) =~= visit_all(a) + visit_all(b));
    }
}

/// The instructions of several expressions, one expression after the other.
proof fn lemma_visit_all_flat(exprs: Seq<Expr>)
    ensures
        visit_all(exprs) == exprs.map_values(|expr: Expr| visit(expr)).flatten(),
        visit_all(exprs).to_multiset() == exprs.map_values(
            |expr: Expr| written(expr),
        ).flatten().to_multiset(),
    decreases exprs.len(),
{
    let look = |expr: Expr| visit(expr);
    let read = |expr: Expr| written(expr);
    if exprs.len() == 0 {
        assert(exprs.map_values(look).flatten() =~= Seq::<Instr>::empty());
        assert(exprs.map_values(read).flatten() =~= Seq::<Instr>::empty());
    } else {
        let fewer = exprs.drop_last();
        let last = exprs.last();
        lemma_visit_all_flat(fewer);
        law_visit_reaches_all(last);
        assert(exprs.map_values(look) =~= fewer.map_values(look).push(visit(last)));
        assert(exprs.map_values(read) =~= fewer.map_values(read).push(written(last)));
        fewer.map_values(look).lemma_flatten_push(visit(last));
        fewer.map_values(read).lemma_flatten_push(written(last));
        vstd::seq_lib::lemma_multiset_commutative(visit_all(fewer), visit(last));
        vstd::seq_lib::lemma_multiset_commutative(
            fewer.map_values(read).flatten(),
            written(last),
        );
    }
}

/// What is looked at in a module is what occurs in one of its expressions.
pub proof fn law_module_instructions(module: &Module, instr: Instr)
    ensures
        module_instrs(module).contains(instr) <==> exists|expr: Expr|
            belongs(expr, module) && #[trigger] occurs(instr, expr),
{
    let a = visit_all(module.funcs@);
    let b = visit_all(module.globals@);
    let c = visit_all(module.elems@);
    let d = visit_all(module.data@);
    lemma_contains_add(a, b, instr);
    lemma_contains_add(a + b, c, instr);
    lemma_contains_add(a + b + c, d, instr);
    lemma_visit_all_contains(module.funcs@, instr);
    lemma_visit_all_contains(module.globals@, instr);
    lemma_visit_all_contains(module.elems@, instr);
    lemma_visit_all_contains(module.data@, instr);
}

/// What is looked at in several expressions is what occurs in one of them.
proof fn lemma_visit_all_contains(exprs: Seq<Expr>, instr: Instr)
    ensures
        visit_all(exprs).contains(instr) <==> exists|expr: Expr|
            exprs.contains(expr) && #[trigger] occurs(instr, expr),
    decreases exprs.len(),
{
    if exprs.len() > 0 {
        let fewer = exprs.drop_last();
        let last = exprs.last();
        lemma_visit_all_contains(fewer, instr);
        lemma_contains_add(visit_all(fewer), visit(last), instr);
        law_looked_at_are_those_that_occur(last, instr);
        assert(exprs[exprs.len() - 1] == last);
        assert forall|expr: Expr| fewer.contains(expr) implies exprs.contains(expr) by {
            let i = choose|i: int| 0 <= i < fewer.len() && fewer[i] == expr;
            assert(exprs[i] == expr);
        }
        assert forall|expr: Expr| exprs.contains(expr) implies fewer.contains(expr) || expr
            == last by {
            let i = choose|i: int| 0 <= i < exprs.len() && exprs[i] == expr;
            if i < fewer.len() {
                assert(fewer[i] == expr);
            }
        }
    }
}

/// The names of the instructions that are not supported, and of no other.
pub proof fn law_unsupported_names(n: u32, m: u32)
    ensures
        unsupported(Instr::MemoryInit(n)) == Some("memory.init"@),
        unsupported(Instr::DataDrop(n)) == Some("data.drop"@),
        unsupported(Instr::TableInit(n, m)) == Some("table.init"@),
        unsupported(Instr::ElemDrop(n)) == Some("elem.drop"@),
        unsupported(Instr::TableCopy(n, m)) == Some("table.copy"@),
        unsupported(Instr::TableGrow(n)) == Some("table.grow"@),
        unsupported(Instr::TableSize(n)) == Some("table.size"@),
        unsupported(Instr::TableFill(n)) == Some("table.fill"@),
        forall|instr: Instr| (#[trigger] unsupported(instr)) is Some ==> is_unsupported(instr),
{
}

/// Whether an instruction is one of those that are not supported.
pub open spec fn is_unsupported(instr: Instr) -> bool {
    ||| instr is MemoryInit
    ||| instr is DataDrop
    ||| instr is TableInit
    ||| instr is ElemDrop
    ||| instr is TableCopy
    ||| instr is TableGrow
    ||| instr is TableSize
    ||| instr is TableFill
}

/// The features and names of the instructions that are listed, and of no other.
pub proof fn law_listed_names(n: u32)
    ensures
        capability(Instr::RefNull) == Some(("reference-types"@, "ref.null"@)),
        capability(Instr::RefIsNull) == Some(("reference-types"@, "ref.is_null"@)),
        capability(Instr::RefFunc(n)) == Some(("reference-types"@, "ref.func"@)),
        capability(Instr::MemoryCopy) == Some(("bulk-memory"@, "memory.copy"@)),
        capability(Instr::MemoryFill) == Some(("bulk-memory"@, "memory.fill"@)),
        capability(Instr::IUnary(IUnOp::Extend8S)) == Some(("sign-ext"@, "i.extend8_s"@)),
        capability(Instr::IUnary(IUnOp::Extend16S)) == Some(("sign-ext"@, "i.extend16_s"@)),
        capability(Instr::IUnary(IUnOp::Extend32S)) == Some(("sign-ext"@, "i64.extend32_s"@)),
        capability(Instr::Convert(ConvertOp::TruncSat)) == Some(
            ("nontrapping-fptoint"@, "trunc_sat"@),
        ),
        forall|instr: Instr|
            (#[trigger] capability(instr)) is Some ==> instr is RefNull || instr is RefIsNull
                || instr is RefFunc || instr is MemoryCopy || instr is MemoryFill || (
            instr matches Instr::IUnary(op) && (op == IUnOp::Extend8S || op == IUnOp::Extend16S
                || op == IUnOp::Extend32S)) || instr == Instr::Convert(ConvertOp::TruncSat),
{
}

/// A module is supported exactly if each of its imports is, and no unsupported instruction occurs
/// in any of its expressions.
pub proof fn law_supported_modules(module: &Module)
    ensures
        module_error(module) is None <==> (forall|i: int|
            0 <= i < module.imports@.len() ==> import_error(
                module,
                #[trigger] module.imports@[i],
            ) is None) && (forall|expr: Expr, instr: Instr|
            belongs(expr, module) && #[trigger] occurs(instr, expr) ==> !is_unsupported(instr)),
{
    let all = module_instrs(module);
    law_first_import_error(module);
    law_unsupported_is_found(all);
    if module_error(module) is None {
        assert forall|expr: Expr, instr: Instr|
            belongs(expr, module) && #[trigger] occurs(instr, expr) implies !is_unsupported(
            instr,
        ) by {
            law_module_instructions(module, instr);
            let i = choose|i: int| 0 <= i < all.len() && all[i] == instr;
            assert(unsupported(all[i]) is None);
        }
    }
    if forall|expr: Expr, instr: Instr|
        belongs(expr, module) && #[trigger] occurs(instr, expr) ==> !is_unsupported(instr) {
        assert forall|i: int| 0 <= i < all.len() implies unsupported(#[trigger] all[i]) is None by {
            assert(all.contains(all[i]));
            law_module_instructions(module, all[i]);
            let expr = choose|expr: Expr| belongs(expr, module) && #[trigger] occurs(all[i], expr);
            assert(!is_unsupported(all[i]));
        }
    }
}

/// The error for imports is that of the first one that is not supported.
pub proof fn law_first_import_error(module: &Module)
    ensures
        first_import_error(module, module.imports@.len()) is None <==> forall|i: int|
            0 <= i < module.imports@.len() ==> import_error(
                module,
                #[trigger] module.imports@[i],
            ) is None,
        first_import_error(module, module.imports@.len()) is Some ==> exists|i: int|
            0 <= i < module.imports@.len() && import_error(module, #[trigger] module.imports@[i])
                == first_import_error(module, module.imports@.len()) && forall|j: int|
                0 <= j < i ==> import_error(module, #[trigger] module.imports@[j]) is None,
{
    lemma_first_import_error(module, module.imports@.len());
}

/// The error for the first `n` imports is that of the first one that is not supported.
proof fn lemma_first_import_error(module: &Module, n: nat)
    requires
        n <= module.imports@.len(),
    ensures
        first_import_error(module, n) is None <==> forall|i: int|
            0 <= i < n ==> import_error(module, #[trigger] module.imports@[i]) is None,
        first_import_error(module, n) is Some ==> exists|i: int|
            0 <= i < n && import_error(module, #[trigger] module.imports@[i])
                == first_import_error(module, n) && forall|j: int|
                0 <= j < i ==> import_error(module, #[trigger] module.imports@[j]) is None,
    decreases n,
{
    if n > 0 {
        lemma_first_import_error(module, (n - 1) as nat);
        if first_import_error(module, (n - 1) as nat) is None {
            let i = n - 1;
            assert(import_error(module, module.imports@[i]) == first_import_error(module, n));
        }
    }
}

/// The error for a module whose imports are supported is the name of the first instruction, in the
/// order of looking, that is not supported.
pub proof fn law_first_unsupported_is_reported(module: &Module, k: int)
    requires
        first_import_error(module, module.imports@.len()) is None,
        0 <= k < module_instrs(module).len(),
        is_unsupported(module_instrs(module)[k]),
        forall|j: int| 0 <= j < k ==> !is_unsupported(#[trigger] module_instrs(module)[j]),
    ensures
        module_error(module) == Some(
            ErrorModel::UnsupportedInstruction(unsupported(module_instrs(module)[k])->Some_0),
        ),
        unsupported(module_instrs(module)[k]) is Some,
{
    let all = module_instrs(module);
    let before = all.take(k);
    let after = all.skip(k + 1);
    assert(all =~= before.push(all[k]) + after);
    law_unsupported_is_found(before);
    assert forall|i: int| 0 <= i < before.len() implies unsupported(
        #[trigger] before[i],
    ) is None by {
        assert(before[i] == all[i]);
    }
    assert(before.push(all[k]).drop_last() =~= before);
    lemma_first_unsupported_add(before.push(all[k]), after);
}

/// A module with an import that is not supported is refused for the first such import, whatever
/// instructions it holds.
pub proof fn law_imports_come_first(module: &Module, i: int)
    requires
        0 <= i < module.imports@.len(),
        import_error(module, module.imports@[i]) is Some,
        forall|j: int| 0 <= j < i ==> import_error(module, #[trigger] module.imports@[j]) is None,
    ensures
        module_error(module) == import_error(module, module.imports@[i]),
{
    law_first_import_error(module);
}

/// An import is listed exactly if the module has it.
pub proof fn law_census_lists_imports(
    module: &Module,
    census: &ModuleCapabilityCensus,
    listed: Seq<char>,
)
    requires
        is_census(module, census),
    ensures
        text::texts(census.imports@).contains(listed) <==> exists|i: int|
            0 <= i < module.imports@.len() && listed == (#[trigger] module.imports@[i]).module@
                + "::"@ + module.imports@[i].name@,
{
    let texts = text::texts(census.imports@);
    let wanted = import_texts(module.imports@);
    assert(texts.contains(listed) == texts.to_set().contains(listed));
    assert(wanted.contains(listed) == wanted.to_set().contains(listed));
    if wanted.contains(listed) {
        let i = choose|i: int| 0 <= i < wanted.len() && wanted[i] == listed;
        assert(listed == module.imports@[i].module@ + "::"@ + module.imports@[i].name@);
    }
    if exists|i: int|
        0 <= i < module.imports@.len() && listed == (#[trigger] module.imports@[i]).module@ + "::"@
            + module.imports@[i].name@ {
        let i = choose|i: int|
            0 <= i < module.imports@.len() && listed == (#[trigger] module.imports@[i]).module@
                + "::"@ + module.imports@[i].name@;
        assert(wanted[i] == listed);
    }
}

/// A feature is listed exactly if a function of WASI preview 1 is imported and it is the feature of
/// that, or an instruction of it occurs in one of the module's expressions.
pub proof fn law_census_lists_features(
    module: &Module,
    census: &ModuleCapabilityCensus,
    feature: Seq<char>,
)
    requires
        is_census(module, census),
    ensures
        text::texts(census.wasm_features@).contains(feature) <==> (feature == "wasi-preview1"@
            && exists|i: int|
            0 <= i < module.imports@.len() && (#[trigger] module.imports@[i]).module@
                == "wasi_snapshot_preview1"@) || exists|expr: Expr, instr: Instr|
            belongs(expr, module) && #[trigger] occurs(instr, expr) && (capability(instr) matches
                Some((f, _)) && f == feature),
{
    let all = module_instrs(module);
    let texts = text::texts(census.wasm_features@);
    assert(texts.contains(feature) == texts.to_set().contains(feature));
    law_import_feature(module.imports@, feature);
    law_features_are_those_used(import_features(module.imports@), all, feature);
    if exists|i: int|
        0 <= i < all.len() && (capability(#[trigger] all[i]) matches Some((f, _)) && f
            == feature) {
        let i = choose|i: int|
            0 <= i < all.len() && (capability(#[trigger] all[i]) matches Some((f, _)) && f
                == feature);
        assert(all.contains(all[i]));
        law_module_instructions(module, all[i]);
    }
    if exists|expr: Expr, instr: Instr|
        belongs(expr, module) && #[trigger] occurs(instr, expr) && (capability(instr) matches Some(
            (f, _),
        ) && f == feature) {
        let (expr, instr) = choose|expr: Expr, instr: Instr|
            belongs(expr, module) && #[trigger] occurs(instr, expr) && (capability(instr) matches
                Some((f, _)) && f == feature);
        law_module_instructions(module, instr);
        let i = choose|i: int| 0 <= i < all.len() && all[i] == instr;
        assert(capability(all[i]) is Some);
    }
}

/// An instruction is listed exactly if one of that name occurs in one of the module's expressions.
pub proof fn law_census_lists_instructions(
    module: &Module,
    census: &ModuleCapabilityCensus,
    name: Seq<char>,
)
    requires
        is_census(module, census),
    ensures
        text::texts(census.special_instructions@).contains(name) <==> exists|
            expr: Expr,
            instr: Instr,
        |
            belongs(expr, module) && #[trigger] occurs(instr, expr) && (capability(instr) matches
                Some((_, n)) && n == name),
{
    let all = module_instrs(module);
    let texts = text::texts(census.special_instructions@);
    assert(texts.contains(name) == texts.to_set().contains(name));
    law_names_are_those_used(Set::empty(), all, name);
    if exists|i: int|
        0 <= i < all.len() && (capability(#[trigger] all[i]) matches Some((_, n)) && n == name) {
        let i = choose|i: int|
            0 <= i < all.len() && (capability(#[trigger] all[i]) matches Some((_, n)) && n
                == name);
        assert(all.contains(all[i]));
        law_module_instructions(module, all[i]);
    }
    if exists|expr: Expr, instr: Instr|
        belongs(expr, module) && #[trigger] occurs(instr, expr) && (capability(instr) matches Some(
            (_, n),
        ) && n == name) {
        let (expr, instr) = choose|expr: Expr, instr: Instr|
            belongs(expr, module) && #[trigger] occurs(instr, expr) && (capability(instr) matches
                Some((_, n)) && n == name);
        law_module_instructions(module, instr);
        let i = choose|i: int| 0 <= i < all.len() && all[i] == instr;
        assert(capability(all[i]) is Some);
    }
}

/// Each list of a census is in the order of its texts, and holds none twice.
pub proof fn law_census_is_in_order(module: &Module, census: &ModuleCapabilityCensus)
    requires
        is_census(module, census),
    ensures
        order::strictly_sorted(text::texts(census.imports@)),
        order::strictly_sorted(text::texts(census.wasm_features@)),
        order::strictly_sorted(text::texts(census.special_instructions@)),
        text::texts(census.imports@).no_duplicates(),
        text::texts(census.wasm_features@).no_duplicates(),
        text::texts(census.special_instructions@).no_duplicates(),
{
    order::law_sorted_list_has_no_duplicates(text::texts(census.imports@));
    order::law_sorted_list_has_no_duplicates(text::texts(census.wasm_features@));
    order::law_sorted_list_has_no_duplicates(text::texts(census.special_instructions@));
}

/// A function of a module that offers none is not supported: only two versions of the token stream
/// interface and WASI preview 1 offer functions.
pub proof fn law_unknown_modules_are_refused(
    module: Seq<char>,
    name: Seq<char>,
    args: Seq<ValueType>,
    result: Seq<ValueType>,
)
    requires
        module != "watt-0.5"@,
        module != "watt-0.4"@,
        module != "wasi_snapshot_preview1"@,
    ensures
        func_error(module, name, args, result) == Some(
            ErrorModel::UnsupportedImport { module, name },
        ),
{
}

/// The import of a function of WASI preview 1 is supported exactly with a name that stands for
/// something and its signature. Otherwise the error tells the name, or both signatures.
pub proof fn law_wasi_imports(name: Seq<char>, args: Seq<ValueType>, result: Seq<ValueType>)
    ensures
        ({
            let module = "wasi_snapshot_preview1"@;
            let error = func_error(module, name, args, result);
            match import_wasi_p1::wasi_func(name) {
                None => error == Some(ErrorModel::UnsupportedImport { module, name }),
                Some(func) => if args == import_wasi_p1::wasi_params(func) && result
                    == import_wasi_p1::wasi_results(func) {
                    error is None
                } else {
                    error == Some(
                        ErrorModel::UnsupportedImportSignature {
                            module,
                            name,
                            expected: types::signature_text(
                                import_wasi_p1::wasi_params(func),
                                import_wasi_p1::wasi_results(func),
                            ),
                            found: types::signature_text(args, result),
                        },
                    )
                },
            }
        }),
{
    reveal_strlit("wasi_snapshot_preview1");
    reveal_strlit("watt-0.5");
    reveal_strlit("watt-0.4");
    assert("wasi_snapshot_preview1"@.len() != "watt-0.5"@.len());
    assert("wasi_snapshot_preview1"@.len() != "watt-0.4"@.len());
}

/// The import of a function of the token stream interface, in either version, is supported with the
/// signature of its name, and with a name that stands for nothing. Otherwise the error tells both
/// signatures.
pub proof fn law_watt_imports(
    module: Seq<char>,
    name: Seq<char>,
    args: Seq<ValueType>,
    result: Seq<ValueType>,
)
    requires
        module == "watt-0.5"@ || module == "watt-0.4"@,
    ensures
        ({
            let error = func_error(module, name, args, result);
            match import::watt_func(name) {
                None => error is None,
                Some(func) => if args == import::watt_params(func) && result
                    == import::watt_results(func) {
                    error is None
                } else {
                    error == Some(
                        ErrorModel::UnsupportedImportSignature {
                            module,
                            name,
                            expected: types::signature_text(
                                import::watt_params(func),
                                import::watt_results(func),
                            ),
                            found: types::signature_text(args, result),
                        },
                    )
                },
            }
        }),
{
}

/// An import that is no function is not supported, whatever its names are.
pub proof fn law_only_functions_are_imported(module: &Module, import: Import)
    requires
        import.desc !is Func,
    ensures
        import_error(module, import) == Some(
            ErrorModel::UnsupportedImportSignature {
                module: import.module@,
                name: import.name@,
                expected: "func"@,
                found: "non-func import"@,
            },
        ),
{
}

/// The import of a function is checked with the type that the module gives it.
pub proof fn law_imports_are_checked_with_their_type(module: &Module, import: Import, idx: u32)
    requires
        import.desc == ImportDesc::Func(idx),
        (idx as int) < module.types@.len(),
    ensures
        import_error(module, import) == func_error(
            import.module@,
            import.name@,
            module.types@[idx as int].args@,
            module.types@[idx as int].result@,
        ),
{
}

/// What is written of several modules is what is written of each, with an empty line between them.
pub proof fn law_snapshot_of_parts(
    a: Seq<(String, ModuleCapabilityCensus)>,
    b: Seq<(String, ModuleCapabilityCensus)>,
)
    ensures
        a.len() > 0 && b.len() > 0 ==> snapshot_text(a + b) == snapshot_text(a) + "\n"@
            + snapshot_text(b),
        a.len() == 1 ==> snapshot_text(a) == "["@ + a[0].0@ + "]\n"@ + "imports="@ + text::joined(
            text::texts(a[0].1.imports@),
            ","@,
        ) + "\n"@ + "features="@ + text::joined(text::texts(a[0].1.wasm_features@), ","@) + "\n"@
            + "instructions="@ + text::joined(text::texts(a[0].1.special_instructions@), ","@)
            + "\n"@,
    decreases b.len(),
{
    reveal_with_fuel(snapshot_text, 2);
    if a.len() == 1 {
        assert(a.drop_last() =~= Seq::<(String, ModuleCapabilityCensus)>::empty());
        assert(snapshot_text(a) =~= census_text(a[0].0@, &a[0].1));
    }
    if a.len() > 0 && b.len() > 0 {
        assert((a + b).drop_last() =~= a + b.drop_last());
        let last = census_text(b.last().0@, &b.last().1);
        if b.len() == 1 {
            assert(a + b.drop_last() =~= a);
            assert(b.drop_last() =~= Seq::<(String, ModuleCapabilityCensus)>::empty());
            assert(snapshot_text(b) =~= last);
        } else {
            law_snapshot_of_parts(a, b.drop_last());
        }
        assert(snapshot_text(a + b) =~= snapshot_text(a) + "\n"@ + snapshot_text(b));
    }
}

} // verus!
