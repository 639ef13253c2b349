//! The WASI preview 2 modules that stand for preview 1 functions.
use crate::import_wasi_p1;
use crate::runtime::types;
use crate::runtime::types::Func;
use crate::runtime::HostFunc;
use crate::text::starts_with;
use vstd::prelude::*;

verus! {

/// The prefixes of the module names that are accepted.
pub open spec fn allowlist() -> Seq<Seq<char>> {
    seq![
        "wasi_snapshot_preview2"@,
        "wasi:cli/environment@"@,
        "wasi:io/streams@"@,
        "wasi:random/random@"@,
    ]
}

/// Whether functions may be imported from a module: whether its name begins with a prefix of
/// the allowlist.
pub fn is_supported_module(module: &str) -> (yes: bool)
    ensures
        yes == exists|i: int|
            0 <= i < allowlist().len() && (#[trigger] allowlist()[i]).is_prefix_of(module@),
{
    let yes: bool = starts_with(module, "wasi_snapshot_preview2") || starts_with(
        module,
        "wasi:cli/environment@",
    ) || starts_with(module, "wasi:io/streams@") || starts_with(module, "wasi:random/random@");
    proof {
        let list = allowlist();
        assert(list[0] == "wasi_snapshot_preview2"@);
        assert(list[1] == "wasi:cli/environment@"@);
        assert(list[2] == "wasi:io/streams@"@);
        assert(list[3] == "wasi:random/random@"@);
    }
    yes
}

/// The host function for an import: that of preview 1 with the same name and signature.
pub fn host_func(name: &str, sig: &Func) -> (found: Result<Option<HostFunc>, &'static str>)
    ensures
        types::lookup_result(found) == import_wasi_p1::lookup(name@, sig.args@, sig.result@),
{
    import_wasi_p1::host_func(name, sig)
}

/// A module of preview 2 is accepted by the start of its name: that of the snapshot, or that of the
/// interfaces for the environment, for streams and for random numbers in any version.
pub proof fn law_accepted_modules(module: Seq<char>)
    ensures
        (exists|i: int|
            0 <= i < allowlist().len() && (#[trigger] allowlist()[i]).is_prefix_of(module)) <==> (
        "wasi_snapshot_preview2"@.is_prefix_of(module) || "wasi:cli/environment@"@.is_prefix_of(
            module,
        ) || "wasi:io/streams@"@.is_prefix_of(module) || "wasi:random/random@"@.is_prefix_of(
            module,
        )),
{
    let list = allowlist();
    assert(list[0] == "wasi_snapshot_preview2"@);
    assert(list[1] == "wasi:cli/environment@"@);
    assert(list[2] == "wasi:io/streams@"@);
    assert(list[3] == "wasi:random/random@"@);
}

} // verus!
