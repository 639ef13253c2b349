//! The token stream functions that a procedural macro may import.
use crate::runtime::types;
use crate::runtime::types::{same_values, Func, Int, Value};
use crate::runtime::{HostFunc, Store, WattFunc};
use crate::text::same_text;
use vstd::prelude::*;

pub mod watt_call;

verus! {

#[verifier::allow_in_spec]
fn i32() -> Value
    returns
        Value::Int(Int::I32),
{
    Value::Int(Int::I32)
}

fn signature_matches(sig: &Func, params: &[Value], results: &[Value]) -> (yes: bool)
    ensures
        yes == (sig.args@ == params@ && sig.result@ == results@),
{
    same_values(sig.args.as_slice(), params) && same_values(sig.result.as_slice(), results)
}

/// Whether a name is that of a version of the token stream interface.
pub open spec fn is_watt_module(module: Seq<char>) -> bool {
    module == "watt-0.5"@ || module == "watt-0.4"@
}

/// Whether a name is that of a version of the token stream interface.
pub fn is_watt(module: &str) -> (yes: bool)
    ensures
        yes == is_watt_module(module@),
{
    same_text(module, "watt-0.5") || same_text(module, "watt-0.4")
}

/// The function that a name stands for.
pub open spec fn watt_func(name: Seq<char>) -> Option<WattFunc> {
    if name == "token_stream_serialize"@ {
        Some(WattFunc::TokenStreamSerialize)
    } else if name == "token_stream_deserialize"@ {
        Some(WattFunc::TokenStreamDeserialize)
    } else if name == "token_stream_parse"@ {
        Some(WattFunc::TokenStreamParse)
    } else if name == "string_new"@ {
        Some(WattFunc::StringNew)
    } else if name == "literal_to_string"@ {
        Some(WattFunc::LiteralToString)
    } else if name == "string_len"@ {
        Some(WattFunc::StringLen)
    } else if name == "bytes_len"@ {
        Some(WattFunc::BytesLen)
    } else if name == "string_read"@ {
        Some(WattFunc::StringRead)
    } else if name == "bytes_read"@ {
        Some(WattFunc::BytesRead)
    } else if name == "print_panic"@ {
        Some(WattFunc::PrintPanic)
    } else {
        None
    }
}

/// What a function takes.
pub open spec fn watt_params(func: WattFunc) -> Seq<Value> {
    match func {
        WattFunc::TokenStreamDeserialize
        | WattFunc::TokenStreamParse
        | WattFunc::StringNew
        | WattFunc::StringRead
        | WattFunc::BytesRead => seq![types::word(), types::word()],
        _ => seq![types::word()],
    }
}

/// What a function gives back.
pub open spec fn watt_results(func: WattFunc) -> Seq<Value> {
    match func {
        WattFunc::StringRead | WattFunc::BytesRead | WattFunc::PrintPanic => seq![],
        _ => seq![types::word()],
    }
}

/// The function that a name stands for.
fn find_func(name: &str) -> (func: Option<WattFunc>)
    ensures
        func == watt_func(name@),
{
    if same_text(name, "token_stream_serialize") {
        Some(WattFunc::TokenStreamSerialize)
    } else if same_text(name, "token_stream_deserialize") {
        Some(WattFunc::TokenStreamDeserialize)
    } else if same_text(name, "token_stream_parse") {
        Some(WattFunc::TokenStreamParse)
    } else if same_text(name, "string_new") {
        Some(WattFunc::StringNew)
    } else if same_text(name, "literal_to_string") {
        Some(WattFunc::LiteralToString)
    } else if same_text(name, "string_len") {
        Some(WattFunc::StringLen)
    } else if same_text(name, "bytes_len") {
        Some(WattFunc::BytesLen)
    } else if same_text(name, "string_read") {
        Some(WattFunc::StringRead)
    } else if same_text(name, "bytes_read") {
        Some(WattFunc::BytesRead)
    } else if same_text(name, "print_panic") {
        Some(WattFunc::PrintPanic)
    } else {
        None
    }
}

/// What is found for an import of the token stream interface: nothing for an unknown name, and
/// the signature that the import should have where it has another one.
pub open spec fn lookup(name: Seq<char>, args: Seq<Value>, result: Seq<Value>) -> Result<
    Option<HostFunc>,
    Seq<char>,
> {
    match watt_func(name) {
        None => Ok(None),
        Some(func) => if args == watt_params(func) && result == watt_results(func) {
            Ok(Some(HostFunc::Watt(func)))
        } else {
            Err(types::signature_text(watt_params(func), watt_results(func)))
        },
    }
}

/// The host function for an import of the token stream interface. The store plays no part in the
/// choice.
pub fn host_func(name: &str, _store: &Store, sig: &Func) -> (found: Result<
    Option<HostFunc>,
    &'static str,
>)
    ensures
        types::lookup_result(found) == lookup(name@, sig.args@, sig.result@),
{
    let func = match find_func(name) {
        Some(func) => func,
        None => return Ok(None),
    };
    let params: Vec<Value> = match func {
        WattFunc::TokenStreamDeserialize
        | WattFunc::TokenStreamParse
        | WattFunc::StringNew
        | WattFunc::StringRead
        | WattFunc::BytesRead => vec![i32(), i32()],
        _ => vec![i32()],
    };
    assert(params@ =~= watt_params(func));
    let results: Vec<Value> = match func {
        WattFunc::StringRead | WattFunc::BytesRead | WattFunc::PrintPanic => vec![],
        _ => vec![i32()],
    };
    assert(results@ =~= watt_results(func));
    if signature_matches(sig, params.as_slice(), results.as_slice()) {
        Ok(Some(HostFunc::Watt(func)))
    } else {
        Err(expected_signature(func))
    }
}

/// How the type of a function is written.
fn expected_signature(func: WattFunc) -> (text: &'static str)
    ensures
        text@ == types::signature_text(watt_params(func), watt_results(func)),
{
    proof {
        reveal_strlit("i32");
        reveal_strlit("(");
        reveal_strlit(")");
        reveal_strlit(", ");
        reveal_strlit(") -> (");
        reveal_strlit("(i32) -> (i32)");
        reveal_strlit("(i32, i32) -> (i32)");
        reveal_strlit("(i32) -> ()");
        reveal_strlit("(i32, i32) -> ()");
        let params = watt_params(func);
        types::lemma_first_kinds(params, params.len());
        assert(params.take(params.len() as int) =~= params);
        types::lemma_type_list_push(params, types::word());
        reveal_with_fuel(types::first_kinds, 2);
    }
    let text: &'static str = match func {
        WattFunc::TokenStreamDeserialize
        | WattFunc::TokenStreamParse
        | WattFunc::StringNew => "(i32, i32) -> (i32)",
        WattFunc::StringRead | WattFunc::BytesRead => "(i32, i32) -> ()",
        WattFunc::PrintPanic => "(i32) -> ()",
        _ => "(i32) -> (i32)",
    };
    assert(text@ =~= types::signature_text(watt_params(func), watt_results(func)));
    text
}

/// The names of the token stream functions, and that there are no others.
pub proof fn law_watt_names(name: Seq<char>)
    ensures
        watt_func("token_stream_serialize"@) == Some(WattFunc::TokenStreamSerialize),
        watt_func("token_stream_deserialize"@) == Some(WattFunc::TokenStreamDeserialize),
        watt_func("token_stream_parse"@) == Some(WattFunc::TokenStreamParse),
        watt_func("string_new"@) == Some(WattFunc::StringNew),
        watt_func("literal_to_string"@) == Some(WattFunc::LiteralToString),
        watt_func("string_len"@) == Some(WattFunc::StringLen),
        watt_func("bytes_len"@) == Some(WattFunc::BytesLen),
        watt_func("string_read"@) == Some(WattFunc::StringRead),
        watt_func("bytes_read"@) == Some(WattFunc::BytesRead),
        watt_func("print_panic"@) == Some(WattFunc::PrintPanic),
        watt_func(name) is Some ==> {
            ||| name == "token_stream_serialize"@
            ||| name == "token_stream_deserialize"@
            ||| name == "token_stream_parse"@
            ||| name == "string_new"@
            ||| name == "literal_to_string"@
            ||| name == "string_len"@
            ||| name == "bytes_len"@
            ||| name == "string_read"@
            ||| name == "bytes_read"@
            ||| name == "print_panic"@
        },
{
    reveal_strlit("token_stream_serialize");
    assert("token_stream_serialize"@.len() == 22);
    reveal_strlit("token_stream_deserialize");
    assert("token_stream_deserialize"@.len() == 24);
    reveal_strlit("token_stream_parse");
    assert("token_stream_parse"@.len() == 18);
    reveal_strlit("string_new");
    assert("string_new"@.len() == 10);
    reveal_strlit("literal_to_string");
    assert("literal_to_string"@.len() == 17);
    reveal_strlit("string_len");
    assert("string_len"@.len() == 10);
    reveal_strlit("bytes_len");
    assert("bytes_len"@.len() == 9);
    reveal_strlit("string_read");
    assert("string_read"@.len() == 11);
    reveal_strlit("bytes_read");
    assert("bytes_read"@.len() == 10);
    reveal_strlit("print_panic");
    assert("print_panic"@.len() == 11);
    assert("string_new"@[7] != "string_len"@[7]);
    assert("string_new"@[0] != "bytes_read"@[0]);
    assert("string_len"@[0] != "bytes_read"@[0]);
    assert("string_read"@[0] != "print_panic"@[0]);
}

/// What the token stream functions take and give back: one or two `i32`, and an `i32` or nothing.
pub proof fn law_watt_signatures(func: WattFunc)
    ensures
        ({
            let word = Value::Int(Int::I32);
            match func {
                WattFunc::TokenStreamSerialize => watt_params(func) == seq![word] && watt_results(
                    func,
                ) == seq![word],
                WattFunc::TokenStreamDeserialize => watt_params(func) == seq![word, word]
                    && watt_results(func) == seq![word],
                WattFunc::TokenStreamParse => watt_params(func) == seq![word, word]
                    && watt_results(func) == seq![word],
                WattFunc::StringNew => watt_params(func) == seq![word, word] && watt_results(func)
                    == seq![word],
                WattFunc::LiteralToString => watt_params(func) == seq![word] && watt_results(func)
                    == seq![word],
                WattFunc::StringLen => watt_params(func) == seq![word] && watt_results(func)
                    == seq![word],
                WattFunc::BytesLen => watt_params(func) == seq![word] && watt_results(func)
                    == seq![word],
                WattFunc::StringRead => watt_params(func) == seq![word, word] && watt_results(func)
                    == Seq::<Value>::empty(),
                WattFunc::BytesRead => watt_params(func) == seq![word, word] && watt_results(func)
                    == Seq::<Value>::empty(),
                WattFunc::PrintPanic => watt_params(func) == seq![word] && watt_results(func)
                    == Seq::<Value>::empty(),
            }
        }),
{
    assert(watt_results(WattFunc::PrintPanic) =~= Seq::<Value>::empty());
}

/// A token stream function is found by its name and its own types alone. With other types the
/// search says which it should have, and with another name it finds nothing.
pub proof fn law_watt_lookup(name: Seq<char>, args: Seq<Value>, result: Seq<Value>)
    ensures
        watt_func(name) is None ==> lookup(name, args, result) == Ok::<Option<HostFunc>, Seq<char>>(
            None,
        ),
        watt_func(name) matches Some(func) ==> lookup(name, watt_params(func), watt_results(func))
            == Ok::<Option<HostFunc>, Seq<char>>(Some(HostFunc::Watt(func))),
        watt_func(name) matches Some(func) ==> args != watt_params(func) || result != watt_results(
            func,
        ) ==> lookup(name, args, result) == Err::<Option<HostFunc>, Seq<char>>(
            types::signature_text(watt_params(func), watt_results(func)),
        ),
{
}

/// The names of the versions of the token stream interface.
pub proof fn law_watt_versions(module: Seq<char>)
    ensures
        is_watt_module(module) <==> module == "watt-0.4"@ || module == "watt-0.5"@,
{
}

} // verus!
