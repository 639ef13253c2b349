//! Calling the token stream functions from a guest.
use crate::data::Data;
use crate::import;
use crate::import_wasi_p1::stack;
use crate::import_wasi_p1::stack::pop_u32;
use crate::runtime::{Interpreter, Value, WattFunc};
use crate::sym;
use crate::sym::{
    bytes_len, bytes_read, literal_to_string, parse_input, print_panic, region, string_len,
    string_new, string_read, SymPanic, PARSE_FAILED,
};
use vstd::prelude::*;

verus! {

/// How far a token stream function has come.
#[derive(Debug)]
pub enum WattStep {
    /// It is done.
    Done,
    /// The host gives up on the guest.
    Panic(SymPanic),
    /// A token stream is to be encoded.
    Encode(u32),
    /// A token stream is to be decoded from bytes.
    Decode(Vec<u8>),
    /// A token stream is to be parsed from a text.
    Parse(String),
}

/// Whether the guest was answered with a number, or the host gave up on it. Its memory is as it
/// was.
pub open spec fn number_answered(
    before: Interpreter,
    after: Interpreter,
    func: WattFunc,
    value: Result<u32, SymPanic>,
    step: WattStep,
) -> bool {
    let left = stack::left(before.stack@, import::watt_params(func));
    &&& after.memory@ == before.memory@
    &&& match value {
        Ok(value) => step == WattStep::Done && after.stack@ == left.push(Value::I32(value)),
        Err(panic) => step == WattStep::Panic(panic) && after.stack@ == left,
    }
}

/// Whether something was put into the memory of the guest, or the host gave up on it.
pub open spec fn memory_answered(
    before: Interpreter,
    after: Interpreter,
    func: WattFunc,
    wanted: Result<Seq<u8>, SymPanic>,
    step: WattStep,
) -> bool {
    &&& after.stack@ == stack::left(before.stack@, import::watt_params(func))
    &&& match wanted {
        Ok(memory) => step == WattStep::Done && after.memory@ == memory,
        Err(panic) => step == WattStep::Panic(panic) && after.memory@ == before.memory@,
    }
}

/// What a token stream function does to a guest and to the values that it exchanges with the
/// host, and what it needs of the host.
pub open spec fn called<T>(
    func: WattFunc,
    before: Interpreter,
    after: Interpreter,
    d: Data<T>,
    d_after: Data<T>,
    step: WattStep,
) -> bool {
    let params = import::watt_params(func);
    let args = before.stack@;
    let memory = before.memory@;
    let one = stack::word_arg(args, 1, 0);
    let first = stack::word_arg(args, 2, 0);
    let second = stack::word_arg(args, 2, 1);
    match func {
        WattFunc::LiteralToString => exists|value: Result<u32, SymPanic>|
            #![auto]
            number_answered(before, after, func, value, step) && sym::made_of_literal(
                d,
                d_after,
                one,
                value,
            ),
        WattFunc::StringNew => exists|value: Result<u32, SymPanic>|
            #![auto]
            number_answered(before, after, func, value, step) && sym::made_of_region(
                d,
                d_after,
                memory,
                first,
                second,
                value,
            ),
        _ => d_after == d && match func {
            WattFunc::StringLen => number_answered(
                before,
                after,
                func,
                sym::string_len_of(&d, one),
                step,
            ),
            WattFunc::BytesLen => number_answered(
                before,
                after,
                func,
                sym::bytes_len_of(&d, one),
                step,
            ),
            WattFunc::StringRead => memory_answered(
                before,
                after,
                func,
                sym::string_read_of(&d, memory, first, second),
                step,
            ),
            WattFunc::BytesRead => memory_answered(
                before,
                after,
                func,
                sym::bytes_read_of(&d, memory, first, second),
                step,
            ),
            WattFunc::TokenStreamParse if sym::string_new_error(memory, first, second)
                == Some(SymPanic::NonUtf8) => number_answered(
                before,
                after,
                func,
                Ok(PARSE_FAILED),
                step,
            ),
            _ => stack::dropped(before, after, params) && match func {
                WattFunc::PrintPanic => step matches WattStep::Panic(panic) && sym::is_panic_with(
                    &d,
                    one,
                    panic,
                ),
                WattFunc::TokenStreamSerialize => step == (if one < d.tokenstream@.len() {
                    WattStep::Encode(one)
                } else {
                    WattStep::Panic(SymPanic::UnknownHandle)
                }),
                WattFunc::TokenStreamDeserialize => match step {
                    WattStep::Decode(bytes) => sym::is_region(memory, first, second, Ok(bytes)),
                    WattStep::Panic(panic) => sym::is_region(memory, first, second, Err(panic)),
                    _ => false,
                },
                _ => match step {
                    WattStep::Parse(text) => sym::is_parse_input(
                        memory,
                        first,
                        second,
                        Ok(Some(text)),
                    ),
                    WattStep::Panic(panic) => sym::is_parse_input(
                        memory,
                        first,
                        second,
                        Err(panic),
                    ),
                    _ => false,
                },
            },
        },
    }
}

/// Answers the guest with a number.
pub fn answer(interp: &mut Interpreter, value: u32)
    ensures
        final(interp).memory == old(interp).memory,
        final(interp).stack@ == old(interp).stack@.push(Value::I32(value)),
{
    interp.push(Value::I32(value));
}

/// Answers the guest with a number, unless the host gives up on it.
fn answer_or_panic(interp: &mut Interpreter, value: Result<u32, SymPanic>) -> (step: WattStep)
    ensures
        final(interp).memory == old(interp).memory,
        match value {
            Ok(value) => step == WattStep::Done && final(interp).stack@ == old(
                interp,
            ).stack@.push(Value::I32(value)),
            Err(panic) => step == WattStep::Panic(panic) && final(interp).stack@ == old(
                interp,
            ).stack@,
        },
{
    match value {
        Ok(value) => {
            answer(interp, value);
            WattStep::Done
        },
        Err(panic) => WattStep::Panic(panic),
    }
}

/// Takes an argument, which is there.
fn take_word(interp: &mut Interpreter) -> (value: u32)
    requires
        old(interp).stack@.len() > 0,
        old(interp).stack@.last() is I32,
    ensures
        final(interp).memory == old(interp).memory,
        final(interp).stack@ == old(interp).stack@.drop_last(),
        value == old(interp).stack@.last()->I32_0,
{
    match pop_u32(interp) {
        Some(value) => value,
        None => 0,
    }
}

/// Whether the arguments of a token stream function are on the stack.
pub fn has_arguments(func: WattFunc, interp: &Interpreter) -> (yes: bool)
    ensures
        yes == stack::takes(interp.stack@, import::watt_params(func)),
{
    proof {
        reveal_with_fuel(stack::takes, 3);
    }
    let n: usize = match func {
        WattFunc::TokenStreamDeserialize
        | WattFunc::TokenStreamParse
        | WattFunc::StringNew
        | WattFunc::StringRead
        | WattFunc::BytesRead => 2,
        _ => 1,
    };
    let len: usize = interp.stack.len();
    if len < n {
        return false;
    }
    let last: bool = match interp.stack[len - 1] {
        Value::I32(_) => true,
        _ => false,
    };
    let first: bool = match interp.stack[len - n] {
        Value::I32(_) => true,
        _ => false,
    };
    last && first
}

/// Calls a token stream function. Its arguments are on the stack, with the types of its
/// signature.
pub fn call<T>(func: WattFunc, interp: &mut Interpreter, d: &mut Data<T>) -> (step: WattStep)
    requires
        stack::takes(old(interp).stack@, import::watt_params(func)),
    ensures
        called(func, *old(interp), *final(interp), *old(d), *final(d), step),
{
    proof {
        reveal_with_fuel(stack::takes, 3);
        reveal_with_fuel(stack::left, 3);
    }
    match func {
        WattFunc::TokenStreamSerialize
        | WattFunc::LiteralToString
        | WattFunc::StringLen
        | WattFunc::BytesLen
        | WattFunc::PrintPanic => {
            let one: u32 = take_word(interp);
            match func {
                WattFunc::TokenStreamSerialize => match d.tokenstream.get(one) {
                    Some(_) => WattStep::Encode(one),
                    None => WattStep::Panic(SymPanic::UnknownHandle),
                },
                WattFunc::LiteralToString => {
                    let value: Result<u32, SymPanic> = literal_to_string(d, one);
                    let step = answer_or_panic(interp, value);
                    assert(number_answered(*old(interp), *interp, func, value, step));
                    step
                },
                WattFunc::StringLen => answer_or_panic(interp, string_len(d, one)),
                WattFunc::BytesLen => answer_or_panic(interp, bytes_len(d, one)),
                _ => WattStep::Panic(print_panic(d, one)),
            }
        },
        _ => {
            let second: u32 = take_word(interp);
            let first: u32 = take_word(interp);
            match func {
                WattFunc::TokenStreamDeserialize => match region(&interp.memory, first, second) {
                    Ok(bytes) => WattStep::Decode(bytes),
                    Err(panic) => WattStep::Panic(panic),
                },
                WattFunc::TokenStreamParse => match parse_input(&interp.memory, first, second) {
                    Ok(Some(text)) => WattStep::Parse(text),
                    Ok(None) => {
                        answer(interp, PARSE_FAILED);
                        WattStep::Done
                    },
                    Err(panic) => WattStep::Panic(panic),
                },
                WattFunc::StringNew => {
                    let value: Result<u32, SymPanic> = string_new(
                        d,
                        &interp.memory,
                        first,
                        second,
                    );
                    let step = answer_or_panic(interp, value);
                    assert(number_answered(*old(interp), *interp, func, value, step));
                    step
                },
                WattFunc::StringRead => match string_read(d, &mut interp.memory, first, second) {
                    Ok(()) => WattStep::Done,
                    Err(panic) => WattStep::Panic(panic),
                },
                _ => match bytes_read(d, &mut interp.memory, first, second) {
                    Ok(()) => WattStep::Done,
                    Err(panic) => WattStep::Panic(panic),
                },
            }
        },
    }
}

/// A guest that names a literal gets a string with its text: the number of the string, which is the
/// next one.
pub proof fn law_called_literal_to_string<T>(
    before: Interpreter,
    after: Interpreter,
    d: Data<T>,
    d_after: Data<T>,
    step: WattStep,
    rest: Seq<Value>,
    number: u32,
)
    requires
        called(WattFunc::LiteralToString, before, after, d, d_after, step),
        before.stack@ == rest.push(Value::I32(number)),
    ensures
        after.memory@ == before.memory@,
        d_after.tokenstream == d.tokenstream,
        d_after.bytes == d.bytes,
        d_after.literal == d.literal,
        number >= d.literal@.len() ==> {
            &&& step == WattStep::Panic(SymPanic::UnknownHandle)
            &&& d_after == d
            &&& after.stack@ == rest
        },
        number < d.literal@.len() && d.string@.len() <= 0xffff_ffff ==> {
            &&& step == WattStep::Done
            &&& after.stack@ == rest.push(Value::I32(d.string@.len() as u32))
            &&& d_after.string@.len() == d.string@.len() + 1
            &&& d_after.string@.drop_last() == d.string@
            &&& d_after.string@.last()@ == d.literal@[number as int]@
        },
{
    reveal_with_fuel(stack::takes, 3);
    reveal_with_fuel(stack::left, 3);
    assert(before.stack@.drop_last() =~= rest);
}

/// A guest that names a region gets a string with the text that the region encodes: the number of
/// the string, which is the next one. The host gives up on a guest whose region lies beyond the
/// memory or encodes no text.
pub proof fn law_called_string_new<T>(
    before: Interpreter,
    after: Interpreter,
    d: Data<T>,
    d_after: Data<T>,
    step: WattStep,
    rest: Seq<Value>,
    ptr: u32,
    len: u32,
)
    requires
        called(WattFunc::StringNew, before, after, d, d_after, step),
        before.stack@ == rest.push(Value::I32(ptr)).push(Value::I32(len)),
    ensures
        after.memory@ == before.memory@,
        d_after.tokenstream == d.tokenstream,
        d_after.bytes == d.bytes,
        d_after.literal == d.literal,
        ptr + len > before.memory@.len() ==> {
            &&& step == WattStep::Panic(SymPanic::OutOfBounds)
            &&& d_after == d
            &&& after.stack@ == rest
        },
        ptr + len <= before.memory@.len() ==> {
            let bytes = before.memory@.subrange(ptr as int, ptr + len);
            &&& !vstd::utf8::valid_utf8(bytes) ==> {
                &&& step == WattStep::Panic(SymPanic::NonUtf8)
                &&& d_after == d
                &&& after.stack@ == rest
            }
            &&& vstd::utf8::valid_utf8(bytes) && d.string@.len() <= 0xffff_ffff ==> {
                &&& step == WattStep::Done
                &&& after.stack@ == rest.push(Value::I32(d.string@.len() as u32))
                &&& d_after.string@.len() == d.string@.len() + 1
                &&& d_after.string@.drop_last() == d.string@
                &&& vstd::utf8::encode_utf8(d_after.string@.last()@) == bytes
            }
        },
{
    reveal_with_fuel(stack::takes, 3);
    reveal_with_fuel(stack::left, 3);
    assert(before.stack@.drop_last() =~= rest.push(Value::I32(ptr)));
    assert(before.stack@.drop_last().drop_last() =~= rest);
    if ptr + len <= before.memory@.len() {
        let bytes = before.memory@.subrange(ptr as int, ptr + len);
        if vstd::utf8::valid_utf8(bytes) {
            vstd::utf8::decode_utf8_encode_utf8(bytes);
        }
    }
}

/// A guest is told how many bytes a string or a byte string has.
pub proof fn law_called_lengths<T>(
    func: WattFunc,
    before: Interpreter,
    after: Interpreter,
    d: Data<T>,
    d_after: Data<T>,
    step: WattStep,
    rest: Seq<Value>,
    number: u32,
)
    requires
        func == WattFunc::StringLen || func == WattFunc::BytesLen,
        called(func, before, after, d, d_after, step),
        before.stack@ == rest.push(Value::I32(number)),
    ensures
        after.memory@ == before.memory@,
        d_after == d,
        func == WattFunc::StringLen && number < d.string@.len() ==> {
            let bytes = vstd::utf8::encode_utf8(d.string@[number as int]@);
            &&& step == WattStep::Done
            &&& bytes.len() <= u32::MAX ==> after.stack@ == rest.push(
                Value::I32(bytes.len() as u32),
            )
        },
        func == WattFunc::BytesLen && number < d.bytes@.len() ==> {
            let bytes = d.bytes@[number as int]@;
            &&& step == WattStep::Done
            &&& bytes.len() <= u32::MAX ==> after.stack@ == rest.push(
                Value::I32(bytes.len() as u32),
            )
        },
        number >= (if func == WattFunc::StringLen {
            d.string@.len()
        } else {
            d.bytes@.len()
        }) ==> step == WattStep::Panic(SymPanic::UnknownHandle) && after.stack@ == rest,
{
    reveal_with_fuel(stack::takes, 3);
    reveal_with_fuel(stack::left, 3);
    assert(before.stack@.drop_last() =~= rest);
}

/// A guest that reads a string or a byte string finds its bytes where it wants them, and everything
/// else as it was. The host gives up on a guest that names nothing or provides too little room.
pub proof fn law_called_reads<T>(
    func: WattFunc,
    before: Interpreter,
    after: Interpreter,
    d: Data<T>,
    d_after: Data<T>,
    step: WattStep,
    rest: Seq<Value>,
    number: u32,
    ptr: u32,
)
    requires
        func == WattFunc::StringRead || func == WattFunc::BytesRead,
        called(func, before, after, d, d_after, step),
        before.stack@ == rest.push(Value::I32(number)).push(Value::I32(ptr)),
    ensures
        after.stack@ == rest,
        d_after == d,
        ({
            let known = if func == WattFunc::StringRead {
                number < d.string@.len()
            } else {
                number < d.bytes@.len()
            };
            let bytes = if func == WattFunc::StringRead {
                vstd::utf8::encode_utf8(d.string@[number as int]@)
            } else {
                d.bytes@[number as int]@
            };
            &&& !known ==> step == WattStep::Panic(SymPanic::UnknownHandle) && after.memory@
                == before.memory@
            &&& known && ptr + bytes.len() > before.memory@.len() ==> step == WattStep::Panic(
                SymPanic::OutOfBounds,
            ) && after.memory@ == before.memory@
            &&& known && ptr + bytes.len() <= before.memory@.len() ==> {
                &&& step == WattStep::Done
                &&& after.memory@.len() == before.memory@.len()
                &&& after.memory@.subrange(ptr as int, ptr + bytes.len()) == bytes
                &&& forall|i: int|
                    0 <= i < before.memory@.len() && !(ptr <= i < ptr + bytes.len()) ==> (
                    #[trigger] after.memory@[i]) == before.memory@[i]
            }
        }),
{
    reveal_with_fuel(stack::takes, 3);
    reveal_with_fuel(stack::left, 3);
    assert(before.stack@.drop_last() =~= rest.push(Value::I32(number)));
    assert(before.stack@.drop_last().drop_last() =~= rest);
    sym::law_reads(&d, before.memory@, number, ptr);
    if func == WattFunc::StringRead && number < d.string@.len() {
        sym::law_put_bytes(
            before.memory@,
            ptr,
            vstd::utf8::encode_utf8(d.string@[number as int]@),
        );
    }
    if func == WattFunc::BytesRead && number < d.bytes@.len() {
        sym::law_put_bytes(before.memory@, ptr, d.bytes@[number as int]@);
    }
}

/// A guest that gives up itself does so with the text of the string that it names.
pub proof fn law_called_print_panic<T>(
    before: Interpreter,
    after: Interpreter,
    d: Data<T>,
    d_after: Data<T>,
    step: WattStep,
    rest: Seq<Value>,
    number: u32,
)
    requires
        called(WattFunc::PrintPanic, before, after, d, d_after, step),
        before.stack@ == rest.push(Value::I32(number)),
    ensures
        after.memory@ == before.memory@,
        after.stack@ == rest,
        d_after == d,
        step is Panic,
        number < d.string@.len() ==> step->Panic_0 is Message && step->Panic_0->Message_0@
            == d.string@[number as int]@,
        number >= d.string@.len() ==> step->Panic_0 == SymPanic::UnknownHandle,
{
    reveal_with_fuel(stack::takes, 3);
    reveal_with_fuel(stack::left, 3);
    assert(before.stack@.drop_last() =~= rest);
}

/// The host is to encode the token stream that the guest names, if there is one.
pub proof fn law_called_serialize<T>(
    before: Interpreter,
    after: Interpreter,
    d: Data<T>,
    d_after: Data<T>,
    step: WattStep,
    rest: Seq<Value>,
    number: u32,
)
    requires
        called(WattFunc::TokenStreamSerialize, before, after, d, d_after, step),
        before.stack@ == rest.push(Value::I32(number)),
    ensures
        after.memory@ == before.memory@,
        after.stack@ == rest,
        d_after == d,
        number < d.tokenstream@.len() ==> step == WattStep::Encode(number),
        number >= d.tokenstream@.len() ==> step == WattStep::Panic(SymPanic::UnknownHandle),
{
    reveal_with_fuel(stack::takes, 3);
    reveal_with_fuel(stack::left, 3);
    assert(before.stack@.drop_last() =~= rest);
}

/// The host is to decode the bytes of the region that the guest names.
pub proof fn law_called_deserialize<T>(
    before: Interpreter,
    after: Interpreter,
    d: Data<T>,
    d_after: Data<T>,
    step: WattStep,
    rest: Seq<Value>,
    ptr: u32,
    len: u32,
)
    requires
        called(WattFunc::TokenStreamDeserialize, before, after, d, d_after, step),
        before.stack@ == rest.push(Value::I32(ptr)).push(Value::I32(len)),
    ensures
        after.memory@ == before.memory@,
        after.stack@ == rest,
        d_after == d,
        ptr + len <= before.memory@.len() ==> step is Decode && step->Decode_0@
            == before.memory@.subrange(ptr as int, ptr + len),
        ptr + len > before.memory@.len() ==> step == WattStep::Panic(SymPanic::OutOfBounds),
{
    reveal_with_fuel(stack::takes, 3);
    reveal_with_fuel(stack::left, 3);
    assert(before.stack@.drop_last() =~= rest.push(Value::I32(ptr)));
    assert(before.stack@.drop_last().drop_last() =~= rest);
}

/// The host is to parse the text that the region encodes which the guest names. Where it encodes
/// none, the guest gets the number that stands for that at once.
pub proof fn law_called_parse<T>(
    before: Interpreter,
    after: Interpreter,
    d: Data<T>,
    d_after: Data<T>,
    step: WattStep,
    rest: Seq<Value>,
    ptr: u32,
    len: u32,
)
    requires
        called(WattFunc::TokenStreamParse, before, after, d, d_after, step),
        before.stack@ == rest.push(Value::I32(ptr)).push(Value::I32(len)),
    ensures
        after.memory@ == before.memory@,
        d_after == d,
        ptr + len > before.memory@.len() ==> step == WattStep::Panic(SymPanic::OutOfBounds)
            && after.stack@ == rest,
        ptr + len <= before.memory@.len() ==> {
            let bytes = before.memory@.subrange(ptr as int, ptr + len);
            &&& vstd::utf8::valid_utf8(bytes) ==> {
                &&& step is Parse
                &&& step->Parse_0@ == vstd::utf8::decode_utf8(bytes)
                &&& after.stack@ == rest
            }
            &&& !vstd::utf8::valid_utf8(bytes) ==> {
                &&& step == WattStep::Done
                &&& after.stack@ == rest.push(Value::I32(0xffff_ffff))
            }
        },
{
    reveal_with_fuel(stack::takes, 3);
    reveal_with_fuel(stack::left, 3);
    assert(before.stack@.drop_last() =~= rest.push(Value::I32(ptr)));
    assert(before.stack@.drop_last().drop_last() =~= rest);
}

} // verus!
