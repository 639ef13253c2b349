//! How a host function takes its arguments from the guest and answers.
use crate::errno::{ERRNO_FAULT, ERRNO_SUCCESS};
use crate::memory;
use crate::memory::{copy_into, u32_le_bytes, u64_le_bytes};
use crate::runtime;
use crate::runtime::types::Value as ValueType;
use crate::runtime::{Interpreter, Value};
use vstd::prelude::*;

verus! {

/// Whether the topmost values are arguments of the given types, the last argument on top.
pub open spec fn takes(stack: Seq<Value>, params: Seq<ValueType>) -> bool
    decreases params.len(),
{
    params.len() == 0 || (stack.len() > 0 && runtime::type_of(stack.last()) == params.last()
        && takes(stack.drop_last(), params.drop_last()))
}

/// What is left on the stack after arguments of the given types were taken from the top. Taking
/// stops with the first value of another type, which is taken.
pub open spec fn left(stack: Seq<Value>, params: Seq<ValueType>) -> Seq<Value>
    decreases params.len(),
{
    if params.len() == 0 || stack.len() == 0 {
        stack
    } else if runtime::type_of(stack.last()) == params.last() {
        left(stack.drop_last(), params.drop_last())
    } else {
        stack.drop_last()
    }
}

/// Argument `i` of `n` on top of the stack, an `i32`.
pub open spec fn word_arg(stack: Seq<Value>, n: int, i: int) -> u32 {
    stack[stack.len() - n + i]->I32_0
}

/// Argument `i` of `n` on top of the stack, an `i64`.
pub open spec fn long_arg(stack: Seq<Value>, n: int, i: int) -> u64 {
    stack[stack.len() - n + i]->I64_0
}

/// Arguments of the right types are taken from the top of the stack, each in its place, and what
/// was below them is left.
pub proof fn law_arguments_are_taken(
    rest: Seq<Value>,
    args: Seq<Value>,
    params: Seq<ValueType>,
)
    requires
        args.len() == params.len(),
        forall|i: int|
            0 <= i < args.len() ==> runtime::type_of(#[trigger] args[i]) == params[i],
    ensures
        takes(rest + args, params),
        left(rest + args, params) == rest,
        forall|i: int|
            0 <= i < args.len() ==> {
                &&& (#[trigger] args[i]) is I32 ==> word_arg(rest + args, args.len() as int, i)
                    == args[i]->I32_0
                &&& args[i] is I64 ==> long_arg(rest + args, args.len() as int, i)
                    == args[i]->I64_0
            },
    decreases args.len(),
{
    if args.len() == 0 {
        assert(rest + args =~= rest);
    } else {
        let fewer = args.drop_last();
        assert forall|i: int| 0 <= i < fewer.len() implies runtime::type_of(#[trigger] fewer[i])
            == params.drop_last()[i] by {
            assert(fewer[i] == args[i]);
        }
        law_arguments_are_taken(rest, fewer, params.drop_last());
        assert((rest + args).drop_last() =~= rest + fewer);
    }
}

/// Arguments are taken from the top alone, and where all of them have the right types, exactly as
/// many values as there are arguments.
pub proof fn law_arguments_come_from_the_top(stack: Seq<Value>, params: Seq<ValueType>)
    ensures
        takes(stack, params) ==> stack.len() >= params.len() && left(stack, params) == stack.take(
            stack.len() - params.len(),
        ),
        left(stack, params).len() <= stack.len(),
        left(stack, params) == stack.take(left(stack, params).len() as int),
    decreases params.len(),
{
    if params.len() == 0 || stack.len() == 0 {
        assert(stack.take(stack.len() as int) =~= stack);
    } else {
        let fewer = stack.drop_last();
        law_arguments_come_from_the_top(fewer, params.drop_last());
        let n = left(fewer, params.drop_last()).len() as int;
        assert(fewer.take(n) =~= stack.take(n));
        assert(stack.drop_last() =~= stack.take(stack.len() - 1));
        if takes(fewer, params.drop_last()) {
            assert(fewer.take(fewer.len() - params.drop_last().len()) =~= stack.take(
                stack.len() - params.len(),
            ));
        }
    }
}

/// What a host function answers: the error number that the guest gets, and the memory that it
/// finds.
pub struct Answer {
    pub errno: i32,
    pub memory: Seq<u8>,
}

/// Whether the guest was answered: the error number is on top of its stack.
pub open spec fn answered(before: Interpreter, after: Interpreter, answer: Answer) -> bool {
    &&& after.stack@ == before.stack@.push(Value::I32(answer.errno as u32))
    &&& after.memory@ == answer.memory
}

/// Whether the arguments were taken, and the guest was answered if they had the right types. It
/// gets no answer if they had not.
pub open spec fn ran(
    before: Interpreter,
    after: Interpreter,
    params: Seq<ValueType>,
    answer: Answer,
) -> bool {
    if takes(before.stack@, params) {
        &&& after.stack@ == left(before.stack@, params).push(Value::I32(answer.errno as u32))
        &&& after.memory@ == answer.memory
    } else {
        dropped(before, after, params)
    }
}

/// Whether the arguments were taken, and nothing else was done.
pub open spec fn dropped(before: Interpreter, after: Interpreter, params: Seq<ValueType>) -> bool {
    &&& after.stack@ == left(before.stack@, params)
    &&& after.memory@ == before.memory@
}

/// An error number alone.
pub open spec fn fail(memory: Seq<u8>, errno: i32) -> Answer {
    Answer { errno, memory }
}

/// Bytes that are put where the guest wants them, if they fit there.
pub open spec fn store(memory: Seq<u8>, ptr: u32, bytes: Seq<u8>) -> Answer {
    store_with(memory, ptr, bytes, ERRNO_SUCCESS)
}

/// Bytes that are put where the guest wants them, and an error number; another one if the bytes
/// do not fit there.
pub open spec fn store_with(memory: Seq<u8>, ptr: u32, bytes: Seq<u8>, errno: i32) -> Answer {
    if ptr + bytes.len() <= memory.len() {
        Answer { errno, memory: memory::splice(memory, ptr as int, bytes) }
    } else {
        Answer { errno: ERRNO_FAULT, memory }
    }
}

/// Takes the topmost value, which has to be an `i32`.
pub fn pop_u32(interp: &mut Interpreter) -> (value: Option<u32>)
    ensures
        final(interp).memory == old(interp).memory,
        final(interp).stack@ == (if old(interp).stack@.len() == 0 {
            old(interp).stack@
        } else {
            old(interp).stack@.drop_last()
        }),
        value == (if old(interp).stack@.len() == 0 {
            None
        } else {
            match old(interp).stack@.last() {
                Value::I32(v) => Some(v),
                _ => None,
            }
        }),
{
    match interp.pop() {
        Some(Value::I32(v)) => Some(v),
        _ => None,
    }
}

/// Takes the topmost value, which has to be an `i64`.
pub fn pop_i64(interp: &mut Interpreter) -> (value: Option<i64>)
    ensures
        final(interp).memory == old(interp).memory,
        final(interp).stack@ == (if old(interp).stack@.len() == 0 {
            old(interp).stack@
        } else {
            old(interp).stack@.drop_last()
        }),
        value == (if old(interp).stack@.len() == 0 {
            None
        } else {
            match old(interp).stack@.last() {
                Value::I64(v) => Some(v as i64),
                _ => None,
            }
        }),
{
    match interp.pop() {
        Some(Value::I64(v)) => Some(v as i64),
        _ => None,
    }
}

/// Whether `n` bytes at `at` lie within `len` bytes.
pub fn within(len: usize, at: u64, n: u64) -> (yes: bool)
    ensures
        yes == (at + n <= len),
{
    at <= len as u64 && n <= len as u64 - at
}

/// Puts bytes where the guest wants them. The result says whether they fit there.
pub fn write_bytes(memory: &mut Vec<u8>, ptr: u32, bytes: &[u8]) -> (fits: bool)
    ensures
        fits == (ptr + bytes@.len() <= old(memory)@.len()),
        final(memory)@ == store(old(memory)@, ptr, bytes@).memory,
{
    if !within(memory.len(), ptr as u64, bytes.len() as u64) {
        return false;
    }
    copy_into(memory, ptr as usize, bytes);
    true
}

/// Puts a 32-bit number where the guest wants it. The result says whether it fits there.
pub fn write_u32(memory: &mut Vec<u8>, ptr: u32, value: u32) -> (fits: bool)
    ensures
        fits == (ptr + 4 <= old(memory)@.len()),
        final(memory)@ == store(old(memory)@, ptr, memory::le_bytes(value as nat, 4)).memory,
{
    proof {
        memory::lemma_le_bytes_len(value as nat, 4);
    }
    let bytes: Vec<u8> = u32_le_bytes(value);
    write_bytes(memory, ptr, bytes.as_slice())
}

/// Puts a 64-bit number where the guest wants it. The result says whether it fits there.
pub fn write_u64(memory: &mut Vec<u8>, ptr: u32, value: u64) -> (fits: bool)
    ensures
        fits == (ptr + 8 <= old(memory)@.len()),
        final(memory)@ == store(old(memory)@, ptr, memory::le_bytes(value as nat, 8)).memory,
{
    proof {
        memory::lemma_le_bytes_len(value as nat, 8);
    }
    let bytes: Vec<u8> = u64_le_bytes(value);
    write_bytes(memory, ptr, bytes.as_slice())
}

/// Answers the guest with an error number.
pub fn push_errno(interp: &mut Interpreter, errno: i32)
    ensures
        answered(*old(interp), *final(interp), fail(old(interp).memory@, errno)),
{
    interp.push(Value::I32(errno as u32));
}

/// Answers the guest with bytes that are put where it wants them.
pub fn push_bytes(interp: &mut Interpreter, ptr: u32, bytes: &[u8])
    ensures
        answered(*old(interp), *final(interp), store(old(interp).memory@, ptr, bytes@)),
{
    if write_bytes(&mut interp.memory, ptr, bytes) {
        push_errno(interp, ERRNO_SUCCESS);
    } else {
        push_errno(interp, ERRNO_FAULT);
    }
}

/// Answers the guest with a 32-bit number that is put where it wants it.
pub fn push_u32(interp: &mut Interpreter, ptr: u32, value: u32)
    ensures
        answered(
            *old(interp),
            *final(interp),
            store(old(interp).memory@, ptr, memory::le_bytes(value as nat, 4)),
        ),
{
    proof {
        memory::lemma_le_bytes_len(value as nat, 4);
    }
    if write_u32(&mut interp.memory, ptr, value) {
        push_errno(interp, ERRNO_SUCCESS);
    } else {
        push_errno(interp, ERRNO_FAULT);
    }
}

/// Answers the guest with a 64-bit number that is put where it wants it.
pub fn push_u64(interp: &mut Interpreter, ptr: u32, value: u64)
    ensures
        answered(
            *old(interp),
            *final(interp),
            store(old(interp).memory@, ptr, memory::le_bytes(value as nat, 8)),
        ),
{
    proof {
        memory::lemma_le_bytes_len(value as nat, 8);
    }
    if write_u64(&mut interp.memory, ptr, value) {
        push_errno(interp, ERRNO_SUCCESS);
    } else {
        push_errno(interp, ERRNO_FAULT);
    }
}

/// An argument of another type is the last value that is taken: those above it were taken before,
/// and what is below it is left.
pub proof fn law_wrong_argument_ends_it(
    rest: Seq<Value>,
    wrong: Value,
    args: Seq<Value>,
    params: Seq<ValueType>,
)
    requires
        args.len() < params.len(),
        forall|i: int|
            0 <= i < args.len() ==> runtime::type_of(#[trigger] args[i]) == params[params.len()
                - args.len() + i],
        runtime::type_of(wrong) != params[params.len() - args.len() - 1],
    ensures
        !takes(rest.push(wrong) + args, params),
        left(rest.push(wrong) + args, params) == rest,
    decreases args.len(),
{
    let stack = rest.push(wrong) + args;
    if args.len() == 0 {
        assert(stack =~= rest.push(wrong));
        assert(stack.drop_last() =~= rest);
    } else {
        let fewer = args.drop_last();
        let types = params.drop_last();
        assert(stack.drop_last() =~= rest.push(wrong) + fewer);
        assert(runtime::type_of(args[args.len() - 1]) == params.last());
        assert forall|i: int| 0 <= i < fewer.len() implies runtime::type_of(#[trigger] fewer[i])
            == types[types.len() - fewer.len() + i] by {
            assert(fewer[i] == args[i]);
        }
        law_wrong_argument_ends_it(rest, wrong, fewer, types);
    }
}

/// Where there are fewer values than arguments, all of them are taken.
pub proof fn law_missing_arguments(args: Seq<Value>, params: Seq<ValueType>)
    requires
        args.len() < params.len(),
        forall|i: int|
            0 <= i < args.len() ==> runtime::type_of(#[trigger] args[i]) == params[params.len()
                - args.len() + i],
    ensures
        !takes(args, params),
        left(args, params) == Seq::<Value>::empty(),
    decreases args.len(),
{
    if args.len() == 0 {
        assert(left(args, params) =~= Seq::<Value>::empty());
    } else {
        let fewer = args.drop_last();
        let types = params.drop_last();
        assert(runtime::type_of(args[args.len() - 1]) == params.last());
        assert forall|i: int| 0 <= i < fewer.len() implies runtime::type_of(#[trigger] fewer[i])
            == types[types.len() - fewer.len() + i] by {
            assert(fewer[i] == args[i]);
        }
        law_missing_arguments(fewer, types);
    }
}

/// The answer to a guest is an error number on top of its stack and what its memory holds.
pub proof fn law_answers(before: Interpreter, after: Interpreter, answer: Answer)
    requires
        answered(before, after, answer),
    ensures
        after.memory@ == answer.memory,
        after.stack@.len() == before.stack@.len() + 1,
        after.stack@.last() == Value::I32(answer.errno as u32),
        after.stack@.drop_last() == before.stack@,
{
    assert(after.stack@.drop_last() =~= before.stack@);
}

/// Bytes that fit where the guest wants them stand there, and everything else stays; bytes that do
/// not fit change nothing.
pub proof fn law_stored_bytes(memory: Seq<u8>, ptr: u32, bytes: Seq<u8>, errno: i32)
    ensures
        fail(memory, errno).errno == errno,
        fail(memory, errno).memory == memory,
        ptr + bytes.len() <= memory.len() ==> {
            let answer = store_with(memory, ptr, bytes, errno);
            &&& answer.errno == errno
            &&& answer.memory.len() == memory.len()
            &&& answer.memory.subrange(ptr as int, ptr + bytes.len()) == bytes
            &&& forall|i: int|
                0 <= i < memory.len() && !(ptr <= i < ptr + bytes.len()) ==> (
                #[trigger] answer.memory[i]) == memory[i]
        },
        ptr + bytes.len() > memory.len() ==> store_with(memory, ptr, bytes, errno).errno == 21
            && store_with(memory, ptr, bytes, errno).memory == memory,
        store(memory, ptr, bytes) == store_with(memory, ptr, bytes, 0),
{
    if ptr + bytes.len() <= memory.len() {
        memory::law_splice_read_back(memory, ptr as int, bytes);
    }
}

} // verus!
