//! The arguments and the environment of a guest.
use crate::errno::{ERRNO_FAULT, ERRNO_SUCCESS};
use crate::import_wasi_p1;
use crate::import_wasi_p1::stack;
use crate::import_wasi_p1::stack::{
    pop_u32, push_errno, push_u32, within, write_u32, Answer,
};
use crate::memory;
use crate::memory::{copy_into, u32_le_bytes};
use crate::runtime::{Interpreter, WasiFunc};
use crate::wasi_ctx::WasiProcMacroCtx;
use vstd::prelude::*;

verus! {

/// Whether the length of all strings together can be told.
pub open spec fn strings_fit(entries: Seq<Vec<u8>>) -> bool {
    memory::concat(memory::byte_seqs(entries)).len() <= u32::MAX
}

/// The length of all strings together, if it can be told.
pub fn total_len(entries: &Vec<Vec<u8>>) -> (total: Option<u32>)
    ensures
        total is Some <==> strings_fit(entries@),
        total matches Some(len) ==> len == memory::concat(memory::byte_seqs(entries@)).len(),
{
    let ghost list = memory::byte_seqs(entries@);
    let mut total: u32 = 0;
    let mut i: usize = 0;
    assert(list.take(0) =~= Seq::<Seq<u8>>::empty());
    while i < entries.len()
        invariant
            i <= entries@.len(),
            list == memory::byte_seqs(entries@),
            total == memory::concat(list.take(i as int)).len(),
        decreases entries@.len() - i,
    {
        proof {
            assert(list.take(i + 1).drop_last() =~= list.take(i as int));
            assert(list.take(i + 1).last() == entries@[i as int]@);
            memory::lemma_concat_take_len(list, (i + 1) as nat);
        }
        if entries[i].len() as u64 > (u32::MAX - total) as u64 {
            return None;
        }
        total += entries[i].len() as u32;
        i += 1;
    }
    assert(list.take(i as int) =~= list);
    Some(total)
}

/// How many strings there are and how long they are together, put where the guest wants the two
/// numbers.
pub open spec fn sizes_answer(
    memory: Seq<u8>,
    entries: Seq<Vec<u8>>,
    count_ptr: u32,
    size_ptr: u32,
) -> Answer {
    let count = memory::le_bytes((entries.len() as usize as u32) as nat, 4);
    let total = memory::le_bytes(memory::concat(memory::byte_seqs(entries)).len(), 4);
    let first = stack::store(memory, count_ptr, count);
    if first.errno == ERRNO_SUCCESS {
        stack::store(first.memory, size_ptr, total)
    } else {
        first
    }
}

/// Answers how many strings there are and how long they are together.
fn push_sizes(interp: &mut Interpreter, entries: &Vec<Vec<u8>>, count_ptr: u32, size_ptr: u32)
    requires
        strings_fit(entries@),
    ensures
        stack::answered(
            *old(interp),
            *final(interp),
            sizes_answer(old(interp).memory@, entries@, count_ptr, size_ptr),
        ),
{
    let total: u32 = match total_len(entries) {
        Some(total) => total,
        None => 0,
    };
    proof {
        memory::lemma_le_bytes_len((entries@.len() as usize as u32) as nat, 4);
    }
    if write_u32(&mut interp.memory, count_ptr, entries.len() as u32) {
        push_u32(interp, size_ptr, total);
    } else {
        push_errno(interp, ERRNO_FAULT);
    }
}

/// The strings from `idx` on, put one after the other from `write_ptr` on, each with its place
/// in the list of places at `slots`. What does not fit ends it.
pub open spec fn strings_answer(
    memory: Seq<u8>,
    entries: Seq<Seq<u8>>,
    idx: nat,
    slots: nat,
    write_ptr: nat,
) -> Answer
    decreases entries.len() - idx,
{
    let slot = slots + 4 * idx;
    if idx >= entries.len() {
        Answer { errno: ERRNO_SUCCESS, memory }
    } else if slot + 4 > memory.len() {
        Answer { errno: ERRNO_FAULT, memory }
    } else {
        let entry = entries[idx as int];
        let placed = memory::splice(
            memory,
            slot as int,
            memory::le_bytes((write_ptr as usize as u32) as nat, 4),
        );
        if write_ptr + entry.len() > memory.len() {
            Answer { errno: ERRNO_FAULT, memory: placed }
        } else {
            strings_answer(
                memory::splice(placed, write_ptr as int, entry),
                entries,
                idx + 1,
                slots,
                write_ptr + entry.len(),
            )
        }
    }
}

/// Answers the strings themselves.
fn push_strings(interp: &mut Interpreter, entries: &Vec<Vec<u8>>, slots: u32, buf_ptr: u32)
    ensures
        stack::answered(
            *old(interp),
            *final(interp),
            strings_answer(
                old(interp).memory@,
                memory::byte_seqs(entries@),
                0,
                slots as nat,
                buf_ptr as nat,
            ),
        ),
{
    let ghost list = memory::byte_seqs(entries@);
    let ghost answer = strings_answer(interp.memory@, list, 0, slots as nat, buf_ptr as nat);
    let mut write_ptr: u64 = buf_ptr as u64;
    let mut slot: u64 = slots as u64;
    let mut idx: usize = 0;
    while idx < entries.len()
        invariant
            idx <= entries@.len(),
            list == memory::byte_seqs(entries@),
            interp.stack == old(interp).stack,
            slot == slots + 4 * idx,
            write_ptr <= u32::MAX || write_ptr <= interp.memory@.len(),
            slot <= u32::MAX || slot <= interp.memory@.len(),
            answer == strings_answer(
                interp.memory@,
                list,
                idx as nat,
                slots as nat,
                write_ptr as nat,
            ),
            answer == strings_answer(
                old(interp).memory@,
                list,
                0,
                slots as nat,
                buf_ptr as nat,
            ),
        decreases entries@.len() - idx,
    {
        let entry: &Vec<u8> = &entries[idx];
        assert(list[idx as int] == entry@);
        if !within(interp.memory.len(), slot, 4) {
            push_errno(interp, ERRNO_FAULT);
            return;
        }
        let place: Vec<u8> = u32_le_bytes(write_ptr as u32);
        proof {
            memory::lemma_le_bytes_len((write_ptr as u32) as nat, 4);
        }
        copy_into(&mut interp.memory, slot as usize, place.as_slice());
        if !within(interp.memory.len(), write_ptr, entry.len() as u64) {
            push_errno(interp, ERRNO_FAULT);
            return;
        }
        copy_into(&mut interp.memory, write_ptr as usize, entry.as_slice());
        write_ptr += entry.len() as u64;
        slot += 4;
        idx += 1;
    }
    push_errno(interp, ERRNO_SUCCESS);
}

/// What [`wasi_args_sizes_get`] does to a guest.
pub open spec fn args_sizes_get_ran(
    before: Interpreter,
    after: Interpreter,
    ctx: &WasiProcMacroCtx,
) -> bool {
    stack::ran(
        before,
        after,
        import_wasi_p1::wasi_params(WasiFunc::ArgsSizesGet),
        sizes_answer(
            before.memory@,
            ctx.args_entries@,
            stack::word_arg(before.stack@, 2, 0),
            stack::word_arg(before.stack@, 2, 1),
        ),
    )
}

/// Tells how many arguments there are and how long they are together.
pub fn wasi_args_sizes_get(interp: &mut Interpreter, ctx: &WasiProcMacroCtx) -> (trap: Option<
    String,
>)
    requires
        strings_fit(ctx.args_entries@),
    ensures
        trap is None,
        args_sizes_get_ran(*old(interp), *final(interp), ctx),
{
    proof {
        reveal_with_fuel(stack::takes, 3);
        reveal_with_fuel(stack::left, 3);
    }
    let size_ptr: u32 = pop_u32(interp)?;
    let count_ptr: u32 = pop_u32(interp)?;
    push_sizes(interp, &ctx.args_entries, count_ptr, size_ptr);
    None
}

/// What [`wasi_args_get`] does to a guest.
pub open spec fn args_get_ran(
    before: Interpreter,
    after: Interpreter,
    ctx: &WasiProcMacroCtx,
) -> bool {
    stack::ran(
        before,
        after,
        import_wasi_p1::wasi_params(WasiFunc::ArgsGet),
        strings_answer(
            before.memory@,
            memory::byte_seqs(ctx.args_entries@),
            0,
            stack::word_arg(before.stack@, 2, 0) as nat,
            stack::word_arg(before.stack@, 2, 1) as nat,
        ),
    )
}

/// Hands out the arguments.
pub fn wasi_args_get(interp: &mut Interpreter, ctx: &WasiProcMacroCtx) -> (trap: Option<String>)
    ensures
        trap is None,
        args_get_ran(*old(interp), *final(interp), ctx),
{
    proof {
        reveal_with_fuel(stack::takes, 3);
        reveal_with_fuel(stack::left, 3);
    }
    let buf_ptr: u32 = pop_u32(interp)?;
    let slots: u32 = pop_u32(interp)?;
    push_strings(interp, &ctx.args_entries, slots, buf_ptr);
    None
}

/// What [`wasi_environ_sizes_get`] does to a guest.
pub open spec fn environ_sizes_get_ran(
    before: Interpreter,
    after: Interpreter,
    ctx: &WasiProcMacroCtx,
) -> bool {
    stack::ran(
        before,
        after,
        import_wasi_p1::wasi_params(WasiFunc::EnvironSizesGet),
        sizes_answer(
            before.memory@,
            ctx.env_entries@,
            stack::word_arg(before.stack@, 2, 0),
            stack::word_arg(before.stack@, 2, 1),
        ),
    )
}

/// Tells how many variables there are and how long they are together.
pub fn wasi_environ_sizes_get(interp: &mut Interpreter, ctx: &WasiProcMacroCtx) -> (trap: Option<
    String,
>)
    requires
        strings_fit(ctx.env_entries@),
    ensures
        trap is None,
        environ_sizes_get_ran(*old(interp), *final(interp), ctx),
{
    proof {
        reveal_with_fuel(stack::takes, 3);
        reveal_with_fuel(stack::left, 3);
    }
    let size_ptr: u32 = pop_u32(interp)?;
    let count_ptr: u32 = pop_u32(interp)?;
    push_sizes(interp, &ctx.env_entries, count_ptr, size_ptr);
    None
}

/// What [`wasi_environ_get`] does to a guest.
pub open spec fn environ_get_ran(
    before: Interpreter,
    after: Interpreter,
    ctx: &WasiProcMacroCtx,
) -> bool {
    stack::ran(
        before,
        after,
        import_wasi_p1::wasi_params(WasiFunc::EnvironGet),
        strings_answer(
            before.memory@,
            memory::byte_seqs(ctx.env_entries@),
            0,
            stack::word_arg(before.stack@, 2, 0) as nat,
            stack::word_arg(before.stack@, 2, 1) as nat,
        ),
    )
}

/// Hands out the environment.
pub fn wasi_environ_get(interp: &mut Interpreter, ctx: &WasiProcMacroCtx) -> (trap: Option<String>)
    ensures
        trap is None,
        environ_get_ran(*old(interp), *final(interp), ctx),
{
    proof {
        reveal_with_fuel(stack::takes, 3);
        reveal_with_fuel(stack::left, 3);
    }
    let buf_ptr: u32 = pop_u32(interp)?;
    let slots: u32 = pop_u32(interp)?;
    push_strings(interp, &ctx.env_entries, slots, buf_ptr);
    None
}

/// A guest that provides two places apart from each other finds there how many strings there
/// are and how long they are together.
pub proof fn law_sizes_read_back(
    memory: Seq<u8>,
    entries: Seq<Vec<u8>>,
    count_ptr: u32,
    size_ptr: u32,
)
    requires
        strings_fit(entries),
        entries.len() <= u32::MAX,
        count_ptr + 4 <= memory.len(),
        size_ptr + 4 <= memory.len(),
        count_ptr + 4 <= size_ptr || size_ptr + 4 <= count_ptr,
    ensures
        ({
            let answer = sizes_answer(memory, entries, count_ptr, size_ptr);
            &&& answer.errno == ERRNO_SUCCESS
            &&& memory::le_value(answer.memory.subrange(count_ptr as int, count_ptr + 4))
                == entries.len()
            &&& memory::le_value(answer.memory.subrange(size_ptr as int, size_ptr + 4))
                == memory::concat(memory::byte_seqs(entries)).len()
        }),
{
    let total = memory::concat(memory::byte_seqs(entries)).len();
    let count = memory::le_bytes(entries.len(), 4);
    let size = memory::le_bytes(total, 4);
    memory::lemma_le_bytes_len(entries.len(), 4);
    memory::lemma_le_bytes_len(total, 4);
    reveal_with_fuel(memory::pow256, 5);
    memory::law_le_round_trip(entries.len(), 4);
    memory::law_le_round_trip(total, 4);
    let answer = sizes_answer(memory, entries, count_ptr, size_ptr);
    assert(answer.memory.subrange(count_ptr as int, count_ptr + 4) =~= count);
    assert(answer.memory.subrange(size_ptr as int, size_ptr + 4) =~= size);
}

/// Where string `i` stands in the buffer.
pub open spec fn string_offset(entries: Seq<Seq<u8>>, i: int) -> nat {
    memory::concat(entries.take(i)).len()
}

/// Whether `n` places at `slots` and the strings in a buffer at `buf_ptr` lie within the memory
/// and apart from each other.
pub open spec fn room_for_strings(
    memory_len: nat,
    entries: Seq<Seq<u8>>,
    slots: nat,
    buf_ptr: nat,
) -> bool {
    let slots_end = slots + 4 * entries.len();
    let buf_end = buf_ptr + memory::concat(entries).len();
    &&& slots_end <= memory_len
    &&& buf_end <= memory_len
    &&& slots_end <= buf_ptr || buf_end <= slots
}

/// Whether the strings up to `n` stand in the buffer at `buf_ptr`, their places in the list at
/// `slots`, and the rest of the memory is as it was.
pub open spec fn holds_strings(
    before: Seq<u8>,
    after: Seq<u8>,
    entries: Seq<Seq<u8>>,
    n: nat,
    slots: nat,
    buf_ptr: nat,
) -> bool {
    &&& after.len() == before.len()
    &&& forall|i: int|
        0 <= i < n ==> memory::le_value(after.subrange(slots + 4 * i, slots + 4 * i + 4)) == buf_ptr
            + #[trigger] string_offset(entries, i)
    &&& forall|i: int|
        0 <= i < n ==> after.subrange(
            (buf_ptr + #[trigger] string_offset(entries, i)) as int,
            (buf_ptr + string_offset(entries, i) + entries[i].len()) as int,
        ) == entries[i]
    &&& forall|k: int|
        0 <= k < before.len() && !(slots <= k < slots + 4 * n) && !(buf_ptr <= k < buf_ptr
            + string_offset(entries, n as int)) ==> after[k] == before[k]
}

/// One more string put into the buffer.
proof fn lemma_one_more_string(
    before: Seq<u8>,
    now: Seq<u8>,
    entries: Seq<Seq<u8>>,
    n: nat,
    slots: nat,
    buf_ptr: nat,
)
    requires
        before.len() <= 0x1_0000_0000,
        buf_ptr <= u32::MAX,
        n < entries.len(),
        room_for_strings(before.len(), entries, slots, buf_ptr),
        holds_strings(before, now, entries, n, slots, buf_ptr),
        buf_ptr + string_offset(entries, n as int) <= u32::MAX,
    ensures
        ({
            let at = buf_ptr + string_offset(entries, n as int);
            let slot = slots + 4 * n;
            let placed = memory::splice(
                now,
                slot as int,
                memory::le_bytes((at as usize as u32) as nat, 4),
            );
            let next = memory::splice(placed, at as int, entries[n as int]);
            &&& slot + 4 <= now.len()
            &&& at + entries[n as int].len() <= now.len()
            &&& string_offset(entries, (n + 1) as int) == string_offset(entries, n as int)
                + entries[n as int].len()
            &&& holds_strings(before, next, entries, n + 1, slots, buf_ptr)
        }),
{
    let entry = entries[n as int];
    let at = buf_ptr + string_offset(entries, n as int);
    let slot = slots + 4 * n;
    let bytes = memory::le_bytes((at as usize as u32) as nat, 4);
    let placed = memory::splice(now, slot as int, bytes);
    let next = memory::splice(placed, at as int, entry);
    memory::lemma_le_bytes_len((at as usize as u32) as nat, 4);
    assert(entries.take((n + 1) as int).drop_last() =~= entries.take(n as int));
    assert(entries.take((n + 1) as int).last() == entry);
    memory::lemma_concat_take_len(entries, n + 1);
    reveal_with_fuel(memory::pow256, 5);
    memory::law_le_round_trip(at, 4);
    assert(next.subrange(slot as int, (slot + 4) as int) =~= bytes);
    assert(next.subrange(at as int, (at + entry.len()) as int) =~= entry);
    assert forall|i: int| 0 <= i < n + 1 implies memory::le_value(
        next.subrange(slots + 4 * i, slots + 4 * i + 4),
    ) == buf_ptr + #[trigger] string_offset(entries, i) by {
        if i < n {
            assert(next.subrange(slots + 4 * i, slots + 4 * i + 4) =~= now.subrange(
                slots + 4 * i,
                slots + 4 * i + 4,
            ));
        }
    }
    assert forall|i: int| 0 <= i < n + 1 implies next.subrange(
        (buf_ptr + #[trigger] string_offset(entries, i)) as int,
        (buf_ptr + string_offset(entries, i) + entries[i].len()) as int,
    ) == entries[i] by {
        if i < n {
            let a = (buf_ptr + string_offset(entries, i)) as int;
            let b = (buf_ptr + string_offset(entries, i) + entries[i].len()) as int;
            assert(entries.take(n as int).take(i + 1) =~= entries.take(i + 1));
            memory::lemma_concat_take_len(entries.take(n as int), (i + 1) as nat);
            assert(entries.take(i + 1).drop_last() =~= entries.take(i));
            assert(entries.take(i + 1).last() == entries[i]);
            assert(b <= at);
            assert(next.subrange(a, b) =~= now.subrange(a, b));
        }
    }
}

/// The strings from `n` on, put behind those before.
proof fn lemma_strings_read_back(
    before: Seq<u8>,
    now: Seq<u8>,
    entries: Seq<Seq<u8>>,
    n: nat,
    slots: nat,
    buf_ptr: nat,
)
    requires
        before.len() <= 0x1_0000_0000,
        buf_ptr <= u32::MAX,
        n <= entries.len(),
        room_for_strings(before.len(), entries, slots, buf_ptr),
        forall|i: int|
            0 <= i < entries.len() ==> (#[trigger] entries[i]).len() > 0 || before.len()
                < 0x1_0000_0000,
        holds_strings(before, now, entries, n, slots, buf_ptr),
    ensures
        ({
            let answer = strings_answer(
                now,
                entries,
                n,
                slots,
                buf_ptr + string_offset(entries, n as int),
            );
            &&& answer.errno == ERRNO_SUCCESS
            &&& holds_strings(before, answer.memory, entries, entries.len(), slots, buf_ptr)
        }),
    decreases entries.len() - n,
{
    if n < entries.len() {
        memory::lemma_concat_take_len(entries, n + 1);
        assert(entries.take((n + 1) as int).drop_last() =~= entries.take(n as int));
        assert(entries.take((n + 1) as int).last() == entries[n as int]);
        lemma_one_more_string(before, now, entries, n, slots, buf_ptr);
        let at = buf_ptr + string_offset(entries, n as int);
        let placed = memory::splice(
            now,
            (slots + 4 * n) as int,
            memory::le_bytes((at as usize as u32) as nat, 4),
        );
        let next = memory::splice(placed, at as int, entries[n as int]);
        lemma_strings_read_back(before, next, entries, n + 1, slots, buf_ptr);
    }
}

/// A guest that provides room for as many strings and bytes as it was told of finds each string
/// where its place in the list says, and everything else as it was. An empty string could stand
/// behind the last byte of the largest memory, at a place that no number tells.
pub proof fn law_strings_read_back(memory: Seq<u8>, entries: Seq<Seq<u8>>, slots: u32, buf_ptr: u32)
    requires
        memory.len() <= 0x1_0000_0000,
        forall|i: int|
            0 <= i < entries.len() ==> (#[trigger] entries[i]).len() > 0 || memory.len()
                < 0x1_0000_0000,
        room_for_strings(memory.len(), entries, slots as nat, buf_ptr as nat),
    ensures
        ({
            let answer = strings_answer(memory, entries, 0, slots as nat, buf_ptr as nat);
            &&& answer.errno == ERRNO_SUCCESS
            &&& holds_strings(
                memory,
                answer.memory,
                entries,
                entries.len(),
                slots as nat,
                buf_ptr as nat,
            )
        }),
{
    assert(entries.take(0) =~= Seq::<Seq<u8>>::empty());
    lemma_strings_read_back(memory, memory, entries, 0, slots as nat, buf_ptr as nat);
}

/// One string more: where those before it fit, its place is put into the next slot and the string
/// behind them, as far as that fits; where they do not, nothing more is done.
pub proof fn law_one_string_more(
    memory: Seq<u8>,
    entries: Seq<Seq<u8>>,
    entry: Seq<u8>,
    slots: nat,
    buf_ptr: nat,
)
    ensures
        ({
            let fewer = strings_answer(memory, entries, 0, slots, buf_ptr);
            let all = strings_answer(memory, entries.push(entry), 0, slots, buf_ptr);
            let slot = slots + 4 * entries.len();
            let at = buf_ptr + entries.flatten().len();
            let placed = memory::splice(
                fewer.memory,
                slot as int,
                memory::le_bytes((at as usize as u32) as nat, 4),
            );
            &&& fewer.errno != 0 ==> all == fewer
            &&& fewer.errno == 0 && slot + 4 > memory.len() ==> all.errno == 21 && all.memory
                == fewer.memory
            &&& fewer.errno == 0 && slot + 4 <= memory.len() && at + entry.len() > memory.len()
                ==> all.errno == 21 && all.memory == placed
            &&& fewer.errno == 0 && slot + 4 <= memory.len() && at + entry.len() <= memory.len()
                ==> all.errno == 0 && all.memory == memory::splice(placed, at as int, entry)
        }),
{
    lemma_one_string_more(memory, entries, entry, 0, slots, buf_ptr);
    assert(entries.skip(0) =~= entries);
}

/// One string more, from some string on.
proof fn lemma_one_string_more(
    memory: Seq<u8>,
    entries: Seq<Seq<u8>>,
    entry: Seq<u8>,
    idx: nat,
    slots: nat,
    at: nat,
)
    requires
        idx <= entries.len(),
    ensures
        ({
            let fewer = strings_answer(memory, entries, idx, slots, at);
            let all = strings_answer(memory, entries.push(entry), idx, slots, at);
            let slot = slots + 4 * entries.len();
            let end = at + entries.skip(idx as int).flatten().len();
            let placed = memory::splice(
                fewer.memory,
                slot as int,
                memory::le_bytes((end as usize as u32) as nat, 4),
            );
            &&& fewer.memory.len() == memory.len()
            &&& fewer.errno != 0 ==> all == fewer
            &&& fewer.errno == 0 && slot + 4 > memory.len() ==> all.errno == 21 && all.memory
                == fewer.memory
            &&& fewer.errno == 0 && slot + 4 <= memory.len() && end + entry.len() > memory.len()
                ==> all.errno == 21 && all.memory == placed
            &&& fewer.errno == 0 && slot + 4 <= memory.len() && end + entry.len() <= memory.len()
                ==> all.errno == 0 && all.memory == memory::splice(placed, end as int, entry)
        }),
    decreases entries.len() - idx,
{
    let longer = entries.push(entry);
    let slot = slots + 4 * idx;
    if idx == entries.len() {
        assert(entries.skip(idx as int) =~= Seq::<Seq<u8>>::empty());
        assert(longer[idx as int] == entry);
        reveal_with_fuel(strings_answer, 2);
    } else {
        let first = entries[idx as int];
        assert(longer[idx as int] == first);
        let rest = entries.skip(idx as int);
        assert(rest.drop_first() =~= entries.skip((idx + 1) as int));
        assert(rest.first() == first);
        assert(rest.flatten() == first + entries.skip((idx + 1) as int).flatten());
        let placed = memory::splice(
            memory,
            slot as int,
            memory::le_bytes((at as usize as u32) as nat, 4),
        );
        let next = memory::splice(placed, at as int, first);
        lemma_one_string_more(next, entries, entry, idx + 1, slots, at + first.len());
    }
}

/// All strings fit if the list of their places and all of them together lie within the memory, and
/// no string needs any room.
pub proof fn law_room_for_all_strings(
    memory: Seq<u8>,
    entries: Seq<Seq<u8>>,
    slots: nat,
    buf_ptr: nat,
)
    ensures
        ({
            let answer = strings_answer(memory, entries, 0, slots, buf_ptr);
            let fits = entries.len() == 0 || slots + 4 * entries.len() <= memory.len() && buf_ptr
                + entries.flatten().len() <= memory.len();
            &&& fits ==> answer.errno == 0
            &&& !fits ==> answer.errno == 21
            &&& entries.len() == 0 ==> answer.memory == memory
            &&& answer.memory.len() == memory.len()
        }),
    decreases entries.len(),
{
    if entries.len() > 0 {
        let fewer = entries.drop_last();
        law_room_for_all_strings(memory, fewer, slots, buf_ptr);
        law_one_string_more(memory, fewer, entries.last(), slots, buf_ptr);
        assert(fewer.push(entries.last()) =~= entries);
        fewer.lemma_flatten_push(entries.last());
    }
}

/// The length of all strings together can be told exactly if it fits in 32 bits.
pub proof fn law_tellable_lengths(entries: Seq<Vec<u8>>)
    ensures
        strings_fit(entries) <==> memory::byte_seqs(entries).flatten().len() <= 0xffff_ffff,
{
    memory::law_concat_flattens(memory::byte_seqs(entries));
}

} // verus!
