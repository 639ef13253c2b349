//! Byte-level access to guest memory.
use vstd::prelude::*;

verus! {

/// The `n` low-order bytes of `v`, least significant byte first.
pub open spec fn le_bytes(v: nat, n: nat) -> Seq<u8>
    decreases n,
{
    if n == 0 {
        Seq::empty()
    } else {
        seq![(v % 256) as u8] + le_bytes(v / 256, (n - 1) as nat)
    }
}

/// The number whose bytes, least significant first, are `bytes`.
pub open spec fn le_value(bytes: Seq<u8>) -> nat
    decreases bytes.len(),
{
    if bytes.len() == 0 {
        0
    } else {
        bytes[0] as nat + 256 * le_value(bytes.drop_first())
    }
}

/// `mem` with the bytes from `at` on replaced by `data`.
pub open spec fn splice(mem: Seq<u8>, at: int, data: Seq<u8>) -> Seq<u8> {
    Seq::new(
        mem.len(),
        |i: int|
            if at <= i < at + data.len() {
                data[i - at]
            } else {
                mem[i]
            },
    )
}

/// The byte sequences that a list of vectors holds.
pub open spec fn byte_seqs(list: Seq<Vec<u8>>) -> Seq<Seq<u8>> {
    Seq::new(list.len(), |i: int| list[i]@)
}

/// The parts of `list`, one after the other.
pub open spec fn concat(list: Seq<Seq<u8>>) -> Seq<u8>
    decreases list.len(),
{
    if list.len() == 0 {
        Seq::empty()
    } else {
        concat(list.drop_last()) + list.last()
    }
}

/// The first parts together are no longer than all parts together.
pub proof fn lemma_concat_take_len(list: Seq<Seq<u8>>, n: nat)
    requires
        n <= list.len(),
    ensures
        concat(list.take(n as int)).len() <= concat(list).len(),
    decreases list.len(),
{
    if n < list.len() {
        lemma_concat_take_len(list.drop_last(), n);
        assert(list.drop_last().take(n as int) =~= list.take(n as int));
    } else {
        assert(list.take(n as int) =~= list);
    }
}

/// The bytes of a number are as many as asked for.
pub proof fn lemma_le_bytes_len(v: nat, n: nat)
    ensures
        le_bytes(v, n).len() == n,
    decreases n,
{
    if n > 0 {
        lemma_le_bytes_len(v / 256, (n - 1) as nat);
    }
}

/// `256` to the power of `n`.
pub open spec fn pow256(n: nat) -> nat
    decreases n,
{
    if n == 0 {
        1
    } else {
        256 * pow256((n - 1) as nat)
    }
}

/// Decoding an encoded number gives the number back, as long as it fits in the bytes.
pub proof fn law_le_round_trip(v: nat, n: nat)
    requires
        v < pow256(n),
    ensures
        le_value(le_bytes(v, n)) == v,
    decreases n,
{
    if n > 0 {
        let rest = le_bytes(v / 256, (n - 1) as nat);
        assert(v / 256 < pow256((n - 1) as nat)) by (nonlinear_arith)
            requires
                v < 256 * pow256((n - 1) as nat),
        ;
        law_le_round_trip(v / 256, (n - 1) as nat);
        assert(le_bytes(v, n).drop_first() =~= rest);
    }
}

/// Encoding a decoded number gives the bytes back.
pub proof fn law_le_bytes_of_value(bytes: Seq<u8>)
    ensures
        le_bytes(le_value(bytes), bytes.len()) == bytes,
        le_value(bytes) < pow256(bytes.len()),
    decreases bytes.len(),
{
    if bytes.len() > 0 {
        let rest = bytes.drop_first();
        law_le_bytes_of_value(rest);
        let v = le_value(bytes);
        assert(v % 256 == bytes[0] as nat);
        assert(v / 256 == le_value(rest));
        assert(le_bytes(v, bytes.len()) =~= bytes);
    } else {
        assert(le_bytes(le_value(bytes), 0) =~= bytes);
    }
}

/// What was written at a place is what is read there, and every other byte keeps its value.
pub proof fn law_splice_read_back(mem: Seq<u8>, at: int, data: Seq<u8>)
    requires
        0 <= at,
        at + data.len() <= mem.len(),
    ensures
        splice(mem, at, data).subrange(at, at + data.len()) == data,
        splice(mem, at, data).len() == mem.len(),
        forall|i: int|
            0 <= i < mem.len() && !(at <= i < at + data.len()) ==> splice(mem, at, data)[i]
                == mem[i],
{
    assert(splice(mem, at, data).subrange(at, at + data.len()) =~= data);
}

/// The bytes of a 64-bit number, least significant first.
pub fn u64_le_bytes(value: u64) -> (bytes: Vec<u8>)
    ensures
        bytes@ == le_bytes(value as nat, 8),
{
    let mut bytes: Vec<u8> = Vec::new();
    let mut rest: u64 = value;
    let mut i: usize = 0;
    while i < 8
        invariant
            i <= 8,
            bytes@ + le_bytes(rest as nat, (8 - i) as nat) =~= le_bytes(value as nat, 8),
        decreases 8 - i,
    {
        bytes.push((rest % 256) as u8);
        rest = rest / 256;
        i += 1;
    }
    bytes
}

/// The bytes of a 32-bit number, least significant first.
pub fn u32_le_bytes(value: u32) -> (bytes: Vec<u8>)
    ensures
        bytes@ == le_bytes(value as nat, 4),
{
    let mut bytes: Vec<u8> = Vec::new();
    let mut rest: u32 = value;
    let mut i: usize = 0;
    while i < 4
        invariant
            i <= 4,
            bytes@ + le_bytes(rest as nat, (4 - i) as nat) =~= le_bytes(value as nat, 4),
        decreases 4 - i,
    {
        bytes.push((rest % 256) as u8);
        rest = rest / 256;
        i += 1;
    }
    bytes
}

/// The 32-bit number that the four bytes at `at` hold.
pub fn read_u32(memory: &Vec<u8>, at: usize) -> (value: u32)
    requires
        at + 4 <= memory.len(),
    ensures
        value as nat == le_value(memory@.subrange(at as int, at + 4)),
{
    let b0: u32 = memory[at] as u32;
    let b1: u32 = memory[at + 1] as u32;
    let b2: u32 = memory[at + 2] as u32;
    let b3: u32 = memory[at + 3] as u32;
    proof {
        let s = memory@.subrange(at as int, at + 4);
        assert(s.drop_first() =~= memory@.subrange(at + 1, at + 4));
        assert(s.drop_first().drop_first() =~= memory@.subrange(at + 2, at + 4));
        assert(s.drop_first().drop_first().drop_first() =~= memory@.subrange(at + 3, at + 4));
        reveal_with_fuel(le_value, 5);
    }
    b0 + 256 * b1 + 65536 * b2 + 16777216 * b3
}

/// Replaces the bytes from `at` on by `data`.
pub fn copy_into(memory: &mut Vec<u8>, at: usize, data: &[u8])
    requires
        at + data@.len() <= old(memory).len(),
    ensures
        final(memory)@ == splice(old(memory)@, at as int, data@),
{
    let ghost before = memory@;
    let n: usize = data.len();
    let mut i: usize = 0;
    while i < n
        invariant
            i <= n,
            n == data@.len(),
            at + n <= before.len() <= usize::MAX,
            memory@ =~= splice(before, at as int, data@.take(i as int)),
        decreases n - i,
    {
        memory[at + i] = data[i];
        i += 1;
    }
    assert(data@.take(n as int) =~= data@);
}

/// A copy of the `n` bytes at `at`.
pub fn copy_out(memory: &[u8], at: usize, n: usize) -> (bytes: Vec<u8>)
    requires
        at + n <= memory.len(),
    ensures
        bytes@ == memory@.subrange(at as int, at + n),
{
    let mut bytes: Vec<u8> = Vec::new();
    let mut i: usize = 0;
    while i < n
        invariant
            i <= n,
            at + n <= memory@.len() <= usize::MAX,
            bytes@ =~= memory@.subrange(at as int, at + i),
        decreases n - i,
    {
        bytes.push(memory[at + i]);
        i += 1;
    }
    bytes
}

/// Whether the two hold the same bytes.
pub fn same_bytes(a: &[u8], b: &[u8]) -> (same: bool)
    ensures
        same == (a@ == b@),
{
    if a.len() != b.len() {
        return false;
    }
    let mut i: usize = 0;
    while i < a.len()
        invariant
            i <= a@.len(),
            a@.len() == b@.len(),
            a@.take(i as int) =~= b@.take(i as int),
        decreases a@.len() - i,
    {
        if a[i] != b[i] {
            assert(a@[i as int] != b@[i as int]);
            return false;
        }
        proof {
            assert(a@.take(i + 1) =~= a@.take(i as int).push(a@[i as int]));
            assert(b@.take(i + 1) =~= b@.take(i as int).push(b@[i as int]));
        }
        i += 1;
    }
    assert(a@.take(i as int) =~= a@);
    assert(b@.take(i as int) =~= b@);
    true
}

/// The bytes of a number of four and of eight bytes, least significant first.
pub proof fn law_bytes_of_numbers(v: nat)
    ensures
        le_bytes(v, 4) == seq![
            (v % 256) as u8,
            (v / 0x100 % 256) as u8,
            (v / 0x1_0000 % 256) as u8,
            (v / 0x100_0000 % 256) as u8,
        ],
        le_bytes(v, 8) == le_bytes(v, 4) + le_bytes(v / 0x1_0000_0000, 4),
{
    reveal_with_fuel(le_bytes, 9);
    assert(v / 0x100 / 0x100 == v / 0x1_0000);
    assert(v / 0x1_0000 / 0x100 == v / 0x100_0000);
    assert(v / 0x100_0000 / 0x100 == v / 0x1_0000_0000);
    assert(le_bytes(v, 4) =~= seq![
        (v % 256) as u8,
        (v / 0x100 % 256) as u8,
        (v / 0x1_0000 % 256) as u8,
        (v / 0x100_0000 % 256) as u8,
    ]);
    assert(le_bytes(v, 8) =~= le_bytes(v, 4) + le_bytes(v / 0x1_0000_0000, 4));
}

/// The number that four bytes stand for, least significant first.
pub proof fn law_number_of_bytes(bytes: Seq<u8>)
    requires
        bytes.len() == 4,
    ensures
        le_value(bytes) == bytes[0] + 0x100 * bytes[1] + 0x1_0000 * bytes[2] + 0x100_0000
            * bytes[3],
        le_value(bytes) <= 0xffff_ffff,
{
    reveal_with_fuel(le_value, 5);
}

/// Parts one after the other are the flattened list of them.
pub proof fn law_concat_flattens(list: Seq<Seq<u8>>)
    ensures
        concat(list) == list.flatten(),
    decreases list.len(),
{
    if list.len() > 0 {
        law_concat_flattens(list.drop_last());
        assert(list.drop_last().push(list.last()) =~= list);
        list.drop_last().lemma_flatten_push(list.last());
    } else {
        assert(concat(list) =~= list.flatten());
    }
}

/// A list of vectors says what each of them holds.
pub proof fn law_byte_seqs(list: Seq<Vec<u8>>)
    ensures
        byte_seqs(list).len() == list.len(),
        forall|i: int| 0 <= i < list.len() ==> (#[trigger] byte_seqs(list)[i]) == list[i]@,
{
}

/// What is put at a place stands there, byte by byte, and what stands elsewhere stays.
pub proof fn law_splice(mem: Seq<u8>, at: int, data: Seq<u8>, i: int)
    requires
        0 <= i < mem.len(),
    ensures
        splice(mem, at, data).len() == mem.len(),
        at <= i < at + data.len() ==> splice(mem, at, data)[i] == data[i - at],
        i < at || i >= at + data.len() ==> splice(mem, at, data)[i] == mem[i],
{
}

} // verus!
