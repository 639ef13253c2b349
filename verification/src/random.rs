//! Random bytes.
use crate::memory;
use crate::memory::u64_le_bytes;
use std::collections::hash_map::{DefaultHasher, RandomState};
use std::hash::{BuildHasher, Hasher};
use vstd::prelude::*;
use vstd::std_specs::hash::DefaultHasherAdditionalSpecFns;

verus! {

/// `RandomState::new`: a maker of hashers with keys of its own. Nothing is said of the keys,
/// which are random.
pub assume_specification[ RandomState::new ]() -> (state: RandomState)
;

/// `RandomState::build_hasher`: a hasher with the keys of its maker. Nothing is said of what it
/// computes, which depends on the random keys.
pub assume_specification[ <RandomState as BuildHasher>::build_hasher ](
    state: &RandomState,
) -> (hasher: DefaultHasher)
;

/// How many blocks of eight bytes are needed for `len` bytes.
pub open spec fn blocks_for(len: nat) -> nat {
    (len + 7) / 8
}

/// The bytes of the blocks, one block after the other.
pub open spec fn block_bytes(blocks: Seq<u64>) -> Seq<u8> {
    memory::concat(Seq::new(blocks.len(), |i: int| memory::le_bytes(blocks[i] as nat, 8)))
}

/// Whether `block` is what a hasher computes to which, after it was built, `bytes` were written
/// and nothing else.
pub open spec fn is_hash_of(block: u64, bytes: Seq<u8>) -> bool {
    exists|built: Seq<Seq<u8>>| block == #[trigger] DefaultHasher::spec_finish(built.push(bytes))
}

/// A random number: the keyed hash of a counter. Which number that is depends on the random keys
/// of the hasher, of which nothing is said.
fn random_block(state: &RandomState, counter: u64) -> (block: u64)
    ensures
        is_hash_of(block, memory::le_bytes(counter as nat, 8)),
{
    let mut hasher: DefaultHasher = state.build_hasher();
    hasher.write(u64_le_bytes(counter).as_slice());
    hasher.finish()
}

/// The counter after `n` blocks were drawn.
pub open spec fn advanced(counter: u64, n: nat) -> u64 {
    ((counter + n) % 0x1_0000_0000_0000_0000) as u64
}

/// Whether `blocks` are random blocks for `len` bytes: as many as are needed, each the keyed hash
/// of the next number of the counter.
pub open spec fn are_drawn(blocks: Seq<u64>, counter: u64, len: nat) -> bool {
    &&& blocks.len() == blocks_for(len)
    &&& forall|i: int|
        0 <= i < blocks.len() ==> is_hash_of(
            #[trigger] blocks[i],
            memory::le_bytes(advanced(counter, i as nat) as nat, 8),
        )
}

/// Draws random blocks for `len` bytes, each the keyed hash of the next number of the counter.
pub fn draw_blocks(state: &RandomState, counter: &mut u64, len: usize) -> (blocks: Vec<u64>)
    ensures
        are_drawn(blocks@, *old(counter), len as nat),
        *final(counter) == advanced(*old(counter), blocks_for(len as nat)),
{
    let n: usize = len / 8 + (if len % 8 == 0 {
        0usize
    } else {
        1usize
    });
    let mut blocks: Vec<u64> = Vec::new();
    while blocks.len() < n
        invariant
            blocks@.len() <= n,
            *counter == advanced(*old(counter), blocks@.len()),
            forall|i: int|
                0 <= i < blocks@.len() ==> is_hash_of(
                    #[trigger] blocks@[i],
                    memory::le_bytes(advanced(*old(counter), i as nat) as nat, 8),
                ),
        decreases n - blocks@.len(),
    {
        blocks.push(random_block(state, *counter));
        *counter = counter.wrapping_add(1);
    }
    blocks
}

/// Replaces `out` by the bytes of the blocks, as far as they fit.
pub fn fill_from_blocks(out: &mut Vec<u8>, blocks: &Vec<u64>)
    requires
        blocks@.len() == blocks_for(old(out)@.len()),
    ensures
        final(out)@ == block_bytes(blocks@).take(old(out)@.len() as int),
        final(out)@.len() == old(out)@.len(),
{
    let len: usize = out.len();
    let ghost list = Seq::new(blocks@.len(), |i: int| memory::le_bytes(blocks@[i] as nat, 8));
    let mut bytes: Vec<u8> = Vec::new();
    let mut i: usize = 0;
    assert(list.take(0) =~= Seq::<Seq<u8>>::empty());
    while i < blocks.len()
        invariant
            i <= blocks@.len(),
            list == Seq::new(blocks@.len(), |i: int| memory::le_bytes(blocks@[i] as nat, 8)),
            bytes@ == memory::concat(list.take(i as int)),
            bytes@.len() == 8 * i,
        decreases blocks@.len() - i,
    {
        let mut block: Vec<u8> = u64_le_bytes(blocks[i]);
        proof {
            memory::lemma_le_bytes_len(blocks@[i as int] as nat, 8);
            assert(list.take(i + 1).drop_last() =~= list.take(i as int));
            assert(list.take(i + 1).last() == block@);
        }
        bytes.append(&mut block);
        i += 1;
    }
    assert(list.take(i as int) =~= list);
    bytes.truncate(len);
    *out = bytes;
}

/// Bytes are drawn in blocks of eight: as many blocks as are needed, and none more.
pub proof fn law_blocks_suffice(len: nat)
    ensures
        8 * blocks_for(len) >= len,
        8 * blocks_for(len) < len + 8,
{
}

/// The bytes of blocks are those of each block, eight of them, least significant first, one block
/// after the other.
pub proof fn law_bytes_of_blocks(blocks: Seq<u64>, i: int)
    requires
        0 <= i < blocks.len(),
    ensures
        block_bytes(blocks).len() == 8 * blocks.len(),
        block_bytes(blocks).subrange(8 * i, 8 * i + 8) == memory::le_bytes(blocks[i] as nat, 8),
    decreases blocks.len(),
{
    let parts = |b: Seq<u64>| Seq::new(b.len(), |k: int| memory::le_bytes(b[k] as nat, 8));
    let fewer = blocks.drop_last();
    let last = memory::le_bytes(blocks.last() as nat, 8);
    memory::lemma_le_bytes_len(blocks.last() as nat, 8);
    assert(parts(blocks).drop_last() =~= parts(fewer));
    assert(block_bytes(blocks) == block_bytes(fewer) + last);
    if fewer.len() > 0 {
        law_bytes_of_blocks(fewer, if i < fewer.len() {
            i
        } else {
            0
        });
    } else {
        assert(parts(fewer) =~= Seq::<Seq<u8>>::empty());
        assert(block_bytes(fewer) =~= Seq::<u8>::empty());
    }
    if i < fewer.len() {
        assert(fewer[i] == blocks[i]);
        assert(block_bytes(blocks).subrange(8 * i, 8 * i + 8) =~= block_bytes(fewer).subrange(
            8 * i,
            8 * i + 8,
        ));
    } else {
        assert(block_bytes(blocks).subrange(8 * i, 8 * i + 8) =~= last);
    }
}

/// Each block uses up one number of the counter, which starts over after the largest number; so no
/// number is used twice before that.
pub proof fn law_counter_advances(counter: u64, n: nat, m: nat)
    ensures
        advanced(counter, 0) == counter,
        counter < 0xffff_ffff_ffff_ffff ==> advanced(counter, 1) == counter + 1,
        counter == 0xffff_ffff_ffff_ffff ==> advanced(counter, 1) == 0,
        advanced(advanced(counter, n), m) == advanced(counter, n + m),
        n < m < 0x1_0000_0000_0000_0000 ==> advanced(counter, n) != advanced(counter, m),
{
}

/// Blocks that are drawn are the keyed hashes of the numbers of the counter, one after the other,
/// each written as eight bytes.
pub proof fn law_blocks_are_hashes(blocks: Seq<u64>, counter: u64, len: nat, i: int)
    requires
        are_drawn(blocks, counter, len),
        0 <= i < blocks.len(),
    ensures
        blocks.len() == (len + 7) / 8,
        exists|built: Seq<Seq<u8>>|
            blocks[i] == #[trigger] DefaultHasher::spec_finish(
                built.push(memory::le_bytes(((counter + i) % 0x1_0000_0000_0000_0000) as nat, 8)),
            ),
{
    let number = ((counter + i) % 0x1_0000_0000_0000_0000) as nat;
    assert(is_hash_of(blocks[i], memory::le_bytes(advanced(counter, i as nat) as nat, 8)));
    assert(advanced(counter, i as nat) as nat == number);
    let built = choose|built: Seq<Seq<u8>>|
        blocks[i] == #[trigger] DefaultHasher::spec_finish(
            built.push(memory::le_bytes(number, 8)),
        );
    assert(blocks[i] == DefaultHasher::spec_finish(built.push(memory::le_bytes(number, 8))));
}

} // verus!
