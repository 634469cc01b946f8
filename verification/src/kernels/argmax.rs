//! The index of the greatest logit, found in two stages.
//!
//! A logit stands here as an integer key that orders as the logit does. The first
//! stage finds the greatest key of each block and the first index that has it. The
//! second stage finds the least such index among the blocks with the greatest key.
//! Lanes past the end hold a mask key, which is less than every real one.

use vstd::arithmetic::div_mod::*;
use vstd::arithmetic::mul::*;
use vstd::prelude::*;

use crate::kernels::schedule;

verus! {

/// The greatest key of a block, and the first index that has it.
#[derive(Clone, Copy, Debug, PartialEq, Eq, Structural)]
pub struct BlockMax {
    pub key: i64,
    pub index: i32,
}

/// The key of an index: past the end it is the mask.
pub open spec fn lane_key(keys: Seq<i64>, len: int, mask: i64, index: int) -> i64 {
    if index < len {
        keys[index]
    } else {
        mask
    }
}

/// Whether a key and an index are the greatest key of the indices from `start` up to
/// `end`, and the first index that has it.
pub open spec fn first_max(
    keys: Seq<i64>,
    len: int,
    mask: i64,
    start: int,
    end: int,
    key: i64,
    index: int,
) -> bool {
    &&& start <= index < end
    &&& lane_key(keys, len, mask, index) == key
    &&& forall|j: int| start <= j < end ==> #[trigger] lane_key(keys, len, mask, j) <= key
    &&& forall|j: int| start <= j < index ==> #[trigger] lane_key(keys, len, mask, j) < key
}

/// The greatest key of a block, and the first index that has it.
pub fn block_argmax(keys: &Vec<i64>, mask: i64, block: i32, block_size: i32, len: i32) -> (r:
    BlockMax)
    requires
        0 <= block,
        0 < block_size,
        0 <= len <= keys@.len(),
        (block + 1) * block_size <= i32::MAX,
    ensures
        first_max(
            keys@,
            len as int,
            mask,
            block * block_size,
            (block + 1) * block_size,
            r.key,
            r.index as int,
        ),
{
    proof {
        lemma_mul_is_distributive_add_other_way(block_size as int, block as int, 1);
        lemma_mul_nonnegative(block as int, block_size as int);
    }
    let base: i32 = block * block_size;
    let mut best: BlockMax = BlockMax {
        key: if base < len {
            keys[base as usize]
        } else {
            mask
        },
        index: base,
    };
    let mut lane: i32 = 1;
    while lane < block_size
        invariant
            0 < lane <= block_size,
            0 <= base,
            base + block_size <= i32::MAX,
            0 <= len <= keys@.len(),
            first_max(
                keys@,
                len as int,
                mask,
                base as int,
                base + lane,
                best.key,
                best.index as int,
            ),
        decreases block_size - lane,
    {
        let index: i32 = base + lane;
        let key: i64 = if index < len {
            keys[index as usize]
        } else {
            mask
        };
        assert(key == lane_key(keys@, len as int, mask, index as int));
        if key > best.key {
            best = BlockMax { key, index };
        }
        lane = lane + 1;
    }
    best
}

/// Whether an index is the least one among the blocks with the greatest key. Blocks
/// from `num_blocks` on count with the mask.
pub open spec fn least_of_greatest(
    blocks: Seq<BlockMax>,
    mask: i64,
    num_blocks: int,
    key: i64,
    index: int,
) -> bool {
    &&& forall|j: int|
        0 <= j < blocks.len() ==> #[trigger] block_key(blocks, mask, num_blocks, j) <= key
    &&& exists|j: int|
        0 <= j < blocks.len() && #[trigger] block_key(blocks, mask, num_blocks, j) == key
            && blocks[j].index == index
    &&& forall|j: int|
        0 <= j < blocks.len() && #[trigger] block_key(blocks, mask, num_blocks, j) == key ==> index
            <= blocks[j].index
}

/// The key of a block: from `num_blocks` on it is the mask.
pub open spec fn block_key(blocks: Seq<BlockMax>, mask: i64, num_blocks: int, j: int) -> i64 {
    if j < num_blocks {
        blocks[j].key
    } else {
        mask
    }
}

/// The least index among the blocks with the greatest key.
pub fn reduce_blocks(blocks: &Vec<BlockMax>, mask: i64, num_blocks: i32) -> (winner: i32)
    requires
        0 < blocks@.len() <= i32::MAX,
    ensures
        exists|key: i64|
            #[trigger] least_of_greatest(blocks@, mask, num_blocks as int, key, winner as int),
{
    let mut key: i64 = if 0 < num_blocks {
        blocks[0].key
    } else {
        mask
    };
    let mut winner: i32 = blocks[0].index;
    let mut lane: usize = 1;
    assert(block_key(blocks@, mask, num_blocks as int, 0) == key);
    while lane < blocks.len()
        invariant
            0 < lane <= blocks@.len() <= i32::MAX,
            forall|j: int|
                0 <= j < lane ==> #[trigger] block_key(blocks@, mask, num_blocks as int, j) <= key,
            exists|j: int|
                0 <= j < lane && #[trigger] block_key(blocks@, mask, num_blocks as int, j) == key
                    && blocks@[j].index == winner,
            forall|j: int|
                0 <= j < lane && #[trigger] block_key(blocks@, mask, num_blocks as int, j) == key
                    ==> winner <= blocks@[j].index,
        decreases blocks@.len() - lane,
    {
        let lane_key: i64 = if (lane as i32) < num_blocks {
            blocks[lane].key
        } else {
            mask
        };
        assert(block_key(blocks@, mask, num_blocks as int, lane as int) == lane_key);
        if lane_key > key {
            key = lane_key;
            winner = blocks[lane].index;
        } else if lane_key == key && blocks[lane].index < winner {
            winner = blocks[lane].index;
        }
        lane = lane + 1;
    }
    assert(least_of_greatest(blocks@, mask, num_blocks as int, key, winner as int));
    winner
}

/// The two stages together find the greatest key of all and the first index that has
/// it, where the blocks cover the keys and every key is greater than the mask.
pub proof fn two_stages_find_the_first_greatest(
    keys: Seq<i64>,
    len: int,
    mask: i64,
    block_size: int,
    blocks: Seq<BlockMax>,
    num_blocks: int,
    key: i64,
    winner: int,
)
    requires
        0 < len <= keys.len(),
        0 < block_size,
        num_blocks == schedule::ceil_div(len, block_size),
        num_blocks <= blocks.len(),
        forall|i: int| 0 <= i < len ==> mask < #[trigger] keys[i],
        forall|b: int|
            0 <= b < num_blocks ==> first_max(
                keys,
                len,
                mask,
                b * block_size,
                (b + 1) * block_size,
                (#[trigger] blocks[b]).key,
                blocks[b].index as int,
            ),
        least_of_greatest(blocks, mask, num_blocks, key, winner),
    ensures
        0 <= winner < len,
        keys[winner] == key,
        forall|i: int| 0 <= i < len ==> #[trigger] keys[i] <= key,
        forall|i: int| 0 <= i < winner ==> #[trigger] keys[i] < key,
{
    schedule::ceil_div_covers(len, block_size);
    assert forall|i: int| 0 <= i < len implies {
        let b = i / block_size;
        &&& 0 <= b < num_blocks
        &&& b * block_size <= i < (b + 1) * block_size
        &&& #[trigger] keys[i] <= block_key(blocks, mask, num_blocks, b)
    } by {
        let b = i / block_size;
        lemma_fundamental_div_mod(i, block_size);
        lemma_mod_bound(i, block_size);
        lemma_div_pos_is_pos(i, block_size);
        assert(b * block_size <= i < (b + 1) * block_size && b < num_blocks) by (nonlinear_arith)
            requires
                i == block_size * b + i % block_size,
                0 <= i % block_size < block_size,
                0 < block_size,
                i < num_blocks * block_size,
        ;
        assert(blocks[b].key >= lane_key(keys, len, mask, i));
    }
    assert(keys[0] <= block_key(blocks, mask, num_blocks, 0int / block_size));
    let w = choose|j: int|
        0 <= j < blocks.len() && #[trigger] block_key(blocks, mask, num_blocks, j) == key
            && blocks[j].index == winner;
    assert(w < num_blocks);
    assert(blocks[w].key == key);
    assert(lane_key(keys, len, mask, winner) == key);
    lemma_mul_nonnegative(w, block_size);
    assert forall|i: int| 0 <= i < winner implies #[trigger] keys[i] < key by {
        let b = i / block_size;
        if keys[i] == key {
            assert(block_key(blocks, mask, num_blocks, b) == key);
            assert(blocks[b].key == key);
            assert(winner <= blocks[b].index);
            assert(lane_key(keys, len, mask, i) < key);
        }
    }
}

} // verus!
