//! What a program of the rotary position embedding reads and writes.

use vstd::prelude::*;

use crate::kernels::fused;
use crate::kernels::fused::{rotated_half, route_head, Half, HeadRoute};

verus! {

/// The head that a program rotates, the position that it rotates it to, and the half
/// that it writes.
#[derive(Clone, Copy, Debug, PartialEq, Eq, Structural)]
pub struct RopeStep {
    pub head: HeadRoute,
    /// The position that the angles are taken from.
    pub position: i32,
    /// The half of the rotated head; it needs both halves of the head.
    pub half: Half,
}

/// What the program of a sequence index, a head and a half does, where the sequence
/// starts at a position and the heads of the keys follow those of the queries.
pub fn rope_step(
    seq_idx: i32,
    head_idx: i32,
    half_idx: i32,
    position_start: i32,
    num_q_heads: i32,
) -> (step: RopeStep)
    requires
        0 <= seq_idx,
        0 <= head_idx,
        0 <= num_q_heads,
        0 <= position_start,
        position_start + seq_idx <= i32::MAX,
    ensures
        (step.head.is_q, step.head.local_head as int) == fused::route(
            head_idx as int,
            num_q_heads as int,
        ),
        step.position == position_start + seq_idx,
        step.half == fused::rotated(half_idx as int),
        ((step.head.is_q, step.head.local_head as int), step.position as int, step.half) == rope_place(
            seq_idx as int,
            head_idx as int,
            half_idx as int,
            position_start as int,
            num_q_heads as int,
        ),
{
    RopeStep {
        head: route_head(head_idx, num_q_heads),
        position: position_start + seq_idx,
        half: rotated_half(half_idx),
    }
}

/// The tensor and the head, the position and the half of the program of a sequence index,
/// a head and a half.
pub open spec fn rope_place(
    seq: int,
    head: int,
    half: int,
    position_start: int,
    num_q_heads: int,
) -> ((bool, int), int, Half) {
    (fused::route(head, num_q_heads), position_start + seq, fused::rotated(half))
}

/// Every half of every query head and of every key head at every position of the sequence
/// is written by one program and no other.
pub proof fn rope_places_have_one_program(
    seq_len: int,
    num_q_heads: int,
    num_kv_heads: int,
    position_start: int,
    seq: int,
    is_q: bool,
    local: int,
    half: int,
    other_seq: int,
    other_head: int,
    other_half: int,
)
    requires
        0 <= num_q_heads,
        0 <= num_kv_heads,
        0 <= seq < seq_len,
        0 <= local < (if is_q {
            num_q_heads
        } else {
            num_kv_heads
        }),
        0 <= half <= 1,
        0 <= other_head < num_q_heads + num_kv_heads,
        0 <= other_half <= 1,
    ensures
        ({
            let head = if is_q {
                local
            } else {
                num_q_heads + local
            };
            let place = ((is_q, local), position_start + seq, fused::rotated(half));
            &&& 0 <= head < num_q_heads + num_kv_heads
            &&& rope_place(seq, head, half, position_start, num_q_heads) == place
            &&& rope_place(other_seq, other_head, other_half, position_start, num_q_heads) == place
                ==> other_seq == seq && other_head == head && other_half == half
        }),
{
}
/// The first row of a sequence is rotated to the position where the sequence starts, and each
/// row to the position behind that of the row before it, whatever the head and the half are.
pub proof fn rows_are_rotated_to_their_positions(
    seq: int,
    head: int,
    half: int,
    position_start: int,
    num_q_heads: int,
)
    ensures
        rope_place(0, head, half, position_start, num_q_heads).1 == position_start,
        rope_place(seq + 1, head, half, position_start, num_q_heads).1 == rope_place(
            seq,
            head,
            half,
            position_start,
            num_q_heads,
        ).1 + 1,
        0 <= head < num_q_heads ==> rope_place(seq, head, half, position_start, num_q_heads).0 == (
            true,
            head,
        ),
        0 <= num_q_heads <= head ==> rope_place(
            seq,
            head,
            half,
            position_start,
            num_q_heads,
        ).0 == (false, head - num_q_heads),
        half == 0 <==> rope_place(seq, head, half, position_start, num_q_heads).2
            == Half::RotatedLow,
{
}

} // verus!
