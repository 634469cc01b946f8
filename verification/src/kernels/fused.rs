//! What the fused kernels read and write: normalization and rotation of query and key
//! heads, and the update of the key/value cache.
//!
//! The heads of queries and of keys are numbered in one row, the query heads first. A
//! head is handled in two halves. The numeric work on the halves is done on the
//! device; here is decided which halves go where.

use vstd::prelude::*;

use crate::kernels::head_view;
use crate::kernels::head_view::HeadView;

verus! {

/// Which tensor a head belongs to, and its number there.
#[derive(Clone, Copy, Debug, PartialEq, Eq, Structural)]
pub struct HeadRoute {
    pub is_q: bool,
    pub local_head: i32,
}

/// A tensor that is written.
#[derive(Clone, Copy, Debug, PartialEq, Eq, Structural)]
pub enum Target {
    QueryOut,
    KeyCache,
    ValueCache,
}

/// A half of a head that is written.
#[derive(Clone, Copy, Debug, PartialEq, Eq, Structural)]
pub enum Half {
    /// The lower half of the normalized and rotated head.
    RotatedLow,
    /// The upper half of the normalized and rotated head.
    RotatedHigh,
    /// The lower half of the value head, as it was read.
    ValueLow,
    /// The upper half of the value head, as it was read.
    ValueHigh,
}

/// One write: the half of a head that goes to a place of a tensor.
#[derive(Clone, Copy, Debug, PartialEq, Eq, Structural)]
pub struct Write {
    pub target: Target,
    /// Row and column: sequence position and head in the query output, head and
    /// cache position in the caches.
    pub row: i32,
    pub col: i32,
    /// The half of the place: 0 or 1.
    pub part: i32,
    pub half: Half,
}

/// Which tensor a head belongs to: the query heads come first.
pub open spec fn route(head: int, num_q_heads: int) -> (bool, int) {
    if head < num_q_heads {
        (true, head)
    } else {
        (false, head - num_q_heads)
    }
}

/// Which tensor a head belongs to, and its number there.
pub fn route_head(head_idx: i32, num_q_heads: i32) -> (r: HeadRoute)
    requires
        0 <= head_idx,
        0 <= num_q_heads,
    ensures
        (r.is_q, r.local_head as int) == route(head_idx as int, num_q_heads as int),
{
    let is_q: bool = head_idx < num_q_heads;
    let local_head: i32 = if is_q {
        head_idx
    } else {
        head_idx - num_q_heads
    };
    HeadRoute { is_q, local_head }
}

/// The heads of queries and of keys are the heads of the row, one for one.
pub proof fn heads_are_routed_one_to_one(
    num_q_heads: int,
    num_kv_heads: int,
    a: int,
    b: int,
    is_q: bool,
    local: int,
)
    requires
        0 <= num_q_heads,
        0 <= num_kv_heads,
        0 <= a < num_q_heads + num_kv_heads,
        0 <= b < num_q_heads + num_kv_heads,
    ensures
        route(a, num_q_heads) == route(b, num_q_heads) ==> a == b,
        route(a, num_q_heads).0 ==> 0 <= route(a, num_q_heads).1 < num_q_heads,
        !route(a, num_q_heads).0 ==> 0 <= route(a, num_q_heads).1 < num_kv_heads,
        is_q && 0 <= local < num_q_heads ==> route(local, num_q_heads) == (true, local),
        !is_q && 0 <= local < num_kv_heads ==> route(num_q_heads + local, num_q_heads) == (
            false,
            local,
        ),
{
}

/// The rotated half of a part.
pub open spec fn rotated(part: int) -> Half {
    if part == 0 {
        Half::RotatedLow
    } else {
        Half::RotatedHigh
    }
}

/// The value half of a part.
pub open spec fn value(part: int) -> Half {
    if part == 0 {
        Half::ValueLow
    } else {
        Half::ValueHigh
    }
}

/// The rotated half that a program with the given half index writes: the lower half
/// for 0, else the upper half.
pub fn rotated_half(half_idx: i32) -> (h: Half)
    ensures
        h == rotated(half_idx as int),
{
    if half_idx == 0 {
        Half::RotatedLow
    } else {
        Half::RotatedHigh
    }
}

/// Whether a write is one that the prefill of a head at a sequence position makes. A
/// query head is rotated into the query output. A key head is rotated into the key
/// cache, and the value head of the same number goes to the value cache.
pub open spec fn prefill_makes(
    seq: int,
    head: int,
    position_start: int,
    num_q_heads: int,
    w: Write,
) -> bool {
    let (is_q, local) = route(head, num_q_heads);
    &&& w.part == 0 || w.part == 1
    &&& match w.target {
        Target::QueryOut => is_q && w.row == seq && w.col == local && w.half == rotated(
            w.part as int,
        ),
        Target::KeyCache => !is_q && w.row == local && w.col == position_start + seq && w.half
            == rotated(w.part as int),
        Target::ValueCache => !is_q && w.row == local && w.col == position_start + seq && w.half
            == value(w.part as int),
    }
}

/// The writes of the prefill of a head at a sequence position.
pub fn prefill_writes(seq_idx: i32, head_idx: i32, position_start: i32, num_q_heads: i32) -> (ws:
    Vec<Write>)
    requires
        0 <= seq_idx,
        0 <= head_idx,
        0 <= num_q_heads,
        0 <= position_start,
        position_start + seq_idx <= i32::MAX,
    ensures
        ws@.no_duplicates(),
        forall|w: Write|
            ws@.contains(w) <==> prefill_makes(
                seq_idx as int,
                head_idx as int,
                position_start as int,
                num_q_heads as int,
                w,
            ),
{
    let route = route_head(head_idx, num_q_heads);
    let local: i32 = route.local_head;
    if route.is_q {
        let ws: Vec<Write> = vec![
            Write {
                target: Target::QueryOut,
                row: seq_idx,
                col: local,
                part: 0,
                half: Half::RotatedLow,
            },
            Write {
                target: Target::QueryOut,
                row: seq_idx,
                col: local,
                part: 1,
                half: Half::RotatedHigh,
            },
        ];
        assert forall|w: Write|
            ws@.contains(w) <==> prefill_makes(
                seq_idx as int,
                head_idx as int,
                position_start as int,
                num_q_heads as int,
                w,
            ) by {
            if prefill_makes(
                seq_idx as int,
                head_idx as int,
                position_start as int,
                num_q_heads as int,
                w,
            ) {
                assert(ws@[w.part as int] == w);
            }
        }
        ws
    } else {
        let cache_pos: i32 = position_start + seq_idx;
        let ws: Vec<Write> = vec![
            Write {
                target: Target::KeyCache,
                row: local,
                col: cache_pos,
                part: 0,
                half: Half::RotatedLow,
            },
            Write {
                target: Target::KeyCache,
                row: local,
                col: cache_pos,
                part: 1,
                half: Half::RotatedHigh,
            },
            Write {
                target: Target::ValueCache,
                row: local,
                col: cache_pos,
                part: 0,
                half: Half::ValueLow,
            },
            Write {
                target: Target::ValueCache,
                row: local,
                col: cache_pos,
                part: 1,
                half: Half::ValueHigh,
            },
        ];
        assert forall|w: Write|
            ws@.contains(w) <==> prefill_makes(
                seq_idx as int,
                head_idx as int,
                position_start as int,
                num_q_heads as int,
                w,
            ) by {
            if prefill_makes(
                seq_idx as int,
                head_idx as int,
                position_start as int,
                num_q_heads as int,
                w,
            ) {
                if w.target == Target::KeyCache {
                    assert(ws@[w.part as int] == w);
                } else {
                    assert(ws@[2 + w.part as int] == w);
                }
            }
        }
        ws
    }
}

/// No two programs of a prefill write the same place, and a program writes a place
/// once.
pub proof fn prefill_writes_are_disjoint(
    position_start: int,
    num_q_heads: int,
    seq1: int,
    head1: int,
    w1: Write,
    seq2: int,
    head2: int,
    w2: Write,
)
    requires
        0 <= head1,
        0 <= head2,
        prefill_makes(seq1, head1, position_start, num_q_heads, w1),
        prefill_makes(seq2, head2, position_start, num_q_heads, w2),
        w1.target == w2.target,
        w1.row == w2.row,
        w1.col == w2.col,
        w1.part == w2.part,
    ensures
        seq1 == seq2,
        head1 == head2,
        w1 == w2,
{
}

/// Every half of every query head of the sequence is written to the query output, and
/// every half of every key and value head to the caches, at the position of the row.
pub proof fn prefill_writes_cover_the_sequence(
    position_start: int,
    num_q_heads: int,
    num_kv_heads: int,
    seq: int,
    w: Write,
)
    requires
        0 <= num_q_heads,
        0 <= num_kv_heads,
        w.part == 0 || w.part == 1,
        match w.target {
            Target::QueryOut => w.row == seq && 0 <= w.col < num_q_heads && w.half == rotated(
                w.part as int,
            ),
            Target::KeyCache => 0 <= w.row < num_kv_heads && w.col == position_start + seq && w.half
                == rotated(w.part as int),
            Target::ValueCache => 0 <= w.row < num_kv_heads && w.col == position_start + seq
                && w.half == value(w.part as int),
        },
    ensures
        ({
            let head = if w.target == Target::QueryOut {
                w.col as int
            } else {
                num_q_heads + w.row
            };
            0 <= head < num_q_heads + num_kv_heads && prefill_makes(
                seq,
                head,
                position_start,
                num_q_heads,
                w,
            )
        }),
{
}

/// A tensor that is read.
#[derive(Clone, Copy, Debug, PartialEq, Eq, Structural)]
pub enum Source {
    Query,
    Key,
    Value,
}

/// One read: half a head of a tensor.
#[derive(Clone, Copy, Debug, PartialEq, Eq, Structural)]
pub struct Read {
    pub source: Source,
    /// The sequence position.
    pub row: i32,
    /// The head.
    pub col: i32,
    pub part: i32,
}

/// Whether a read is one that the prefill of a head at a sequence position makes: both
/// halves of the query head, or both halves of the key head and of the value head.
pub open spec fn prefill_needs(seq: int, head: int, num_q_heads: int, r: Read) -> bool {
    let (is_q, local) = route(head, num_q_heads);
    &&& r.part == 0 || r.part == 1
    &&& r.row == seq
    &&& r.col == local
    &&& (r.source == Source::Query) == is_q
}

/// The reads of the prefill of a head at a sequence position.
pub fn prefill_reads(seq_idx: i32, head_idx: i32, num_q_heads: i32) -> (rs: Vec<Read>)
    requires
        0 <= seq_idx,
        0 <= head_idx,
        0 <= num_q_heads,
    ensures
        rs@.no_duplicates(),
        forall|r: Read|
            rs@.contains(r) <==> prefill_needs(
                seq_idx as int,
                head_idx as int,
                num_q_heads as int,
                r,
            ),
{
    let route = route_head(head_idx, num_q_heads);
    let row: i32 = seq_idx;
    let col: i32 = route.local_head;
    if route.is_q {
        let rs: Vec<Read> = vec![
            Read { source: Source::Query, row, col, part: 0 },
            Read { source: Source::Query, row, col, part: 1 },
        ];
        assert forall|r: Read|
            rs@.contains(r) <==> prefill_needs(
                seq_idx as int,
                head_idx as int,
                num_q_heads as int,
                r,
            ) by {
            if prefill_needs(seq_idx as int, head_idx as int, num_q_heads as int, r) {
                assert(rs@[r.part as int] == r);
            }
        }
        rs
    } else {
        let rs: Vec<Read> = vec![
            Read { source: Source::Key, row, col, part: 0 },
            Read { source: Source::Key, row, col, part: 1 },
            Read { source: Source::Value, row, col, part: 0 },
            Read { source: Source::Value, row, col, part: 1 },
        ];
        assert forall|r: Read|
            rs@.contains(r) <==> prefill_needs(
                seq_idx as int,
                head_idx as int,
                num_q_heads as int,
                r,
            ) by {
            if prefill_needs(seq_idx as int, head_idx as int, num_q_heads as int, r) {
                if r.source == Source::Key {
                    assert(rs@[r.part as int] == r);
                } else {
                    assert(rs@[2 + r.part as int] == r);
                }
            }
        }
        rs
    }
}

/// The tensors of a prefill: a sequence of query heads, a sequence of key or value heads,
/// and a cache of heads.
#[derive(Clone, Copy, Debug, PartialEq, Eq, Structural)]
pub struct PrefillShape {
    pub seq_len: i32,
    pub num_q_heads: i32,
    pub num_kv_heads: i32,
    pub max_seq: i32,
    pub dim: i32,
}

impl PrefillShape {
    /// The view of a tensor that is written.
    pub open spec fn target_view(self, target: Target) -> HeadView {
        match target {
            Target::QueryOut => HeadView {
                rows: self.seq_len,
                cols: self.num_q_heads,
                dim: self.dim,
            },
            _ => HeadView { rows: self.num_kv_heads, cols: self.max_seq, dim: self.dim },
        }
    }

    /// The view of a tensor that is read.
    pub open spec fn source_view(self, source: Source) -> HeadView {
        HeadView {
            rows: self.seq_len,
            cols: if source == Source::Query {
                self.num_q_heads
            } else {
                self.num_kv_heads
            },
            dim: self.dim,
        }
    }

    /// The view of a tensor that is written.
    pub fn written_tensor(self, target: Target) -> (view: HeadView)
        ensures
            view == self.target_view(target),
    {
        match target {
            Target::QueryOut => HeadView {
                rows: self.seq_len,
                cols: self.num_q_heads,
                dim: self.dim,
            },
            _ => HeadView { rows: self.num_kv_heads, cols: self.max_seq, dim: self.dim },
        }
    }

    /// The view of a tensor that is read.
    pub fn read_tensor(self, source: Source) -> (view: HeadView)
        ensures
            view == self.source_view(source),
    {
        let cols: i32 = match source {
            Source::Query => self.num_q_heads,
            _ => self.num_kv_heads,
        };
        HeadView { rows: self.seq_len, cols, dim: self.dim }
    }

    /// A program of the prefill: a position of the sequence and a head.
    pub open spec fn has_program(self, seq: int, head: int) -> bool {
        0 <= seq < self.seq_len && 0 <= head < self.num_q_heads + self.num_kv_heads
    }
}

/// What a program of a prefill reads and writes lies in the tensors, where the sequence
/// ends in the cache.
pub proof fn prefill_stays_in_its_tensors(
    shape: PrefillShape,
    position_start: int,
    seq: int,
    head: int,
    w: Write,
    r: Read,
)
    requires
        0 <= shape.num_q_heads,
        0 <= shape.num_kv_heads,
        0 <= position_start,
        position_start + shape.seq_len <= shape.max_seq,
        shape.has_program(seq, head),
        shape.target_view(w.target).fits(),
        shape.source_view(r.source).fits(),
        prefill_makes(seq, head, position_start, shape.num_q_heads as int, w),
        prefill_needs(seq, head, shape.num_q_heads as int, r),
    ensures
        ({
            let view = shape.target_view(w.target);
            let at = view.offset(w.row as int, w.col as int, w.part as int);
            &&& view.has(w.row as int, w.col as int, w.part as int)
            &&& 0 <= at && at + view.half() <= view.elements()
        }),
        ({
            let view = shape.source_view(r.source);
            let at = view.offset(r.row as int, r.col as int, r.part as int);
            &&& view.has(r.row as int, r.col as int, r.part as int)
            &&& 0 <= at && at + view.half() <= view.elements()
        }),
{
    head_view::halves_are_inside(
        shape.target_view(w.target),
        w.row as int,
        w.col as int,
        w.part as int,
    );
    head_view::halves_are_inside(
        shape.source_view(r.source),
        r.row as int,
        r.col as int,
        r.part as int,
    );
}

/// No two writes of a prefill touch the same element of a tensor, be they of one program
/// or of two.
pub proof fn prefill_elements_are_disjoint(
    shape: PrefillShape,
    position_start: int,
    seq1: int,
    head1: int,
    w1: Write,
    seq2: int,
    head2: int,
    w2: Write,
)
    requires
        0 <= shape.num_q_heads,
        0 <= shape.num_kv_heads,
        0 <= position_start,
        position_start + shape.seq_len <= shape.max_seq,
        shape.has_program(seq1, head1),
        shape.has_program(seq2, head2),
        shape.target_view(w1.target).fits(),
        prefill_makes(seq1, head1, position_start, shape.num_q_heads as int, w1),
        prefill_makes(seq2, head2, position_start, shape.num_q_heads as int, w2),
        w1.target == w2.target,
        (seq1, head1, w1) != (seq2, head2, w2),
    ensures
        ({
            let view = shape.target_view(w1.target);
            let a = view.offset(w1.row as int, w1.col as int, w1.part as int);
            let b = view.offset(w2.row as int, w2.col as int, w2.part as int);
            a + view.half() <= b || b + view.half() <= a
        }),
{
    if w1.row == w2.row && w1.col == w2.col && w1.part == w2.part {
        prefill_writes_are_disjoint(
            position_start,
            shape.num_q_heads as int,
            seq1,
            head1,
            w1,
            seq2,
            head2,
            w2,
        );
    }
    head_view::halves_do_not_meet(
        shape.target_view(w1.target),
        w1.row as int,
        w1.col as int,
        w1.part as int,
        w2.row as int,
        w2.col as int,
        w2.part as int,
    );
}

/// What a program of a decode step reads of the projected row, in blocks of half a
/// head, and what it writes.
#[derive(Clone, Copy, Debug, PartialEq, Eq, Structural)]
pub struct DecodePlan {
    pub is_q: bool,
    /// The block of the lower half of the head to rotate; the upper half follows it.
    pub head_block: i32,
    /// The block of the value half, of a key head.
    pub value_block: Option<i32>,
    /// The write of the rotated half.
    pub rotated: Write,
    /// The write of the value half, of a key head.
    pub value: Option<Write>,
}

/// The first block of a head in the projected row: the query heads, then the key
/// heads, then the value heads, two blocks each.
pub open spec fn row_block(kind: Target, local: int, num_q_heads: int, num_kv_heads: int) -> int {
    match kind {
        Target::QueryOut => 2 * local,
        Target::KeyCache => 2 * num_q_heads + 2 * local,
        Target::ValueCache => 2 * num_q_heads + 2 * num_kv_heads + 2 * local,
    }
}

/// Whether a write is one that the program of a head and a half makes in a decode step. A
/// half of a query head is rotated into the query output, which holds one head in a row. A
/// half of a key head is rotated into the key cache, and the half of the value head of the
/// same number goes to the value cache.
pub open spec fn decode_makes(
    head: int,
    half: int,
    cache_pos: int,
    num_q_heads: int,
    w: Write,
) -> bool {
    let (is_q, local) = route(head, num_q_heads);
    &&& w.part == half
    &&& w.row == local
    &&& match w.target {
        Target::QueryOut => is_q && w.col == 0 && w.half == rotated(half),
        Target::KeyCache => !is_q && w.col == cache_pos && w.half == rotated(half),
        Target::ValueCache => !is_q && w.col == cache_pos && w.half == value(half),
    }
}

/// Whether the program of a head and a half reads a block of the projected row in a decode
/// step: both halves of the head to rotate, and the half of the value head.
pub open spec fn decode_needs(
    head: int,
    half: int,
    num_q_heads: int,
    num_kv_heads: int,
    block: int,
) -> bool {
    let (is_q, local) = route(head, num_q_heads);
    let first = row_block(
        if is_q {
            Target::QueryOut
        } else {
            Target::KeyCache
        },
        local,
        num_q_heads,
        num_kv_heads,
    );
    ||| block == first
    ||| block == first + 1
    ||| !is_q && block == row_block(Target::ValueCache, local, num_q_heads, num_kv_heads) + half
}

/// What a program of a decode step reads and writes.
pub fn decode_plan(
    head_idx: i32,
    half_idx: i32,
    cache_pos: i32,
    num_q_heads: i32,
    num_kv_heads: i32,
) -> (plan: DecodePlan)
    requires
        0 <= num_q_heads,
        0 <= num_kv_heads,
        0 <= head_idx < num_q_heads + num_kv_heads,
        half_idx == 0 || half_idx == 1,
        2 * num_q_heads + 4 * num_kv_heads <= i32::MAX,
    ensures
        ({
            let (is_q, local) = route(head_idx as int, num_q_heads as int);
            let nq = num_q_heads as int;
            let nkv = num_kv_heads as int;
            &&& plan.is_q == is_q
            &&& is_q ==> {
                &&& plan.head_block == row_block(Target::QueryOut, local, nq, nkv)
                &&& plan.rotated == (Write {
                    target: Target::QueryOut,
                    row: local as i32,
                    col: 0,
                    part: half_idx,
                    half: rotated(half_idx as int),
                })
                &&& plan.value_block is None
                &&& plan.value is None
            }
            &&& !is_q ==> {
                &&& plan.head_block == row_block(Target::KeyCache, local, nq, nkv)
                &&& plan.value_block is Some
                &&& plan.value_block->0 == row_block(Target::ValueCache, local, nq, nkv) + half_idx
                &&& plan.rotated == (Write {
                    target: Target::KeyCache,
                    row: local as i32,
                    col: cache_pos,
                    part: half_idx,
                    half: rotated(half_idx as int),
                })
                &&& plan.value == Some(
                    Write {
                        target: Target::ValueCache,
                        row: local as i32,
                        col: cache_pos,
                        part: half_idx,
                        half: value(half_idx as int),
                    },
                )
            }
        }),
        forall|w: Write| #[trigger]
            decode_makes(
                head_idx as int,
                half_idx as int,
                cache_pos as int,
                num_q_heads as int,
                w,
            ) <==> plan.rotated == w || plan.value == Some(w),
        forall|block: i32| #[trigger]
            decode_needs(
                head_idx as int,
                half_idx as int,
                num_q_heads as int,
                num_kv_heads as int,
                block as int,
            ) <==> block == plan.head_block || block == plan.head_block + 1 || plan.value_block
                == Some(block),
{
    let route = route_head(head_idx, num_q_heads);
    let local: i32 = route.local_head;
    let half = rotated_half(half_idx);
    let value_half = if half_idx == 0 {
        Half::ValueLow
    } else {
        Half::ValueHigh
    };
    let value = Write {
        target: Target::ValueCache,
        row: local,
        col: cache_pos,
        part: half_idx,
        half: value_half,
    };
    if route.is_q {
        DecodePlan {
            is_q: true,
            head_block: local * 2,
            value_block: None,
            rotated: Write { target: Target::QueryOut, row: local, col: 0, part: half_idx, half },
            value: None,
        }
    } else {
        DecodePlan {
            is_q: false,
            head_block: num_q_heads * 2 + local * 2,
            value_block: Some(num_q_heads * 2 + num_kv_heads * 2 + local * 2 + half_idx),
            rotated: Write {
                target: Target::KeyCache,
                row: local,
                col: cache_pos,
                part: half_idx,
                half,
            },
            value: Some(value),
        }
    }
}

/// The blocks of different heads of the projected row do not meet, and together they
/// fill it.
pub proof fn row_blocks_tile_the_row(
    num_q_heads: int,
    num_kv_heads: int,
    k1: Target,
    local1: int,
    half1: int,
    k2: Target,
    local2: int,
    half2: int,
    block: int,
)
    requires
        0 <= num_q_heads,
        0 <= num_kv_heads,
        0 <= local1 < (if k1 == Target::QueryOut {
            num_q_heads
        } else {
            num_kv_heads
        }),
        0 <= local2 < (if k2 == Target::QueryOut {
            num_q_heads
        } else {
            num_kv_heads
        }),
        0 <= half1 <= 1,
        0 <= half2 <= 1,
    ensures
        0 <= row_block(k1, local1, num_q_heads, num_kv_heads) + half1 < 2 * (num_q_heads + 2
            * num_kv_heads),
        row_block(k1, local1, num_q_heads, num_kv_heads) + half1 == row_block(
            k2,
            local2,
            num_q_heads,
            num_kv_heads,
        ) + half2 ==> k1 == k2 && local1 == local2 && half1 == half2,
        0 <= block < 2 * num_q_heads ==> block == row_block(
            Target::QueryOut,
            block / 2,
            num_q_heads,
            num_kv_heads,
        ) + block % 2,
        2 * num_q_heads <= block < 2 * num_q_heads + 2 * num_kv_heads ==> block == row_block(
            Target::KeyCache,
            (block - 2 * num_q_heads) / 2,
            num_q_heads,
            num_kv_heads,
        ) + block % 2,
        2 * num_q_heads + 2 * num_kv_heads <= block < 2 * num_q_heads + 4 * num_kv_heads ==> block
            == row_block(
            Target::ValueCache,
            (block - 2 * num_q_heads - 2 * num_kv_heads) / 2,
            num_q_heads,
            num_kv_heads,
        ) + block % 2,
{
}

/// The write of a prefill of one position that a write of a decode step stands for: the
/// query output of a decode step has its heads in rows, that of a prefill in columns.
pub open spec fn as_prefill(w: Write) -> Write {
    if w.target == Target::QueryOut {
        Write { row: w.col, col: w.row, ..w }
    } else {
        w
    }
}

/// The block of the projected row that holds half a head.
pub open spec fn row_read(num_q_heads: int, num_kv_heads: int, r: Read) -> int {
    row_block(
        match r.source {
            Source::Query => Target::QueryOut,
            Source::Key => Target::KeyCache,
            Source::Value => Target::ValueCache,
        },
        r.col as int,
        num_q_heads,
        num_kv_heads,
    ) + r.part
}

/// A decode step at a position writes what a prefill of one position does that starts
/// there: the programs of a head make the same writes, to the same elements of the query
/// output and of the caches. So a cache changes at that position alone.
pub proof fn decode_writes_as_a_prefill_of_one_position(
    shape: PrefillShape,
    pos: int,
    head: int,
    w: Write,
)
    requires
        shape.seq_len == 1,
        shape.has_program(0, head),
        shape.dim % 2 == 0,
    ensures
        (decode_makes(head, 0, pos, shape.num_q_heads as int, w) || decode_makes(
            head,
            1,
            pos,
            shape.num_q_heads as int,
            w,
        )) <==> prefill_makes(0, head, pos, shape.num_q_heads as int, as_prefill(w)),
        decode_makes(head, w.part as int, pos, shape.num_q_heads as int, w) && w.target
            == Target::QueryOut ==> w.row * shape.dim + w.part * (shape.dim as int / 2)
            == shape.target_view(w.target).offset(
            as_prefill(w).row as int,
            as_prefill(w).col as int,
            w.part as int,
        ),
        decode_makes(head, w.part as int, pos, shape.num_q_heads as int, w) && w.target
            != Target::QueryOut ==> w.col == pos,
{
    let view = shape.target_view(Target::QueryOut);
    vstd::arithmetic::mul::lemma_mul_by_zero_is_zero(view.cols * view.dim);
}

/// A decode step reads what a prefill of one position does: the halves that the two
/// programs of a head read are those of the prefill, and they stand in the projected row
/// where the queries, the keys and the values stand one behind the other.
pub proof fn decode_reads_as_a_prefill_of_one_position(shape: PrefillShape, head: int, r: Read)
    requires
        shape.seq_len == 1,
        shape.has_program(0, head),
        0 <= shape.num_q_heads,
        0 <= shape.num_kv_heads,
        shape.dim % 2 == 0,
        r.part == 0 || r.part == 1,
        r.row == 0,
        0 <= r.col < (if r.source == Source::Query {
            shape.num_q_heads
        } else {
            shape.num_kv_heads
        }),
    ensures
        ({
            let nq = shape.num_q_heads as int;
            let nkv = shape.num_kv_heads as int;
            let block = row_read(nq, nkv, r);
            let start = match r.source {
                Source::Query => 0int,
                Source::Key => nq * shape.dim,
                Source::Value => (nq + nkv) * shape.dim,
            };
            &&& (decode_needs(head, 0, nq, nkv, block) || decode_needs(head, 1, nq, nkv, block))
                <==> prefill_needs(0, head, nq, r)
            &&& block * (shape.dim as int / 2) == start + shape.source_view(r.source).offset(
                0,
                r.col as int,
                r.part as int,
            )
        }),
{
    let view = shape.source_view(r.source);
    vstd::arithmetic::mul::lemma_mul_by_zero_is_zero(view.cols * view.dim);
    let nq = shape.num_q_heads as int;
    let nkv = shape.num_kv_heads as int;
    let half = shape.dim as int / 2;
    let col = r.col as int;
    let part = r.part as int;
    let dim = shape.dim as int;
    assert((2 * col + part) * half == col * dim + part * half) by (nonlinear_arith)
        requires
            dim == 2 * half,
    ;
    assert((2 * nq + 2 * col + part) * half == nq * dim + col * dim + part * half)
        by (nonlinear_arith)
        requires
            dim == 2 * half,
    ;
    assert((2 * nq + 2 * nkv + 2 * col + part) * half == (nq + nkv) * dim + col * dim + part * half)
        by (nonlinear_arith)
        requires
            dim == 2 * half,
    ;
}

/// No two programs of a decode step write the same place, and together they write both
/// halves of every query head, and of every key and value head at the position.
pub proof fn decode_places_have_one_program(
    num_q_heads: int,
    num_kv_heads: int,
    pos: int,
    head1: int,
    half1: int,
    w1: Write,
    head2: int,
    half2: int,
    w2: Write,
)
    requires
        0 <= num_q_heads,
        0 <= num_kv_heads,
        0 <= head1 < num_q_heads + num_kv_heads,
        0 <= head2 < num_q_heads + num_kv_heads,
    ensures
        decode_makes(head1, half1, pos, num_q_heads, w1) && decode_makes(
            head2,
            half2,
            pos,
            num_q_heads,
            w2,
        ) && w1.target == w2.target && w1.row == w2.row && w1.col == w2.col && w1.part == w2.part
            ==> head1 == head2 && half1 == half2 && w1 == w2,
        w1.target == Target::QueryOut && 0 <= w1.row < num_q_heads && w1.col == 0 && w1.half
            == rotated(w1.part as int) ==> decode_makes(
            w1.row as int,
            w1.part as int,
            pos,
            num_q_heads,
            w1,
        ),
        w1.target == Target::KeyCache && 0 <= w1.row < num_kv_heads && w1.col == pos && w1.half
            == rotated(w1.part as int) ==> decode_makes(
            num_q_heads + w1.row,
            w1.part as int,
            pos,
            num_q_heads,
            w1,
        ),
        w1.target == Target::ValueCache && 0 <= w1.row < num_kv_heads && w1.col == pos && w1.half
            == value(w1.part as int) ==> decode_makes(
            num_q_heads + w1.row,
            w1.part as int,
            pos,
            num_q_heads,
            w1,
        ),
{
}

/// What is written to the lower half of a place is the lower half of a head, and what is
/// written to the upper half is the upper half; rotated in the query output and in the key
/// cache, and as it was in the value cache. The same holds of a decode step.
pub proof fn halves_keep_their_side(
    seq: int,
    head: int,
    position_start: int,
    num_q_heads: int,
    half: int,
    w: Write,
)
    requires
        0 <= half <= 1,
        prefill_makes(seq, head, position_start, num_q_heads, w) || decode_makes(
            head,
            half,
            position_start,
            num_q_heads,
            w,
        ),
    ensures
        w.part == 0 || w.part == 1,
        w.target == Target::ValueCache <==> w.half == Half::ValueLow || w.half == Half::ValueHigh,
        w.part == 0 <==> w.half == Half::RotatedLow || w.half == Half::ValueLow,
{
}

/// A rotation writes the lower half for part 0 and the upper half for part 1.
pub proof fn rotations_keep_their_side(part: int)
    requires
        0 <= part <= 1,
    ensures
        rotated(part) == Half::RotatedLow <==> part == 0,
        rotated(part) == Half::RotatedHigh <==> part == 1,
        value(part) == Half::ValueLow <==> part == 0,
        value(part) == Half::ValueHigh <==> part == 1,
{
}

/// The query heads come first, in order, and the key heads behind them, in order. What is
/// read of a head is read of its own tensor, and the value head with a key head.
pub proof fn query_heads_come_first(num_q_heads: int, local: int, seq: int, r: Read)
    requires
        0 <= num_q_heads,
        0 <= local,
    ensures
        local < num_q_heads ==> route(local, num_q_heads) == (true, local),
        route(num_q_heads + local, num_q_heads) == (false, local),
        prefill_needs(seq, num_q_heads + local, num_q_heads, r) ==> r.source != Source::Query
            && r.row == seq && r.col == local,
        local < num_q_heads && prefill_needs(seq, local, num_q_heads, r) ==> r.source
            == Source::Query && r.row == seq && r.col == local,
{
}
/// The queries and their output have a row for each position and a column for each query head;
/// the keys and values have a column for each of their heads; and a cache has a row for each of
/// these heads and a column for each position that it can hold.
pub proof fn tensors_have_their_extents(shape: PrefillShape, target: Target, source: Source)
    ensures
        ({
            let w = shape.target_view(target);
            let r = shape.source_view(source);
            &&& w.dim == shape.dim && r.dim == shape.dim
            &&& r.rows == shape.seq_len
            &&& source == Source::Query ==> r.cols == shape.num_q_heads
            &&& source != Source::Query ==> r.cols == shape.num_kv_heads
            &&& target == Target::QueryOut ==> w.rows == shape.seq_len && w.cols
                == shape.num_q_heads
            &&& target != Target::QueryOut ==> w.rows == shape.num_kv_heads && w.cols
                == shape.max_seq
        }),
{
}

} // verus!
