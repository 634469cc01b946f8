//! Index arithmetic of the kernels, on concrete sizes.

use cutile_ir::kernels::argmax::{block_argmax, reduce_blocks, BlockMax};
use cutile_ir::kernels::attention::{
    dynpos_plan, first_query_head, fully_masked_bounds, key_takes_part, kv_head, kv_head_of_group,
    query_head_of_row, query_of_row, scratch_row, seq_plan, split_range, split_takes_key,
    tile_bounds, TileBounds,
};
use cutile_ir::kernels::fused::{
    decode_plan, prefill_reads, prefill_writes, rotated_half, route_head, Half, PrefillShape, Read,
    Source, Target, Write,
};
use cutile_ir::kernels::head_view::HeadView;
use cutile_ir::kernels::kind::{KernelKind, TILE_KERNEL_KINDS};
use cutile_ir::kernels::kv_cache::{cache_rows, decode_cache_row};
use cutile_ir::kernels::kvbm::{
    contiguous_to_stacked_f16_generics, copy_step, flat_view, fold_iteration_indexes, remap,
    stacked_to_contiguous_f16_generics, ContiguousLayout, CopyExtents, FlatView, StackedLayout,
};
use cutile_ir::kernels::positional::rope_step;
use cutile_ir::kernels::rows::row_tiles;
use cutile_ir::kernels::schedule::{
    ceil_div_i32, group_tiles, linear_bid, persistent_places, swizzled_bid, GroupProblem,
};

// ---- kinds ----

#[test]
fn kernel_positions_number_the_kernels() {
    assert_eq!(TILE_KERNEL_KINDS.len(), KernelKind::COUNT);
    for (i, kind) in TILE_KERNEL_KINDS.iter().enumerate() {
        assert_eq!(kind.idx(), i);
    }
    assert_eq!(KernelKind::EmbeddingBatch.idx(), 0);
    assert_eq!(KernelKind::FlashAttnCausalSeq.idx(), 6);
    assert_eq!(KernelKind::ArgmaxReduceBlocks.idx(), 16);
}

// ---- block layouts ----

fn pairs() -> Vec<(StackedLayout, ContiguousLayout)> {
    let mut out = Vec::new();
    for s in [StackedLayout::Nhd, StackedLayout::Hnd] {
        for c in [
            ContiguousLayout::OperationalNhd,
            ContiguousLayout::OperationalHnd,
            ContiguousLayout::Universal,
        ] {
            if s.converts(c) {
                out.push((s, c));
            }
        }
    }
    out
}

#[test]
fn layout_pairs() {
    assert_eq!(
        pairs(),
        vec![
            (StackedLayout::Nhd, ContiguousLayout::OperationalNhd),
            (StackedLayout::Nhd, ContiguousLayout::Universal),
            (StackedLayout::Hnd, ContiguousLayout::OperationalHnd),
            (StackedLayout::Hnd, ContiguousLayout::Universal),
        ]
    );
}

#[test]
fn layout_maps() {
    assert_eq!(StackedLayout::Nhd.map(ContiguousLayout::Universal), [3, 0, 1, 2, 4]);
    assert_eq!(StackedLayout::Hnd.map(ContiguousLayout::Universal), [2, 0, 1, 3, 4]);
    assert_eq!(StackedLayout::Nhd.map(ContiguousLayout::OperationalNhd), [0, 1, 2, 3, 4]);
    assert_eq!(ContiguousLayout::Universal.map(StackedLayout::Nhd), [1, 2, 3, 0, 4]);
    assert_eq!(ContiguousLayout::Universal.map(StackedLayout::Hnd), [1, 2, 0, 3, 4]);
}

#[test]
fn layout_maps_there_and_back() {
    let block = [10usize, 11, 12, 13, 14];
    for (s, c) in pairs() {
        let there = remap(&block, s.map(c));
        let back = remap(&there, c.map(s));
        assert_eq!(back, block);
    }
    assert_eq!(remap(&block, [4, 0]), [14, 10]);
}

fn strings(v: &[usize]) -> Vec<String> {
    v.iter().map(|n| n.to_string()).collect()
}

#[test]
fn layout_generics() {
    // Stacked NHD tile: layers, offsets, tokens, heads, head dimension.
    assert_eq!(
        stacked_to_contiguous_f16_generics(
            StackedLayout::Nhd,
            ContiguousLayout::Universal,
            16,
            64
        ),
        strings(&[
            1, 1, 16, 1, 64, // stacked tile
            1, 1, 1, 16, 64, // contiguous tile
            16, 1, 64, // stacked tile, folded
            1, 16, 64, // contiguous tile, folded
            1, 2, 3, 0, 4, // universal to stacked
            3, 0, 1, 2, 4, // stacked to contiguous
        ])
    );
    assert_eq!(
        contiguous_to_stacked_f16_generics(
            StackedLayout::Hnd,
            ContiguousLayout::OperationalHnd,
            8,
            128
        ),
        strings(&[
            1, 1, 1, 8, 128, 1, 1, 1, 8, 128, 1, 8, 128, 1, 8, 128, 1, 2, 0, 3, 4, 0, 1, 2, 3, 4,
            0, 1, 2, 3, 4,
        ])
    );
}

#[test]
fn fold_indexes() {
    // Blocks, heads, layers, offsets.
    let shape = [2, 3, 4, 5];
    assert_eq!(fold_iteration_indexes(0, shape), (0, 0, 0, 0));
    assert_eq!(fold_iteration_indexes(4, shape), (0, 0, 0, 4));
    assert_eq!(fold_iteration_indexes(5, shape), (0, 0, 1, 0));
    assert_eq!(fold_iteration_indexes(119, shape), (1, 2, 3, 4));
    for tile in 0..120 {
        let (b, h, l, o) = fold_iteration_indexes(tile, shape);
        assert_eq!(((b * 3 + h) * 4 + l) * 5 + o, tile);
    }
}

#[test]
fn flat_views_keep_offsets() {
    let dims = [2, 3, 4, 5, 6];
    let idx = [1, 2, 3, 4, 5];
    let view = flat_view(dims, idx, 1);
    assert_eq!(view.shape, [24, 5, 6]);
    assert_eq!(view.strides, [30, 6]);
    assert_eq!(view.tile_idx, [23, 4, 5]);
    let offset = (((idx[0] * dims[1] + idx[1]) * dims[2] + idx[2]) * dims[3] + idx[3]) * dims[4]
        + idx[4];
    assert_eq!(
        view.tile_idx[0] * view.strides[0] + view.tile_idx[1] * view.strides[1] + view.tile_idx[2],
        offset
    );
    // A tile of two along the third extent.
    let view = flat_view(dims, [1, 2, 1, 4, 5], 2);
    assert_eq!(view.shape, [24, 5, 6]);
    assert_eq!(view.tile_idx, [11, 4, 5]);
}

#[test]
fn copies_do_not_overlap() {
    let e = CopyExtents { num_blocks: 2, nh: 2, nl: 3, no: 2, nt: 2, hd: 2 };
    let tiles = 2 * 2 * 3 * 2;
    for (s, c) in pairs() {
        let mut stacked = Vec::new();
        let mut contiguous = Vec::new();
        for tile in 0..tiles {
            for t in 0..2 {
                for d in 0..2 {
                    let step = copy_step(s, c, e, 1, 1, t, d, tile);
                    stacked.push((step.stacked_tensor, step.stacked.tile_idx));
                    contiguous.push((step.contiguous_tensor, step.contiguous.tile_idx));
                }
            }
        }
        for list in [&mut stacked, &mut contiguous] {
            let n = list.len();
            list.sort();
            list.dedup();
            assert_eq!(list.len(), n);
        }
    }
}

#[test]
fn copy_step_places() {
    let e = CopyExtents { num_blocks: 2, nh: 2, nl: 3, no: 2, nt: 4, hd: 8 };
    // Block 1, head 0, layer 2, offset 1.
    let step = copy_step(StackedLayout::Nhd, ContiguousLayout::Universal, e, 1, 1, 3, 5, 17);
    assert_eq!(step.stacked_tensor, 11);
    assert_eq!(step.stacked.shape, [4, 2, 8]);
    assert_eq!(step.stacked.strides, [16, 8]);
    assert_eq!(step.stacked.tile_idx, [3, 0, 5]);
    assert_eq!(step.contiguous_tensor, 1);
    assert_eq!(step.contiguous.shape, [12, 4, 8]);
    assert_eq!(step.contiguous.strides, [32, 8]);
    assert_eq!(step.contiguous.tile_idx, [5, 3, 5]);
}

/// The elements that a tile at a place covers, as offsets in the tensor of a view, with the
/// place of each inside the tile.
fn covered(view: &FlatView, tile: [i32; 3]) -> Vec<([i32; 3], i32)> {
    let mut out = Vec::new();
    for a in 0..tile[0] {
        for b in 0..tile[1] {
            for c in 0..tile[2] {
                let at = (view.tile_idx[0] * tile[0] + a) * view.strides[0]
                    + (view.tile_idx[1] * tile[1] + b) * view.strides[1]
                    + (view.tile_idx[2] * tile[2] + c);
                out.push(([a, b, c], at));
            }
        }
    }
    out
}

#[test]
fn copies_move_every_element() {
    let (nb, nh, nl, no, nt, hd) = (2, 3, 2, 2, 4, 6);
    let e = CopyExtents { num_blocks: nb, nh, nl, no, nt, hd };
    for (tt, td) in [(1, 1), (2, 3), (4, 6), (2, 2)] {
        for (s, c) in pairs() {
            let mut stacked = vec![vec![None; (nt * nh * hd) as usize]; (nb * nl * no) as usize];
            let mut blocks =
                vec![vec![None; (nh * nl * no * nt * hd) as usize]; nb as usize];
            for tile in 0..nb * nh * nl * no {
                let (block, h, l, o) = fold_iteration_indexes(tile, [nb, nh, nl, no]);
                for t_idx in 0..nt / tt {
                    for d_idx in 0..hd / td {
                        let step = copy_step(s, c, e, tt, td, t_idx, d_idx, tile);
                        let s_tile = match s {
                            StackedLayout::Nhd => [tt, 1, td],
                            StackedLayout::Hnd => [1, tt, td],
                        };
                        let c_tile = match c {
                            ContiguousLayout::OperationalNhd => [tt, 1, td],
                            _ => [1, tt, td],
                        };
                        for ([a, b, x], at) in covered(&step.stacked, s_tile) {
                            let name = (block, h, l, o, t_idx * tt + a + b, d_idx * td + x);
                            let place = &mut stacked[step.stacked_tensor as usize][at as usize];
                            assert!(place.is_none());
                            *place = Some(name);
                        }
                        for ([a, b, x], at) in covered(&step.contiguous, c_tile) {
                            let name = (block, h, l, o, t_idx * tt + a + b, d_idx * td + x);
                            let place = &mut blocks[step.contiguous_tensor as usize][at as usize];
                            assert!(place.is_none());
                            *place = Some(name);
                        }
                    }
                }
            }
            for block in 0..nb {
                for (h, l, o) in
                    (0..nh).flat_map(|h| (0..nl).flat_map(move |l| (0..no).map(move |o| (h, l, o))))
                {
                    for (t, d) in (0..nt).flat_map(|t| (0..hd).map(move |d| (t, d))) {
                        let name = Some((block, h, l, o, t, d));
                        let inner = match s {
                            StackedLayout::Nhd => (t * nh + h) * hd + d,
                            StackedLayout::Hnd => (h * nt + t) * hd + d,
                        };
                        let chunk = (block * nl + l) * no + o;
                        assert_eq!(stacked[chunk as usize][inner as usize], name);
                        let at = match c {
                            ContiguousLayout::Universal => {
                                (((h * nl + l) * no + o) * nt + t) * hd + d
                            }
                            ContiguousLayout::OperationalNhd => {
                                (((l * no + o) * nt + t) * nh + h) * hd + d
                            }
                            ContiguousLayout::OperationalHnd => {
                                (((l * no + o) * nh + h) * nt + t) * hd + d
                            }
                        };
                        assert_eq!(blocks[block as usize][at as usize], name);
                    }
                }
            }
        }
    }
}

// ---- schedules ----

#[test]
fn ceil_div_values() {
    assert_eq!(ceil_div_i32(0, 4), 0);
    assert_eq!(ceil_div_i32(1, 4), 1);
    assert_eq!(ceil_div_i32(4, 4), 1);
    assert_eq!(ceil_div_i32(5, 4), 2);
}

#[test]
fn grid_places() {
    assert_eq!(linear_bid(7, 3), (2, 1));
    // Five rows in groups of two, three columns: the first group holds six tiles.
    let places: Vec<(i32, i32)> = (0..15).map(|t| swizzled_bid(t, 5, 3, 2)).collect();
    assert_eq!(places[..6], [(0, 0), (1, 0), (0, 1), (1, 1), (0, 2), (1, 2)]);
    // The last group has one row.
    assert_eq!(places[12..], [(4, 0), (4, 1), (4, 2)]);
    let mut sorted = places.clone();
    sorted.sort();
    let all: Vec<(i32, i32)> = (0..5).flat_map(|m| (0..3).map(move |n| (m, n))).collect();
    assert_eq!(sorted, all);
}

#[test]
fn every_place_has_one_program() {
    for swizzle in [false, true] {
        let mut places = Vec::new();
        for program in 0..4 {
            places.extend(persistent_places(program, 4, 70, 33, 16, 16, swizzle, 2));
        }
        assert_eq!(places.len(), 15);
        places.sort();
        places.dedup();
        assert_eq!(places.len(), 15);
    }
    assert_eq!(
        persistent_places(1, 4, 70, 33, 16, 16, false, 2),
        vec![(0, 1), (1, 2), (3, 0), (4, 1)]
    );
    // A program past the last tile has none.
    assert_eq!(persistent_places(20, 32, 70, 33, 16, 16, false, 2), vec![]);
}

#[test]
fn every_group_tile_has_one_program() {
    let problems = vec![
        GroupProblem { m: 5, n: 3 },
        GroupProblem { m: 0, n: 9 },
        GroupProblem { m: 4, n: 4 },
    ];
    // Tiles of two by two: six of the first product, none of the second, four of the third.
    let mut tiles = Vec::new();
    for program in 0..3 {
        for t in group_tiles(program, 3, &problems, 2, 2) {
            tiles.push((t.group, t.tile_m, t.tile_n));
        }
    }
    assert_eq!(tiles.len(), 10);
    tiles.sort();
    assert_eq!(
        tiles,
        vec![
            (0, 0, 0),
            (0, 0, 1),
            (0, 1, 0),
            (0, 1, 1),
            (0, 2, 0),
            (0, 2, 1),
            (2, 0, 0),
            (2, 0, 1),
            (2, 1, 0),
            (2, 1, 1),
        ]
    );
    let mine: Vec<(i32, i32, i32)> = group_tiles(2, 3, &problems, 2, 2)
        .iter()
        .map(|t| (t.group, t.tile_m, t.tile_n))
        .collect();
    assert_eq!(mine, vec![(0, 1, 0), (0, 2, 1), (2, 1, 0)]);
}

// ---- attention ----

#[test]
fn attention_tile_bounds() {
    // Queries 32 to 47 of a causal block, 100 keys in tiles of 16.
    assert_eq!(
        tile_bounds(true, 0, 2, 100, 16, 16),
        TileBounds { mask_start: 2, tiles: 3 }
    );
    assert_eq!(
        tile_bounds(false, 0, 2, 100, 16, 16),
        TileBounds { mask_start: 6, tiles: 7 }
    );
    // A block past the last key.
    assert_eq!(
        tile_bounds(true, 200, 0, 100, 16, 16),
        TileBounds { mask_start: 6, tiles: 7 }
    );
    assert_eq!(fully_masked_bounds(33, 16), TileBounds { mask_start: 0, tiles: 3 });
}

#[test]
fn attention_visits_the_attended_keys() {
    let (bm, bn) = (4, 8);
    for causal in [false, true] {
        for kv_len in 1..30 {
            let even_k = kv_len % bn == 0;
            for block in 0..(kv_len + bm - 1) / bm {
                let bounds = tile_bounds(causal, 0, block, kv_len, bm, bn);
                for query in block * bm..(block + 1) * bm {
                    for key in 0..40 {
                        assert_eq!(
                            key_takes_part(causal, even_k, bounds, query, key, kv_len, bn),
                            key < kv_len && (!causal || key <= query)
                        );
                    }
                }
            }
        }
    }
}

#[test]
fn attention_heads() {
    assert_eq!(kv_head(7, 4), 1);
    assert_eq!(kv_head_of_group(3, 4, 4), 3);
    assert_eq!(kv_head_of_group(3, 2, 4), 1);
    for member in 0..2 {
        assert_eq!(kv_head(3 * 2 + member, 4), kv_head_of_group(3, 2, 4));
    }
    assert_eq!(query_of_row(100, 2, 16, 4, 0), 132);
    assert_eq!(query_of_row(100, 2, 16, 4, 63), 147);
    assert_eq!(scratch_row(2, 3, 4), 11);
}

#[test]
fn query_heads_of_a_program() {
    assert_eq!(first_query_head(3, 4), 12);
    // Eight query heads in blocks of two, four to a key head.
    let mut owners = vec![0; 8];
    for block in 0..4 {
        let first = first_query_head(block, 2);
        for h in first..first + 2 {
            owners[h as usize] += 1;
            assert_eq!(kv_head(h, 4), kv_head_of_group(block, 2, 4));
        }
    }
    assert_eq!(owners, vec![1; 8]);
    // Every position and head of a block has one row.
    let mut rows: Vec<(i32, i32)> = (0..6 * 2)
        .map(|row| (query_of_row(10, 1, 6, 2, row), query_head_of_row(3, 2, row)))
        .collect();
    assert_eq!(rows[3], (17, 7));
    rows.sort();
    let all: Vec<(i32, i32)> = (16..22).flat_map(|q| (6..8).map(move |h| (q, h))).collect();
    assert_eq!(rows, all);
}

#[test]
fn device_positions_plan_as_starts() {
    for position in 0..40u32 {
        let p = position as i32;
        assert_eq!(dynpos_plan(0, 5, 4, position, 1, 16), seq_plan(0, 5, 4, p + 1, p, 1, 16));
        let plan = dynpos_plan(0, 5, 4, position, 1, 16);
        assert_eq!((plan.q_head, plan.kv_head, plan.first_query), (5, 1, p));
        for key in 0..64 {
            let taken = key_takes_part(
                true, false, plan.bounds, plan.first_query, key, plan.kv_len, 16,
            );
            assert_eq!(taken, key <= p);
        }
    }
    let plan = seq_plan(2, 3, 2, 100, 7, 16, 32);
    assert_eq!((plan.q_block, plan.first_query, plan.kv_head), (2, 39, 1));
    assert_eq!(plan.bounds, TileBounds { mask_start: 0, tiles: 4 });
}

#[test]
fn decode_splits_partition_the_past() {
    let (splits, bn) = (4, 8);
    for input_pos in 0..80 {
        for key in 0..120 {
            let owners = (0..splits)
                .filter(|split| {
                    let range = split_range(input_pos, *split, splits, bn);
                    split_takes_key(range, input_pos, bn, key)
                })
                .count();
            assert_eq!(owners, (key <= input_pos) as usize);
        }
    }
    let range = split_range(70, 2, 4, 8);
    assert_eq!((range.start, range.end, range.tiles), (6, 9, 9));
    // The last split may be empty.
    let range = split_range(70, 3, 4, 8);
    assert_eq!((range.start, range.end, range.tiles), (9, 9, 9));
}

// ---- fused kernels ----

#[test]
fn fused_heads() {
    let r = route_head(3, 8);
    assert_eq!((r.is_q, r.local_head), (true, 3));
    let r = route_head(9, 8);
    assert_eq!((r.is_q, r.local_head), (false, 1));
    assert_eq!(rotated_half(0), Half::RotatedLow);
    assert_eq!(rotated_half(1), Half::RotatedHigh);
}

#[test]
fn fused_prefill_writes() {
    let write = |target, row, col, part, half| Write { target, row, col, part, half };
    assert_eq!(
        prefill_writes(5, 3, 100, 8),
        vec![
            write(Target::QueryOut, 5, 3, 0, Half::RotatedLow),
            write(Target::QueryOut, 5, 3, 1, Half::RotatedHigh),
        ]
    );
    assert_eq!(
        prefill_writes(5, 9, 100, 8),
        vec![
            write(Target::KeyCache, 1, 105, 0, Half::RotatedLow),
            write(Target::KeyCache, 1, 105, 1, Half::RotatedHigh),
            write(Target::ValueCache, 1, 105, 0, Half::ValueLow),
            write(Target::ValueCache, 1, 105, 1, Half::ValueHigh),
        ]
    );
}

#[test]
fn fused_prefill_writes_cover_the_sequence_once() {
    let (num_q, num_kv, seq_len, start) = (4, 2, 3, 7);
    let mut places = Vec::new();
    for seq in 0..seq_len {
        for head in 0..num_q + num_kv {
            for w in prefill_writes(seq, head, start, num_q) {
                let target = match w.target {
                    Target::QueryOut => 0,
                    Target::KeyCache => 1,
                    Target::ValueCache => 2,
                };
                places.push((target, w.row, w.col, w.part));
            }
        }
    }
    places.sort();
    let mut want = Vec::new();
    for seq in 0..seq_len {
        for part in 0..2 {
            for head in 0..num_q {
                want.push((0, seq, head, part));
            }
            for head in 0..num_kv {
                want.push((1, head, start + seq, part));
                want.push((2, head, start + seq, part));
            }
        }
    }
    want.sort();
    assert_eq!(places, want);
}

#[test]
fn head_views_place_their_halves() {
    let view = HeadView { rows: 2, cols: 3, dim: 8 };
    assert_eq!(view.strides(), (24, 8));
    assert_eq!(view.half_offset(0, 0, 0), 0);
    assert_eq!(view.half_offset(0, 0, 1), 4);
    assert_eq!(view.half_offset(1, 2, 1), 44);
    let mut offsets = Vec::new();
    for row in 0..2 {
        for col in 0..3 {
            for part in 0..2 {
                offsets.push(view.half_offset(row, col, part));
            }
        }
    }
    assert_eq!(offsets, (0..12).map(|i| 4 * i).collect::<Vec<i64>>());
}

#[test]
fn fused_prefill_reads() {
    let read = |source, part| Read { source, row: 5, col: 1, part };
    assert_eq!(
        prefill_reads(5, 1, 8),
        vec![read(Source::Query, 0), read(Source::Query, 1)]
    );
    assert_eq!(
        prefill_reads(5, 9, 8),
        vec![
            read(Source::Key, 0),
            read(Source::Key, 1),
            read(Source::Value, 0),
            read(Source::Value, 1),
        ]
    );
}

#[test]
fn fused_prefill_touches_no_element_twice() {
    let shape = PrefillShape { seq_len: 3, num_q_heads: 4, num_kv_heads: 2, max_seq: 10, dim: 4 };
    let start = 7;
    let mut touched = [vec![0; 48], vec![0; 80], vec![0; 80]];
    for seq in 0..shape.seq_len {
        for head in 0..shape.num_q_heads + shape.num_kv_heads {
            for w in prefill_writes(seq, head, start, shape.num_q_heads) {
                let at = shape.written_tensor(w.target).half_offset(w.row, w.col, w.part) as usize;
                let tensor = match w.target {
                    Target::QueryOut => 0,
                    Target::KeyCache => 1,
                    Target::ValueCache => 2,
                };
                for element in at..at + 2 {
                    touched[tensor][element] += 1;
                }
            }
            for r in prefill_reads(seq, head, shape.num_q_heads) {
                let view = shape.read_tensor(r.source);
                let at = view.half_offset(r.row, r.col, r.part);
                assert!(at + 2 <= (view.rows * view.cols * view.dim) as i64);
            }
        }
    }
    assert!(touched[0].iter().all(|n| *n == 1));
    for cache in &touched[1..] {
        assert!(cache.iter().all(|n| *n <= 1));
        assert_eq!(cache.iter().sum::<i32>(), 24);
    }
}

#[test]
fn fused_decode_plan() {
    let plan = decode_plan(3, 1, 42, 8, 2);
    assert!(plan.is_q);
    assert_eq!(plan.head_block, 6);
    assert_eq!(plan.value_block, None);
    assert_eq!(
        plan.rotated,
        Write { target: Target::QueryOut, row: 3, col: 0, part: 1, half: Half::RotatedHigh }
    );
    assert_eq!(plan.value, None);

    let plan = decode_plan(9, 1, 42, 8, 2);
    assert!(!plan.is_q);
    assert_eq!(plan.head_block, 18);
    assert_eq!(plan.value_block, Some(23));
    assert_eq!(
        plan.rotated,
        Write { target: Target::KeyCache, row: 1, col: 42, part: 1, half: Half::RotatedHigh }
    );
    assert_eq!(
        plan.value,
        Some(Write {
            target: Target::ValueCache,
            row: 1,
            col: 42,
            part: 1,
            half: Half::ValueHigh
        })
    );
}

#[test]
fn fused_decode_is_a_prefill_of_one_position() {
    let (num_q, num_kv, pos) = (4, 2, 9);
    for head in 0..num_q + num_kv {
        let mut decoded = Vec::new();
        let mut blocks = Vec::new();
        for half in 0..2 {
            let plan = decode_plan(head, half, pos, num_q, num_kv);
            decoded.push(plan.rotated);
            decoded.extend(plan.value);
            blocks.extend([plan.head_block, plan.head_block + 1]);
            blocks.extend(plan.value_block);
        }
        // The query output of a prefill has its heads in columns.
        for w in &mut decoded {
            if w.target == Target::QueryOut {
                *w = Write { row: w.col, col: w.row, ..*w };
            }
        }
        let prefill = prefill_writes(0, head, pos, num_q);
        assert_eq!(decoded.len(), prefill.len());
        for w in &prefill {
            assert!(decoded.contains(w));
        }
        let mut needed: Vec<i32> = prefill_reads(0, head, num_q)
            .iter()
            .map(|r| {
                r.part
                    + 2 * match r.source {
                        Source::Query => r.col,
                        Source::Key => num_q + r.col,
                        Source::Value => num_q + num_kv + r.col,
                    }
            })
            .collect();
        needed.sort();
        blocks.sort();
        blocks.dedup();
        assert_eq!(blocks, needed);
    }
}

#[test]
fn fused_decode_blocks_tile_the_row() {
    let (num_q, num_kv) = (4, 2);
    let mut blocks = Vec::new();
    for head in 0..num_q + num_kv {
        let plan = decode_plan(head, 0, 0, num_q, num_kv);
        blocks.push(plan.head_block);
        blocks.push(plan.head_block + 1);
        for half in 0..2 {
            blocks.extend(decode_plan(head, half, 0, num_q, num_kv).value_block);
        }
    }
    blocks.sort();
    let all: Vec<i32> = (0..2 * num_q + 4 * num_kv).collect();
    assert_eq!(blocks, all);
}

// ---- rows and positions ----

#[test]
fn row_tiles_cover_the_row() {
    assert_eq!(row_tiles(1000, 512, true), 2);
    assert_eq!(row_tiles(1000, 512, false), 1);
    assert_eq!(row_tiles(1024, 512, true), 2);
    assert_eq!(row_tiles(1024, 512, false), 2);
    for n in 1..40 {
        for block in 1..12 {
            assert!(row_tiles(n, block, true) * block >= n);
            assert_eq!(row_tiles(n, block, false) * block == n, n % block == 0);
        }
    }
}

#[test]
fn rope_steps() {
    let step = rope_step(5, 9, 1, 100, 8);
    assert_eq!((step.head.is_q, step.head.local_head), (false, 1));
    assert_eq!(step.position, 105);
    assert_eq!(step.half, Half::RotatedHigh);
    let step = rope_step(0, 7, 0, 0, 8);
    assert_eq!((step.head.is_q, step.head.local_head), (true, 7));
    assert_eq!(step.position, 0);
    assert_eq!(step.half, Half::RotatedLow);
}

// ---- cache ----

#[test]
fn cache_rows_are_written_once() {
    let (bm_s, seq_len) = (4, 10);
    let mut rows = Vec::new();
    for tile in 0..4 {
        for row in cache_rows(tile, bm_s, seq_len) {
            assert_eq!(row.global, tile * bm_s + row.local);
            rows.push(row.global);
        }
    }
    let all: Vec<i32> = (0..seq_len).collect();
    assert_eq!(rows, all);
    assert_eq!(cache_rows(2, bm_s, seq_len).len(), 2);
    assert!(cache_rows(3, bm_s, seq_len).is_empty());
    assert_eq!(decode_cache_row(100, 3), 103);
}

// ---- argmax ----

#[test]
fn argmax_of_a_block() {
    let keys = vec![3, 9, 9, 1, 7];
    assert_eq!(block_argmax(&keys, -1, 0, 4, 5), BlockMax { key: 9, index: 1 });
    // The lanes past the end hold the mask.
    assert_eq!(block_argmax(&keys, -1, 1, 4, 5), BlockMax { key: 7, index: 4 });
    assert_eq!(block_argmax(&keys, -1, 2, 4, 5), BlockMax { key: -1, index: 8 });
}

#[test]
fn argmax_ties_take_the_least_index() {
    let blocks = vec![
        BlockMax { key: 5, index: 2 },
        BlockMax { key: 8, index: 7 },
        BlockMax { key: 8, index: 5 },
        BlockMax { key: 99, index: 0 },
    ];
    assert_eq!(reduce_blocks(&blocks, -1, 3), 5);
    assert_eq!(reduce_blocks(&blocks, -1, 4), 0);
}

#[test]
fn argmax_in_two_stages() {
    let keys: Vec<i64> = (0..103).map(|i| (i * 37 + 11) % 53).collect();
    let len = keys.len() as i32;
    let block_size = 16;
    let num_blocks = ceil_div_i32(len, block_size);
    let blocks: Vec<BlockMax> =
        (0..num_blocks).map(|b| block_argmax(&keys, -1, b, block_size, len)).collect();
    let winner = reduce_blocks(&blocks, -1, num_blocks);
    let greatest = *keys.iter().max().unwrap();
    let first = keys.iter().position(|k| *k == greatest).unwrap();
    assert_eq!(winner, first as i32);
}
