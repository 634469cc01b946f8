//! Layouts of attention key/value cache blocks, and the conversion between them.
//!
//! A block has five extents. In the universal order they are heads, layers,
//! offsets, tokens and head dimension. A layout is an order of the extents, and a
//! map between two layouts says for each place of the destination which place of
//! the source it comes from.

use vstd::arithmetic::div_mod::*;
use vstd::arithmetic::mul::*;
use vstd::prelude::*;

use crate::kernels::schedule;
use crate::text;
use crate::text::push_dec;

verus! {

/// The layout of stacked block chunks.
#[derive(Clone, Copy, Debug, PartialEq, Eq, Structural)]
pub enum StackedLayout {
    /// `[num_layers][num_offsets][tokens, heads, head_dim]`.
    Nhd,
    /// `[num_layers][num_offsets][heads, tokens, head_dim]`.
    Hnd,
}

/// The layout of a contiguous block.
#[derive(Clone, Copy, Debug, PartialEq, Eq, Structural)]
pub enum ContiguousLayout {
    /// `[num_layers, num_offsets, tokens * heads * head_dim]` with NHD inner order.
    OperationalNhd,
    /// `[num_layers, num_offsets, heads * tokens * head_dim]` with HND inner order.
    OperationalHnd,
    /// `[heads, num_layers, num_offsets, tokens, head_dim]`.
    Universal,
}

/// The pairs of layouts between which blocks can be converted.
pub open spec fn convertible(stacked: StackedLayout, contiguous: ContiguousLayout) -> bool {
    match contiguous {
        ContiguousLayout::Universal => true,
        ContiguousLayout::OperationalNhd => stacked == StackedLayout::Nhd,
        ContiguousLayout::OperationalHnd => stacked == StackedLayout::Hnd,
    }
}

/// The map from a stacked to a contiguous layout.
pub open spec fn stacked_map(stacked: StackedLayout, contiguous: ContiguousLayout) -> Seq<usize> {
    match (stacked, contiguous) {
        (StackedLayout::Nhd, ContiguousLayout::Universal) => seq![3, 0, 1, 2, 4],
        (StackedLayout::Hnd, ContiguousLayout::Universal) => seq![2, 0, 1, 3, 4],
        _ => seq![0, 1, 2, 3, 4],
    }
}

/// The map from a contiguous to a stacked layout.
pub open spec fn contiguous_map(contiguous: ContiguousLayout, stacked: StackedLayout) -> Seq<
    usize,
> {
    match (contiguous, stacked) {
        (ContiguousLayout::Universal, StackedLayout::Nhd) => seq![1, 2, 3, 0, 4],
        (ContiguousLayout::Universal, StackedLayout::Hnd) => seq![1, 2, 0, 3, 4],
        _ => seq![0, 1, 2, 3, 4],
    }
}

impl StackedLayout {
    /// Whether blocks can be converted between the layouts; `map` can be called
    /// only where they can.
    pub fn converts(self, contiguous: ContiguousLayout) -> (b: bool)
        ensures
            b == convertible(self, contiguous),
    {
        match contiguous {
            ContiguousLayout::Universal => true,
            ContiguousLayout::OperationalNhd => self == StackedLayout::Nhd,
            ContiguousLayout::OperationalHnd => self == StackedLayout::Hnd,
        }
    }

    /// The map to a contiguous layout.
    pub fn map(self, dst_layout: ContiguousLayout) -> (m: [usize; 5])
        requires
            convertible(self, dst_layout),
        ensures
            m@ == stacked_map(self, dst_layout),
    {
        let m: [usize; 5] = match (self, dst_layout) {
            (StackedLayout::Nhd, ContiguousLayout::Universal) => [3, 0, 1, 2, 4],
            (StackedLayout::Hnd, ContiguousLayout::Universal) => [2, 0, 1, 3, 4],
            _ => [0, 1, 2, 3, 4],
        };
        assert(m@ =~= stacked_map(self, dst_layout));
        m
    }
}

impl ContiguousLayout {
    /// The map to a stacked layout.
    pub fn map(self, dst_layout: StackedLayout) -> (m: [usize; 5])
        requires
            convertible(dst_layout, self),
        ensures
            m@ == contiguous_map(self, dst_layout),
    {
        let m: [usize; 5] = match (self, dst_layout) {
            (ContiguousLayout::Universal, StackedLayout::Nhd) => [1, 2, 3, 0, 4],
            (ContiguousLayout::Universal, StackedLayout::Hnd) => [1, 2, 0, 3, 4],
            _ => [0, 1, 2, 3, 4],
        };
        assert(m@ =~= contiguous_map(self, dst_layout));
        m
    }
}

/// A map's values in the order that it gives: place `i` holds what place `map[i]`
/// of the source holds.
pub open spec fn remapped<T>(src: Seq<T>, map: Seq<usize>) -> Seq<T> {
    Seq::new(map.len(), |i: int| src[map[i] as int])
}

/// Every place that a map names is there.
pub open spec fn map_fits(map: Seq<usize>, len: nat) -> bool {
    forall|i: int| 0 <= i < map.len() ==> (#[trigger] map[i]) < len
}

/// The values of `src` in the order that a map gives.
pub fn remap<const RANK: usize>(src: &[usize], map: [usize; RANK]) -> (result: [usize; RANK])
    requires
        map_fits(map@, src@.len()),
    ensures
        result@ == remapped(src@, map@),
{
    let mut result: [usize; RANK] = map;
    let mut i: usize = 0;
    while i < RANK
        invariant
            i <= RANK,
            map_fits(map@, src@.len()),
            map@.len() == RANK,
            result@.len() == RANK,
            forall|j: int| 0 <= j < i ==> result@[j] == src@[map@[j] as int],
        decreases RANK - i,
    {
        result[i] = src[map[i]];
        i = i + 1;
    }
    assert(result@ =~= remapped(src@, map@));
    result
}

/// Every map between layouts is a permutation of the five places, the maps there
/// and back undo each other, and so do two conversions of any block.
pub proof fn layout_maps_undo_each_other<T>(
    stacked: StackedLayout,
    contiguous: ContiguousLayout,
    block: Seq<T>,
)
    requires
        convertible(stacked, contiguous),
        block.len() == 5,
    ensures
        map_fits(stacked_map(stacked, contiguous), 5),
        map_fits(contiguous_map(contiguous, stacked), 5),
        remapped(
            remapped(block, stacked_map(stacked, contiguous)),
            contiguous_map(contiguous, stacked),
        ) == block,
        remapped(
            remapped(block, contiguous_map(contiguous, stacked)),
            stacked_map(stacked, contiguous),
        ) == block,
{
    assert(remapped(
        remapped(block, stacked_map(stacked, contiguous)),
        contiguous_map(contiguous, stacked),
    ) =~= block);
    assert(remapped(
        remapped(block, contiguous_map(contiguous, stacked)),
        stacked_map(stacked, contiguous),
    ) =~= block);
}

/// A tile with its first three extents folded into one.
pub open spec fn flat_shape(tile: Seq<usize>) -> Seq<usize> {
    seq![(tile[0] * tile[1] * tile[2]) as usize, tile[3], tile[4]]
}

/// A tile with its first three extents folded into one.
fn flat_tile_shape(tile: [usize; 5]) -> (flat: [usize; 3])
    requires
        tile@[0] * tile@[1] <= usize::MAX,
        tile@[0] * tile@[1] * tile@[2] <= usize::MAX,
    ensures
        flat@ == flat_shape(tile@),
{
    let flat: [usize; 3] = [tile[0] * tile[1] * tile[2], tile[3], tile[4]];
    assert(flat@ =~= flat_shape(tile@));
    flat
}

/// The decimal notations of numbers.
pub open spec fn numerals(s: Seq<usize>) -> Seq<Seq<char>> {
    Seq::new(s.len(), |i: int| text::dec_text(s[i] as nat))
}

/// The notations of two lists together are those of the first and then those of the
/// second.
proof fn numerals_concat(a: Seq<usize>, b: Seq<usize>)
    ensures
        numerals(a + b) == numerals(a) + numerals(b),
{
    assert(numerals(a + b) =~= numerals(a) + numerals(b));
}

/// Appends the decimal notations of numbers.
fn push_usize_array<const RANK: usize>(generics: &mut Vec<String>, values: [usize; RANK])
    ensures
        text::texts(final(generics)@) == text::texts(old(generics)@) + numerals(values@),
{
    let ghost before = generics@;
    let mut i: usize = 0;
    while i < RANK
        invariant
            i <= RANK,
            values@.len() == RANK,
            generics@.len() == before.len() + i,
            forall|j: int| 0 <= j < before.len() ==> (#[trigger] generics@[j])@ == before[j]@,
            forall|j: int|
                before.len() <= j < before.len() + i ==> (#[trigger] generics@[j])@
                    == text::dec_text(values@[j - before.len()] as nat),
        decreases RANK - i,
    {
        let mut s = String::new();
        push_dec(&mut s, values[i] as u64);
        assert(s@ =~= text::dec_text(values@[i as int] as nat));
        generics.push(s);
        i = i + 1;
    }
    assert(text::texts(generics@) =~= text::texts(before) + numerals(values@));
}

/// The tile of a specialization in the universal order: one head, one layer, one
/// offset, and the given tokens and head dimension.
pub open spec fn universal_tile(tile_tokens: usize, tile_head_dim: usize) -> Seq<usize> {
    seq![1, 1, 1, tile_tokens, tile_head_dim]
}

/// The tile of a specialization in a stacked layout.
pub open spec fn stacked_tile(
    stacked: StackedLayout,
    tile_tokens: usize,
    tile_head_dim: usize,
) -> Seq<usize> {
    remapped(
        universal_tile(tile_tokens, tile_head_dim),
        contiguous_map(ContiguousLayout::Universal, stacked),
    )
}

/// The tile of a specialization in a contiguous layout.
pub open spec fn contiguous_tile(
    stacked: StackedLayout,
    contiguous: ContiguousLayout,
    tile_tokens: usize,
    tile_head_dim: usize,
) -> Seq<usize> {
    remapped(stacked_tile(stacked, tile_tokens, tile_head_dim), stacked_map(stacked, contiguous))
}

/// The arguments of a specialization from stacked to contiguous: the two tiles, the
/// two tiles folded, the map from the universal order to the stacked one, and the
/// map from stacked to contiguous.
pub open spec fn stacked_to_contiguous_args(
    stacked: StackedLayout,
    contiguous: ContiguousLayout,
    tile_tokens: usize,
    tile_head_dim: usize,
) -> Seq<usize> {
    let s = stacked_tile(stacked, tile_tokens, tile_head_dim);
    let c = contiguous_tile(stacked, contiguous, tile_tokens, tile_head_dim);
    s + c + flat_shape(s) + flat_shape(c) + contiguous_map(ContiguousLayout::Universal, stacked)
        + stacked_map(stacked, contiguous)
}

/// The folded extents of the tiles fit: of the three, all but one are 1.
proof fn flat_shapes_fit(
    stacked: StackedLayout,
    contiguous: ContiguousLayout,
    tile_tokens: usize,
    tile_head_dim: usize,
)
    requires
        convertible(stacked, contiguous),
    ensures
        ({
            let s = stacked_tile(stacked, tile_tokens, tile_head_dim);
            &&& s[0] * s[1] <= usize::MAX
            &&& s[0] * s[1] * s[2] <= usize::MAX
        }),
        ({
            let c = contiguous_tile(stacked, contiguous, tile_tokens, tile_head_dim);
            &&& c[0] * c[1] <= usize::MAX
            &&& c[0] * c[1] * c[2] <= usize::MAX
        }),
{
    let s = stacked_tile(stacked, tile_tokens, tile_head_dim);
    let c = contiguous_tile(stacked, contiguous, tile_tokens, tile_head_dim);
    assert(s[0] == 1 && s[1] == 1);
    assert(c[0] == 1 && c[1] == 1);
}

/// The decimal notations of six lists.
fn six_lists(
    s: [usize; 5],
    c: [usize; 5],
    s_view: [usize; 3],
    c_view: [usize; 3],
    u2s: [usize; 5],
    s2c: [usize; 5],
) -> (generics: Vec<String>)
    ensures
        text::texts(generics@) == numerals(s@ + c@ + s_view@ + c_view@ + u2s@ + s2c@),
{
    let mut generics: Vec<String> = Vec::new();
    let ghost none = text::texts(generics@);
    push_usize_array(&mut generics, s);
    push_usize_array(&mut generics, c);
    push_usize_array(&mut generics, s_view);
    push_usize_array(&mut generics, c_view);
    push_usize_array(&mut generics, u2s);
    push_usize_array(&mut generics, s2c);
    proof {
        assert(none + numerals(s@) =~= numerals(s@));
        numerals_concat(s@, c@);
        numerals_concat(s@ + c@, s_view@);
        numerals_concat(s@ + c@ + s_view@, c_view@);
        numerals_concat(s@ + c@ + s_view@ + c_view@, u2s@);
        numerals_concat(s@ + c@ + s_view@ + c_view@ + u2s@, s2c@);
    }
    generics
}

/// The const-generic arguments of a specialization from stacked to contiguous.
pub fn stacked_to_contiguous_f16_generics(
    stacked_layout: StackedLayout,
    contiguous_layout: ContiguousLayout,
    tile_tokens: usize,
    tile_head_dim: usize,
) -> (generics: Vec<String>)
    requires
        convertible(stacked_layout, contiguous_layout),
    ensures
        text::texts(generics@) == numerals(
            stacked_to_contiguous_args(
                stacked_layout,
                contiguous_layout,
                tile_tokens,
                tile_head_dim,
            ),
        ),
{
    let universal: [usize; 5] = [1, 1, 1, tile_tokens, tile_head_dim];
    assert(universal@ =~= universal_tile(tile_tokens, tile_head_dim));
    let universal_to_stacked = ContiguousLayout::Universal.map(stacked_layout);
    let stacked_to_contiguous = stacked_layout.map(contiguous_layout);
    let s = remap(&universal, universal_to_stacked);
    let c = remap(&s, stacked_to_contiguous);
    proof {
        flat_shapes_fit(stacked_layout, contiguous_layout, tile_tokens, tile_head_dim);
    }
    let s_view = flat_tile_shape(s);
    let c_view = flat_tile_shape(c);
    six_lists(s, c, s_view, c_view, universal_to_stacked, stacked_to_contiguous)
}

/// The const-generic arguments of a specialization from contiguous to stacked: those
/// of the other direction, and the map from contiguous to stacked.
pub fn contiguous_to_stacked_f16_generics(
    stacked_layout: StackedLayout,
    contiguous_layout: ContiguousLayout,
    tile_tokens: usize,
    tile_head_dim: usize,
) -> (generics: Vec<String>)
    requires
        convertible(stacked_layout, contiguous_layout),
    ensures
        text::texts(generics@) == numerals(
            stacked_to_contiguous_args(
                stacked_layout,
                contiguous_layout,
                tile_tokens,
                tile_head_dim,
            ) + contiguous_map(contiguous_layout, stacked_layout),
        ),
        text::texts(generics@) == numerals(
            contiguous_to_stacked_args(
                stacked_layout,
                contiguous_layout,
                tile_tokens,
                tile_head_dim,
            ),
        ),
{
    let mut generics = stacked_to_contiguous_f16_generics(
        stacked_layout,
        contiguous_layout,
        tile_tokens,
        tile_head_dim,
    );
    let contiguous_to_stacked = contiguous_layout.map(stacked_layout);
    push_usize_array(&mut generics, contiguous_to_stacked);
    proof {
        numerals_concat(
            stacked_to_contiguous_args(
                stacked_layout,
                contiguous_layout,
                tile_tokens,
                tile_head_dim,
            ),
            contiguous_to_stacked@,
        );
    }
    generics
}

/// The block, head, layer and offset of a tile. The offset runs fastest.
pub open spec fn folded(tile: int, nh: int, nl: int, no: int) -> (int, int, int, int) {
    (tile / no / nl / nh, tile / no / nl % nh, tile / no % nl, tile % no)
}

/// The tile of a block, head, layer and offset.
pub open spec fn unfolded(block: int, h: int, l: int, o: int, nh: int, nl: int, no: int) -> int {
    ((block * nh + h) * nl + l) * no + o
}

/// The block, head, layer and offset of a tile, for the extents in that order.
pub fn fold_iteration_indexes(tile_idx: i32, shape: [i32; 4]) -> (r: (i32, i32, i32, i32))
    requires
        0 <= tile_idx,
        0 < shape@[1],
        0 < shape@[2],
        0 < shape@[3],
    ensures
        (r.0 as int, r.1 as int, r.2 as int, r.3 as int) == folded(
            tile_idx as int,
            shape@[1] as int,
            shape@[2] as int,
            shape@[3] as int,
        ),
{
    proof {
        lemma_div_pos_is_pos(tile_idx as int, shape@[3] as int);
        lemma_div_pos_is_pos(tile_idx as int / shape@[3] as int, shape@[2] as int);
    }
    let o_idx: i32 = tile_idx % shape[3];
    let rest_idx: i32 = tile_idx / shape[3];
    let l_idx: i32 = rest_idx % shape[2];
    let rest_idx: i32 = rest_idx / shape[2];
    let h_idx: i32 = rest_idx % shape[1];
    let block_idx: i32 = rest_idx / shape[1];
    (block_idx, h_idx, l_idx, o_idx)
}

/// The tiles are the blocks, heads, layers and offsets, one for one: a tile folds into
/// indices in range which unfold to it, and indices in range unfold to a tile which
/// folds into them.
pub proof fn folding_is_one_to_one(
    tile: int,
    block: int,
    h: int,
    l: int,
    o: int,
    nb: int,
    nh: int,
    nl: int,
    no: int,
)
    requires
        0 < nb,
        0 < nh,
        0 < nl,
        0 < no,
    ensures
        0 <= tile < nb * nh * nl * no ==> {
            let (b1, h1, l1, o1) = folded(tile, nh, nl, no);
            &&& 0 <= b1 < nb
            &&& 0 <= h1 < nh
            &&& 0 <= l1 < nl
            &&& 0 <= o1 < no
            &&& unfolded(b1, h1, l1, o1, nh, nl, no) == tile
        },
        0 <= block < nb && 0 <= h < nh && 0 <= l < nl && 0 <= o < no ==> {
            let t = unfolded(block, h, l, o, nh, nl, no);
            &&& 0 <= t < nb * nh * nl * no
            &&& folded(t, nh, nl, no) == (block, h, l, o)
        },
{
    if 0 <= tile < nb * nh * nl * no {
        lemma_mul_strictly_positive(nb, nh);
        lemma_mul_strictly_positive(nb * nh, nl);
        schedule::places_are_on_the_grid(tile, nb * nh * nl, no, 1);
        let rest = tile / no;
        lemma_fundamental_div_mod(tile, no);
        lemma_mul_is_commutative(no, rest);
        schedule::places_are_on_the_grid(rest, nb * nh, nl, 1);
        lemma_fundamental_div_mod(rest, nl);
        lemma_mul_is_commutative(nl, rest / nl);
        schedule::places_are_on_the_grid(rest / nl, nb, nh, 1);
        lemma_fundamental_div_mod(rest / nl, nh);
        lemma_mul_is_commutative(nh, rest / nl / nh);
    }
    if 0 <= block < nb && 0 <= h < nh && 0 <= l < nl && 0 <= o < no {
        schedule::linear_is_one_to_one(block, h, nb, nh, 0);
        let bh = block * nh + h;
        schedule::linear_is_one_to_one(bh, l, nb * nh, nl, 0);
        let bhl = bh * nl + l;
        schedule::linear_is_one_to_one(bhl, o, nb * nh * nl, no, 0);
    }
}

/// A tensor of rank five with its first three extents folded into one, and a tile of
/// it.
#[derive(Clone, Copy, Debug)]
pub struct FlatView {
    pub shape: [i32; 3],
    /// The strides of the first two extents; the third is 1.
    pub strides: [i32; 2],
    pub tile_idx: [i32; 3],
}

/// The index of a tile in the folded extent. A tile is one element along the first two
/// extents and `third_tile` along the third.
pub open spec fn flat_index(dims: Seq<i32>, idx: Seq<i32>, third_tile: int) -> int {
    (idx[0] * dims[1] + idx[1]) * (dims[2] as int / third_tile) + idx[2]
}

/// The extents with the first three folded into one.
pub open spec fn flat_extents(dims: Seq<i32>) -> Seq<i32> {
    seq![(dims[0] * dims[1] * dims[2]) as i32, dims[3], dims[4]]
}

/// The strides of the folded extents but the last, whose stride is 1.
pub open spec fn flat_strides(dims: Seq<i32>) -> Seq<i32> {
    seq![(dims[3] * dims[4]) as i32, dims[4]]
}

/// A tensor of rank five with its first three extents folded into one, and the place
/// of a tile of it, which holds `third_tile` elements along the third extent.
pub fn flat_view(shape_dims: [i32; 5], tile_idx: [i32; 5], third_tile: i32) -> (view: FlatView)
    requires
        forall|i: int| 0 <= i < 5 ==> 0 < #[trigger] shape_dims@[i],
        forall|i: int| 0 <= i < 5 ==> 0 <= #[trigger] tile_idx@[i] < shape_dims@[i],
        0 < third_tile,
        shape_dims@[2] as int % third_tile as int == 0,
        tile_idx@[2] < shape_dims@[2] as int / third_tile as int,
        shape_dims@[0] * shape_dims@[1] * shape_dims@[2] <= i32::MAX,
        shape_dims@[3] * shape_dims@[4] <= i32::MAX,
    ensures
        view.shape@ =~= flat_extents(shape_dims@),
        view.strides@ =~= flat_strides(shape_dims@),
        view.tile_idx@ =~= seq![
            flat_index(shape_dims@, tile_idx@, third_tile as int) as i32,
            tile_idx@[3],
            tile_idx@[4],
        ],
        0 <= flat_index(shape_dims@, tile_idx@, third_tile as int) < view.shape@[0],
{
    let d0: i32 = shape_dims[0];
    let d1: i32 = shape_dims[1];
    let d2: i32 = shape_dims[2];
    let d3: i32 = shape_dims[3];
    let d4: i32 = shape_dims[4];
    let i0: i32 = tile_idx[0];
    let i1: i32 = tile_idx[1];
    let i2: i32 = tile_idx[2];
    let n2: i32 = d2 / third_tile;
    proof {
        lemma_fundamental_div_mod(d2 as int, third_tile as int);
        assert(0 < n2 <= d2) by (nonlinear_arith)
            requires
                0 < third_tile,
                0 < d2,
                d2 == third_tile * n2,
        ;
        schedule::linear_is_one_to_one(i0 as int, i1 as int, d0 as int, d1 as int, 0);
        schedule::linear_is_one_to_one(i0 * d1 + i1, i2 as int, d0 * d1, n2 as int, 0);
        lemma_mul_nonnegative(d0 as int, d1 as int);
        lemma_mul_nonnegative(d3 as int, d4 as int);
        lemma_mul_nonnegative(i0 as int, d1 as int);
        lemma_mul_nonnegative(i0 * d1 + i1, n2 as int);
        lemma_mul_nonnegative(d0 * d1, d2 as int);
        assert(d0 * d1 <= d0 * d1 * d2 && d0 * d1 * n2 <= d0 * d1 * d2) by (nonlinear_arith)
            requires
                0 <= d0 * d1,
                0 < n2 <= d2,
        ;
    }
    FlatView {
        shape: [d0 * d1 * d2, d3, d4],
        strides: [d3 * d4, d4],
        tile_idx: [(i0 * d1 + i1) * n2 + i2, tile_idx[3], tile_idx[4]],
    }
}

/// Folding the first three extents keeps the offset of every element: the one that is
/// `within` elements into a tile along the third extent, and at `i3` and `i4` along the
/// last two.
pub proof fn flat_view_keeps_offsets(
    dims: Seq<i32>,
    idx: Seq<i32>,
    third_tile: int,
    within: int,
    i3: int,
    i4: int,
)
    requires
        dims.len() == 5,
        idx.len() == 5,
        0 < third_tile,
        dims[2] as int % third_tile == 0,
    ensures
        (((idx[0] * dims[1] + idx[1]) * dims[2] + (idx[2] * third_tile + within)) * dims[3] + i3)
            * dims[4] + i4 == (flat_index(dims, idx, third_tile) * third_tile + within) * (dims[3]
            * dims[4]) + i3 * dims[4] + i4,
{
    let a = idx[0] * dims[1] + idx[1];
    let d2 = dims[2] as int;
    let n2 = d2 / third_tile;
    let i2 = idx[2] as int;
    lemma_fundamental_div_mod(d2, third_tile);
    assert((a * n2 + i2) * third_tile == a * d2 + i2 * third_tile) by (nonlinear_arith)
        requires
            d2 == third_tile * n2,
    ;
    let f = a * d2 + (i2 * third_tile + within);
    let d3 = dims[3] as int;
    let d4 = dims[4] as int;
    assert((f * d3 + i3) * d4 == f * (d3 * d4) + i3 * d4) by (nonlinear_arith);
}

/// The extents of a conversion: blocks, heads, layers, offsets, tokens and head
/// dimension.
#[derive(Clone, Copy, Debug, PartialEq, Eq, Structural)]
pub struct CopyExtents {
    pub num_blocks: i32,
    pub nh: i32,
    pub nl: i32,
    pub no: i32,
    pub nt: i32,
    pub hd: i32,
}

/// Where a tile stands in stacked and in contiguous blocks.
#[derive(Clone, Copy, Debug)]
pub struct CopyStep {
    /// The stacked tensor, among those of all blocks.
    pub stacked_tensor: i32,
    pub stacked: FlatView,
    /// The contiguous tensor: there is one for each block.
    pub contiguous_tensor: i32,
    pub contiguous: FlatView,
}

impl CopyExtents {
    /// The number of tiles that a program of a conversion walks over.
    pub open spec fn tiles(self) -> int {
        self.num_blocks * self.nh * self.nl * self.no
    }

    /// The extents of a block in the universal order.
    pub open spec fn universal(self) -> Seq<i32> {
        seq![self.nh, self.nl, self.no, self.nt, self.hd]
    }

    /// The extents are positive and the indices stay in range.
    pub open spec fn fits(self) -> bool {
        &&& 0 < self.num_blocks
        &&& 0 < self.nh
        &&& 0 < self.nl
        &&& 0 < self.no
        &&& 0 < self.nt
        &&& 0 < self.hd
        &&& self.tiles() <= i32::MAX
        &&& self.nl * self.no * self.nt <= i32::MAX
        &&& self.nh * self.hd <= i32::MAX
        &&& self.nt * self.hd <= i32::MAX
    }

    /// The tiles divide the tokens and the head dimension.
    pub open spec fn tiled_by(self, tile_tokens: int, tile_head_dim: int) -> bool {
        &&& 0 < tile_tokens
        &&& 0 < tile_head_dim
        &&& self.nt as int % tile_tokens == 0
        &&& self.hd as int % tile_head_dim == 0
    }
}

/// The stacked tensor of a block, layer and offset.
pub open spec fn stacked_tensor(nl: int, no: int, block: int, l: int, o: int) -> int {
    nl * no * block + no * l + o
}

/// The place of a tile inside a stacked tensor.
pub open spec fn stacked_place(layout: StackedLayout, h: int, t: int, d: int) -> (int, int, int) {
    match layout {
        StackedLayout::Nhd => (t, h, d),
        StackedLayout::Hnd => (h, t, d),
    }
}

/// The place of a tile of `tile_tokens` tokens inside a contiguous tensor.
pub open spec fn contiguous_place(
    layout: ContiguousLayout,
    e: CopyExtents,
    tile_tokens: int,
    h: int,
    l: int,
    o: int,
    t: int,
    d: int,
) -> (int, int, int) {
    match layout {
        ContiguousLayout::Universal => ((h * e.nl + l) * e.no + o, t, d),
        ContiguousLayout::OperationalNhd => (
            (l * e.no + o) * (e.nt as int / tile_tokens) + t,
            h,
            d,
        ),
        ContiguousLayout::OperationalHnd => ((l * e.no + o) * e.nh + h, t, d),
    }
}

/// The three numbers of an index.
pub open spec fn triple(s: Seq<i32>) -> (int, int, int) {
    (s[0] as int, s[1] as int, s[2] as int)
}

/// The values of an index in the order that a map gives.
fn permute_array(src: [i32; 5], map: [usize; 5]) -> (result: [i32; 5])
    requires
        map_fits(map@, 5),
    ensures
        result@ == remapped(src@, map@),
{
    let result: [i32; 5] = [src[map[0]], src[map[1]], src[map[2]], src[map[3]], src[map[4]]];
    assert(result@ =~= remapped(src@, map@));
    result
}

/// The products of the extents that a conversion forms fit.
proof fn extents_fit(e: CopyExtents)
    requires
        e.fits(),
    ensures
        e.nl * e.no * e.num_blocks <= i32::MAX,
        e.nh * e.nl * e.no <= i32::MAX,
        e.nl * e.no * e.nh <= i32::MAX,
        0 < e.nl * e.no <= i32::MAX,
        0 < e.nh * e.nl <= i32::MAX,
{
    let b = e.num_blocks as int;
    let h = e.nh as int;
    let l = e.nl as int;
    let o = e.no as int;
    let lo = l * o;
    assert(0 < lo) by (nonlinear_arith)
        requires
            0 < l,
            0 < o,
            lo == l * o,
    ;
    assert(b * h * l * o == (b * h) * lo) by (nonlinear_arith)
        requires
            lo == l * o,
    ;
    assert(lo * b <= (b * h) * lo && lo * h <= (b * h) * lo && lo <= lo * b) by (nonlinear_arith)
        requires
            0 < lo,
            0 < b,
            0 < h,
    ;
    assert(h * l * o == lo * h) by (nonlinear_arith)
        requires
            lo == l * o,
    ;
    assert(0 < h * l <= h * l * o) by (nonlinear_arith)
        requires
            0 < h,
            0 < l,
            0 < o,
    ;
}

/// The extents or indices of the universal order, in the order of a stacked layout.
pub open spec fn in_stacked_order(layout: StackedLayout, u: Seq<i32>) -> Seq<i32> {
    match layout {
        StackedLayout::Nhd => seq![u[1], u[2], u[3], u[0], u[4]],
        StackedLayout::Hnd => seq![u[1], u[2], u[0], u[3], u[4]],
    }
}

/// The extents or indices of the universal order, in the order of a contiguous layout.
pub open spec fn in_contiguous_order(layout: ContiguousLayout, u: Seq<i32>) -> Seq<i32> {
    match layout {
        ContiguousLayout::Universal => seq![u[0], u[1], u[2], u[3], u[4]],
        ContiguousLayout::OperationalNhd => seq![u[1], u[2], u[3], u[0], u[4]],
        ContiguousLayout::OperationalHnd => seq![u[1], u[2], u[0], u[3], u[4]],
    }
}

/// The extents of one stacked tensor: a block has one for each layer and offset.
pub open spec fn stacked_dims(layout: StackedLayout, e: CopyExtents) -> Seq<i32> {
    let s = in_stacked_order(layout, e.universal());
    seq![1i32, 1i32, s[2], s[3], s[4]]
}

/// Extents or indices in the order of a stacked layout.
fn stacked_order(layout: StackedLayout, universal: [i32; 5]) -> (r: [i32; 5])
    ensures
        r@ == in_stacked_order(layout, universal@),
{
    let map = ContiguousLayout::Universal.map(layout);
    assert(map_fits(map@, 5));
    let r = permute_array(universal, map);
    assert(r@ =~= in_stacked_order(layout, universal@));
    r
}

/// Extents or indices in the order of a contiguous layout, by way of a stacked one.
fn contiguous_order(
    stacked: StackedLayout,
    contiguous: ContiguousLayout,
    universal: [i32; 5],
) -> (r: [i32; 5])
    requires
        convertible(stacked, contiguous),
    ensures
        r@ == in_contiguous_order(contiguous, universal@),
{
    let in_stacked = stacked_order(stacked, universal);
    let map = stacked.map(contiguous);
    assert(map_fits(map@, 5));
    let r = permute_array(in_stacked, map);
    assert(r@ =~= in_contiguous_order(contiguous, universal@));
    r
}

/// The stacked tensor of a block, layer and offset.
fn stacked_tensor_idx(e: CopyExtents, block_idx: i32, l_idx: i32, o_idx: i32) -> (i: i32)
    requires
        e.fits(),
        0 <= block_idx < e.num_blocks,
        0 <= l_idx < e.nl,
        0 <= o_idx < e.no,
    ensures
        i == stacked_tensor(
            e.nl as int,
            e.no as int,
            block_idx as int,
            l_idx as int,
            o_idx as int,
        ),
{
    proof {
        extents_fit(e);
        let nl = e.nl as int;
        let no = e.no as int;
        let b = block_idx as int;
        let l = l_idx as int;
        schedule::linear_is_one_to_one(l, o_idx as int, nl, no, 0);
        lemma_mul_is_commutative(l, no);
        schedule::linear_is_one_to_one(b, no * l + o_idx, e.num_blocks as int, nl * no, 0);
        lemma_mul_is_commutative(b, nl * no);
        lemma_mul_is_commutative(e.num_blocks as int, nl * no);
        lemma_mul_nonnegative(nl * no, b);
        lemma_mul_nonnegative(no, l);
    }
    e.nl * e.no * block_idx + e.no * l_idx + o_idx
}

/// There are no more tiles of tokens than tokens.
proof fn tokens_bound(nt: int, tile_tokens: int)
    requires
        0 < nt,
        0 < tile_tokens,
        nt % tile_tokens == 0,
    ensures
        0 < nt / tile_tokens <= nt,
        nt == tile_tokens * (nt / tile_tokens),
{
    let n = nt / tile_tokens;
    lemma_fundamental_div_mod(nt, tile_tokens);
    assert(0 < n <= nt) by (nonlinear_arith)
        requires
            0 < tile_tokens,
            0 < nt,
            nt == tile_tokens * n,
    ;
}

/// The place of a tile inside a stacked tensor.
fn stacked_view(
    layout: StackedLayout,
    e: CopyExtents,
    tile_tokens: i32,
    idx: [i32; 5],
) -> (view: FlatView)
    requires
        e.fits(),
        0 < tile_tokens,
        e.nt as int % tile_tokens as int == 0,
        0 <= idx@[0] < e.nh,
        0 <= idx@[3] < e.nt as int / tile_tokens as int,
        0 <= idx@[4] < e.hd,
    ensures
        triple(view.tile_idx@) == stacked_place(
            layout,
            idx@[0] as int,
            idx@[3] as int,
            idx@[4] as int,
        ),
        view.shape@ == flat_extents(stacked_dims(layout, e)),
        view.strides@ == flat_strides(stacked_dims(layout, e)),
{
    let universal: [i32; 5] = [e.nh, e.nl, e.no, e.nt, e.hd];
    assert(universal@ =~= e.universal());
    let shape = stacked_order(layout, universal);
    let tile = stacked_order(layout, idx);
    let dims: [i32; 5] = [1, 1, shape[2], shape[3], shape[4]];
    let place: [i32; 5] = [0, 0, tile[2], tile[3], tile[4]];
    assert(dims@ =~= stacked_dims(layout, e));
    assert(dims@[0] * dims@[1] * dims@[2] == dims@[2]) by (nonlinear_arith)
        requires
            dims@[0] == 1,
            dims@[1] == 1,
    ;
    let third_tile: i32 = match layout {
        StackedLayout::Nhd => tile_tokens,
        StackedLayout::Hnd => 1,
    };
    let ghost n2 = dims@[2] as int / third_tile as int;
    assert((place@[0] * dims@[1] + place@[1]) * n2 == 0) by (nonlinear_arith)
        requires
            place@[0] == 0,
            place@[1] == 0,
    ;
    proof {
        tokens_bound(e.nt as int, tile_tokens as int);
    }
    flat_view(dims, place, third_tile)
}

/// The place of a tile inside a contiguous tensor.
fn contiguous_view(
    stacked: StackedLayout,
    layout: ContiguousLayout,
    e: CopyExtents,
    tile_tokens: i32,
    idx: [i32; 5],
) -> (view: FlatView)
    requires
        convertible(stacked, layout),
        e.fits(),
        0 < tile_tokens,
        e.nt as int % tile_tokens as int == 0,
        0 <= idx@[0] < e.nh,
        0 <= idx@[1] < e.nl,
        0 <= idx@[2] < e.no,
        0 <= idx@[3] < e.nt as int / tile_tokens as int,
        0 <= idx@[4] < e.hd,
    ensures
        triple(view.tile_idx@) == contiguous_place(
            layout,
            e,
            tile_tokens as int,
            idx@[0] as int,
            idx@[1] as int,
            idx@[2] as int,
            idx@[3] as int,
            idx@[4] as int,
        ),
        view.shape@ == flat_extents(in_contiguous_order(layout, e.universal())),
        view.strides@ == flat_strides(in_contiguous_order(layout, e.universal())),
{
    proof {
        extents_fit(e);
        tokens_bound(e.nt as int, tile_tokens as int);
    }
    let universal: [i32; 5] = [e.nh, e.nl, e.no, e.nt, e.hd];
    assert(universal@ =~= e.universal());
    let shape = contiguous_order(stacked, layout, universal);
    let tile = contiguous_order(stacked, layout, idx);
    let third_tile: i32 = match layout {
        ContiguousLayout::OperationalNhd => tile_tokens,
        _ => 1,
    };
    flat_view(shape, tile, third_tile)
}

/// Where the tile that a program meets at a step of a conversion stands, in both
/// layouts. A tile holds `tile_tokens` tokens and `tile_head_dim` of the head dimension;
/// the program has the token tile `t_idx` and the dimension tile `d_idx`. The places are
/// the same in both directions of the conversion.
pub fn copy_step(
    stacked_layout: StackedLayout,
    contiguous_layout: ContiguousLayout,
    e: CopyExtents,
    tile_tokens: i32,
    tile_head_dim: i32,
    t_idx: i32,
    d_idx: i32,
    tile_idx: i32,
) -> (step: CopyStep)
    requires
        convertible(stacked_layout, contiguous_layout),
        e.fits(),
        e.tiled_by(tile_tokens as int, tile_head_dim as int),
        0 <= t_idx < e.nt as int / tile_tokens as int,
        0 <= d_idx < e.hd as int / tile_head_dim as int,
        0 <= tile_idx < e.tiles(),
    ensures
        ({
            let (block, h, l, o) = folded(
                tile_idx as int,
                e.nh as int,
                e.nl as int,
                e.no as int,
            );
            let t = t_idx as int;
            let d = d_idx as int;
            &&& step.stacked_tensor == stacked_tensor(e.nl as int, e.no as int, block, l, o)
            &&& triple(step.stacked.tile_idx@) == stacked_place(stacked_layout, h, t, d)
            &&& step.contiguous_tensor == block
            &&& triple(step.contiguous.tile_idx@) == contiguous_place(
                contiguous_layout,
                e,
                tile_tokens as int,
                h,
                l,
                o,
                t,
                d,
            )
        }),
        step.stacked.shape@ == flat_extents(stacked_dims(stacked_layout, e)),
        step.stacked.strides@ == flat_strides(stacked_dims(stacked_layout, e)),
        step.contiguous.shape@ == flat_extents(
            in_contiguous_order(contiguous_layout, e.universal()),
        ),
        step.contiguous.strides@ == flat_strides(
            in_contiguous_order(contiguous_layout, e.universal()),
        ),
{
    let (block_idx, h_idx, l_idx, o_idx) = fold_iteration_indexes(
        tile_idx,
        [e.num_blocks, e.nh, e.nl, e.no],
    );
    proof {
        folding_is_one_to_one(
            tile_idx as int,
            0,
            0,
            0,
            0,
            e.num_blocks as int,
            e.nh as int,
            e.nl as int,
            e.no as int,
        );
        tokens_bound(e.hd as int, tile_head_dim as int);
    }
    let idx: [i32; 5] = [h_idx, l_idx, o_idx, t_idx, d_idx];
    CopyStep {
        stacked_tensor: stacked_tensor_idx(e, block_idx, l_idx, o_idx),
        stacked: stacked_view(stacked_layout, e, tile_tokens, idx),
        contiguous_tensor: block_idx,
        contiguous: contiguous_view(stacked_layout, contiguous_layout, e, tile_tokens, idx),
    }
}

/// Two tiles that stand at the same stacked place, or at the same contiguous place,
/// are the same tile. So no step of a conversion overwrites another, in either
/// direction.
pub proof fn copy_places_are_one_to_one(
    stacked_layout: StackedLayout,
    contiguous_layout: ContiguousLayout,
    e: CopyExtents,
    tile_tokens: int,
    tile_head_dim: int,
    a: int,
    ta: int,
    da: int,
    b: int,
    tb: int,
    db: int,
)
    requires
        e.fits(),
        e.tiled_by(tile_tokens, tile_head_dim),
        0 <= a < e.tiles(),
        0 <= b < e.tiles(),
        0 <= ta < e.nt as int / tile_tokens,
        0 <= tb < e.nt as int / tile_tokens,
        0 <= da < e.hd as int / tile_head_dim,
        0 <= db < e.hd as int / tile_head_dim,
    ensures
        ({
            let (block1, h1, l1, o1) = folded(a, e.nh as int, e.nl as int, e.no as int);
            let (block2, h2, l2, o2) = folded(b, e.nh as int, e.nl as int, e.no as int);
            let same = a == b && ta == tb && da == db;
            &&& stacked_tensor(e.nl as int, e.no as int, block1, l1, o1) == stacked_tensor(
                e.nl as int,
                e.no as int,
                block2,
                l2,
                o2,
            ) && stacked_place(stacked_layout, h1, ta, da) == stacked_place(
                stacked_layout,
                h2,
                tb,
                db,
            ) ==> same
            &&& block1 == block2 && contiguous_place(
                contiguous_layout,
                e,
                tile_tokens,
                h1,
                l1,
                o1,
                ta,
                da,
            ) == contiguous_place(contiguous_layout, e, tile_tokens, h2, l2, o2, tb, db) ==> same
        }),
{
    let nh = e.nh as int;
    let nl = e.nl as int;
    let no = e.no as int;
    let nt = e.nt as int / tile_tokens;
    tokens_bound(e.nt as int, tile_tokens);
    let (block1, h1, l1, o1) = folded(a, nh, nl, no);
    let (block2, h2, l2, o2) = folded(b, nh, nl, no);
    folding_is_one_to_one(a, 0, 0, 0, 0, e.num_blocks as int, nh, nl, no);
    folding_is_one_to_one(b, 0, 0, 0, 0, e.num_blocks as int, nh, nl, no);
    schedule::quotient_and_remainder(l1, o1, no);
    schedule::quotient_and_remainder(l2, o2, no);
    lemma_mul_is_commutative(l1, no);
    lemma_mul_is_commutative(l2, no);
    schedule::linear_is_one_to_one(l1, o1, nl, no, 0);
    schedule::linear_is_one_to_one(l2, o2, nl, no, 0);
    schedule::quotient_and_remainder(block1, no * l1 + o1, nl * no);
    schedule::quotient_and_remainder(block2, no * l2 + o2, nl * no);
    lemma_mul_is_commutative(block1, nl * no);
    lemma_mul_is_commutative(block2, nl * no);
    match contiguous_layout {
        ContiguousLayout::Universal => {
            schedule::quotient_and_remainder(h1 * nl + l1, o1, no);
            schedule::quotient_and_remainder(h2 * nl + l2, o2, no);
            schedule::quotient_and_remainder(h1, l1, nl);
            schedule::quotient_and_remainder(h2, l2, nl);
        },
        ContiguousLayout::OperationalNhd => {
            schedule::quotient_and_remainder(l1 * no + o1, ta, nt);
            schedule::quotient_and_remainder(l2 * no + o2, tb, nt);
        },
        ContiguousLayout::OperationalHnd => {
            schedule::quotient_and_remainder(l1 * no + o1, h1, nh);
            schedule::quotient_and_remainder(l2 * no + o2, h2, nh);
        },
    }
}

/// The elements that a tile holds along each extent of a stacked tensor.
pub open spec fn stacked_tile_extents(layout: StackedLayout, tokens: int, head_dim: int) -> (int, int, int) {
    stacked_place(layout, 1, tokens, head_dim)
}

/// The elements that a tile holds along each folded extent of a contiguous tensor.
pub open spec fn contiguous_tile_extents(layout: ContiguousLayout, tokens: int, head_dim: int) -> (
    int,
    int,
    int,
) {
    match layout {
        ContiguousLayout::OperationalNhd => (tokens, 1, head_dim),
        _ => (1, tokens, head_dim),
    }
}

/// The offset of the element `within` a tile at a place, in a tensor with these extents.
pub open spec fn element_offset(
    dims: Seq<i32>,
    tile: (int, int, int),
    place: (int, int, int),
    within: (int, int, int),
) -> int {
    let strides = flat_strides(dims);
    (place.0 * tile.0 + within.0) * strides[0] + (place.1 * tile.1 + within.1) * strides[1] + (
    place.2 * tile.2 + within.2)
}

/// The row-major offset in a stacked tensor: `[tokens, heads, dim]` or
/// `[heads, tokens, dim]`.
pub open spec fn stacked_offset(layout: StackedLayout, e: CopyExtents, h: int, t: int, d: int) -> int {
    match layout {
        StackedLayout::Nhd => (t * e.nh + h) * e.hd + d,
        StackedLayout::Hnd => (h * e.nt + t) * e.hd + d,
    }
}

/// The row-major offset in a contiguous block: `[heads, layers, offsets, tokens, dim]`,
/// `[layers, offsets, tokens, heads, dim]` or `[layers, offsets, heads, tokens, dim]`.
pub open spec fn contiguous_offset(
    layout: ContiguousLayout,
    e: CopyExtents,
    h: int,
    l: int,
    o: int,
    t: int,
    d: int,
) -> int {
    match layout {
        ContiguousLayout::Universal => (((h * e.nl + l) * e.no + o) * e.nt + t) * e.hd + d,
        ContiguousLayout::OperationalNhd => (((l * e.no + o) * e.nt + t) * e.nh + h) * e.hd + d,
        ContiguousLayout::OperationalHnd => (((l * e.no + o) * e.nh + h) * e.nt + t) * e.hd + d,
    }
}

/// A number is met in its tile.
proof fn in_its_tile(i: int, n: int, tile: int)
    requires
        0 <= i < n,
        0 < tile,
        n % tile == 0,
    ensures
        0 <= i / tile < n / tile,
        0 <= i % tile < tile,
        (i / tile) * tile + i % tile == i,
{
    let q = i / tile;
    let m = n / tile;
    lemma_fundamental_div_mod(i, tile);
    lemma_fundamental_div_mod(n, tile);
    lemma_mod_bound(i, tile);
    lemma_mul_is_commutative(tile, q);
    lemma_div_pos_is_pos(i, tile);
    assert(q < m) by (nonlinear_arith)
        requires
            q * tile <= i < n,
            n == tile * m,
            0 < tile,
    ;
}

/// Every element of every block is moved: one program meets it, at one step, and it
/// stands at its row-major place in both layouts.
pub proof fn every_element_is_moved(
    stacked_layout: StackedLayout,
    contiguous_layout: ContiguousLayout,
    e: CopyExtents,
    tile_tokens: int,
    tile_head_dim: int,
    block: int,
    h: int,
    l: int,
    o: int,
    t: int,
    d: int,
)
    requires
        e.fits(),
        e.tiled_by(tile_tokens, tile_head_dim),
        0 <= block < e.num_blocks,
        0 <= h < e.nh,
        0 <= l < e.nl,
        0 <= o < e.no,
        0 <= t < e.nt,
        0 <= d < e.hd,
    ensures
        ({
            let step = unfolded(block, h, l, o, e.nh as int, e.nl as int, e.no as int);
            let t_idx = t / tile_tokens;
            let d_idx = d / tile_head_dim;
            let tw = t % tile_tokens;
            let dw = d % tile_head_dim;
            &&& 0 <= step < e.tiles()
            &&& folded(step, e.nh as int, e.nl as int, e.no as int) == (block, h, l, o)
            &&& 0 <= t_idx < e.nt as int / tile_tokens
            &&& 0 <= d_idx < e.hd as int / tile_head_dim
            &&& element_offset(
                stacked_dims(stacked_layout, e),
                stacked_tile_extents(stacked_layout, tile_tokens, tile_head_dim),
                stacked_place(stacked_layout, h, t_idx, d_idx),
                stacked_place(stacked_layout, 0, tw, dw),
            ) == stacked_offset(stacked_layout, e, h, t, d)
            &&& element_offset(
                in_contiguous_order(contiguous_layout, e.universal()),
                contiguous_tile_extents(contiguous_layout, tile_tokens, tile_head_dim),
                contiguous_place(contiguous_layout, e, tile_tokens, h, l, o, t_idx, d_idx),
                match contiguous_layout {
                    ContiguousLayout::OperationalNhd => (tw, 0, dw),
                    _ => (0, tw, dw),
                },
            ) == contiguous_offset(contiguous_layout, e, h, l, o, t, d)
        }),
{
    let nh = e.nh as int;
    let nl = e.nl as int;
    let no = e.no as int;
    let nt = e.nt as int;
    let hd = e.hd as int;
    folding_is_one_to_one(0, block, h, l, o, e.num_blocks as int, nh, nl, no);
    in_its_tile(t, nt, tile_tokens);
    in_its_tile(d, hd, tile_head_dim);
    let t_idx = t / tile_tokens;
    let tw = t % tile_tokens;
    lemma_mul_nonnegative(nh, hd);
    lemma_mul_nonnegative(nt, hd);
    let s_dims = stacked_dims(stacked_layout, e);
    let c_dims = in_contiguous_order(contiguous_layout, e.universal());
    let s_place = stacked_place(stacked_layout, h, t_idx, d / tile_head_dim);
    let s_tile = stacked_tile_extents(stacked_layout, tile_tokens, tile_head_dim);
    assert(s_tile.0 == 1 ==> s_place.0 * s_tile.0 == s_place.0) by (nonlinear_arith);
    assert(s_tile.1 == 1 ==> s_place.1 * s_tile.1 == s_place.1) by (nonlinear_arith);
    match stacked_layout {
        StackedLayout::Nhd => {
            assert(flat_strides(s_dims)[0] == nh * hd && flat_strides(s_dims)[1] == hd);
            row_offset(t, h, nh, hd);
        },
        StackedLayout::Hnd => {
            assert(flat_strides(s_dims)[0] == nt * hd && flat_strides(s_dims)[1] == hd);
            row_offset(h, t, nt, hd);
        },
    }
    let c_place = contiguous_place(
        contiguous_layout,
        e,
        tile_tokens,
        h,
        l,
        o,
        t_idx,
        d / tile_head_dim,
    );
    let c_tile = contiguous_tile_extents(contiguous_layout, tile_tokens, tile_head_dim);
    assert(c_tile.0 == 1 ==> c_place.0 * c_tile.0 == c_place.0) by (nonlinear_arith);
    assert(c_tile.1 == 1 ==> c_place.1 * c_tile.1 == c_place.1) by (nonlinear_arith);
    match contiguous_layout {
        ContiguousLayout::Universal => {
            assert(flat_strides(c_dims)[0] == nt * hd && flat_strides(c_dims)[1] == hd);
            row_offset((h * nl + l) * no + o, t, nt, hd);
        },
        ContiguousLayout::OperationalNhd => {
            assert(flat_strides(c_dims)[0] == nh * hd && flat_strides(c_dims)[1] == hd);
            let lo = l * no + o;
            let n2 = nt / tile_tokens;
            tokens_bound(nt, tile_tokens);
            assert((lo * n2 + t_idx) * tile_tokens + tw == lo * nt + t) by (nonlinear_arith)
                requires
                    nt == tile_tokens * n2,
                    t_idx * tile_tokens + tw == t,
            ;
            row_offset(lo * nt + t, h, nh, hd);
        },
        ContiguousLayout::OperationalHnd => {
            assert(flat_strides(c_dims)[0] == nt * hd && flat_strides(c_dims)[1] == hd);
            row_offset((l * no + o) * nh + h, t, nt, hd);
        },
    }
}

/// The offset of a row of a matrix of rows.
proof fn row_offset(a: int, b: int, n: int, hd: int)
    ensures
        (a * n + b) * hd == a * (n * hd) + b * hd,
{
    assert((a * n + b) * hd == a * (n * hd) + b * hd) by (nonlinear_arith);
}

/// The tiles of a conversion run through the offsets of a layer, then through the layers of
/// a head, then through the heads of a block, and then through the blocks.
pub proof fn tiles_run_offsets_first(tile: int, nh: int, nl: int, no: int)
    requires
        0 <= tile,
        0 < nh,
        0 < nl,
        0 < no,
    ensures
        folded(0, nh, nl, no) == (0int, 0int, 0int, 0int),
        ({
            let (b, h, l, o) = folded(tile, nh, nl, no);
            folded(tile + 1, nh, nl, no) == if o + 1 < no {
                (b, h, l, o + 1)
            } else if l + 1 < nl {
                (b, h, l + 1, 0)
            } else if h + 1 < nh {
                (b, h + 1, 0, 0)
            } else {
                (b + 1, 0, 0, 0)
            }
        }),
{
    let q = tile / no;
    let r = q / nl;
    next_quotient(tile, no);
    lemma_div_pos_is_pos(tile, no);
    next_quotient(q, nl);
    lemma_div_pos_is_pos(q, nl);
    next_quotient(r, nh);
    next_quotient(0, no);
    next_quotient(0, nl);
    next_quotient(0, nh);
}

/// The quotient and remainder of the next number.
proof fn next_quotient(a: int, n: int)
    requires
        0 <= a,
        0 < n,
    ensures
        0int / n == 0,
        0int % n == 0,
        0 <= a % n < n,
        a % n + 1 < n ==> (a + 1) / n == a / n && (a + 1) % n == a % n + 1,
        a % n + 1 == n ==> (a + 1) / n == a / n + 1 && (a + 1) % n == 0,
{
    lemma_fundamental_div_mod(a, n);
    lemma_mod_bound(a, n);
    lemma_mul_is_commutative(n, a / n);
    lemma_mul_is_commutative(n, a / n + 1);
    lemma_fundamental_div_mod_converse(0, n, 0, 0);
    if a % n + 1 < n {
        lemma_fundamental_div_mod_converse(a + 1, n, a / n, a % n + 1);
    } else {
        lemma_mul_is_distributive_add(n, a / n, 1);
        lemma_fundamental_div_mod_converse(a + 1, n, a / n + 1, 0);
    }
}

/// The stacked tensors are numbered in the same order: the offsets of a layer follow each
/// other, then the layers of a block, then the blocks.
pub proof fn stacked_tensors_follow_each_other(nl: int, no: int, block: int, l: int, o: int)
    ensures
        stacked_tensor(nl, no, 0, 0, 0) == 0,
        stacked_tensor(nl, no, block, l, o + 1) == stacked_tensor(nl, no, block, l, o) + 1,
        stacked_tensor(nl, no, block, l + 1, 0) == stacked_tensor(nl, no, block, l, no),
        stacked_tensor(nl, no, block + 1, 0, 0) == stacked_tensor(nl, no, block, nl, 0),
{
    assert(nl * no * 0 == 0 && no * 0 == 0) by (nonlinear_arith);
    assert(no * (l + 1) == no * l + no) by (nonlinear_arith);
    assert(nl * no * (block + 1) == nl * no * block + no * nl) by (nonlinear_arith);
}

/// The maps between layouts carry the extents of one layout into those of the other. A stacked
/// block has layers, offsets, tokens, heads and the head dimension in this order, or heads
/// before tokens; a universal block has heads, layers, offsets, tokens and the head
/// dimension; the operational blocks are as the stacked ones.
pub proof fn maps_carry_extents_over<T>(
    stacked: StackedLayout,
    contiguous: ContiguousLayout,
    h: T,
    l: T,
    o: T,
    t: T,
    d: T,
)
    requires
        convertible(stacked, contiguous),
    ensures
        ({
            let from = match stacked {
                StackedLayout::Nhd => seq![l, o, t, h, d],
                StackedLayout::Hnd => seq![l, o, h, t, d],
            };
            let to = match contiguous {
                ContiguousLayout::Universal => seq![h, l, o, t, d],
                ContiguousLayout::OperationalNhd => seq![l, o, t, h, d],
                ContiguousLayout::OperationalHnd => seq![l, o, h, t, d],
            };
            &&& remapped(from, stacked_map(stacked, contiguous)) == to
            &&& remapped(to, contiguous_map(contiguous, stacked)) == from
        }),
{
    let from = match stacked {
        StackedLayout::Nhd => seq![l, o, t, h, d],
        StackedLayout::Hnd => seq![l, o, h, t, d],
    };
    let to = match contiguous {
        ContiguousLayout::Universal => seq![h, l, o, t, d],
        ContiguousLayout::OperationalNhd => seq![l, o, t, h, d],
        ContiguousLayout::OperationalHnd => seq![l, o, h, t, d],
    };
    assert(remapped(from, stacked_map(stacked, contiguous)) =~= to);
    assert(remapped(to, contiguous_map(contiguous, stacked)) =~= from);
}

/// A block can be converted to and from the universal layout, whatever its stacked layout is,
/// and else only between layouts with the same order of tokens and heads.
pub proof fn which_layouts_convert(stacked: StackedLayout, contiguous: ContiguousLayout)
    ensures
        contiguous == ContiguousLayout::Universal ==> convertible(stacked, contiguous),
        contiguous == ContiguousLayout::OperationalNhd ==> (convertible(stacked, contiguous) <==> stacked
            == StackedLayout::Nhd),
        contiguous == ContiguousLayout::OperationalHnd ==> (convertible(stacked, contiguous) <==> stacked
            == StackedLayout::Hnd),
{
}

/// The arguments of a specialization in their order: the tile in the stacked order, with one
/// layer, offset and head; the tile in the contiguous order; both with their first three
/// extents as one; where each stacked extent stands in the universal order; and where each
/// contiguous extent stands in the stacked one.
pub proof fn specializations_list_their_tiles(
    stacked: StackedLayout,
    contiguous: ContiguousLayout,
    tokens: usize,
    dim: usize,
)
    requires
        convertible(stacked, contiguous),
    ensures
        ({
            let args = stacked_to_contiguous_args(stacked, contiguous, tokens, dim);
            let one = 1usize;
            let nhd = stacked == StackedLayout::Nhd;
            let s = if nhd {
                seq![one, one, tokens, one, dim]
            } else {
                seq![one, one, one, tokens, dim]
            };
            let c = match contiguous {
                ContiguousLayout::OperationalNhd => seq![one, one, tokens, one, dim],
                _ => seq![one, one, one, tokens, dim],
            };
            &&& args.len() == 26
            &&& args.subrange(0, 5) == s
            &&& args.subrange(5, 10) == c
            &&& args.subrange(10, 13) == (if nhd {
                seq![tokens, one, dim]
            } else {
                seq![one, tokens, dim]
            })
            &&& args.subrange(13, 16) == (if contiguous == ContiguousLayout::OperationalNhd {
                seq![tokens, one, dim]
            } else {
                seq![one, tokens, dim]
            })
            &&& args.subrange(16, 21) == (if nhd {
                seq![1usize, 2, 3, 0, 4]
            } else {
                seq![1usize, 2, 0, 3, 4]
            })
            &&& args.subrange(21, 26) == (if contiguous != ContiguousLayout::Universal {
                seq![0usize, 1, 2, 3, 4]
            } else if nhd {
                seq![3usize, 0, 1, 2, 4]
            } else {
                seq![2usize, 0, 1, 3, 4]
            })
        }),
{
    let args = stacked_to_contiguous_args(stacked, contiguous, tokens, dim);
    let one = 1usize;
    let nhd = stacked == StackedLayout::Nhd;
    let s = if nhd {
        seq![one, one, tokens, one, dim]
    } else {
        seq![one, one, one, tokens, dim]
    };
    let c = match contiguous {
        ContiguousLayout::OperationalNhd => seq![one, one, tokens, one, dim],
        _ => seq![one, one, one, tokens, dim],
    };
    assert(stacked_tile(stacked, tokens, dim) =~= s);
    assert(contiguous_tile(stacked, contiguous, tokens, dim) =~= c);
    let fs = if nhd {
        seq![tokens, one, dim]
    } else {
        seq![one, tokens, dim]
    };
    let fc = if contiguous == ContiguousLayout::OperationalNhd {
        seq![tokens, one, dim]
    } else {
        seq![one, tokens, dim]
    };
    assert(1 * 1 * tokens == tokens && 1 * 1 * 1 == 1) by (nonlinear_arith);
    assert((1 * 1 * tokens) as usize == tokens);
    assert(flat_shape(s) =~= fs);
    assert(flat_shape(c) =~= fc);
    let u2s = if nhd {
        seq![1usize, 2, 3, 0, 4]
    } else {
        seq![1usize, 2, 0, 3, 4]
    };
    let s2c = if contiguous != ContiguousLayout::Universal {
        seq![0usize, 1, 2, 3, 4]
    } else if nhd {
        seq![3usize, 0, 1, 2, 4]
    } else {
        seq![2usize, 0, 1, 3, 4]
    };
    assert(args == s + c + fs + fc + u2s + s2c);
    assert(args.subrange(0, 5) =~= s);
    assert(args.subrange(5, 10) =~= c);
    assert(args.subrange(10, 13) =~= fs);
    assert(args.subrange(13, 16) =~= fc);
    assert(args.subrange(16, 21) =~= u2s);
    assert(args.subrange(21, 26) =~= s2c);
}
/// The arguments of a specialization from contiguous to stacked.
pub open spec fn contiguous_to_stacked_args(
    stacked: StackedLayout,
    contiguous: ContiguousLayout,
    tile_tokens: usize,
    tile_head_dim: usize,
) -> Seq<usize> {
    stacked_to_contiguous_args(stacked, contiguous, tile_tokens, tile_head_dim) + contiguous_map(
        contiguous,
        stacked,
    )
}

/// A specialization has the arguments of the one in the other direction, and behind them where
/// each stacked extent stands in the contiguous order. They are written in decimal.
pub proof fn specializations_back_list_their_map(
    stacked: StackedLayout,
    contiguous: ContiguousLayout,
    tokens: usize,
    dim: usize,
    i: int,
)
    requires
        convertible(stacked, contiguous),
    ensures
        ({
            let args = contiguous_to_stacked_args(stacked, contiguous, tokens, dim);
            let there = stacked_to_contiguous_args(stacked, contiguous, tokens, dim);
            let nhd = stacked == StackedLayout::Nhd;
            &&& args.len() == 31
            &&& args.take(26) == there
            &&& args.skip(26) == (if contiguous != ContiguousLayout::Universal {
                seq![0usize, 1, 2, 3, 4]
            } else if nhd {
                seq![1usize, 2, 3, 0, 4]
            } else {
                seq![1usize, 2, 0, 3, 4]
            })
            &&& numerals(args).len() == 31 && numerals(there).len() == 26
            &&& 0 <= i < 31 ==> numerals(args)[i] == text::dec_text(args[i] as nat)
            &&& 0 <= i < 26 ==> numerals(there)[i] == text::dec_text(there[i] as nat)
        }),
{
    specializations_list_their_tiles(stacked, contiguous, tokens, dim);
    let args = contiguous_to_stacked_args(stacked, contiguous, tokens, dim);
    let there = stacked_to_contiguous_args(stacked, contiguous, tokens, dim);
    assert(args.take(26) =~= there);
    assert(args.skip(26) =~= contiguous_map(contiguous, stacked));
}

/// Folding keeps the last two extents, and makes one of the first three with as many elements.
/// In the folded tensor a row has as many elements as its last two extents, and a column one
/// last extent.
pub proof fn folding_keeps_the_elements(dims: Seq<i32>)
    requires
        dims.len() == 5,
        0 <= dims[0] * dims[1] * dims[2] <= i32::MAX,
        0 <= dims[3] * dims[4] <= i32::MAX,
    ensures
        ({
            let f = flat_extents(dims);
            let s = flat_strides(dims);
            &&& f.len() == 3 && s.len() == 2
            &&& f[1] == dims[3] && f[2] == dims[4]
            &&& f[0] * (f[1] * f[2]) == (dims[0] * dims[1] * dims[2]) * (dims[3] * dims[4])
            &&& s[1] == f[2] && s[0] == f[1] * f[2]
        }),
{
}

/// A folded tile has the product of the first three extents and then the last two.
pub proof fn folded_tiles_keep_their_elements(tile: Seq<usize>)
    requires
        tile.len() == 5,
        0 <= tile[0] * tile[1] * tile[2] <= usize::MAX,
    ensures
        flat_shape(tile).len() == 3,
        flat_shape(tile)[0] == tile[0] * tile[1] * tile[2],
        flat_shape(tile)[1] == tile[3] && flat_shape(tile)[2] == tile[4],
{
}

/// A universal block has its extents in the order heads, layers, offsets, tokens and head
/// dimension; a stacked tensor has one layer and offset, and its tokens before its heads or
/// behind them, as its layout says.
pub proof fn blocks_have_their_extents(e: CopyExtents, layout: StackedLayout)
    ensures
        e.universal() == seq![e.nh, e.nl, e.no, e.nt, e.hd],
        stacked_dims(layout, e) == (match layout {
            StackedLayout::Nhd => seq![1i32, 1i32, e.nt, e.nh, e.hd],
            StackedLayout::Hnd => seq![1i32, 1i32, e.nh, e.nt, e.hd],
        }),
        in_contiguous_order(ContiguousLayout::Universal, e.universal()) == e.universal(),
        in_contiguous_order(ContiguousLayout::OperationalNhd, e.universal()) == seq![
            e.nl,
            e.no,
            e.nt,
            e.nh,
            e.hd,
        ],
        in_contiguous_order(ContiguousLayout::OperationalHnd, e.universal()) == seq![
            e.nl,
            e.no,
            e.nh,
            e.nt,
            e.hd,
        ],
{
}
/// The numbers of an index are taken in their order.
pub proof fn indices_are_taken_in_order(s: Seq<i32>, i: int)
    requires
        s.len() == 3,
        0 <= i < 3,
    ensures
        ({
            let (a, b, c) = triple(s);
            seq![a, b, c][i] == s[i]
        }),
{
}

} // verus!
