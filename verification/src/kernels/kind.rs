//! The kernels of a transformer inference path.

use vstd::prelude::*;

verus! {

/// The kernels that run in a transformer inference path and may need a warm-up.
#[derive(Clone, Copy, Debug, PartialEq, Eq, Structural)]
pub enum KernelKind {
    EmbeddingBatch,
    Gemm,
    Gemv,
    RmsNorm,
    RopeSeq,
    KvCacheUpdateSeq,
    FlashAttnCausalSeq,
    AddVec,
    SiluMul,
    GatherRow,
    ArgmaxBlocks,
    AddRmsNorm,
    QkNorm,
    QkRope,
    QkNormRopeKvPrefill,
    QkNormRopeKvDecode,
    ArgmaxReduceBlocks,
}

/// All kernels, in order.
pub const TILE_KERNEL_KINDS: [KernelKind; 17] = [
    KernelKind::EmbeddingBatch,
    KernelKind::Gemm,
    KernelKind::Gemv,
    KernelKind::RmsNorm,
    KernelKind::RopeSeq,
    KernelKind::KvCacheUpdateSeq,
    KernelKind::FlashAttnCausalSeq,
    KernelKind::AddVec,
    KernelKind::SiluMul,
    KernelKind::GatherRow,
    KernelKind::ArgmaxBlocks,
    KernelKind::AddRmsNorm,
    KernelKind::QkNorm,
    KernelKind::QkRope,
    KernelKind::QkNormRopeKvPrefill,
    KernelKind::QkNormRopeKvDecode,
    KernelKind::ArgmaxReduceBlocks,
];

impl KernelKind {
    /// The number of kernels.
    pub const COUNT: usize = 17;

    /// The position of a kernel among all kernels.
    pub open spec fn spec_idx(self) -> usize {
        match self {
            KernelKind::EmbeddingBatch => 0,
            KernelKind::Gemm => 1,
            KernelKind::Gemv => 2,
            KernelKind::RmsNorm => 3,
            KernelKind::RopeSeq => 4,
            KernelKind::KvCacheUpdateSeq => 5,
            KernelKind::FlashAttnCausalSeq => 6,
            KernelKind::AddVec => 7,
            KernelKind::SiluMul => 8,
            KernelKind::GatherRow => 9,
            KernelKind::ArgmaxBlocks => 10,
            KernelKind::AddRmsNorm => 11,
            KernelKind::QkNorm => 12,
            KernelKind::QkRope => 13,
            KernelKind::QkNormRopeKvPrefill => 14,
            KernelKind::QkNormRopeKvDecode => 15,
            KernelKind::ArgmaxReduceBlocks => 16,
        }
    }

    /// The position of a kernel among all kernels.
    pub fn idx(self) -> (i: usize)
        ensures
            i == self.spec_idx(),
            i < KernelKind::COUNT,
            TILE_KERNEL_KINDS@[i as int] == self,
    {
        match self {
            KernelKind::EmbeddingBatch => 0,
            KernelKind::Gemm => 1,
            KernelKind::Gemv => 2,
            KernelKind::RmsNorm => 3,
            KernelKind::RopeSeq => 4,
            KernelKind::KvCacheUpdateSeq => 5,
            KernelKind::FlashAttnCausalSeq => 6,
            KernelKind::AddVec => 7,
            KernelKind::SiluMul => 8,
            KernelKind::GatherRow => 9,
            KernelKind::ArgmaxBlocks => 10,
            KernelKind::AddRmsNorm => 11,
            KernelKind::QkNorm => 12,
            KernelKind::QkRope => 13,
            KernelKind::QkNormRopeKvPrefill => 14,
            KernelKind::QkNormRopeKvDecode => 15,
            KernelKind::ArgmaxReduceBlocks => 16,
        }
    }
}

/// The positions number the kernels: every kernel stands at its position in the
/// list, and every place of the list holds the kernel of that position.
pub proof fn positions_number_the_kernels(k: KernelKind, i: int)
    ensures
        TILE_KERNEL_KINDS@.len() == KernelKind::COUNT,
        k.spec_idx() < KernelKind::COUNT,
        TILE_KERNEL_KINDS@[k.spec_idx() as int] == k,
        0 <= i < KernelKind::COUNT ==> TILE_KERNEL_KINDS@[i].spec_idx() == i,
{
}

/// The kernels are numbered from the embedding on, each right behind the one before it.
pub proof fn kernels_follow_each_other()
    ensures
        KernelKind::EmbeddingBatch.spec_idx() == 0,
        KernelKind::Gemm.spec_idx() == KernelKind::EmbeddingBatch.spec_idx() + 1,
        KernelKind::Gemv.spec_idx() == KernelKind::Gemm.spec_idx() + 1,
        KernelKind::RmsNorm.spec_idx() == KernelKind::Gemv.spec_idx() + 1,
        KernelKind::RopeSeq.spec_idx() == KernelKind::RmsNorm.spec_idx() + 1,
        KernelKind::KvCacheUpdateSeq.spec_idx() == KernelKind::RopeSeq.spec_idx() + 1,
        KernelKind::FlashAttnCausalSeq.spec_idx() == KernelKind::KvCacheUpdateSeq.spec_idx() + 1,
        KernelKind::AddVec.spec_idx() == KernelKind::FlashAttnCausalSeq.spec_idx() + 1,
        KernelKind::SiluMul.spec_idx() == KernelKind::AddVec.spec_idx() + 1,
        KernelKind::GatherRow.spec_idx() == KernelKind::SiluMul.spec_idx() + 1,
        KernelKind::ArgmaxBlocks.spec_idx() == KernelKind::GatherRow.spec_idx() + 1,
        KernelKind::AddRmsNorm.spec_idx() == KernelKind::ArgmaxBlocks.spec_idx() + 1,
        KernelKind::QkNorm.spec_idx() == KernelKind::AddRmsNorm.spec_idx() + 1,
        KernelKind::QkRope.spec_idx() == KernelKind::QkNorm.spec_idx() + 1,
        KernelKind::QkNormRopeKvPrefill.spec_idx() == KernelKind::QkRope.spec_idx() + 1,
        KernelKind::QkNormRopeKvDecode.spec_idx() == KernelKind::QkNormRopeKvPrefill.spec_idx() + 1,
        KernelKind::ArgmaxReduceBlocks.spec_idx() == KernelKind::QkNormRopeKvDecode.spec_idx() + 1,
{
}

} // verus!
