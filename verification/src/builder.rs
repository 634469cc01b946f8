//! Building modules.

use vstd::prelude::*;

use crate::bytecode::opcode::Opcode;
use crate::ir;
use crate::ir::{
    Attribute, Block, BlockId, Module, OpId, Operation, Region, RegionId, Type, Value,
};

verus! {

/// Puts an empty block in, with new values of the given types as its arguments.
pub fn build_block(module: &mut Module, arg_types: &Vec<Type>) -> (b: (BlockId, Vec<Value>))
    ensures
        final(module)@ == old(module)@.with_block(ir::type_models(arg_types@)),
        b.0.0 == old(module)@.blocks.len(),
        ir::value_ids(b.1@) == old(module)@.fresh_values(arg_types@.len()),
{
    let id = BlockId(module.blocks.len());
    let args = module.alloc_values(arg_types, None, id);
    let mut block_args: Vec<Value> = Vec::new();
    let mut i: usize = 0;
    while i < args.len()
        invariant
            i <= args.len(),
            block_args@ == args@.take(i as int),
        decreases args.len() - i,
    {
        block_args.push(args[i]);
        i = i + 1;
        assert(block_args@ =~= args@.take(i as int));
    }
    assert(block_args@ =~= args@);
    let block = Block { args: block_args, ops: Vec::new() };
    assert(ir::op_ids(block.ops@) =~= Seq::empty());
    module.blocks.push(block);
    assert(module@ =~= old(module)@.with_block(ir::type_models(arg_types@)));
    (id, args)
}

/// Puts a region with one empty block in, with new values of the given types as
/// the arguments of the block.
pub fn build_single_block_region(module: &mut Module, arg_types: &Vec<Type>) -> (b: (
    RegionId,
    BlockId,
    Vec<Value>,
))
    ensures
        final(module)@ == old(module)@.with_block(ir::type_models(arg_types@)).with_region(
            seq![old(module)@.blocks.len()],
        ),
        b.0.0 == old(module)@.regions.len(),
        b.1.0 == old(module)@.blocks.len(),
        ir::value_ids(b.2@) == old(module)@.fresh_values(arg_types@.len()),
{
    let (block, args) = build_block(module, arg_types);
    let mut blocks: Vec<BlockId> = Vec::new();
    blocks.push(block);
    assert(ir::block_ids(blocks@) =~= seq![old(module)@.blocks.len()]);
    let region = module.alloc_region(Region { blocks });
    (region, block, args)
}

/// Puts an operation in, with new values of the given types as its results.
pub fn build_op(
    module: &mut Module,
    opcode: Opcode,
    result_types: &Vec<Type>,
    operands: Vec<Value>,
    attributes: Vec<(String, Attribute)>,
    regions: Vec<RegionId>,
) -> (b: (OpId, Vec<Value>))
    ensures
        final(module)@ == old(module)@.with_op(
            opcode,
            ir::type_models(result_types@),
            ir::value_ids(operands@),
            ir::dictionary_model(attributes@),
            ir::region_ids(regions@),
        ),
        b.0.0 == old(module)@.ops.len(),
        ir::value_ids(b.1@) == old(module)@.fresh_values(result_types@.len()),
{
    let id = OpId(module.ops.len());
    let results = module.alloc_values(result_types, Some(id), BlockId(0));
    let mut op_results: Vec<Value> = Vec::new();
    let mut i: usize = 0;
    while i < results.len()
        invariant
            i <= results.len(),
            op_results@ == results@.take(i as int),
        decreases results.len() - i,
    {
        op_results.push(results[i]);
        i = i + 1;
        assert(op_results@ =~= results@.take(i as int));
    }
    assert(op_results@ =~= results@);
    let op = Operation { opcode, operands, results: op_results, attributes, regions };
    module.ops.push(op);
    assert(module@ =~= old(module)@.with_op(
        opcode,
        ir::type_models(result_types@),
        ir::value_ids(operands@),
        ir::dictionary_model(attributes@),
        ir::region_ids(regions@),
    ));
    (id, results)
}

/// Puts an operation at the end of a block.
pub fn append_op(module: &mut Module, block: BlockId, op: OpId)
    requires
        block.0 < old(module)@.blocks.len(),
    ensures
        final(module)@ == old(module)@.with_appended(block.0 as nat, op.0 as nat),
{
    module.blocks[block.0].ops.push(op);
    assert(ir::op_ids(module.blocks@[block.0 as int].ops@) =~= ir::op_ids(
        old(module).blocks@[block.0 as int].ops@,
    ).push(op.0 as nat));
    assert(module@ =~= old(module)@.with_appended(block.0 as nat, op.0 as nat));
}

} // verus!
