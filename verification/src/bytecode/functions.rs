//! The function section, read into a module.

use vstd::prelude::*;

use crate::builder::{build_op, build_single_block_region};
use crate::bytecode::attributes;
use crate::bytecode::attributes::{read_self_contained_attribute, Tables, TablesModel};
use crate::bytecode::enums::{BytecodeVersion, FunctionFlag};
use crate::bytecode::opcode;
use crate::bytecode::opcode::Opcode;
use crate::bytecode::ops;
use crate::bytecode::ops::{read_op, BodyState, OpCtx};
use crate::bytecode::reader;
use crate::bytecode::reader::{Reader, Step};
use crate::error::DecodeError;
use crate::ir;
use crate::ir::{
    copy_types, Attribute, AttributeModel, BlockId, Module, ModuleModel, RegionId, Type, TypeModel,
    Value,
};

verus! {

broadcast use ir::dictionary_model_push;

/// A function of the section, before its body is read.
#[verifier::ext_equal]
pub struct FunctionModel {
    pub name: Seq<char>,
    pub signature: TypeModel,
    pub flags: u8,
    pub hints: Option<AttributeModel>,
    pub body: Seq<u8>,
}

/// The optimization hints of a function where its flags announce them.
pub open spec fn function_hints_at(d: Seq<u8>, p: int, t: TablesModel, flags: u8) -> Step<
    Option<AttributeModel>,
> {
    if FunctionFlag::HasOptimizationHints.spec_is_set(flags) {
        match attributes::attribute_at(d, p, t) {
            (Err(e), q) => (Err(e), q),
            (Ok(a), q) => (Ok(Some(a)), q),
        }
    } else {
        (Ok(None), p)
    }
}

/// The body of a function: its length and its bytes.
pub open spec fn sized_bytes_at(d: Seq<u8>, p: int) -> Step<Seq<u8>> {
    match reader::varint_at(d, p) {
        (Err(e), q) => (Err(e), q),
        (Ok(len), q) => reader::bytes_at(d, q, len as int),
    }
}

/// One function of the section: the indices of its name and its signature, its
/// flags, its location, its hints, and its body.
pub open spec fn function_at(d: Seq<u8>, p: int, t: TablesModel) -> Step<FunctionModel> {
    match t.string_ref_at(d, p, DecodeError::FuncNameIndex) {
        (Err(e), q) => (Err(e), q),
        (Ok(name), q) => match t.type_ref_at(d, q, DecodeError::FuncSigIndex) {
            (Err(e), q) => (Err(e), q),
            (Ok(signature), q) => match reader::byte_at(d, q) {
                (Err(e), q) => (Err(e), q),
                (Ok(flags), q) => match reader::varint_at(d, q) {
                    (Err(e), q) => (Err(e), q),
                    (Ok(_), q) => match function_hints_at(d, q, t, flags) {
                        (Err(e), q) => (Err(e), q),
                        (Ok(hints), q) => match sized_bytes_at(d, q) {
                            (Err(e), q) => (Err(e), q),
                            (Ok(body), q) => (
                                Ok(FunctionModel { name, signature, flags, hints, body }),
                                q,
                            ),
                        },
                    },
                },
            },
        },
    }
}

/// The attributes of the operation that stands for a function.
pub open spec fn function_attributes(f: FunctionModel) -> ops::Attributes {
    let base = seq![
        ("sym_name"@, AttributeModel::String(f.name)),
        ("function_type"@, AttributeModel::Type(f.signature)),
    ];
    match f.hints {
        Some(a) => base.push(("optimization_hints"@, a)),
        None => base,
    }
}

/// The state in which the body of a function is read: the arguments of the entry
/// block are in scope, one for each input of the signature.
pub open spec fn entry_state(m: ModuleModel, inputs: Seq<TypeModel>) -> BodyState {
    BodyState {
        pos: 0,
        values: m.fresh_values(inputs.len()),
        module: m.with_block(inputs).with_region(seq![m.blocks.len()]),
    }
}

/// The module with a function put in, up to where its body could be read.
pub open spec fn with_function(
    m: ModuleModel,
    f: FunctionModel,
    t: TablesModel,
    version: BytecodeVersion,
) -> (Result<(), DecodeError>, ModuleModel) {
    match f.signature {
        TypeModel::Func { inputs, .. } => match ops::body_at(
            f.body,
            entry_state(m, inputs),
            t,
            version,
            m.blocks.len(),
        ) {
            (Err(e), s) => (Err(e), s.module),
            (Ok(_), s) => (
                Ok(()),
                s.module.with_op(
                    Opcode::Entry,
                    Seq::empty(),
                    Seq::empty(),
                    function_attributes(f),
                    seq![m.regions.len()],
                ).with_function(s.module.ops.len()),
            ),
        },
        _ => (Err(DecodeError::SignatureNotFunc), m),
    }
}

/// `n` functions of the section, put into a module.
pub open spec fn functions_at(
    d: Seq<u8>,
    p: int,
    n: nat,
    m: ModuleModel,
    t: TablesModel,
    version: BytecodeVersion,
) -> (Result<(), DecodeError>, ModuleModel)
    decreases n,
{
    if n == 0 {
        (Ok(()), m)
    } else {
        match function_at(d, p, t) {
            (Err(e), _) => (Err(e), m),
            (Ok(f), q) => match with_function(m, f, t, version) {
                (Err(e), m) => (Err(e), m),
                (Ok(_), m) => functions_at(d, q, (n - 1) as nat, m, t, version),
            },
        }
    }
}

/// The function section: a count and as many functions.
pub open spec fn function_section(
    d: Seq<u8>,
    m: ModuleModel,
    t: TablesModel,
    version: BytecodeVersion,
) -> (Result<(), DecodeError>, ModuleModel) {
    match reader::varint_at(d, 0) {
        (Err(e), _) => (Err(e), m),
        (Ok(n), q) => functions_at(d, q, n as nat, m, t, version),
    }
}

/// A function of the section, before its body is read.
pub struct Function<'a> {
    pub name: String,
    pub signature: Type,
    pub flags: u8,
    pub hints: Option<Attribute>,
    pub body: &'a [u8],
}

impl<'a> View for Function<'a> {
    type V = FunctionModel;

    open spec fn view(&self) -> FunctionModel {
        FunctionModel {
            name: self.name@,
            signature: self.signature@,
            flags: self.flags,
            hints: match self.hints {
                Some(a) => Some(a@),
                None => None,
            },
            body: self.body@,
        }
    }
}

/// Reads one function of the section.
fn read_function<'a>(r: &mut Reader<'a>, t: &Tables) -> (f: Result<Function<'a>, DecodeError>)
    requires
        old(r).wf(),
    ensures
        Reader::reads_view(
            *old(r),
            *final(r),
            f,
            function_at(old(r).data@, old(r).pos as int, t@),
        ),
{
    let name = t.read_string_ref(r, DecodeError::FuncNameIndex)?;
    let signature = t.read_type_ref(r, DecodeError::FuncSigIndex)?;
    let flags: u8 = r.read_byte()?;
    let _location: u64 = r.read_varint()?;
    let hints = if FunctionFlag::HasOptimizationHints.is_set(flags) {
        Some(read_self_contained_attribute(r, t)?)
    } else {
        None
    };
    let len: u64 = r.read_varint()?;
    let body = r.read_bytes(len)?;
    Ok(Function { name, signature, flags, hints, body })
}

/// Reads the operations of a function body up to its end, and puts them at the end
/// of a block.
fn read_body(body: &[u8], ctx: &mut OpCtx, module: &mut Module, block: BlockId) -> (res: Result<
    (),
    DecodeError,
>)
    requires
        block.0 < old(module)@.blocks.len(),
    ensures
        ({
            let run = ops::body_at(
                body@,
                BodyState {
                    pos: 0,
                    values: ir::value_ids(old(ctx).values@),
                    module: old(module)@,
                },
                old(ctx).tables@,
                old(ctx).version,
                block.0 as nat,
            );
            res == run.0 && final(module)@ == run.1.module
        }),
{
    let mut r = Reader::new(body);
    let ghost start = ops::body_state(r, *ctx, *module);
    while r.remaining() > 0
        invariant
            r.wf(),
            r.data@ == body@,
            ctx.tables == old(ctx).tables,
            ctx.version == old(ctx).version,
            block.0 < module@.blocks.len(),
            ops::body_at(
                body@,
                start,
                old(ctx).tables@,
                old(ctx).version,
                block.0 as nat,
            ) == ops::body_at(
                body@,
                ops::body_state(r, *ctx, *module),
                ctx.tables@,
                ctx.version,
                block.0 as nat,
            ),
            start == (BodyState {
                pos: 0,
                values: ir::value_ids(old(ctx).values@),
                module: old(module)@,
            }),
        decreases r.data@.len() - r.pos,
    {
        let code: u64 = r.read_varint()?;
        let op = match Opcode::from_u16((code % 0x1_0000) as u16) {
            Some(op) => op,
            None => {
                return Err(DecodeError::UnknownOpcodeInBody);
            },
        };
        read_op(op, &mut r, ctx, module, block)?;
    }
    Ok(())
}

/// Puts a function into a module.
fn add_function(f: Function, t: &Tables, version: BytecodeVersion, module: &mut Module) -> (res:
    Result<(), DecodeError>)
    ensures
        (res, final(module)@) == with_function(old(module)@, f@, t@, version),
{
    let ghost model = f@;
    let arg_types = match &f.signature {
        Type::Func(ty) => copy_types(&ty.inputs),
        _ => {
            return Err(DecodeError::SignatureNotFunc);
        },
    };
    let (region, block, values) = build_single_block_region(module, &arg_types);
    let mut ctx = OpCtx {
        tables: Tables { strings: t.strings, types: t.types, constants: t.constants },
        values,
        version,
    };
    read_body(f.body, &mut ctx, module, block)?;
    let mut attributes: Vec<(String, Attribute)> = Vec::new();
    assert(ir::dictionary_model(attributes@) =~= Seq::empty());
    attributes.push(("sym_name".to_owned(), Attribute::String(f.name)));
    attributes.push(("function_type".to_owned(), Attribute::Type(f.signature)));
    if let Some(hints) = f.hints {
        attributes.push(("optimization_hints".to_owned(), hints));
    }
    assert(ir::dictionary_model(attributes@) =~= function_attributes(model));
    let no_types: Vec<Type> = Vec::new();
    let no_values: Vec<Value> = Vec::new();
    let mut regions: Vec<RegionId> = Vec::new();
    regions.push(region);
    assert(ir::type_models(no_types@) =~= Seq::empty());
    assert(ir::value_ids(no_values@) =~= Seq::empty());
    assert(ir::region_ids(regions@) =~= seq![old(module)@.regions.len()]);
    let (entry, _results) = build_op(
        module,
        Opcode::Entry,
        &no_types,
        no_values,
        attributes,
        regions,
    );
    let ghost before = *module;
    module.functions.push(entry);
    assert(module@ =~= before@.with_function(entry.0 as nat));
    Ok(())
}

/// Reads the function section, and puts its functions into a module.
pub fn decode_funcs(
    payload: &[u8],
    t: &Tables,
    version: BytecodeVersion,
    module: &mut Module,
) -> (res: Result<(), DecodeError>)
    ensures
        (res, final(module)@) == function_section(payload@, old(module)@, t@, version),
{
    let mut r = Reader::new(payload);
    let n: u64 = r.read_varint()?;
    let mut i: u64 = 0;
    while i < n
        invariant
            i <= n,
            r.wf(),
            r.data@ == payload@,
            function_section(payload@, old(module)@, t@, version) == functions_at(
                payload@,
                r.pos as int,
                (n - i) as nat,
                module@,
                t@,
                version,
            ),
        decreases n - i,
    {
        let f = read_function(&mut r, t)?;
        add_function(f, t, version, module)?;
        i = i + 1;
    }
    Ok(())
}

} // verus!
