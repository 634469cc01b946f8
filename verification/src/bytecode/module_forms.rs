//! The byte form of a whole module, and what the decoder gives back of it.

use vstd::prelude::*;

use crate::bytecode::attribute_forms;
use crate::bytecode::attributes::TablesModel;
use crate::bytecode::decoder;
use crate::bytecode::encoding;
use crate::bytecode::enums::{BytecodeVersion, FunctionFlag, Section};
use crate::bytecode::functions;
use crate::bytecode::functions::FunctionModel;
use crate::bytecode::kernel_forms;
use crate::bytecode::kernel_forms::{OpTree, Scope};
use crate::bytecode::opcode::Opcode;
use crate::bytecode::reader;
use crate::bytecode::section_forms;
use crate::bytecode::section_forms::SectionImage;
use crate::bytecode::sections;
use crate::bytecode::type_forms;
use crate::error::DecodeError;
use crate::ir::{AttributeModel, ModuleModel, TypeModel};

verus! {

/// A function as it is written.
pub struct FunctionTree {
    pub name: Seq<char>,
    pub inputs: Seq<TypeModel>,
    pub results: Seq<TypeModel>,
    pub flags: u8,
    pub location: u64,
    pub hints: Option<AttributeModel>,
    pub ops: Seq<OpTree>,
}

impl FunctionTree {
    /// The signature of the function.
    pub open spec fn signature(self) -> TypeModel {
        TypeModel::Func { inputs: self.inputs, results: self.results }
    }

    /// The bytes of the body of the function.
    pub open spec fn body(self, t: TablesModel, version: BytecodeVersion) -> Seq<u8> {
        kernel_forms::ops_form(self.ops, t, version)
    }

    /// What stands before the body is read.
    pub open spec fn head(self, t: TablesModel, version: BytecodeVersion) -> FunctionModel {
        FunctionModel {
            name: self.name,
            signature: self.signature(),
            flags: self.flags,
            hints: self.hints,
            body: self.body(t, version),
        }
    }

    /// The form of the function.
    pub open spec fn form(self, t: TablesModel, version: BytecodeVersion) -> Seq<u8> {
        attribute_forms::string_ref_form(self.name, t) + type_forms::type_ref_form(
            self.signature(),
            t.types,
        ) + seq![self.flags] + encoding::varint_form(self.location as nat) + (match self.hints {
            Some(a) => attribute_forms::attribute_form(a, t),
            None => Seq::empty(),
        }) + (encoding::varint_form(self.body(t, version).len()) + self.body(t, version))
    }

    /// The function can be written.
    pub open spec fn writable(self, t: TablesModel, version: BytecodeVersion) -> bool {
        &&& t.strings.contains(self.name)
        &&& t.types.contains(self.signature())
        &&& (self.hints is Some) == FunctionFlag::HasOptimizationHints.spec_is_set(self.flags)
        &&& match self.hints {
            Some(a) => attribute_forms::writable(a, t),
            None => true,
        }
        &&& self.body(t, version).len() <= u64::MAX
        &&& kernel_forms::ops_writable(self.ops, self.inputs.len(), t, version)
    }

    /// The module with the function put in: a region with one block, whose arguments are
    /// the inputs, the operations in that block, and the operation that stands for the
    /// function.
    pub open spec fn built(
        self,
        m: ModuleModel,
        t: TablesModel,
        version: BytecodeVersion,
    ) -> ModuleModel {
        let entry = functions::entry_state(m, self.inputs);
        let s = kernel_forms::ops_built(
            self.ops,
            Scope { values: entry.values, module: entry.module },
            version,
            m.blocks.len(),
        );
        s.module.with_op(
            Opcode::Entry,
            Seq::empty(),
            Seq::empty(),
            functions::function_attributes(self.head(t, version)),
            seq![m.regions.len()],
        ).with_function(s.module.ops.len())
    }
}

/// The function up to its body is read back.
proof fn function_round_trip(
    d: Seq<u8>,
    p: int,
    f: FunctionTree,
    t: TablesModel,
    version: BytecodeVersion,
)
    requires
        encoding::holds(d, p, f.form(t, version)),
        f.writable(t, version),
        attribute_forms::tables_fit(t),
    ensures
        functions::function_at(d, p, t) == encoding::read_ok(
            f.head(t, version),
            p + f.form(t, version).len(),
        ),
{
    let a = attribute_forms::string_ref_form(f.name, t);
    let b = type_forms::type_ref_form(f.signature(), t.types);
    let c = seq![f.flags];
    let e = encoding::varint_form(f.location as nat);
    let h = match f.hints {
        Some(a) => attribute_forms::attribute_form(a, t),
        None => Seq::empty(),
    };
    let body = f.body(t, version);
    let len = encoding::varint_form(body.len());
    encoding::holds_split(d, p, a + b + c + e + h, len + body);
    encoding::holds_split(d, p, a + b + c + e, h);
    encoding::holds_split(d, p, a + b + c, e);
    encoding::holds_split(d, p, a + b, c);
    encoding::holds_split(d, p, a, b);
    attribute_forms::string_ref_round_trip(d, p, f.name, t, DecodeError::FuncNameIndex);
    attribute_forms::type_ref_round_trip(
        d,
        p + a.len(),
        f.signature(),
        t,
        DecodeError::FuncSigIndex,
    );
    let q = p + (a + b).len();
    assert(d.subrange(q, q + 1)[0] == d[q]);
    encoding::varint_round_trip(d, q + 1, f.location);
    let r = p + (a + b + c + e).len();
    if let Some(x) = f.hints {
        attribute_forms::attribute_round_trip(d, r, x, t);
    }
    let u = p + (a + b + c + e + h).len();
    encoding::holds_split(d, u, len, body);
    encoding::varint_round_trip(d, u, body.len() as u64);
    assert(d.subrange(u + len.len(), u + len.len() + body.len()) == body);
}

/// A function is read back: what is built of its bytes is what the tree builds.
proof fn function_is_built(
    f: FunctionTree,
    m: ModuleModel,
    t: TablesModel,
    version: BytecodeVersion,
)
    requires
        f.writable(t, version),
        attribute_forms::tables_fit(t),
    ensures
        functions::with_function(m, f.head(t, version), t, version) == (
            Ok::<(), DecodeError>(()),
            f.built(m, t, version),
        ),
{
    let body = f.body(t, version);
    let entry = functions::entry_state(m, f.inputs);
    let s = Scope { values: entry.values, module: entry.module };
    assert(body.subrange(0, body.len() as int) =~= body);
    assert(kernel_forms::in_body(s, 0) == entry);
    kernel_forms::body_round_trip(body, 0, f.ops, s, t, version, m.blocks.len());
}

/// The form of functions one behind the other, from number `i` on.
pub open spec fn functions_form(
    fs: Seq<FunctionTree>,
    t: TablesModel,
    version: BytecodeVersion,
    i: nat,
) -> Seq<u8>
    decreases fs.len() - i,
{
    if i >= fs.len() {
        Seq::empty()
    } else {
        fs[i as int].form(t, version) + functions_form(fs, t, version, i + 1)
    }
}

/// The form of a function section.
pub open spec fn function_section_form(
    fs: Seq<FunctionTree>,
    t: TablesModel,
    version: BytecodeVersion,
) -> Seq<u8> {
    encoding::varint_form(fs.len()) + functions_form(fs, t, version, 0)
}

/// The module with functions put in, from number `i` on.
pub open spec fn functions_built(
    fs: Seq<FunctionTree>,
    m: ModuleModel,
    t: TablesModel,
    version: BytecodeVersion,
    i: nat,
) -> ModuleModel
    decreases fs.len() - i,
{
    if i >= fs.len() {
        m
    } else {
        functions_built(fs, fs[i as int].built(m, t, version), t, version, i + 1)
    }
}

/// Functions are read back, from number `i` on.
proof fn functions_round_trip(
    d: Seq<u8>,
    p: int,
    fs: Seq<FunctionTree>,
    m: ModuleModel,
    t: TablesModel,
    version: BytecodeVersion,
    i: nat,
)
    requires
        i <= fs.len(),
        encoding::holds(d, p, functions_form(fs, t, version, i)),
        forall|j: int| 0 <= j < fs.len() ==> (#[trigger] fs[j]).writable(t, version),
        attribute_forms::tables_fit(t),
    ensures
        functions::functions_at(d, p, (fs.len() - i) as nat, m, t, version) == (
            Ok::<(), DecodeError>(()),
            functions_built(fs, m, t, version, i),
        ),
    decreases fs.len() - i,
{
    if i < fs.len() {
        let f = fs[i as int];
        let first = f.form(t, version);
        encoding::holds_split(d, p, first, functions_form(fs, t, version, i + 1));
        function_round_trip(d, p, f, t, version);
        function_is_built(f, m, t, version);
        functions_round_trip(
            d,
            p + first.len(),
            fs,
            f.built(m, t, version),
            t,
            version,
            i + 1,
        );
    }
}

/// A module as it is written: its version, its tables, its functions, and the sections
/// that hold them.
pub struct ModuleImage {
    pub version: BytecodeVersion,
    pub tables: TablesModel,
    pub functions: Seq<FunctionTree>,
    pub sections: Seq<SectionImage>,
}

/// The section with a number holds a payload, or is left out where there is nothing to
/// hold.
pub open spec fn held(m: Map<u8, Seq<u8>>, id: u8, payload: Seq<u8>, nothing: bool) -> bool {
    ||| sections::section_of(m, id) == Some(payload)
    ||| nothing && sections::section_of(m, id) is None
}

impl ModuleImage {
    /// The payload of the string section.
    pub open spec fn string_payload(self) -> Seq<u8> {
        section_forms::table_form(section_forms::string_entries(self.tables.strings), 4)
    }

    /// The payload of the type section.
    pub open spec fn type_payload(self) -> Seq<u8> {
        section_forms::table_form(section_forms::type_entries(self.tables.types, self.version), 4)
    }

    /// The payload of the constant section.
    pub open spec fn constant_payload(self) -> Seq<u8> {
        section_forms::table_form(self.tables.constants, 8)
    }

    /// The payload of the function section.
    pub open spec fn function_payload(self) -> Seq<u8> {
        function_section_form(self.functions, self.tables, self.version)
    }

    /// The bytes of the module.
    pub open spec fn form(self) -> Seq<u8> {
        section_forms::container_form(self.version, self.sections)
    }

    /// The sections hold the tables and the functions. They stand in any order, aligned
    /// or not, and there may be others.
    pub open spec fn sections_hold(self) -> bool {
        let m = section_forms::section_map(self.sections, Map::empty());
        &&& held(m, Section::String.spec_id(), self.string_payload(), self.tables.strings.len() == 0)
        &&& held(m, Section::Type.spec_id(), self.type_payload(), self.tables.types.len() == 0)
        &&& held(
            m,
            Section::Constant.spec_id(),
            self.constant_payload(),
            self.tables.constants.len() == 0,
        )
        &&& held(m, Section::Func.spec_id(), self.function_payload(), self.functions.len() == 0)
    }

    /// The module can be written: what its functions and types refer to stands in the
    /// tables, a type stands behind those that it refers to, and the sections are no
    /// longer than their lengths can say.
    pub open spec fn writable(self) -> bool {
        &&& attribute_forms::tables_fit(self.tables)
        &&& type_forms::dependency_first(self.tables.types)
        &&& section_forms::table_writable(section_forms::string_entries(self.tables.strings), 4)
        &&& section_forms::table_writable(
            section_forms::type_entries(self.tables.types, self.version),
            4,
        )
        &&& section_forms::table_writable(self.tables.constants, 8)
        &&& self.functions.len() <= u64::MAX
        &&& forall|i: int|
            0 <= i < self.functions.len() ==> (#[trigger] self.functions[i]).writable(
                self.tables,
                self.version,
            )
        &&& self.sections_hold()
        &&& forall|i: int|
            0 <= i < self.sections.len() ==> section_forms::section_writable(
                #[trigger] self.sections[i],
            )
    }

    /// The module that the functions build.
    pub open spec fn built(self) -> ModuleModel {
        functions_built(
            self.functions,
            ModuleModel::empty("module"@),
            self.tables,
            self.version,
            0,
        )
    }
}

/// The tables of a module are read back.
proof fn tables_round_trip(image: ModuleImage, trailing: Seq<u8>)
    requires
        image.writable(),
    ensures
        decoder::tables_of(image.form() + trailing) == Ok::<
            (BytecodeVersion, Map<u8, Seq<u8>>, TablesModel),
            DecodeError,
        >(
            (
                image.version,
                section_forms::section_map(image.sections, Map::empty()),
                image.tables,
            ),
        ),
        decoder::module_tables_in_range(image.form() + trailing),
{
    let t = image.tables;
    section_forms::container_round_trip(image.version, image.sections, trailing);
    section_forms::string_section_round_trip(t.strings);
    section_forms::type_section_round_trip(t.types, image.version);
    section_forms::constant_section_round_trip(t.constants);
    assert(t.strings.len() == 0 ==> t.strings =~= Seq::empty());
    assert(t.types.len() == 0 ==> t.types =~= Seq::empty());
    assert(t.constants.len() == 0 ==> t.constants =~= Seq::empty());
}

/// The functions of a module are read back.
proof fn function_section_round_trip(
    fs: Seq<FunctionTree>,
    m: ModuleModel,
    t: TablesModel,
    version: BytecodeVersion,
)
    requires
        fs.len() <= u64::MAX,
        forall|j: int| 0 <= j < fs.len() ==> (#[trigger] fs[j]).writable(t, version),
        attribute_forms::tables_fit(t),
    ensures
        functions::function_section(function_section_form(fs, t, version), m, t, version) == (
            Ok::<(), DecodeError>(()),
            functions_built(fs, m, t, version, 0),
        ),
{
    let payload = function_section_form(fs, t, version);
    assert(payload.subrange(0, payload.len() as int) =~= payload);
    let count = encoding::varint_form(fs.len());
    encoding::holds_split(payload, 0, count, functions_form(fs, t, version, 0));
    encoding::varint_round_trip(payload, 0, fs.len() as u64);
    functions_round_trip(payload, count.len() as int, fs, m, t, version, 0);
}

/// The version of a module is read back.
proof fn version_round_trip(image: ModuleImage, trailing: Seq<u8>)
    ensures
        reader::header_at(image.form() + trailing, 0).0 == Ok::<BytecodeVersion, DecodeError>(
            image.version,
        ),
{
    let d = image.form() + trailing;
    assert(d.subrange(0, image.form().len() as int) =~= image.form());
    encoding::holds_split(
        d,
        0,
        section_forms::header_form(image.version),
        section_forms::sections_form(image.sections, 12) + seq![0u8],
    );
    section_forms::header_round_trip(d, image.version);
}

/// Every module that can be written is decoded into the module that its functions
/// build, and its version is read back, in whatever order the sections stand and whatever
/// stands behind the end of the buffer. The buffer is one that the decoder takes.
pub proof fn module_round_trip(image: ModuleImage, trailing: Seq<u8>)
    requires
        image.writable(),
    ensures
        decoder::module_tables_in_range(image.form() + trailing),
        decoder::module_of(image.form() + trailing) == Ok::<ModuleModel, DecodeError>(
            image.built(),
        ),
        reader::header_at(image.form() + trailing, 0).0 == Ok::<BytecodeVersion, DecodeError>(
            image.version,
        ),
{
    tables_round_trip(image, trailing);
    function_section_round_trip(
        image.functions,
        ModuleModel::empty("module"@),
        image.tables,
        image.version,
    );
    version_round_trip(image, trailing);
}

/// The bytes of a module tell its version and what it builds: modules that are written
/// with the same bytes have the same version and are the same. So a module that is
/// written anew in another version has other bytes.
pub proof fn bytes_tell_the_module(a: ModuleImage, b: ModuleImage)
    requires
        a.writable(),
        b.writable(),
        a.form() == b.form(),
    ensures
        a.version == b.version,
        a.tables == b.tables,
        a.built() == b.built(),
{
    module_round_trip(a, Seq::empty());
    module_round_trip(b, Seq::empty());
    tables_round_trip(a, Seq::empty());
    tables_round_trip(b, Seq::empty());
}

/// The four sections of a module one behind the other, without alignment.
pub open spec fn plain_sections(
    version: BytecodeVersion,
    t: TablesModel,
    fs: Seq<FunctionTree>,
) -> Seq<SectionImage> {
    let image = ModuleImage { version, tables: t, functions: fs, sections: Seq::empty() };
    seq![
        SectionImage {
            id: Section::Func.spec_id(),
            alignment: None,
            payload: image.function_payload(),
        },
        SectionImage {
            id: Section::Constant.spec_id(),
            alignment: None,
            payload: image.constant_payload(),
        },
        SectionImage {
            id: Section::Type.spec_id(),
            alignment: None,
            payload: image.type_payload(),
        },
        SectionImage {
            id: Section::String.spec_id(),
            alignment: None,
            payload: image.string_payload(),
        },
    ]
}

/// The four sections one behind the other hold a module, whatever its version, its tables
/// and its functions are.
pub proof fn plain_sections_hold(version: BytecodeVersion, t: TablesModel, fs: Seq<FunctionTree>)
    ensures
        (ModuleImage { version, tables: t, functions: fs, sections: plain_sections(version, t, fs) })
            .sections_hold(),
{
    let s = plain_sections(version, t, fs);
    reveal_with_fuel(section_forms::section_map, 5);
    assert(s.skip(1)[0] == s[1]);
    assert(s.skip(1).skip(1)[0] == s[2]);
    assert(s.skip(1).skip(1).skip(1)[0] == s[3]);
    assert(s.skip(1).skip(1).skip(1).skip(1).len() == 0);
}

} // verus!
