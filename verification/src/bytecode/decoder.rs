//! Decoding of whole buffers: as text, and as a module.

use vstd::prelude::*;
use vstd::string::StringExecFns;

use crate::bytecode::attributes;
use crate::bytecode::attributes::{Tables, TablesModel};
use crate::bytecode::dump;
use crate::bytecode::dump::{parse_func_section, parse_global_section, parse_type_section};
use crate::bytecode::enums::{BytecodeVersion, Section};
use crate::bytecode::functions;
use crate::bytecode::functions::decode_funcs;
use crate::bytecode::reader;
use crate::bytecode::reader::Reader;
use crate::bytecode::sections;
use crate::bytecode::sections::{
    entries_fit, parse_constant_section, parse_string_section, read_offset_table, read_sections,
    RawSections,
};
use crate::bytecode::types;
use crate::bytecode::types::parse_types;
use crate::error;
use crate::error::{err, DecodeError, Error};
use crate::ir;
use crate::ir::{Module, ModuleModel};
use crate::text;
use crate::text::push_dec;

verus! {

/// The version and the sections of a buffer.
pub open spec fn container_of(d: Seq<u8>) -> Result<
    (BytecodeVersion, Map<u8, Seq<u8>>),
    DecodeError,
> {
    match reader::header_at(d, 0) {
        (Err(e), _) => Err(e),
        (Ok(version), q) => match sections::sections_at(d, q, Map::empty()) {
            (Err(e), _) => Err(e),
            (Ok(s), _) => Ok((version, s)),
        },
    }
}

/// Reads the version and the sections of a buffer.
fn read_container<'a>(data: &'a [u8]) -> (r: Result<
    (BytecodeVersion, RawSections<'a>),
    DecodeError,
>)
    ensures
        match (r, container_of(data@)) {
            (Ok((v, s)), Ok((w, m))) => v == w && s@ == m,
            (Err(e), Err(f)) => e == f,
            _ => false,
        },
{
    let mut r = Reader::new(data);
    let version = r.read_header()?;
    let s = read_sections(&mut r)?;
    Ok((version, s))
}

/// What a buffer holds, section by section, with the strings as they are.
#[verifier::ext_equal]
pub struct DumpModel {
    pub version: BytecodeVersion,
    pub strings: Seq<Seq<char>>,
    pub types: Seq<Seq<char>>,
    pub constants: Seq<Seq<u8>>,
    pub globals: Seq<Seq<char>>,
    pub functions: Option<Seq<Seq<char>>>,
    pub debug: Option<nat>,
}

/// The globals of a buffer, none where it has no such section.
pub open spec fn globals_of(
    payload: Option<Seq<u8>>,
    strings: Seq<Seq<char>>,
    types: Seq<Seq<char>>,
    version: BytecodeVersion,
) -> Result<Seq<Seq<char>>, DecodeError> {
    match payload {
        None => Ok(Seq::empty()),
        Some(d) => dump::global_section_texts(d, strings, types, version),
    }
}

/// The functions of a buffer, `None` where it has no such section.
pub open spec fn functions_of(
    payload: Option<Seq<u8>>,
    strings: Seq<Seq<char>>,
    types: Seq<Seq<char>>,
) -> Result<Option<Seq<Seq<char>>>, DecodeError> {
    match payload {
        None => Ok(None),
        Some(d) => match dump::function_section_texts(d, strings, types) {
            Err(e) => Err(e),
            Ok(f) => Ok(Some(f)),
        },
    }
}

/// What a buffer holds: the sections are read in the order in which they depend on
/// each other, whatever their order in the buffer.
pub open spec fn dump_of(d: Seq<u8>) -> Result<DumpModel, DecodeError> {
    match container_of(d) {
        Err(e) => Err(e),
        Ok((version, s)) => match sections::string_section(
            sections::section_of(s, Section::String.spec_id()),
        ) {
            Err(e) => Err(e),
            Ok(strings) => match dump::type_section_texts(
                sections::section_of(s, Section::Type.spec_id()),
                version,
            ) {
                Err(e) => Err(e),
                Ok(types) => match sections::constant_section(
                    sections::section_of(s, Section::Constant.spec_id()),
                ) {
                    Err(e) => Err(e),
                    Ok(constants) => match globals_of(
                        sections::section_of(s, Section::Global.spec_id()),
                        strings,
                        types,
                        version,
                    ) {
                        Err(e) => Err(e),
                        Ok(globals) => match functions_of(
                            sections::section_of(s, Section::Func.spec_id()),
                            strings,
                            types,
                        ) {
                            Err(e) => Err(e),
                            Ok(functions) => Ok(
                                DumpModel {
                                    version,
                                    strings,
                                    types,
                                    constants,
                                    globals,
                                    functions,
                                    debug: match sections::section_of(
                                        s,
                                        Section::Debug.spec_id(),
                                    ) {
                                        Some(p) => Some(p.len()),
                                        None => None,
                                    },
                                },
                            ),
                        },
                    },
                },
            },
        },
    }
}

/// Where the type table and then the constant table are reached, their entries lie
/// in their data.
pub open spec fn dump_tables_in_range(d: Seq<u8>) -> bool {
    match container_of(d) {
        Err(_) => true,
        Ok((version, s)) => sections::string_section(
            sections::section_of(s, Section::String.spec_id()),
        ) is Ok ==> {
            let types = sections::section_of(s, Section::Type.spec_id());
            let constants = sections::section_of(s, Section::Constant.spec_id());
            &&& sections::table_in_range(types, 4)
            &&& dump::type_section_texts(types, version) is Ok ==> sections::table_in_range(
                constants,
                8,
            )
        },
    }
}

/// Where the constant table is reached in the reading of a module, its entries lie
/// in its data.
pub open spec fn module_tables_in_range(d: Seq<u8>) -> bool {
    match container_of(d) {
        Err(_) => true,
        Ok((version, s)) => {
            let strings = sections::section_of(s, Section::String.spec_id());
            let types = sections::section_of(s, Section::Type.spec_id());
            sections::string_section(strings) is Ok && types::type_section(types, version) is Ok
                ==> sections::table_in_range(
                sections::section_of(s, Section::Constant.spec_id()),
                8,
            )
        },
    }
}

/// Whether the entries of the table that a section holds lie in its data.
fn table_fits(payload: Option<&[u8]>, wide: bool) -> (b: bool)
    ensures
        b == sections::table_in_range(reader::payload_bytes(payload), if wide { 8 } else { 4 }),
{
    match payload {
        None => true,
        Some(d) => match read_offset_table(d, wide) {
            Err(_) => true,
            Ok((offsets, data)) => entries_fit(&offsets, data.len()),
        },
    }
}

/// Whether `decode_bytecode` can be called on a buffer.
pub fn dump_tables_fit(data: &[u8]) -> (b: bool)
    ensures
        b == dump_tables_in_range(data@),
{
    match read_container(data) {
        Err(_) => true,
        Ok((version, s)) => match parse_string_section(s.get(Section::String.id())) {
            Err(_) => true,
            Ok(_) => {
                let types = s.get(Section::Type.id());
                if !table_fits(types, false) {
                    return false;
                }
                match parse_type_section(types, version) {
                    Err(_) => true,
                    Ok(_) => table_fits(s.get(Section::Constant.id()), true),
                }
            },
        },
    }
}

/// Whether `decode_module` can be called on a buffer.
pub fn module_tables_fit(data: &[u8]) -> (b: bool)
    ensures
        b == module_tables_in_range(data@),
{
    match read_container(data) {
        Err(_) => true,
        Ok((version, s)) => match parse_string_section(s.get(Section::String.id())) {
            Err(_) => true,
            Ok(_) => match parse_types(s.get(Section::Type.id()), version) {
                Err(_) => true,
                Ok(_) => table_fits(s.get(Section::Constant.id()), true),
            },
        },
    }
}

/// A text as `Debug` shows it: in quotes, with escapes.
pub uninterp spec fn debug_text(s: Seq<char>) -> Seq<char>;

/// A string as its `std::fmt::Debug` impl shows it.
///
/// Claimed of it: what it shows depends on the characters of the string alone.
#[verifier::external_body]
fn debug_string(s: &str) -> (q: String)
    ensures
        q@ == debug_text(s@),
{
    format!("{:?}", s)
}

/// The first `n` of a list of texts in numbered lines behind `out`.
pub open spec fn numbered(out: Seq<char>, entries: Seq<Seq<char>>, n: nat) -> Seq<char>
    decreases n,
{
    if n == 0 {
        out
    } else {
        numbered(out, entries, (n - 1) as nat) + "  ["@ + text::dec_text((n - 1) as nat) + "] "@
            + entries[n - 1] + "\n"@
    }
}

/// The first `n` of a list of texts in indented lines behind `out`.
pub open spec fn indented(out: Seq<char>, entries: Seq<Seq<char>>, n: nat) -> Seq<char>
    decreases n,
{
    if n == 0 {
        out
    } else {
        indented(out, entries, (n - 1) as nat) + "  "@ + entries[n - 1] + "\n"@
    }
}

/// The first `n` of a list of texts in lines behind `out`.
pub open spec fn lined(out: Seq<char>, entries: Seq<Seq<char>>, n: nat) -> Seq<char>
    decreases n,
{
    if n == 0 {
        out
    } else {
        lined(out, entries, (n - 1) as nat) + entries[n - 1] + "\n"@
    }
}

/// A numbered listing behind `out`, with a title and an empty line; nothing where
/// there are no entries.
pub open spec fn listing(out: Seq<char>, title: Seq<char>, entries: Seq<Seq<char>>) -> Seq<char> {
    if entries.len() == 0 {
        out
    } else {
        numbered(
            out + title + text::dec_text(entries.len()) + ") ===\n"@,
            entries,
            entries.len(),
        ) + "\n"@
    }
}

/// The sizes of constants as text.
pub open spec fn size_texts(constants: Seq<Seq<u8>>) -> Seq<Seq<char>> {
    Seq::new(constants.len(), |i: int| text::dec_text(constants[i].len()) + " bytes"@)
}

/// The text of what a buffer holds, with its strings as `quoted` gives them: the
/// version, then the sections, each under its title.
pub open spec fn dump_text(m: DumpModel, quoted: Seq<Seq<char>>) -> Seq<char> {
    let head = "TileIR bytecode v"@ + m.version.text() + "\n"@ + "\n"@;
    let strings = listing(head, "=== Strings ("@, quoted);
    let types = listing(strings, "=== Types ("@, m.types);
    let constants = listing(types, "=== Constants ("@, size_texts(m.constants));
    let globals = if m.globals.len() == 0 {
        constants
    } else {
        indented(
            constants + "=== Globals ("@ + text::dec_text(m.globals.len()) + ") ===\n"@,
            m.globals,
            m.globals.len(),
        ) + "\n"@
    };
    let functions = match m.functions {
        None => globals,
        Some(f) => lined(
            globals + "=== Functions ("@ + text::dec_text(f.len()) + ") ===\n"@,
            f,
            f.len(),
        ),
    };
    match m.debug {
        None => functions,
        Some(n) => functions + "=== Debug ("@ + text::dec_text(n) + " bytes) ===\n"@,
    }
}

/// The strings as `Debug` shows them.
pub open spec fn debug_texts(strings: Seq<Seq<char>>) -> Seq<Seq<char>> {
    Seq::new(strings.len(), |i: int| debug_text(strings[i]))
}

/// The text of a buffer.
pub open spec fn text_of_buffer(d: Seq<u8>) -> Result<Seq<char>, DecodeError> {
    match dump_of(d) {
        Err(e) => Err(e),
        Ok(m) => Ok(dump_text(m, debug_texts(m.strings))),
    }
}

/// What a buffer holds, section by section.
pub struct Dump {
    pub version: BytecodeVersion,
    pub strings: Vec<String>,
    pub types: Vec<String>,
    pub constants: Vec<Vec<u8>>,
    pub globals: Vec<String>,
    pub functions: Option<Vec<String>>,
    pub debug: Option<u64>,
}

impl View for Dump {
    type V = DumpModel;

    open spec fn view(&self) -> DumpModel {
        DumpModel {
            version: self.version,
            strings: text::texts(self.strings@),
            types: text::texts(self.types@),
            constants: attributes::blobs(self.constants@),
            globals: text::texts(self.globals@),
            functions: match self.functions {
                Some(f) => Some(text::texts(f@)),
                None => None,
            },
            debug: match self.debug {
                Some(n) => Some(n as nat),
                None => None,
            },
        }
    }
}

/// Reads what a buffer holds.
pub fn read_dump(data: &[u8]) -> (r: Result<Dump, DecodeError>)
    requires
        dump_tables_in_range(data@),
    ensures
        match (r, dump_of(data@)) {
            (Ok(v), Ok(m)) => v@ == m,
            (Err(e), Err(f)) => e == f,
            _ => false,
        },
{
    let (version, s) = read_container(data)?;
    let strings = parse_string_section(s.get(Section::String.id()))?;
    let types = parse_type_section(s.get(Section::Type.id()), version)?;
    let constants = parse_constant_section(s.get(Section::Constant.id()))?;
    let globals = match s.get(Section::Global.id()) {
        Some(payload) => parse_global_section(payload, &strings, &types, version)?,
        None => {
            let none: Vec<String> = Vec::new();
            assert(text::texts(none@) =~= Seq::empty());
            none
        },
    };
    let functions = match s.get(Section::Func.id()) {
        Some(payload) => Some(parse_func_section(payload, &strings, &types)?),
        None => None,
    };
    let debug = match s.get(Section::Debug.id()) {
        Some(payload) => Some(payload.len() as u64),
        None => None,
    };
    Ok(Dump { version, strings, types, constants, globals, functions, debug })
}

/// Appends a numbered listing.
fn push_listing(out: &mut String, title: &str, entries: &Vec<String>)
    ensures
        final(out)@ == listing(old(out)@, title@, text::texts(entries@)),
{
    if entries.len() == 0 {
        return;
    }
    out.append(title);
    push_dec(out, entries.len() as u64);
    out.append(") ===\n");
    let ghost start = out@;
    let ghost model = text::texts(entries@);
    let mut i: usize = 0;
    while i < entries.len()
        invariant
            i <= entries.len(),
            model == text::texts(entries@),
            out@ == numbered(start, model, i as nat),
        decreases entries.len() - i,
    {
        out.append("  [");
        push_dec(out, i as u64);
        out.append("] ");
        out.append(entries[i].as_str());
        out.append("\n");
        i = i + 1;
    }
    out.append("\n");
}

/// The sizes of constants as text.
fn sizes_as_text(constants: &Vec<Vec<u8>>) -> (v: Vec<String>)
    ensures
        text::texts(v@) == size_texts(attributes::blobs(constants@)),
{
    let mut out: Vec<String> = Vec::new();
    let mut i: usize = 0;
    while i < constants.len()
        invariant
            i <= constants.len(),
            out@.len() == i,
            forall|j: int|
                0 <= j < i ==> (#[trigger] out@[j])@ == text::dec_text(constants@[j]@.len())
                    + " bytes"@,
        decreases constants.len() - i,
    {
        let mut t = String::new();
        push_dec(&mut t, constants[i].len() as u64);
        t.append(" bytes");
        assert(t@ =~= text::dec_text(constants@[i as int]@.len()) + " bytes"@);
        out.push(t);
        i = i + 1;
    }
    assert(text::texts(out@) =~= size_texts(attributes::blobs(constants@)));
    out
}

impl Dump {
    /// The text of what a buffer holds, with its strings as `quoted` gives them.
    pub fn render(&self, quoted: &Vec<String>) -> (s: String)
        ensures
            s@ == dump_text(self@, text::texts(quoted@)),
    {
        let mut out = "TileIR bytecode v".to_owned();
        self.version.push_text(&mut out);
        out.append("\n");
        out.append("\n");
        push_listing(&mut out, "=== Strings (", quoted);
        push_listing(&mut out, "=== Types (", &self.types);
        push_listing(&mut out, "=== Constants (", &sizes_as_text(&self.constants));
        if self.globals.len() > 0 {
            out.append("=== Globals (");
            push_dec(&mut out, self.globals.len() as u64);
            out.append(") ===\n");
            let ghost start = out@;
            let mut i: usize = 0;
            while i < self.globals.len()
                invariant
                    i <= self.globals.len(),
                    out@ == indented(start, text::texts(self.globals@), i as nat),
                decreases self.globals.len() - i,
            {
                out.append("  ");
                out.append(self.globals[i].as_str());
                out.append("\n");
                i = i + 1;
            }
            out.append("\n");
        }
        if let Some(functions) = &self.functions {
            out.append("=== Functions (");
            push_dec(&mut out, functions.len() as u64);
            out.append(") ===\n");
            let ghost start = out@;
            let mut i: usize = 0;
            while i < functions.len()
                invariant
                    i <= functions.len(),
                    out@ == lined(start, text::texts(functions@), i as nat),
                decreases functions.len() - i,
            {
                out.append(functions[i].as_str());
                out.append("\n");
                i = i + 1;
            }
        }
        if let Some(n) = self.debug {
            out.append("=== Debug (");
            push_dec(&mut out, n);
            out.append(" bytes) ===\n");
        }
        out
    }
}

/// The strings as `Debug` shows them.
fn debug_strings(strings: &Vec<String>) -> (v: Vec<String>)
    ensures
        text::texts(v@) == debug_texts(text::texts(strings@)),
{
    let mut out: Vec<String> = Vec::new();
    let mut i: usize = 0;
    while i < strings.len()
        invariant
            i <= strings.len(),
            out@.len() == i,
            forall|j: int| 0 <= j < i ==> (#[trigger] out@[j])@ == debug_text(strings@[j]@),
        decreases strings.len() - i,
    {
        out.push(debug_string(strings[i].as_str()));
        i = i + 1;
    }
    assert(text::texts(out@) =~= debug_texts(text::texts(strings@)));
    out
}

/// Decodes a buffer into text.
pub fn decode_bytecode(data: &[u8]) -> (r: Result<String, Error>)
    requires
        dump_tables_in_range(data@),
    ensures
        match (r, text_of_buffer(data@)) {
            (Ok(s), Ok(t)) => s@ == t,
            (Err(e), Err(kind)) => e.message() == error::decode_message(kind),
            _ => false,
        },
{
    match read_dump(data) {
        Err(kind) => Err(err(kind)),
        Ok(dump) => {
            let quoted = debug_strings(&dump.strings);
            Ok(dump.render(&quoted))
        },
    }
}

/// The tables of a buffer.
pub open spec fn tables_of(d: Seq<u8>) -> Result<
    (BytecodeVersion, Map<u8, Seq<u8>>, TablesModel),
    DecodeError,
> {
    match container_of(d) {
        Err(e) => Err(e),
        Ok((version, s)) => match sections::string_section(
            sections::section_of(s, Section::String.spec_id()),
        ) {
            Err(e) => Err(e),
            Ok(strings) => match types::type_section(
                sections::section_of(s, Section::Type.spec_id()),
                version,
            ) {
                Err(e) => Err(e),
                Ok(types) => match sections::constant_section(
                    sections::section_of(s, Section::Constant.spec_id()),
                ) {
                    Err(e) => Err(e),
                    Ok(constants) => Ok((version, s, TablesModel { strings, types, constants })),
                },
            },
        },
    }
}

/// The module of a buffer: the functions of its function section, put into an empty
/// module one after the other.
pub open spec fn module_of(d: Seq<u8>) -> Result<ModuleModel, DecodeError> {
    match tables_of(d) {
        Err(e) => Err(e),
        Ok((version, s, t)) => match sections::section_of(s, Section::Func.spec_id()) {
            None => Ok(ModuleModel::empty("module"@)),
            Some(payload) => match functions::function_section(
                payload,
                ModuleModel::empty("module"@),
                t,
                version,
            ) {
                (Err(e), _) => Err(e),
                (Ok(_), m) => Ok(m),
            },
        },
    }
}

/// Reads the module of a buffer.
fn read_module(data: &[u8]) -> (r: Result<Module, DecodeError>)
    requires
        module_tables_in_range(data@),
    ensures
        match (r, module_of(data@)) {
            (Ok(v), Ok(m)) => v@ == m,
            (Err(e), Err(f)) => e == f,
            _ => false,
        },
{
    let (version, s) = read_container(data)?;
    let strings = parse_string_section(s.get(Section::String.id()))?;
    let types = parse_types(s.get(Section::Type.id()), version)?;
    let constants = parse_constant_section(s.get(Section::Constant.id()))?;
    let mut module = Module::new("module");
    if let Some(payload) = s.get(Section::Func.id()) {
        let tables = Tables { strings: &strings, types: &types, constants: &constants };
        decode_funcs(payload, &tables, version, &mut module)?;
    }
    Ok(module)
}

/// Decodes a buffer into a module. An operation that the reader does not know how
/// to read is an error that names the operation.
pub fn decode_module(data: &[u8]) -> (r: Result<Module, Error>)
    requires
        module_tables_in_range(data@),
    ensures
        match (r, module_of(data@)) {
            (Ok(v), Ok(m)) => v@ == m,
            (Err(e), Err(kind)) => e.message() == error::decode_message(kind),
            _ => false,
        },
{
    match read_module(data) {
        Ok(m) => Ok(m),
        Err(kind) => Err(err(kind)),
    }
}

/// The version that the header of a buffer declares.
pub fn bytecode_version(data: &[u8]) -> (r: Result<BytecodeVersion, Error>)
    ensures
        match (r, reader::header_at(data@, 0).0) {
            (Ok(v), Ok(w)) => v == w,
            (Err(e), Err(kind)) => e.message() == error::decode_message(kind),
            _ => false,
        },
{
    let mut r = Reader::new(data);
    match r.read_header() {
        Ok(v) => Ok(v),
        Err(kind) => Err(err(kind)),
    }
}

} // verus!
