//! The decisions of the matrix-product benchmark.

use vstd::arithmetic::div_mod::*;
use vstd::arithmetic::mul::*;
use vstd::prelude::*;
use vstd::string::StringExecFns;

use crate::benchmarks::args;
use crate::benchmarks::args::has_flag;
use crate::benchmarks::jit;
use crate::benchmarks::jit::{cache_key, JitCache};
use crate::benchmarks::measure;
use crate::benchmarks::measure::{Action, Counts};
use crate::text;
use crate::text::{dec_string, int_string, push_dec};

verus! {

/// A variant of the kernel. The variants that end in `Ir` print their code when they
/// are compiled.
#[derive(Clone, Copy, Debug, PartialEq, Eq, Structural)]
pub enum Variant {
    Gemm,
    GemmIr,
    GemmPersistent,
    GemmPersistentUnchecked,
    GemmPersistentRaw,
    GemmPersistentRawAsserts,
    GemmPersistentMappedIndex,
    GemmPersistentIterRawloads,
    GemmFullOutput,
    GemmFullOutputIr,
    GemmSafe,
    GemmSafeIr,
    GemmPersistentSafe,
    GemmStatic,
    GemmStaticIr,
    GemmPersistentStatic,
}

impl Variant {
    /// The label of a variant. A variant that prints its code shares the label of the
    /// one that does not.
    pub open spec fn label_text(self) -> Seq<char> {
        match self {
            Variant::Gemm | Variant::GemmIr => "optimized"@,
            Variant::GemmPersistent => "persistent_optimized"@,
            Variant::GemmPersistentUnchecked => "persistent_unchecked"@,
            Variant::GemmPersistentRaw => "persistent_raw"@,
            Variant::GemmPersistentRawAsserts => "persistent_raw_asserts"@,
            Variant::GemmPersistentMappedIndex => "persistent_mapped_index"@,
            Variant::GemmPersistentIterRawloads => "persistent_iter_rawloads"@,
            Variant::GemmFullOutput | Variant::GemmFullOutputIr => "full_output"@,
            Variant::GemmSafe | Variant::GemmSafeIr => "safe"@,
            Variant::GemmPersistentSafe => "persistent_safe"@,
            Variant::GemmStatic | Variant::GemmStaticIr => "static"@,
            Variant::GemmPersistentStatic => "persistent_static"@,
        }
    }

    /// The entry point that a variant launches. The persistent variant that checks its
    /// accesses is the same entry point as the one that is optimized.
    pub open spec fn entry_text(self) -> Seq<char> {
        match self {
            Variant::Gemm => "gemm"@,
            Variant::GemmIr => "gemm_ir"@,
            Variant::GemmPersistent | Variant::GemmPersistentSafe => "gemm_persistent"@,
            Variant::GemmPersistentUnchecked => "gemm_persistent_unchecked"@,
            Variant::GemmPersistentRaw => "gemm_persistent_raw"@,
            Variant::GemmPersistentRawAsserts => "gemm_persistent_raw_asserts"@,
            Variant::GemmPersistentMappedIndex => "gemm_persistent_mapped_index"@,
            Variant::GemmPersistentIterRawloads => "gemm_persistent_iter_rawloads"@,
            Variant::GemmFullOutput => "gemm_full_output"@,
            Variant::GemmFullOutputIr => "gemm_full_output_ir"@,
            Variant::GemmSafe => "gemm_safe"@,
            Variant::GemmSafeIr => "gemm_safe_ir"@,
            Variant::GemmStatic => "gemm_static"@,
            Variant::GemmStaticIr => "gemm_static_ir"@,
            Variant::GemmPersistentStatic => "gemm_persistent_static"@,
        }
    }

    /// The entry point that a variant launches.
    pub fn entry(self) -> (e: &'static str)
        ensures
            e@ == self.entry_text(),
    {
        match self {
            Variant::Gemm => "gemm",
            Variant::GemmIr => "gemm_ir",
            Variant::GemmPersistent | Variant::GemmPersistentSafe => "gemm_persistent",
            Variant::GemmPersistentUnchecked => "gemm_persistent_unchecked",
            Variant::GemmPersistentRaw => "gemm_persistent_raw",
            Variant::GemmPersistentRawAsserts => "gemm_persistent_raw_asserts",
            Variant::GemmPersistentMappedIndex => "gemm_persistent_mapped_index",
            Variant::GemmPersistentIterRawloads => "gemm_persistent_iter_rawloads",
            Variant::GemmFullOutput => "gemm_full_output",
            Variant::GemmFullOutputIr => "gemm_full_output_ir",
            Variant::GemmSafe => "gemm_safe",
            Variant::GemmSafeIr => "gemm_safe_ir",
            Variant::GemmStatic => "gemm_static",
            Variant::GemmStaticIr => "gemm_static_ir",
            Variant::GemmPersistentStatic => "gemm_persistent_static",
        }
    }

    /// The label of a variant.
    pub fn label(self) -> (l: &'static str)
        ensures
            l@ == self.label_text(),
    {
        match self {
            Variant::Gemm | Variant::GemmIr => "optimized",
            Variant::GemmPersistent => "persistent_optimized",
            Variant::GemmPersistentUnchecked => "persistent_unchecked",
            Variant::GemmPersistentRaw => "persistent_raw",
            Variant::GemmPersistentRawAsserts => "persistent_raw_asserts",
            Variant::GemmPersistentMappedIndex => "persistent_mapped_index",
            Variant::GemmPersistentIterRawloads => "persistent_iter_rawloads",
            Variant::GemmFullOutput | Variant::GemmFullOutputIr => "full_output",
            Variant::GemmSafe | Variant::GemmSafeIr => "safe",
            Variant::GemmPersistentSafe => "persistent_safe",
            Variant::GemmStatic | Variant::GemmStaticIr => "static",
            Variant::GemmPersistentStatic => "persistent_static",
        }
    }

    /// Whether the shapes are const-generic arguments.
    pub open spec fn static_shape(self) -> bool {
        self == Variant::GemmStatic || self == Variant::GemmStaticIr || self
            == Variant::GemmPersistentStatic
    }

    /// Whether the output is mapped to programs by a map shape.
    pub open spec fn mapped(self) -> bool {
        match self {
            Variant::GemmPersistent
            | Variant::GemmPersistentUnchecked
            | Variant::GemmPersistentSafe
            | Variant::GemmPersistentMappedIndex
            | Variant::GemmPersistentIterRawloads
            | Variant::GemmPersistentStatic => true,
            _ => false,
        }
    }

    /// Whether the output is written through a raw pointer by persistent programs.
    pub open spec fn raw(self) -> bool {
        self == Variant::GemmPersistentRaw || self == Variant::GemmPersistentRawAsserts
    }

    /// Whether a fixed number of programs walks over the output.
    pub open spec fn persistent(self) -> bool {
        self.mapped() || self.raw()
    }

    /// Whether the variant prints its code.
    pub open spec fn prints(self) -> bool {
        match self {
            Variant::GemmIr
            | Variant::GemmFullOutputIr
            | Variant::GemmSafeIr
            | Variant::GemmStaticIr => true,
            _ => false,
        }
    }

    /// Whether a fixed number of programs walks over the output.
    pub fn is_persistent(self) -> (b: bool)
        ensures
            b == self.persistent(),
    {
        self.is_mapped() || self.is_raw()
    }

    fn is_static_shape(self) -> (b: bool)
        ensures
            b == self.static_shape(),
    {
        self == Variant::GemmStatic || self == Variant::GemmStaticIr || self
            == Variant::GemmPersistentStatic
    }

    fn is_mapped(self) -> (b: bool)
        ensures
            b == self.mapped(),
    {
        match self {
            Variant::GemmPersistent
            | Variant::GemmPersistentUnchecked
            | Variant::GemmPersistentSafe
            | Variant::GemmPersistentMappedIndex
            | Variant::GemmPersistentIterRawloads
            | Variant::GemmPersistentStatic => true,
            _ => false,
        }
    }

    fn is_raw(self) -> (b: bool)
        ensures
            b == self.raw(),
    {
        self == Variant::GemmPersistentRaw || self == Variant::GemmPersistentRawAsserts
    }
}

/// Variants that do not print have different labels, so that their results do not
/// overwrite each other.
pub proof fn labels_are_distinct(a: Variant, b: Variant)
    requires
        !a.prints(),
        !b.prints(),
        a.label_text() == b.label_text(),
    ensures
        a == b,
{
    reveal_strlit("optimized");
    reveal_strlit("persistent_optimized");
    reveal_strlit("persistent_unchecked");
    reveal_strlit("persistent_raw");
    reveal_strlit("persistent_raw_asserts");
    reveal_strlit("persistent_mapped_index");
    reveal_strlit("persistent_iter_rawloads");
    reveal_strlit("full_output");
    reveal_strlit("safe");
    reveal_strlit("persistent_safe");
    reveal_strlit("static");
    reveal_strlit("persistent_static");
    assert("optimized"@.len() == 9);
    assert("persistent_optimized"@.len() == 20);
    assert("persistent_unchecked"@.len() == 20);
    assert("persistent_raw"@.len() == 14);
    assert("persistent_raw_asserts"@.len() == 22);
    assert("persistent_mapped_index"@.len() == 23);
    assert("persistent_iter_rawloads"@.len() == 24);
    assert("full_output"@.len() == 11);
    assert("safe"@.len() == 4);
    assert("persistent_safe"@.len() == 15);
    assert("static"@.len() == 6);
    assert("persistent_static"@.len() == 17);
    assert("persistent_optimized"@[11] == 'o');
    assert("persistent_unchecked"@[11] == 'u');
}

/// The flags of a run.
#[derive(Clone, Copy, Debug, PartialEq, Eq, Structural)]
pub struct Flags {
    pub is_safe: bool,
    pub is_static: bool,
    pub is_full_output: bool,
    pub is_persistent: bool,
    pub is_raw_pointer: bool,
    pub is_raw_asserts: bool,
    pub is_mapped_index: bool,
    pub is_iter_rawloads: bool,
    pub is_unchecked_mapped: bool,
    pub dump_ir: bool,
    pub jit_mode: bool,
    pub tune_one: bool,
    pub check: bool,
    pub force_swizzle: bool,
    pub force_no_swizzle: bool,
}

impl Flags {
    /// The flags among the arguments.
    pub fn from_args(args: &Vec<String>) -> (f: Flags)
        ensures
            f.is_safe == args::present(text::texts(args@), "--safe"@),
            f.is_static == args::present(text::texts(args@), "--static"@),
            f.is_full_output == args::present(text::texts(args@), "--full-output"@),
            f.is_persistent == args::present(text::texts(args@), "--persistent"@),
            f.is_raw_pointer == args::present(text::texts(args@), "--raw-pointer"@),
            f.is_raw_asserts == args::present(text::texts(args@), "--raw-asserts"@),
            f.is_mapped_index == args::present(text::texts(args@), "--mapped-index"@),
            f.is_iter_rawloads == args::present(text::texts(args@), "--iter-rawloads"@),
            f.is_unchecked_mapped == args::present(text::texts(args@), "--unchecked-mapped"@),
            f.dump_ir == args::present(text::texts(args@), "--dump-ir"@),
            f.jit_mode == args::present(text::texts(args@), "--jit"@),
            f.tune_one == args::present(text::texts(args@), "--tune-one"@),
            f.check == args::present(text::texts(args@), "--check"@),
            f.force_swizzle == args::present(text::texts(args@), "--swizzle"@),
            f.force_no_swizzle == args::present(text::texts(args@), "--no-swizzle"@),
    {
        Flags {
            is_safe: has_flag(args, "--safe"),
            is_static: has_flag(args, "--static"),
            is_full_output: has_flag(args, "--full-output"),
            is_persistent: has_flag(args, "--persistent"),
            is_raw_pointer: has_flag(args, "--raw-pointer"),
            is_raw_asserts: has_flag(args, "--raw-asserts"),
            is_mapped_index: has_flag(args, "--mapped-index"),
            is_iter_rawloads: has_flag(args, "--iter-rawloads"),
            is_unchecked_mapped: has_flag(args, "--unchecked-mapped"),
            dump_ir: has_flag(args, "--dump-ir"),
            jit_mode: has_flag(args, "--jit"),
            tune_one: has_flag(args, "--tune-one"),
            check: has_flag(args, "--check"),
            force_swizzle: has_flag(args, "--swizzle"),
            force_no_swizzle: has_flag(args, "--no-swizzle"),
        }
    }
}

/// Whether more than one of four flags is set.
pub open spec fn more_than_one4(a: bool, b: bool, c: bool, d: bool) -> bool {
    (a && (b || c || d)) || (b && (c || d)) || (c && d)
}

/// The number of flags that are set.
fn count4(a: bool, b: bool, c: bool, d: bool) -> (n: usize)
    ensures
        n > 1 <==> more_than_one4(a, b, c, d),
        n > 0 <==> (a || b || c || d),
{
    let mut n: usize = 0;
    if a {
        n = n + 1;
    }
    if b {
        n = n + 1;
    }
    if c {
        n = n + 1;
    }
    if d {
        n = n + 1;
    }
    n
}

/// Why a combination of flags is refused: the first reason that holds.
pub open spec fn refusal(f: Flags) -> Option<Seq<char>> {
    let diagnostic = f.is_raw_pointer || f.is_raw_asserts || f.is_mapped_index
        || f.is_iter_rawloads;
    if more_than_one4(f.is_safe, f.is_static, f.is_full_output, f.is_unchecked_mapped) {
        Some("--safe, --static, --full-output, and --unchecked-mapped are mutually exclusive"@)
    } else if f.is_persistent && f.is_full_output {
        Some("--persistent and --full-output are mutually exclusive"@)
    } else if f.is_raw_pointer && !f.is_persistent {
        Some("--raw-pointer only applies with --persistent"@)
    } else if more_than_one4(f.is_raw_pointer, f.is_raw_asserts, f.is_mapped_index, f.is_iter_rawloads) {
        Some("--raw-pointer, --raw-asserts, --mapped-index, and --iter-rawloads are mutually exclusive"@)
    } else if (f.is_raw_asserts || f.is_mapped_index || f.is_iter_rawloads) && !f.is_persistent {
        Some("persistent diagnostic variants only apply with --persistent"@)
    } else if diagnostic && (f.is_static || f.is_safe || f.is_unchecked_mapped) {
        Some("persistent diagnostic variants are already explicit; do not combine them with --safe/--static/--unchecked-mapped"@)
    } else if f.is_unchecked_mapped && !f.is_persistent {
        Some("--unchecked-mapped only applies with --persistent"@)
    } else if f.is_unchecked_mapped && f.is_raw_pointer {
        Some("--unchecked-mapped compares the mapped path; do not combine it with --raw-pointer"@)
    } else if f.force_swizzle && f.force_no_swizzle {
        Some("--swizzle and --no-swizzle are mutually exclusive"@)
    } else if !f.is_persistent && (f.force_swizzle || f.force_no_swizzle) {
        Some("--swizzle/--no-swizzle only apply with --persistent"@)
    } else if f.dump_ir && f.is_persistent {
        Some("--persistent does not currently have an IR-dumping twin"@)
    } else if f.jit_mode && (f.is_safe || f.is_static || f.is_full_output || f.is_persistent || f.dump_ir) {
        Some("--jit runs all variants; --safe/--static/--full-output/--persistent/--dump-ir not applicable"@)
    } else if f.tune_one && (f.jit_mode || f.dump_ir) {
        Some("--tune-one is mutually exclusive with --jit/--dump-ir"@)
    } else {
        None
    }
}

/// Why a combination of flags is refused: the first reason that holds.
pub fn check_flags(f: Flags) -> (r: Option<&'static str>)
    ensures
        args::text_of(r) == refusal(f),
{
    let mode_count: usize = count4(
        f.is_safe,
        f.is_static,
        f.is_full_output,
        f.is_unchecked_mapped,
    );
    let persistent_impl_count: usize = count4(
        f.is_raw_pointer,
        f.is_raw_asserts,
        f.is_mapped_index,
        f.is_iter_rawloads,
    );
    if mode_count > 1 {
        return Some("--safe, --static, --full-output, and --unchecked-mapped are mutually exclusive");
    }
    if f.is_persistent && f.is_full_output {
        return Some("--persistent and --full-output are mutually exclusive");
    }
    if f.is_raw_pointer && !f.is_persistent {
        return Some("--raw-pointer only applies with --persistent");
    }
    if persistent_impl_count > 1 {
        return Some("--raw-pointer, --raw-asserts, --mapped-index, and --iter-rawloads are mutually exclusive");
    }
    if (f.is_raw_asserts || f.is_mapped_index || f.is_iter_rawloads) && !f.is_persistent {
        return Some("persistent diagnostic variants only apply with --persistent");
    }
    if persistent_impl_count > 0 && (f.is_static || f.is_safe || f.is_unchecked_mapped) {
        return Some("persistent diagnostic variants are already explicit; do not combine them with --safe/--static/--unchecked-mapped");
    }
    if f.is_unchecked_mapped && !f.is_persistent {
        return Some("--unchecked-mapped only applies with --persistent");
    }
    if f.is_unchecked_mapped && f.is_raw_pointer {
        return Some("--unchecked-mapped compares the mapped path; do not combine it with --raw-pointer");
    }
    if f.force_swizzle && f.force_no_swizzle {
        return Some("--swizzle and --no-swizzle are mutually exclusive");
    }
    if !f.is_persistent && (f.force_swizzle || f.force_no_swizzle) {
        return Some("--swizzle/--no-swizzle only apply with --persistent");
    }
    if f.dump_ir && f.is_persistent {
        return Some("--persistent does not currently have an IR-dumping twin");
    }
    if f.jit_mode && (f.is_safe || f.is_static || f.is_full_output || f.is_persistent || f.dump_ir) {
        return Some("--jit runs all variants; --safe/--static/--full-output/--persistent/--dump-ir not applicable");
    }
    if f.tune_one && (f.jit_mode || f.dump_ir) {
        return Some("--tune-one is mutually exclusive with --jit/--dump-ir");
    }
    None
}

/// The variant that the flags select.
pub open spec fn selected(f: Flags) -> Variant {
    if f.is_persistent && f.is_raw_pointer {
        Variant::GemmPersistentRaw
    } else if f.is_persistent && f.is_raw_asserts {
        Variant::GemmPersistentRawAsserts
    } else if f.is_persistent && f.is_mapped_index {
        Variant::GemmPersistentMappedIndex
    } else if f.is_persistent && f.is_iter_rawloads {
        Variant::GemmPersistentIterRawloads
    } else if f.is_persistent && f.is_unchecked_mapped {
        Variant::GemmPersistentUnchecked
    } else if f.is_persistent && f.is_safe {
        Variant::GemmPersistentSafe
    } else if f.is_persistent && f.is_static {
        Variant::GemmPersistentStatic
    } else if f.is_persistent {
        Variant::GemmPersistent
    } else if f.is_safe {
        Variant::GemmSafe
    } else if f.is_static {
        Variant::GemmStatic
    } else if f.is_full_output {
        Variant::GemmFullOutput
    } else {
        Variant::Gemm
    }
}

/// The variant that the flags select.
pub fn select_variant(f: Flags) -> (v: Variant)
    ensures
        v == selected(f),
{
    if f.is_persistent && f.is_raw_pointer {
        Variant::GemmPersistentRaw
    } else if f.is_persistent && f.is_raw_asserts {
        Variant::GemmPersistentRawAsserts
    } else if f.is_persistent && f.is_mapped_index {
        Variant::GemmPersistentMappedIndex
    } else if f.is_persistent && f.is_iter_rawloads {
        Variant::GemmPersistentIterRawloads
    } else if f.is_persistent && f.is_unchecked_mapped {
        Variant::GemmPersistentUnchecked
    } else if f.is_persistent && f.is_safe {
        Variant::GemmPersistentSafe
    } else if f.is_persistent && f.is_static {
        Variant::GemmPersistentStatic
    } else if f.is_persistent {
        Variant::GemmPersistent
    } else if f.is_safe {
        Variant::GemmSafe
    } else if f.is_static {
        Variant::GemmStatic
    } else if f.is_full_output {
        Variant::GemmFullOutput
    } else {
        Variant::Gemm
    }
}

/// The label of a run, which names its results.
pub fn run_label(f: Flags) -> (l: &'static str)
    ensures
        l@ == selected(f).label_text(),
{
    if f.is_persistent && f.is_raw_pointer {
        "persistent_raw"
    } else if f.is_persistent && f.is_raw_asserts {
        "persistent_raw_asserts"
    } else if f.is_persistent && f.is_mapped_index {
        "persistent_mapped_index"
    } else if f.is_persistent && f.is_iter_rawloads {
        "persistent_iter_rawloads"
    } else if f.is_persistent && f.is_unchecked_mapped {
        "persistent_unchecked"
    } else if f.is_persistent && f.is_safe {
        "persistent_safe"
    } else if f.is_persistent && f.is_static {
        "persistent_static"
    } else if f.is_persistent {
        "persistent_optimized"
    } else if f.is_safe {
        "safe"
    } else if f.is_static {
        "static"
    } else if f.is_full_output {
        "full_output"
    } else {
        "optimized"
    }
}

/// Flags that are not refused select a variant that does what they say.
pub proof fn accepted_flags_are_followed(f: Flags)
    requires
        refusal(f) is None,
    ensures
        !selected(f).prints(),
        selected(f).persistent() == f.is_persistent,
        selected(f).raw() == (f.is_raw_pointer || f.is_raw_asserts),
        selected(f).static_shape() == f.is_static,
        selected(f) == Variant::GemmPersistentRaw <==> f.is_raw_pointer,
        selected(f) == Variant::GemmPersistentRawAsserts <==> f.is_raw_asserts,
        selected(f) == Variant::GemmPersistentMappedIndex <==> f.is_mapped_index,
        selected(f) == Variant::GemmPersistentIterRawloads <==> f.is_iter_rawloads,
        selected(f) == Variant::GemmPersistentUnchecked <==> f.is_unchecked_mapped,
        selected(f) == Variant::GemmFullOutput <==> f.is_full_output,
        (selected(f) == Variant::GemmSafe || selected(f) == Variant::GemmPersistentSafe)
            <==> f.is_safe,
        f.force_swizzle || f.force_no_swizzle ==> f.is_persistent,
{
}

/// The variant that prints its code for the flags, and the name of its entry.
pub open spec fn printing(f: Flags) -> (Variant, Seq<char>) {
    if f.is_safe {
        (Variant::GemmSafeIr, "gemm_safe_ir"@)
    } else if f.is_static {
        (Variant::GemmStaticIr, "gemm_static_ir"@)
    } else if f.is_full_output {
        (Variant::GemmFullOutputIr, "gemm_full_output_ir"@)
    } else {
        (Variant::GemmIr, "gemm_ir"@)
    }
}

/// The variant that prints its code for the flags, and the name of its entry.
pub fn dump_variant(f: Flags) -> (r: (Variant, &'static str))
    ensures
        (r.0, r.1@) == printing(f),
{
    if f.is_safe {
        (Variant::GemmSafeIr, "gemm_safe_ir")
    } else if f.is_static {
        (Variant::GemmStaticIr, "gemm_static_ir")
    } else if f.is_full_output {
        (Variant::GemmFullOutputIr, "gemm_full_output_ir")
    } else {
        (Variant::GemmIr, "gemm_ir")
    }
}

/// The variant that prints has the label of the selected one, where the flags are not
/// refused and ask for printing, and the code that is printed is that of its entry point.
pub proof fn printing_keeps_the_label(f: Flags)
    requires
        refusal(f) is None,
        f.dump_ir,
    ensures
        printing(f).0.prints(),
        printing(f).0.label_text() == selected(f).label_text(),
        printing(f).1 == printing(f).0.entry_text(),
{
}

/// The compiler hints of a run.
#[derive(Clone, Copy, Debug, PartialEq, Eq, Structural)]
pub struct HintConfig {
    pub num_cta_in_cga: Option<i32>,
    pub occupancy: Option<i32>,
    pub max_divisibility: Option<i32>,
}

/// A number, or `default` where there is none.
pub open spec fn option_text(value: Option<i32>) -> Seq<char> {
    match value {
        Some(v) => text::int_text(v as int),
        None => "default"@,
    }
}

/// A number as text, or `default` where there is none.
pub fn option_label(value: Option<i32>) -> (s: String)
    ensures
        s@ == option_text(value),
{
    match value {
        Some(v) => int_string(v as i64),
        None => "default".to_owned(),
    }
}

impl HintConfig {
    /// No hints.
    pub fn none() -> (h: HintConfig)
        ensures
            h == (HintConfig { num_cta_in_cga: None, occupancy: None, max_divisibility: None }),
    {
        HintConfig { num_cta_in_cga: None, occupancy: None, max_divisibility: None }
    }

    pub fn num_cta_label(self) -> (s: String)
        ensures
            s@ == option_text(self.num_cta_in_cga),
    {
        option_label(self.num_cta_in_cga)
    }

    pub fn occupancy_label(self) -> (s: String)
        ensures
            s@ == option_text(self.occupancy),
    {
        option_label(self.occupancy)
    }

    pub fn max_divisibility_label(self) -> (s: String)
        ensures
            s@ == option_text(self.max_divisibility),
    {
        option_label(self.max_divisibility)
    }

    /// The hints with those of a persistent configuration where they leave them open.
    pub fn with_defaults(self, config: PersistentConfig) -> (h: HintConfig)
        ensures
            h.num_cta_in_cga == Some(
                match self.num_cta_in_cga {
                    Some(v) => v,
                    None => config.num_cta_in_cga,
                },
            ),
            h.occupancy == Some(
                match self.occupancy {
                    Some(v) => v,
                    None => config.occupancy,
                },
            ),
            h.max_divisibility == self.max_divisibility,
            h == completed(self, config),
    {
        let mut h = self;
        if h.num_cta_in_cga.is_none() {
            h.num_cta_in_cga = Some(config.num_cta_in_cga);
        }
        if h.occupancy.is_none() {
            h.occupancy = Some(config.occupancy);
        }
        h
    }
}

/// A hint as it is reported: where a variant is not persistent and there is no hint,
/// the kernel's entry decides.
pub open spec fn effective_text(hint: Option<i32>, persistent: bool) -> Seq<char> {
    if hint is Some || persistent {
        option_text(hint)
    } else {
        "entry"@
    }
}

/// A hint as it is reported for a variant.
pub fn effective_label(hint: Option<i32>, variant: Variant) -> (s: String)
    ensures
        s@ == effective_text(hint, variant.persistent()),
{
    if hint.is_some() || variant.is_persistent() {
        option_label(hint)
    } else {
        "entry".to_owned()
    }
}

/// How the order of the tiles is reported for a variant.
pub fn swizzle_label(variant: Variant, swizzle: bool) -> (s: &'static str)
    ensures
        s@ == (if !variant.persistent() {
            "n/a"@
        } else if swizzle {
            "on"@
        } else {
            "off"@
        }),
{
    if variant.is_persistent() {
        if swizzle {
            "on"
        } else {
            "off"
        }
    } else {
        "n/a"
    }
}

/// The number of tiles of extent `b` that cover an extent `a`.
pub fn ceil_div_usize(a: usize, b: usize) -> (r: usize)
    requires
        0 < b,
        a + b <= usize::MAX,
    ensures
        r as int == (a + b - 1) / b as int,
        a <= r * b < a + b,
{
    let r: usize = (a + b - 1) / b;
    proof {
        let x = a + b - 1;
        assert(r == x / b as int);
        lemma_fundamental_div_mod(x, b as int);
        lemma_mod_bound(x, b as int);
        lemma_mul_is_commutative(r as int, b as int);
    }
    r
}

/// The greater of two numbers.
pub open spec fn greater(a: int, b: int) -> int {
    if a >= b {
        a
    } else {
        b
    }
}

/// The number of output tiles, but at least one.
pub open spec fn total_tiles(m: int, n: int, bm: int, bn: int) -> int {
    greater(((m + bm - 1) / bm) * ((n + bn - 1) / bn), 1)
}

/// The number of programs: as many as there are clusters of multiprocessors, or tiles
/// if those are fewer, times the occupancy.
pub open spec fn programs(tiles: int, num_sms: int, num_cta_in_cga: int, occupancy: int) -> int {
    let clusters = greater(num_sms / greater(num_cta_in_cga, 1), 1);
    (if clusters <= tiles {
        clusters
    } else {
        tiles
    }) * greater(occupancy, 1)
}

/// The tiles are positive, and the number of tiles and the number of programs are in
/// the range of the counters.
pub open spec fn programs_in_range(
    m: int,
    n: int,
    bm: int,
    bn: int,
    num_sms: int,
    num_cta_in_cga: int,
    occupancy: int,
) -> bool {
    &&& 0 < bm
    &&& 0 < bn
    &&& m + bm <= usize::MAX
    &&& n + bn <= usize::MAX
    &&& total_tiles(m, n, bm, bn) <= i32::MAX
    &&& programs(total_tiles(m, n, bm, bn), num_sms, num_cta_in_cga, occupancy) <= i32::MAX
}

/// Whether `persistent_num_programs` can be called.
pub fn programs_fit(
    m: usize,
    n: usize,
    bm: i32,
    bn: i32,
    num_sms: i32,
    num_cta_in_cga: i32,
    occupancy: i32,
) -> (b: bool)
    ensures
        b == programs_in_range(
            m as int,
            n as int,
            bm as int,
            bn as int,
            num_sms as int,
            num_cta_in_cga as int,
            occupancy as int,
        ),
{
    if bm <= 0 || bn <= 0 || bm as usize > usize::MAX - m || bn as usize > usize::MAX - n {
        return false;
    }
    let tiles_m: usize = ceil_div_usize(m, bm as usize);
    let tiles_n: usize = ceil_div_usize(n, bn as usize);
    proof {
        assert(0 <= tiles_m * tiles_n <= 0xffff_ffff_ffff_ffff * 0xffff_ffff_ffff_ffff)
            by (nonlinear_arith)
            requires
                0 <= tiles_m <= 0xffff_ffff_ffff_ffff,
                0 <= tiles_n <= 0xffff_ffff_ffff_ffff,
        ;
    }
    let product: u128 = tiles_m as u128 * tiles_n as u128;
    if product > i32::MAX as u128 {
        return false;
    }
    let tiles: i64 = if product >= 1 {
        product as i64
    } else {
        1
    };
    let clusters: i64 = cluster_count(num_sms, num_cta_in_cga) as i64;
    let base: i64 = if clusters <= tiles {
        clusters
    } else {
        tiles
    };
    let occupancy_1: i64 = if occupancy >= 1 {
        occupancy as i64
    } else {
        1
    };
    proof {
        assert(0 <= base * occupancy_1 <= 0x7fff_ffff * 0x7fff_ffff) by (nonlinear_arith)
            requires
                0 <= base <= 0x7fff_ffff,
                0 <= occupancy_1 <= 0x7fff_ffff,
        ;
    }
    base * occupancy_1 <= i32::MAX as i64
}

/// The number of clusters of multiprocessors, but at least one.
fn cluster_count(num_sms: i32, num_cta_in_cga: i32) -> (clusters: i32)
    ensures
        clusters == greater(num_sms as int / greater(num_cta_in_cga as int, 1), 1),
{
    let cta: i32 = if num_cta_in_cga >= 1 {
        num_cta_in_cga
    } else {
        1
    };
    let per_cluster: i32 = if num_sms >= 0 {
        num_sms / cta
    } else {
        proof {
            lemma_fundamental_div_mod(num_sms as int, cta as int);
            lemma_mod_bound(num_sms as int, cta as int);
            let q = num_sms as int / cta as int;
            assert(q < 0) by (nonlinear_arith)
                requires
                    cta * q < 0,
                    cta > 0,
            ;
        }
        0
    };
    if per_cluster >= 1 {
        per_cluster
    } else {
        1
    }
}

/// The number of persistent programs for a product of `m` by `n` elements in tiles of
/// `bm` by `bn`, on a device with `num_sms` multiprocessors.
pub fn persistent_num_programs(
    m: usize,
    n: usize,
    bm: i32,
    bn: i32,
    num_sms: i32,
    num_cta_in_cga: i32,
    occupancy: i32,
) -> (count: u32)
    requires
        programs_in_range(
            m as int,
            n as int,
            bm as int,
            bn as int,
            num_sms as int,
            num_cta_in_cga as int,
            occupancy as int,
        ),
    ensures
        count == programs(
            total_tiles(m as int, n as int, bm as int, bn as int),
            num_sms as int,
            num_cta_in_cga as int,
            occupancy as int,
        ),
        count > 0,
{
    let tiles_m: usize = ceil_div_usize(m, bm as usize);
    let tiles_n: usize = ceil_div_usize(n, bn as usize);
    assert(tiles_m * tiles_n <= i32::MAX);
    assert(0 <= tiles_m * tiles_n) by (nonlinear_arith);
    let product: usize = tiles_m * tiles_n;
    let tiles: i32 = if product >= 1 {
        product as i32
    } else {
        1
    };
    let clusters: i32 = cluster_count(num_sms, num_cta_in_cga);
    let occupancy_1: i32 = if occupancy >= 1 {
        occupancy
    } else {
        1
    };
    let base: i32 = if clusters <= tiles {
        clusters
    } else {
        tiles
    };
    assert(base * occupancy_1 >= 1) by (nonlinear_arith)
        requires
            base >= 1,
            occupancy_1 >= 1,
    ;
    (base * occupancy_1) as u32
}

/// How persistent programs are launched.
#[derive(Clone, Copy, Debug, PartialEq, Eq, Structural)]
pub struct PersistentConfig {
    pub bm: i32,
    pub bn: i32,
    pub bk: i32,
    pub num_cta_in_cga: i32,
    pub occupancy: i32,
    pub group_size_m: i32,
    pub num_programs: Option<u32>,
    pub swizzle: bool,
}

impl PersistentConfig {
    /// The extents of a tile.
    pub fn tile(self) -> (t: (i32, i32, i32))
        ensures
            t == (self.bm, self.bn, self.bk),
    {
        (self.bm, self.bn, self.bk)
    }

    /// The number of programs fits, where it has to be computed.
    pub open spec fn grid_fits(self, m: int, n: int, num_sms: int) -> bool {
        self.num_programs is None ==> programs_in_range(
            m,
            n,
            self.bm as int,
            self.bn as int,
            num_sms,
            self.num_cta_in_cga as int,
            self.occupancy as int,
        )
    }

    /// The launch grid: one row of programs, as many as the configuration says or else
    /// as the device holds.
    pub fn launch_grid(self, m: usize, n: usize, num_sms: i32) -> (grid: (u32, u32, u32))
        requires
            self.grid_fits(m as int, n as int, num_sms as int),
        ensures
            grid.1 == 1,
            grid.2 == 1,
            match self.num_programs {
                Some(count) => grid.0 == count,
                None => grid.0 == programs(
                    total_tiles(m as int, n as int, self.bm as int, self.bn as int),
                    num_sms as int,
                    self.num_cta_in_cga as int,
                    self.occupancy as int,
                ),
            },
    {
        let grid_x: u32 = match self.num_programs {
            Some(count) => count,
            None => persistent_num_programs(
                m,
                n,
                self.bm,
                self.bn,
                num_sms,
                self.num_cta_in_cga,
                self.occupancy,
            ),
        };
        (grid_x, 1, 1)
    }
}

/// The default tile of a persistent run.
pub fn persistent_default_tile(size: usize) -> (t: (i32, i32, i32))
    ensures
        t == (if size <= 1024 {
            (128i32, 512i32, 64i32)
        } else {
            (256i32, 256i32, 64i32)
        }),
        t == (
            default_config(size as int).bm,
            default_config(size as int).bn,
            default_config(size as int).bk,
        ),
{
    if size <= 1024 {
        (128, 512, 64)
    } else {
        (256, 256, 64)
    }
}

/// The default number of blocks in a cluster of a persistent run.
pub fn persistent_default_cta(size: usize) -> (c: i32)
    ensures
        c == (if size <= 1024 {
            4i32
        } else {
            2i32
        }),
        c == default_config(size as int).num_cta_in_cga,
{
    if size <= 1024 {
        4
    } else {
        2
    }
}

/// The default configuration of a persistent run.
pub open spec fn default_config(size: int) -> PersistentConfig {
    PersistentConfig {
        bm: if size <= 1024 {
            128
        } else {
            256
        },
        bn: if size <= 1024 {
            512
        } else {
            256
        },
        bk: 64,
        num_cta_in_cga: if size <= 1024 {
            4
        } else {
            2
        },
        occupancy: 1,
        group_size_m: 8,
        num_programs: None,
        swizzle: true,
    }
}

/// The default configuration of a persistent run.
pub fn persistent_default_config(size: usize) -> (config: PersistentConfig)
    ensures
        config == default_config(size as int),
{
    let (bm, bn, bk) = persistent_default_tile(size);
    let num_cta_in_cga: i32 = persistent_default_cta(size);
    PersistentConfig {
        bm,
        bn,
        bk,
        num_cta_in_cga,
        occupancy: 1,
        group_size_m: 8,
        num_programs: None,
        swizzle: true,
    }
}

/// The order of the tiles that the flags ask for.
pub fn swizzle_override(f: Flags) -> (r: Option<bool>)
    ensures
        r == (if f.force_swizzle {
            Some(true)
        } else if f.force_no_swizzle {
            Some(false)
        } else {
            None
        }),
        r == asked_order(f),
{
    if f.force_swizzle {
        Some(true)
    } else if f.force_no_swizzle {
        Some(false)
    } else {
        None
    }
}

/// The order of the tiles of a run: what the flags ask for, or else that of the
/// persistent configuration, or else groups.
pub fn swizzle_enabled(f: Flags, config: PersistentConfig) -> (b: bool)
    ensures
        b == (if f.force_swizzle {
            true
        } else if f.force_no_swizzle {
            false
        } else if f.is_persistent {
            config.swizzle
        } else {
            true
        }),
        b == order_of(f, config.swizzle),
{
    match swizzle_override(f) {
        Some(b) => b,
        None => if f.is_persistent {
            config.swizzle
        } else {
            true
        },
    }
}

/// The tile of a tuning run that names none: that of the persistent configuration, or
/// else a fixed one.
pub fn tune_default_tile(f: Flags, config: PersistentConfig) -> (t: (i32, i32, i32))
    ensures
        t == (if f.is_persistent {
            (config.bm, config.bn, config.bk)
        } else {
            (128i32, 256i32, 128i32)
        }),
        t == tuned_tile(f, config),
{
    if f.is_persistent {
        config.tile()
    } else {
        (128, 256, 128)
    }
}

/// The number of rows of a group of tiles where the arguments name none.
pub fn default_group_size_m(f: Flags, config: PersistentConfig) -> (g: i32)
    ensures
        g == (if f.is_persistent {
            config.group_size_m
        } else {
            8i32
        }),
        g == tuned_group(f, config),
{
    if f.is_persistent {
        config.group_size_m
    } else {
        8
    }
}

/// The hints of a run: of a persistent run those of the arguments with the ones of the
/// configuration where they leave them open, of another run those of the arguments.
pub fn run_hints(f: Flags, asked: HintConfig, config: PersistentConfig) -> (h: HintConfig)
    ensures
        !f.is_persistent ==> h == asked,
        f.is_persistent ==> {
            &&& h.num_cta_in_cga == Some(
                match asked.num_cta_in_cga {
                    Some(v) => v,
                    None => config.num_cta_in_cga,
                },
            )
            &&& h.occupancy == Some(
                match asked.occupancy {
                    Some(v) => v,
                    None => config.occupancy,
                },
            )
            &&& h.max_divisibility == asked.max_divisibility
        },
        h == hints_of_run(f, asked, config),
{
    if f.is_persistent {
        asked.with_defaults(config)
    } else {
        asked
    }
}

/// The launch grid of a tuning run: of a persistent run, one row of programs, as many
/// as asked for but at least one, or else as the configuration says, or else as the
/// device holds. Other runs leave the grid to the kernel.
pub fn tune_launch_grid(
    f: Flags,
    asked: Option<i32>,
    config: PersistentConfig,
    m: usize,
    n: usize,
    bm: i32,
    bn: i32,
    num_sms: i32,
    hints: HintConfig,
) -> (grid: Option<(u32, u32, u32)>)
    requires
        f.is_persistent && asked is None ==> (PersistentConfig {
            bm,
            bn,
            num_cta_in_cga: match hints.num_cta_in_cga {
                Some(v) => v,
                None => 1,
            },
            occupancy: match hints.occupancy {
                Some(v) => v,
                None => 1,
            },
            ..config
        }).grid_fits(m as int, n as int, num_sms as int),
    ensures
        !f.is_persistent ==> grid is None,
        f.is_persistent ==> {
            &&& grid is Some
            &&& grid.unwrap().1 == 1
            &&& grid.unwrap().2 == 1
            &&& match (asked, config.num_programs) {
                (Some(v), _) => grid.unwrap().0 == greater(v as int, 1),
                (None, Some(count)) => grid.unwrap().0 == count,
                (None, None) => grid.unwrap().0 == programs(
                    total_tiles(m as int, n as int, bm as int, bn as int),
                    num_sms as int,
                    match hints.num_cta_in_cga {
                        Some(v) => v as int,
                        None => 1,
                    },
                    match hints.occupancy {
                        Some(v) => v as int,
                        None => 1,
                    },
                ),
            }
        },
        grid == tuned_grid(
            f,
            asked,
            config.num_programs,
            total_tiles(m as int, n as int, bm as int, bn as int),
            num_sms as int,
            hints,
        ),
{
    if !f.is_persistent {
        return None;
    }
    let count: u32 = match asked {
        Some(v) => if v >= 1 {
            v as u32
        } else {
            1
        },
        None => match config.num_programs {
            Some(count) => count,
            None => persistent_num_programs(
                m,
                n,
                bm,
                bn,
                num_sms,
                match hints.num_cta_in_cga {
                    Some(v) => v,
                    None => 1,
                },
                match hints.occupancy {
                    Some(v) => v,
                    None => 1,
                },
            ),
        },
    };
    Some((count, 1, 1))
}

/// Three numbers with commas between them.
pub open spec fn triple_text(a: nat, b: nat, c: nat) -> Seq<char> {
    text::dec_text(a) + ","@ + text::dec_text(b) + ","@ + text::dec_text(c)
}

fn push_triple(out: &mut String, a: u64, b: u64, c: u64)
    ensures
        final(out)@ == old(out)@ + triple_text(a as nat, b as nat, c as nat),
{
    push_dec(out, a);
    out.append(",");
    push_dec(out, b);
    out.append(",");
    push_dec(out, c);
    assert(out@ =~= old(out)@ + triple_text(a as nat, b as nat, c as nat));
}

/// Why a shape and a tile are refused.
pub open spec fn config_refusal(m: nat, n: nat, k: nat, bm: int, bn: int, bk: int) -> Option<
    Seq<char>,
> {
    if bm <= 0 || bn <= 0 || bk <= 0 {
        Some("tile dimensions must be positive"@)
    } else if m as int % bm != 0 || n as int % bn != 0 || k as int % bk != 0 {
        Some(
            "shape ("@ + triple_text(m, n, k) + ") must be divisible by tile ("@ + triple_text(
                bm as nat,
                bn as nat,
                bk as nat,
            ) + ")"@,
        )
    } else {
        None
    }
}

/// Refuses tiles that are not positive and shapes that do not consist of whole tiles.
pub fn validate_gemm_config(m: usize, n: usize, k: usize, bm: i32, bn: i32, bk: i32) -> (r: Result<
    (),
    String,
>)
    ensures
        match (r, config_refusal(m as nat, n as nat, k as nat, bm as int, bn as int, bk as int)) {
            (Ok(_), None) => true,
            (Err(e), Some(t)) => e@ == t,
            _ => false,
        },
{
    if bm <= 0 || bn <= 0 || bk <= 0 {
        return Err("tile dimensions must be positive".to_owned());
    }
    let bm: usize = bm as usize;
    let bn: usize = bn as usize;
    let bk: usize = bk as usize;
    if m % bm != 0 || n % bn != 0 || k % bk != 0 {
        let mut e: String = "shape (".to_owned();
        push_triple(&mut e, m as u64, n as u64, k as u64);
        e.append(") must be divisible by tile (");
        push_triple(&mut e, bm as u64, bn as u64, bk as u64);
        e.append(")");
        return Err(e);
    }
    Ok(())
}

/// The launches of a variant before the first window of a measurement.
pub const N_WARMUP: u32 = 5;

/// The launches of a window of a measurement.
pub const ITERS: u32 = 3;

/// The windows of a measurement.
pub const N_SAMPLES: usize = 10;

/// How often a variant is launched to measure it.
pub open spec fn counts_of_bench() -> Counts {
    Counts { warmup: N_WARMUP, samples: N_SAMPLES, iters: ITERS, settle: true }
}

/// How often a variant is launched to measure it.
pub fn bench_counts() -> (c: Counts)
    ensures
        c == counts_of_bench(),
{
    Counts { warmup: N_WARMUP, samples: N_SAMPLES, iters: ITERS, settle: true }
}

/// A variant is launched `5 + 10 * 3` times to measure it, and ten times are taken, each after
/// the device was waited for.
pub proof fn bench_launches()
    ensures
        counts_of_bench().closing() == seq![Action::Sync, Action::Record],
        measure::count(counts_of_bench().trace(), Action::Launch) == 5 + 10 * 3,
        measure::count(counts_of_bench().trace(), Action::Record) == 10,
{
    measure::launches_are_as_asked(counts_of_bench());
}

/// The grid of a run: the one that was asked for, or else that of the tiles of the output.
pub fn bench_grid(asked: Option<(u32, u32, u32)>, output: (u32, u32, u32)) -> (g: (u32, u32, u32))
    ensures
        g == (match asked {
            Some(a) => a,
            None => output,
        }),
        g == grid_of_run(asked, output),
{
    match asked {
        Some(a) => a,
        None => output,
    }
}

/// How a variant is launched.
#[derive(Clone, Copy, Debug)]
pub struct LaunchPlan {
    pub entry: &'static str,
    /// The shape of the map of the output tiles and the number of programs that share
    /// them, where programs persist and the output is partitioned.
    pub map: Option<(i32, i32, u32)>,
    /// The grid that is given to the launch where the output is not partitioned.
    pub grid: Option<(u32, u32, u32)>,
    /// The grid that the kernel is compiled for where the shapes are static.
    pub const_grid: Option<(u32, u32, u32)>,
}

/// The kernel that a variant launches, and on which grid, where the output has one and a
/// grid may have been asked for.
pub fn launch_plan(
    variant: Variant,
    asked: Option<(u32, u32, u32)>,
    output: (u32, u32, u32),
    group_size_m: i32,
    swizzle: bool,
) -> (plan: LaunchPlan)
    ensures
        plan.entry@ == variant.entry_text(),
        ({
            let run = match asked {
                Some(a) => a,
                None => output,
            };
            let map_m = if swizzle {
                greater(group_size_m as int, 1)
            } else {
                1
            };
            &&& plan.map == (if variant.mapped() {
                Some((map_m as i32, 1i32, run.0))
            } else {
                None
            })
            &&& plan.grid == (if variant.raw() {
                Some(run)
            } else if variant == Variant::GemmFullOutput || variant == Variant::GemmFullOutputIr {
                Some(output)
            } else {
                None
            })
            &&& plan.const_grid == (if variant == Variant::GemmPersistentStatic {
                Some(run)
            } else if variant.static_shape() {
                Some(output)
            } else {
                None
            })
        }),
        plan.map == map_of_launch(variant, grid_of_run(asked, output), group_size_m, swizzle),
        plan.grid == grid_of_launch(variant, grid_of_run(asked, output), output),
        plan.const_grid == shape_of_launch(variant, grid_of_run(asked, output), output),
{
    let run = bench_grid(asked, output);
    let map_m: i32 = if swizzle && group_size_m > 1 {
        group_size_m
    } else {
        1
    };
    let mapped = Some((map_m, 1i32, run.0));
    let entry = variant.entry();
    match variant {
        Variant::GemmPersistentRaw | Variant::GemmPersistentRawAsserts => LaunchPlan {
            entry,
            map: None,
            grid: Some(run),
            const_grid: None,
        },
        Variant::GemmFullOutput | Variant::GemmFullOutputIr => LaunchPlan {
            entry,
            map: None,
            grid: Some(output),
            const_grid: None,
        },
        Variant::GemmStatic | Variant::GemmStaticIr => LaunchPlan {
            entry,
            map: None,
            grid: None,
            const_grid: Some(output),
        },
        Variant::GemmPersistentStatic => LaunchPlan {
            entry,
            map: mapped,
            grid: None,
            const_grid: Some(run),
        },
        Variant::GemmPersistent
        | Variant::GemmPersistentUnchecked
        | Variant::GemmPersistentSafe
        | Variant::GemmPersistentMappedIndex
        | Variant::GemmPersistentIterRawloads => LaunchPlan {
            entry,
            map: mapped,
            grid: None,
            const_grid: None,
        },
        _ => LaunchPlan { entry, map: None, grid: None, const_grid: None },
    }
}

/// The const-generic arguments that all variants share.
pub open spec fn tile_generics(bm: int, bn: int, bk: int) -> Seq<Seq<char>> {
    seq!["f16"@, text::int_text(bm), text::int_text(bn), text::int_text(bk)]
}

/// The const-generic arguments of a variant: the tile, then the shape where it is
/// static, then the map shape or the order of the tiles where programs persist.
pub open spec fn variant_generics(
    variant: Variant,
    m: nat,
    n: nat,
    k: nat,
    bm: int,
    bn: int,
    bk: int,
    group_size_m: int,
    swizzle: bool,
) -> Seq<Seq<char>> {
    tile_generics(bm, bn, bk) + (if variant.static_shape() {
        seq![text::dec_text(m), text::dec_text(n), text::dec_text(k)]
    } else {
        Seq::empty()
    }) + (if variant.mapped() {
        seq![
            text::int_text(
                if swizzle {
                    greater(group_size_m, 1)
                } else {
                    1
                },
            ),
            text::int_text(1),
        ]
    } else if variant.raw() {
        seq![
            if swizzle {
                "1"@
            } else {
                "0"@
            },
        ]
    } else {
        Seq::empty()
    })
}

/// The const-generic arguments that all variants share.
fn base_generics(bm: i32, bn: i32, bk: i32) -> (g: Vec<String>)
    ensures
        text::texts(g@) == tile_generics(bm as int, bn as int, bk as int),
{
    let mut g: Vec<String> = Vec::new();
    g.push("f16".to_owned());
    g.push(int_string(bm as i64));
    g.push(int_string(bn as i64));
    g.push(int_string(bk as i64));
    assert(text::texts(g@) =~= tile_generics(bm as int, bn as int, bk as int));
    g
}

/// Appends the shape.
fn push_shape(g: &mut Vec<String>, m: usize, n: usize, k: usize)
    ensures
        text::texts(final(g)@) == text::texts(old(g)@) + seq![
            text::dec_text(m as nat),
            text::dec_text(n as nat),
            text::dec_text(k as nat),
        ],
{
    g.push(dec_string(m as u64));
    g.push(dec_string(n as u64));
    g.push(dec_string(k as u64));
    assert(text::texts(g@) =~= text::texts(old(g)@) + seq![
        text::dec_text(m as nat),
        text::dec_text(n as nat),
        text::dec_text(k as nat),
    ]);
}

/// The const-generic arguments of a variant.
pub fn bench_generics(
    variant: Variant,
    m: usize,
    n: usize,
    k: usize,
    bm: i32,
    bn: i32,
    bk: i32,
    group_size_m: i32,
    swizzle: bool,
) -> (g: Vec<String>)
    ensures
        text::texts(g@) == variant_generics(
            variant,
            m as nat,
            n as nat,
            k as nat,
            bm as int,
            bn as int,
            bk as int,
            group_size_m as int,
            swizzle,
        ),
{
    let map_m: i32 = if swizzle {
        if group_size_m >= 1 {
            group_size_m
        } else {
            1
        }
    } else {
        1
    };
    let map_n: i32 = 1;
    let mut g = base_generics(bm, bn, bk);
    if variant.is_static_shape() {
        push_shape(&mut g, m, n, k);
    }
    let ghost before = text::texts(g@);
    assert(before =~= tile_generics(bm as int, bn as int, bk as int) + (
    if variant.static_shape() {
        seq![text::dec_text(m as nat), text::dec_text(n as nat), text::dec_text(k as nat)]
    } else {
        Seq::empty()
    }));
    if variant.is_mapped() {
        g.push(int_string(map_m as i64));
        g.push(int_string(map_n as i64));
        assert(text::texts(g@) =~= before + seq![text::int_text(map_m as int), text::int_text(1)]);
    } else if variant.is_raw() {
        g.push(
            (if swizzle {
                "1"
            } else {
                "0"
            }).to_owned(),
        );
        assert(text::texts(g@) =~= before + seq![
            if swizzle {
                "1"@
            } else {
                "0"@
            },
        ]);
    } else {
        assert(before =~= before + Seq::empty());
    }
    g
}

/// The const-generic arguments of a variant that is compiled without persistent
/// programs: the tile, and the shape where it is static.
pub fn shape_generics(variant: Variant, m: usize, n: usize, k: usize, bm: i32, bn: i32, bk: i32) -> (
    g: Vec<String>)
    requires
        !variant.persistent(),
    ensures
        text::texts(g@) == variant_generics(
            variant,
            m as nat,
            n as nat,
            k as nat,
            bm as int,
            bn as int,
            bk as int,
            1,
            false,
        ),
{
    bench_generics(variant, m, n, k, bm, bn, bk, 1, false)
}

/// The key of a specialization that is not persistent.
pub open spec fn shape_key(
    variant: Variant,
    m: nat,
    n: nat,
    k: nat,
    bm: int,
    bn: int,
    bk: int,
) -> Seq<char> {
    jit::key(variant.label_text(), variant_generics(variant, m, n, k, bm, bn, bk, 1, false))
}

/// Notes that a specialization that is not persistent has been compiled, and says whether it
/// had been before.
pub fn record_compiled(
    cache: &mut JitCache,
    variant: Variant,
    m: usize,
    n: usize,
    k: usize,
    bm: i32,
    bn: i32,
    bk: i32,
) -> (cached: bool)
    requires
        !variant.persistent(),
    ensures
        ({
            let key = shape_key(
                variant,
                m as nat,
                n as nat,
                k as nat,
                bm as int,
                bn as int,
                bk as int,
            );
            &&& cached == old(cache)@.contains(key)
            &&& final(cache)@ == old(cache)@.insert(key)
        }),
{
    let generics = shape_generics(variant, m, n, k, bm, bn, bk);
    let key = cache_key(variant.label(), &generics);
    cache.record(key.as_str())
}

/// A specialization that is not persistent is known by its label and its tile, and by its
/// shape where the shape is static. So a static variant is compiled again for every shape
/// and another one only for every tile, and no two variants share a specialization, unless
/// one prints what the other does not.
pub proof fn specializations_are_told_apart(
    a: Variant,
    m1: nat,
    n1: nat,
    k1: nat,
    bm1: int,
    bn1: int,
    bk1: int,
    b: Variant,
    m2: nat,
    n2: nat,
    k2: nat,
    bm2: int,
    bn2: int,
    bk2: int,
)
    requires
        !a.persistent(),
        !b.persistent(),
    ensures
        ({
            let same = shape_key(a, m1, n1, k1, bm1, bn1, bk1) == shape_key(
                b,
                m2,
                n2,
                k2,
                bm2,
                bn2,
                bk2,
            );
            &&& same <==> a.label_text() == b.label_text() && bm1 == bm2 && bn1 == bn2 && bk1
                == bk2 && (a.static_shape() ==> m1 == m2 && n1 == n2 && k1 == k2)
            &&& same && !a.prints() && !b.prints() ==> a == b
        }),
{
    let g1 = variant_generics(a, m1, n1, k1, bm1, bn1, bk1, 1, false);
    let g2 = variant_generics(b, m2, n2, k2, bm2, bn2, bk2, 1, false);
    let l1 = a.label_text();
    let l2 = b.label_text();
    if l1 == l2 {
        labels_tell_static_shapes(a, b);
    }
    if jit::key(l1, g1) == jit::key(l2, g2) {
        label_is_plain(a);
        label_is_plain(b);
        generics_are_plain(a, m1, n1, k1, bm1, bn1, bk1);
        generics_are_plain(b, m2, n2, k2, bm2, bn2, bk2);
        jit::keys_are_one_to_one(l1, g1, l2, g2);
        assert(g1[1] == g2[1] && g1[2] == g2[2] && g1[3] == g2[3]);
        text::int_text_is_one_to_one(bm1, bm2);
        text::int_text_is_one_to_one(bn1, bn2);
        text::int_text_is_one_to_one(bk1, bk2);
        if a.static_shape() {
            assert(g1[4] == g2[4] && g1[5] == g2[5] && g1[6] == g2[6]);
            text::dec_text_is_one_to_one(m1, m2);
            text::dec_text_is_one_to_one(n1, n2);
            text::dec_text_is_one_to_one(k1, k2);
        }
        if !a.prints() && !b.prints() {
            labels_are_distinct(a, b);
        }
    }
}

/// Variants with one label, neither of them persistent, are both static or both not.
proof fn labels_tell_static_shapes(a: Variant, b: Variant)
    requires
        !a.persistent(),
        !b.persistent(),
        a.label_text() == b.label_text(),
    ensures
        a.static_shape() == b.static_shape(),
{
    reveal_strlit("optimized");
    reveal_strlit("full_output");
    reveal_strlit("safe");
    reveal_strlit("static");
    assert("optimized"@.len() == 9);
    assert("full_output"@.len() == 11);
    assert("safe"@.len() == 4);
    assert("static"@.len() == 6);
}

/// The label of a variant that is not persistent is a plain text.
proof fn label_is_plain(variant: Variant)
    requires
        !variant.persistent(),
    ensures
        jit::plain(variant.label_text()),
{
    reveal_strlit("optimized");
    reveal_strlit("full_output");
    reveal_strlit("safe");
    reveal_strlit("static");
}

/// The const-generic arguments are plain texts.
proof fn generics_are_plain(
    variant: Variant,
    m: nat,
    n: nat,
    k: nat,
    bm: int,
    bn: int,
    bk: int,
)
    requires
        !variant.persistent(),
    ensures
        ({
            let g = variant_generics(variant, m, n, k, bm, bn, bk, 1, false);
            &&& g.len() == (if variant.static_shape() {
                7int
            } else {
                4int
            })
            &&& forall|i: int| 0 <= i < g.len() ==> jit::plain(#[trigger] g[i])
        }),
{
    reveal_strlit("f16");
    text::dec_text_digits(m);
    text::dec_text_digits(n);
    text::dec_text_digits(k);
    text::int_text_digits(bm);
    text::int_text_digits(bn);
    text::int_text_digits(bk);
}

/// The most elements of an output that is checked.
pub const MAX_CHECK_ELEMENTS: usize = 16777216;

/// The places of an output that are checked: the corners and the middle.
pub open spec fn is_checked(m: int, n: int, i: int) -> bool {
    let less_one = |x: int| if x >= 1 {
        x - 1
    } else {
        0
    };
    ||| i == 0
    ||| i == less_one(n)
    ||| i == (m / 2) * n + n / 2
    ||| i == less_one(m) * n
    ||| i == less_one(m * n)
}

/// Inserts a number into an ascending list, once.
fn insert_ascending(v: &mut Vec<usize>, x: usize)
    requires
        forall|i: int, j: int| 0 <= i < j < old(v)@.len() ==> old(v)@[i] < old(v)@[j],
    ensures
        forall|i: int, j: int| 0 <= i < j < final(v)@.len() ==> final(v)@[i] < final(v)@[j],
        forall|y: usize| #[trigger] final(v)@.contains(y) <==> old(v)@.contains(y) || y == x,
        final(v)@.len() <= old(v)@.len() + 1,
{
    let ghost before = v@;
    let mut i: usize = 0;
    while i < v.len() && v[i] < x
        invariant
            i <= v@.len(),
            v@ == before,
            forall|j: int| 0 <= j < i ==> v@[j] < x,
        decreases v@.len() - i,
    {
        i = i + 1;
    }
    if i < v.len() && v[i] == x {
        assert(before[i as int] == x);
        return;
    }
    v.insert(i, x);
    proof {
        assert(v@ == before.insert(i as int, x));
        assert forall|y: usize| #[trigger] v@.contains(y) <==> before.contains(y) || y == x by {
            if before.contains(y) {
                let j = choose|j: int| 0 <= j < before.len() && before[j] == y;
                if j < i {
                    assert(v@[j] == y);
                } else {
                    assert(v@[j + 1] == y);
                }
            }
            assert(v@[i as int] == x);
            if v@.contains(y) {
                let j = choose|j: int| 0 <= j < v@.len() && v@[j] == y;
                if j < i {
                    assert(before[j] == y);
                } else if j > i {
                    assert(before[j - 1] == y);
                }
            }
        }
    }
}

/// The places of an output that are checked, ascending, or none where the output is
/// too large for a check.
pub fn check_positions(m: usize, n: usize) -> (r: Option<Vec<usize>>)
    requires
        m * n <= usize::MAX,
    ensures
        match r {
            None => m * n > MAX_CHECK_ELEMENTS,
            Some(v) => {
                &&& m * n <= MAX_CHECK_ELEMENTS
                &&& forall|i: int, j: int| 0 <= i < j < v@.len() ==> v@[i] < v@[j]
                &&& forall|x: usize| v@.contains(x) <==> is_checked(m as int, n as int, x as int)
            },
        },
{
    let total: usize = m * n;
    if total > MAX_CHECK_ELEMENTS {
        return None;
    }
    let n_last: usize = if n >= 1 {
        n - 1
    } else {
        0
    };
    let m_last: usize = if m >= 1 {
        m - 1
    } else {
        0
    };
    let t_last: usize = if total >= 1 {
        total - 1
    } else {
        0
    };
    proof {
        check_products(m as int, n as int);
    }
    let mid: usize = (m / 2) * n + (n / 2);
    let low: usize = m_last * n;
    let mut v: Vec<usize> = Vec::new();
    insert_ascending(&mut v, 0);
    insert_ascending(&mut v, n_last);
    insert_ascending(&mut v, mid);
    insert_ascending(&mut v, low);
    insert_ascending(&mut v, t_last);
    Some(v)
}

/// The products that name the checked places are no greater than the number of
/// elements.
proof fn check_products(m: int, n: int)
    requires
        0 <= m,
        0 <= n,
    ensures
        0 <= (m / 2) * n,
        (m / 2) * n + n / 2 <= greater(m * n, n),
        0 <= (m - 1) * n || m == 0,
        (m - 1) * n <= m * n,
        0 <= m * n,
{
    assert(0 <= (m / 2) * n && (m / 2) * n <= m * n && (m - 1) * n <= m * n && 0 <= m * n)
        by (nonlinear_arith)
        requires
            0 <= m,
            0 <= n,
    ;
    assert(m == 0 || 0 <= (m - 1) * n) by (nonlinear_arith)
        requires
            0 <= m,
            0 <= n,
    ;
    if 0 < m * n {
        assert((m / 2) * n + n / 2 < m * n) by (nonlinear_arith)
            requires
                0 < m * n,
                0 <= m,
                0 <= n,
        ;
    } else {
        assert((m / 2) * n == 0) by (nonlinear_arith)
            requires
                m * n == 0,
                0 <= m,
                0 <= n,
        ;
    }
}

/// The places of an output that are checked are places of it.
pub proof fn checked_places_are_inside(m: int, n: int, i: int)
    requires
        0 < m,
        0 < n,
        is_checked(m, n, i),
    ensures
        0 <= i < m * n,
{
    check_products(m, n);
    assert(n <= m * n && (m / 2) * n + n / 2 < m * n && (m - 1) * n < m * n) by (nonlinear_arith)
        requires
            0 < m,
            0 < n,
    ;
}

/// One run of a sweep: a shape and a tile.
#[derive(Clone, Copy, Debug, PartialEq, Eq, Structural)]
pub struct SweepEntry {
    pub size: usize,
    pub bm: i32,
    pub bn: i32,
    pub bk: i32,
}

/// The runs of a sweep over square shapes, from 1024 to 32768 and each twice the one
/// before. A persistent sweep has the tiles of the persistent configuration.
pub open spec fn sweep_entries(persistent: bool) -> Seq<SweepEntry> {
    if persistent {
        seq![
            SweepEntry { size: 1024, bm: 128, bn: 512, bk: 64 },
            SweepEntry { size: 2048, bm: 256, bn: 256, bk: 64 },
            SweepEntry { size: 4096, bm: 256, bn: 256, bk: 64 },
            SweepEntry { size: 8192, bm: 256, bn: 256, bk: 64 },
            SweepEntry { size: 16384, bm: 256, bn: 256, bk: 64 },
            SweepEntry { size: 32768, bm: 256, bn: 256, bk: 64 },
        ]
    } else {
        seq![
            SweepEntry { size: 1024, bm: 128, bn: 128, bk: 64 },
            SweepEntry { size: 2048, bm: 256, bn: 256, bk: 128 },
            SweepEntry { size: 4096, bm: 128, bn: 256, bk: 128 },
            SweepEntry { size: 8192, bm: 128, bn: 256, bk: 128 },
            SweepEntry { size: 16384, bm: 256, bn: 256, bk: 128 },
            SweepEntry { size: 32768, bm: 128, bn: 256, bk: 128 },
        ]
    }
}

/// A run of a persistent sweep.
fn persistent_entry(size: usize) -> (e: SweepEntry)
    ensures
        e == (SweepEntry {
            size,
            bm: default_config(size as int).bm,
            bn: default_config(size as int).bn,
            bk: default_config(size as int).bk,
        }),
{
    let (bm, bn, bk) = persistent_default_config(size).tile();
    SweepEntry { size, bm, bn, bk }
}

/// The runs of a sweep.
pub fn sweep(persistent: bool) -> (v: Vec<SweepEntry>)
    ensures
        v@ == sweep_entries(persistent),
{
    let v: Vec<SweepEntry> = if persistent {
        vec![
            persistent_entry(1024),
            persistent_entry(2048),
            persistent_entry(4096),
            persistent_entry(8192),
            persistent_entry(16384),
            persistent_entry(32768),
        ]
    } else {
        vec![
            SweepEntry { size: 1024, bm: 128, bn: 128, bk: 64 },
            SweepEntry { size: 2048, bm: 256, bn: 256, bk: 128 },
            SweepEntry { size: 4096, bm: 128, bn: 256, bk: 128 },
            SweepEntry { size: 8192, bm: 128, bn: 256, bk: 128 },
            SweepEntry { size: 16384, bm: 256, bn: 256, bk: 128 },
            SweepEntry { size: 32768, bm: 128, bn: 256, bk: 128 },
        ]
    };
    assert(v@ =~= sweep_entries(persistent));
    v
}

/// The runs that measure compilation.
pub open spec fn jit_entries() -> Seq<SweepEntry> {
    seq![
        SweepEntry { size: 128, bm: 128, bn: 128, bk: 64 },
        SweepEntry { size: 256, bm: 128, bn: 128, bk: 64 },
        SweepEntry { size: 512, bm: 128, bn: 128, bk: 64 },
        SweepEntry { size: 1024, bm: 128, bn: 128, bk: 64 },
        SweepEntry { size: 2048, bm: 256, bn: 256, bk: 128 },
        SweepEntry { size: 4096, bm: 128, bn: 256, bk: 128 },
        SweepEntry { size: 8192, bm: 128, bn: 256, bk: 128 },
        SweepEntry { size: 16384, bm: 256, bn: 256, bk: 128 },
        SweepEntry { size: 32768, bm: 128, bn: 256, bk: 128 },
    ]
}

/// The runs that measure compilation.
pub fn jit_sweep() -> (v: Vec<SweepEntry>)
    ensures
        v@ == jit_entries(),
{
    let v: Vec<SweepEntry> = vec![
        SweepEntry { size: 128, bm: 128, bn: 128, bk: 64 },
        SweepEntry { size: 256, bm: 128, bn: 128, bk: 64 },
        SweepEntry { size: 512, bm: 128, bn: 128, bk: 64 },
        SweepEntry { size: 1024, bm: 128, bn: 128, bk: 64 },
        SweepEntry { size: 2048, bm: 256, bn: 256, bk: 128 },
        SweepEntry { size: 4096, bm: 128, bn: 256, bk: 128 },
        SweepEntry { size: 8192, bm: 128, bn: 256, bk: 128 },
        SweepEntry { size: 16384, bm: 256, bn: 256, bk: 128 },
        SweepEntry { size: 32768, bm: 128, bn: 256, bk: 128 },
    ];
    assert(v@ =~= jit_entries());
    v
}

/// The runs of the sweeps are not refused.
pub proof fn sweeps_are_accepted(persistent: bool, i: int)
    ensures
        0 <= i < sweep_entries(persistent).len() ==> {
            let e = sweep_entries(persistent)[i];
            config_refusal(
                e.size as nat,
                e.size as nat,
                e.size as nat,
                e.bm as int,
                e.bn as int,
                e.bk as int,
            ) is None
        },
        0 <= i < jit_entries().len() ==> {
            let e = jit_entries()[i];
            config_refusal(
                e.size as nat,
                e.size as nat,
                e.size as nat,
                e.bm as int,
                e.bn as int,
                e.bk as int,
            ) is None
        },
{
    if 0 <= i < sweep_entries(persistent).len() {
        assert(sweep_entries(persistent).contains(sweep_entries(persistent)[i]));
        tile_divides(sweep_entries(persistent)[i]);
    }
    if 0 <= i < jit_entries().len() {
        assert(jit_entries().contains(jit_entries()[i]));
        tile_divides(jit_entries()[i]);
    }
}

/// A tile of the sweeps divides the shape.
proof fn tile_divides(e: SweepEntry)
    requires
        sweep_entries(true).contains(e) || sweep_entries(false).contains(e)
            || jit_entries().contains(e),
    ensures
        e.bm == 128 || e.bm == 256,
        e.bn == 128 || e.bn == 256 || e.bn == 512,
        e.bk == 64 || e.bk == 128,
        e.size as int % e.bm as int == 0,
        e.size as int % e.bn as int == 0,
        e.size as int % e.bk as int == 0,
{
    let size = e.size as int;
    assert(size % 128 == 0);
    assert(size % 64 == 0);
    if e.bm == 256 || e.bn == 256 {
        assert(size % 256 == 0);
    }
    if e.bn == 512 {
        assert(size % 512 == 0);
    }
}

/// A sweep begins at 1024 and has six runs, each of twice the size of the one before, so that
/// the last has 32768; the runs that measure compilation begin at 128 and are nine.
pub proof fn sweeps_double_from_run_to_run(persistent: bool, i: int)
    ensures
        sweep_entries(persistent).len() == 6,
        sweep_entries(persistent)[0].size == 1024,
        sweep_entries(persistent).last().size == 32768,
        0 < i < 6 ==> sweep_entries(persistent)[i].size == 2 * sweep_entries(persistent)[i
            - 1].size,
        jit_entries().len() == 9,
        jit_entries()[0].size == 128,
        0 < i < 9 ==> jit_entries()[i].size == 2 * jit_entries()[i - 1].size,
{
}

/// The tiles of a persistent sweep are those of the default configuration of their size. Those
/// of another sweep go by the size as well, and the runs that measure compilation have the
/// same, and below the first size the one of the first.
pub proof fn tiles_go_by_the_size(i: int)
    ensures
        0 <= i < 6 ==> {
            let e = sweep_entries(true)[i];
            let c = default_config(e.size as int);
            e.bm == c.bm && e.bn == c.bn && e.bk == c.bk
        },
        0 <= i < 6 ==> {
            let e = sweep_entries(false)[i];
            &&& e.bm == (if e.size == 2048 || e.size == 16384 {
                256i32
            } else {
                128i32
            })
            &&& e.bn == (if e.size == 1024 {
                128i32
            } else {
                256i32
            })
            &&& e.bk == (if e.size == 1024 {
                64i32
            } else {
                128i32
            })
        },
        jit_entries().skip(3) == sweep_entries(false),
        0 <= i < 3 ==> {
            let e = jit_entries()[i];
            let first = sweep_entries(false)[0];
            e.bm == first.bm && e.bn == first.bn && e.bk == first.bk
        },
{
    assert(jit_entries().skip(3) =~= sweep_entries(false));
}

/// The default configuration of a persistent run: up to a size of 1024 wide tiles and clusters
/// of four, above square ones and clusters of two; always one program at a time on a
/// multiprocessor, groups of eight rows, and as many programs as the device holds.
pub proof fn defaults_go_by_the_size(size: int)
    ensures
        ({
            let c = default_config(size);
            &&& c.bk == 64 && c.occupancy == 1 && c.group_size_m == 8 && c.swizzle
            &&& c.num_programs is None
            &&& size <= 1024 <==> c.bm != c.bn
            &&& size <= 1024 ==> c.bm == 128 && c.bn == 512
            &&& size > 1024 ==> c.bm == 256 && c.bn == 256
            &&& c.num_cta_in_cga == (if size <= 1024 {
                4i32
            } else {
                2i32
            })
        }),
{
}

/// A text with another at its end.
pub open spec fn has_suffix(s: Seq<char>, suffix: Seq<char>) -> bool {
    suffix.len() <= s.len() && s.skip(s.len() - suffix.len()) == suffix
}

/// The label of a variant says what it does: it begins with `persistent` exactly where a fixed
/// number of programs walks over the output, ends with `static` exactly where the shapes are
/// arguments, and holds `raw` behind `persistent_` exactly where a raw pointer is written.
pub proof fn labels_say_what_variants_do(v: Variant)
    ensures
        v.persistent() <==> v.label_text().len() > 10 && v.label_text().take(10)
            == "persistent"@,
        v.static_shape() <==> has_suffix(v.label_text(), "static"@),
        v.raw() <==> v.label_text().len() >= 14 && v.label_text().take(14) == "persistent_raw"@,
        v == Variant::GemmSafe || v == Variant::GemmSafeIr || v == Variant::GemmPersistentSafe
            <==> has_suffix(v.label_text(), "safe"@),
        v == Variant::GemmFullOutput || v == Variant::GemmFullOutputIr <==> v.label_text()
            == "full_output"@,
        v == Variant::Gemm || v == Variant::GemmIr <==> v.label_text() == "optimized"@,
        v.mapped() <==> v.persistent() && !v.raw(),
{
    reveal_strlit("persistent");
    reveal_strlit("static");
    reveal_strlit("safe");
    reveal_strlit("persistent_raw");
    reveal_strlit("full_output");
    reveal_strlit("optimized");
    reveal_strlit("persistent_optimized");
    reveal_strlit("persistent_unchecked");
    reveal_strlit("persistent_raw_asserts");
    reveal_strlit("persistent_mapped_index");
    reveal_strlit("persistent_iter_rawloads");
    reveal_strlit("persistent_safe");
    reveal_strlit("persistent_static");
    let l = v.label_text();
    if v.persistent() {
        assert(l.take(10) =~= "persistent"@);
    } else if l.len() > 10 {
        assert(l.take(10)[0] == l[0]);
    }
    if v.static_shape() {
        assert(l.skip(l.len() - 6) =~= "static"@);
    } else if l.len() >= 6 {
        assert(l.skip(l.len() - 6)[3] == l[l.len() - 3]);
        assert(l.skip(l.len() - 6)[5] == l[l.len() - 1]);
        assert(l.skip(l.len() - 6)[4] == l[l.len() - 2]);
    }
    if v.raw() {
        assert(l.take(14) =~= "persistent_raw"@);
    } else if l.len() >= 14 {
        assert(l.take(14)[11] == l[11]);
        assert(l.take(14)[12] == l[12]);
    }
    if v == Variant::GemmSafe || v == Variant::GemmSafeIr || v == Variant::GemmPersistentSafe {
        assert(l.skip(l.len() - 4) =~= "safe"@);
    } else {
        assert(l.skip(l.len() - 4)[2] == l[l.len() - 2]);
        assert(l.skip(l.len() - 4)[3] == l[l.len() - 1]);
        assert(l.skip(l.len() - 4)[0] == l[l.len() - 4]);
    }
    assert(v.label_text() == "full_output"@ ==> l[0] == 'f');
    assert(v.label_text() == "optimized"@ ==> l[0] == 'o');
}

/// The entry point of a variant has its label in its name: `gemm` alone where it is the plain
/// one, `gemm_` and the label elsewhere. The persistent variant that is optimized and the one
/// that checks its accesses have one entry point. The entry point of a variant that prints
/// ends in `_ir`, and is else that of the one that does not.
pub proof fn entries_are_named_by_their_labels(v: Variant)
    ensures
        Variant::Gemm.entry_text() == "gemm"@,
        Variant::GemmPersistent.entry_text() == "gemm_persistent"@,
        Variant::GemmPersistentSafe.entry_text() == "gemm_persistent"@,
        !v.prints() && v != Variant::Gemm && v != Variant::GemmPersistent && v
            != Variant::GemmPersistentSafe ==> v.entry_text() == "gemm_"@ + v.label_text(),
        v.prints() && v != Variant::GemmIr ==> v.entry_text() == "gemm_"@ + v.label_text()
            + "_ir"@,
        Variant::GemmIr.entry_text() == "gemm_ir"@,
        v.prints() <==> has_suffix(v.entry_text(), "_ir"@),
{
    reveal_strlit("gemm_");
    reveal_strlit("_ir");
    reveal_strlit("gemm");
    reveal_strlit("gemm_ir");
    reveal_strlit("gemm_persistent");
    reveal_strlit("full_output");
    reveal_strlit("gemm_full_output");
    reveal_strlit("gemm_full_output_ir");
    reveal_strlit("safe");
    reveal_strlit("gemm_safe");
    reveal_strlit("gemm_safe_ir");
    reveal_strlit("static");
    reveal_strlit("gemm_static");
    reveal_strlit("gemm_static_ir");
    reveal_strlit("persistent_unchecked");
    reveal_strlit("gemm_persistent_unchecked");
    reveal_strlit("persistent_raw");
    reveal_strlit("gemm_persistent_raw");
    reveal_strlit("persistent_raw_asserts");
    reveal_strlit("gemm_persistent_raw_asserts");
    reveal_strlit("persistent_mapped_index");
    reveal_strlit("gemm_persistent_mapped_index");
    reveal_strlit("persistent_iter_rawloads");
    reveal_strlit("gemm_persistent_iter_rawloads");
    reveal_strlit("persistent_static");
    reveal_strlit("gemm_persistent_static");
    let e = v.entry_text();
    if v.prints() {
        assert(e.skip(e.len() - 3) =~= "_ir"@);
        if v != Variant::GemmIr {
            assert(e =~= "gemm_"@ + v.label_text() + "_ir"@);
        }
    } else {
        assert(e.skip(e.len() - 3)[2] == e[e.len() - 1]);
        if v != Variant::Gemm && v != Variant::GemmPersistent && v
            != Variant::GemmPersistentSafe {
            assert(e =~= "gemm_"@ + v.label_text());
        }
    }
}

/// The flags that select a variant, where they are not refused: with `--static` the static one
/// and with `--safe` the one that checks, each persistent or not as `--persistent` says, and
/// without any the plain one.
pub proof fn flags_select_by_name(f: Flags)
    requires
        refusal(f) is None,
    ensures
        selected(f) == Variant::GemmStatic <==> f.is_static && !f.is_persistent,
        selected(f) == Variant::GemmPersistentStatic <==> f.is_static && f.is_persistent,
        selected(f) == Variant::GemmSafe <==> f.is_safe && !f.is_persistent,
        selected(f) == Variant::GemmPersistentSafe <==> f.is_safe && f.is_persistent,
        selected(f) == Variant::Gemm <==> !f.is_persistent && !f.is_static && !f.is_safe
            && !f.is_full_output,
        selected(f) == Variant::GemmPersistent <==> f.is_persistent && !f.is_static && !f.is_safe
            && !f.is_raw_pointer && !f.is_raw_asserts && !f.is_mapped_index && !f.is_iter_rawloads
            && !f.is_unchecked_mapped,
{
}

/// At most one of two flags is set.
pub open spec fn exclusive(a: bool, b: bool) -> bool {
    !(a && b)
}

/// Flags are accepted exactly where no two of them exclude each other and none is without
/// the one that it belongs to.
pub proof fn which_flags_are_accepted(f: Flags)
    ensures
        refusal(f) is None <==> {
            let diagnostics = seq![
                f.is_raw_pointer,
                f.is_raw_asserts,
                f.is_mapped_index,
                f.is_iter_rawloads,
            ];
            let kinds = seq![f.is_safe, f.is_static, f.is_full_output, f.is_unchecked_mapped];
            // Of the kinds, and of the diagnostics, at most one.
            &&& forall|i: int, j: int|
                0 <= i < j < 4 ==> exclusive(#[trigger] kinds[i], #[trigger] kinds[j])
            &&& forall|i: int, j: int|
                0 <= i < j < 4 ==> exclusive(#[trigger] diagnostics[i], #[trigger] diagnostics[j])
            // A diagnostic is a kind of its own.
            &&& forall|i: int, j: int|
                0 <= i < 4 && 0 <= j < 4 && j != 2 ==> exclusive(
                    #[trigger] diagnostics[i],
                    #[trigger] kinds[j],
                )
            // What needs persistent programs.
            &&& forall|i: int| 0 <= i < 4 && #[trigger] diagnostics[i] ==> f.is_persistent
            &&& f.is_unchecked_mapped || f.force_swizzle || f.force_no_swizzle ==> f.is_persistent
            &&& exclusive(f.is_persistent, f.is_full_output)
            &&& exclusive(f.force_swizzle, f.force_no_swizzle)
            // What does not go with printing, compiling and tuning.
            &&& exclusive(f.is_persistent, f.dump_ir)
            &&& exclusive(f.jit_mode, f.dump_ir || f.is_persistent || f.is_safe || f.is_static
                || f.is_full_output)
            &&& exclusive(f.tune_one, f.jit_mode || f.dump_ir)
        },
{
    let diagnostics = seq![
        f.is_raw_pointer,
        f.is_raw_asserts,
        f.is_mapped_index,
        f.is_iter_rawloads,
    ];
    let kinds = seq![f.is_safe, f.is_static, f.is_full_output, f.is_unchecked_mapped];
    assert(kinds[0] == f.is_safe && kinds[1] == f.is_static && kinds[2] == f.is_full_output
        && kinds[3] == f.is_unchecked_mapped);
    assert(diagnostics[0] == f.is_raw_pointer && diagnostics[1] == f.is_raw_asserts
        && diagnostics[2] == f.is_mapped_index && diagnostics[3] == f.is_iter_rawloads);
}

/// The first of a list of reasons that holds.
pub open spec fn first_reason(reasons: Seq<(bool, Seq<char>)>) -> Option<Seq<char>>
    decreases reasons.len(),
{
    if reasons.len() == 0 {
        None
    } else if reasons[0].0 {
        Some(reasons[0].1)
    } else {
        first_reason(reasons.skip(1))
    }
}

/// The reasons for a refusal, in the order in which they are looked at.
pub proof fn refusals_name_the_first_reason(f: Flags)
    ensures
        refusal(f) == first_reason(
            seq![
                (
                    more_than_one4(f.is_safe, f.is_static, f.is_full_output, f.is_unchecked_mapped),
                    "--safe, --static, --full-output, and --unchecked-mapped are mutually exclusive"@,
                ),
                (
                    f.is_persistent && f.is_full_output,
                    "--persistent and --full-output are mutually exclusive"@,
                ),
                (
                    f.is_raw_pointer && !f.is_persistent,
                    "--raw-pointer only applies with --persistent"@,
                ),
                (
                    more_than_one4(
                        f.is_raw_pointer,
                        f.is_raw_asserts,
                        f.is_mapped_index,
                        f.is_iter_rawloads,
                    ),
                    "--raw-pointer, --raw-asserts, --mapped-index, and --iter-rawloads are mutually exclusive"@,
                ),
                (
                    (f.is_raw_asserts || f.is_mapped_index || f.is_iter_rawloads)
                        && !f.is_persistent,
                    "persistent diagnostic variants only apply with --persistent"@,
                ),
                (
                    (f.is_raw_pointer || f.is_raw_asserts || f.is_mapped_index
                        || f.is_iter_rawloads) && (f.is_static || f.is_safe
                        || f.is_unchecked_mapped),
                    "persistent diagnostic variants are already explicit; do not combine them with --safe/--static/--unchecked-mapped"@,
                ),
                (
                    f.is_unchecked_mapped && !f.is_persistent,
                    "--unchecked-mapped only applies with --persistent"@,
                ),
                (
                    f.is_unchecked_mapped && f.is_raw_pointer,
                    "--unchecked-mapped compares the mapped path; do not combine it with --raw-pointer"@,
                ),
                (
                    f.force_swizzle && f.force_no_swizzle,
                    "--swizzle and --no-swizzle are mutually exclusive"@,
                ),
                (
                    (f.force_swizzle || f.force_no_swizzle) && !f.is_persistent,
                    "--swizzle/--no-swizzle only apply with --persistent"@,
                ),
                (
                    f.is_persistent && f.dump_ir,
                    "--persistent does not currently have an IR-dumping twin"@,
                ),
                (
                    f.jit_mode && (f.is_safe || f.is_static || f.is_full_output || f.is_persistent
                        || f.dump_ir),
                    "--jit runs all variants; --safe/--static/--full-output/--persistent/--dump-ir not applicable"@,
                ),
                (
                    f.tune_one && (f.jit_mode || f.dump_ir),
                    "--tune-one is mutually exclusive with --jit/--dump-ir"@,
                ),
            ],
        ),
{
    reveal_with_fuel(first_reason, 14);
}

/// A shape and a tile are accepted exactly where the tile has positive extents and the shape
/// consists of whole tiles. A tile that is not positive is the first thing that is refused.
pub proof fn accepted_shapes_are_whole_tiles(m: nat, n: nat, k: nat, bm: int, bn: int, bk: int)
    ensures
        config_refusal(m, n, k, bm, bn, bk) is None <==> {
            &&& bm > 0 && bn > 0 && bk > 0
            &&& m == (m as int / bm) * bm
            &&& n == (n as int / bn) * bn
            &&& k == (k as int / bk) * bk
        },
        bm <= 0 || bn <= 0 || bk <= 0 ==> config_refusal(m, n, k, bm, bn, bk) == Some(
            "tile dimensions must be positive"@,
        ),
        bm > 0 && bn > 0 && bk > 0 ==> (config_refusal(m, n, k, bm, bn, bk) matches Some(t) ==> t
            == "shape ("@ + text::dec_text(m) + ","@ + text::dec_text(n) + ","@ + text::dec_text(k)
            + ") must be divisible by tile ("@ + text::dec_text(bm as nat) + ","@
            + text::dec_text(bn as nat) + ","@ + text::dec_text(bk as nat) + ")"@),
{
    if bm > 0 && bn > 0 && bk > 0 {
        lemma_fundamental_div_mod(m as int, bm);
        lemma_fundamental_div_mod(n as int, bn);
        lemma_fundamental_div_mod(k as int, bk);
        lemma_mul_is_commutative(bm, m as int / bm);
        lemma_mul_is_commutative(bn, n as int / bn);
        lemma_mul_is_commutative(bk, k as int / bk);
        if let Some(t) = config_refusal(m, n, k, bm, bn, bk) {
            assert(t =~= "shape ("@ + text::dec_text(m) + ","@ + text::dec_text(n) + ","@
                + text::dec_text(k) + ") must be divisible by tile ("@ + text::dec_text(bm as nat)
                + ","@ + text::dec_text(bn as nat) + ","@ + text::dec_text(bk as nat) + ")"@);
        }
    }
}

/// The number of output tiles is that of the rows of tiles times that of the columns, each
/// just enough to cover the output. The programs are as many as there are tiles or whole
/// clusters of multiprocessors, whichever are fewer, but at least one, for each that a
/// multiprocessor holds at a time.
pub proof fn programs_fill_the_device(
    m: int,
    n: int,
    bm: int,
    bn: int,
    num_sms: int,
    num_cta_in_cga: int,
    occupancy: int,
    rows: int,
    cols: int,
)
    requires
        0 < m,
        0 < n,
        0 < bm,
        0 < bn,
        0 < num_cta_in_cga <= num_sms,
        0 < occupancy,
        m <= rows * bm < m + bm,
        n <= cols * bn < n + bn,
    ensures
        total_tiles(m, n, bm, bn) == rows * cols,
        ({
            let p = programs(rows * cols, num_sms, num_cta_in_cga, occupancy);
            let clusters = num_sms / num_cta_in_cga;
            &&& clusters * num_cta_in_cga <= num_sms < (clusters + 1) * num_cta_in_cga
            &&& p == clusters * occupancy || p == (rows * cols) * occupancy
            &&& p <= clusters * occupancy && p <= (rows * cols) * occupancy
        }),
{
    covering_count(m, bm, rows);
    covering_count(n, bn, cols);
    assert(rows > 0) by (nonlinear_arith)
        requires
            0 < rows * bm,
            0 < bm,
    ;
    assert(cols > 0) by (nonlinear_arith)
        requires
            0 < cols * bn,
            0 < bn,
    ;
    assert(rows * cols >= 1) by (nonlinear_arith)
        requires
            rows >= 1,
            cols >= 1,
    ;
    let clusters = num_sms / num_cta_in_cga;
    lemma_fundamental_div_mod(num_sms, num_cta_in_cga);
    lemma_mod_bound(num_sms, num_cta_in_cga);
    assert(clusters * num_cta_in_cga <= num_sms < (clusters + 1) * num_cta_in_cga)
        by (nonlinear_arith)
        requires
            num_sms == num_cta_in_cga * clusters + num_sms % num_cta_in_cga,
            0 <= num_sms % num_cta_in_cga < num_cta_in_cga,
    ;
    assert(clusters >= 1) by (nonlinear_arith)
        requires
            num_sms < (clusters + 1) * num_cta_in_cga,
            0 < num_cta_in_cga <= num_sms,
    ;
    let tiles = rows * cols;
    assert(clusters <= tiles ==> clusters * occupancy <= tiles * occupancy) by (nonlinear_arith)
        requires
            0 < occupancy,
    ;
    assert(tiles <= clusters ==> tiles * occupancy <= clusters * occupancy) by (nonlinear_arith)
        requires
            0 < occupancy,
    ;
}

/// There is one number of tiles that just covers an extent.
proof fn covering_count(a: int, b: int, n: int)
    requires
        0 < b,
        a <= n * b < a + b,
    ensures
        (a + b - 1) / b == n,
{
    lemma_fundamental_div_mod_converse(a + b - 1, b, n, a + b - 1 - n * b);
}

/// The arguments of a variant in their order: the element type, then the rows, columns and
/// depth of the tile; then those of the shape, exactly where it is static; then, where the
/// output is mapped, the rows and columns of the map, and where it is written through a raw
/// pointer, whether the tiles run in groups.
pub proof fn arguments_stand_in_order(
    variant: Variant,
    m: nat,
    n: nat,
    k: nat,
    bm: int,
    bn: int,
    bk: int,
    group_size_m: int,
    swizzle: bool,
)
    ensures
        ({
            let g = variant_generics(variant, m, n, k, bm, bn, bk, group_size_m, swizzle);
            let shape = if variant.static_shape() {
                3int
            } else {
                0int
            };
            let last = if variant.mapped() {
                2int
            } else if variant.raw() {
                1int
            } else {
                0int
            };
            let rows = if !swizzle || group_size_m < 1 {
                1int
            } else {
                group_size_m
            };
            &&& g.len() == 4 + shape + last
            &&& g[0] == "f16"@
            &&& g[1] == text::int_text(bm) && g[2] == text::int_text(bn) && g[3] == text::int_text(
                bk,
            )
            &&& shape == 3 ==> g[4] == text::dec_text(m) && g[5] == text::dec_text(n) && g[6]
                == text::dec_text(k)
            &&& last == 2 ==> g[4 + shape] == text::int_text(rows) && g[5 + shape]
                == text::int_text(1)
            &&& last == 1 ==> g[4 + shape] == text::int_text(
                if swizzle {
                    1int
                } else {
                    0int
                },
            )
        }),
{
    reveal_strlit("0");
    reveal_strlit("1");
    assert(text::int_text(1) =~= "1"@);
    assert(text::int_text(0) =~= "0"@);
}

/// The places that are checked are the four corners of the output and its middle.
pub proof fn corners_and_middle_are_checked(m: int, n: int, row: int, col: int)
    requires
        0 < m,
        0 < n,
        0 <= row < m,
        0 <= col < n,
    ensures
        is_checked(m, n, row * n + col) <==> {
            ||| row == 0 && col == 0
            ||| row == 0 && col == n - 1
            ||| row == m - 1 && col == 0
            ||| row == m - 1 && col == n - 1
            ||| row == m / 2 && col == n / 2
        },
{
    place_is_known(row, col, 0, 0, n);
    place_is_known(row, col, 0, n - 1, n);
    place_is_known(row, col, m - 1, 0, n);
    place_is_known(row, col, m - 1, n - 1, n);
    place_is_known(row, col, m / 2, n / 2, n);
    assert(0 * n == 0) by (nonlinear_arith);
    assert((m - 1) * n + (n - 1) == m * n - 1) by (nonlinear_arith);
    assert(m * n >= 1) by (nonlinear_arith)
        requires
            m >= 1,
            n >= 1,
    ;
}

/// The number of a place tells its row and its column.
proof fn place_is_known(r1: int, c1: int, r2: int, c2: int, n: int)
    requires
        0 <= c1 < n,
        0 <= c2 < n,
    ensures
        r1 * n + c1 == r2 * n + c2 <==> r1 == r2 && c1 == c2,
{
    lemma_fundamental_div_mod_converse(r1 * n + c1, n, r1, c1);
    lemma_fundamental_div_mod_converse(r2 * n + c2, n, r2, c2);
}

/// A hint that is there is reported as its number. One that is not is reported as the default
/// of a persistent variant, and as a matter of the entry point else.
pub proof fn hints_are_reported(v: i32, persistent: bool)
    ensures
        option_text(Some(v)) == text::int_text(v as int),
        option_text(None) == "default"@,
        effective_text(Some(v), persistent) == text::int_text(v as int),
        effective_text(None, true) == "default"@,
        effective_text(None, false) == "entry"@,
{
}
// ---- what the flags and the configuration decide ----

/// The order of the tiles that the flags ask for.
pub open spec fn asked_order(f: Flags) -> Option<bool> {
    if f.force_swizzle {
        Some(true)
    } else if f.force_no_swizzle {
        Some(false)
    } else {
        None
    }
}

/// The order of the tiles of a run, where that of the configuration is given.
pub open spec fn order_of(f: Flags, usual: bool) -> bool {
    match asked_order(f) {
        Some(b) => b,
        None => !f.is_persistent || usual,
    }
}

/// The flag for groups of tiles wins over the one against them, and either over the
/// configuration. Where neither is given, the configuration decides of a persistent run, and
/// another one goes by groups.
pub proof fn flags_decide_the_order(f: Flags, usual: bool)
    ensures
        asked_order(f) is Some <==> f.force_swizzle || f.force_no_swizzle,
        f.force_swizzle ==> asked_order(f) == Some(true) && order_of(f, usual),
        f.force_no_swizzle && !f.force_swizzle ==> asked_order(f) == Some(false) && !order_of(
            f,
            usual,
        ),
        asked_order(f) is Some ==> order_of(f, usual) == order_of(f, !usual),
        asked_order(f) is None && f.is_persistent ==> order_of(f, usual) == usual,
        asked_order(f) is None && !f.is_persistent ==> order_of(f, usual),
{
}

/// The tile of a tuning run that names none.
pub open spec fn tuned_tile(f: Flags, config: PersistentConfig) -> (i32, i32, i32) {
    if f.is_persistent {
        (config.bm, config.bn, config.bk)
    } else {
        (128, 256, 128)
    }
}

/// The number of rows of a group of tiles where the arguments name none.
pub open spec fn tuned_group(f: Flags, config: PersistentConfig) -> i32 {
    if f.is_persistent {
        config.group_size_m
    } else {
        8
    }
}

/// A persistent tuning run has the tile and the group of its configuration; another has the
/// tile of the largest size of the sweep, and the group of the default configuration, whatever
/// the configuration is.
pub proof fn tuning_goes_by_the_configuration(f: Flags, config: PersistentConfig, size: int)
    ensures
        f.is_persistent ==> {
            let (bm, bn, bk) = tuned_tile(f, config);
            bm == config.bm && bn == config.bn && bk == config.bk && tuned_group(f, config)
                == config.group_size_m
        },
        !f.is_persistent ==> {
            let (bm, bn, bk) = tuned_tile(f, config);
            let last = sweep_entries(false)[5];
            bm == last.bm && bn == last.bn && bk == last.bk && tuned_group(f, config)
                == default_config(size).group_size_m
        },
{
}

/// The hints with those of a configuration where they leave them open.
pub open spec fn completed(asked: HintConfig, config: PersistentConfig) -> HintConfig {
    HintConfig {
        num_cta_in_cga: Some(
            match asked.num_cta_in_cga {
                Some(v) => v,
                None => config.num_cta_in_cga,
            },
        ),
        occupancy: Some(
            match asked.occupancy {
                Some(v) => v,
                None => config.occupancy,
            },
        ),
        max_divisibility: asked.max_divisibility,
    }
}

/// The hints of a run.
pub open spec fn hints_of_run(f: Flags, asked: HintConfig, config: PersistentConfig) -> HintConfig {
    if f.is_persistent {
        completed(asked, config)
    } else {
        asked
    }
}

/// A hint that is asked for is given, in every run. A persistent run takes the cluster and the
/// occupancy of its configuration where they are not asked for, and so leaves neither open;
/// another run adds nothing, and no run adds a divisibility.
pub proof fn hints_that_are_asked_for_are_given(
    f: Flags,
    asked: HintConfig,
    config: PersistentConfig,
)
    ensures
        ({
            let h = hints_of_run(f, asked, config);
            &&& asked.num_cta_in_cga is Some ==> h.num_cta_in_cga == asked.num_cta_in_cga
            &&& asked.occupancy is Some ==> h.occupancy == asked.occupancy
            &&& h.max_divisibility == asked.max_divisibility
            &&& f.is_persistent ==> h.num_cta_in_cga is Some && h.occupancy is Some && h
                == completed(asked, config)
            &&& f.is_persistent && asked.num_cta_in_cga is None ==> h.num_cta_in_cga->0
                == config.num_cta_in_cga
            &&& f.is_persistent && asked.occupancy is None ==> h.occupancy->0 == config.occupancy
            &&& !f.is_persistent ==> h == asked
            &&& hints_of_run(f, h, config) == h
        }),
{
}

/// The grid of a run: the one that was asked for, or else that of the tiles of the output.
pub open spec fn grid_of_run(
    asked: Option<(u32, u32, u32)>,
    output: (u32, u32, u32),
) -> (u32, u32, u32) {
    match asked {
        Some(a) => a,
        None => output,
    }
}

/// The shape of the map of the output tiles, and the number of programs that share them.
pub open spec fn map_of_launch(
    variant: Variant,
    run: (u32, u32, u32),
    group_size_m: i32,
    swizzle: bool,
) -> Option<(i32, i32, u32)> {
    if !variant.mapped() {
        None
    } else if swizzle && group_size_m > 1 {
        Some((group_size_m, 1, run.0))
    } else {
        Some((1, 1, run.0))
    }
}

/// The grid that is given to a launch.
pub open spec fn grid_of_launch(
    variant: Variant,
    run: (u32, u32, u32),
    output: (u32, u32, u32),
) -> Option<(u32, u32, u32)> {
    match variant {
        Variant::GemmPersistentRaw | Variant::GemmPersistentRawAsserts => Some(run),
        Variant::GemmFullOutput | Variant::GemmFullOutputIr => Some(output),
        _ => None,
    }
}

/// The grid that a kernel is compiled for.
pub open spec fn shape_of_launch(
    variant: Variant,
    run: (u32, u32, u32),
    output: (u32, u32, u32),
) -> Option<(u32, u32, u32)> {
    match variant {
        Variant::GemmPersistentStatic => Some(run),
        Variant::GemmStatic | Variant::GemmStaticIr => Some(output),
        _ => None,
    }
}

/// Where a fixed number of programs walks over the output, the kernel gets the grid of the run:
/// in its map, as the grid of its launch, or as the one it is compiled for. Elsewhere the grid
/// that was asked for is of no matter. A launch gets no grid where the output is partitioned,
/// and a kernel is compiled for one exactly where its shapes are static. A map is one tile
/// wide, and a group of tiles high where the order is by groups of more than one.
pub proof fn launches_get_the_grid_of_the_run(
    variant: Variant,
    asked: Option<(u32, u32, u32)>,
    output: (u32, u32, u32),
    group_size_m: i32,
    swizzle: bool,
)
    ensures
        ({
            let run = grid_of_run(asked, output);
            let map = map_of_launch(variant, run, group_size_m, swizzle);
            let grid = grid_of_launch(variant, run, output);
            let shape = shape_of_launch(variant, run, output);
            &&& asked is Some ==> run == asked->0
            &&& asked is None ==> run == output
            &&& (map matches Some((m, n, programs)) ==> {
                &&& n == 1
                &&& programs == run.0
                &&& swizzle && group_size_m >= 1 ==> m == group_size_m
                &&& !swizzle || group_size_m <= 1 ==> m == 1
            })
            &&& map is Some <==> variant.persistent() && !variant.raw()
            &&& variant.persistent() && grid is Some ==> grid == Some(run)
            &&& variant.persistent() && shape is Some ==> shape == Some(run)
            &&& !variant.persistent() && grid is Some ==> grid == Some(output)
            &&& !variant.persistent() && shape is Some ==> shape == Some(output)
            &&& grid is Some <==> variant.raw() || variant.label_text() == "full_output"@
            &&& shape is Some <==> variant.static_shape()
        }),
{
    labels_say_what_variants_do(variant);
}

/// The launch grid of a tuning run.
pub open spec fn tuned_grid(
    f: Flags,
    asked: Option<i32>,
    configured: Option<u32>,
    tiles: int,
    num_sms: int,
    hints: HintConfig,
) -> Option<(u32, u32, u32)> {
    if !f.is_persistent {
        None
    } else {
        let count = match (asked, configured) {
            (Some(v), _) => greater(v as int, 1),
            (None, Some(count)) => count as int,
            (None, None) => programs(
                tiles,
                num_sms,
                match hints.num_cta_in_cga {
                    Some(v) => v as int,
                    None => 1,
                },
                match hints.occupancy {
                    Some(v) => v as int,
                    None => 1,
                },
            ),
        };
        Some((count as u32, 1, 1))
    }
}

/// A tuning run has a launch grid exactly where it is persistent, and it is one row: of as many
/// programs as asked for, but one at least; or else as configured; or else as fill the device,
/// with clusters of one and one program at a time where the hints leave these open.
pub proof fn tuned_grids_are_one_row(
    f: Flags,
    asked: Option<i32>,
    configured: Option<u32>,
    tiles: int,
    num_sms: int,
    hints: HintConfig,
)
    ensures
        ({
            let grid = tuned_grid(f, asked, configured, tiles, num_sms, hints);
            let ones = HintConfig {
                num_cta_in_cga: Some(
                    if hints.num_cta_in_cga is Some {
                        hints.num_cta_in_cga->0
                    } else {
                        1
                    },
                ),
                occupancy: Some(
                    if hints.occupancy is Some {
                        hints.occupancy->0
                    } else {
                        1
                    },
                ),
                max_divisibility: hints.max_divisibility,
            };
            &&& grid is Some <==> f.is_persistent
            &&& (grid matches Some((x, y, z)) ==> {
                &&& y == 1 && z == 1
                &&& asked is Some && asked->0 >= 1 ==> x == asked->0
                &&& asked is Some && asked->0 < 1 ==> x == 1
                &&& asked is None && configured is Some ==> x == configured->0
                &&& asked is None && configured is None ==> x == programs(
                    tiles,
                    num_sms,
                    ones.num_cta_in_cga->0 as int,
                    ones.occupancy->0 as int,
                ) as u32
            })
        }),
{
}
/// An output is checked where it has no more elements than one of 4096 by 4096.
pub proof fn outputs_are_checked_up_to_4096_squared()
    ensures
        MAX_CHECK_ELEMENTS == 4096 * 4096,
{
}

} // verus!
