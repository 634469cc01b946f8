//! The decisions of the element-wise benchmark.

use vstd::arithmetic::div_mod::*;
use vstd::arithmetic::mul::*;
use vstd::prelude::*;
use vstd::string::StringExecFns;

use crate::benchmarks::args;
use crate::benchmarks::args::{cli_value, has_flag};
use crate::benchmarks::jit::JitCache;
use crate::benchmarks::measure;
use crate::benchmarks::measure::{Action, Counts};
use crate::text;
use crate::text::{dec_string, int_string, push_dec, push_int, same_text};

verus! {

/// A variant of the kernel.
#[derive(Clone, Copy, Debug, PartialEq, Eq, Structural)]
pub enum Variant {
    Add,
    AddSafe,
    AddStatic,
}

impl Variant {
    /// The label of a variant.
    pub open spec fn label_text(self) -> Seq<char> {
        match self {
            Variant::Add => "optimized"@,
            Variant::AddSafe => "safe"@,
            Variant::AddStatic => "static"@,
        }
    }

    /// The label of a variant.
    pub fn label(self) -> (l: &'static str)
        ensures
            l@ == self.label_text(),
    {
        match self {
            Variant::Add => "optimized",
            Variant::AddSafe => "safe",
            Variant::AddStatic => "static",
        }
    }

    /// All variants.
    pub fn all() -> (v: Vec<Variant>)
        ensures
            v@ == seq![Variant::Add, Variant::AddSafe, Variant::AddStatic],
    {
        let v: Vec<Variant> = vec![Variant::Add, Variant::AddSafe, Variant::AddStatic];
        assert(v@ =~= seq![Variant::Add, Variant::AddSafe, Variant::AddStatic]);
        v
    }

    /// The name of the entry of the variant that prints its code.
    pub open spec fn printing_text(self) -> Seq<char> {
        match self {
            Variant::Add => "add_ir"@,
            Variant::AddSafe => "add_safe_ir"@,
            Variant::AddStatic => "add_static_ir"@,
        }
    }

    /// The name of the entry of the variant that prints its code.
    pub fn dump_filter(self) -> (s: &'static str)
        ensures
            s@ == (match self {
                Variant::Add => "add_ir"@,
                Variant::AddSafe => "add_safe_ir"@,
                Variant::AddStatic => "add_static_ir"@,
            }),
            s@ == self.printing_text(),
    {
        match self {
            Variant::Add => "add_ir",
            Variant::AddSafe => "add_safe_ir",
            Variant::AddStatic => "add_static_ir",
        }
    }
}

/// Different variants have different labels.
pub proof fn labels_are_distinct(a: Variant, b: Variant)
    requires
        a.label_text() == b.label_text(),
    ensures
        a == b,
{
    reveal_strlit("optimized");
    reveal_strlit("safe");
    reveal_strlit("static");
    assert("optimized"@.len() == 9);
    assert("safe"@.len() == 4);
    assert("static"@.len() == 6);
}

/// The flags of a run.
#[derive(Clone, Copy, Debug, PartialEq, Eq, Structural)]
pub struct Flags {
    pub is_safe: bool,
    pub is_static: bool,
    pub dump_ir: bool,
    pub jit_mode: bool,
    pub tune_one: bool,
}

impl Flags {
    /// The flags among the arguments.
    pub fn from_args(args: &Vec<String>) -> (f: Flags)
        ensures
            f.is_safe == args::present(text::texts(args@), "--safe"@),
            f.is_static == args::present(text::texts(args@), "--static"@),
            f.dump_ir == args::present(text::texts(args@), "--dump-ir"@),
            f.jit_mode == args::present(text::texts(args@), "--jit"@),
            f.tune_one == args::present(text::texts(args@), "--tune-one"@),
    {
        Flags {
            is_safe: has_flag(args, "--safe"),
            is_static: has_flag(args, "--static"),
            dump_ir: has_flag(args, "--dump-ir"),
            jit_mode: has_flag(args, "--jit"),
            tune_one: has_flag(args, "--tune-one"),
        }
    }
}

/// Why a combination of flags is refused: the first reason that holds.
pub open spec fn refusal(f: Flags) -> Option<Seq<char>> {
    if f.is_safe && f.is_static {
        Some("--safe and --static are mutually exclusive"@)
    } else if f.jit_mode && (f.is_safe || f.is_static) {
        Some("--jit runs all variants; --safe/--static not applicable"@)
    } else if f.tune_one && (f.jit_mode || f.dump_ir) {
        Some("--tune-one is mutually exclusive with --jit/--dump-ir"@)
    } else {
        None
    }
}

/// Why a combination of flags is refused: the first reason that holds.
pub fn check_flags(f: Flags) -> (r: Option<&'static str>)
    ensures
        args::text_of(r) == refusal(f),
{
    if f.is_safe && f.is_static {
        return Some("--safe and --static are mutually exclusive");
    }
    if f.jit_mode && (f.is_safe || f.is_static) {
        return Some("--jit runs all variants; --safe/--static not applicable");
    }
    if f.tune_one && (f.jit_mode || f.dump_ir) {
        return Some("--tune-one is mutually exclusive with --jit/--dump-ir");
    }
    None
}

/// The variants that a value names.
pub open spec fn named_variants(value: Seq<char>) -> Option<Seq<Variant>> {
    if value == "optimized"@ || value == "add"@ {
        Some(seq![Variant::Add])
    } else if value == "safe"@ {
        Some(seq![Variant::AddSafe])
    } else if value == "static"@ {
        Some(seq![Variant::AddStatic])
    } else if value == "all"@ {
        Some(seq![Variant::Add, Variant::AddSafe, Variant::AddStatic])
    } else {
        None
    }
}

/// The variants of a run: those that the value of `--variant` names, or else the one
/// that the flags select.
pub open spec fn selected(args: Seq<Seq<char>>, is_safe: bool, is_static: bool) -> Result<
    Seq<Variant>,
    Seq<char>,
> {
    match args::value_of(args, "--variant"@) {
        Some(value) => match named_variants(value) {
            Some(v) => Ok(v),
            None => Err("unknown --variant value: "@ + value),
        },
        None => Ok(
            seq![
                if is_safe {
                    Variant::AddSafe
                } else if is_static {
                    Variant::AddStatic
                } else {
                    Variant::Add
                },
            ],
        ),
    }
}

/// The variants of a run.
pub fn selected_tune_variants(args: &Vec<String>, is_safe: bool, is_static: bool) -> (r: Result<
    Vec<Variant>,
    String,
>)
    ensures
        match (r, selected(text::texts(args@), is_safe, is_static)) {
            (Ok(v), Ok(m)) => v@ == m,
            (Err(e), Err(m)) => e@ == m,
            _ => false,
        },
{
    if let Some(value) = cli_value(args, "--variant") {
        if same_text(value, "optimized") || same_text(value, "add") {
            let v: Vec<Variant> = vec![Variant::Add];
            assert(v@ =~= seq![Variant::Add]);
            return Ok(v);
        }
        if same_text(value, "safe") {
            let v: Vec<Variant> = vec![Variant::AddSafe];
            assert(v@ =~= seq![Variant::AddSafe]);
            return Ok(v);
        }
        if same_text(value, "static") {
            let v: Vec<Variant> = vec![Variant::AddStatic];
            assert(v@ =~= seq![Variant::AddStatic]);
            return Ok(v);
        }
        if same_text(value, "all") {
            return Ok(Variant::all());
        }
        let mut e: String = "unknown --variant value: ".to_owned();
        e.append(value);
        return Err(e);
    }
    let variant = if is_safe {
        Variant::AddSafe
    } else if is_static {
        Variant::AddStatic
    } else {
        Variant::Add
    };
    let v: Vec<Variant> = vec![variant];
    assert(v@ =~= seq![variant]);
    Ok(v)
}

/// The variant whose code is printed: printing needs exactly one.
pub fn dump_variant(variants: &Vec<Variant>) -> (r: Result<Variant, &'static str>)
    ensures
        match r {
            Ok(v) => variants@ == seq![v],
            Err(e) => variants@.len() != 1 && e@ == "--dump-ir requires exactly one variant"@,
        },
{
    if variants.len() != 1 {
        return Err("--dump-ir requires exactly one variant");
    }
    assert(variants@ =~= seq![variants@[0]]);
    Ok(variants[0])
}

/// Why a length and a tile are refused.
pub open spec fn config_refusal(n: nat, b: int) -> Option<Seq<char>> {
    if b <= 0 {
        Some("tile size B must be positive"@)
    } else if n as int % b != 0 {
        Some("N="@ + text::dec_text(n) + " must be divisible by B="@ + text::int_text(b))
    } else {
        None
    }
}

/// Refuses a tile that is not positive and a length that does not consist of whole
/// tiles.
pub fn validate_elemwise_config(n: usize, b: i32) -> (r: Result<(), String>)
    ensures
        match (r, config_refusal(n as nat, b as int)) {
            (Ok(_), None) => true,
            (Err(e), Some(t)) => e@ == t,
            _ => false,
        },
{
    if b <= 0 {
        return Err("tile size B must be positive".to_owned());
    }
    if n % (b as usize) != 0 {
        let mut e: String = "N=".to_owned();
        push_dec(&mut e, n as u64);
        e.append(" must be divisible by B=");
        push_int(&mut e, b as i64);
        return Err(e);
    }
    Ok(())
}

/// Refuses a count of launches that is not positive.
pub fn validate_iters(iters: u32) -> (r: Result<(), &'static str>)
    ensures
        match r {
            Ok(_) => iters > 0,
            Err(e) => iters == 0 && e@ == "--iters must be positive"@,
        },
{
    if iters == 0 {
        return Err("--iters must be positive");
    }
    Ok(())
}

/// The const-generic arguments of a variant: the tile, and the length where it is
/// static.
pub open spec fn variant_generics(variant: Variant, n: nat, b: int) -> Seq<Seq<char>> {
    if variant == Variant::AddStatic {
        seq!["f16"@, text::int_text(b), text::dec_text(n)]
    } else {
        seq!["f16"@, text::int_text(b)]
    }
}

/// The const-generic arguments of a variant.
pub fn generics(variant: Variant, n: usize, b: i32) -> (g: Vec<String>)
    ensures
        text::texts(g@) == variant_generics(variant, n as nat, b as int),
{
    let mut g: Vec<String> = Vec::new();
    g.push("f16".to_owned());
    g.push(int_string(b as i64));
    if variant == Variant::AddStatic {
        g.push(dec_string(n as u64));
    }
    assert(text::texts(g@) =~= variant_generics(variant, n as nat, b as int));
    g
}

/// Notes that a variant has been compiled for a length, and says whether that had been
/// done before. A static variant is compiled anew for every length.
pub fn record_compiled(cache: &mut JitCache, variant: Variant) -> (cached: bool)
    ensures
        cached == (variant != Variant::AddStatic && old(cache)@.contains(variant.label_text())),
        final(cache)@ == old(cache)@.insert(variant.label_text()),
{
    let seen = cache.record(variant.label());
    match variant {
        Variant::AddStatic => false,
        _ => seen,
    }
}

/// The lengths of a sweep: from 1 Mi to 256 Mi elements, each twice the one before.
pub open spec fn sweep_lengths() -> Seq<usize> {
    seq![
        1048576,
        2097152,
        4194304,
        8388608,
        16777216,
        33554432,
        67108864,
        134217728,
        268435456,
    ]
}

/// The lengths of a sweep.
pub fn lengths() -> (ns: Vec<usize>)
    ensures
        ns@ == sweep_lengths(),
{
    let ns: Vec<usize> = vec![
        1048576,
        2097152,
        4194304,
        8388608,
        16777216,
        33554432,
        67108864,
        134217728,
        268435456,
    ];
    assert(ns@ =~= sweep_lengths());
    ns
}

/// The default tile.
pub const DEFAULT_B: i32 = 128;

/// The lengths of a sweep are not refused with the default tile, and each is twice the
/// one before.
pub proof fn sweep_is_accepted(i: int)
    requires
        0 <= i < sweep_lengths().len(),
    ensures
        config_refusal(sweep_lengths()[i] as nat, DEFAULT_B as int) is None,
        0 < i ==> sweep_lengths()[i] == 2 * sweep_lengths()[i - 1],
{
}

/// The launches of a variant before the first window of a measurement.
pub const N_WARMUP: u32 = 20;

/// The windows of a measurement.
pub const N_SAMPLES: usize = 25;

/// How often a variant is launched to measure it.
pub open spec fn counts_of_bench(iters: u32) -> Counts {
    Counts { warmup: N_WARMUP, samples: N_SAMPLES, iters, settle: true }
}

/// How often a variant is launched to measure it, with so many launches in a window.
pub fn bench_counts(iters: u32) -> (c: Counts)
    ensures
        c == counts_of_bench(iters),
{
    Counts { warmup: N_WARMUP, samples: N_SAMPLES, iters, settle: true }
}

/// A variant is launched `20 + 25 * iters` times to measure it, and 25 times are taken, each
/// after the device was waited for.
pub proof fn bench_launches(iters: u32)
    ensures
        counts_of_bench(iters).closing() == seq![Action::Sync, Action::Record],
        measure::count(counts_of_bench(iters).trace(), Action::Launch) == 20 + 25 * iters,
        measure::count(counts_of_bench(iters).trace(), Action::Record) == 25,
{
    measure::launches_are_as_asked(counts_of_bench(iters));
}

/// The most chunks of operands.
pub const MAX_CACHE_CHUNKS: usize = 128;

/// The number of chunks of operands that a run rotates through: so many that they fill
/// the given number of mebibytes, at least one and at most a fixed number. A launch
/// reads two and writes one array of two-byte elements.
pub open spec fn chunk_count(n: int, mib: int) -> int {
    if mib == 0 {
        1
    } else if n == 0 || (mib * 1048576 + 6 * n - 1) / (6 * n) > MAX_CACHE_CHUNKS {
        MAX_CACHE_CHUNKS as int
    } else {
        (mib * 1048576 + 6 * n - 1) / (6 * n)
    }
}

/// The number of chunks of operands that a run rotates through, for arrays of at most
/// 8 Ti elements.
pub fn cache_chunks_for_n(n: usize, cache_sweep_mib: usize) -> (chunks: usize)
    requires
        n <= 0x800_0000_0000,
    ensures
        chunks == chunk_count(n as int, cache_sweep_mib as int),
        1 <= chunks <= MAX_CACHE_CHUNKS,
{
    if cache_sweep_mib == 0 {
        return 1;
    }
    if n == 0 {
        return MAX_CACHE_CHUNKS;
    }
    let bytes: u128 = 6 * n as u128;
    let target: u128 = cache_sweep_mib as u128 * 1048576;
    let chunks: u128 = (target + bytes - 1) / bytes;
    proof {
        lemma_fundamental_div_mod(target + bytes - 1, bytes as int);
        lemma_mod_bound(target + bytes - 1, bytes as int);
        let q = chunks as int;
        assert(q >= 1) by (nonlinear_arith)
            requires
                bytes * q + (target + bytes - 1) as int % bytes as int == target + bytes - 1,
                (target + bytes - 1) as int % (bytes as int) < bytes,
                target >= 1,
                bytes > 0,
        ;
    }
    if chunks > MAX_CACHE_CHUNKS as u128 {
        MAX_CACHE_CHUNKS
    } else {
        chunks as usize
    }
}

/// The chunks that a run rotates through fill the given number of mebibytes, unless
/// there are as many as there may be; and one chunk fewer would not fill them.
pub proof fn chunks_fill_the_cache(n: int, mib: int)
    requires
        0 < n,
        0 <= mib,
    ensures
        ({
            let chunks = chunk_count(n, mib);
            &&& 1 <= chunks <= MAX_CACHE_CHUNKS
            &&& chunks * (6 * n) >= mib * 1048576 || chunks == MAX_CACHE_CHUNKS
            &&& 1 < chunks ==> (chunks - 1) * (6 * n) < mib * 1048576
        }),
{
    let bytes = 6 * n;
    let target = mib * 1048576;
    let q = (target + bytes - 1) / bytes;
    lemma_fundamental_div_mod(target + bytes - 1, bytes);
    lemma_mod_bound(target + bytes - 1, bytes);
    assert(target <= q * bytes < target + bytes) by (nonlinear_arith)
        requires
            target + bytes - 1 == bytes * q + (target + bytes - 1) % bytes,
            0 <= (target + bytes - 1) % bytes < bytes,
    ;
    let chunks = chunk_count(n, mib);
    if mib > 0 {
        assert(1 <= q) by (nonlinear_arith)
            requires
                0 < target <= q * bytes,
                0 < bytes,
        ;
        assert((chunks - 1) * bytes <= (q - 1) * bytes && (q - 1) * bytes == q * bytes - bytes)
            by (nonlinear_arith)
            requires
                chunks <= q,
                0 < bytes,
        ;
    }
}

/// The chunk that a launch uses.
pub fn chunk_of_launch(launch: usize, chunks: usize) -> (c: usize)
    requires
        0 < chunks,
    ensures
        c as int == launch as int % chunks as int,
        c < chunks,
        launch as int == (launch as int / chunks as int) * chunks + c,
{
    proof {
        lemma_fundamental_div_mod(launch as int, chunks as int);
        lemma_mul_is_commutative(launch as int / chunks as int, chunks as int);
    }
    launch % chunks
}

/// Launches that are less than the number of chunks apart use different chunks.
pub proof fn close_launches_use_different_chunks(a: int, b: int, chunks: int)
    requires
        0 <= a < b,
        b - a < chunks,
    ensures
        a % chunks != b % chunks,
{
    if a % chunks == b % chunks {
        lemma_fundamental_div_mod(a, chunks);
        lemma_fundamental_div_mod(b, chunks);
        let d = b / chunks - a / chunks;
        assert(b - a == chunks * d) by (nonlinear_arith)
            requires
                a == chunks * (a / chunks) + a % chunks,
                b == chunks * (b / chunks) + b % chunks,
                a % chunks == b % chunks,
                d == b / chunks - a / chunks,
        ;
        assert(false) by (nonlinear_arith)
            requires
                0 < chunks * d < chunks,
                0 < chunks,
        ;
    }
}

/// A sweep has nine lengths, from 1 Mi on, and the last is 256 Mi.
pub proof fn sweep_runs_from_one_mebi()
    ensures
        sweep_lengths().len() == 9,
        sweep_lengths()[0] == 1024 * 1024,
        sweep_lengths().last() == 256 * 1024 * 1024,
{
}

/// A variant is named by its label, the plain one also by `add`, and `all` names all of them in
/// their order; nothing else names any.
pub proof fn labels_name_their_variants(v: Variant, value: Seq<char>)
    ensures
        named_variants(v.label_text()) == Some(seq![v]),
        named_variants("add"@) == Some(seq![Variant::Add]),
        named_variants("all"@) == Some(seq![Variant::Add, Variant::AddSafe, Variant::AddStatic]),
        Variant::Add.label_text() == "optimized"@,
        Variant::AddSafe.label_text() == "safe"@,
        Variant::AddStatic.label_text() == "static"@,
        (forall|w: Variant| value != #[trigger] w.label_text()) && value != "add"@ && value
            != "all"@ ==> named_variants(value) is None,
{
    reveal_strlit("optimized");
    reveal_strlit("add");
    reveal_strlit("all");
    reveal_strlit("safe");
    reveal_strlit("static");
    assert("add"@[1] != "all"@[1]);
    assert("optimized"@.len() == 9 && "add"@.len() == 3 && "all"@.len() == 3 && "safe"@.len() == 4
        && "static"@.len() == 6);
    assert(Variant::Add.label_text() == "optimized"@);
    assert(Variant::AddSafe.label_text() == "safe"@);
    assert(Variant::AddStatic.label_text() == "static"@);
}

/// The value of `--variant` decides which variants run, and where there is none the flags do:
/// the one that checks where that is asked for, else the static one where that is, else the
/// plain one.
pub proof fn the_value_goes_before_the_flags(
    args: Seq<Seq<char>>,
    is_safe: bool,
    is_static: bool,
    v: Variant,
)
    ensures
        args::value_of(args, "--variant"@) == Some(v.label_text()) ==> selected(
            args,
            is_safe,
            is_static,
        ) == Ok::<Seq<Variant>, Seq<char>>(seq![v]),
        args::value_of(args, "--variant"@) is None ==> (selected(args, is_safe, is_static) matches Ok(
            s,
        ) && s.len() == 1 && (s[0] == Variant::AddSafe <==> is_safe) && (s[0]
            == Variant::AddStatic <==> is_static && !is_safe)),
        selected(args, is_safe, is_static) matches Err(e) ==> (args::value_of(
            args,
            "--variant"@,
        ) matches Some(value) && e == "unknown --variant value: "@ + value),
{
    labels_name_their_variants(v, Seq::empty());
}

/// Flags are accepted exactly where at most one variant is asked for, none together with all
/// of them, and a tuning run neither compiles all nor prints.
pub proof fn which_flags_are_accepted(f: Flags)
    ensures
        refusal(f) is None <==> {
            &&& !(f.is_safe && f.is_static)
            &&& f.jit_mode ==> !f.is_safe && !f.is_static && !f.tune_one
            &&& f.dump_ir ==> !f.tune_one
        },
        f.is_safe && f.is_static ==> refusal(f) == Some(
            "--safe and --static are mutually exclusive"@,
        ),
        f.jit_mode && f.is_safe != f.is_static ==> refusal(f) == Some(
            "--jit runs all variants; --safe/--static not applicable"@,
        ),
        f.tune_one && (f.jit_mode || f.dump_ir) && !f.is_safe && !f.is_static ==> refusal(f)
            == Some("--tune-one is mutually exclusive with --jit/--dump-ir"@),
{
}

/// A length and a tile are accepted exactly where the tile is positive and the length consists
/// of whole tiles.
pub proof fn accepted_lengths_are_whole_tiles(n: nat, b: int)
    ensures
        config_refusal(n, b) is None <==> b > 0 && n == (n as int / b) * b,
        b <= 0 ==> config_refusal(n, b) == Some("tile size B must be positive"@),
        b > 0 ==> (config_refusal(n, b) matches Some(t) ==> t == "N="@ + text::dec_text(n)
            + " must be divisible by B="@ + text::dec_text(b as nat)),
{
    if b > 0 {
        vstd::arithmetic::div_mod::lemma_fundamental_div_mod(n as int, b);
        vstd::arithmetic::mul::lemma_mul_is_commutative(b, n as int / b);
    }
}

/// The arguments of a variant are the element type and the tile, and then the length exactly
/// where it is static.
pub proof fn arguments_stand_in_order(variant: Variant, n: nat, b: int)
    ensures
        ({
            let g = variant_generics(variant, n, b);
            &&& g.len() == 3 <==> variant == Variant::AddStatic
            &&& g.len() == 2 <==> variant != Variant::AddStatic
            &&& g[0] == "f16"@
            &&& g[1] == text::int_text(b)
            &&& g.len() == 3 ==> g[2] == text::dec_text(n)
        }),
{
}
/// The entry that prints the code of a variant is named `add`, with the label of the variant
/// behind it unless it is the plain one, and ends in `ir`.
pub proof fn printing_entries_are_named_by_their_labels(v: Variant)
    ensures
        v.printing_text() == (if v == Variant::Add {
            "add_ir"@
        } else {
            "add_"@ + v.label_text() + "_ir"@
        }),
{
    reveal_strlit("add_");
    reveal_strlit("_ir");
    reveal_strlit("safe");
    reveal_strlit("static");
    reveal_strlit("add_safe_ir");
    reveal_strlit("add_static_ir");
    if v == Variant::AddSafe {
        assert("add_safe_ir"@ =~= "add_"@ + "safe"@ + "_ir"@);
    } else if v == Variant::AddStatic {
        assert("add_static_ir"@ =~= "add_"@ + "static"@ + "_ir"@);
    }
}

/// A run rotates through 128 chunks at most, and through so many where a chunk is empty; and
/// through one where nothing is to be filled. The default tile has 128 elements.
pub proof fn runs_rotate_through_128_chunks_at_most(n: int, mib: int)
    requires
        0 <= n,
        0 <= mib,
    ensures
        chunk_count(n, mib) <= 128,
        chunk_count(n, 0) == 1,
        0 < mib ==> chunk_count(0, mib) == 128,
        0 < n && mib * 1048576 > 127 * (6 * n) ==> chunk_count(n, mib) == 128,
        DEFAULT_B == 128,
{
    if 0 < n {
        chunks_fill_the_cache(n, mib);
        let chunks = chunk_count(n, mib);
        if mib * 1048576 > 127 * (6 * n) && chunks < 128 {
            assert(chunks * (6 * n) <= 127 * (6 * n)) by (nonlinear_arith)
                requires
                    chunks <= 127,
                    0 < n,
            ;
        }
    }
}

} // verus!
