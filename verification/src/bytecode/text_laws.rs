//! What the text of a buffer shows.
//!
//! The laws say which words and numbers stand in the text for which bytes.

use vstd::prelude::*;

use crate::bytecode::decoder;
use crate::bytecode::decoder::DumpModel;
use crate::bytecode::dump;
use crate::bytecode::dump_forms;
use crate::bytecode::enums::BytecodeVersion;
use crate::bytecode::module_laws;
use crate::bytecode::op_laws;
use crate::bytecode::reader;
use crate::bytecode::skip;
use crate::error::DecodeError;
use crate::text;

verus! {

/// What a table has under an index, and a question mark where it has nothing there.
pub open spec fn shown_entry(table: Seq<Seq<char>>, i: u64) -> Seq<char> {
    if i < table.len() {
        table[i as int]
    } else {
        seq!['?']
    }
}

/// A text ends with another.
pub open spec fn ends_with(s: Seq<char>, suffix: Seq<char>) -> bool {
    suffix.len() <= s.len() && s.skip(s.len() - suffix.len()) == suffix
}

/// A function is shown as an entry exactly where bit 1 of its flags is set, and as a plain
/// function elsewhere; whatever the other flags are. Its name and its signature follow.
/// Its hints are noted exactly where bit 2 is set; its size is the length of its body.
pub proof fn functions_are_shown_by_their_kind(
    d: Seq<u8>,
    p: int,
    strings: Seq<Seq<char>>,
    types: Seq<Seq<char>>,
)
    requires
        0 <= p <= d.len(),
        dump::function_text_at(d, p, strings, types).0 is Ok,
    ensures
        op_laws::behind(d, p, 2) is Some,
        ({
            let shown = dump::function_text_at(d, p, strings, types).0->Ok_0;
            let name = shown_entry(strings, op_laws::number(d, p, 0));
            let signature = shown_entry(types, op_laws::number(d, p, 1));
            let flags = d[op_laws::behind(d, p, 2)->0];
            let rest = name + " : "@ + signature + "\n"@;
            &&& (flags / 2) % 2 == 1 <==> module_laws::begins_with(shown, "  entry @"@)
            &&& (flags / 2) % 2 == 0 <==> module_laws::begins_with(shown, "  func @"@)
            &&& (flags / 2) % 2 == 1 ==> module_laws::begins_with(shown, "  entry @"@ + rest)
            &&& (flags / 2) % 2 == 0 ==> module_laws::begins_with(shown, "  func @"@ + rest)
            &&& (flags / 4) % 2 == 1 <==> ends_with(shown, "    [has optimization_hints]\n"@)
        }),
{
    let q = reader::varint_at(d, p).1;
    assert(op_laws::behind(d, reader::varint_at(d, q).1, 0) is Some);
    assert(op_laws::behind(d, q, 1) is Some);
    assert(op_laws::number(d, p, 1) == op_laws::number(d, q, 0));
    let shown = dump::function_text_at(d, p, strings, types).0->Ok_0;
    let name = shown_entry(strings, op_laws::number(d, p, 0));
    let signature = shown_entry(types, op_laws::number(d, p, 1));
    let flags = d[op_laws::behind(d, p, 2)->0];
    let rest = name + " : "@ + signature + "\n"@;
    reveal_strlit("?");
    assert("?"@ =~= seq!['?']);
    reveal_strlit("  ");
    reveal_strlit(" @");
    reveal_strlit("entry");
    reveal_strlit("func");
    reveal_strlit("  entry @");
    reveal_strlit("  func @");
    reveal_strlit("    [has optimization_hints]\n");
    reveal_strlit(" ops\n");
    let kind = if (flags / 2) % 2 == 1 {
        "  entry @"@
    } else {
        "  func @"@
    };
    let line = kind + rest;
    assert(shown.take(line.len() as int) =~= line);
    assert(shown.take(kind.len() as int) =~= kind);
    if (flags / 2) % 2 == 1 {
        assert(shown[2] == 'e');
        assert("  func @"@[2] == 'f');
        assert(shown.take("  func @"@.len() as int)[2] == 'e');
    } else {
        assert(shown[2] == 'f');
        assert("  entry @"@[2] == 'e');
        assert(shown.take("  entry @"@.len() as int)[2] == 'f');
    }
    let note = "    [has optimization_hints]\n"@;
    if (flags / 4) % 2 == 1 {
        assert(shown.skip(shown.len() - note.len()) =~= note);
    } else {
        assert(shown[shown.len() - 2] == 's');
        if note.len() <= shown.len() {
            assert(shown.skip(shown.len() - note.len())[note.len() - 2] == 's');
            assert(note[note.len() - 2] == ']');
        }
    }
}

/// What stands in the bytes of a function: the indices of its name and its signature, a byte
/// of flags, its location, an attribute exactly where bit 2 of the flags is set, the length
/// of its body and the body. The second line of its text gives the length, twice.
pub proof fn functions_are_shown_with_their_size(
    d: Seq<u8>,
    p: int,
    strings: Seq<Seq<char>>,
    types: Seq<Seq<char>>,
)
    requires
        0 <= p <= d.len(),
    ensures
        ({
            let q = op_laws::behind(d, p, 2);
            let flags = d[q->0];
            let u = op_laws::behind(d, q->0 + 1, 1);
            let hints = (flags / 4) % 2 == 1;
            let v = if hints {
                skip::passed_attribute_at(d, u->0).1
            } else {
                u->0
            };
            let there = q is Some && q->0 < d.len() && u is Some && (hints
                ==> skip::passed_attribute_at(d, u->0).0 is Ok);
            let len = op_laws::number(d, v, 0);
            let body = op_laws::behind(d, v, 1);
            let fits = there && body is Some && body->0 + len <= d.len();
            let read = dump::function_text_at(d, p, strings, types);
            let size = text::dec_text(len as nat);
            &&& read.0 is Ok <==> fits
            &&& fits ==> read.1 == body->0 + len
            &&& fits ==> ends_with(
                read.0->Ok_0,
                "\n    body: "@ + size + " bytes, ~"@ + size + " ops\n"@ + (if hints {
                    "    [has optimization_hints]\n"@
                } else {
                    Seq::empty()
                }),
            )
        }),
{
    reader::varint_advances(d, p);
    let p1 = reader::varint_at(d, p).1;
    reader::varint_advances(d, p1);
    let p2 = reader::varint_at(d, p1).1;
    assert(op_laws::behind(d, p2, 0) == Some(p2));
    assert(op_laws::behind(d, p1, 1) is Some <==> reader::varint_at(d, p1).0 is Ok);
    assert(op_laws::behind(d, p, 2) is Some <==> reader::varint_at(d, p).0 is Ok
        && reader::varint_at(d, p1).0 is Ok);
    let p3 = reader::varint_at(d, p2 + 1).1;
    assert(op_laws::behind(d, p3, 0) == Some(p3));
    assert(op_laws::behind(d, p2 + 1, 1) is Some <==> reader::varint_at(d, p2 + 1).0 is Ok);
    let flags = d[p2];
    let hints = (flags / 4) % 2 == 1;
    let v = if hints {
        skip::passed_attribute_at(d, p3).1
    } else {
        p3
    };
    let w = reader::varint_at(d, v).1;
    assert(op_laws::behind(d, w, 0) == Some(w));
    assert(op_laws::behind(d, v, 1) is Some <==> reader::varint_at(d, v).0 is Ok);
    let read = dump::function_text_at(d, p, strings, types);
    if let Ok(shown) = read.0 {
        let len = op_laws::number(d, v, 0);
        let size = text::dec_text(len as nat);
        reveal_strlit("\n    body: ");
        reveal_strlit("    body: ");
        reveal_strlit("\n");
        let tail = "\n    body: "@ + size + " bytes, ~"@ + size + " ops\n"@ + (if hints {
            "    [has optimization_hints]\n"@
        } else {
            Seq::empty()
        });
        assert(shown.skip(shown.len() - tail.len()) =~= tail);
    }
}

/// A global is shown with its name, its type, the number of its constant and its alignment,
/// which stand in that order. From 13.3 on a byte says whether it is public or private, and a
/// number that is not zero that it is constant.
pub proof fn globals_are_shown(
    d: Seq<u8>,
    p: int,
    strings: Seq<Seq<char>>,
    types: Seq<Seq<char>>,
    version: BytecodeVersion,
)
    requires
        0 <= p <= d.len(),
    ensures
        ({
            let newer = version.major > 13 || version.major == 13 && version.minor >= 3;
            let q = op_laws::behind(d, p, 4);
            let read = dump::global_at(d, p, strings, types, version);
            let head = "@"@ + shown_entry(strings, op_laws::number(d, p, 0)) + " : "@
                + shown_entry(types, op_laws::number(d, p, 1)) + " = const["@ + text::dec_text(
                op_laws::number(d, p, 2) as nat,
            ) + "], align "@ + text::dec_text(op_laws::number(d, p, 3) as nat);
            if !newer {
                &&& read.0 is Ok <==> q is Some
                &&& q is Some ==> read.0->Ok_0 == head && read.1 == q->0
            } else {
                let there = q is Some && q->0 < d.len() && op_laws::behind(
                    d,
                    q->0 + 1,
                    1,
                ) is Some;
                let visibility = if d[q->0] == 0 {
                    ", public, constant="@
                } else if d[q->0] == 1 {
                    ", private, constant="@
                } else {
                    ", unknown, constant="@
                };
                let constant = if op_laws::number(d, q->0 + 1, 0) == 0 {
                    "false"@
                } else {
                    "true"@
                };
                &&& read.0 is Ok <==> there
                &&& there ==> read.0->Ok_0 == head + visibility + constant && read.1
                    == op_laws::behind(d, q->0 + 1, 1)->0
            }
        }),
{
    four_numbers(d, p);
    shown_entries(strings, op_laws::number(d, p, 0));
    shown_entries(types, op_laws::number(d, p, 1));
    let q = op_laws::behind(d, p, 4);
    let head = "@"@ + shown_entry(strings, op_laws::number(d, p, 0)) + " : "@ + shown_entry(
        types,
        op_laws::number(d, p, 1),
    ) + " = const["@ + text::dec_text(op_laws::number(d, p, 2) as nat) + "], align "@
        + text::dec_text(op_laws::number(d, p, 3) as nat);
    if q is Some {
        let suffix = dump::global_suffix_at(d, q->0, version);
        suffixes_are_shown(d, q->0, version, head);
        assert(head + Seq::<char>::empty() =~= head);
    }
}

/// What is shown of an index, by its definition in the texts.
proof fn shown_entries(table: Seq<Seq<char>>, i: u64)
    ensures
        dump::name_at(table, i) == shown_entry(table, i),
{
    reveal_strlit("?");
    assert("?"@ =~= seq!['?']);
}

proof fn four_numbers(d: Seq<u8>, p: int)
    ensures
        ({
            let a = reader::varint_at(d, p);
            let b = reader::varint_at(d, a.1);
            let c = reader::varint_at(d, b.1);
            let e = reader::varint_at(d, c.1);
            &&& op_laws::behind(d, p, 4) is Some <==> a.0 is Ok && b.0 is Ok && c.0 is Ok
                && e.0 is Ok
            &&& op_laws::behind(d, p, 4) matches Some(q) ==> q == e.1 && op_laws::number(d, p, 0)
                == a.0->Ok_0 && op_laws::number(d, p, 1) == b.0->Ok_0 && op_laws::number(d, p, 2)
                == c.0->Ok_0 && op_laws::number(d, p, 3) == e.0->Ok_0
        }),
{
    reveal_with_fuel(op_laws::behind, 5);
    reveal_with_fuel(op_laws::number, 5);
}

proof fn suffixes_are_shown(d: Seq<u8>, q: int, version: BytecodeVersion, head: Seq<char>)
    ensures
        ({
            let newer = version.major > 13 || version.major == 13 && version.minor >= 3;
            let read = dump::global_suffix_at(d, q, version);
            if !newer {
                read == (Ok::<Seq<char>, DecodeError>(Seq::empty()), q)
            } else {
                let there = q < d.len() && op_laws::behind(d, q + 1, 1) is Some;
                let visibility = if d[q] == 0 {
                    ", public, constant="@
                } else if d[q] == 1 {
                    ", private, constant="@
                } else {
                    ", unknown, constant="@
                };
                let constant = if op_laws::number(d, q + 1, 0) == 0 {
                    "false"@
                } else {
                    "true"@
                };
                &&& read.0 is Ok <==> there
                &&& there ==> head + read.0->Ok_0 == head + visibility + constant && read.1
                    == op_laws::behind(d, q + 1, 1)->0
            }
        }),
{
    assert(op_laws::behind(d, reader::varint_at(d, q + 1).1, 0) is Some);
    reveal_strlit(", ");
    reveal_strlit(", constant=");
    reveal_strlit("public");
    reveal_strlit("private");
    reveal_strlit("unknown");
    reveal_strlit(", public, constant=");
    reveal_strlit(", private, constant=");
    reveal_strlit(", unknown, constant=");
    assert(", "@ + "public"@ + ", constant="@ =~= ", public, constant="@);
    assert(", "@ + "private"@ + ", constant="@ =~= ", private, constant="@);
    assert(", "@ + "unknown"@ + ", constant="@ =~= ", unknown, constant="@);
    if let (Ok(s), _) = dump::global_suffix_at(d, q, version) {
        if version.major > 13 || version.major == 13 && version.minor >= 3 {
            let word = ", "@ + dump::visibility_text(d[q]) + ", constant="@;
            let flag = text::bool_text(op_laws::number(d, q + 1, 0) != 0);
            assert(s == word + flag);
            assert(head + (word + flag) =~= head + word + flag);
        }
    }
}

/// Lines one behind the other.
pub open spec fn lines(n: nat, line: spec_fn(int) -> Seq<char>) -> Seq<char>
    decreases n,
{
    if n == 0 {
        Seq::empty()
    } else {
        lines((n - 1) as nat, line) + line(n - 1)
    }
}

/// A title with a number of entries, the lines of the entries and an empty line; nothing where
/// there are none.
pub open spec fn part(title: Seq<char>, n: nat, line: spec_fn(int) -> Seq<char>) -> Seq<char> {
    if n == 0 {
        Seq::empty()
    } else {
        "=== "@ + title + " ("@ + text::dec_text(n) + ") ===\n"@ + lines(n, line) + "\n"@
    }
}

/// The line of an entry with its number in square brackets.
pub open spec fn numbered_line(entry: spec_fn(int) -> Seq<char>) -> spec_fn(int) -> Seq<char> {
    |i: int| "  ["@ + text::dec_text(i as nat) + "] "@ + entry(i) + "\n"@
}

proof fn numbered_is_lines(
    out: Seq<char>,
    entries: Seq<Seq<char>>,
    entry: spec_fn(int) -> Seq<char>,
    n: nat,
)
    requires
        n <= entries.len(),
        forall|i: int| 0 <= i < entries.len() ==> #[trigger] entries[i] == entry(i),
    ensures
        decoder::numbered(out, entries, n) == out + lines(n, numbered_line(entry)),
    decreases n,
{
    if n == 0 {
        assert(out + lines(n, numbered_line(entry)) =~= out);
    } else {
        numbered_is_lines(out, entries, entry, (n - 1) as nat);
        assert(entries[n - 1] == entry(n - 1));
        assert(decoder::numbered(out, entries, n) =~= out + lines(n, numbered_line(entry)));
    }
}

proof fn listing_is_part(
    out: Seq<char>,
    title: Seq<char>,
    word: Seq<char>,
    entries: Seq<Seq<char>>,
    entry: spec_fn(int) -> Seq<char>,
)
    requires
        title == "=== "@ + word + " ("@,
        forall|i: int| 0 <= i < entries.len() ==> #[trigger] entries[i] == entry(i),
    ensures
        decoder::listing(out, title, entries) == out + part(
            word,
            entries.len(),
            numbered_line(entry),
        ),
{
    let n = entries.len();
    let head = out + title + text::dec_text(n) + ") ===\n"@;
    numbered_is_lines(head, entries, entry, n);
    assert(decoder::listing(out, title, entries) =~= out + part(word, n, numbered_line(entry)));
}

proof fn indented_is_lines(out: Seq<char>, entries: Seq<Seq<char>>, n: nat)
    ensures
        decoder::indented(out, entries, n) == out + lines(
            n,
            |i: int| "  "@ + entries[i] + "\n"@,
        ),
    decreases n,
{
    let line = |i: int| "  "@ + entries[i] + "\n"@;
    if n == 0 {
        assert(out + lines(n, line) =~= out);
    } else {
        indented_is_lines(out, entries, (n - 1) as nat);
        assert(decoder::indented(out, entries, n) =~= out + lines(n, line));
    }
}

proof fn lined_is_lines(out: Seq<char>, entries: Seq<Seq<char>>, n: nat)
    ensures
        decoder::lined(out, entries, n) == out + lines(n, |i: int| entries[i] + "\n"@),
    decreases n,
{
    let line = |i: int| entries[i] + "\n"@;
    if n == 0 {
        assert(out + lines(n, line) =~= out);
    } else {
        lined_is_lines(out, entries, (n - 1) as nat);
        assert(decoder::lined(out, entries, n) =~= out + lines(n, line));
    }
}

/// The text of a buffer: a line with the version and an empty line; the strings, the types
/// and the sizes of the constants, with their numbers; the globals; the functions, also where
/// there are none but the section is there; and the size of the debug section. Each part
/// stands under a title that gives the number of its entries.
pub proof fn text_shows_every_part(d: Seq<u8>)
    ensures
        decoder::text_of_buffer(d) is Ok <==> decoder::dump_of(d) is Ok,
        decoder::dump_of(d) matches Ok(m) ==> decoder::text_of_buffer(d)->Ok_0
            == "TileIR bytecode v"@ + m.version.text() + "\n\n"@ + part(
            "Strings"@,
            m.strings.len(),
            numbered_line(|i: int| decoder::debug_text(m.strings[i])),
        ) + part("Types"@, m.types.len(), numbered_line(|i: int| m.types[i])) + part(
            "Constants"@,
            m.constants.len(),
            numbered_line(|i: int| text::dec_text(m.constants[i].len()) + " bytes"@),
        ) + part("Globals"@, m.globals.len(), |i: int| "  "@ + m.globals[i] + "\n"@) + (
        match m.functions {
            None => Seq::empty(),
            Some(f) => "=== Functions ("@ + text::dec_text(f.len()) + ") ===\n"@ + lines(
                f.len(),
                |i: int| f[i] + "\n"@,
            ),
        }) + (match m.debug {
            None => Seq::empty(),
            Some(n) => "=== Debug ("@ + text::dec_text(n) + " bytes) ===\n"@,
        }),
{
    if let Ok(m) = decoder::dump_of(d) {
        shown_parts(m);
    }
}

#[verifier::rlimit(40)]
proof fn shown_parts(m: DumpModel)
    ensures
        decoder::dump_text(m, decoder::debug_texts(m.strings)) == "TileIR bytecode v"@
            + m.version.text() + "\n\n"@ + part(
            "Strings"@,
            m.strings.len(),
            numbered_line(|i: int| decoder::debug_text(m.strings[i])),
        ) + part("Types"@, m.types.len(), numbered_line(|i: int| m.types[i])) + part(
            "Constants"@,
            m.constants.len(),
            numbered_line(|i: int| text::dec_text(m.constants[i].len()) + " bytes"@),
        ) + part("Globals"@, m.globals.len(), |i: int| "  "@ + m.globals[i] + "\n"@) + (
        match m.functions {
            None => Seq::empty(),
            Some(f) => "=== Functions ("@ + text::dec_text(f.len()) + ") ===\n"@ + lines(
                f.len(),
                |i: int| f[i] + "\n"@,
            ),
        }) + (match m.debug {
            None => Seq::empty(),
            Some(n) => "=== Debug ("@ + text::dec_text(n) + " bytes) ===\n"@,
        }),
{
    let quoted = decoder::debug_texts(m.strings);
    reveal_strlit("\n");
    reveal_strlit("\n\n");
    reveal_strlit("=== ");
    reveal_strlit(" (");
    reveal_strlit("Strings");
    reveal_strlit("Types");
    reveal_strlit("Constants");
    reveal_strlit("Globals");
    reveal_strlit("=== Strings (");
    reveal_strlit("=== Types (");
    reveal_strlit("=== Constants (");
    reveal_strlit("=== Globals (");
    assert("=== Strings ("@ =~= "=== "@ + "Strings"@ + " ("@);
    assert("=== Types ("@ =~= "=== "@ + "Types"@ + " ("@);
    assert("=== Constants ("@ =~= "=== "@ + "Constants"@ + " ("@);
    assert("=== Globals ("@ =~= "=== "@ + "Globals"@ + " ("@);
    let head = "TileIR bytecode v"@ + m.version.text() + "\n\n"@;
    assert("TileIR bytecode v"@ + m.version.text() + "\n"@ + "\n"@ =~= head);
    listing_is_part(
        head,
        "=== Strings ("@,
        "Strings"@,
        quoted,
        |i: int| decoder::debug_text(m.strings[i]),
    );
    let strings = decoder::listing(head, "=== Strings ("@, quoted);
    listing_is_part(strings, "=== Types ("@, "Types"@, m.types, |i: int| m.types[i]);
    let types = decoder::listing(strings, "=== Types ("@, m.types);
    let sizes = decoder::size_texts(m.constants);
    listing_is_part(
        types,
        "=== Constants ("@,
        "Constants"@,
        sizes,
        |i: int| text::dec_text(m.constants[i].len()) + " bytes"@,
    );
    let constants = decoder::listing(types, "=== Constants ("@, sizes);
    let n = m.globals.len();
    let title = "=== Globals ("@ + text::dec_text(n) + ") ===\n"@;
    let line = |i: int| "  "@ + m.globals[i] + "\n"@;
    indented_is_lines(constants + "=== Globals ("@ + text::dec_text(n) + ") ===\n"@, m.globals, n);
    let globals = if n == 0 {
        constants
    } else {
        decoder::indented(
            constants + "=== Globals ("@ + text::dec_text(n) + ") ===\n"@,
            m.globals,
            n,
        ) + "\n"@
    };
    assert(globals =~= constants + part("Globals"@, n, line));
    let shown = match m.functions {
        None => Seq::empty(),
        Some(f) => "=== Functions ("@ + text::dec_text(f.len()) + ") ===\n"@ + lines(
            f.len(),
            |i: int| f[i] + "\n"@,
        ),
    };
    let functions = match m.functions {
        None => globals,
        Some(f) => decoder::lined(
            globals + "=== Functions ("@ + text::dec_text(f.len()) + ") ===\n"@,
            f,
            f.len(),
        ),
    };
    if let Some(f) = m.functions {
        lined_is_lines(globals + "=== Functions ("@ + text::dec_text(f.len()) + ") ===\n"@, f, f.len());
    }
    assert(functions =~= globals + shown);
    let debug = match m.debug {
        None => Seq::empty(),
        Some(n) => "=== Debug ("@ + text::dec_text(n) + " bytes) ===\n"@,
    };
    assert(decoder::dump_text(m, quoted) =~= functions + debug);
}
// ---- lists and types ----

/// Texts with a separator before each of them.
pub open spec fn each_behind(parts: Seq<Seq<char>>, sep: Seq<char>) -> Seq<char>
    decreases parts.len(),
{
    if parts.len() == 0 {
        Seq::empty()
    } else {
        sep + parts[0] + each_behind(parts.skip(1), sep)
    }
}

proof fn one_more_behind(parts: Seq<Seq<char>>, x: Seq<char>, sep: Seq<char>)
    ensures
        each_behind(parts.push(x), sep) == each_behind(parts, sep) + sep + x,
    decreases parts.len(),
{
    reveal_with_fuel(each_behind, 2);
    if parts.len() == 0 {
        assert(parts.push(x).skip(1) =~= Seq::<Seq<char>>::empty());
        assert(each_behind(parts.push(x), sep) =~= sep + x);
        assert(each_behind(parts, sep) + sep + x =~= sep + x);
    } else {
        one_more_behind(parts.skip(1), x, sep);
        assert(parts.push(x).skip(1) =~= parts.skip(1).push(x));
        assert(each_behind(parts.push(x), sep) =~= each_behind(parts, sep) + sep + x);
    }
}

/// Texts are joined in their order, with the separator between two of them and nowhere else.
pub proof fn separators_stand_between(parts: Seq<Seq<char>>, sep: Seq<char>)
    ensures
        parts.len() == 0 ==> dump::join(parts, sep).len() == 0,
        parts.len() > 0 ==> dump::join(parts, sep) == parts[0] + each_behind(parts.skip(1), sep),
    decreases parts.len(),
{
    if parts.len() == 1 {
        assert(parts.skip(1) =~= Seq::<Seq<char>>::empty());
        assert(parts[0] + each_behind(parts.skip(1), sep) =~= parts[0]);
    } else if parts.len() > 1 {
        let front = parts.drop_last();
        separators_stand_between(front, sep);
        one_more_behind(front.skip(1), parts.last(), sep);
        assert(parts.skip(1) =~= front.skip(1).push(parts.last()));
        assert(parts[0] + (each_behind(front.skip(1), sep) + sep + parts.last()) =~= parts[0]
            + each_behind(front.skip(1), sep) + sep + parts.last());
    }
}

/// Numbers are shown in decimal. An extent that is known only at run time, which is the
/// smallest number of 64 bits, is shown as a question mark.
pub proof fn extents_are_shown(s: Seq<i64>, u: Seq<i32>, i: int)
    ensures
        dump::i64_texts(s).len() == s.len(),
        dump::i32_texts(u).len() == u.len(),
        dump::extent_texts(s).len() == s.len(),
        0 <= i < s.len() ==> {
            &&& dump::i64_texts(s)[i] == text::int_text(s[i] as int)
            &&& s[i] == -0x8000_0000_0000_0000 ==> dump::extent_texts(s)[i] == seq!['?']
            &&& s[i] != -0x8000_0000_0000_0000 ==> dump::extent_texts(s)[i] == text::int_text(
                s[i] as int,
            )
        },
        0 <= i < u.len() ==> dump::i32_texts(u)[i] == text::int_text(u[i] as int),
{
    reveal_strlit("?");
    assert("?"@ =~= seq!['?']);
}

/// Numbers and bytes that are there are shown as they are, and zero stands for those that are
/// not. An index out of range is shown as a question mark.
pub proof fn zero_stands_for_what_is_missing(d: Seq<u8>, p: int, names: Seq<Seq<char>>)
    requires
        0 <= p,
    ensures
        op_laws::behind(d, p, 1) matches Some(q) ==> dump::varint_or_zero(d, p) == (
            op_laws::number(d, p, 0),
            q,
        ) && dump::name_ref_at(d, p, names) == (
            shown_entry(names, op_laws::number(d, p, 0)),
            q,
        ),
        op_laws::behind(d, p, 1) is None ==> dump::varint_or_zero(d, p).0 == 0
            && dump::name_ref_at(d, p, names).0 == shown_entry(names, 0),
        p < d.len() ==> dump::byte_or_zero(d, p) == (d[p], p + 1),
        p >= d.len() ==> dump::byte_or_zero(d, p) == (0u8, p),
        reader::var_i64s_at(d, p).0 is Ok ==> dump::var_i64s_or_zero(d, p) == (
            reader::var_i64s_at(d, p).0->Ok_0,
            reader::var_i64s_at(d, p).1,
        ),
        reader::var_i32s_at(d, p).0 is Ok ==> dump::var_i32s_or_zero(d, p) == (
            reader::var_i32s_at(d, p).0->Ok_0,
            reader::var_i32s_at(d, p).1,
        ),
{
    reveal_with_fuel(op_laws::behind, 2);
    reveal_with_fuel(op_laws::number, 2);
    reveal_strlit("?");
    assert("?"@ =~= seq!['?']);
    if let (Ok(n), q) = reader::varint_at(d, p) {
        dump_forms::i64s_agree(d, q, n as nat, Seq::empty());
        dump_forms::i32s_agree(d, q, n as nat, Seq::empty());
    }
}

/// A scalar type is shown in lower case by its tag, of which the low eight bits count; a tag
/// of no type is shown as its number, and an entry without one as an error.
pub proof fn scalars_are_shown_by_their_tags(
    d: Seq<u8>,
    prev: Seq<Seq<char>>,
    version: BytecodeVersion,
)
    ensures
        op_laws::behind(d, 0, 1) is None ==> dump::type_text(d, prev, version)
            == "<read error>"@,
        op_laws::behind(d, 0, 1) is Some ==> {
            let tag = op_laws::number(d, 0, 0) % 256;
            let shown = dump::type_text(d, prev, version);
            &&& tag == 0 ==> shown == "i1"@
            &&& tag == 1 ==> shown == "i8"@
            &&& tag == 2 ==> shown == "i16"@
            &&& tag == 3 ==> shown == "i32"@
            &&& tag == 4 ==> shown == "i64"@
            &&& tag == 5 ==> shown == "f16"@
            &&& tag == 6 ==> shown == "bf16"@
            &&& tag == 7 ==> shown == "f32"@
            &&& tag == 8 ==> shown == "tf32"@
            &&& tag == 9 ==> shown == "f64"@
            &&& tag == 10 ==> shown == "f8e4m3fn"@
            &&& tag == 11 ==> shown == "f8e5m2"@
            &&& tag == 17 ==> shown == "token"@
            &&& tag == 18 ==> shown == "f8e8m0fnu"@
            &&& tag == 19 ==> shown == "i4"@
            &&& tag == 20 ==> shown == "f4e2m1fn"@
            &&& tag > 22 ==> shown == "<unknown type tag "@ + text::dec_text(tag as nat) + ">"@
        },
{
    reveal_with_fuel(op_laws::behind, 2);
    reveal_with_fuel(op_laws::number, 2);
}

/// A pointer is shown with its pointee, a tile with its extents and its element, and a tensor
/// view with its extents, its element and its strides.
pub proof fn elements_are_shown(d: Seq<u8>, prev: Seq<Seq<char>>, version: BytecodeVersion)
    ensures
        op_laws::behind(d, 0, 2) is Some ==> {
            let tag = op_laws::number(d, 0, 0) % 256;
            let shown = dump::type_text(d, prev, version);
            let element = shown_entry(prev, op_laws::number(d, 0, 1));
            let (shape, q) = reader::var_i64s_at(d, op_laws::behind(d, 0, 2)->0);
            let (strides, _) = reader::var_i64s_at(d, q);
            let sizes = dump::join(dump::i64_texts(shape->Ok_0), "x"@);
            &&& tag == 12 ==> shown == "ptr<"@ + element + ">"@
            &&& tag == 13 && shape is Ok && sizes.len() == 0 ==> shown == "tile<"@ + element + ">"@
            &&& tag == 13 && shape is Ok && sizes.len() > 0 ==> shown == "tile<"@ + sizes + "x"@
                + element + ">"@
            &&& tag == 14 && shape is Ok && strides is Ok ==> shown == "tensor_view<"@ + dump::join(
                dump::extent_texts(shape->Ok_0),
                "x"@,
            ) + "x"@ + element + ", strides=["@ + dump::join(
                dump::extent_texts(strides->Ok_0),
                ","@,
            ) + "]>"@
        },
{
    reveal_with_fuel(op_laws::behind, 3);
    reveal_with_fuel(op_laws::number, 3);
    reader::varint_advances(d, 0);
    let p1 = reader::varint_at(d, 0).1;
    reader::varint_advances(d, p1);
    let p2 = reader::varint_at(d, p1).1;
    zero_stands_for_what_is_missing(d, p1, prev);
    zero_stands_for_what_is_missing(d, p2, prev);
    reader::var_i64s_advance(d, p2);
    zero_stands_for_what_is_missing(d, reader::var_i64s_at(d, p2).1, prev);
}

/// A padding value as it is shown.
pub open spec fn shown_padding(d: Seq<u8>, p: int, announced: bool) -> Seq<char> {
    if !announced {
        Seq::empty()
    } else if p < d.len() {
        ", padding="@ + text::dec_text(d[p] as nat)
    } else {
        ", padding="@ + text::dec_text(0)
    }
}

/// A view is shown with its tile, the tensor view it is of, and its padding where the lowest
/// of its flags announces it; a gather/scatter view also with its sparse dimension, and a
/// strided view with its strides and its map of dimensions.
pub proof fn views_are_shown(d: Seq<u8>, prev: Seq<Seq<char>>, version: BytecodeVersion)
    ensures
        op_laws::behind(d, 0, 2) is Some ==> {
            let tag = op_laws::number(d, 0, 0) % 256;
            let flags = op_laws::number(d, 0, 1);
            let shown = dump::type_text(d, prev, version);
            let (tile, q) = reader::var_i32s_at(d, op_laws::behind(d, 0, 2)->0);
            let sizes = dump::join(dump::i32_texts(tile->Ok_0), "x"@);
            let (steps, u) = reader::var_i32s_at(d, q);
            let v = op_laws::behind(d, u, 1);
            let (map, w) = reader::var_i32s_at(d, v->0);
            &&& tag == 21 && tile is Ok && op_laws::behind(d, q, 2) is Some ==> shown
                == "gather_scatter_view<tile=("@ + sizes + "), tv="@ + shown_entry(
                prev,
                op_laws::number(d, q, 0),
            ) + ", sparse_dim="@ + text::dec_text(op_laws::number(d, q, 1) as nat) + shown_padding(
                d,
                op_laws::behind(d, q, 2)->0,
                flags % 2 == 1,
            ) + ">"@
            &&& tag == 22 && tile is Ok && steps is Ok && v is Some && map is Ok ==> shown
                == "strided_view<tile=("@ + sizes + "), traversal_strides=["@ + dump::join(
                dump::i32_texts(steps->Ok_0),
                ","@,
            ) + "], tv="@ + shown_entry(prev, op_laws::number(d, u, 0)) + ", dim_map=["@
                + dump::join(dump::i32_texts(map->Ok_0), ","@) + "]"@ + shown_padding(
                d,
                w,
                flags % 2 == 1,
            ) + ">"@
        },
{
    reveal_with_fuel(op_laws::behind, 3);
    reveal_with_fuel(op_laws::number, 3);
    reader::varint_advances(d, 0);
    let p1 = reader::varint_at(d, 0).1;
    reader::varint_advances(d, p1);
    let p2 = reader::varint_at(d, p1).1;
    zero_stands_for_what_is_missing(d, p1, prev);
    zero_stands_for_what_is_missing(d, p2, prev);
    reader::var_i32s_advance(d, p2);
    let q = reader::var_i32s_at(d, p2).1;
    zero_stands_for_what_is_missing(d, q, prev);
    reader::varint_advances(d, q);
    let r = reader::varint_at(d, q).1;
    zero_stands_for_what_is_missing(d, r, prev);
    reader::varint_advances(d, r);
    zero_stands_for_what_is_missing(d, reader::varint_at(d, r).1, prev);
    reader::var_i32s_advance(d, q);
    let u = reader::var_i32s_at(d, q).1;
    zero_stands_for_what_is_missing(d, u, prev);
    reader::varint_advances(d, u);
    let v = reader::varint_at(d, u).1;
    zero_stands_for_what_is_missing(d, v, prev);
    reader::var_i32s_advance(d, v);
    zero_stands_for_what_is_missing(d, reader::var_i32s_at(d, v).1, prev);
}

/// A partition view is shown with its tile, the tensor view it is of, and its padding: where
/// the lowest of its flags announces it from version 13.3 on, and where a byte that is not zero
/// does before.
pub proof fn partitions_are_shown(d: Seq<u8>, prev: Seq<Seq<char>>, version: BytecodeVersion)
    ensures
        ({
            let new = version.major > 13 || version.major == 13 && version.minor >= 3;
            let o = op_laws::behind(
                d,
                0,
                if new {
                    2
                } else {
                    1
                },
            );
            let flags = op_laws::number(d, 0, 1);
            let shown = dump::type_text(d, prev, version);
            let (tile, q) = reader::var_i32s_at(d, o->0);
            let v = op_laws::behind(d, q, 1);
            let (map, w) = reader::var_i32s_at(d, v->0);
            let begin = "partition_view<tile=("@ + dump::join(dump::i32_texts(tile->Ok_0), "x"@)
                + "), tv="@ + shown_entry(prev, op_laws::number(d, q, 0));
            o is Some && op_laws::number(d, 0, 0) % 256 == 15 && tile is Ok && v is Some
                && map is Ok ==> {
                &&& new ==> shown == begin + shown_padding(d, w, flags % 2 == 1) + ">"@
                &&& !new && (w >= d.len() || d[w] == 0) ==> shown == begin + ">"@
                &&& !new && w < d.len() && d[w] != 0 && op_laws::behind(d, w + 1, 1) is Some
                    ==> shown == begin + (", padding="@ + text::dec_text(
                    op_laws::number(d, w + 1, 0) as nat,
                )) + ">"@
            }
        }),
{
    reveal_with_fuel(op_laws::behind, 3);
    reveal_with_fuel(op_laws::number, 3);
    let new = version.major > 13 || version.major == 13 && version.minor >= 3;
    reader::varint_advances(d, 0);
    let p1 = reader::varint_at(d, 0).1;
    reader::varint_advances(d, p1);
    zero_stands_for_what_is_missing(d, p1, prev);
    let o = if new {
        reader::varint_at(d, p1).1
    } else {
        p1
    };
    zero_stands_for_what_is_missing(d, o, prev);
    reader::var_i32s_advance(d, o);
    let q = reader::var_i32s_at(d, o).1;
    zero_stands_for_what_is_missing(d, q, prev);
    reader::varint_advances(d, q);
    let v = reader::varint_at(d, q).1;
    zero_stands_for_what_is_missing(d, v, prev);
    reader::var_i32s_advance(d, v);
    let w = reader::var_i32s_at(d, v).1;
    zero_stands_for_what_is_missing(d, w, prev);
    zero_stands_for_what_is_missing(d, w + 1, prev);
    let (tile, q) = reader::var_i32s_at(d, o);
    let begin = "partition_view<tile=("@ + dump::join(dump::i32_texts(tile->Ok_0), "x"@)
        + "), tv="@ + shown_entry(prev, op_laws::number(d, q, 0));
    assert(begin + Seq::<char>::empty() =~= begin);
}

proof fn names_in_a_row(
    d: Seq<u8>,
    p: int,
    names: Seq<Seq<char>>,
    n: nat,
    acc: Seq<Seq<char>>,
    i: nat,
)
    requires
        op_laws::behind(d, p, n) is Some,
    ensures
        ({
            let (v, q) = dump::name_refs_at(d, p, names, n, acc);
            &&& v.len() == acc.len() + n
            &&& v.take(acc.len() as int) == acc
            &&& q == op_laws::behind(d, p, n)->0
            &&& i < n ==> v[(acc.len() + i) as int] == shown_entry(names, op_laws::number(d, p, i))
        }),
    decreases n,
{
    if n == 0 {
        assert(acc.take(acc.len() as int) =~= acc);
    } else {
        reveal_strlit("?");
        assert("?"@ =~= seq!['?']);
        let (name, q) = dump::name_ref_at(d, p, names);
        let next = acc.push(name);
        if i > 0 {
            names_in_a_row(d, q, names, (n - 1) as nat, next, (i - 1) as nat);
        } else {
            names_in_a_row(d, q, names, (n - 1) as nat, next, 0);
        }
        let v = dump::name_refs_at(d, p, names, n, acc).0;
        assert(v.take(acc.len() as int) =~= next.take(acc.len() as int));
        assert(next.take(acc.len() as int) =~= acc);
        assert(v.take(next.len() as int)[acc.len() as int] == name);
    }
}

/// A function type is shown with its inputs and, behind an arrow, its results, each list in
/// round brackets and with commas.
pub proof fn function_types_are_shown(
    d: Seq<u8>,
    prev: Seq<Seq<char>>,
    version: BytecodeVersion,
    inputs: Seq<Seq<char>>,
    results: Seq<Seq<char>>,
)
    requires
        op_laws::behind(d, 0, 2) is Some,
        op_laws::number(d, 0, 0) % 256 == 16,
        inputs.len() == op_laws::number(d, 0, 1),
        op_laws::behind(d, op_laws::behind(d, 0, 2)->0, inputs.len()) is Some,
        forall|i: nat|
            i < inputs.len() ==> inputs[i as int] == shown_entry(
                prev,
                #[trigger] op_laws::number(d, op_laws::behind(d, 0, 2)->0, i),
            ),
        ({
            let q = op_laws::behind(d, op_laws::behind(d, 0, 2)->0, inputs.len())->0;
            let u = op_laws::behind(d, q, 1);
            &&& u is Some
            &&& results.len() == op_laws::number(d, q, 0)
            &&& op_laws::behind(d, u->0, results.len()) is Some
            &&& forall|i: nat|
                i < results.len() ==> results[i as int] == shown_entry(
                    prev,
                    #[trigger] op_laws::number(d, u->0, i),
                )
        }),
    ensures
        dump::type_text(d, prev, version) == "("@ + dump::join(inputs, ", "@) + ") -> ("@
            + dump::join(results, ", "@) + ")"@,
{
    reveal_with_fuel(op_laws::behind, 3);
    reveal_with_fuel(op_laws::number, 3);
    let p1 = reader::varint_at(d, 0).1;
    let p2 = reader::varint_at(d, p1).1;
    let first = dump::name_refs_at(d, p2, prev, inputs.len(), Seq::empty()).0;
    assert forall|i: int| 0 <= i < inputs.len() implies first[i] == inputs[i] by {
        names_in_a_row(d, p2, prev, inputs.len(), Seq::empty(), i as nat);
        assert(op_laws::number(d, p2, i as nat) == op_laws::number(d, p2, i as nat));
    }
    names_in_a_row(d, p2, prev, inputs.len(), Seq::empty(), 0);
    assert(first =~= inputs);
    let q = op_laws::behind(d, p2, inputs.len())->0;
    let u = reader::varint_at(d, q).1;
    let second = dump::name_refs_at(d, u, prev, results.len(), Seq::empty()).0;
    assert forall|i: int| 0 <= i < results.len() implies second[i] == results[i] by {
        names_in_a_row(d, u, prev, results.len(), Seq::empty(), i as nat);
        assert(op_laws::number(d, u, i as nat) == op_laws::number(d, u, i as nat));
    }
    names_in_a_row(d, u, prev, results.len(), Seq::empty(), 0);
    assert(second =~= results);
}
proof fn globals_in_a_row(
    d: Seq<u8>,
    p: int,
    strings: Seq<Seq<char>>,
    types: Seq<Seq<char>>,
    version: BytecodeVersion,
    n: nat,
    acc: Seq<Seq<char>>,
)
    ensures
        dump::globals_at(d, p, strings, types, version, n, acc) matches Ok(v) ==> v.len()
            == acc.len() + n && v.take(acc.len() as int) == acc,
    decreases n,
{
    if n == 0 {
        assert(acc.take(acc.len() as int) =~= acc);
    } else if let (Ok(g), q) = dump::global_at(d, p, strings, types, version) {
        let next = acc.push(g);
        globals_in_a_row(d, q, strings, types, version, (n - 1) as nat, next);
        if let Ok(v) = dump::globals_at(d, p, strings, types, version, n, acc) {
            assert(v.take(acc.len() as int) =~= v.take(next.len() as int).take(acc.len() as int));
            assert(next.take(acc.len() as int) =~= acc);
        }
    }
}

proof fn functions_in_a_row(
    d: Seq<u8>,
    p: int,
    strings: Seq<Seq<char>>,
    types: Seq<Seq<char>>,
    n: nat,
    acc: Seq<Seq<char>>,
)
    ensures
        dump::function_texts_at(d, p, strings, types, n, acc) matches Ok(v) ==> v.len()
            == acc.len() + n && v.take(acc.len() as int) == acc,
    decreases n,
{
    if n == 0 {
        assert(acc.take(acc.len() as int) =~= acc);
    } else if let (Ok(f), q) = dump::function_text_at(d, p, strings, types) {
        let next = acc.push(f);
        functions_in_a_row(d, q, strings, types, (n - 1) as nat, next);
        if let Ok(v) = dump::function_texts_at(d, p, strings, types, n, acc) {
            assert(v.take(acc.len() as int) =~= v.take(next.len() as int).take(acc.len() as int));
            assert(next.take(acc.len() as int) =~= acc);
        }
    }
}

/// The globals and the functions of a section are as many as the number at its start says, and
/// the first stands right behind it.
pub proof fn shown_sections_are_counted(
    d: Seq<u8>,
    strings: Seq<Seq<char>>,
    types: Seq<Seq<char>>,
    version: BytecodeVersion,
)
    ensures
        ({
            let n = op_laws::number(d, 0, 0);
            let q = op_laws::behind(d, 0, 1);
            let globals = dump::global_section_texts(d, strings, types, version);
            let functions = dump::function_section_texts(d, strings, types);
            &&& q is None ==> globals is Err && functions is Err
            &&& (globals matches Ok(v) ==> v.len() == n && (n > 0 ==> dump::global_at(
                d,
                q->0,
                strings,
                types,
                version,
            ).0 == Ok::<Seq<char>, DecodeError>(v[0])))
            &&& (functions matches Ok(v) ==> v.len() == n && (n > 0 ==> dump::function_text_at(
                d,
                q->0,
                strings,
                types,
            ).0 == Ok::<Seq<char>, DecodeError>(v[0])))
        }),
{
    reveal_with_fuel(op_laws::behind, 2);
    reveal_with_fuel(op_laws::number, 2);
    if let (Ok(n), q) = reader::varint_at(d, 0) {
        let none = Seq::<Seq<char>>::empty();
        globals_in_a_row(d, q, strings, types, version, n as nat, none);
        functions_in_a_row(d, q, strings, types, n as nat, none);
        if n > 0 {
            if let (Ok(g), r) = dump::global_at(d, q, strings, types, version) {
                globals_in_a_row(d, r, strings, types, version, (n - 1) as nat, none.push(g));
                if let Ok(v) = dump::globals_at(d, q, strings, types, version, n as nat, none) {
                    assert(v.take(1)[0] == none.push(g)[0]);
                }
            }
            if let (Ok(f), r) = dump::function_text_at(d, q, strings, types) {
                functions_in_a_row(d, r, strings, types, (n - 1) as nat, none.push(f));
                if let Ok(v) = dump::function_texts_at(d, q, strings, types, n as nat, none) {
                    assert(v.take(1)[0] == none.push(f)[0]);
                }
            }
        }
    }
}

} // verus!
