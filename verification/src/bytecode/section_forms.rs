//! The byte forms of tables, sections and whole buffers, and what the reader gives
//! back of them.

use vstd::arithmetic::power::*;
use vstd::prelude::*;
use vstd::utf8::*;

use crate::bytecode::decoder;
use crate::bytecode::encoding;
use crate::bytecode::enums::{BytecodeVersion, ALIGNMENT_BYTE, MAGIC};
use crate::bytecode::reader;
use crate::bytecode::sections;
use crate::bytecode::type_forms;
use crate::bytecode::types;
use crate::error::DecodeError;
use crate::ir::TypeModel;

verus! {

/// The form of `n` alignment bytes.
pub open spec fn fill_form(n: nat) -> Seq<u8> {
    Seq::new(n, |i: int| ALIGNMENT_BYTE)
}

/// Alignment bytes are read back.
pub proof fn fill_round_trip(d: Seq<u8>, p: int, n: nat)
    requires
        encoding::holds(d, p, fill_form(n)),
    ensures
        reader::fill_at(d, p, n) == encoding::read_ok((), p + n),
    decreases n,
{
    if n > 0 {
        let first = fill_form(1);
        assert(fill_form(n) =~= first + fill_form((n - 1) as nat));
        encoding::holds_split(d, p, first, fill_form((n - 1) as nat));
        assert(d.subrange(p, p + 1)[0] == d[p]);
        fill_round_trip(d, p + 1, (n - 1) as nat);
    }
}

/// Byte strings one behind the other.
pub open spec fn concat(s: Seq<Seq<u8>>) -> Seq<u8>
    decreases s.len(),
{
    if s.len() == 0 {
        Seq::empty()
    } else {
        concat(s.drop_last()) + s.last()
    }
}

/// Where entry `i` starts among the entries one behind the other.
pub open spec fn entry_start(entries: Seq<Seq<u8>>, i: int) -> nat {
    concat(entries.take(i)).len()
}

/// The starts of all entries.
pub open spec fn entry_starts(entries: Seq<Seq<u8>>) -> Seq<nat> {
    Seq::new(entries.len(), |i: int| entry_start(entries, i))
}

/// Entry `i` stands where it starts, up to where the next one starts.
proof fn entry_in_concat(entries: Seq<Seq<u8>>, i: int)
    requires
        0 <= i < entries.len(),
    ensures
        entry_start(entries, i) + entries[i].len() == entry_start(entries, i + 1),
        entry_start(entries, i + 1) <= concat(entries).len(),
        entry_start(entries, entries.len() as int) == concat(entries).len(),
        concat(entries).subrange(
            entry_start(entries, i) as int,
            entry_start(entries, i + 1) as int,
        ) == entries[i],
    decreases entries.len(),
{
    let init = entries.drop_last();
    assert(entries.take(entries.len() as int) =~= entries);
    assert(entries.take(i + 1).drop_last() =~= entries.take(i));
    assert(entries.take(i + 1).last() == entries[i]);
    if i == entries.len() - 1 {
        assert(entries.take(i) =~= init);
        assert(concat(entries).subrange(concat(init).len() as int, concat(entries).len() as int)
            =~= entries[i]);
    } else {
        entry_in_concat(init, i);
        assert(init.take(i) =~= entries.take(i));
        assert(init.take(i + 1) =~= entries.take(i + 1));
        assert(concat(entries).subrange(
            entry_start(entries, i) as int,
            entry_start(entries, i + 1) as int,
        ) =~= concat(init).subrange(
            entry_start(entries, i) as int,
            entry_start(entries, i + 1) as int,
        ));
    }
}

/// The form of offsets of `width` bytes, from number `i` on.
pub open spec fn offsets_form(offsets: Seq<nat>, width: nat, i: nat) -> Seq<u8>
    decreases offsets.len() - i,
{
    if i >= offsets.len() {
        Seq::empty()
    } else {
        encoding::le_form(offsets[i as int], width) + offsets_form(offsets, width, i + 1)
    }
}

/// The form of a table: a count, and, where it is not zero, the gap up to a
/// multiple of `width`, the offsets, and the entries.
pub open spec fn table_form(entries: Seq<Seq<u8>>, width: nat) -> Seq<u8> {
    let count = encoding::varint_form(entries.len());
    if entries.len() == 0 {
        count
    } else {
        count + fill_form(reader::gap(count.len() as int, width as u64) as nat) + offsets_form(
            entry_starts(entries),
            width,
            0,
        ) + concat(entries)
    }
}

/// Offsets that fit into their bytes are read back, from number `i` on; skipping
/// them ends where reading them does.
proof fn offsets_round_trip(d: Seq<u8>, p: int, offsets: Seq<nat>, width: nat, i: nat)
    requires
        i <= offsets.len(),
        encoding::holds(d, p, offsets_form(offsets, width, i)),
        forall|j: int| 0 <= j < offsets.len() ==> (#[trigger] offsets[j]) < pow(256, width),
    ensures
        sections::offsets_at(
            d,
            p,
            (offsets.len() - i) as nat,
            width as int,
            offsets.take(i as int),
        ) == encoding::read_ok(offsets, p + offsets_form(offsets, width, i).len()),
        width == 4 ==> types::skip_offsets_at(d, p, (offsets.len() - i) as nat)
            == encoding::read_ok((), p + offsets_form(offsets, width, i).len()),
    decreases offsets.len() - i,
{
    if i == offsets.len() {
        assert(offsets.take(i as int) =~= offsets);
    } else {
        let first = encoding::le_form(offsets[i as int], width);
        encoding::holds_split(d, p, first, offsets_form(offsets, width, i + 1));
        encoding::le_form_value(offsets[i as int], width);
        encoding::le_round_trip(d, p, offsets[i as int], width);
        offsets_round_trip(d, p + width, offsets, width, i + 1);
        assert(offsets.take(i as int).push(offsets[i as int]) =~= offsets.take((i + 1) as int));
    }
}

/// A table can be written: there are no more entries than a count can say, and the
/// offsets fit into their bytes.
pub open spec fn table_writable(entries: Seq<Seq<u8>>, width: nat) -> bool {
    &&& width == 4 || width == 8
    &&& entries.len() <= u64::MAX
    &&& concat(entries).len() < pow(256, width)
}

/// A table is read back: its data are its entries one behind the other, and its
/// offsets are where they start.
pub proof fn table_round_trip(entries: Seq<Seq<u8>>, width: nat)
    requires
        table_writable(entries, width),
    ensures
        sections::offset_table(table_form(entries, width), width as int) == Ok::<
            (Seq<nat>, Seq<u8>),
            DecodeError,
        >((entry_starts(entries), concat(entries))),
        entries.len() > 0 && width == 4 ==> {
            let d = table_form(entries, width);
            let (n, q) = reader::varint_at(d, 0);
            &&& n == Ok::<u64, DecodeError>(entries.len() as u64)
            &&& reader::padding_at(d, q, 4).0 is Ok
            &&& types::skip_offsets_at(d, reader::padding_at(d, q, 4).1, entries.len()).0 is Ok
            &&& d.subrange(
                types::skip_offsets_at(d, reader::padding_at(d, q, 4).1, entries.len()).1,
                d.len() as int,
            ) == concat(entries)
        },
{
    let d = table_form(entries, width);
    let count = encoding::varint_form(entries.len());
    assert(d.subrange(0, d.len() as int) =~= d);
    if entries.len() == 0 {
        encoding::varint_round_trip(d, 0, 0);
        assert(entry_starts(entries) =~= Seq::empty());
    } else {
        let gap = reader::gap(count.len() as int, width as u64) as nat;
        let fill = fill_form(gap);
        let starts = entry_starts(entries);
        let offsets = offsets_form(starts, width, 0);
        encoding::holds_split(d, 0, count + fill + offsets, concat(entries));
        encoding::holds_split(d, 0, count + fill, offsets);
        encoding::holds_split(d, 0, count, fill);
        encoding::varint_round_trip(d, 0, entries.len() as u64);
        fill_round_trip(d, count.len() as int, gap);
        assert forall|j: int| 0 <= j < starts.len() implies (#[trigger] starts[j]) < pow(
            256,
            width,
        ) by {
            entry_in_concat(entries, j);
        }
        let q = (count + fill).len() as int;
        offsets_round_trip(d, q, starts, width, 0);
        assert(starts.take(0) =~= Seq::empty());
        assert(d.subrange(q + offsets.len(), d.len() as int) =~= concat(entries));
    }
}

/// The entries of a table lie in its data, and are those that were written.
pub proof fn table_entries_round_trip(entries: Seq<Seq<u8>>)
    ensures
        sections::entries_in_range(entry_starts(entries), concat(entries).len()),
        forall|i: int|
            0 <= i < entries.len() ==> #[trigger] sections::entry_bytes(
                entry_starts(entries),
                concat(entries),
                i,
            ) == entries[i],
{
    let starts = entry_starts(entries);
    let len = concat(entries).len();
    assert forall|i: int| 0 <= i < entries.len() implies #[trigger] sections::entry_in_range(
        starts,
        i,
        len,
    ) by {
        entry_in_concat(entries, i);
    }
    assert forall|i: int| 0 <= i < entries.len() implies #[trigger] sections::entry_bytes(
        starts,
        concat(entries),
        i,
    ) == entries[i] by {
        entry_in_concat(entries, i);
    }
}

/// The entries of a string table.
pub open spec fn string_entries(strings: Seq<Seq<char>>) -> Seq<Seq<u8>> {
    Seq::new(strings.len(), |i: int| encode_utf8(strings[i]))
}

/// The strings of a string section are read back.
pub proof fn string_section_round_trip(strings: Seq<Seq<char>>)
    requires
        table_writable(string_entries(strings), 4),
    ensures
        sections::string_section(Some(table_form(string_entries(strings), 4))) == Ok::<
            Seq<Seq<char>>,
            DecodeError,
        >(strings),
{
    let entries = string_entries(strings);
    table_round_trip(entries, 4);
    table_entries_round_trip(entries);
    let starts = entry_starts(entries);
    let read = Seq::new(
        starts.len(),
        |i: int| sections::text_of(sections::entry_bytes(starts, concat(entries), i)),
    );
    assert forall|i: int| 0 <= i < strings.len() implies read[i] == strings[i] by {
        assert(sections::entry_bytes(starts, concat(entries), i) == entries[i]);
        encode_utf8_valid_utf8(strings[i]);
        encode_utf8_decode_utf8(strings[i]);
    }
    assert(read =~= strings);
}

/// The constants of a constant section are read back.
pub proof fn constant_section_round_trip(constants: Seq<Seq<u8>>)
    requires
        table_writable(constants, 8),
    ensures
        sections::constant_section(Some(table_form(constants, 8))) == Ok::<
            Seq<Seq<u8>>,
            DecodeError,
        >(constants),
        sections::table_in_range(Some(table_form(constants, 8)), 8),
{
    table_round_trip(constants, 8);
    table_entries_round_trip(constants);
    let starts = entry_starts(constants);
    let read = Seq::new(
        starts.len(),
        |i: int| sections::entry_bytes(starts, concat(constants), i),
    );
    assert(read =~= constants);
}

/// The entries of a type table.
pub open spec fn type_entries(ts: Seq<TypeModel>, version: BytecodeVersion) -> Seq<Seq<u8>> {
    Seq::new(ts.len(), |i: int| type_forms::type_form(ts[i], ts.take(i), version))
}

/// The entries of a type table one behind the other are the form of the types, from
/// number `i` on.
proof fn type_entries_concat(ts: Seq<TypeModel>, version: BytecodeVersion, i: nat)
    requires
        i <= ts.len(),
    ensures
        concat(type_entries(ts, version)) == concat(type_entries(ts, version).take(i as int))
            + type_forms::types_form(ts, version, i),
    decreases ts.len() - i,
{
    let entries = type_entries(ts, version);
    if i == ts.len() {
        assert(entries.take(i as int) =~= entries);
        assert(concat(entries) + Seq::empty() =~= concat(entries));
    } else {
        type_entries_concat(ts, version, i + 1);
        let next = entries.take((i + 1) as int);
        assert(next.drop_last() =~= entries.take(i as int));
        assert(next.last() == entries[i as int]);
        assert(concat(entries.take(i as int)) + entries[i as int] + type_forms::types_form(
            ts,
            version,
            i + 1,
        ) =~= concat(entries.take(i as int)) + (entries[i as int] + type_forms::types_form(
            ts,
            version,
            i + 1,
        )));
    }
}

/// The types of a type section are read back, where each stands behind what it
/// refers to.
pub proof fn type_section_round_trip(ts: Seq<TypeModel>, version: BytecodeVersion)
    requires
        type_forms::dependency_first(ts),
        table_writable(type_entries(ts, version), 4),
    ensures
        types::type_section(Some(table_form(type_entries(ts, version), 4)), version) == Ok::<
            Seq<TypeModel>,
            DecodeError,
        >(ts),
{
    let entries = type_entries(ts, version);
    table_round_trip(entries, 4);
    if ts.len() == 0 {
        let d = table_form(entries, 4);
        assert(d.subrange(0, d.len() as int) =~= d);
        encoding::varint_round_trip(d, 0, 0);
        assert(ts =~= Seq::empty());
    } else {
        type_entries_concat(ts, version, 0);
        assert(entries.take(0) =~= Seq::empty());
        let data = concat(entries);
        assert(data =~= type_forms::types_form(ts, version, 0));
        assert(data.subrange(0, data.len() as int) =~= data);
        type_forms::types_round_trip(data, 0, ts, version, 0);
        assert(ts.take(0) =~= Seq::empty());
    }
}

/// A section as it is written: its number, its alignment where it has one, and its
/// payload.
pub struct SectionImage {
    pub id: u8,
    pub alignment: Option<u64>,
    pub payload: Seq<u8>,
}

/// The form of a section at a position: the gap up to its alignment depends on it.
pub open spec fn section_form(s: SectionImage, p: int) -> Seq<u8> {
    let len = encoding::varint_form(s.payload.len());
    match s.alignment {
        None => seq![s.id] + len + s.payload,
        Some(a) => {
            let align = encoding::varint_form(a as nat);
            seq![(s.id + 128) as u8] + len + align + fill_form(
                reader::gap(p + 1 + len.len() + align.len(), a) as nat,
            ) + s.payload
        },
    }
}

/// The form of sections one behind the other at a position.
pub open spec fn sections_form(s: Seq<SectionImage>, p: int) -> Seq<u8>
    decreases s.len(),
{
    if s.len() == 0 {
        Seq::empty()
    } else {
        section_form(s[0], p) + sections_form(s.skip(1), p + section_form(s[0], p).len())
    }
}

/// A section can be written: its number is not that of the end marker and leaves
/// the high bit free, and its length can be said.
pub open spec fn section_writable(s: SectionImage) -> bool {
    0 < s.id < 128 && s.payload.len() <= u64::MAX
}

/// The payloads of sections by number, on top of those in `acc`.
pub open spec fn section_map(s: Seq<SectionImage>, acc: Map<u8, Seq<u8>>) -> Map<u8, Seq<u8>>
    decreases s.len(),
{
    if s.len() == 0 {
        acc
    } else {
        section_map(s.skip(1), sections::with_section(acc, s[0].id, s[0].payload))
    }
}

/// The header of a section is read back, and its payload stands behind it.
pub proof fn section_header_round_trip(d: Seq<u8>, p: int, s: SectionImage)
    requires
        encoding::holds(d, p, section_form(s, p)),
        section_writable(s),
    ensures
        ({
            let q = p + section_form(s, p).len() - s.payload.len();
            &&& reader::section_header_at(d, p) == encoding::read_ok(
                reader::SectionHeader { id: s.id, data_len: s.payload.len() as u64 },
                q,
            )
            &&& encoding::holds(d, q, s.payload)
        }),
{
    let len = encoding::varint_form(s.payload.len());
    match s.alignment {
        None => {
            let id = seq![s.id];
            encoding::holds_split(d, p, id + len, s.payload);
            encoding::holds_split(d, p, id, len);
            assert(d.subrange(p, p + 1)[0] == d[p]);
            encoding::varint_round_trip(d, p + 1, s.payload.len() as u64);
        },
        Some(a) => {
            let id = seq![(s.id + 128) as u8];
            let align = encoding::varint_form(a as nat);
            let gap = reader::gap(p + 1 + len.len() + align.len(), a) as nat;
            let fill = fill_form(gap);
            encoding::holds_split(d, p, id + len + align + fill, s.payload);
            encoding::holds_split(d, p, id + len + align, fill);
            encoding::holds_split(d, p, id + len, align);
            encoding::holds_split(d, p, id, len);
            assert(d.subrange(p, p + 1)[0] == d[p]);
            encoding::varint_round_trip(d, p + 1, s.payload.len() as u64);
            encoding::varint_round_trip(d, p + 1 + len.len(), a);
            fill_round_trip(d, p + 1 + len.len() + align.len(), gap);
        },
    }
}

/// Sections up to the end marker are read back, on top of those read before them.
/// Whatever stands behind the end marker does not matter.
proof fn sections_round_trip(d: Seq<u8>, p: int, s: Seq<SectionImage>, acc: Map<u8, Seq<u8>>)
    requires
        encoding::holds(d, p, sections_form(s, p) + seq![0u8]),
        forall|i: int| 0 <= i < s.len() ==> section_writable(#[trigger] s[i]),
    ensures
        sections::sections_at(d, p, acc) == encoding::read_ok(
            section_map(s, acc),
            p + sections_form(s, p).len() + 1,
        ),
    decreases s.len(),
{
    if s.len() == 0 {
        assert(sections_form(s, p) + seq![0u8] =~= seq![0u8]);
        assert(d.subrange(p, p + 1)[0] == d[p]);
    } else {
        let first = section_form(s[0], p);
        let q = p + first.len();
        let rest = sections_form(s.skip(1), q) + seq![0u8];
        assert(sections_form(s, p) + seq![0u8] =~= first + rest);
        encoding::holds_split(d, p, first, rest);
        section_header_round_trip(d, p, s[0]);
        sections::section_header_advances(d, p);
        assert forall|i: int| 0 <= i < s.skip(1).len() implies section_writable(
            #[trigger] s.skip(1)[i],
        ) by {
            assert(section_writable(s[i + 1]));
        }
        sections_round_trip(
            d,
            q,
            s.skip(1),
            sections::with_section(acc, s[0].id, s[0].payload),
        );
    }
}

/// The form of the header of a buffer.
pub open spec fn header_form(version: BytecodeVersion) -> Seq<u8> {
    MAGIC@ + seq![version.major, version.minor] + encoding::le_form(version.tag as nat, 2)
}

/// The form of a buffer: its header, its sections and the end marker.
pub open spec fn container_form(version: BytecodeVersion, s: Seq<SectionImage>) -> Seq<u8> {
    header_form(version) + (sections_form(s, 12) + seq![0u8])
}

/// The version of a buffer is read back.
pub proof fn header_round_trip(d: Seq<u8>, version: BytecodeVersion)
    requires
        encoding::holds(d, 0, header_form(version)),
    ensures
        reader::header_at(d, 0) == encoding::read_ok(version, 12),
        header_form(version).len() == 12,
{
    let pair = seq![version.major, version.minor];
    let tag = encoding::le_form(version.tag as nat, 2);
    encoding::byte_widths();
    encoding::le_form_value(version.tag as nat, 2);
    encoding::holds_split(d, 0, MAGIC@ + pair, tag);
    encoding::holds_split(d, 0, MAGIC@, pair);
    assert(d.subrange(8, 10)[0] == d[8]);
    assert(d.subrange(8, 10)[1] == d[9]);
    encoding::le_round_trip(d, 10, version.tag as nat, 2);
}

/// The version and the sections of a buffer are read back, whatever stands behind
/// its end marker. Of two sections with one number the later is kept.
pub proof fn container_round_trip(version: BytecodeVersion, s: Seq<SectionImage>, trailing: Seq<u8>)
    requires
        forall|i: int| 0 <= i < s.len() ==> section_writable(#[trigger] s[i]),
    ensures
        decoder::container_of(container_form(version, s) + trailing) == Ok::<
            (BytecodeVersion, Map<u8, Seq<u8>>),
            DecodeError,
        >((version, section_map(s, Map::empty()))),
{
    let d = container_form(version, s) + trailing;
    let body = sections_form(s, 12) + seq![0u8];
    assert(d.subrange(0, container_form(version, s).len() as int) =~= container_form(version, s));
    encoding::holds_split(d, 0, header_form(version), body);
    header_round_trip(d, version);
    sections_round_trip(d, 12, s, Map::empty());
}

/// The sections of a buffer end with it.
pub proof fn sections_end(version: BytecodeVersion, s: Seq<SectionImage>)
    requires
        forall|i: int| 0 <= i < s.len() ==> section_writable(#[trigger] s[i]),
    ensures
        ({
            let d = container_form(version, s);
            &&& reader::header_at(d, 0) == encoding::read_ok(version, 12)
            &&& sections::sections_at(d, 12, Map::empty()) == encoding::read_ok(
                section_map(s, Map::empty()),
                d.len() as int,
            )
        }),
{
    let d = container_form(version, s);
    let body = sections_form(s, 12) + seq![0u8];
    assert(d.subrange(0, d.len() as int) =~= d);
    encoding::holds_split(d, 0, header_form(version), body);
    header_round_trip(d, version);
    sections_round_trip(d, 12, s, Map::empty());
}

} // verus!
