//! The sections of a buffer, and the string and constant tables.

use vstd::prelude::*;
use vstd::utf8::*;

use crate::bytecode::attributes;
use crate::bytecode::enums::{Section, NUM_SECTIONS};
use crate::bytecode::reader;
use crate::bytecode::reader::{Reader, Step};
use crate::error::DecodeError;
use crate::text;

verus! {

/// `n` alignment bytes end inside the buffer.
pub proof fn fill_advances(d: Seq<u8>, p: int, n: nat)
    requires
        0 <= p <= d.len(),
    ensures
        p <= reader::fill_at(d, p, n).1 <= d.len(),
    decreases n,
{
    if n > 0 && p < d.len() {
        fill_advances(d, p + 1, (n - 1) as nat);
    }
}

/// A section header ends inside the buffer and takes at least one byte.
pub proof fn section_header_advances(d: Seq<u8>, p: int)
    requires
        0 <= p <= d.len(),
    ensures
        reader::section_header_at(d, p).0 is Ok ==> p < reader::section_header_at(d, p).1
            <= d.len(),
{
    if p < d.len() {
        reader::varint_advances(d, p + 1);
        let q = reader::varint_at(d, p + 1).1;
        reader::varint_advances(d, q);
        let r = reader::varint_at(d, q);
        if r.0 is Ok {
            fill_advances(d, r.1, reader::gap(r.1, r.0->Ok_0) as nat);
        }
    }
}

/// The sections from `p` up to the end marker, on top of those in `acc`. A later
/// section takes the place of an earlier one of the same number; sections with a
/// number that is not assigned are skipped.
pub open spec fn sections_at(d: Seq<u8>, p: int, acc: Map<u8, Seq<u8>>) -> Step<Map<u8, Seq<u8>>>
    decreases d.len() - p,
    when 0 <= p <= d.len()
{
    match reader::section_header_at(d, p) {
        (Err(e), q) => (Err(e), q),
        (Ok(h), q) => if h.id == Section::EndOfBytecode.spec_id() {
            (Ok(acc), q)
        } else {
            proof {
                section_header_advances(d, p);
            }
            match reader::bytes_at(d, q, h.data_len as int) {
                (Err(e), q) => (Err(e), q),
                (Ok(payload), q) => sections_at(d, q, with_section(acc, h.id, payload)),
            }
        },
    }
}

/// The sections with one more.
pub open spec fn with_section(
    sections: Map<u8, Seq<u8>>,
    id: u8,
    payload: Seq<u8>,
) -> Map<u8, Seq<u8>> {
    if id < NUM_SECTIONS {
        sections.insert(id, payload)
    } else {
        sections
    }
}

/// The payload of a section, where it is there.
pub open spec fn section_of(sections: Map<u8, Seq<u8>>, id: u8) -> Option<Seq<u8>> {
    if sections.contains_key(id) {
        Some(sections[id])
    } else {
        None
    }
}

/// The payloads of the sections of a buffer, by number.
pub struct RawSections<'a> {
    data: [Option<&'a [u8]>; 7],
}

impl<'a> View for RawSections<'a> {
    type V = Map<u8, Seq<u8>>;

    closed spec fn view(&self) -> Map<u8, Seq<u8>> {
        Map::new(
            |id: u8| id < NUM_SECTIONS && self.data@[id as int] is Some,
            |id: u8| self.data@[id as int]->Some_0@,
        )
    }
}

impl<'a> RawSections<'a> {
    /// No sections.
    pub fn new() -> (s: Self)
        ensures
            s@ == Map::<u8, Seq<u8>>::empty(),
    {
        let s = RawSections { data: [None, None, None, None, None, None, None] };
        assert(s@ =~= Map::<u8, Seq<u8>>::empty());
        s
    }

    /// Puts a section in; one with a number that is not assigned is dropped.
    pub fn insert(&mut self, id: u8, payload: &'a [u8])
        ensures
            final(self)@ == with_section(old(self)@, id, payload@),
    {
        if id < NUM_SECTIONS {
            self.data[id as usize] = Some(payload);
        }
        assert(self@ =~= with_section(old(self)@, id, payload@));
    }

    /// The payload of a section.
    pub fn get(&self, id: u8) -> (payload: Option<&'a [u8]>)
        ensures
            reader::payload_bytes(payload) == section_of(self@, id),
    {
        if id < NUM_SECTIONS {
            self.data[id as usize]
        } else {
            None
        }
    }
}

/// Reads the sections up to the end marker.
pub fn read_sections<'a>(r: &mut Reader<'a>) -> (s: Result<RawSections<'a>, DecodeError>)
    requires
        old(r).wf(),
    ensures
        Reader::reads_view(
            *old(r),
            *final(r),
            s,
            sections_at(old(r).data@, old(r).pos as int, Map::empty()),
        ),
{
    let mut sections = RawSections::new();
    loop
        invariant
            r.wf(),
            old(r).pos <= r.pos,
            r.data == old(r).data,
            sections_at(old(r).data@, old(r).pos as int, Map::empty()) == sections_at(
                r.data@,
                r.pos as int,
                sections@,
            ),
        decreases r.data@.len() - r.pos,
    {
        proof {
            section_header_advances(r.data@, r.pos as int);
        }
        let header = r.read_section_header()?;
        if header.id == Section::EndOfBytecode.id() {
            return Ok(sections);
        }
        let payload = r.read_bytes(header.data_len)?;
        sections.insert(header.id, payload);
    }
}

/// `n` offsets of `width` bytes behind those in `acc`.
pub open spec fn offsets_at(d: Seq<u8>, p: int, n: nat, width: int, acc: Seq<nat>) -> Step<Seq<nat>>
    decreases n,
{
    if n == 0 {
        (Ok(acc), p)
    } else {
        match reader::le_at(d, p, width) {
            (Err(e), q) => (Err(e), q),
            (Ok(v), q) => offsets_at(d, q, (n - 1) as nat, width, acc.push(v)),
        }
    }
}

/// A table: a count, and, where it is not zero, the gap up to a multiple of
/// `width`, as many offsets of `width` bytes, and the data they point into.
pub open spec fn offset_table(d: Seq<u8>, width: int) -> Result<(Seq<nat>, Seq<u8>), DecodeError> {
    match reader::varint_at(d, 0) {
        (Err(e), _) => Err(e),
        (Ok(n), q) => if n == 0 {
            Ok((Seq::empty(), Seq::empty()))
        } else {
            match reader::padding_at(d, q, width as u64) {
                (Err(e), _) => Err(e),
                (Ok(_), q) => match offsets_at(d, q, n as nat, width, Seq::empty()) {
                    (Err(e), _) => Err(e),
                    (Ok(offsets), q) => Ok((offsets, d.subrange(q, d.len() as int))),
                },
            }
        },
    }
}

/// Where entry `i` of a table ends: at the next offset, or at the end of the data.
pub open spec fn entry_end(offsets: Seq<nat>, i: int, len: nat) -> nat {
    if i + 1 < offsets.len() {
        offsets[i + 1]
    } else {
        len
    }
}

/// Entry `i` of a table lies in the data.
pub open spec fn entry_in_range(offsets: Seq<nat>, i: int, len: nat) -> bool {
    offsets[i] <= entry_end(offsets, i, len) <= len
}

/// Every entry of a table lies in the data.
pub open spec fn entries_in_range(offsets: Seq<nat>, len: nat) -> bool {
    forall|i: int| 0 <= i < offsets.len() ==> #[trigger] entry_in_range(offsets, i, len)
}

/// The bytes of entry `i` of a table.
pub open spec fn entry_bytes(offsets: Seq<nat>, data: Seq<u8>, i: int) -> Seq<u8> {
    data.subrange(offsets[i] as int, entry_end(offsets, i, data.len()) as int)
}

/// The table that a section holds can be read, and its entries lie in its data;
/// or it cannot be read.
pub open spec fn table_in_range(payload: Option<Seq<u8>>, width: int) -> bool {
    match payload {
        None => true,
        Some(d) => match offset_table(d, width) {
            Err(_) => true,
            Ok((offsets, data)) => entries_in_range(offsets, data.len()),
        },
    }
}

/// The values of a sequence of machine integers.
pub open spec fn naturals(s: Seq<u64>) -> Seq<nat> {
    Seq::new(s.len(), |i: int| s[i] as nat)
}

/// Reads a table with offsets of four bytes, or of eight where `wide`.
#[verifier::loop_isolation(false)]
pub fn read_offset_table<'a>(d: &'a [u8], wide: bool) -> (t: Result<(Vec<u64>, &'a [u8]), DecodeError>)
    ensures
        match (t, offset_table(d@, if wide { 8 } else { 4 })) {
            (Ok((offsets, data)), Ok((o, s))) => naturals(offsets@) == o && data@ == s,
            (Err(e), Err(f)) => e == f,
            _ => false,
        },
{
    let ghost width: int = if wide { 8 } else { 4 };
    let mut r = Reader::new(d);
    let count: u64 = r.read_varint()?;
    let mut offsets: Vec<u64> = Vec::new();
    assert(naturals(offsets@) =~= Seq::empty());
    if count == 0 {
        let data = vstd::slice::slice_subrange(d, 0, 0);
        assert(data@ =~= Seq::empty());
        return Ok((offsets, data));
    }
    r.skip_padding(if wide { 8 } else { 4 })?;
    let ghost start = r.pos as int;
    let mut i: u64 = 0;
    while i < count
        invariant
            i <= count,
            r.wf(),
            r.data@ == d@,
            offsets_at(d@, start, count as nat, width, Seq::empty()) == offsets_at(
                d@,
                r.pos as int,
                (count - i) as nat,
                width,
                naturals(offsets@),
            ),
        decreases count - i,
    {
        let v: u64 = if wide {
            r.read_le_u64()?
        } else {
            r.read_le_u32()? as u64
        };
        let ghost before = offsets@;
        offsets.push(v);
        assert(naturals(offsets@) =~= naturals(before).push(v as nat));
        i = i + 1;
    }
    let left: usize = r.remaining();
    let data = r.read_bytes(left as u64)?;
    Ok((offsets, data))
}

/// Whether entry `i` of a table lies in its data.
fn entry_fits(offsets: &Vec<u64>, i: usize, len: usize) -> (b: bool)
    requires
        i < offsets@.len(),
    ensures
        b == entry_in_range(naturals(offsets@), i as int, len as nat),
{
    let start: u64 = offsets[i];
    let end: u64 = if offsets.len() - i > 1 {
        offsets[i + 1]
    } else {
        len as u64
    };
    start <= end && end <= len as u64
}

/// The bytes of entry `i` of a table.
pub fn entry_slice<'a>(offsets: &Vec<u64>, data: &'a [u8], i: usize) -> (s: &'a [u8])
    requires
        i < offsets@.len(),
        entry_in_range(naturals(offsets@), i as int, data@.len()),
    ensures
        s@ == entry_bytes(naturals(offsets@), data@, i as int),
{
    let len: usize = data.len();
    let start: u64 = offsets[i];
    let end: u64 = if offsets.len() - i > 1 {
        offsets[i + 1]
    } else {
        len as u64
    };
    vstd::slice::slice_subrange(data, start as usize, end as usize)
}

/// Whether every entry of a table lies in its data.
pub fn entries_fit(offsets: &Vec<u64>, len: usize) -> (b: bool)
    ensures
        b == entries_in_range(naturals(offsets@), len as nat),
{
    let mut i: usize = 0;
    while i < offsets.len()
        invariant
            i <= offsets.len(),
            forall|j: int|
                0 <= j < i ==> #[trigger] entry_in_range(naturals(offsets@), j, len as nat),
        decreases offsets.len() - i,
    {
        if !entry_fits(offsets, i, len) {
            return false;
        }
        i = i + 1;
    }
    true
}

/// The text of bytes: what they encode in UTF-8, or a mark where they do not.
pub open spec fn text_of(bytes: Seq<u8>) -> Seq<char> {
    if valid_utf8(bytes) {
        decode_utf8(bytes)
    } else {
        "<invalid utf8>"@
    }
}

/// The string that bytes encode in UTF-8, by `std::str::from_utf8`.
///
/// Claimed of it: it succeeds exactly on well-formed UTF-8, and the string holds
/// the characters that the bytes encode.
#[verifier::external_body]
fn utf8_str<'a>(bytes: &'a [u8]) -> (s: Option<&'a str>)
    ensures
        s is Some <==> valid_utf8(bytes@),
        s matches Some(s) ==> s@ == decode_utf8(bytes@),
{
    std::str::from_utf8(bytes).ok()
}

/// The strings of a string section: a table with offsets of four bytes.
pub open spec fn string_section(payload: Option<Seq<u8>>) -> Result<Seq<Seq<char>>, DecodeError> {
    match payload {
        None => Ok(Seq::empty()),
        Some(d) => match offset_table(d, 4) {
            Err(e) => Err(e),
            Ok((offsets, data)) => if entries_in_range(offsets, data.len()) {
                Ok(Seq::new(offsets.len(), |i: int| text_of(entry_bytes(offsets, data, i))))
            } else {
                Err(DecodeError::StringOffset)
            },
        },
    }
}

/// Reads the strings of a string section.
pub fn parse_string_section(payload: Option<&[u8]>) -> (r: Result<Vec<String>, DecodeError>)
    ensures
        match (r, string_section(reader::payload_bytes(payload))) {
            (Ok(v), Ok(m)) => text::texts(v@) == m,
            (Err(e), Err(f)) => e == f,
            _ => false,
        },
{
    let mut strings: Vec<String> = Vec::new();
    let d = match payload {
        None => {
            assert(text::texts(strings@) =~= Seq::empty());
            return Ok(strings);
        },
        Some(d) => d,
    };
    let (offsets, data) = read_offset_table(d, false)?;
    let ghost model = naturals(offsets@);
    let mut i: usize = 0;
    while i < offsets.len()
        invariant
            i <= offsets.len(),
            model == naturals(offsets@),
            offset_table(d@, 4) == Ok::<(Seq<nat>, Seq<u8>), DecodeError>((model, data@)),
            payload == Some(d),
            strings@.len() == i,
            forall|j: int| 0 <= j < i ==> #[trigger] entry_in_range(model, j, data@.len()),
            forall|j: int|
                0 <= j < i ==> (#[trigger] strings@[j])@ == text_of(entry_bytes(model, data@, j)),
        decreases offsets.len() - i,
    {
        if !entry_fits(&offsets, i, data.len()) {
            return Err(DecodeError::StringOffset);
        }
        let bytes = entry_slice(&offsets, data, i);
        let s = match utf8_str(bytes) {
            Some(s) => s.to_owned(),
            None => "<invalid utf8>".to_owned(),
        };
        strings.push(s);
        i = i + 1;
    }
    assert(text::texts(strings@) =~= Seq::new(
        model.len(),
        |i: int| text_of(entry_bytes(model, data@, i)),
    ));
    Ok(strings)
}

/// The constants of a constant section: a table with offsets of eight bytes.
pub open spec fn constant_section(payload: Option<Seq<u8>>) -> Result<Seq<Seq<u8>>, DecodeError> {
    match payload {
        None => Ok(Seq::empty()),
        Some(d) => match offset_table(d, 8) {
            Err(e) => Err(e),
            Ok((offsets, data)) => Ok(
                Seq::new(offsets.len(), |i: int| entry_bytes(offsets, data, i)),
            ),
        },
    }
}

/// Reads the constants of a constant section.
pub fn parse_constant_section(payload: Option<&[u8]>) -> (r: Result<Vec<Vec<u8>>, DecodeError>)
    requires
        table_in_range(reader::payload_bytes(payload), 8),
    ensures
        match (r, constant_section(reader::payload_bytes(payload))) {
            (Ok(v), Ok(m)) => attributes::blobs(v@) == m,
            (Err(e), Err(f)) => e == f,
            _ => false,
        },
{
    let mut constants: Vec<Vec<u8>> = Vec::new();
    let d = match payload {
        None => {
            assert(attributes::blobs(constants@) =~= Seq::empty());
            return Ok(constants);
        },
        Some(d) => d,
    };
    let (offsets, data) = read_offset_table(d, true)?;
    let ghost model = naturals(offsets@);
    let mut i: usize = 0;
    while i < offsets.len()
        invariant
            i <= offsets.len(),
            model == naturals(offsets@),
            entries_in_range(model, data@.len()),
            constants@.len() == i,
            forall|j: int|
                0 <= j < i ==> (#[trigger] constants@[j])@ == entry_bytes(model, data@, j),
        decreases offsets.len() - i,
    {
        assert(entry_in_range(model, i as int, data@.len()));
        let bytes = entry_slice(&offsets, data, i);
        constants.push(vstd::slice::slice_to_vec(bytes));
        i = i + 1;
    }
    assert(attributes::blobs(constants@) =~= Seq::new(
        model.len(),
        |i: int| entry_bytes(model, data@, i),
    ));
    Ok(constants)
}

} // verus!
