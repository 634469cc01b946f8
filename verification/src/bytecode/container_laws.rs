//! What the order of the sections, the sections that are passed over, and the end of a
//! buffer have to do with what is read of it.

use vstd::prelude::*;

use crate::bytecode::decoder;
use crate::bytecode::encoding;
use crate::bytecode::enums::{BytecodeVersion, Section, NUM_SECTIONS};
use crate::bytecode::reader;
use crate::bytecode::reader::Step;
use crate::bytecode::section_forms;
use crate::bytecode::section_forms::SectionImage;
use crate::bytecode::sections;
use crate::error::DecodeError;
use crate::ir::ModuleModel;

verus! {

/// A section of a buffer: its number and its payload.
#[verifier::ext_equal]
pub struct Frame {
    pub id: u8,
    pub payload: Seq<u8>,
}

/// The sections from `p` up to the end marker, in order, all of them.
pub open spec fn frames_at(d: Seq<u8>, p: int) -> Step<Seq<Frame>>
    decreases d.len() - p,
    when 0 <= p <= d.len()
{
    match reader::section_header_at(d, p) {
        (Err(e), q) => (Err(e), q),
        (Ok(h), q) => if h.id == Section::EndOfBytecode.spec_id() {
            (Ok(Seq::empty()), q)
        } else {
            proof {
                sections::section_header_advances(d, p);
            }
            match reader::bytes_at(d, q, h.data_len as int) {
                (Err(e), q) => (Err(e), q),
                (Ok(payload), q) => match frames_at(d, q) {
                    (Err(e), q) => (Err(e), q),
                    (Ok(rest), q) => (Ok(seq![Frame { id: h.id, payload }] + rest), q),
                },
            }
        },
    }
}

/// The version of a buffer and all of its sections.
pub open spec fn framing_of(d: Seq<u8>) -> Result<(BytecodeVersion, Seq<Frame>), DecodeError> {
    match reader::header_at(d, 0) {
        (Err(e), _) => Err(e),
        (Ok(version), q) => match frames_at(d, q) {
            (Err(e), _) => Err(e),
            (Ok(s), _) => Ok((version, s)),
        },
    }
}

/// The payload of the last section with a number.
pub open spec fn last_payload(s: Seq<Frame>, id: u8) -> Option<Seq<u8>>
    decreases s.len(),
{
    if s.len() == 0 {
        None
    } else {
        match last_payload(s.skip(1), id) {
            Some(p) => Some(p),
            None => if s[0].id == id {
                Some(s[0].payload)
            } else {
                None
            },
        }
    }
}

/// Two lists of sections have the same last payload for each number that is assigned.
pub open spec fn same_payloads(a: Seq<Frame>, b: Seq<Frame>) -> bool {
    forall|id: u8| id < NUM_SECTIONS ==> #[trigger] last_payload(a, id) == last_payload(b, id)
}

/// Of the sections of a buffer, on top of others, the reader keeps the last with each number
/// that is assigned.
proof fn the_last_is_kept(d: Seq<u8>, p: int, acc: Map<u8, Seq<u8>>)
    requires
        0 <= p <= d.len(),
    ensures
        match (frames_at(d, p), sections::sections_at(d, p, acc)) {
            ((Ok(s), q), (Ok(m), r)) => q == r && forall|id: u8| #[trigger]
                sections::section_of(m, id) == (if id < NUM_SECTIONS && last_payload(s, id) is Some {
                    last_payload(s, id)
                } else {
                    sections::section_of(acc, id)
                }),
            ((Err(e), q), (Err(f), r)) => e == f && q == r,
            _ => false,
        },
    decreases d.len() - p,
{
    sections::section_header_advances(d, p);
    if let (Ok(h), q) = reader::section_header_at(d, p) {
        if h.id != Section::EndOfBytecode.spec_id() {
            if let (Ok(payload), q) = reader::bytes_at(d, q, h.data_len as int) {
                let next = sections::with_section(acc, h.id, payload);
                the_last_is_kept(d, q, next);
                if let (Ok(rest), _) = frames_at(d, q) {
                    let s = seq![Frame { id: h.id, payload }] + rest;
                    assert(s.skip(1) =~= rest);
                }
            }
        }
    }
}

/// Buffers of one version with the same last payloads are the same to the reader.
proof fn same_payloads_same_sections(x: Seq<u8>, y: Seq<u8>)
    requires
        framing_of(x) is Ok,
        framing_of(y) is Ok,
        framing_of(x)->Ok_0.0 == framing_of(y)->Ok_0.0,
        same_payloads(framing_of(x)->Ok_0.1, framing_of(y)->Ok_0.1),
    ensures
        decoder::container_of(x) is Ok,
        decoder::container_of(x) == decoder::container_of(y),
{
    let p = reader::header_at(x, 0).1;
    let q = reader::header_at(y, 0).1;
    the_last_is_kept(x, p, Map::empty());
    the_last_is_kept(y, q, Map::empty());
    let s = framing_of(x)->Ok_0.1;
    let t = framing_of(y)->Ok_0.1;
    let a = sections::sections_at(x, p, Map::empty()).0->Ok_0;
    let b = sections::sections_at(y, q, Map::empty()).0->Ok_0;
    assert forall|id: u8| sections::section_of(a, id) == #[trigger] sections::section_of(b, id) by {
        if id < NUM_SECTIONS {
            assert(last_payload(s, id) == last_payload(t, id));
        }
    }
    assert forall|id: u8| a.contains_key(id) == b.contains_key(id) by {
        assert(sections::section_of(a, id) == sections::section_of(b, id));
    }
    assert forall|id: u8| a.contains_key(id) implies a[id] == b[id] by {
        assert(sections::section_of(a, id) == sections::section_of(b, id));
    }
    assert(a =~= b);
}

/// What is read of a buffer depends on its version and on the last payload of each section
/// with an assigned number, and on nothing else: not on the order or the alignment of the
/// sections, nor on how their lengths are spelt, nor on sections that a later one of the
/// same number takes the place of, nor on sections with other numbers, nor on what stands
/// behind the end marker.
pub proof fn payloads_decide_what_is_read(x: Seq<u8>, y: Seq<u8>)
    requires
        framing_of(x) is Ok,
        framing_of(y) is Ok,
        framing_of(x)->Ok_0.0 == framing_of(y)->Ok_0.0,
        same_payloads(framing_of(x)->Ok_0.1, framing_of(y)->Ok_0.1),
    ensures
        decoder::dump_of(x) == decoder::dump_of(y),
        decoder::text_of_buffer(x) == decoder::text_of_buffer(y),
        decoder::module_of(x) == decoder::module_of(y),
        decoder::dump_tables_in_range(x) == decoder::dump_tables_in_range(y),
        decoder::module_tables_in_range(x) == decoder::module_tables_in_range(y),
{
    same_payloads_same_sections(x, y);
}

/// Where the framing of a buffer cannot be read, that is the error of its text and of its
/// module.
pub proof fn framing_errors_are_reported(d: Seq<u8>)
    requires
        framing_of(d) is Err,
    ensures
        decoder::text_of_buffer(d) == Err::<Seq<char>, DecodeError>(framing_of(d)->Err_0),
        decoder::module_of(d) == Err::<ModuleModel, DecodeError>(framing_of(d)->Err_0),
        decoder::dump_tables_in_range(d),
        decoder::module_tables_in_range(d),
{
    if let (Ok(_), q) = reader::header_at(d, 0) {
        the_last_is_kept(d, q, Map::empty());
    }
}

/// The last payload of two lists one behind the other is that of the second, where it has
/// one.
proof fn last_payload_of_both(a: Seq<Frame>, b: Seq<Frame>, id: u8)
    ensures
        last_payload(a + b, id) == (match last_payload(b, id) {
            Some(p) => Some(p),
            None => last_payload(a, id),
        }),
    decreases a.len(),
{
    if a.len() == 0 {
        assert(a + b =~= b);
    } else {
        last_payload_of_both(a.skip(1), b, id);
        assert((a + b).skip(1) =~= a.skip(1) + b);
    }
}

/// The last payload of one section.
proof fn last_payload_of_one(s: Frame, id: u8)
    ensures
        last_payload(seq![s], id) == (if s.id == id {
            Some(s.payload)
        } else {
            None
        }),
{
    reveal_with_fuel(last_payload, 2);
    assert(seq![s].skip(1) =~= Seq::<Frame>::empty());
}

/// Neighbouring sections with different numbers can change places.
pub proof fn sections_can_change_places(before: Seq<Frame>, x: Frame, y: Frame, behind: Seq<Frame>)
    requires
        x.id != y.id,
    ensures
        same_payloads(before + seq![x] + seq![y] + behind, before + seq![y] + seq![x] + behind),
{
    let a = before + seq![x] + seq![y] + behind;
    let b = before + seq![y] + seq![x] + behind;
    assert forall|id: u8| id < NUM_SECTIONS implies #[trigger] last_payload(a, id) == last_payload(
        b,
        id,
    ) by {
        last_payload_of_both(before + seq![x] + seq![y], behind, id);
        last_payload_of_both(before + seq![x], seq![y], id);
        last_payload_of_both(before, seq![x], id);
        last_payload_of_both(before + seq![y] + seq![x], behind, id);
        last_payload_of_both(before + seq![y], seq![x], id);
        last_payload_of_both(before, seq![y], id);
        last_payload_of_one(x, id);
        last_payload_of_one(y, id);
    }
}

/// A section can be left out where its number is not assigned or a later section has the
/// same number.
pub proof fn passed_sections_can_be_left_out(before: Seq<Frame>, x: Frame, behind: Seq<Frame>)
    requires
        x.id >= NUM_SECTIONS || last_payload(behind, x.id) is Some,
    ensures
        same_payloads(before + seq![x] + behind, before + behind),
{
    let a = before + seq![x] + behind;
    let b = before + behind;
    assert forall|id: u8| id < NUM_SECTIONS implies #[trigger] last_payload(a, id) == last_payload(
        b,
        id,
    ) by {
        last_payload_of_both(before + seq![x], behind, id);
        last_payload_of_both(before, seq![x], id);
        last_payload_of_both(before, behind, id);
        last_payload_of_one(x, id);
    }
}

/// The sections that are written.
pub open spec fn frames_of(s: Seq<SectionImage>) -> Seq<Frame> {
    Seq::new(s.len(), |i: int| Frame { id: s[i].id, payload: s[i].payload })
}

/// Every section can be written.
pub open spec fn all_writable(s: Seq<SectionImage>) -> bool {
    forall|i: int| 0 <= i < s.len() ==> section_forms::section_writable(#[trigger] s[i])
}

/// Sections that are written are those of the buffer.
proof fn written_frames_at(d: Seq<u8>, p: int, s: Seq<SectionImage>)
    requires
        encoding::holds(d, p, section_forms::sections_form(s, p) + seq![0u8]),
        all_writable(s),
    ensures
        frames_at(d, p).0 == Ok::<Seq<Frame>, DecodeError>(frames_of(s)),
    decreases s.len(),
{
    if s.len() == 0 {
        assert(section_forms::sections_form(s, p) + seq![0u8] =~= seq![0u8]);
        assert(d.subrange(p, p + 1)[0] == d[p]);
        assert(frames_of(s) =~= Seq::empty());
    } else {
        let first = section_forms::section_form(s[0], p);
        let q = p + first.len();
        let rest = section_forms::sections_form(s.skip(1), q) + seq![0u8];
        assert(section_forms::sections_form(s, p) + seq![0u8] =~= first + rest);
        encoding::holds_split(d, p, first, rest);
        assert(section_forms::section_writable(s[0]));
        section_forms::section_header_round_trip(d, p, s[0]);
        sections::section_header_advances(d, p);
        assert forall|i: int| 0 <= i < s.skip(1).len() implies section_forms::section_writable(
            #[trigger] s.skip(1)[i],
        ) by {
            assert(section_forms::section_writable(s[i + 1]));
        }
        written_frames_at(d, q, s.skip(1));
        let one = seq![Frame { id: s[0].id, payload: s[0].payload }];
        assert(frames_of(s) =~= one + frames_of(s.skip(1)));
    }
}

/// The version and the sections of a buffer that is written are those of the buffer,
/// whatever stands behind its end marker.
pub proof fn written_buffers_are_framed(
    version: BytecodeVersion,
    s: Seq<SectionImage>,
    behind: Seq<u8>,
)
    requires
        all_writable(s),
    ensures
        framing_of(section_forms::container_form(version, s) + behind) == Ok::<
            (BytecodeVersion, Seq<Frame>),
            DecodeError,
        >((version, frames_of(s))),
{
    let form = section_forms::container_form(version, s);
    let d = form + behind;
    let body = section_forms::sections_form(s, 12) + seq![0u8];
    assert(d.subrange(0, form.len() as int) =~= form);
    encoding::holds_split(d, 0, section_forms::header_form(version), body);
    section_forms::header_round_trip(d, version);
    written_frames_at(d, 12, s);
}

/// Bytes that a prefix gives are those of the whole.
proof fn bytes_of_prefix(d: Seq<u8>, k: int, p: int, n: int)
    requires
        0 <= k <= d.len(),
        0 <= p,
        0 <= n,
        reader::bytes_at(d.take(k), p, n).0 is Ok,
    ensures
        reader::bytes_at(d, p, n) == reader::bytes_at(d.take(k), p, n),
        p <= reader::bytes_at(d.take(k), p, n).1 <= k,
{
    assert(d.take(k).subrange(p, p + n) =~= d.subrange(p, p + n));
}

/// A number that a prefix gives is that of the whole.
proof fn base128_of_prefix(d: Seq<u8>, k: int, p: int, more: nat)
    requires
        0 <= k <= d.len(),
        0 <= p,
        reader::base128_at(d.take(k), p, more).0 is Ok,
    ensures
        reader::base128_at(d, p, more) == reader::base128_at(d.take(k), p, more),
        p < reader::base128_at(d.take(k), p, more).1 <= k,
    decreases more,
{
    if d.take(k)[p] >= 128 {
        base128_of_prefix(d, k, p + 1, (more - 1) as nat);
    }
}

/// A variable-length integer that a prefix gives is that of the whole.
proof fn varint_of_prefix(d: Seq<u8>, k: int, p: int)
    requires
        0 <= k <= d.len(),
        0 <= p,
        reader::varint_at(d.take(k), p).0 is Ok,
    ensures
        reader::varint_at(d, p) == reader::varint_at(d.take(k), p),
        p < reader::varint_at(d.take(k), p).1 <= k,
{
    base128_of_prefix(d, k, p, 9);
}

/// Alignment bytes that a prefix gives are those of the whole.
proof fn fill_of_prefix(d: Seq<u8>, k: int, p: int, n: nat)
    requires
        0 <= k <= d.len(),
        0 <= p <= k,
        reader::fill_at(d.take(k), p, n).0 is Ok,
    ensures
        reader::fill_at(d, p, n) == reader::fill_at(d.take(k), p, n),
        p <= reader::fill_at(d.take(k), p, n).1 <= k,
    decreases n,
{
    if n > 0 {
        fill_of_prefix(d, k, p + 1, (n - 1) as nat);
    }
}

/// A section header that a prefix gives is that of the whole.
proof fn section_header_of_prefix(d: Seq<u8>, k: int, p: int)
    requires
        0 <= k <= d.len(),
        0 <= p,
        reader::section_header_at(d.take(k), p).0 is Ok,
    ensures
        reader::section_header_at(d, p) == reader::section_header_at(d.take(k), p),
        p < reader::section_header_at(d.take(k), p).1 <= k,
{
    let e = d.take(k);
    if e[p] % 128 != 0 {
        varint_of_prefix(d, k, p + 1);
        if e[p] >= 128 {
            let q = reader::varint_at(e, p + 1).1;
            varint_of_prefix(d, k, q);
            if let (Ok(alignment), r) = reader::varint_at(e, q) {
                fill_of_prefix(d, k, r, reader::gap(r, alignment) as nat);
            }
        }
    }
}

/// Sections that a prefix gives are those of the whole, and they end in the prefix.
proof fn sections_of_prefix(d: Seq<u8>, k: int, p: int, acc: Map<u8, Seq<u8>>)
    requires
        0 <= k <= d.len(),
        0 <= p <= k,
        sections::sections_at(d.take(k), p, acc).0 is Ok,
    ensures
        sections::sections_at(d, p, acc) == sections::sections_at(d.take(k), p, acc),
        p < sections::sections_at(d.take(k), p, acc).1 <= k,
    decreases k - p,
{
    let e = d.take(k);
    section_header_of_prefix(d, k, p);
    if let (Ok(h), q) = reader::section_header_at(e, p) {
        if h.id != Section::EndOfBytecode.spec_id() {
            bytes_of_prefix(d, k, q, h.data_len as int);
            if let (Ok(payload), r) = reader::bytes_at(e, q, h.data_len as int) {
                sections_of_prefix(d, k, r, sections::with_section(acc, h.id, payload));
            }
        }
    }
}

/// A header that a prefix gives is that of the whole.
proof fn header_of_prefix(d: Seq<u8>, k: int)
    requires
        0 <= k <= d.len(),
        reader::header_at(d.take(k), 0).0 is Ok,
    ensures
        reader::header_at(d, 0) == reader::header_at(d.take(k), 0),
        reader::header_at(d.take(k), 0).1 == 12,
        12 <= k,
{
    bytes_of_prefix(d, k, 0, 8);
    bytes_of_prefix(d, k, 10, 2);
}

/// The end marker of a buffer is its last byte.
pub open spec fn ends_at_its_marker(d: Seq<u8>) -> bool {
    match reader::header_at(d, 0) {
        (Ok(_), q) => match sections::sections_at(d, q, Map::empty()) {
            (Ok(_), end) => end == d.len(),
            _ => false,
        },
        _ => false,
    }
}

/// No buffer that ends at its end marker can be cut short: what is left of it has no text
/// and no module, wherever it is cut, and reading it is an error and nothing worse.
pub proof fn no_strict_prefix_is_accepted(d: Seq<u8>, k: int)
    requires
        ends_at_its_marker(d),
        0 <= k < d.len(),
    ensures
        decoder::text_of_buffer(d.take(k)) is Err,
        decoder::module_of(d.take(k)) is Err,
        decoder::dump_tables_in_range(d.take(k)),
        decoder::module_tables_in_range(d.take(k)),
{
    let e = d.take(k);
    if decoder::container_of(e) is Ok {
        header_of_prefix(d, k);
        sections_of_prefix(d, k, 12, Map::empty());
    }
}

/// A buffer that is written ends at its end marker.
pub proof fn written_buffers_end_at_their_marker(version: BytecodeVersion, s: Seq<SectionImage>)
    requires
        all_writable(s),
    ensures
        ends_at_its_marker(section_forms::container_form(version, s)),
{
    section_forms::sections_end(version, s);
}

} // verus!
