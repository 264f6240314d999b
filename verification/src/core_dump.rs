use vstd::prelude::*;

use crate::bytes::{read_u16_at, read_u32_at, read_u64_at, read_u8_at, spec_u32_at, spec_u64_at};
use crate::elf::{elf_structure_ok, architecture_name, lemma_shdr_in_bounds, spec_arch_name,
    spec_elf_ok, spec_etype, spec_is_64, spec_is_le, spec_machine, spec_phentsize, spec_phnum,
    spec_phoff, ET_CORE};
use crate::types::{AnalysisError, CoredumpInfo, ThreadInfo};

verus! {

/// The program header type whose segments carry core-dump notes.
pub const PT_NOTE: u32 = 4;

/// The byte size of one program header for the object's class.
pub open spec fn spec_phdr_size(b: Seq<u8>) -> int
    recommends
        b.len() >= 16,
{
    if spec_is_64(b) {
        56
    } else {
        32
    }
}

/// The declared program header table lies inside the buffer and its
/// entries are at least one program header long.
pub open spec fn spec_phdrs_ok(b: Seq<u8>) -> bool
    recommends
        spec_elf_ok(b),
{
    spec_phnum(b) == 0 || {
        &&& spec_phentsize(b) >= spec_phdr_size(b)
        &&& spec_phoff(b) <= b.len()
        &&& spec_phnum(b) * spec_phentsize(b) <= b.len() - spec_phoff(b)
    }
}

/// Where program header `i` starts in the buffer.
pub open spec fn spec_ph_base(b: Seq<u8>, i: int) -> int
    recommends
        spec_elf_ok(b),
        spec_phdrs_ok(b),
        0 <= i < spec_phnum(b),
{
    spec_phoff(b) + i * spec_phentsize(b)
}

pub open spec fn spec_p_type(b: Seq<u8>, i: int) -> u32
    recommends
        spec_elf_ok(b),
        spec_phdrs_ok(b),
        0 <= i < spec_phnum(b),
{
    spec_u32_at(b, spec_ph_base(b, i), spec_is_le(b))
}

pub open spec fn spec_p_offset(b: Seq<u8>, i: int) -> u64
    recommends
        spec_elf_ok(b),
        spec_phdrs_ok(b),
        0 <= i < spec_phnum(b),
{
    if spec_is_64(b) {
        spec_u64_at(b, spec_ph_base(b, i) + 8, spec_is_le(b))
    } else {
        spec_u32_at(b, spec_ph_base(b, i) + 4, spec_is_le(b)) as u64
    }
}

pub open spec fn spec_p_filesz(b: Seq<u8>, i: int) -> u64
    recommends
        spec_elf_ok(b),
        spec_phdrs_ok(b),
        0 <= i < spec_phnum(b),
{
    if spec_is_64(b) {
        spec_u64_at(b, spec_ph_base(b, i) + 32, spec_is_le(b))
    } else {
        spec_u32_at(b, spec_ph_base(b, i) + 16, spec_is_le(b)) as u64
    }
}

/// Program header `i` yields a usable note payload: it has type
/// NOTE, a non-empty file extent, and that extent lies inside the
/// buffer. A segment reaching outside the buffer is skipped, never
/// fatal.
pub open spec fn spec_note_usable(b: Seq<u8>, i: int) -> bool
    recommends
        spec_elf_ok(b),
        spec_phdrs_ok(b),
        0 <= i < spec_phnum(b),
{
    &&& spec_p_type(b, i) == PT_NOTE
    &&& spec_p_filesz(b, i) > 0
    &&& spec_p_offset(b, i) + spec_p_filesz(b, i) <= b.len()
}

pub open spec fn spec_note_payload(b: Seq<u8>, i: int) -> Seq<u8>
    recommends
        spec_elf_ok(b),
        spec_phdrs_ok(b),
        0 <= i < spec_phnum(b),
        spec_note_usable(b, i),
{
    b.subrange(spec_p_offset(b, i) as int, spec_p_offset(b, i) + spec_p_filesz(b, i))
}

/// The usable note payloads among the first `i` program headers, in
/// program-header order.
pub open spec fn spec_notes_upto(b: Seq<u8>, i: int) -> Seq<Seq<u8>>
    recommends
        spec_elf_ok(b),
        spec_phdrs_ok(b),
        0 <= i <= spec_phnum(b),
    decreases i,
{
    if i <= 0 {
        Seq::empty()
    } else {
        spec_notes_upto(b, i - 1) + if spec_note_usable(b, i - 1) {
            seq![spec_note_payload(b, i - 1)]
        } else {
            Seq::empty()
        }
    }
}

/// All usable note payloads of the core file; empty when the program
/// header table itself cannot be resolved.
pub open spec fn spec_note_payloads(b: Seq<u8>) -> Seq<Seq<u8>>
    recommends
        spec_elf_ok(b),
{
    if spec_phdrs_ok(b) {
        spec_notes_upto(b, spec_phnum(b) as int)
    } else {
        Seq::empty()
    }
}

/// The register blob substituted when no note segment yields data:
/// 64 zero bytes.
pub open spec fn spec_zero_registers() -> Seq<u8> {
    Seq::new(64, |i: int| 0u8)
}

/// Everything core-dump analysis promises of its result: the
/// architecture decodes the header's machine field, and the thread
/// list carries the usable note payloads in program-header order
/// with sequential ids — or the one synthetic zero-register thread
/// when no segment yields data.
pub open spec fn spec_core_analysis(b: Seq<u8>, ci: CoredumpInfo) -> bool {
    &&& ci.architecture@ == spec_arch_name(spec_machine(b))
    &&& ci.threads@.len() >= 1
    &&& (spec_note_payloads(b).len() == 0 ==> ci.threads@.len() == 1 && ci.threads@[0].thread_id
        == 0 && ci.threads@[0].registers@ == spec_zero_registers())
    &&& (spec_note_payloads(b).len() > 0 ==> ci.threads@.len() == spec_note_payloads(b).len() && (
    forall|i: int|
        0 <= i < ci.threads@.len() ==> #[trigger] ci.threads@[i].thread_id == i
            && ci.threads@[i].registers@ == spec_note_payloads(b)[i]))
}

/// Every program header of `b` lies inside the buffer.
proof fn lemma_phdr_in_bounds(b: Seq<u8>, i: int)
    requires
        spec_elf_ok(b),
        spec_phdrs_ok(b),
        0 <= i < spec_phnum(b),
    ensures
        spec_phoff(b) <= spec_ph_base(b, i),
        spec_ph_base(b, i) + spec_phentsize(b) <= b.len(),
        spec_ph_base(b, i) + spec_phdr_size(b) <= b.len(),
        0 <= i * spec_phentsize(b) <= 0xffff * 0xffff,
{
    let ent = spec_phentsize(b) as int;
    let m = spec_phnum(b) as int;
    assert(0 <= i * ent && i * ent + ent == (i + 1) * ent && (i + 1) * ent <= m * ent && i * ent
        <= 0xffff * 0xffff) by (nonlinear_arith)
        requires
            0 <= i < m,
            0 < ent <= 0xffff,
            m <= 0xffff,
    ;
}

fn zero_registers() -> (r: Vec<u8>)
    ensures
        r@ == spec_zero_registers(),
{
    let mut r: Vec<u8> = Vec::new();
    let mut i: usize = 0;
    while i < 64
        invariant
            i <= 64,
            r@ =~= spec_zero_registers().take(i as int),
        decreases 64 - i,
    {
        r.push(0);
        i = i + 1;
    }
    assert(r@ =~= spec_zero_registers());
    r
}

/// Walk the program headers of an ELF core dump and slice out the
/// raw register payload of each NOTE segment, one thread per usable
/// segment, ids assigned sequentially from 0 in program-header
/// order.
///
/// Fails with `NotARecognizedObject` when the buffer is not an ELF
/// object this crate recognizes, and with `NotACoreDump` when it is
/// one but its file kind is not core_dump. When no segment yields
/// data the result holds exactly one synthetic thread with id 0 and
/// a 64-byte zero register blob, so the thread list is never empty.
#[verifier::loop_isolation(false)]
pub fn analyze_core_from_bytes(buffer: &[u8]) -> (r: Result<CoredumpInfo, AnalysisError>)
    ensures
        r is Ok <==> spec_elf_ok(buffer@) && spec_etype(buffer@) == ET_CORE,
        r matches Err(e) ==> e == (if spec_elf_ok(buffer@) {
            AnalysisError::NotACoreDump
        } else {
            AnalysisError::NotARecognizedObject
        }),
        r matches Ok(ci) ==> spec_core_analysis(buffer@, ci),
{
    if !elf_structure_ok(buffer) {
        return Err(AnalysisError::NotARecognizedObject);
    }
    let n = buffer.len();
    let is64 = read_u8_at(buffer, 4) == 2;
    let le = read_u8_at(buffer, 5) == 1;
    let machine = read_u16_at(buffer, 18, le);
    let etype = read_u16_at(buffer, 16, le);
    if etype != ET_CORE {
        return Err(AnalysisError::NotACoreDump);
    }

    let phnum = read_u16_at(buffer, if is64 { 56 } else { 44 }, le);
    let phentsize = read_u16_at(buffer, if is64 { 54 } else { 42 }, le);
    let phoff = if is64 {
        read_u64_at(buffer, 32, le)
    } else {
        read_u32_at(buffer, 28, le) as u64
    };
    let min_ent: u16 = if is64 {
        56
    } else {
        32
    };
    let phdrs_ok: bool = phnum == 0 || {
        if phentsize >= min_ent && phoff <= n as u64 {
            assert((phnum as u64) * (phentsize as u64) <= 0xffff * 0xffff) by (nonlinear_arith)
                requires
                    phnum <= 0xffff,
                    phentsize <= 0xffff,
            ;
            (phnum as u64) * (phentsize as u64) <= n as u64 - phoff
        } else {
            false
        }
    };
    assert(phdrs_ok == spec_phdrs_ok(buffer@));

    let mut threads: Vec<ThreadInfo> = Vec::new();
    if phdrs_ok {
        let mut i: usize = 0;
        while i < phnum as usize
            invariant
                i <= phnum,
                threads@.len() == spec_notes_upto(buffer@, i as int).len(),
                forall|j: int| #![trigger threads@[j]]
                    0 <= j < threads@.len() ==> threads@[j].thread_id == j
                        && threads@[j].registers@ == spec_notes_upto(buffer@, i as int)[j],
            decreases phnum as int - i,
        {
            proof {
                lemma_phdr_in_bounds(buffer@, i as int);
            }
            let ghost prev = threads@;
            let base = (phoff + (i as u64) * (phentsize as u64)) as usize;
            let p_type = read_u32_at(buffer, base, le);
            let p_offset = if is64 {
                read_u64_at(buffer, base + 8, le)
            } else {
                read_u32_at(buffer, base + 4, le) as u64
            };
            let p_filesz = if is64 {
                read_u64_at(buffer, base + 32, le)
            } else {
                read_u32_at(buffer, base + 16, le) as u64
            };
            assert(p_type == spec_p_type(buffer@, i as int) && p_offset == spec_p_offset(
                buffer@,
                i as int,
            ) && p_filesz == spec_p_filesz(buffer@, i as int));
            if p_type == PT_NOTE && p_filesz > 0 && p_offset <= n as u64 && p_filesz <= n as u64
                - p_offset {
                let lo = p_offset as usize;
                let hi = (p_offset + p_filesz) as usize;
                let payload = vstd::slice::slice_to_vec(vstd::slice::slice_subrange(buffer, lo, hi));
                let id = threads.len() as u64;
                threads.push(ThreadInfo { thread_id: id, registers: payload });
            }
            proof {
                assert(spec_notes_upto(buffer@, i + 1) =~= spec_notes_upto(buffer@, i as int) + (
                if spec_note_usable(buffer@, i as int) {
                    seq![spec_note_payload(buffer@, i as int)]
                } else {
                    Seq::empty()
                }));
                assert forall|j: int| 0 <= j < threads@.len() implies threads@[j].thread_id == j
                    && threads@[j].registers@ == spec_notes_upto(buffer@, i + 1)[j] by {
                    if j < prev.len() {
                        assert(threads@[j] == prev[j]);
                        assert(spec_notes_upto(buffer@, i + 1)[j] == spec_notes_upto(
                            buffer@,
                            i as int,
                        )[j]);
                    }
                }
            }
            i = i + 1;
        }
        proof {
            assert(spec_note_payloads(buffer@) == spec_notes_upto(buffer@, phnum as int));
            assert(threads@.len() == spec_note_payloads(buffer@).len());
            assert forall|j: int| 0 <= j < threads@.len() implies threads@[j].thread_id == j
                && threads@[j].registers@ == spec_note_payloads(buffer@)[j] by {
                assert(threads@[j].thread_id == j && threads@[j].registers@ == spec_notes_upto(
                    buffer@,
                    i as int,
                )[j]);
            }
        }
    } else {
        proof {
            assert(spec_note_payloads(buffer@).len() == 0);
        }
    }

    if threads.len() == 0 {
        threads.push(ThreadInfo { thread_id: 0, registers: zero_registers() });
    }
    Ok(CoredumpInfo { architecture: architecture_name(machine), threads })
}

} // verus!
