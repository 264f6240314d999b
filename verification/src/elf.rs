use vstd::prelude::*;

use crate::bytes::{read_u16_at, read_u32_at, read_u64_at, read_u8_at, spec_u16_at, spec_u32_at,
    spec_u64_at};
use crate::strutil::utf8_to_string;
use crate::types::{AnalysisError, ElfInfo};

verus! {

// Machine codes of the architectures this crate names; every other
// code maps to "unknown".
pub const EM_386: u16 = 3;
pub const EM_ARM: u16 = 40;
pub const EM_X86_64: u16 = 62;
pub const EM_AARCH64: u16 = 183;
pub const EM_RISCV: u16 = 243;

// File kind codes of the ELF header's type field.
pub const ET_REL: u16 = 1;
pub const ET_EXEC: u16 = 2;
pub const ET_DYN: u16 = 3;
pub const ET_CORE: u16 = 4;

// -------------------------------------------------------------------
// The ELF identification and header fields, as functions of the raw
// bytes. Multi-byte fields are interpreted with the endianness the
// header itself declares.

pub open spec fn spec_magic_ok(b: Seq<u8>) -> bool {
    b.len() >= 16 && b[0] == 0x7f && b[1] == 0x45 && b[2] == 0x4c && b[3] == 0x46
}

/// The class byte: 1 marks a 32-bit object, 2 a 64-bit one.
pub open spec fn spec_is_64(b: Seq<u8>) -> bool
    recommends
        b.len() >= 16,
{
    b[4] == 2
}

/// The data byte: 1 marks little-endian, 2 big-endian.
pub open spec fn spec_is_le(b: Seq<u8>) -> bool
    recommends
        b.len() >= 16,
{
    b[5] == 1
}

/// The byte length of the ELF header proper for the object's class.
pub open spec fn spec_header_len(b: Seq<u8>) -> int
    recommends
        b.len() >= 16,
{
    if spec_is_64(b) {
        64
    } else {
        52
    }
}

/// The buffer's leading bytes form an ELF header: magic, a known
/// class, a known endianness, and enough bytes for the whole header.
pub open spec fn spec_header_ok(b: Seq<u8>) -> bool {
    &&& spec_magic_ok(b)
    &&& (b[4] == 1 || b[4] == 2)
    &&& (b[5] == 1 || b[5] == 2)
    &&& b.len() >= spec_header_len(b)
}

pub open spec fn spec_etype(b: Seq<u8>) -> u16
    recommends
        spec_header_ok(b),
{
    spec_u16_at(b, 16, spec_is_le(b))
}

pub open spec fn spec_machine(b: Seq<u8>) -> u16
    recommends
        spec_header_ok(b),
{
    spec_u16_at(b, 18, spec_is_le(b))
}

pub open spec fn spec_entry(b: Seq<u8>) -> u64
    recommends
        spec_header_ok(b),
{
    if spec_is_64(b) {
        spec_u64_at(b, 24, spec_is_le(b))
    } else {
        spec_u32_at(b, 24, spec_is_le(b)) as u64
    }
}

pub open spec fn spec_shoff(b: Seq<u8>) -> u64
    recommends
        spec_header_ok(b),
{
    if spec_is_64(b) {
        spec_u64_at(b, 40, spec_is_le(b))
    } else {
        spec_u32_at(b, 32, spec_is_le(b)) as u64
    }
}

pub open spec fn spec_shentsize(b: Seq<u8>) -> u16
    recommends
        spec_header_ok(b),
{
    spec_u16_at(b, if spec_is_64(b) { 58int } else { 46 }, spec_is_le(b))
}

pub open spec fn spec_shnum(b: Seq<u8>) -> u16
    recommends
        spec_header_ok(b),
{
    spec_u16_at(b, if spec_is_64(b) { 60int } else { 48 }, spec_is_le(b))
}

pub open spec fn spec_shstrndx(b: Seq<u8>) -> u16
    recommends
        spec_header_ok(b),
{
    spec_u16_at(b, if spec_is_64(b) { 62int } else { 50 }, spec_is_le(b))
}

pub open spec fn spec_phoff(b: Seq<u8>) -> u64
    recommends
        spec_header_ok(b),
{
    if spec_is_64(b) {
        spec_u64_at(b, 32, spec_is_le(b))
    } else {
        spec_u32_at(b, 28, spec_is_le(b)) as u64
    }
}

pub open spec fn spec_phentsize(b: Seq<u8>) -> u16
    recommends
        spec_header_ok(b),
{
    spec_u16_at(b, if spec_is_64(b) { 54int } else { 42 }, spec_is_le(b))
}

pub open spec fn spec_phnum(b: Seq<u8>) -> u16
    recommends
        spec_header_ok(b),
{
    spec_u16_at(b, if spec_is_64(b) { 56int } else { 44 }, spec_is_le(b))
}

// -------------------------------------------------------------------
// The section header table.

/// The byte size of one section header for the object's class.
pub open spec fn spec_shdr_size(b: Seq<u8>) -> int
    recommends
        b.len() >= 16,
{
    if spec_is_64(b) {
        64
    } else {
        40
    }
}

/// The declared section header table lies inside the buffer and its
/// entries are at least one section header long.
pub open spec fn spec_sections_ok(b: Seq<u8>) -> bool
    recommends
        spec_header_ok(b),
{
    spec_shnum(b) == 0 || {
        &&& spec_shentsize(b) >= spec_shdr_size(b)
        &&& spec_shoff(b) <= b.len()
        &&& spec_shnum(b) * spec_shentsize(b) <= b.len() - spec_shoff(b)
    }
}

/// The buffer is an ELF object this crate recognizes: a well-formed
/// header and an in-bounds section header table.
pub open spec fn spec_elf_ok(b: Seq<u8>) -> bool {
    spec_header_ok(b) && spec_sections_ok(b)
}

/// Where section header `i` starts in the buffer.
pub open spec fn spec_sh_base(b: Seq<u8>, i: int) -> int
    recommends
        spec_elf_ok(b),
        0 <= i < spec_shnum(b),
{
    spec_shoff(b) + i * spec_shentsize(b)
}

pub open spec fn spec_sh_name(b: Seq<u8>, i: int) -> u32
    recommends
        spec_elf_ok(b),
        0 <= i < spec_shnum(b),
{
    spec_u32_at(b, spec_sh_base(b, i), spec_is_le(b))
}

pub open spec fn spec_sh_offset(b: Seq<u8>, i: int) -> u64
    recommends
        spec_elf_ok(b),
        0 <= i < spec_shnum(b),
{
    if spec_is_64(b) {
        spec_u64_at(b, spec_sh_base(b, i) + 24, spec_is_le(b))
    } else {
        spec_u32_at(b, spec_sh_base(b, i) + 16, spec_is_le(b)) as u64
    }
}

pub open spec fn spec_sh_size(b: Seq<u8>, i: int) -> u64
    recommends
        spec_elf_ok(b),
        0 <= i < spec_shnum(b),
{
    if spec_is_64(b) {
        spec_u64_at(b, spec_sh_base(b, i) + 32, spec_is_le(b))
    } else {
        spec_u32_at(b, spec_sh_base(b, i) + 20, spec_is_le(b)) as u64
    }
}

pub open spec fn spec_sh_flags(b: Seq<u8>, i: int) -> u64
    recommends
        spec_elf_ok(b),
        0 <= i < spec_shnum(b),
{
    if spec_is_64(b) {
        spec_u64_at(b, spec_sh_base(b, i) + 8, spec_is_le(b))
    } else {
        spec_u32_at(b, spec_sh_base(b, i) + 8, spec_is_le(b)) as u64
    }
}

/// A buffer shorter than the smallest ELF header, or one whose
/// leading bytes are not the ELF magic, is never a recognized
/// object: analysis of it fails rather than panicking, whatever the
/// rest of the bytes hold.
pub proof fn lemma_unrecognized_input(b: Seq<u8>)
    requires
        b.len() < 52 || !spec_magic_ok(b),
    ensures
        !spec_elf_ok(b),
{
}

/// Every section header of `b` lies inside the buffer.
pub proof fn lemma_shdr_in_bounds(b: Seq<u8>, i: int)
    requires
        spec_elf_ok(b),
        0 <= i < spec_shnum(b),
    ensures
        spec_shoff(b) <= spec_sh_base(b, i),
        spec_sh_base(b, i) + spec_shentsize(b) <= b.len(),
        spec_sh_base(b, i) + spec_shdr_size(b) <= b.len(),
        0 <= i * spec_shentsize(b) <= 0xffff * 0xffff,
{
    let ent = spec_shentsize(b) as int;
    let m = spec_shnum(b) as int;
    assert(0 <= i * ent && i * ent + ent == (i + 1) * ent && (i + 1) * ent <= m * ent && i * ent
        <= 0xffff * 0xffff) by (nonlinear_arith)
        requires
            0 <= i < m,
            0 < ent <= 0xffff,
            m <= 0xffff,
    ;
}

// -------------------------------------------------------------------
// Section names, resolved through the section header string table.

/// The byte range of the section header string table, if the index
/// in the header names an in-bounds section whose bytes all lie in
/// the buffer.
pub open spec fn spec_strtab_range(b: Seq<u8>) -> Option<(int, int)>
    recommends
        spec_elf_ok(b),
{
    if spec_shstrndx(b) < spec_shnum(b) {
        let off = spec_sh_offset(b, spec_shstrndx(b) as int) as int;
        let sz = spec_sh_size(b, spec_shstrndx(b) as int) as int;
        if off + sz <= b.len() {
            Some((off, off + sz))
        } else {
            None
        }
    } else {
        None
    }
}

/// The first position in `[pos, hi)` holding a zero byte, or `hi`.
pub open spec fn spec_first_nul(b: Seq<u8>, pos: int, hi: int) -> int
    recommends
        0 <= pos <= hi <= b.len(),
    decreases hi - pos,
{
    if pos < 0 || pos >= hi {
        hi
    } else if b[pos] == 0 {
        pos
    } else {
        spec_first_nul(b, pos + 1, hi)
    }
}

/// The first-zero search never leaves `[pos, hi]`.
pub proof fn lemma_first_nul_bounds(b: Seq<u8>, pos: int, hi: int)
    requires
        0 <= pos <= hi <= b.len(),
    ensures
        pos <= spec_first_nul(b, pos, hi) <= hi,
    decreases hi - pos,
{
    if pos < hi && b[pos] != 0 {
        lemma_first_nul_bounds(b, pos + 1, hi);
    }
}

/// The name of section `i`: the zero-terminated string the string
/// table holds at the section's name offset, when that offset is in
/// range and the bytes are valid UTF-8; "unnamed" on any lookup
/// failure.
pub open spec fn spec_section_name(b: Seq<u8>, i: int) -> Seq<char>
    recommends
        spec_elf_ok(b),
        0 <= i < spec_shnum(b),
{
    match spec_strtab_range(b) {
        Option::None => "unnamed"@,
        Option::Some((lo, hi)) => {
            let noff = spec_sh_name(b, i) as int;
            if noff < hi - lo {
                let start = lo + noff;
                let stop = spec_first_nul(b, start, hi);
                let name_bytes = b.subrange(start, stop);
                if vstd::utf8::valid_utf8(name_bytes) {
                    vstd::utf8::decode_utf8(name_bytes)
                } else {
                    "unnamed"@
                }
            } else {
                "unnamed"@
            }
        },
    }
}

// -------------------------------------------------------------------
// The names the result records use for the header's enumerated
// fields. Every code outside the known set maps to "unknown" so that
// unrecognized binaries stay describable.

pub open spec fn spec_arch_name(machine: u16) -> Seq<char> {
    if machine == EM_X86_64 {
        "x86_64"@
    } else if machine == EM_386 {
        "i386"@
    } else if machine == EM_AARCH64 {
        "aarch64"@
    } else if machine == EM_ARM {
        "arm"@
    } else if machine == EM_RISCV {
        "riscv"@
    } else {
        "unknown"@
    }
}

pub open spec fn spec_file_type_name(etype: u16) -> Seq<char> {
    if etype == ET_EXEC {
        "executable"@
    } else if etype == ET_DYN {
        "shared_object"@
    } else if etype == ET_REL {
        "relocatable"@
    } else if etype == ET_CORE {
        "core_dump"@
    } else {
        "unknown"@
    }
}

pub open spec fn spec_endian_name(le: bool) -> Seq<char> {
    if le {
        "little_endian"@
    } else {
        "big_endian"@
    }
}

/// The architecture tag for a machine code.
pub fn architecture_name(machine: u16) -> (r: String)
    ensures
        r@ == spec_arch_name(machine),
{
    if machine == EM_X86_64 {
        String::from_str("x86_64")
    } else if machine == EM_386 {
        String::from_str("i386")
    } else if machine == EM_AARCH64 {
        String::from_str("aarch64")
    } else if machine == EM_ARM {
        String::from_str("arm")
    } else if machine == EM_RISCV {
        String::from_str("riscv")
    } else {
        String::from_str("unknown")
    }
}

/// The file kind tag for a header type code.
pub fn file_type_name(etype: u16) -> (r: String)
    ensures
        r@ == spec_file_type_name(etype),
{
    if etype == ET_EXEC {
        String::from_str("executable")
    } else if etype == ET_DYN {
        String::from_str("shared_object")
    } else if etype == ET_REL {
        String::from_str("relocatable")
    } else if etype == ET_CORE {
        String::from_str("core_dump")
    } else {
        String::from_str("unknown")
    }
}

/// The endianness tag for the header's data byte.
pub fn endianness_name(le: bool) -> (r: String)
    ensures
        r@ == spec_endian_name(le),
{
    if le {
        String::from_str("little_endian")
    } else {
        String::from_str("big_endian")
    }
}

fn unnamed_string() -> (r: String)
    ensures
        r@ == "unnamed"@,
{
    String::from_str("unnamed")
}

/// The first position in `[pos, hi)` where `b` holds a zero byte, or
/// `hi` when there is none.
pub(crate) fn find_nul(b: &[u8], pos: usize, hi: usize) -> (r: usize)
    requires
        pos <= hi <= b@.len(),
    ensures
        r == spec_first_nul(b@, pos as int, hi as int),
        pos <= r <= hi,
{
    let mut p = pos;
    while p < hi
        invariant
            pos <= p <= hi <= b@.len(),
            spec_first_nul(b@, pos as int, hi as int) == spec_first_nul(b@, p as int, hi as int),
        decreases hi - p,
    {
        if read_u8_at(b, p) == 0 {
            assert(spec_first_nul(b@, p as int, hi as int) == p);
            return p;
        }
        p = p + 1;
    }
    p
}

/// Checks that the leading bytes of `b` form an ELF header with an
/// in-bounds section header table.
pub fn elf_structure_ok(b: &[u8]) -> (r: bool)
    ensures
        r == spec_elf_ok(b@),
{
    let n = b.len();
    if n < 16 {
        return false;
    }
    if read_u8_at(b, 0) != 0x7f || read_u8_at(b, 1) != 0x45 || read_u8_at(b, 2) != 0x4c
        || read_u8_at(b, 3) != 0x46 {
        return false;
    }
    let class = read_u8_at(b, 4);
    if class != 1 && class != 2 {
        return false;
    }
    let data = read_u8_at(b, 5);
    if data != 1 && data != 2 {
        return false;
    }
    let is64 = class == 2;
    let le = data == 1;
    let hsize: usize = if is64 {
        64
    } else {
        52
    };
    if n < hsize {
        return false;
    }
    let shnum = read_u16_at(b, if is64 { 60 } else { 48 }, le);
    if shnum == 0 {
        return true;
    }
    let shentsize = read_u16_at(b, if is64 { 58 } else { 46 }, le);
    let min_ent: u16 = if is64 {
        64
    } else {
        40
    };
    if shentsize < min_ent {
        return false;
    }
    let shoff = if is64 {
        read_u64_at(b, 40, le)
    } else {
        read_u32_at(b, 32, le) as u64
    };
    if shoff > n as u64 {
        return false;
    }
    assert((shnum as u64) * (shentsize as u64) <= 0xffff * 0xffff) by (nonlinear_arith)
        requires
            shnum <= 0xffff,
            shentsize <= 0xffff,
    ;
    (shnum as u64) * (shentsize as u64) <= n as u64 - shoff
}

/// The name of section `i`, resolved through the section header
/// string table; "unnamed" on any lookup failure.
#[verifier::loop_isolation(false)]
pub fn section_name_at(b: &[u8], i: usize) -> (r: String)
    requires
        spec_elf_ok(b@),
        i < spec_shnum(b@),
    ensures
        r@ == spec_section_name(b@, i as int),
{
    let n = b.len();
    let is64 = read_u8_at(b, 4) == 2;
    let le = read_u8_at(b, 5) == 1;
    let shnum = read_u16_at(b, if is64 { 60 } else { 48 }, le);
    let shstrndx = read_u16_at(b, if is64 { 62 } else { 50 }, le);
    let shentsize = read_u16_at(b, if is64 { 58 } else { 46 }, le);
    let shoff = if is64 {
        read_u64_at(b, 40, le)
    } else {
        read_u32_at(b, 32, le) as u64
    };

    // Resolve the section header string table; when it cannot be
    // resolved the name is "unnamed".
    let strtab: Option<(usize, usize)> = if shstrndx < shnum {
        proof {
            lemma_shdr_in_bounds(b@, shstrndx as int);
        }
        let base = (shoff + (shstrndx as u64) * (shentsize as u64)) as usize;
        let off = if is64 {
            read_u64_at(b, base + 24, le)
        } else {
            read_u32_at(b, base + 16, le) as u64
        };
        let sz = if is64 {
            read_u64_at(b, base + 32, le)
        } else {
            read_u32_at(b, base + 20, le) as u64
        };
        if off <= n as u64 && sz <= n as u64 - off {
            Some((off as usize, (off + sz) as usize))
        } else {
            None
        }
    } else {
        None
    };
    assert(match strtab {
        Option::Some((lo, hi)) => spec_strtab_range(b@) == Option::Some((lo as int, hi as int)),
        Option::None => spec_strtab_range(b@) is None,
    });

    proof {
        lemma_shdr_in_bounds(b@, i as int);
    }
    let base = (shoff + (i as u64) * (shentsize as u64)) as usize;
    let name_off = read_u32_at(b, base, le);
    match strtab {
        Some((lo, hi)) => {
            if (name_off as u64) < (hi - lo) as u64 {
                let start = lo + name_off as usize;
                let stop = find_nul(b, start, hi);
                let name_bytes = vstd::slice::slice_subrange(b, start, stop);
                match utf8_to_string(name_bytes) {
                    Some(s) => s,
                    None => unnamed_string(),
                }
            } else {
                unnamed_string()
            }
        },
        None => unnamed_string(),
    }
}

/// The names of all sections, in on-disk order.
#[verifier::loop_isolation(false)]
fn read_section_names(b: &[u8]) -> (names: Vec<String>)
    requires
        spec_elf_ok(b@),
    ensures
        names@.len() == spec_shnum(b@),
        forall|i: int|
            0 <= i < names@.len() ==> names@[i]@ == spec_section_name(b@, i),
{
    let is64 = read_u8_at(b, 4) == 2;
    let le = read_u8_at(b, 5) == 1;
    let shnum = read_u16_at(b, if is64 { 60 } else { 48 }, le);
    let mut names: Vec<String> = Vec::new();
    let mut i: usize = 0;
    while i < shnum as usize
        invariant
            names@.len() == i,
            i <= spec_shnum(b@),
            forall|j: int| 0 <= j < i ==> names@[j]@ == spec_section_name(b@, j),
        decreases shnum as int - i,
    {
        let name = section_name_at(b, i);
        names.push(name);
        i = i + 1;
    }
    names
}

/// Decode the ELF header and section names of `buffer` into the base
/// facts of an [`ElfInfo`], with empty symbol lists.
///
/// Fails with `NotARecognizedObject` exactly when the buffer does
/// not carry the ELF magic, a known class and endianness, a complete
/// header, and an in-bounds section header table.
pub fn analyze_elf_from_bytes_basic(buffer: &[u8]) -> (r: Result<ElfInfo, AnalysisError>)
    ensures
        r is Ok <==> spec_elf_ok(buffer@),
        r matches Err(e) ==> e == AnalysisError::NotARecognizedObject,
        r matches Ok(info) ==> {
            &&& info.architecture@ == spec_arch_name(spec_machine(buffer@))
            &&& info.file_type@ == spec_file_type_name(spec_etype(buffer@))
            &&& info.endianness@ == spec_endian_name(spec_is_le(buffer@))
            &&& info.entry_point == spec_entry(buffer@)
            &&& info.sections@.len() == spec_shnum(buffer@)
            &&& (forall|i: int|
                0 <= i < info.sections@.len() ==> info.sections@[i]@ == spec_section_name(
                    buffer@,
                    i,
                ))
            &&& info.functions@.len() == 0
            &&& info.variables@.len() == 0
            &&& info.types@.len() == 0
        },
{
    if !elf_structure_ok(buffer) {
        return Err(AnalysisError::NotARecognizedObject);
    }
    let is64 = read_u8_at(buffer, 4) == 2;
    let le = read_u8_at(buffer, 5) == 1;
    let machine = read_u16_at(buffer, 18, le);
    let etype = read_u16_at(buffer, 16, le);
    let entry = if is64 {
        read_u64_at(buffer, 24, le)
    } else {
        read_u32_at(buffer, 24, le) as u64
    };
    let sections = read_section_names(buffer);
    Ok(
        ElfInfo {
            architecture: architecture_name(machine),
            entry_point: entry,
            sections,
            file_type: file_type_name(etype),
            endianness: endianness_name(le),
            functions: Vec::new(),
            variables: Vec::new(),
            types: Vec::new(),
        },
    )
}

} // verus!
