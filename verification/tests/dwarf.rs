use himmel::{analyze_elf_from_bytes, analyze_elf_from_bytes_with_dwarf, AnalysisError};

fn push_u16(v: &mut Vec<u8>, x: u16) {
    v.extend_from_slice(&x.to_le_bytes());
}

fn push_u32(v: &mut Vec<u8>, x: u32) {
    v.extend_from_slice(&x.to_le_bytes());
}

fn push_u64(v: &mut Vec<u8>, x: u64) {
    v.extend_from_slice(&x.to_le_bytes());
}

/// A 64-bit little-endian ET_EXEC image holding the given sections,
/// plus a trailing `.shstrtab` that names them.
fn elf_with_sections(sections: &[(&str, &[u8])]) -> Vec<u8> {
    let shnum = sections.len() + 1;

    // String table: one NUL, then each name NUL-terminated.
    let mut shstrtab: Vec<u8> = vec![0];
    let mut name_offsets: Vec<u32> = Vec::new();
    for (name, _) in sections {
        name_offsets.push(shstrtab.len() as u32);
        shstrtab.extend_from_slice(name.as_bytes());
        shstrtab.push(0);
    }
    let shstrtab_name_offset = shstrtab.len() as u32;
    shstrtab.extend_from_slice(b".shstrtab");
    shstrtab.push(0);

    // Layout: header | section data | shstrtab | section headers.
    let mut data_offsets: Vec<u64> = Vec::new();
    let mut pos: u64 = 64;
    for (_, data) in sections {
        data_offsets.push(pos);
        pos += data.len() as u64;
    }
    let shstrtab_offset = pos;
    pos += shstrtab.len() as u64;
    let shoff = pos;

    let mut v = vec![0x7f, 0x45, 0x4c, 0x46, 2, 1, 1, 0, 0, 0, 0, 0, 0, 0, 0, 0];
    push_u16(&mut v, 2); // ET_EXEC
    push_u16(&mut v, 62); // EM_X86_64
    push_u32(&mut v, 1);
    push_u64(&mut v, 0x401000); // entry
    push_u64(&mut v, 0); // phoff
    push_u64(&mut v, shoff);
    push_u32(&mut v, 0); // flags
    push_u16(&mut v, 64); // ehsize
    push_u16(&mut v, 56); // phentsize
    push_u16(&mut v, 0); // phnum
    push_u16(&mut v, 64); // shentsize
    push_u16(&mut v, shnum as u16);
    push_u16(&mut v, sections.len() as u16); // shstrndx: the last header

    for (_, data) in sections {
        v.extend_from_slice(data);
    }
    v.extend_from_slice(&shstrtab);

    let mut shdr = |name_off: u32, sh_type: u32, offset: u64, size: u64| {
        push_u32(&mut v, name_off);
        push_u32(&mut v, sh_type);
        push_u64(&mut v, 0); // flags
        push_u64(&mut v, 0); // addr
        push_u64(&mut v, offset);
        push_u64(&mut v, size);
        push_u32(&mut v, 0); // link
        push_u32(&mut v, 0); // info
        push_u64(&mut v, 1); // addralign
        push_u64(&mut v, 0); // entsize
    };
    for (i, (_, data)) in sections.iter().enumerate() {
        shdr(name_offsets[i], 1, data_offsets[i], data.len() as u64);
    }
    shdr(
        shstrtab_name_offset,
        3,
        shstrtab_offset,
        shstrtab.len() as u64,
    );
    v
}

/// An abbreviation table declaring a compile unit, a subprogram with
/// a formal parameter, a structure with members, and a variable.
fn debug_abbrev_bytes() -> Vec<u8> {
    vec![
        // 1: compile_unit, has children, no attributes
        0x01, 0x11, 0x01, 0x00, 0x00,
        // 2: subprogram, has children: name (string), low_pc (addr), high_pc (udata)
        0x02, 0x2e, 0x01, 0x03, 0x08, 0x11, 0x01, 0x12, 0x0f, 0x00, 0x00,
        // 3: formal_parameter: name (strp), type (ref4)
        0x03, 0x05, 0x00, 0x03, 0x0e, 0x49, 0x13, 0x00, 0x00,
        // 4: structure_type, has children: name (string), byte_size (data1)
        0x04, 0x13, 0x01, 0x03, 0x08, 0x0b, 0x0b, 0x00, 0x00,
        // 5: member: name (string), data_member_location (data1), type (ref4)
        0x05, 0x0d, 0x00, 0x03, 0x08, 0x38, 0x0b, 0x49, 0x13, 0x00, 0x00,
        // 6: variable: name (string), location (exprloc), type (ref4)
        0x06, 0x34, 0x00, 0x03, 0x08, 0x02, 0x18, 0x49, 0x13, 0x00, 0x00,
        // end of table
        0x00,
    ]
}

/// A version-4 compilation unit: one subprogram with a parameter,
/// one structure whose members reference the structure itself (a
/// type cycle), and one global variable.
fn debug_info_bytes() -> Vec<u8> {
    let mut dies: Vec<u8> = Vec::new();
    dies.push(0x01); // compile_unit

    dies.push(0x02); // subprogram
    dies.extend_from_slice(b"main\0");
    push_u64(&mut dies, 0x1100); // low_pc
    dies.push(100); // high_pc: ULEB byte count

    dies.push(0x03); // formal_parameter
    push_u32(&mut dies, 0); // strp: "argc" at .debug_str offset 0
    push_u32(&mut dies, 1); // type ref4
    dies.push(0x00); // end of subprogram children

    // The structure's offset within the unit; both members point
    // back at it.
    let struct_offset = (dies.len() + 11) as u32;
    dies.push(0x04); // structure_type
    dies.extend_from_slice(b"Point\0");
    dies.push(8); // byte_size

    dies.push(0x05); // member
    dies.extend_from_slice(b"x\0");
    dies.push(0); // offset
    push_u32(&mut dies, struct_offset); // self-reference
    dies.push(0x05); // member
    dies.extend_from_slice(b"y\0");
    dies.push(4); // offset
    push_u32(&mut dies, struct_offset); // self-reference
    dies.push(0x00); // end of structure children

    dies.push(0x06); // variable
    dies.extend_from_slice(b"global_counter\0");
    dies.push(9); // exprloc length
    dies.push(0x03); // DW_OP_addr
    push_u64(&mut dies, 0x2000);
    push_u32(&mut dies, 1); // type ref4

    dies.push(0x00); // end of compile-unit children

    let mut v = Vec::new();
    push_u32(&mut v, (dies.len() + 7) as u32); // unit_length
    push_u16(&mut v, 4); // version
    push_u32(&mut v, 0); // abbrev offset
    v.push(8); // address size
    v.extend_from_slice(&dies);
    v
}

fn elf_with_debug_info() -> Vec<u8> {
    let info = debug_info_bytes();
    let abbrev = debug_abbrev_bytes();
    let strs = b"argc\0".to_vec();
    elf_with_sections(&[
        (".text", &[0u8; 4]),
        (".debug_info", &info),
        (".debug_abbrev", &abbrev),
        (".debug_str", &strs),
    ])
}

#[test]
fn section_names_come_in_on_disk_order() {
    let elf = elf_with_sections(&[(".text", &[0u8; 4]), (".data", &[1u8, 2, 3])]);
    let info = analyze_elf_from_bytes(&elf).unwrap();
    assert_eq!(info.sections, vec![".text", ".data", ".shstrtab"]);
    assert_eq!(info.architecture, "x86_64");
    assert_eq!(info.entry_point, 0x401000);
}

#[test]
fn missing_debug_info_yields_empty_symbol_lists() {
    let elf = elf_with_sections(&[(".text", &[0u8; 4])]);
    let info = analyze_elf_from_bytes_with_dwarf(&elf).unwrap();
    assert!(info.functions.is_empty());
    assert!(info.variables.is_empty());
    assert!(info.types.is_empty());
}

#[test]
fn dwarf_functions_variables_and_types_are_extracted() {
    let elf = elf_with_debug_info();
    let info = analyze_elf_from_bytes_with_dwarf(&elf).unwrap();

    assert_eq!(info.functions.len(), 1);
    let main_fn = &info.functions[0];
    assert_eq!(main_fn.name, "main");
    assert_eq!(main_fn.address, 0x1100);
    assert_eq!(main_fn.size, Some(100));
    assert!(main_fn.return_type.is_none());
    assert_eq!(main_fn.parameters.len(), 1);
    assert_eq!(main_fn.parameters[0].name, "argc");
    assert_eq!(main_fn.parameters[0].scope, "parameter");
    assert_eq!(main_fn.parameters[0].address, None);
    assert_eq!(main_fn.parameters[0].offset, None);
    assert_eq!(main_fn.parameters[0].type_info.name, "unknown");
    assert_eq!(main_fn.parameters[0].type_info.kind, "basic");

    assert_eq!(info.variables.len(), 1);
    let var = &info.variables[0];
    assert_eq!(var.name, "global_counter");
    assert_eq!(var.address, Some(0x2000));
    assert_eq!(var.scope, "global");
    assert_eq!(var.type_info.name, "unknown");
}

#[test]
fn self_referential_type_stays_a_shallow_placeholder() {
    let elf = elf_with_debug_info();
    let info = analyze_elf_from_bytes_with_dwarf(&elf).unwrap();

    assert_eq!(info.types.len(), 1);
    let point = &info.types[0];
    assert_eq!(point.name, "Point");
    assert_eq!(point.size, Some(8));
    assert_eq!(point.kind, "struct");
    assert_eq!(point.members.len(), 2);
    assert_eq!(point.members[0].name, "x");
    assert_eq!(point.members[0].offset, 0);
    assert_eq!(point.members[1].name, "y");
    assert_eq!(point.members[1].offset, 4);
    // The members' type references point back at the structure
    // itself; each is recorded as an unresolved placeholder, never
    // walked.
    for member in &point.members {
        assert_eq!(member.type_info.name, "unknown");
        assert_eq!(member.type_info.kind, "basic");
        assert_eq!(member.type_info.size, None);
        assert!(member.type_info.members.is_empty());
    }
}

#[test]
fn truncated_debug_info_is_absorbed() {
    let info = debug_info_bytes();
    let truncated = &info[..info.len() - 6];
    let abbrev = debug_abbrev_bytes();
    let elf = elf_with_sections(&[
        (".debug_info", truncated),
        (".debug_abbrev", &abbrev),
        (".debug_str", b"argc\0"),
    ]);
    // The truncated unit is abandoned rather than failing analysis.
    let result = analyze_elf_from_bytes_with_dwarf(&elf);
    assert!(result.is_ok());
}

#[test]
fn invalid_utf8_names_are_replaced_not_fatal() {
    // A variable whose inline name is not valid UTF-8: the name is
    // decoded lossily, with a replacement character.
    let mut dies: Vec<u8> = Vec::new();
    dies.push(0x01); // compile_unit
    dies.push(0x06); // variable
    dies.extend_from_slice(&[0xff, 0x41, 0x00]); // invalid byte, then 'A'
    dies.push(1); // exprloc length
    dies.push(0x9c); // some non-address operation
    push_u32(&mut dies, 1); // type ref4
    dies.push(0x00);

    let mut info = Vec::new();
    push_u32(&mut info, (dies.len() + 7) as u32);
    push_u16(&mut info, 4);
    push_u32(&mut info, 0);
    info.push(8);
    info.extend_from_slice(&dies);

    let abbrev = debug_abbrev_bytes();
    let elf = elf_with_sections(&[(".debug_info", &info), (".debug_abbrev", &abbrev)]);
    let out = analyze_elf_from_bytes_with_dwarf(&elf).unwrap();
    assert_eq!(out.variables.len(), 1);
    assert_eq!(out.variables[0].name, "\u{fffd}A");
    assert_eq!(out.variables[0].address, None); // not a literal address
}

#[test]
fn short_buffers_and_bad_magic_are_rejected() {
    assert_eq!(
        analyze_elf_from_bytes(&[]).unwrap_err(),
        AnalysisError::NotARecognizedObject
    );
    assert_eq!(
        analyze_elf_from_bytes(&[0x7f, 0x45, 0x4c, 0x46, 2, 1]).unwrap_err(),
        AnalysisError::NotARecognizedObject
    );
    let mut wrong_magic = vec![0x7f, 0x45, 0x4c, 0x47]; // not "ELF"
    wrong_magic.resize(64, 0);
    assert_eq!(
        analyze_elf_from_bytes(&wrong_magic).unwrap_err(),
        AnalysisError::NotARecognizedObject
    );
    let mut bad_class = vec![0x7f, 0x45, 0x4c, 0x46, 3, 1];
    bad_class.resize(64, 0);
    assert_eq!(
        analyze_elf_from_bytes(&bad_class).unwrap_err(),
        AnalysisError::NotARecognizedObject
    );
}

#[test]
fn big_endian_32_bit_headers_decode() {
    // A 32-bit big-endian ARM shared object with no sections.
    let mut v = vec![0x7f, 0x45, 0x4c, 0x46, 1, 2, 1, 0, 0, 0, 0, 0, 0, 0, 0, 0];
    v.extend_from_slice(&3u16.to_be_bytes()); // ET_DYN
    v.extend_from_slice(&40u16.to_be_bytes()); // EM_ARM
    v.extend_from_slice(&1u32.to_be_bytes());
    v.extend_from_slice(&0x8000u32.to_be_bytes()); // entry
    v.extend_from_slice(&0u32.to_be_bytes()); // phoff
    v.extend_from_slice(&0u32.to_be_bytes()); // shoff
    v.extend_from_slice(&0u32.to_be_bytes()); // flags
    v.extend_from_slice(&52u16.to_be_bytes()); // ehsize
    v.extend_from_slice(&32u16.to_be_bytes()); // phentsize
    v.extend_from_slice(&0u16.to_be_bytes()); // phnum
    v.extend_from_slice(&40u16.to_be_bytes()); // shentsize
    v.extend_from_slice(&0u16.to_be_bytes()); // shnum
    v.extend_from_slice(&0u16.to_be_bytes()); // shstrndx

    let info = analyze_elf_from_bytes(&v).unwrap();
    assert_eq!(info.architecture, "arm");
    assert_eq!(info.file_type, "shared_object");
    assert_eq!(info.endianness, "big_endian");
    assert_eq!(info.entry_point, 0x8000);
}

#[test]
fn unresolvable_section_names_become_unnamed() {
    // A hand-laid image whose first section's name bytes are not
    // valid UTF-8 and whose second section's name offset points past
    // the string table; both resolve to "unnamed" without aborting.
    let shstrtab: Vec<u8> = vec![0, 0xff, 0xfe, 0, b'.', b's', b't', 0];
    let shoff = 64 + shstrtab.len() as u64;

    let mut v = vec![0x7f, 0x45, 0x4c, 0x46, 2, 1, 1, 0, 0, 0, 0, 0, 0, 0, 0, 0];
    push_u16(&mut v, 2); // ET_EXEC
    push_u16(&mut v, 62); // EM_X86_64
    push_u32(&mut v, 1);
    push_u64(&mut v, 0); // entry
    push_u64(&mut v, 0); // phoff
    push_u64(&mut v, shoff);
    push_u32(&mut v, 0); // flags
    push_u16(&mut v, 64); // ehsize
    push_u16(&mut v, 56); // phentsize
    push_u16(&mut v, 0); // phnum
    push_u16(&mut v, 64); // shentsize
    push_u16(&mut v, 3); // shnum
    push_u16(&mut v, 2); // shstrndx
    v.extend_from_slice(&shstrtab);

    let mut shdr = |name_off: u32, offset: u64, size: u64| {
        push_u32(&mut v, name_off);
        push_u32(&mut v, 1); // type
        push_u64(&mut v, 0); // flags
        push_u64(&mut v, 0); // addr
        push_u64(&mut v, offset);
        push_u64(&mut v, size);
        push_u32(&mut v, 0);
        push_u32(&mut v, 0);
        push_u64(&mut v, 1);
        push_u64(&mut v, 0);
    };
    shdr(1, 0, 0); // name bytes are 0xff 0xfe: invalid UTF-8
    shdr(1000, 0, 0); // name offset out of range
    shdr(4, 64, 8); // ".st", the string table itself

    let info = analyze_elf_from_bytes(&v).unwrap();
    assert_eq!(info.sections, vec!["unnamed", "unnamed", ".st"]);
}

#[test]
fn high_pc_as_absolute_address_gives_relative_size() {
    // Two subprograms whose high-pc attribute is an address rather
    // than a byte count: the size is the difference, saturating at
    // zero when the end lies below the entry address.
    let abbrev: Vec<u8> = vec![
        // 1: compile_unit, has children, no attributes
        0x01, 0x11, 0x01, 0x00, 0x00,
        // 2: subprogram, no children: name (string), low_pc (addr), high_pc (addr)
        0x02, 0x2e, 0x00, 0x03, 0x08, 0x11, 0x01, 0x12, 0x01, 0x00, 0x00,
        // end of table
        0x00,
    ];

    let mut dies: Vec<u8> = Vec::new();
    dies.push(0x01); // compile_unit
    dies.push(0x02); // subprogram
    dies.extend_from_slice(b"grows\0");
    push_u64(&mut dies, 0x1000); // low_pc
    push_u64(&mut dies, 0x1040); // high_pc: end address
    dies.push(0x02); // subprogram
    dies.extend_from_slice(b"shrinks\0");
    push_u64(&mut dies, 0x2000); // low_pc
    push_u64(&mut dies, 0x1000); // high_pc below low_pc
    dies.push(0x00); // end of compile-unit children

    let mut info = Vec::new();
    push_u32(&mut info, (dies.len() + 7) as u32);
    push_u16(&mut info, 4);
    push_u32(&mut info, 0);
    info.push(8);
    info.extend_from_slice(&dies);

    let elf = elf_with_sections(&[(".debug_info", &info), (".debug_abbrev", &abbrev)]);
    let out = analyze_elf_from_bytes_with_dwarf(&elf).unwrap();
    assert_eq!(out.functions.len(), 2);
    assert_eq!(out.functions[0].name, "grows");
    assert_eq!(out.functions[0].size, Some(0x40));
    assert_eq!(out.functions[1].name, "shrinks");
    assert_eq!(out.functions[1].size, Some(0));
    assert!(out.functions[0].parameters.is_empty());
}

#[test]
fn sixty_four_bit_units_are_skipped_whole() {
    // A 64-bit unit (the 0xffffffff escape, then an 8-byte length)
    // is not decoded, but the unit after it still is.
    let unit = debug_info_bytes();
    let mut info: Vec<u8> = Vec::new();
    push_u32(&mut info, 0xffff_ffff);
    push_u64(&mut info, 3); // extended length
    info.extend_from_slice(&[0, 0, 0]); // opaque 64-bit unit content
    info.extend_from_slice(&unit);
    let abbrev = debug_abbrev_bytes();
    let elf = elf_with_sections(&[
        (".debug_info", &info),
        (".debug_abbrev", &abbrev),
        (".debug_str", b"argc\0"),
    ]);
    let out = analyze_elf_from_bytes_with_dwarf(&elf).unwrap();
    assert_eq!(out.functions.len(), 1);
    assert_eq!(out.functions[0].name, "main");
    assert_eq!(out.variables.len(), 1);
    assert_eq!(out.types.len(), 1);
}
