use himmel::{analyze_core_from_bytes, analyze_files_from_bytes, AnalysisError};

fn push_u16(v: &mut Vec<u8>, x: u16) {
    v.extend_from_slice(&x.to_le_bytes());
}

fn push_u32(v: &mut Vec<u8>, x: u32) {
    v.extend_from_slice(&x.to_le_bytes());
}

fn push_u64(v: &mut Vec<u8>, x: u64) {
    v.extend_from_slice(&x.to_le_bytes());
}

/// A 64-bit little-endian ELF header with the given file kind and
/// `phnum` program headers starting right after the header.
fn elf_header_64(e_type: u16, phnum: u16) -> Vec<u8> {
    let mut v = vec![0x7f, 0x45, 0x4c, 0x46, 2, 1, 1, 0, 0, 0, 0, 0, 0, 0, 0, 0];
    push_u16(&mut v, e_type);
    push_u16(&mut v, 62); // EM_X86_64
    push_u32(&mut v, 1);
    push_u64(&mut v, 0); // entry
    push_u64(&mut v, if phnum > 0 { 64 } else { 0 }); // phoff
    push_u64(&mut v, 0); // shoff
    push_u32(&mut v, 0); // flags
    push_u16(&mut v, 64); // ehsize
    push_u16(&mut v, 56); // phentsize
    push_u16(&mut v, phnum);
    push_u16(&mut v, 64); // shentsize
    push_u16(&mut v, 0); // shnum
    push_u16(&mut v, 0); // shstrndx
    v
}

fn program_header_64(p_type: u32, offset: u64, filesz: u64) -> Vec<u8> {
    let mut v = Vec::new();
    push_u32(&mut v, p_type);
    push_u32(&mut v, 0); // flags
    push_u64(&mut v, offset);
    push_u64(&mut v, 0); // vaddr
    push_u64(&mut v, 0); // paddr
    push_u64(&mut v, filesz);
    push_u64(&mut v, filesz); // memsz
    push_u64(&mut v, 0); // align
    v
}

#[test]
fn core_with_one_note_segment_yields_one_thread() {
    let payload: Vec<u8> = vec![1, 2, 3, 4, 5];
    let mut core = elf_header_64(4, 1); // ET_CORE
    core.extend_from_slice(&program_header_64(4, 120, payload.len() as u64)); // PT_NOTE
    assert_eq!(core.len(), 120);
    core.extend_from_slice(&payload);

    let info = analyze_core_from_bytes(&core).unwrap();
    assert_eq!(info.architecture, "x86_64");
    assert_eq!(info.threads.len(), 1);
    assert_eq!(info.threads[0].thread_id, 0);
    assert_eq!(info.threads[0].registers, payload);
}

#[test]
fn core_with_several_note_segments_numbers_threads_in_order() {
    let first: Vec<u8> = vec![9, 9, 9];
    let second: Vec<u8> = vec![7; 16];
    let mut core = elf_header_64(4, 3);
    // data starts after 3 program headers: 64 + 3 * 56 = 232
    core.extend_from_slice(&program_header_64(4, 232, first.len() as u64));
    core.extend_from_slice(&program_header_64(1, 0, 0)); // PT_LOAD: ignored
    core.extend_from_slice(&program_header_64(4, 235, second.len() as u64));
    core.extend_from_slice(&first);
    core.extend_from_slice(&second);

    let info = analyze_core_from_bytes(&core).unwrap();
    assert_eq!(info.threads.len(), 2);
    assert_eq!(info.threads[0].thread_id, 0);
    assert_eq!(info.threads[0].registers, first);
    assert_eq!(info.threads[1].thread_id, 1);
    assert_eq!(info.threads[1].registers, second);
}

#[test]
fn core_without_usable_notes_yields_synthetic_thread() {
    let core = elf_header_64(4, 0);

    let info = analyze_core_from_bytes(&core).unwrap();
    assert_eq!(info.threads.len(), 1);
    assert_eq!(info.threads[0].thread_id, 0);
    assert_eq!(info.threads[0].registers, vec![0u8; 64]);
}

#[test]
fn core_note_segment_past_buffer_end_is_skipped() {
    // The single NOTE segment points past the end of the file, so it
    // yields no data and the synthetic thread is substituted.
    let mut core = elf_header_64(4, 1);
    core.extend_from_slice(&program_header_64(4, 4096, 32));

    let info = analyze_core_from_bytes(&core).unwrap();
    assert_eq!(info.threads.len(), 1);
    assert_eq!(info.threads[0].registers, vec![0u8; 64]);
}

#[test]
fn core_analysis_of_non_core_elf_fails() {
    let exec = elf_header_64(2, 0); // ET_EXEC

    let result = analyze_core_from_bytes(&exec);
    assert_eq!(result.unwrap_err(), AnalysisError::NotACoreDump);
}

#[test]
fn core_analysis_of_non_elf_fails() {
    let result = analyze_core_from_bytes(b"not an elf file");
    assert_eq!(result.unwrap_err(), AnalysisError::NotARecognizedObject);
}

#[test]
fn combined_analysis_fills_both_fields() {
    let exec = elf_header_64(2, 0);
    let mut core = elf_header_64(4, 1);
    core.extend_from_slice(&program_header_64(4, 120, 4));
    core.extend_from_slice(&[1, 2, 3, 4]);

    let result = analyze_files_from_bytes(Some(&exec), Some(&core)).unwrap();
    assert!(result.elf_info.is_some());
    assert!(result.coredump_info.is_some());
    assert_eq!(result.coredump_info.unwrap().threads.len(), 1);
}

#[test]
fn combined_analysis_reports_core_failure() {
    let exec = elf_header_64(2, 0);

    let failure = analyze_files_from_bytes(Some(&exec), Some(&exec)).unwrap_err();
    assert_eq!(failure.coredump_error, Some(AnalysisError::NotACoreDump));
    assert_eq!(failure.elf_error, None);
    assert_eq!(failure.message(), "File is not an ELF core dump");
    // The failing core input does not abort the sibling ELF
    // analysis: its result is carried alongside the failure.
    assert!(failure.partial.coredump_info.is_none());
    let elf_info = failure.partial.elf_info.expect("sibling analysis result kept");
    assert_eq!(elf_info.architecture, "x86_64");
    assert_eq!(elf_info.file_type, "executable");
}

#[test]
fn error_messages_name_each_failure() {
    assert_eq!(
        AnalysisError::InputUnreadable.message(),
        "Failed to read ELF file"
    );
    assert_eq!(
        AnalysisError::NotARecognizedObject.message(),
        "File is not a valid ELF binary"
    );
    assert_eq!(
        AnalysisError::NotACoreDump.message(),
        "File is not an ELF core dump"
    );
}
