use vstd::prelude::*;

use crate::core_dump::{analyze_core_from_bytes, spec_core_analysis};
use crate::dwarf::{extract_dwarf_info, find_section_bytes, functions_match, spec_dwarf_records,
    spec_function_shape, spec_section_bytes, spec_type_shape, spec_var_shape, types_match,
    variables_match};
use crate::elf::{analyze_elf_from_bytes_basic, spec_arch_name, spec_elf_ok, spec_endian_name,
    spec_entry, spec_etype, spec_file_type_name, spec_is_le, spec_machine, spec_section_name,
    spec_shnum, ET_CORE};
use crate::types::{AnalysisError, AnalysisFailure, AnalysisResult, ElfInfo};

verus! {

/// The function, variable and type records the buffer's debug
/// sections determine: the DWARF walk's value over the named
/// sections' bytes.
pub open spec fn spec_symbol_records(b: Seq<u8>) -> (
    Seq<crate::dwarf::FunctionModel>,
    Seq<crate::dwarf::VariableModel>,
    Seq<crate::dwarf::TypeModel>,
) {
    spec_dwarf_records(
        spec_section_bytes(b, ".debug_info"@),
        spec_section_bytes(b, ".debug_abbrev"@),
        spec_section_bytes(b, ".debug_str"@),
    )
}

/// Everything the ELF analysis promises of its result: the header
/// facts decode the header's machine, type, class and data fields;
/// the section names stand in on-disk order; the symbol lists are
/// exactly the records the DWARF walk determines from the debug
/// sections' bytes (so an absent debug-information section yields
/// empty lists); and every extracted record is shallow, with
/// referenced types represented by unresolved placeholders.
pub open spec fn spec_elf_analysis(b: Seq<u8>, info: ElfInfo) -> bool {
    &&& info.architecture@ == spec_arch_name(spec_machine(b))
    &&& info.file_type@ == spec_file_type_name(spec_etype(b))
    &&& info.endianness@ == spec_endian_name(spec_is_le(b))
    &&& info.entry_point == spec_entry(b)
    &&& info.sections@.len() == spec_shnum(b)
    &&& (forall|i: int|
        0 <= i < info.sections@.len() ==> info.sections@[i]@ == spec_section_name(b, i))
    &&& (spec_section_bytes(b, ".debug_info"@).len() == 0 ==> info.functions@.len() == 0
        && info.variables@.len() == 0 && info.types@.len() == 0)
    &&& functions_match(info.functions@, spec_symbol_records(b).0)
    &&& variables_match(info.variables@, spec_symbol_records(b).1, "global"@)
    &&& types_match(info.types@, spec_symbol_records(b).2)
    &&& (forall|i: int|
        0 <= i < info.functions@.len() ==> spec_function_shape(#[trigger] info.functions@[i]))
    &&& (forall|i: int|
        0 <= i < info.variables@.len() ==> spec_var_shape(#[trigger] info.variables@[i], "global"@))
    &&& (forall|i: int| 0 <= i < info.types@.len() ==> spec_type_shape(#[trigger] info.types@[i]))
}

/// Core-dump analysis succeeds exactly on an ELF object of kind
/// core_dump.
pub open spec fn spec_core_request_ok(b: Seq<u8>) -> bool {
    spec_elf_ok(b) && spec_etype(b) == ET_CORE
}

/// Which failure a rejected core-dump analysis reports.
pub open spec fn spec_core_error(b: Seq<u8>) -> AnalysisError {
    if !spec_elf_ok(b) {
        AnalysisError::NotARecognizedObject
    } else {
        AnalysisError::NotACoreDump
    }
}

/// Decode the ELF header and section names of `buffer`, then enrich
/// the result with whatever the DWARF sections yield: functions,
/// global variables and composite types. Debug information is
/// best-effort decoration — its absence or any decode failure inside
/// it never turns a structurally valid binary into an analysis
/// failure.
pub fn analyze_elf_from_bytes_with_dwarf(buffer: &[u8]) -> (r: Result<ElfInfo, AnalysisError>)
    ensures
        r is Ok <==> spec_elf_ok(buffer@),
        r matches Err(e) ==> e == AnalysisError::NotARecognizedObject,
        r matches Ok(info) ==> spec_elf_analysis(buffer@, info),
{
    match analyze_elf_from_bytes_basic(buffer) {
        Err(e) => Err(e),
        Ok(mut info) => {
            let debug_info = find_section_bytes(buffer, ".debug_info");
            let debug_abbrev = find_section_bytes(buffer, ".debug_abbrev");
            let debug_str = find_section_bytes(buffer, ".debug_str");
            let (functions, variables, types) = extract_dwarf_info(
                debug_info.as_slice(),
                debug_abbrev.as_slice(),
                debug_str.as_slice(),
            );
            info.functions = functions;
            info.variables = variables;
            info.types = types;
            Ok(info)
        },
    }
}

/// Analyze one ELF object from raw bytes; debug-information
/// enrichment included.
pub fn analyze_elf_from_bytes(buffer: &[u8]) -> (r: Result<ElfInfo, AnalysisError>)
    ensures
        r is Ok <==> spec_elf_ok(buffer@),
        r matches Err(e) ==> e == AnalysisError::NotARecognizedObject,
        r matches Ok(info) ==> spec_elf_analysis(buffer@, info),
{
    analyze_elf_from_bytes_with_dwarf(buffer)
}

/// The composed result of a fully successful call: a field present
/// exactly when its input was supplied, each meeting its analysis's
/// whole contract.
pub open spec fn spec_assembled(
    elf_data: Option<&[u8]>,
    core_data: Option<&[u8]>,
    ar: AnalysisResult,
) -> bool {
    &&& (ar.elf_info is Some <==> elf_data is Some)
    &&& (ar.coredump_info is Some <==> core_data is Some)
    &&& (match (elf_data, ar.elf_info) {
        (Some(b), Some(info)) => spec_elf_analysis(b@, info),
        _ => true,
    })
    &&& (match (core_data, ar.coredump_info) {
        (Some(c), Some(ci)) => spec_core_analysis(c@, ci),
        _ => true,
    })
}

/// Run ELF analysis and core-dump analysis on whichever inputs are
/// supplied, and compose the results. An absent input yields an
/// absent field — never an error. A supplied input that fails is
/// reported as that input's failure, and it does not abort a
/// sibling analysis requested in the same call: the sibling's
/// result, when it succeeded, is carried alongside the failure.
pub fn analyze_files_from_bytes(elf_data: Option<&[u8]>, core_data: Option<&[u8]>) -> (r: Result<
    AnalysisResult,
    AnalysisFailure,
>)
    ensures
        r is Ok <==> ((match elf_data {
            Some(b) => spec_elf_ok(b@),
            None => true,
        }) && (match core_data {
            Some(c) => spec_core_request_ok(c@),
            None => true,
        })),
        r matches Ok(ar) ==> spec_assembled(elf_data, core_data, ar),
        r matches Err(f) ==> {
            &&& f.elf_error == (match elf_data {
                Some(b) => if spec_elf_ok(b@) {
                    None
                } else {
                    Some(AnalysisError::NotARecognizedObject)
                },
                None => None::<AnalysisError>,
            })
            &&& f.coredump_error == (match core_data {
                Some(c) => if spec_core_request_ok(c@) {
                    None
                } else {
                    Some(spec_core_error(c@))
                },
                None => None::<AnalysisError>,
            })
            &&& (f.partial.elf_info is Some <==> (elf_data is Some && f.elf_error is None))
            &&& (f.partial.coredump_info is Some <==> (core_data is Some && f.coredump_error
                is None))
            &&& (match (elf_data, f.partial.elf_info) {
                (Some(b), Some(info)) => spec_elf_analysis(b@, info),
                _ => true,
            })
            &&& (match (core_data, f.partial.coredump_info) {
                (Some(c), Some(ci)) => spec_core_analysis(c@, ci),
                _ => true,
            })
        },
{
    let (elf_info, elf_error) = match elf_data {
        Some(b) => match analyze_elf_from_bytes(b) {
            Ok(info) => (Some(info), None),
            Err(e) => (None, Some(e)),
        },
        None => (None, None),
    };
    let (coredump_info, coredump_error) = match core_data {
        Some(c) => match analyze_core_from_bytes(c) {
            Ok(ci) => (Some(ci), None),
            Err(e) => (None, Some(e)),
        },
        None => (None, None),
    };
    let partial = AnalysisResult { elf_info, coredump_info };
    if elf_error.is_none() && coredump_error.is_none() {
        Ok(partial)
    } else {
        Err(AnalysisFailure { elf_error, coredump_error, partial })
    }
}

} // verus!
