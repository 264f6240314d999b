use himmel::{
    analyze_elf_from_bytes, analyze_elf_from_bytes_basic, analyze_files_from_bytes,
    architecture_name, endianness_name, file_type_name, to_json, AnalysisResult, ElfInfo,
    FunctionInfo, MemberInfo, TypeInfo, VariableInfo,
};

/// A minimal valid 64-byte little-endian x86_64 ET_EXEC header with
/// entry point 0x401000 and no section headers.
fn minimal_elf_bytes() -> Vec<u8> {
    let elf_header = vec![
        0x7f, 0x45, 0x4c, 0x46, // ELF magic
        0x02, // 64-bit
        0x01, // Little endian
        0x01, // ELF version
        0x00, // System V ABI
        0x00, 0x00, 0x00, 0x00, 0x00, 0x00, 0x00, 0x00, // Padding
        0x02, 0x00, // ET_EXEC (executable file)
        0x3e, 0x00, // EM_X86_64
        0x01, 0x00, 0x00, 0x00, // Version
        0x00, 0x10, 0x40, 0x00, 0x00, 0x00, 0x00, 0x00, // Entry point
        0x40, 0x00, 0x00, 0x00, 0x00, 0x00, 0x00, 0x00, // Program header offset
        0x00, 0x00, 0x00, 0x00, 0x00, 0x00, 0x00, 0x00, // Section header offset
        0x00, 0x00, 0x00, 0x00, // Flags
        0x40, 0x00, // ELF header size
        0x38, 0x00, // Program header size
        0x00, 0x00, // Program header count
        0x40, 0x00, // Section header size
        0x00, 0x00, // Section header count
        0x00, 0x00, // Section header string table index
    ];
    elf_header
}

#[test]
fn test_analysis_result_serialization() {
    let result = AnalysisResult {
        elf_info: None,
        coredump_info: None,
    };

    let json = to_json(&result).unwrap();
    assert!(json.contains("elf_info"));
    assert!(json.contains("null"));
}

#[test]
fn test_analysis_result_with_data_serialization() {
    let elf_info = ElfInfo {
        architecture: "x86_64".to_string(),
        entry_point: 0x401000,
        sections: vec![".text".to_string(), ".data".to_string()],
        file_type: "executable".to_string(),
        endianness: "little_endian".to_string(),
        functions: Vec::new(),
        variables: Vec::new(),
        types: Vec::new(),
    };

    let result = AnalysisResult {
        elf_info: Some(elf_info),
        coredump_info: None,
    };

    let json = to_json(&result).unwrap();

    assert!(json.contains("x86_64"));
    assert!(json.contains("4198400")); // 0x401000 in decimal
    assert!(json.contains(".text"));
    assert!(json.contains("executable"));
    assert!(json.contains("little_endian"));
}

#[test]
fn test_extract_elf_info_different_architectures() {
    let test_cases = vec![
        (62u16, "x86_64"),
        (3u16, "i386"),
        (183u16, "aarch64"),
        (40u16, "arm"),
        (243u16, "riscv"),
        (999u16, "unknown"), // Unknown architecture
    ];

    for (machine_type, expected_arch) in test_cases {
        let arch_str = architecture_name(machine_type);
        assert_eq!(arch_str, expected_arch);
    }
}

#[test]
fn test_to_json_error_handling() {
    // Test with a result that should serialize properly
    let result = AnalysisResult {
        elf_info: None,
        coredump_info: None,
    };

    let json_result = to_json(&result);
    assert!(json_result.is_ok());

    let json = json_result.unwrap();
    assert!(serde_json::from_str::<serde_json::Value>(&json).is_ok());
}

#[test]
fn test_elf_info_creation() {
    let elf = ElfInfo {
        architecture: "arm".to_string(),
        entry_point: 0x8000,
        sections: vec![".init".to_string(), ".fini".to_string()],
        file_type: "shared_object".to_string(),
        endianness: "big_endian".to_string(),
        functions: Vec::new(),
        variables: Vec::new(),
        types: Vec::new(),
    };

    assert_eq!(elf.architecture, "arm");
    assert_eq!(elf.entry_point, 0x8000);
    assert_eq!(elf.sections.len(), 2);
    assert_eq!(elf.file_type, "shared_object");
    assert_eq!(elf.endianness, "big_endian");
}

#[test]
fn test_analyze_elf_from_bytes_success() {
    let buffer = minimal_elf_bytes();

    let result = analyze_elf_from_bytes(&buffer).unwrap();

    assert_eq!(result.architecture, "x86_64");
    assert_eq!(result.entry_point, 0x401000);
    assert_eq!(result.file_type, "executable");
    assert_eq!(result.endianness, "little_endian");
    assert!(result.sections.is_empty()); // No sections in minimal ELF
}

#[test]
fn test_analyze_elf_from_bytes_invalid() {
    let invalid_data = vec![0x00, 0x01, 0x02, 0x03]; // Not a valid ELF file
    let result = analyze_elf_from_bytes(&invalid_data);
    assert!(result.is_err());
}

#[test]
fn test_analyze_files_from_bytes_elf() {
    let elf_buffer = minimal_elf_bytes();

    let result = analyze_files_from_bytes(Some(&elf_buffer), None).unwrap();

    assert!(result.elf_info.is_some());

    let elf_info = result.elf_info.unwrap();
    assert_eq!(elf_info.architecture, "x86_64");
}

#[test]
fn test_analyze_files_from_bytes_elf_only() {
    let elf_buffer = minimal_elf_bytes();

    let result = analyze_files_from_bytes(Some(&elf_buffer), None).unwrap();

    assert!(result.elf_info.is_some());
    assert!(result.coredump_info.is_none());
}

#[test]
fn test_analyze_files_from_bytes_none() {
    let result = analyze_files_from_bytes(None, None).unwrap();

    assert!(result.elf_info.is_none());
    assert!(result.coredump_info.is_none());
}

#[test]
fn test_analyze_elf_basic_matches_enriched_base() {
    let buffer = minimal_elf_bytes();

    let basic = analyze_elf_from_bytes_basic(&buffer).unwrap();
    let full = analyze_elf_from_bytes(&buffer).unwrap();

    assert_eq!(basic, full);
    assert!(basic.functions.is_empty());
    assert!(basic.variables.is_empty());
    assert!(basic.types.is_empty());
}

fn int_type_info() -> TypeInfo {
    TypeInfo {
        name: "int".to_string(),
        size: Some(4),
        kind: "basic".to_string(),
        members: Vec::new(),
    }
}

fn test_struct_type_info() -> TypeInfo {
    TypeInfo {
        name: "TestStruct".to_string(),
        size: Some(16),
        kind: "struct".to_string(),
        members: vec![
            MemberInfo {
                name: "field1".to_string(),
                offset: 0,
                type_info: int_type_info(),
            },
            MemberInfo {
                name: "field2".to_string(),
                offset: 8,
                type_info: TypeInfo {
                    name: "double".to_string(),
                    size: Some(8),
                    kind: "basic".to_string(),
                    members: Vec::new(),
                },
            },
        ],
    }
}

#[test]
fn test_dwarf_data_structures() {
    let function_info = FunctionInfo {
        name: "test_function".to_string(),
        address: 0x1000,
        size: Some(100),
        parameters: vec![VariableInfo {
            name: "param1".to_string(),
            address: None,
            offset: Some(8),
            type_info: int_type_info(),
            scope: "parameter".to_string(),
        }],
        return_type: Some(int_type_info()),
    };

    let type_info = test_struct_type_info();

    let variable_info = VariableInfo {
        name: "global_var".to_string(),
        address: Some(0x2000),
        offset: None,
        type_info: test_struct_type_info(),
        scope: "global".to_string(),
    };

    // Each record serializes as part of a result value
    let wrapped = AnalysisResult {
        elf_info: Some(ElfInfo {
            architecture: "x86_64".to_string(),
            entry_point: 0,
            sections: Vec::new(),
            file_type: "executable".to_string(),
            endianness: "little_endian".to_string(),
            functions: vec![FunctionInfo {
                name: function_info.name.clone(),
                address: function_info.address,
                size: function_info.size,
                parameters: vec![VariableInfo {
                    name: "param1".to_string(),
                    address: None,
                    offset: Some(8),
                    type_info: int_type_info(),
                    scope: "parameter".to_string(),
                }],
                return_type: Some(int_type_info()),
            }],
            variables: vec![VariableInfo {
                name: "global_var".to_string(),
                address: Some(0x2000),
                offset: None,
                type_info: test_struct_type_info(),
                scope: "global".to_string(),
            }],
            types: vec![test_struct_type_info()],
        }),
        coredump_info: None,
    };
    let json = to_json(&wrapped).unwrap();
    assert!(serde_json::from_str::<serde_json::Value>(&json).is_ok());

    // Test field access
    assert_eq!(function_info.name, "test_function");
    assert_eq!(function_info.address, 0x1000);
    assert_eq!(function_info.parameters.len(), 1);
    assert_eq!(function_info.parameters[0].name, "param1");

    assert_eq!(type_info.name, "TestStruct");
    assert_eq!(type_info.members.len(), 2);
    assert_eq!(type_info.members[0].offset, 0);
    assert_eq!(type_info.members[1].offset, 8);

    assert_eq!(variable_info.scope, "global");
    assert_eq!(variable_info.address, Some(0x2000));
}

#[test]
fn test_enhanced_elf_info_json_output() {
    let enhanced_elf = ElfInfo {
        architecture: "x86_64".to_string(),
        entry_point: 0x1000,
        sections: vec![".text".to_string(), ".data".to_string()],
        file_type: "executable".to_string(),
        endianness: "little_endian".to_string(),
        functions: vec![FunctionInfo {
            name: "main".to_string(),
            address: 0x1100,
            size: Some(50),
            parameters: vec![VariableInfo {
                name: "argc".to_string(),
                address: None,
                offset: Some(8),
                type_info: int_type_info(),
                scope: "parameter".to_string(),
            }],
            return_type: Some(int_type_info()),
        }],
        variables: vec![VariableInfo {
            name: "global_counter".to_string(),
            address: Some(0x2000),
            offset: None,
            type_info: int_type_info(),
            scope: "global".to_string(),
        }],
        types: vec![TypeInfo {
            name: "Point".to_string(),
            size: Some(8),
            kind: "struct".to_string(),
            members: vec![
                MemberInfo {
                    name: "x".to_string(),
                    offset: 0,
                    type_info: int_type_info(),
                },
                MemberInfo {
                    name: "y".to_string(),
                    offset: 4,
                    type_info: int_type_info(),
                },
            ],
        }],
    };

    let analysis_result = AnalysisResult {
        elf_info: Some(enhanced_elf),
        coredump_info: None,
    };

    // Test JSON serialization
    let json = to_json(&analysis_result).expect("Should serialize to JSON");

    // Verify it's valid JSON
    let parsed: serde_json::Value = serde_json::from_str(&json).expect("Should be valid JSON");

    // Test jq-like access patterns (verify structure is accessible)
    assert!(parsed["elf_info"]["functions"].is_array());
    assert!(parsed["elf_info"]["variables"].is_array());
    assert!(parsed["elf_info"]["types"].is_array());

    // Verify function information
    let functions = &parsed["elf_info"]["functions"];
    assert_eq!(functions[0]["name"], "main");
    assert_eq!(functions[0]["address"], 0x1100);
    assert_eq!(functions[0]["parameters"][0]["name"], "argc");

    // Verify type information
    let types = &parsed["elf_info"]["types"];
    assert_eq!(types[0]["name"], "Point");
    assert_eq!(types[0]["kind"], "struct");
    assert_eq!(types[0]["members"][0]["name"], "x");
    assert_eq!(types[0]["members"][0]["offset"], 0);
    assert_eq!(types[0]["members"][1]["offset"], 4);

    // Verify variable information
    let variables = &parsed["elf_info"]["variables"];
    assert_eq!(variables[0]["name"], "global_counter");
    assert_eq!(variables[0]["address"], 0x2000);
    assert_eq!(variables[0]["scope"], "global");
}

#[test]
fn test_file_type_and_endianness_names() {
    let kind_cases = vec![
        (1u16, "relocatable"),
        (2u16, "executable"),
        (3u16, "shared_object"),
        (4u16, "core_dump"),
        (999u16, "unknown"),
    ];
    for (type_code, expected) in kind_cases {
        assert_eq!(file_type_name(type_code), expected);
    }
    assert_eq!(endianness_name(true), "little_endian");
    assert_eq!(endianness_name(false), "big_endian");
}
