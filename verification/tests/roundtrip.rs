use himmel::{
    from_json, to_json, AnalysisResult, CoredumpInfo, ElfInfo, FunctionInfo, MemberInfo,
    ThreadInfo, TypeInfo, VariableInfo,
};

fn empty_result() -> AnalysisResult {
    AnalysisResult {
        elf_info: None,
        coredump_info: None,
    }
}

fn full_result() -> AnalysisResult {
    AnalysisResult {
        elf_info: Some(ElfInfo {
            architecture: "x86_64".to_string(),
            entry_point: 0x401000,
            sections: vec![".text".to_string(), String::new(), "unnamed".to_string()],
            file_type: "executable".to_string(),
            endianness: "little_endian".to_string(),
            functions: vec![FunctionInfo {
                name: "main".to_string(),
                address: 0x1100,
                size: Some(50),
                parameters: vec![VariableInfo {
                    name: "argc".to_string(),
                    address: None,
                    offset: Some(-8),
                    type_info: TypeInfo {
                        name: "int".to_string(),
                        size: Some(4),
                        kind: "basic".to_string(),
                        members: Vec::new(),
                    },
                    scope: "parameter".to_string(),
                }],
                return_type: Some(TypeInfo {
                    name: "<return_type>".to_string(),
                    size: None,
                    kind: "unknown".to_string(),
                    members: Vec::new(),
                }),
            }],
            variables: vec![VariableInfo {
                name: "global_counter".to_string(),
                address: Some(0x2000),
                offset: None,
                type_info: TypeInfo {
                    name: "unknown".to_string(),
                    size: None,
                    kind: "basic".to_string(),
                    members: Vec::new(),
                },
                scope: "global".to_string(),
            }],
            types: vec![TypeInfo {
                name: "Point".to_string(),
                size: Some(8),
                kind: "struct".to_string(),
                members: vec![MemberInfo {
                    name: "x".to_string(),
                    offset: 0,
                    type_info: TypeInfo {
                        name: "unknown".to_string(),
                        size: None,
                        kind: "basic".to_string(),
                        members: Vec::new(),
                    },
                }],
            }],
        }),
        coredump_info: Some(CoredumpInfo {
            architecture: "aarch64".to_string(),
            threads: vec![
                ThreadInfo {
                    thread_id: 0,
                    registers: vec![0, 1, 2, 255],
                },
                ThreadInfo {
                    thread_id: 1,
                    registers: Vec::new(),
                },
            ],
        }),
    }
}

#[test]
fn round_trip_empty_result() {
    let value = empty_result();
    let json = to_json(&value).unwrap();
    let back = from_json(&json).expect("canonical output must parse");
    assert_eq!(back, value);
}

#[test]
fn round_trip_full_result() {
    let value = full_result();
    let json = to_json(&value).unwrap();
    let back = from_json(&json).expect("canonical output must parse");
    assert_eq!(back, value);
}

#[test]
fn round_trip_distinguishes_absent_from_empty() {
    let absent = empty_result();
    let empty = AnalysisResult {
        elf_info: Some(ElfInfo {
            architecture: "unknown".to_string(),
            entry_point: 0,
            sections: Vec::new(),
            file_type: "unknown".to_string(),
            endianness: "little_endian".to_string(),
            functions: Vec::new(),
            variables: Vec::new(),
            types: Vec::new(),
        }),
        coredump_info: None,
    };

    let absent_json = to_json(&absent).unwrap();
    let empty_json = to_json(&empty).unwrap();
    assert_ne!(absent_json, empty_json);

    let absent_back = from_json(&absent_json).unwrap();
    let empty_back = from_json(&empty_json).unwrap();
    assert!(absent_back.elf_info.is_none());
    assert!(empty_back.elf_info.is_some());
    assert!(empty_back.elf_info.unwrap().sections.is_empty());
    assert_eq!(absent_back, absent);
}

#[test]
fn round_trip_escaped_names() {
    let mut value = full_result();
    if let Some(info) = value.elf_info.as_mut() {
        info.functions[0].name = "we\"ird\\name\nwith\tcontrol\u{1}chars".to_string();
        info.sections.push("caf\u{e9}\u{fffd}".to_string());
    }
    let json = to_json(&value).unwrap();
    // The wire form is valid JSON even with characters that need
    // escaping.
    assert!(serde_json::from_str::<serde_json::Value>(&json).is_ok());
    let back = from_json(&json).expect("canonical output must parse");
    assert_eq!(back, value);
}

#[test]
fn serde_reads_the_same_values_back() {
    let value = full_result();
    let json = to_json(&value).unwrap();
    let parsed: serde_json::Value = serde_json::from_str(&json).unwrap();
    assert_eq!(parsed["elf_info"]["entry_point"], 0x401000);
    assert_eq!(parsed["elf_info"]["functions"][0]["size"], 50);
    assert_eq!(
        parsed["elf_info"]["functions"][0]["parameters"][0]["offset"],
        -8
    );
    assert_eq!(
        parsed["elf_info"]["functions"][0]["return_type"]["kind"],
        "unknown"
    );
    assert_eq!(parsed["coredump_info"]["architecture"], "aarch64");
    assert_eq!(parsed["coredump_info"]["threads"][0]["registers"][3], 255);
    assert_eq!(parsed["coredump_info"]["threads"][1]["thread_id"], 1);
    assert!(parsed["coredump_info"]["threads"][1]["registers"]
        .as_array()
        .unwrap()
        .is_empty());
}

#[test]
fn non_canonical_text_is_rejected() {
    // Round-tripping never invents values: text that is not the
    // canonical rendering of any result is rejected.
    assert!(from_json("").is_none());
    assert!(from_json("{}").is_none());
    assert!(from_json("{\"elf_info\":null,\"coredump_info\":null} ").is_none());
    assert!(from_json("{\"elf_info\":null,\"coredump_info\":nul").is_none());
}

#[test]
fn parsing_then_rendering_reproduces_the_text() {
    let json = to_json(&full_result()).unwrap();
    let back = from_json(&json).unwrap();
    let again = to_json(&back).unwrap();
    assert_eq!(json, again);
}

#[test]
fn empty_result_renders_exactly() {
    let json = to_json(&empty_result()).unwrap();
    assert_eq!(json, "{\"elf_info\":null,\"coredump_info\":null}");
}

#[test]
fn handwritten_canonical_text_parses() {
    let text = "{\"elf_info\":null,\"coredump_info\":{\"architecture\":\"arm\",\"threads\":[{\"thread_id\":0,\"registers\":[1,2]}]}}";
    let value = from_json(text).expect("canonical text must parse");
    assert!(value.elf_info.is_none());
    let core = value.coredump_info.unwrap();
    assert_eq!(core.architecture, "arm");
    assert_eq!(core.threads.len(), 1);
    assert_eq!(core.threads[0].thread_id, 0);
    assert_eq!(core.threads[0].registers, vec![1, 2]);
}
