use vstd::prelude::*;

verus! {

/// One structured record per DWARF composite or basic type.
///
/// `kind` is one of "basic", "struct", "enum", "union", "pointer",
/// "array" or "unknown"; `members` is populated only for struct and
/// union types, and member types are shallow placeholders, so the
/// member list never nests more than one level deep.
#[derive(Debug, PartialEq, Eq)]
pub struct TypeInfo {
    pub name: String,
    pub size: Option<u64>,
    pub kind: String,
    pub members: Vec<MemberInfo>,
}

/// One field of a struct or union type.
#[derive(Debug, PartialEq, Eq)]
pub struct MemberInfo {
    pub name: String,
    pub offset: u64,
    pub type_info: TypeInfo,
}

/// One variable or formal parameter.
///
/// `scope` is "global", "local" or "parameter". `address` is present
/// only when the DWARF location expression is a literal absolute
/// address; `offset` is reserved for frame-relative locations and is
/// never set at this extraction depth.
#[derive(Debug, PartialEq, Eq)]
pub struct VariableInfo {
    pub name: String,
    pub address: Option<u64>,
    pub offset: Option<i64>,
    pub type_info: TypeInfo,
    pub scope: String,
}

/// One function recovered from the DWARF debug information.
#[derive(Debug, PartialEq, Eq)]
pub struct FunctionInfo {
    pub name: String,
    pub address: u64,
    pub size: Option<u64>,
    pub parameters: Vec<VariableInfo>,
    pub return_type: Option<TypeInfo>,
}

/// Everything recovered from one ELF object: header facts, section
/// names in on-disk order, and (when debug information is present)
/// functions, variables and types.
#[derive(Debug, PartialEq, Eq)]
pub struct ElfInfo {
    pub architecture: String,
    pub entry_point: u64,
    pub sections: Vec<String>,
    pub file_type: String,
    pub endianness: String,
    pub functions: Vec<FunctionInfo>,
    pub variables: Vec<VariableInfo>,
    pub types: Vec<TypeInfo>,
}

/// Raw register payload of one thread recovered from a core dump.
#[derive(Debug, PartialEq, Eq)]
pub struct ThreadInfo {
    pub thread_id: u64,
    pub registers: Vec<u8>,
}

/// Facts recovered from an ELF core dump; `threads` is never empty.
#[derive(Debug, PartialEq, Eq)]
pub struct CoredumpInfo {
    pub architecture: String,
    pub threads: Vec<ThreadInfo>,
}

/// The combined output of one analysis call. A field is `None`
/// exactly when the corresponding input was not supplied; an input
/// that was supplied but failed to parse aborts the call instead.
#[derive(Debug, PartialEq, Eq)]
pub struct AnalysisResult {
    pub elf_info: Option<ElfInfo>,
    pub coredump_info: Option<CoredumpInfo>,
}

/// Why an analysis was aborted.
#[derive(Debug, Clone, Copy, PartialEq, Eq, Structural)]
pub enum AnalysisError {
    /// The bytes of a supplied input could not be obtained at all.
    InputUnreadable,
    /// The buffer does not carry a well-formed ELF header and
    /// section table.
    NotARecognizedObject,
    /// Core-dump analysis was requested on an ELF object whose file
    /// kind is not core_dump.
    NotACoreDump,
}

/// The outcome of a combined call on which at least one supplied
/// input failed. Each input's failure is reported on its own, and a
/// sibling analysis that succeeded is not aborted by it: its result
/// stands in `partial`.
#[derive(Debug, PartialEq, Eq)]
pub struct AnalysisFailure {
    /// Why the ELF analysis failed, when an ELF input was supplied
    /// and failed.
    pub elf_error: Option<AnalysisError>,
    /// Why the core-dump analysis failed, when a core input was
    /// supplied and failed.
    pub coredump_error: Option<AnalysisError>,
    /// The results of whichever supplied inputs did succeed.
    pub partial: AnalysisResult,
}

pub open spec fn spec_error_message(e: AnalysisError) -> Seq<char> {
    match e {
        AnalysisError::InputUnreadable => "Failed to read ELF file"@,
        AnalysisError::NotARecognizedObject => "File is not a valid ELF binary"@,
        AnalysisError::NotACoreDump => "File is not an ELF core dump"@,
    }
}

impl AnalysisError {
    /// A short human-readable description of the failure.
    pub fn message(&self) -> (r: &'static str)
        ensures
            r@ == spec_error_message(*self),
    {
        match self {
            AnalysisError::InputUnreadable => "Failed to read ELF file",
            AnalysisError::NotARecognizedObject => "File is not a valid ELF binary",
            AnalysisError::NotACoreDump => "File is not an ELF core dump",
        }
    }
}

impl AnalysisFailure {
    /// The first per-input failure's description: the ELF input's
    /// when it failed, the core input's otherwise.
    pub fn message(&self) -> (r: &'static str)
        ensures
            r@ == (match self.elf_error {
                Option::Some(e) => spec_error_message(e),
                Option::None => match self.coredump_error {
                    Option::Some(e) => spec_error_message(e),
                    Option::None => "analysis failed"@,
                },
            }),
    {
        match &self.elf_error {
            Some(e) => e.message(),
            None => match &self.coredump_error {
                Some(e) => e.message(),
                None => "analysis failed",
            },
        }
    }
}

} // verus!
