//! A verified inspector for compiled native binaries.
//!
//! The crate decodes ELF executables, shared objects and core dumps
//! from raw bytes into a structured, language-neutral description:
//! architecture, layout, and — when DWARF debug information is
//! present — the program's functions, variables and composite types,
//! plus per-thread register blobs from a core dump. Everything is
//! computed from an immutable byte buffer; reading files and printing
//! belong to the callers.

pub mod analyze;
pub mod bytes;
pub mod core_dump;
pub mod dwarf;
pub mod elf;
pub mod json;
pub mod strutil;
pub mod types;

pub use crate::analyze::analyze_elf_from_bytes;
pub use crate::analyze::analyze_elf_from_bytes_with_dwarf;
pub use crate::analyze::analyze_files_from_bytes;
pub use crate::core_dump::analyze_core_from_bytes;
pub use crate::elf::analyze_elf_from_bytes_basic;
pub use crate::elf::architecture_name;
pub use crate::elf::endianness_name;
pub use crate::elf::file_type_name;
pub use crate::json::from_json;
pub use crate::json::to_json;
pub use crate::types::AnalysisError;
pub use crate::types::AnalysisFailure;
pub use crate::types::AnalysisResult;
pub use crate::types::CoredumpInfo;
pub use crate::types::ElfInfo;
pub use crate::types::FunctionInfo;
pub use crate::types::MemberInfo;
pub use crate::types::ThreadInfo;
pub use crate::types::TypeInfo;
pub use crate::types::VariableInfo;
