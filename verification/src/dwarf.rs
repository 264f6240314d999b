use vstd::prelude::*;

use crate::bytes::{read_u16_at, read_u32_at, read_u64_at, read_u8_at, read_uleb, skip_leb,
    spec_leb_end, spec_u16_at, spec_u32_at, spec_u64_at, spec_uleb};
use crate::elf::{find_nul, lemma_shdr_in_bounds, section_name_at, spec_elf_ok, spec_first_nul,
    spec_section_name, spec_sh_flags, spec_sh_offset, spec_sh_size, spec_shnum};
use crate::strutil::{utf8_lossy_of, utf8_lossy_to_string};
use crate::types::{FunctionInfo, MemberInfo, TypeInfo, VariableInfo};

verus! {

/// The section flag marking compressed section contents; compressed
/// debug sections are treated as a decompression failure, that is as
/// absent.
pub const SHF_COMPRESSED: u64 = 0x800;

// -------------------------------------------------------------------
// Locating named debug sections.

/// The first section from `i` on whose name is `name`.
pub open spec fn spec_find_section(b: Seq<u8>, name: Seq<char>, i: int) -> Option<int>
    recommends
        spec_elf_ok(b),
    decreases spec_shnum(b) - i,
{
    if i < 0 || i >= spec_shnum(b) {
        None
    } else if spec_section_name(b, i) == name {
        Some(i)
    } else {
        spec_find_section(b, name, i + 1)
    }
}

/// The bytes of the first section named `name`: its file extent when
/// that lies inside the buffer and the section is not compressed,
/// and the empty sequence otherwise. Absence and failure look alike
/// by design: downstream decoding treats both as "no debug
/// information".
pub open spec fn spec_section_bytes(b: Seq<u8>, name: Seq<char>) -> Seq<u8>
    recommends
        spec_elf_ok(b),
{
    match spec_find_section(b, name, 0) {
        Option::None => Seq::empty(),
        Option::Some(i) => {
            let off = spec_sh_offset(b, i) as int;
            let sz = spec_sh_size(b, i) as int;
            if spec_sh_flags(b, i) & SHF_COMPRESSED == 0 && off + sz <= b.len() {
                b.subrange(off, off + sz)
            } else {
                Seq::empty()
            }
        },
    }
}

/// Locate the section named `name` and copy its bytes out; the empty
/// vector stands for an absent, out-of-bounds or compressed section.
#[verifier::loop_isolation(false)]
pub fn find_section_bytes(b: &[u8], name: &str) -> (r: Vec<u8>)
    requires
        spec_elf_ok(b@),
    ensures
        r@ == spec_section_bytes(b@, name@),
{
    let n = b.len();
    let is64 = read_u8_at(b, 4) == 2;
    let le = read_u8_at(b, 5) == 1;
    let shnum = read_u16_at(b, if is64 { 60 } else { 48 }, le);
    let name_owned: String = name.to_owned();
    let mut i: usize = 0;
    while i < shnum as usize
        invariant
            i <= shnum,
            spec_find_section(b@, name@, 0) == spec_find_section(b@, name@, i as int),
        decreases shnum as int - i,
    {
        let sname = section_name_at(b, i);
        if sname == name_owned {
            proof {
                assert(spec_find_section(b@, name@, i as int) == Some(i as int));
                lemma_shdr_in_bounds(b@, i as int);
            }
            let shentsize = read_u16_at(b, if is64 { 58 } else { 46 }, le);
            let shoff = if is64 {
                read_u64_at(b, 40, le)
            } else {
                read_u32_at(b, 32, le) as u64
            };
            let base = (shoff + (i as u64) * (shentsize as u64)) as usize;
            let flags = if is64 {
                read_u64_at(b, base + 8, le)
            } else {
                read_u32_at(b, base + 8, le) as u64
            };
            let off = if is64 {
                read_u64_at(b, base + 24, le)
            } else {
                read_u32_at(b, base + 16, le) as u64
            };
            let sz = if is64 {
                read_u64_at(b, base + 32, le)
            } else {
                read_u32_at(b, base + 20, le) as u64
            };
            assert(flags == spec_sh_flags(b@, i as int) && off == spec_sh_offset(b@, i as int)
                && sz == spec_sh_size(b@, i as int));
            if flags & SHF_COMPRESSED == 0 && off <= n as u64 && sz <= n as u64 - off {
                let lo = off as usize;
                let hi = (off + sz) as usize;
                return vstd::slice::slice_to_vec(vstd::slice::slice_subrange(b, lo, hi));
            } else {
                return Vec::new();
            }
        }
        proof {
            assert(spec_find_section(b@, name@, i as int) == spec_find_section(
                b@,
                name@,
                i as int + 1,
            ));
        }
        i = i + 1;
    }
    Vec::new()
}

// -------------------------------------------------------------------
// The DWARF entry tags, attribute names and the one location opcode
// this extraction interprets.

pub const DW_TAG_ENUMERATION_TYPE: u64 = 0x04;
pub const DW_TAG_FORMAL_PARAMETER: u64 = 0x05;
pub const DW_TAG_MEMBER: u64 = 0x0d;
pub const DW_TAG_STRUCTURE_TYPE: u64 = 0x13;
pub const DW_TAG_UNION_TYPE: u64 = 0x17;
pub const DW_TAG_SUBPROGRAM: u64 = 0x2e;
pub const DW_TAG_VARIABLE: u64 = 0x34;

pub const DW_AT_LOCATION: u64 = 0x02;
pub const DW_AT_NAME: u64 = 0x03;
pub const DW_AT_BYTE_SIZE: u64 = 0x0b;
pub const DW_AT_LOW_PC: u64 = 0x11;
pub const DW_AT_HIGH_PC: u64 = 0x12;
pub const DW_AT_DATA_MEMBER_LOCATION: u64 = 0x38;
pub const DW_AT_TYPE: u64 = 0x49;

/// The location-expression opcode that loads a constant address.
pub const DW_OP_ADDR: u8 = 0x03;

// -------------------------------------------------------------------
// One decoded debugging information entry.

/// One attribute value, reduced to the classes this extraction
/// distinguishes. Forms that carry information the extraction never
/// reads decode to `Other`; their bytes are still consumed exactly.
pub enum AttrValue {
    /// An address-form value (the form `addr`).
    Addr(u64),
    /// A plain numeric constant (the forms `data1/2/4/8` and `udata`).
    Udata(u64),
    /// A unit-local reference (the forms `ref1/2/4/8` and `ref_udata`).
    UnitRef(u64),
    /// An offset into the debug string section (the form `strp`).
    StrRef(u64),
    /// An inline zero-terminated string (the form `string`).
    InlineStr(Vec<u8>),
    /// A location expression (the form `exprloc`).
    Exprloc(Vec<u8>),
    /// Any other recognized form.
    Other,
}

pub struct Attr {
    pub at: u64,
    pub value: AttrValue,
}

/// One entry of a unit's DIE tree: its tag, whether children follow
/// it, and its attributes in abbreviation order.
pub struct Die {
    pub tag: u64,
    pub has_children: bool,
    pub attrs: Vec<Attr>,
}

// -------------------------------------------------------------------
// Ghost mirrors of the decoded values. The decoding functions are
// each proved equal to a spec-level transliteration, so the whole
// walk's result is a mathematical function of the section bytes.
// The mirrors carry `Seq` where the executable values carry `Vec`.

/// The ghost mirror of one attribute value.
pub enum AttrValueModel {
    Addr(u64),
    Udata(u64),
    UnitRef(u64),
    StrRef(u64),
    InlineStr(Seq<u8>),
    Exprloc(Seq<u8>),
    Other,
}

pub struct AttrModel {
    pub at: u64,
    pub value: AttrValueModel,
}

pub struct DieModel {
    pub tag: u64,
    pub has_children: bool,
    pub attrs: Seq<AttrModel>,
}

pub struct AbbrevModel {
    pub code: u64,
    pub tag: u64,
    pub has_children: bool,
    pub pairs: Seq<AttrForm>,
}

pub open spec fn attr_value_model(v: AttrValue) -> AttrValueModel {
    match v {
        AttrValue::Addr(a) => AttrValueModel::Addr(a),
        AttrValue::Udata(x) => AttrValueModel::Udata(x),
        AttrValue::UnitRef(x) => AttrValueModel::UnitRef(x),
        AttrValue::StrRef(x) => AttrValueModel::StrRef(x),
        AttrValue::InlineStr(bs) => AttrValueModel::InlineStr(bs@),
        AttrValue::Exprloc(bs) => AttrValueModel::Exprloc(bs@),
        AttrValue::Other => AttrValueModel::Other,
    }
}

pub open spec fn attr_model(a: Attr) -> AttrModel {
    AttrModel { at: a.at, value: attr_value_model(a.value) }
}

pub open spec fn attrs_model(s: Seq<Attr>) -> Seq<AttrModel> {
    s.map_values(|a: Attr| attr_model(a))
}

pub open spec fn die_model(d: Die) -> DieModel {
    DieModel { tag: d.tag, has_children: d.has_children, attrs: attrs_model(d.attrs@) }
}

pub open spec fn abbrev_model(a: Abbrev) -> AbbrevModel {
    AbbrevModel { code: a.code, tag: a.tag, has_children: a.has_children, pairs: a.pairs@ }
}

pub open spec fn abbrevs_model(s: Seq<Abbrev>) -> Seq<AbbrevModel> {
    s.map_values(|a: Abbrev| abbrev_model(a))
}

/// The first attribute named `at`, the way a reader walking the
/// attribute list returns the first match.
pub open spec fn spec_attr_from(attrs: Seq<Attr>, at: u64) -> Option<AttrValue>
    decreases attrs.len(),
{
    if attrs.len() == 0 {
        None
    } else if attrs[0].at == at {
        Some(attrs[0].value)
    } else {
        spec_attr_from(attrs.drop_first(), at)
    }
}

/// The index of the first attribute of `die` named `at`.
fn find_attr(die: &Die, at: u64) -> (r: Option<usize>)
    ensures
        match r {
            Some(i) => {
                &&& i < die.attrs@.len()
                &&& die.attrs@[i as int].at == at
                &&& spec_attr_from(die.attrs@, at) == Some(die.attrs@[i as int].value)
            },
            None => spec_attr_from(die.attrs@, at) is None,
        },
{
    let n = die.attrs.len();
    proof {
        assert(die.attrs@.skip(0) =~= die.attrs@);
    }
    let mut i: usize = 0;
    while i < n
        invariant
            i <= n == die.attrs@.len(),
            spec_attr_from(die.attrs@, at) == spec_attr_from(die.attrs@.skip(i as int), at),
        decreases n - i,
    {
        proof {
            assert(die.attrs@.skip(i as int)[0] == die.attrs@[i as int]);
        }
        if vstd::std_specs::vec::vec_index(&die.attrs, i).at == at {
            return Some(i);
        }
        proof {
            assert(die.attrs@.skip(i as int).drop_first() =~= die.attrs@.skip(i as int + 1));
        }
        i = i + 1;
    }
    None
}

// -------------------------------------------------------------------
// Name resolution.

/// How the name attribute of an entry resolves against the debug
/// string section: `None` when a string-section reference is out of
/// range or unterminated (the entry is then skipped), `Some(None)`
/// when the attribute is absent or of an unexpected form (a
/// placeholder is then substituted), and `Some(Some(chars))` for a
/// resolved name.
pub open spec fn spec_die_name(attrs: Seq<Attr>, strs: Seq<u8>) -> Option<Option<Seq<char>>> {
    match spec_attr_from(attrs, DW_AT_NAME) {
        Option::None => Some(None),
        Option::Some(v) => match v {
            AttrValue::InlineStr(bytes) => Some(Some(utf8_lossy_of(bytes@))),
            AttrValue::StrRef(off) => if off < strs.len() {
                let stop = spec_first_nul(strs, off as int, strs.len() as int);
                if stop < strs.len() {
                    Some(Some(utf8_lossy_of(strs.subrange(off as int, stop))))
                } else {
                    None
                }
            } else {
                None
            },
            _ => Some(None),
        },
    }
}

/// Resolve the name attribute of `die`; inline strings are used
/// directly, string-section references are chased.
pub fn get_die_name(die: &Die, strs: &[u8]) -> (r: Option<Option<String>>)
    ensures
        match r {
            Some(Some(s)) => spec_die_name(die.attrs@, strs@) == Some(Some(s@)),
            Some(None) => spec_die_name(die.attrs@, strs@) == Some(None::<Seq<char>>),
            None => spec_die_name(die.attrs@, strs@) is None,
        },
{
    match find_attr(die, DW_AT_NAME) {
        None => Some(None),
        Some(i) => {
            match &vstd::std_specs::vec::vec_index(&die.attrs, i).value {
                AttrValue::InlineStr(bytes) => {
                    Some(Some(utf8_lossy_to_string(bytes.as_slice())))
                },
                AttrValue::StrRef(off) => {
                    let n = strs.len();
                    if *off < n as u64 {
                        let start = *off as usize;
                        let stop = find_nul(strs, start, n);
                        if stop < n {
                            let name_bytes = vstd::slice::slice_subrange(strs, start, stop);
                            Some(Some(utf8_lossy_to_string(name_bytes)))
                        } else {
                            None
                        }
                    } else {
                        None
                    }
                },
                _ => Some(None),
            }
        },
    }
}

// -------------------------------------------------------------------
// Per-entry extraction: each function below turns one decoded entry
// (plus its already-collected children, where it has any) into one
// result record. A `None` result means the entry is skipped — that
// happens exactly when a string-section name reference cannot be
// resolved; a merely missing name only yields a placeholder.

/// A shallow stand-in for a referenced type: recorded as evidence
/// that a type exists, never walked, so extraction terminates on any
/// type graph, cyclic ones included.
pub open spec fn spec_basic_placeholder(t: TypeInfo, name: Seq<char>) -> bool {
    &&& t.name@ == name
    &&& t.size is None
    &&& t.kind@ == "basic"@
    &&& t.members@.len() == 0
}

/// The entry address of a function: its low-pc attribute when that
/// is an address, 0 otherwise.
pub open spec fn spec_func_address(attrs: Seq<Attr>) -> u64 {
    match spec_attr_from(attrs, DW_AT_LOW_PC) {
        Option::Some(AttrValue::Addr(a)) => a,
        _ => 0,
    }
}

/// The byte size of a function: the high-pc attribute read either as
/// a byte count or as an absolute end address (then relative to the
/// entry address, saturating at zero).
pub open spec fn spec_func_size(attrs: Seq<Attr>, address: u64) -> Option<u64> {
    match spec_attr_from(attrs, DW_AT_HIGH_PC) {
        Option::Some(AttrValue::Udata(s)) => Some(s),
        Option::Some(AttrValue::Addr(h)) => Some(
            if h >= address {
                (h - address) as u64
            } else {
                0u64
            },
        ),
        _ => None,
    }
}

/// The absolute address of a variable: decoded only from a location
/// expression that is exactly the load-constant-address opcode
/// followed by an 8-byte little-endian operand; every other location
/// form yields "no address known".
pub open spec fn spec_var_address(attrs: Seq<Attr>) -> Option<u64> {
    match spec_attr_from(attrs, DW_AT_LOCATION) {
        Option::Some(AttrValue::Exprloc(e)) => if e@.len() >= 9 && e@[0] == DW_OP_ADDR {
            Some(spec_u64_at(e@, 1, true))
        } else {
            None
        },
        _ => None,
    }
}

/// The byte size of a type: its byte-size attribute when plainly
/// numeric.
pub open spec fn spec_type_size(attrs: Seq<Attr>) -> Option<u64> {
    match spec_attr_from(attrs, DW_AT_BYTE_SIZE) {
        Option::Some(AttrValue::Udata(s)) => Some(s),
        _ => None,
    }
}

/// The byte offset of a member inside its aggregate: its
/// data-member-location attribute when plainly numeric, 0 otherwise.
pub open spec fn spec_member_offset(attrs: Seq<Attr>) -> u64 {
    match spec_attr_from(attrs, DW_AT_DATA_MEMBER_LOCATION) {
        Option::Some(AttrValue::Udata(o)) => o,
        _ => 0,
    }
}

/// The entry carries a type attribute of any form.
pub open spec fn spec_has_type_attr(attrs: Seq<Attr>) -> bool {
    spec_attr_from(attrs, DW_AT_TYPE) is Some
}

/// The entry carries a type attribute that is a unit-local reference.
pub open spec fn spec_has_unit_ref_type(attrs: Seq<Attr>) -> bool {
    spec_attr_from(attrs, DW_AT_TYPE) matches Some(AttrValue::UnitRef(_))
}

/// The kind tag a type entry maps to.
pub open spec fn spec_kind_name(tag: u64) -> Seq<char> {
    if tag == DW_TAG_STRUCTURE_TYPE {
        "struct"@
    } else if tag == DW_TAG_UNION_TYPE {
        "union"@
    } else if tag == DW_TAG_ENUMERATION_TYPE {
        "enum"@
    } else {
        "unknown"@
    }
}

/// The resolved name of an entry, or `fallback` where the name
/// attribute is absent or of an unexpected form.
pub open spec fn spec_name_or(attrs: Seq<Attr>, strs: Seq<u8>, fallback: Seq<char>) -> Seq<char>
    recommends
        spec_die_name(attrs, strs) is Some,
{
    match spec_die_name(attrs, strs) {
        Option::Some(Option::Some(nm)) => nm,
        _ => fallback,
    }
}

/// Turn one subprogram entry and its collected formal parameters
/// into a function record.
pub fn extract_function_info(die: &Die, parameters: Vec<VariableInfo>, strs: &[u8]) -> (r: Option<
    FunctionInfo,
>)
    ensures
        r is Some <==> spec_die_name(die.attrs@, strs@) is Some,
        r matches Some(f) ==> {
            &&& f.name@ == spec_name_or(die.attrs@, strs@, "<unknown>"@)
            &&& f.address == spec_func_address(die.attrs@)
            &&& f.size == spec_func_size(die.attrs@, f.address)
            &&& f.parameters == parameters
            &&& (match f.return_type {
                Option::Some(t) => spec_has_unit_ref_type(die.attrs@) && t.name@
                    == "<return_type>"@ && t.size is None && t.kind@ == "unknown"@
                    && t.members@.len() == 0,
                Option::None => !spec_has_unit_ref_type(die.attrs@),
            })
        },
{
    let name: String = match get_die_name(die, strs) {
        None => {
            return None;
        },
        Some(Some(s)) => s,
        Some(None) => "<unknown>".to_owned(),
    };
    let address: u64 = match find_attr(die, DW_AT_LOW_PC) {
        Some(i) => {
            match &vstd::std_specs::vec::vec_index(&die.attrs, i).value {
                AttrValue::Addr(a) => *a,
                _ => 0,
            }
        },
        None => 0,
    };
    let size: Option<u64> = match find_attr(die, DW_AT_HIGH_PC) {
        Some(i) => {
            match &vstd::std_specs::vec::vec_index(&die.attrs, i).value {
                AttrValue::Udata(s) => Some(*s),
                AttrValue::Addr(h) => Some(
                    if *h >= address {
                        *h - address
                    } else {
                        0
                    },
                ),
                _ => None,
            }
        },
        None => None,
    };
    let return_type: Option<TypeInfo> = match find_attr(die, DW_AT_TYPE) {
        Some(i) => {
            match &vstd::std_specs::vec::vec_index(&die.attrs, i).value {
                AttrValue::UnitRef(_) => Some(
                    TypeInfo {
                        name: "<return_type>".to_owned(),
                        size: None,
                        kind: "unknown".to_owned(),
                        members: Vec::new(),
                    },
                ),
                _ => None,
            }
        },
        None => None,
    };
    Some(FunctionInfo { name, address, size, parameters, return_type })
}

/// Turn one variable or formal-parameter entry into a variable
/// record with the given scope tag.
pub fn extract_variable_info(die: &Die, strs: &[u8], scope: &str) -> (r: Option<VariableInfo>)
    ensures
        r is Some <==> spec_die_name(die.attrs@, strs@) is Some,
        r matches Some(v) ==> {
            &&& v.name@ == spec_name_or(die.attrs@, strs@, "<unknown>"@)
            &&& v.address == spec_var_address(die.attrs@)
            &&& v.offset is None
            &&& v.scope@ == scope@
            &&& (if spec_has_type_attr(die.attrs@) {
                spec_basic_placeholder(v.type_info, "unknown"@)
            } else {
                spec_basic_placeholder(v.type_info, "void"@)
            })
        },
{
    let name: String = match get_die_name(die, strs) {
        None => {
            return None;
        },
        Some(Some(s)) => s,
        Some(None) => "<unknown>".to_owned(),
    };
    let address: Option<u64> = match find_attr(die, DW_AT_LOCATION) {
        Some(i) => {
            match &vstd::std_specs::vec::vec_index(&die.attrs, i).value {
                AttrValue::Exprloc(e) => {
                    let eb = e.as_slice();
                    if eb.len() >= 9 && read_u8_at(eb, 0) == DW_OP_ADDR {
                        Some(read_u64_at(eb, 1, true))
                    } else {
                        None
                    }
                },
                _ => None,
            }
        },
        None => None,
    };
    let type_info: TypeInfo = match find_attr(die, DW_AT_TYPE) {
        Some(_) => TypeInfo {
            name: "unknown".to_owned(),
            size: None,
            kind: "basic".to_owned(),
            members: Vec::new(),
        },
        None => TypeInfo {
            name: "void".to_owned(),
            size: None,
            kind: "basic".to_owned(),
            members: Vec::new(),
        },
    };
    Some(VariableInfo { name, address, offset: None, type_info, scope: scope.to_owned() })
}

/// Turn one structure, union or enumeration entry and its collected
/// members into a type record.
pub fn extract_type_info(die: &Die, members: Vec<MemberInfo>, strs: &[u8]) -> (r: Option<TypeInfo>)
    ensures
        r is Some <==> spec_die_name(die.attrs@, strs@) is Some,
        r matches Some(t) ==> {
            &&& t.name@ == spec_name_or(die.attrs@, strs@, "<anonymous>"@)
            &&& t.size == spec_type_size(die.attrs@)
            &&& t.kind@ == spec_kind_name(die.tag)
            &&& t.members == members
        },
{
    let name: String = match get_die_name(die, strs) {
        None => {
            return None;
        },
        Some(Some(s)) => s,
        Some(None) => "<anonymous>".to_owned(),
    };
    let size: Option<u64> = match find_attr(die, DW_AT_BYTE_SIZE) {
        Some(i) => {
            match &vstd::std_specs::vec::vec_index(&die.attrs, i).value {
                AttrValue::Udata(s) => Some(*s),
                _ => None,
            }
        },
        None => None,
    };
    let kind: String = if die.tag == DW_TAG_STRUCTURE_TYPE {
        "struct".to_owned()
    } else if die.tag == DW_TAG_UNION_TYPE {
        "union".to_owned()
    } else if die.tag == DW_TAG_ENUMERATION_TYPE {
        "enum".to_owned()
    } else {
        "unknown".to_owned()
    };
    Some(TypeInfo { name, size, kind, members })
}

/// Turn one member entry into a member record; the member's own type
/// is represented by a shallow placeholder.
pub fn extract_member_info(die: &Die, strs: &[u8]) -> (r: Option<MemberInfo>)
    ensures
        r is Some <==> spec_die_name(die.attrs@, strs@) is Some,
        r matches Some(m) ==> {
            &&& m.name@ == spec_name_or(die.attrs@, strs@, "<unknown>"@)
            &&& m.offset == spec_member_offset(die.attrs@)
            &&& spec_basic_placeholder(m.type_info, "unknown"@)
        },
{
    let name: String = match get_die_name(die, strs) {
        None => {
            return None;
        },
        Some(Some(s)) => s,
        Some(None) => "<unknown>".to_owned(),
    };
    let offset: u64 = match find_attr(die, DW_AT_DATA_MEMBER_LOCATION) {
        Some(i) => {
            match &vstd::std_specs::vec::vec_index(&die.attrs, i).value {
                AttrValue::Udata(o) => *o,
                _ => 0,
            }
        },
        None => 0,
    };
    let type_info = TypeInfo {
        name: "unknown".to_owned(),
        size: None,
        kind: "basic".to_owned(),
        members: Vec::new(),
    };
    Some(MemberInfo { name, offset, type_info })
}

// -------------------------------------------------------------------
// Abbreviation tables: each compilation unit names a table in the
// abbreviation section that gives, per abbreviation code, the entry
// tag, whether children follow, and the attribute/form list.

pub struct AttrForm {
    pub at: u64,
    pub form: u64,
}

pub struct Abbrev {
    pub code: u64,
    pub tag: u64,
    pub has_children: bool,
    pub pairs: Vec<AttrForm>,
}

/// The attribute/form pairs of one abbreviation declaration,
/// terminated by a zero pair. The `implicit_const` form carries its
/// value inside the table itself; that value is skipped here.
#[verifier::loop_isolation(false)]
fn parse_abbrev_pairs(ab: &[u8], start: usize) -> (r: Option<(Vec<AttrForm>, usize)>)
    requires
        start <= ab@.len(),
    ensures
        match r {
            Some((pairs, p2)) => {
                &&& start < p2 <= ab@.len()
                &&& spec_abbrev_pairs(ab@, start as int) == Some((pairs@, p2 as int))
            },
            None => spec_abbrev_pairs(ab@, start as int) is None,
        },
{
    let mut pairs: Vec<AttrForm> = Vec::new();
    let mut q = start;
    let n = ab.len();
    proof {
        match spec_abbrev_pairs(ab@, start as int) {
            Option::Some((rest, e)) => {
                assert(pairs@ + rest =~= rest);
            },
            Option::None => {},
        }
    }
    while q < n
        invariant
            start <= q <= n == ab@.len(),
            spec_abbrev_pairs(ab@, start as int) == (match spec_abbrev_pairs(ab@, q as int) {
                Option::Some((rest, e)) => Some((pairs@ + rest, e)),
                Option::None => None::<(Seq<AttrForm>, int)>,
            }),
            q > start || pairs@.len() == 0,
        decreases n - q,
    {
        let ghost prev = pairs@;
        match read_uleb(ab, q) {
            None => {
                return None;
            },
            Some((at, q1)) => {
                match read_uleb(ab, q1) {
                    None => {
                        return None;
                    },
                    Some((form, q2)) => {
                        if at == 0 && form == 0 {
                            proof {
                                assert(pairs@ + Seq::<AttrForm>::empty() =~= pairs@);
                            }
                            return Some((pairs, q2));
                        }
                        if form == 0x21 {
                            // implicit_const: its constant sits here
                            match skip_leb(ab, q2) {
                                None => {
                                    return None;
                                },
                                Some(q3) => {
                                    pairs.push(AttrForm { at, form });
                                    proof {
                                        match spec_abbrev_pairs(ab@, q3 as int) {
                                            Option::Some((rest, e)) => {
                                                assert(prev + (seq![AttrForm { at, form }] + rest)
                                                    =~= pairs@ + rest);
                                            },
                                            Option::None => {},
                                        }
                                    }
                                    q = q3;
                                },
                            }
                        } else {
                            pairs.push(AttrForm { at, form });
                            proof {
                                match spec_abbrev_pairs(ab@, q2 as int) {
                                    Option::Some((rest, e)) => {
                                        assert(prev + (seq![AttrForm { at, form }] + rest) =~= pairs@
                                            + rest);
                                    },
                                    Option::None => {},
                                }
                            }
                            q = q2;
                        }
                    },
                }
            },
        }
    }
    None
}

/// The whole abbreviation table starting at `offset`, terminated by
/// a zero code; `None` on any truncated or undecodable declaration.
#[verifier::loop_isolation(false)]
fn parse_abbrev_table(ab: &[u8], offset: u64) -> (r: Option<Vec<Abbrev>>)
    ensures
        match r {
            Some(abbrevs) => spec_abbrev_table(ab@, offset) == Some(abbrevs_model(abbrevs@)),
            None => spec_abbrev_table(ab@, offset) is None,
        },
{
    let n = ab.len();
    if offset >= n as u64 {
        return None;
    }
    let mut abbrevs: Vec<Abbrev> = Vec::new();
    let mut p = offset as usize;
    proof {
        match spec_abbrev_list(ab@, p as int) {
            Option::Some(rest) => {
                assert(abbrevs_model(abbrevs@) + rest =~= rest);
            },
            Option::None => {},
        }
    }
    while p < n
        invariant
            offset <= p <= n == ab@.len(),
            spec_abbrev_list(ab@, offset as int) == (match spec_abbrev_list(ab@, p as int) {
                Option::Some(rest) => Some(abbrevs_model(abbrevs@) + rest),
                Option::None => None::<Seq<AbbrevModel>>,
            }),
        decreases n - p,
    {
        let ghost prev = abbrevs@;
        match read_uleb(ab, p) {
            None => {
                return None;
            },
            Some((code, p1)) => {
                if code == 0 {
                    proof {
                        assert(abbrevs_model(abbrevs@) + Seq::<AbbrevModel>::empty()
                            =~= abbrevs_model(abbrevs@));
                    }
                    return Some(abbrevs);
                }
                match read_uleb(ab, p1) {
                    None => {
                        return None;
                    },
                    Some((tag, p2)) => {
                        if p2 >= n {
                            return None;
                        }
                        let has_children = read_u8_at(ab, p2) != 0;
                        match parse_abbrev_pairs(ab, p2 + 1) {
                            None => {
                                return None;
                            },
                            Some((pairs, p3)) => {
                                let a = Abbrev { code, tag, has_children, pairs };
                                let ghost am = abbrev_model(a);
                                abbrevs.push(a);
                                proof {
                                    assert(abbrevs_model(abbrevs@) =~= abbrevs_model(prev).push(
                                        am,
                                    ));
                                    match spec_abbrev_list(ab@, p3 as int) {
                                        Option::Some(rest) => {
                                            assert(abbrevs_model(prev) + (seq![am] + rest)
                                                =~= abbrevs_model(abbrevs@) + rest);
                                        },
                                        Option::None => {},
                                    }
                                }
                                p = p3;
                            },
                        }
                    },
                }
            },
        }
    }
    None
}

/// The index of the abbreviation declared with `code`.
fn find_abbrev(abbrevs: &Vec<Abbrev>, code: u64) -> (r: Option<usize>)
    ensures
        match r {
            Some(i) => i < abbrevs@.len() && spec_find_abbrev(abbrevs_model(abbrevs@), code, 0)
                == Some(i as int),
            None => spec_find_abbrev(abbrevs_model(abbrevs@), code, 0) is None,
        },
{
    let n = abbrevs.len();
    let mut i: usize = 0;
    while i < n
        invariant
            i <= n == abbrevs@.len(),
            spec_find_abbrev(abbrevs_model(abbrevs@), code, 0) == spec_find_abbrev(
                abbrevs_model(abbrevs@),
                code,
                i as int,
            ),
        decreases n - i,
    {
        if vstd::std_specs::vec::vec_index(abbrevs, i).code == code {
            return Some(i);
        }
        i = i + 1;
    }
    None
}

/// What decoding one attribute value of the given form at `p`
/// yields; `None` on truncation or an unrecognized form. This is the
/// decoding itself, stated over the bytes.
pub open spec fn spec_attr_direct(
    info: Seq<u8>,
    p: int,
    unit_end: int,
    form: u64,
    address_size: u8,
    version: u16,
) -> Option<(AttrValueModel, int)>
    recommends
        0 <= p <= unit_end <= info.len(),
{
    if form == 0x01 {
        let k: int = if address_size == 8 {
            8
        } else {
            4
        };
        if p + k <= unit_end {
            let a = if address_size == 8 {
                spec_u64_at(info, p, true)
            } else {
                spec_u32_at(info, p, true) as u64
            };
            Some((AttrValueModel::Addr(a), p + k))
        } else {
            None
        }
    } else if form == 0x03 {
        if p + 2 <= unit_end {
            let len = spec_u16_at(info, p, true) as int;
            if p + 2 + len <= unit_end {
                Some((AttrValueModel::Other, p + 2 + len))
            } else {
                None
            }
        } else {
            None
        }
    } else if form == 0x04 {
        if p + 4 <= unit_end {
            let len = spec_u32_at(info, p, true) as int;
            if len <= unit_end - (p + 4) {
                Some((AttrValueModel::Other, p + 4 + len))
            } else {
                None
            }
        } else {
            None
        }
    } else if form == 0x05 {
        if p + 2 <= unit_end {
            Some((AttrValueModel::Udata(spec_u16_at(info, p, true) as u64), p + 2))
        } else {
            None
        }
    } else if form == 0x06 {
        if p + 4 <= unit_end {
            Some((AttrValueModel::Udata(spec_u32_at(info, p, true) as u64), p + 4))
        } else {
            None
        }
    } else if form == 0x07 {
        if p + 8 <= unit_end {
            Some((AttrValueModel::Udata(spec_u64_at(info, p, true)), p + 8))
        } else {
            None
        }
    } else if form == 0x08 {
        let stop = spec_first_nul(info, p, unit_end);
        if stop < unit_end {
            Some((AttrValueModel::InlineStr(info.subrange(p, stop)), stop + 1))
        } else {
            None
        }
    } else if form == 0x09 {
        match spec_uleb(info, p) {
            Option::None => None,
            Option::Some((len, q)) => if q <= unit_end && len <= unit_end - q {
                Some((AttrValueModel::Other, q + len))
            } else {
                None
            },
        }
    } else if form == 0x0a {
        if p + 1 <= unit_end {
            let len = info[p] as int;
            if p + 1 + len <= unit_end {
                Some((AttrValueModel::Other, p + 1 + len))
            } else {
                None
            }
        } else {
            None
        }
    } else if form == 0x0b {
        if p + 1 <= unit_end {
            Some((AttrValueModel::Udata(info[p] as u64), p + 1))
        } else {
            None
        }
    } else if form == 0x0c {
        if p + 1 <= unit_end {
            Some((AttrValueModel::Other, p + 1))
        } else {
            None
        }
    } else if form == 0x0d {
        match spec_leb_end(info, p, 10) {
            Option::None => None,
            Option::Some(q) => if q <= unit_end {
                Some((AttrValueModel::Other, q))
            } else {
                None
            },
        }
    } else if form == 0x0e {
        if p + 4 <= unit_end {
            Some((AttrValueModel::StrRef(spec_u32_at(info, p, true) as u64), p + 4))
        } else {
            None
        }
    } else if form == 0x0f {
        match spec_uleb(info, p) {
            Option::None => None,
            Option::Some((v, q)) => if q <= unit_end {
                Some((AttrValueModel::Udata(v), q))
            } else {
                None
            },
        }
    } else if form == 0x10 {
        let k: int = if version == 2 {
            if address_size == 8 {
                8
            } else {
                4
            }
        } else {
            4
        };
        if p + k <= unit_end {
            Some((AttrValueModel::Other, p + k))
        } else {
            None
        }
    } else if form == 0x11 {
        if p + 1 <= unit_end {
            Some((AttrValueModel::UnitRef(info[p] as u64), p + 1))
        } else {
            None
        }
    } else if form == 0x12 {
        if p + 2 <= unit_end {
            Some((AttrValueModel::UnitRef(spec_u16_at(info, p, true) as u64), p + 2))
        } else {
            None
        }
    } else if form == 0x13 {
        if p + 4 <= unit_end {
            Some((AttrValueModel::UnitRef(spec_u32_at(info, p, true) as u64), p + 4))
        } else {
            None
        }
    } else if form == 0x14 {
        if p + 8 <= unit_end {
            Some((AttrValueModel::UnitRef(spec_u64_at(info, p, true)), p + 8))
        } else {
            None
        }
    } else if form == 0x15 {
        match spec_uleb(info, p) {
            Option::None => None,
            Option::Some((v, q)) => if q <= unit_end {
                Some((AttrValueModel::UnitRef(v), q))
            } else {
                None
            },
        }
    } else if form == 0x17 || form == 0x1c || form == 0x1d || form == 0x1f {
        if p + 4 <= unit_end {
            Some((AttrValueModel::Other, p + 4))
        } else {
            None
        }
    } else if form == 0x18 {
        match spec_uleb(info, p) {
            Option::None => None,
            Option::Some((len, q)) => if q <= unit_end && len <= unit_end - q {
                Some((AttrValueModel::Exprloc(info.subrange(q, q + len)), q + len))
            } else {
                None
            },
        }
    } else if form == 0x19 || form == 0x21 {
        Some((AttrValueModel::Other, p))
    } else if form == 0x1a || form == 0x1b || form == 0x22 || form == 0x23 {
        match spec_uleb(info, p) {
            Option::None => None,
            Option::Some((v, q)) => if q <= unit_end {
                Some((AttrValueModel::Other, q))
            } else {
                None
            },
        }
    } else if form == 0x1e {
        if p + 16 <= unit_end {
            Some((AttrValueModel::Other, p + 16))
        } else {
            None
        }
    } else if form == 0x20 || form == 0x24 {
        if p + 8 <= unit_end {
            Some((AttrValueModel::Other, p + 8))
        } else {
            None
        }
    } else if form == 0x25 || form == 0x29 {
        if p + 1 <= unit_end {
            Some((AttrValueModel::Other, p + 1))
        } else {
            None
        }
    } else if form == 0x26 || form == 0x2a {
        if p + 2 <= unit_end {
            Some((AttrValueModel::Other, p + 2))
        } else {
            None
        }
    } else if form == 0x27 || form == 0x2b {
        if p + 3 <= unit_end {
            Some((AttrValueModel::Other, p + 3))
        } else {
            None
        }
    } else if form == 0x28 || form == 0x2c {
        if p + 4 <= unit_end {
            Some((AttrValueModel::Other, p + 4))
        } else {
            None
        }
    } else {
        None
    }
}

/// One attribute value, one level of the `indirect` form resolved.
pub open spec fn spec_attr_value(
    info: Seq<u8>,
    p: int,
    unit_end: int,
    form: u64,
    address_size: u8,
    version: u16,
) -> Option<(AttrValueModel, int)>
    recommends
        0 <= p <= unit_end <= info.len(),
{
    if form == 0x16 {
        match spec_uleb(info, p) {
            Option::None => None,
            Option::Some((form2, q)) => if q <= unit_end && form2 != 0x16 {
                spec_attr_direct(info, q, unit_end, form2, address_size, version)
            } else {
                None
            },
        }
    } else {
        spec_attr_direct(info, p, unit_end, form, address_size, version)
    }
}

/// A decoded attribute value never moves backwards or past the unit.
#[verifier::rlimit(100)]
pub proof fn lemma_attr_direct_advances(
    info: Seq<u8>,
    p: int,
    unit_end: int,
    form: u64,
    address_size: u8,
    version: u16,
)
    requires
        0 <= p <= unit_end <= info.len(),
    ensures
        spec_attr_direct(info, p, unit_end, form, address_size, version) matches Some((v, p2))
            ==> p <= p2 <= unit_end,
{
    crate::bytes::lemma_uleb_advances(info, p);
    crate::bytes::lemma_leb_end_advances(info, p, 10);
    crate::elf::lemma_first_nul_bounds(info, p, unit_end);
}

pub proof fn lemma_attr_value_advances(
    info: Seq<u8>,
    p: int,
    unit_end: int,
    form: u64,
    address_size: u8,
    version: u16,
)
    requires
        0 <= p <= unit_end <= info.len(),
    ensures
        spec_attr_value(info, p, unit_end, form, address_size, version) matches Some((v, p2))
            ==> p <= p2 <= unit_end,
{
    if form == 0x16 {
        crate::bytes::lemma_uleb_advances(info, p);
        match spec_uleb(info, p) {
            Option::None => {},
            Option::Some((form2, q)) => {
                if q <= unit_end && form2 != 0x16 {
                    lemma_attr_direct_advances(info, q, unit_end, form2, address_size, version);
                }
            },
        }
    } else {
        lemma_attr_direct_advances(info, p, unit_end, form, address_size, version);
    }
}

// -------------------------------------------------------------------
// Attribute values, consumed form by form. Every recognized form
// consumes exactly the bytes the DWARF encoding gives it, whether or
// not the extraction reads its value.

/// The position after `k` more bytes, when they fit before `unit_end`.
fn take_bytes(p: usize, unit_end: usize, k: usize) -> (r: Option<usize>)
    requires
        p <= unit_end,
    ensures
        r matches Some(p2) ==> p <= p2 <= unit_end && p2 == p + k,
        r is None ==> p + k > unit_end,
{
    if k <= unit_end - p {
        Some(p + k)
    } else {
        None
    }
}

/// Decode or skip one attribute value of the given form (`indirect`
/// already resolved by the caller).
#[verifier::rlimit(100)]
fn read_attr_direct(info: &[u8], p: usize, unit_end: usize, form: u64, address_size: u8,
    version: u16) -> (r: Option<(AttrValue, usize)>)
    requires
        unit_end <= info@.len(),
        p <= unit_end,
        address_size == 4 || address_size == 8,
    ensures
        match r {
            Some((v, p2)) => {
                &&& p <= p2 <= unit_end
                &&& spec_attr_direct(info@, p as int, unit_end as int, form, address_size, version)
                    == Some((attr_value_model(v), p2 as int))
            },
            None => spec_attr_direct(
                info@,
                p as int,
                unit_end as int,
                form,
                address_size,
                version,
            ) is None,
        },
{
    if form == 0x01 {
        // addr
        let k: usize = if address_size == 8 {
            8
        } else {
            4
        };
        match take_bytes(p, unit_end, k) {
            None => None,
            Some(p2) => {
                let a = if address_size == 8 {
                    read_u64_at(info, p, true)
                } else {
                    read_u32_at(info, p, true) as u64
                };
                Some((AttrValue::Addr(a), p2))
            },
        }
    } else if form == 0x03 {
        // block2
        match take_bytes(p, unit_end, 2) {
            None => None,
            Some(p2) => {
                let len = read_u16_at(info, p, true) as usize;
                match take_bytes(p2, unit_end, len) {
                    None => None,
                    Some(p3) => Some((AttrValue::Other, p3)),
                }
            },
        }
    } else if form == 0x04 {
        // block4
        match take_bytes(p, unit_end, 4) {
            None => None,
            Some(p2) => {
                let len = read_u32_at(info, p, true) as u64;
                if len <= (unit_end - p2) as u64 {
                    Some((AttrValue::Other, p2 + len as usize))
                } else {
                    None
                }
            },
        }
    } else if form == 0x05 {
        // data2
        match take_bytes(p, unit_end, 2) {
            None => None,
            Some(p2) => Some((AttrValue::Udata(read_u16_at(info, p, true) as u64), p2)),
        }
    } else if form == 0x06 {
        // data4
        match take_bytes(p, unit_end, 4) {
            None => None,
            Some(p2) => Some((AttrValue::Udata(read_u32_at(info, p, true) as u64), p2)),
        }
    } else if form == 0x07 {
        // data8
        match take_bytes(p, unit_end, 8) {
            None => None,
            Some(p2) => Some((AttrValue::Udata(read_u64_at(info, p, true)), p2)),
        }
    } else if form == 0x08 {
        // string: inline, zero-terminated
        let stop = find_nul(info, p, unit_end);
        if stop < unit_end {
            let bytes = vstd::slice::slice_to_vec(vstd::slice::slice_subrange(info, p, stop));
            Some((AttrValue::InlineStr(bytes), stop + 1))
        } else {
            None
        }
    } else if form == 0x09 {
        // block
        match read_uleb(info, p) {
            None => None,
            Some((len, p2)) => {
                if p2 <= unit_end && len <= (unit_end - p2) as u64 {
                    Some((AttrValue::Other, p2 + len as usize))
                } else {
                    None
                }
            },
        }
    } else if form == 0x0a {
        // block1
        match take_bytes(p, unit_end, 1) {
            None => None,
            Some(p2) => {
                let len = read_u8_at(info, p) as usize;
                match take_bytes(p2, unit_end, len) {
                    None => None,
                    Some(p3) => Some((AttrValue::Other, p3)),
                }
            },
        }
    } else if form == 0x0b {
        // data1
        match take_bytes(p, unit_end, 1) {
            None => None,
            Some(p2) => Some((AttrValue::Udata(read_u8_at(info, p) as u64), p2)),
        }
    } else if form == 0x0c {
        // flag
        match take_bytes(p, unit_end, 1) {
            None => None,
            Some(p2) => Some((AttrValue::Other, p2)),
        }
    } else if form == 0x0d {
        // sdata
        match skip_leb(info, p) {
            None => None,
            Some(p2) => {
                if p2 <= unit_end {
                    Some((AttrValue::Other, p2))
                } else {
                    None
                }
            },
        }
    } else if form == 0x0e {
        // strp
        match take_bytes(p, unit_end, 4) {
            None => None,
            Some(p2) => Some((AttrValue::StrRef(read_u32_at(info, p, true) as u64), p2)),
        }
    } else if form == 0x0f {
        // udata
        match read_uleb(info, p) {
            None => None,
            Some((v, p2)) => {
                if p2 <= unit_end {
                    Some((AttrValue::Udata(v), p2))
                } else {
                    None
                }
            },
        }
    } else if form == 0x10 {
        // ref_addr: offset-sized from version 3 on, address-sized in
        // version 2
        let k: usize = if version == 2 {
            if address_size == 8 {
                8
            } else {
                4
            }
        } else {
            4
        };
        match take_bytes(p, unit_end, k) {
            None => None,
            Some(p2) => Some((AttrValue::Other, p2)),
        }
    } else if form == 0x11 {
        // ref1
        match take_bytes(p, unit_end, 1) {
            None => None,
            Some(p2) => Some((AttrValue::UnitRef(read_u8_at(info, p) as u64), p2)),
        }
    } else if form == 0x12 {
        // ref2
        match take_bytes(p, unit_end, 2) {
            None => None,
            Some(p2) => Some((AttrValue::UnitRef(read_u16_at(info, p, true) as u64), p2)),
        }
    } else if form == 0x13 {
        // ref4
        match take_bytes(p, unit_end, 4) {
            None => None,
            Some(p2) => Some((AttrValue::UnitRef(read_u32_at(info, p, true) as u64), p2)),
        }
    } else if form == 0x14 {
        // ref8
        match take_bytes(p, unit_end, 8) {
            None => None,
            Some(p2) => Some((AttrValue::UnitRef(read_u64_at(info, p, true)), p2)),
        }
    } else if form == 0x15 {
        // ref_udata
        match read_uleb(info, p) {
            None => None,
            Some((v, p2)) => {
                if p2 <= unit_end {
                    Some((AttrValue::UnitRef(v), p2))
                } else {
                    None
                }
            },
        }
    } else if form == 0x17 || form == 0x1c || form == 0x1d || form == 0x1f {
        // sec_offset, ref_sup4, strp_sup, line_strp
        match take_bytes(p, unit_end, 4) {
            None => None,
            Some(p2) => Some((AttrValue::Other, p2)),
        }
    } else if form == 0x18 {
        // exprloc
        match read_uleb(info, p) {
            None => None,
            Some((len, p2)) => {
                if p2 <= unit_end && len <= (unit_end - p2) as u64 {
                    let hi = p2 + len as usize;
                    let bytes = vstd::slice::slice_to_vec(
                        vstd::slice::slice_subrange(info, p2, hi),
                    );
                    Some((AttrValue::Exprloc(bytes), hi))
                } else {
                    None
                }
            },
        }
    } else if form == 0x19 || form == 0x21 {
        // flag_present, implicit_const: nothing in the entry itself
        Some((AttrValue::Other, p))
    } else if form == 0x1a || form == 0x1b || form == 0x22 || form == 0x23 {
        // strx, addrx, loclistx, rnglistx
        match read_uleb(info, p) {
            None => None,
            Some((_, p2)) => {
                if p2 <= unit_end {
                    Some((AttrValue::Other, p2))
                } else {
                    None
                }
            },
        }
    } else if form == 0x1e {
        // data16
        match take_bytes(p, unit_end, 16) {
            None => None,
            Some(p2) => Some((AttrValue::Other, p2)),
        }
    } else if form == 0x20 || form == 0x24 {
        // ref_sig8, ref_sup8
        match take_bytes(p, unit_end, 8) {
            None => None,
            Some(p2) => Some((AttrValue::Other, p2)),
        }
    } else if form == 0x25 {
        // strx1
        match take_bytes(p, unit_end, 1) {
            None => None,
            Some(p2) => Some((AttrValue::Other, p2)),
        }
    } else if form == 0x26 || form == 0x2a {
        // strx2, addrx2
        match take_bytes(p, unit_end, 2) {
            None => None,
            Some(p2) => Some((AttrValue::Other, p2)),
        }
    } else if form == 0x27 || form == 0x2b {
        // strx3, addrx3
        match take_bytes(p, unit_end, 3) {
            None => None,
            Some(p2) => Some((AttrValue::Other, p2)),
        }
    } else if form == 0x28 || form == 0x2c {
        // strx4, addrx4
        match take_bytes(p, unit_end, 4) {
            None => None,
            Some(p2) => Some((AttrValue::Other, p2)),
        }
    } else if form == 0x29 {
        // addrx1
        match take_bytes(p, unit_end, 1) {
            None => None,
            Some(p2) => Some((AttrValue::Other, p2)),
        }
    } else {
        None
    }
}

/// Decode or skip one attribute value, resolving one level of the
/// `indirect` form.
fn read_attr_value(info: &[u8], p: usize, unit_end: usize, form: u64, address_size: u8,
    version: u16) -> (r: Option<(AttrValue, usize)>)
    requires
        unit_end <= info@.len(),
        p <= unit_end,
        address_size == 4 || address_size == 8,
    ensures
        match r {
            Some((v, p2)) => {
                &&& p <= p2 <= unit_end
                &&& spec_attr_value(info@, p as int, unit_end as int, form, address_size, version)
                    == Some((attr_value_model(v), p2 as int))
            },
            None => spec_attr_value(
                info@,
                p as int,
                unit_end as int,
                form,
                address_size,
                version,
            ) is None,
        },
{
    if form == 0x16 {
        // indirect: the actual form precedes the value
        match read_uleb(info, p) {
            None => None,
            Some((form2, p2)) => {
                if p2 <= unit_end && form2 != 0x16 {
                    read_attr_direct(info, p2, unit_end, form2, address_size, version)
                } else {
                    None
                }
            },
        }
    } else {
        read_attr_direct(info, p, unit_end, form, address_size, version)
    }
}

/// Read one entry at `p`: `Some((None, p2))` is a null entry ending
/// a sibling list, `Some((Some(die), p2))` a decoded entry, `None` a
/// malformed one.
#[verifier::loop_isolation(false)]
fn read_die(info: &[u8], abbrevs: &Vec<Abbrev>, p: usize, unit_end: usize, address_size: u8,
    version: u16) -> (r: Option<(Option<Die>, usize)>)
    requires
        unit_end <= info@.len(),
        p < unit_end,
        address_size == 4 || address_size == 8,
    ensures
        match r {
            Some((entry, p2)) => {
                &&& p < p2 <= unit_end
                &&& spec_read_die(
                    info@,
                    abbrevs_model(abbrevs@),
                    p as int,
                    unit_end as int,
                    address_size,
                    version,
                ) == Some(
                    (
                        match entry {
                            Some(die) => Some(die_model(die)),
                            None => None::<DieModel>,
                        },
                        p2 as int,
                    ),
                )
            },
            None => spec_read_die(
                info@,
                abbrevs_model(abbrevs@),
                p as int,
                unit_end as int,
                address_size,
                version,
            ) is None,
        },
{
    match read_uleb(info, p) {
        None => None,
        Some((code, p1)) => {
            if p1 > unit_end {
                return None;
            }
            if code == 0 {
                return Some((None, p1));
            }
            match find_abbrev(abbrevs, code) {
                None => None,
                Some(idx) => {
                    let ab = vstd::std_specs::vec::vec_index(abbrevs, idx);
                    proof {
                        assert(abbrevs_model(abbrevs@)[idx as int] == abbrev_model(*ab));
                    }
                    let npairs = ab.pairs.len();
                    let mut attrs: Vec<Attr> = Vec::new();
                    let mut q = p1;
                    let mut k: usize = 0;
                    proof {
                        match spec_read_attrs(
                            info@,
                            ab.pairs@,
                            0,
                            p1 as int,
                            unit_end as int,
                            address_size,
                            version,
                        ) {
                            Option::Some((rest, e)) => {
                                assert(attrs_model(attrs@) + rest =~= rest);
                            },
                            Option::None => {},
                        }
                    }
                    while k < npairs
                        invariant
                            p < q <= unit_end,
                            k <= npairs == ab.pairs@.len(),
                            spec_read_attrs(
                                info@,
                                ab.pairs@,
                                0,
                                p1 as int,
                                unit_end as int,
                                address_size,
                                version,
                            ) == (match spec_read_attrs(
                                info@,
                                ab.pairs@,
                                k as int,
                                q as int,
                                unit_end as int,
                                address_size,
                                version,
                            ) {
                                Option::Some((rest, e)) => Some((attrs_model(attrs@) + rest, e)),
                                Option::None => None::<(Seq<AttrModel>, int)>,
                            }),
                        decreases npairs - k,
                    {
                        let ghost prev = attrs@;
                        let pair = vstd::std_specs::vec::vec_index(&ab.pairs, k);
                        match read_attr_value(info, q, unit_end, pair.form, address_size, version) {
                            None => {
                                return None;
                            },
                            Some((v, q2)) => {
                                let a = Attr { at: pair.at, value: v };
                                let ghost am = attr_model(a);
                                attrs.push(a);
                                proof {
                                    assert(attrs_model(attrs@) =~= attrs_model(prev).push(am));
                                    match spec_read_attrs(
                                        info@,
                                        ab.pairs@,
                                        k + 1,
                                        q2 as int,
                                        unit_end as int,
                                        address_size,
                                        version,
                                    ) {
                                        Option::Some((rest, e)) => {
                                            assert(attrs_model(prev) + (seq![am] + rest)
                                                =~= attrs_model(attrs@) + rest);
                                        },
                                        Option::None => {},
                                    }
                                }
                                q = q2;
                            },
                        }
                        k = k + 1;
                    }
                    proof {
                        assert(attrs_model(attrs@) + Seq::<AttrModel>::empty() =~= attrs_model(
                            attrs@,
                        ));
                    }
                    Some((Some(Die { tag: ab.tag, has_children: ab.has_children, attrs }), q))
                },
            }
        },
    }
}

/// The attribute/form pairs of one abbreviation declaration,
/// terminated by a zero pair, as a function of the bytes.
pub open spec fn spec_abbrev_pairs(ab: Seq<u8>, q: int) -> Option<(Seq<AttrForm>, int)>
    recommends
        0 <= q <= ab.len(),
    decreases ab.len() - q,
    via spec_abbrev_pairs_decreases
{
    if q < 0 || q >= ab.len() {
        None
    } else {
        match spec_uleb(ab, q) {
            Option::None => None,
            Option::Some((at, q1)) => match spec_uleb(ab, q1) {
                Option::None => None,
                Option::Some((form, q2)) => {
                    if at == 0 && form == 0 {
                        Some((Seq::<AttrForm>::empty(), q2))
                    } else if form == 0x21 {
                        match spec_leb_end(ab, q2, 10) {
                            Option::None => None,
                            Option::Some(q3) => match spec_abbrev_pairs(ab, q3) {
                                Option::None => None,
                                Option::Some((rest, e)) => Some(
                                    (seq![AttrForm { at, form }] + rest, e),
                                ),
                            },
                        }
                    } else {
                        match spec_abbrev_pairs(ab, q2) {
                            Option::None => None,
                            Option::Some((rest, e)) => Some((seq![AttrForm { at, form }] + rest, e)),
                        }
                    }
                },
            },
        }
    }
}

#[via_fn]
proof fn spec_abbrev_pairs_decreases(ab: Seq<u8>, q: int) {
    crate::bytes::lemma_uleb_advances(ab, q);
    match spec_uleb(ab, q) {
        Option::None => {},
        Option::Some((at, q1)) => {
            crate::bytes::lemma_uleb_advances(ab, q1);
            match spec_uleb(ab, q1) {
                Option::None => {},
                Option::Some((form, q2)) => {
                    crate::bytes::lemma_leb_end_advances(ab, q2, 10);
                },
            }
        },
    }
}

/// A pair list ends after where it began and inside the section.
pub proof fn lemma_abbrev_pairs_advances(ab: Seq<u8>, q: int)
    ensures
        spec_abbrev_pairs(ab, q) matches Some((pairs, e)) ==> q < e <= ab.len(),
    decreases ab.len() - q,
{
    if 0 <= q < ab.len() {
        crate::bytes::lemma_uleb_advances(ab, q);
        match spec_uleb(ab, q) {
            Option::None => {},
            Option::Some((at, q1)) => {
                crate::bytes::lemma_uleb_advances(ab, q1);
                match spec_uleb(ab, q1) {
                    Option::None => {},
                    Option::Some((form, q2)) => {
                        if !(at == 0 && form == 0) {
                            if form == 0x21 {
                                crate::bytes::lemma_leb_end_advances(ab, q2, 10);
                                match spec_leb_end(ab, q2, 10) {
                                    Option::None => {},
                                    Option::Some(q3) => {
                                        lemma_abbrev_pairs_advances(ab, q3);
                                    },
                                }
                            } else {
                                lemma_abbrev_pairs_advances(ab, q2);
                            }
                        }
                    },
                }
            },
        }
    }
}

/// The declarations of one abbreviation table from `p` on,
/// terminated by a zero code.
pub open spec fn spec_abbrev_list(ab: Seq<u8>, p: int) -> Option<Seq<AbbrevModel>>
    recommends
        0 <= p <= ab.len(),
    decreases ab.len() - p,
    via spec_abbrev_list_decreases
{
    if p < 0 || p >= ab.len() {
        None
    } else {
        match spec_uleb(ab, p) {
            Option::None => None,
            Option::Some((code, p1)) => {
                if code == 0 {
                    Some(Seq::<AbbrevModel>::empty())
                } else {
                    match spec_uleb(ab, p1) {
                        Option::None => None,
                        Option::Some((tag, p2)) => {
                            if p2 >= ab.len() {
                                None
                            } else {
                                let has_children = ab[p2] != 0;
                                match spec_abbrev_pairs(ab, p2 + 1) {
                                    Option::None => None,
                                    Option::Some((pairs, p3)) => match spec_abbrev_list(ab, p3) {
                                        Option::None => None,
                                        Option::Some(rest) => Some(
                                            seq![AbbrevModel { code, tag, has_children, pairs }]
                                                + rest,
                                        ),
                                    },
                                }
                            }
                        },
                    }
                }
            },
        }
    }
}

#[via_fn]
proof fn spec_abbrev_list_decreases(ab: Seq<u8>, p: int) {
    crate::bytes::lemma_uleb_advances(ab, p);
    match spec_uleb(ab, p) {
        Option::None => {},
        Option::Some((code, p1)) => {
            crate::bytes::lemma_uleb_advances(ab, p1);
            match spec_uleb(ab, p1) {
                Option::None => {},
                Option::Some((tag, p2)) => {
                    lemma_abbrev_pairs_advances(ab, p2 + 1);
                },
            }
        },
    }
}

/// The whole abbreviation table a unit names, as a function of the
/// abbreviation section's bytes.
pub open spec fn spec_abbrev_table(ab: Seq<u8>, offset: u64) -> Option<Seq<AbbrevModel>> {
    if offset >= ab.len() {
        None
    } else {
        spec_abbrev_list(ab, offset as int)
    }
}

/// The index of the first abbreviation from `i` on declared with
/// `code`.
pub open spec fn spec_find_abbrev(abbrevs: Seq<AbbrevModel>, code: u64, i: int) -> Option<int>
    decreases abbrevs.len() - i,
{
    if i < 0 || i >= abbrevs.len() {
        None
    } else if abbrevs[i].code == code {
        Some(i)
    } else {
        spec_find_abbrev(abbrevs, code, i + 1)
    }
}

/// The attributes of one entry, read pair by pair against its
/// abbreviation.
pub open spec fn spec_read_attrs(
    info: Seq<u8>,
    pairs: Seq<AttrForm>,
    k: int,
    q: int,
    unit_end: int,
    address_size: u8,
    version: u16,
) -> Option<(Seq<AttrModel>, int)>
    decreases pairs.len() - k,
{
    if k < 0 || k >= pairs.len() {
        Some((Seq::<AttrModel>::empty(), q))
    } else {
        match spec_attr_value(info, q, unit_end, pairs[k].form, address_size, version) {
            Option::None => None,
            Option::Some((v, q2)) => match spec_read_attrs(
                info,
                pairs,
                k + 1,
                q2,
                unit_end,
                address_size,
                version,
            ) {
                Option::None => None,
                Option::Some((rest, e)) => Some(
                    (seq![AttrModel { at: pairs[k].at, value: v }] + rest, e),
                ),
            },
        }
    }
}

/// An attribute list ends at or after where it began, inside the
/// unit.
pub proof fn lemma_read_attrs_advances(
    info: Seq<u8>,
    pairs: Seq<AttrForm>,
    k: int,
    q: int,
    unit_end: int,
    address_size: u8,
    version: u16,
)
    requires
        0 <= q <= unit_end <= info.len(),
    ensures
        spec_read_attrs(info, pairs, k, q, unit_end, address_size, version) matches Some((a, e))
            ==> q <= e <= unit_end,
    decreases pairs.len() - k,
{
    if 0 <= k < pairs.len() {
        lemma_attr_value_advances(info, q, unit_end, pairs[k].form, address_size, version);
        match spec_attr_value(info, q, unit_end, pairs[k].form, address_size, version) {
            Option::None => {},
            Option::Some((v, q2)) => {
                lemma_read_attrs_advances(info, pairs, k + 1, q2, unit_end, address_size, version);
            },
        }
    }
}

/// One entry at `p`: `Some((None, p2))` is a null entry,
/// `Some((Some(die), p2))` a decoded one, `None` a malformed one —
/// all as a function of the bytes and the unit's abbreviations.
pub open spec fn spec_read_die(
    info: Seq<u8>,
    abbrevs: Seq<AbbrevModel>,
    p: int,
    unit_end: int,
    address_size: u8,
    version: u16,
) -> Option<(Option<DieModel>, int)> {
    match spec_uleb(info, p) {
        Option::None => None,
        Option::Some((code, p1)) => {
            if p1 > unit_end {
                None
            } else if code == 0 {
                Some((None, p1))
            } else {
                match spec_find_abbrev(abbrevs, code, 0) {
                    Option::None => None,
                    Option::Some(idx) => {
                        let ab = abbrevs[idx];
                        match spec_read_attrs(
                            info,
                            ab.pairs,
                            0,
                            p1,
                            unit_end,
                            address_size,
                            version,
                        ) {
                            Option::None => None,
                            Option::Some((attrs, q)) => Some(
                                (
                                    Some(
                                        DieModel {
                                            tag: ab.tag,
                                            has_children: ab.has_children,
                                            attrs,
                                        },
                                    ),
                                    q,
                                ),
                            ),
                        }
                    },
                }
            }
        },
    }
}

/// A decoded entry always consumes at least one byte and stays
/// inside the unit.
pub proof fn lemma_read_die_advances(
    info: Seq<u8>,
    abbrevs: Seq<AbbrevModel>,
    p: int,
    unit_end: int,
    address_size: u8,
    version: u16,
)
    requires
        0 <= p,
        unit_end <= info.len(),
    ensures
        spec_read_die(info, abbrevs, p, unit_end, address_size, version) matches Some((e, p2))
            ==> p < p2 <= unit_end,
{
    crate::bytes::lemma_uleb_advances(info, p);
    match spec_uleb(info, p) {
        Option::None => {},
        Option::Some((code, p1)) => {
            if p1 <= unit_end && code != 0 {
                match spec_find_abbrev(abbrevs, code, 0) {
                    Option::None => {},
                    Option::Some(idx) => {
                        lemma_read_attrs_advances(
                            info,
                            abbrevs[idx].pairs,
                            0,
                            p1,
                            unit_end,
                            address_size,
                            version,
                        );
                    },
                }
            }
        },
    }
}

// -------------------------------------------------------------------
// The extraction rules, restated over the ghost mirrors, and the
// record models they produce. Referenced types stay shallow in the
// records, so a model record carries only what varies: everything
// pinned (scope tags, placeholder types, absent offsets) lives in
// the match predicates below.

pub open spec fn model_attr_from(attrs: Seq<AttrModel>, at: u64) -> Option<AttrValueModel>
    decreases attrs.len(),
{
    if attrs.len() == 0 {
        None
    } else if attrs[0].at == at {
        Some(attrs[0].value)
    } else {
        model_attr_from(attrs.drop_first(), at)
    }
}

pub open spec fn model_die_name(attrs: Seq<AttrModel>, strs: Seq<u8>) -> Option<Option<Seq<char>>> {
    match model_attr_from(attrs, DW_AT_NAME) {
        Option::None => Some(None),
        Option::Some(v) => match v {
            AttrValueModel::InlineStr(bytes) => Some(Some(utf8_lossy_of(bytes))),
            AttrValueModel::StrRef(off) => if off < strs.len() {
                let stop = spec_first_nul(strs, off as int, strs.len() as int);
                if stop < strs.len() {
                    Some(Some(utf8_lossy_of(strs.subrange(off as int, stop))))
                } else {
                    None
                }
            } else {
                None
            },
            _ => Some(None),
        },
    }
}

pub open spec fn model_name_or(attrs: Seq<AttrModel>, strs: Seq<u8>, fallback: Seq<char>) -> Seq<
    char,
> {
    match model_die_name(attrs, strs) {
        Option::Some(Option::Some(nm)) => nm,
        _ => fallback,
    }
}

pub open spec fn model_func_address(attrs: Seq<AttrModel>) -> u64 {
    match model_attr_from(attrs, DW_AT_LOW_PC) {
        Option::Some(AttrValueModel::Addr(a)) => a,
        _ => 0,
    }
}

pub open spec fn model_func_size(attrs: Seq<AttrModel>, address: u64) -> Option<u64> {
    match model_attr_from(attrs, DW_AT_HIGH_PC) {
        Option::Some(AttrValueModel::Udata(x)) => Some(x),
        Option::Some(AttrValueModel::Addr(h)) => Some(
            if h >= address {
                (h - address) as u64
            } else {
                0u64
            },
        ),
        _ => None,
    }
}

pub open spec fn model_var_address(attrs: Seq<AttrModel>) -> Option<u64> {
    match model_attr_from(attrs, DW_AT_LOCATION) {
        Option::Some(AttrValueModel::Exprloc(e)) => if e.len() >= 9 && e[0] == DW_OP_ADDR {
            Some(spec_u64_at(e, 1, true))
        } else {
            None
        },
        _ => None,
    }
}

pub open spec fn model_type_size(attrs: Seq<AttrModel>) -> Option<u64> {
    match model_attr_from(attrs, DW_AT_BYTE_SIZE) {
        Option::Some(AttrValueModel::Udata(x)) => Some(x),
        _ => None,
    }
}

pub open spec fn model_member_offset(attrs: Seq<AttrModel>) -> u64 {
    match model_attr_from(attrs, DW_AT_DATA_MEMBER_LOCATION) {
        Option::Some(AttrValueModel::Udata(x)) => x,
        _ => 0,
    }
}

pub open spec fn model_has_type(attrs: Seq<AttrModel>) -> bool {
    model_attr_from(attrs, DW_AT_TYPE) is Some
}

pub open spec fn model_has_unit_ref(attrs: Seq<AttrModel>) -> bool {
    model_attr_from(attrs, DW_AT_TYPE) matches Some(AttrValueModel::UnitRef(_))
}

/// What one variable or parameter entry determines: its name, its
/// literal address if any, and whether a type attribute is present
/// (which placeholder type the record gets).
pub struct VariableModel {
    pub name: Seq<char>,
    pub address: Option<u64>,
    pub has_type: bool,
}

/// What one member entry determines.
pub struct MemberModel {
    pub name: Seq<char>,
    pub offset: u64,
}

/// What one type entry and its member children determine.
pub struct TypeModel {
    pub name: Seq<char>,
    pub size: Option<u64>,
    pub kind: Seq<char>,
    pub members: Seq<MemberModel>,
}

/// What one subprogram entry and its parameter children determine.
pub struct FunctionModel {
    pub name: Seq<char>,
    pub address: u64,
    pub size: Option<u64>,
    pub parameters: Seq<VariableModel>,
    pub has_return_type: bool,
}

pub open spec fn model_variable(die: DieModel, strs: Seq<u8>) -> Option<VariableModel> {
    match model_die_name(die.attrs, strs) {
        Option::None => None,
        Option::Some(_) => Some(
            VariableModel {
                name: model_name_or(die.attrs, strs, "<unknown>"@),
                address: model_var_address(die.attrs),
                has_type: model_has_type(die.attrs),
            },
        ),
    }
}

pub open spec fn model_member(die: DieModel, strs: Seq<u8>) -> Option<MemberModel> {
    match model_die_name(die.attrs, strs) {
        Option::None => None,
        Option::Some(_) => Some(
            MemberModel {
                name: model_name_or(die.attrs, strs, "<unknown>"@),
                offset: model_member_offset(die.attrs),
            },
        ),
    }
}

pub open spec fn model_type(die: DieModel, members: Seq<MemberModel>, strs: Seq<u8>) -> Option<
    TypeModel,
> {
    match model_die_name(die.attrs, strs) {
        Option::None => None,
        Option::Some(_) => Some(
            TypeModel {
                name: model_name_or(die.attrs, strs, "<anonymous>"@),
                size: model_type_size(die.attrs),
                kind: spec_kind_name(die.tag),
                members,
            },
        ),
    }
}

pub open spec fn model_function(die: DieModel, parameters: Seq<VariableModel>, strs: Seq<u8>) -> Option<
    FunctionModel,
> {
    match model_die_name(die.attrs, strs) {
        Option::None => None,
        Option::Some(_) => Some(
            FunctionModel {
                name: model_name_or(die.attrs, strs, "<unknown>"@),
                address: model_func_address(die.attrs),
                size: model_func_size(die.attrs, model_func_address(die.attrs)),
                parameters,
                has_return_type: model_has_unit_ref(die.attrs),
            },
        ),
    }
}

// -------------------------------------------------------------------
// What it means for an extracted record to carry exactly what its
// model determines.

pub open spec fn variable_matches(v: VariableInfo, m: VariableModel, scope: Seq<char>) -> bool {
    &&& v.name@ == m.name
    &&& v.address == m.address
    &&& v.offset is None
    &&& v.scope@ == scope
    &&& (if m.has_type {
        spec_basic_placeholder(v.type_info, "unknown"@)
    } else {
        spec_basic_placeholder(v.type_info, "void"@)
    })
}

pub open spec fn variables_match(vs: Seq<VariableInfo>, ms: Seq<VariableModel>, scope: Seq<char>) -> bool {
    &&& vs.len() == ms.len()
    &&& (forall|i: int| 0 <= i < vs.len() ==> variable_matches(#[trigger] vs[i], ms[i], scope))
}

pub open spec fn member_matches(x: MemberInfo, m: MemberModel) -> bool {
    &&& x.name@ == m.name
    &&& x.offset == m.offset
    &&& spec_basic_placeholder(x.type_info, "unknown"@)
}

pub open spec fn members_match(xs: Seq<MemberInfo>, ms: Seq<MemberModel>) -> bool {
    &&& xs.len() == ms.len()
    &&& (forall|i: int| 0 <= i < xs.len() ==> member_matches(#[trigger] xs[i], ms[i]))
}

pub open spec fn type_matches(t: TypeInfo, m: TypeModel) -> bool {
    &&& t.name@ == m.name
    &&& t.size == m.size
    &&& t.kind@ == m.kind
    &&& members_match(t.members@, m.members)
}

pub open spec fn types_match(ts: Seq<TypeInfo>, ms: Seq<TypeModel>) -> bool {
    &&& ts.len() == ms.len()
    &&& (forall|i: int| 0 <= i < ts.len() ==> type_matches(#[trigger] ts[i], ms[i]))
}

pub open spec fn function_matches(f: FunctionInfo, m: FunctionModel) -> bool {
    &&& f.name@ == m.name
    &&& f.address == m.address
    &&& f.size == m.size
    &&& variables_match(f.parameters@, m.parameters, "parameter"@)
    &&& (match f.return_type {
        Option::Some(t) => m.has_return_type && t.name@ == "<return_type>"@ && t.size is None
            && t.kind@ == "unknown"@ && t.members@.len() == 0,
        Option::None => !m.has_return_type,
    })
}

pub open spec fn functions_match(fs: Seq<FunctionInfo>, ms: Seq<FunctionModel>) -> bool {
    &&& fs.len() == ms.len()
    &&& (forall|i: int| 0 <= i < fs.len() ==> function_matches(#[trigger] fs[i], ms[i]))
}

/// The first-match attribute lookup is the same whether it walks the
/// values or their mirrors.
proof fn lemma_attr_from_model(attrs: Seq<Attr>, at: u64)
    ensures
        model_attr_from(attrs_model(attrs), at) == (match spec_attr_from(attrs, at) {
            Option::Some(v) => Some(attr_value_model(v)),
            Option::None => None::<AttrValueModel>,
        }),
    decreases attrs.len(),
{
    if attrs.len() == 0 {
        assert(attrs_model(attrs).len() == 0);
    } else {
        assert(attrs_model(attrs)[0] == attr_model(attrs[0]));
        if attrs[0].at != at {
            assert(attrs_model(attrs).drop_first() =~= attrs_model(attrs.drop_first()));
            lemma_attr_from_model(attrs.drop_first(), at);
        }
    }
}

/// Every per-attribute extraction rule gives the same answer over
/// the mirror as over the decoded values.
proof fn lemma_die_attr_bridges(attrs: Seq<Attr>, strs: Seq<u8>, address: u64)
    ensures
        model_die_name(attrs_model(attrs), strs) == spec_die_name(attrs, strs),
        model_func_address(attrs_model(attrs)) == spec_func_address(attrs),
        model_func_size(attrs_model(attrs), address) == spec_func_size(attrs, address),
        model_var_address(attrs_model(attrs)) == spec_var_address(attrs),
        model_type_size(attrs_model(attrs)) == spec_type_size(attrs),
        model_member_offset(attrs_model(attrs)) == spec_member_offset(attrs),
        model_has_type(attrs_model(attrs)) == spec_has_type_attr(attrs),
        model_has_unit_ref(attrs_model(attrs)) == spec_has_unit_ref_type(attrs),
{
    lemma_attr_from_model(attrs, DW_AT_NAME);
    lemma_attr_from_model(attrs, DW_AT_LOW_PC);
    lemma_attr_from_model(attrs, DW_AT_HIGH_PC);
    lemma_attr_from_model(attrs, DW_AT_LOCATION);
    lemma_attr_from_model(attrs, DW_AT_BYTE_SIZE);
    lemma_attr_from_model(attrs, DW_AT_DATA_MEMBER_LOCATION);
    lemma_attr_from_model(attrs, DW_AT_TYPE);
}

// -------------------------------------------------------------------
// Tree traversal. A unit's entries form a pre-order stream in which
// an entry with children is followed by its child list, each sibling
// list ending with a null entry. The collectors below gather the
// immediate children of one entry that carry a given tag; the walker
// then drives one depth-first pass over every entry of every unit.

/// The shape every extracted variable record has: the requested
/// scope tag, no frame offset at this extraction depth, and a
/// shallow placeholder type.
pub open spec fn spec_var_shape(v: VariableInfo, scope: Seq<char>) -> bool {
    &&& v.scope@ == scope
    &&& v.offset is None
    &&& (spec_basic_placeholder(v.type_info, "unknown"@) || spec_basic_placeholder(
        v.type_info,
        "void"@,
    ))
}

/// The shape every extracted function record has: parameters scoped
/// as such, and a return type that is at most a shallow unresolved
/// placeholder.
pub open spec fn spec_function_shape(f: FunctionInfo) -> bool {
    &&& (forall|i: int|
        0 <= i < f.parameters@.len() ==> spec_var_shape(#[trigger] f.parameters@[i], "parameter"@))
    &&& (match f.return_type {
        Option::Some(t) => t.name@ == "<return_type>"@ && t.size is None && t.kind@ == "unknown"@
            && t.members@.len() == 0,
        Option::None => true,
    })
}

/// The shape every extracted member record has: a shallow
/// placeholder type, so that type graphs with cycles can never make
/// the result nest unboundedly.
pub open spec fn spec_member_shape(m: MemberInfo) -> bool {
    spec_basic_placeholder(m.type_info, "unknown"@)
}

/// The shape every extracted type record has: one of the three
/// aggregate kinds, members only for structs and unions, and every
/// member type shallow.
pub open spec fn spec_type_shape(t: TypeInfo) -> bool {
    &&& (t.kind@ == "struct"@ || t.kind@ == "union"@ || t.kind@ == "enum"@)
    &&& (forall|i: int| 0 <= i < t.members@.len() ==> spec_member_shape(#[trigger] t.members@[i]))
    &&& (t.kind@ == "struct"@ || t.kind@ == "union"@ || t.members@.len() == 0)
}

/// The formal parameters one subprogram's subtree determines, as a
/// function of the bytes: the entry's immediate children tagged
/// formal_parameter, in declaration order, each reduced to its
/// model; an undecodable parameter is skipped, a malformed subtree
/// yields `None` and the whole function entry is then skipped.
pub open spec fn spec_params_from(
    info: Seq<u8>,
    strs: Seq<u8>,
    abbrevs: Seq<AbbrevModel>,
    q: int,
    unit_end: int,
    address_size: u8,
    version: u16,
    depth: int,
) -> Option<Seq<VariableModel>>
    decreases unit_end - q,
    when 0 <= q && unit_end <= info.len()
    via spec_params_from_decreases
{
    if !(depth > 0 && q < unit_end) {
        Some(Seq::<VariableModel>::empty())
    } else {
        match spec_read_die(info, abbrevs, q, unit_end, address_size, version) {
            Option::None => None,
            Option::Some((entry, q2)) => match entry {
                Option::None => spec_params_from(
                    info,
                    strs,
                    abbrevs,
                    q2,
                    unit_end,
                    address_size,
                    version,
                    depth - 1,
                ),
                Option::Some(die) => {
                    let emitted: Seq<VariableModel> = if depth == 1 && die.tag
                        == DW_TAG_FORMAL_PARAMETER {
                        match model_variable(die, strs) {
                            Option::Some(vm) => seq![vm],
                            Option::None => Seq::empty(),
                        }
                    } else {
                        Seq::empty()
                    };
                    if die.has_children && depth == usize::MAX as int {
                        None
                    } else {
                        let depth2 = if die.has_children {
                            depth + 1
                        } else {
                            depth
                        };
                        match spec_params_from(
                            info,
                            strs,
                            abbrevs,
                            q2,
                            unit_end,
                            address_size,
                            version,
                            depth2,
                        ) {
                            Option::None => None,
                            Option::Some(rest) => Some(emitted + rest),
                        }
                    }
                },
            },
        }
    }
}

#[via_fn]
proof fn spec_params_from_decreases(
    info: Seq<u8>,
    strs: Seq<u8>,
    abbrevs: Seq<AbbrevModel>,
    q: int,
    unit_end: int,
    address_size: u8,
    version: u16,
    depth: int,
) {
    lemma_read_die_advances(info, abbrevs, q, unit_end, address_size, version);
}

pub open spec fn spec_collect_params(
    info: Seq<u8>,
    strs: Seq<u8>,
    abbrevs: Seq<AbbrevModel>,
    start: int,
    unit_end: int,
    address_size: u8,
    version: u16,
    has_children: bool,
) -> Option<Seq<VariableModel>> {
    if !has_children {
        Some(Seq::<VariableModel>::empty())
    } else {
        spec_params_from(info, strs, abbrevs, start, unit_end, address_size, version, 1)
    }
}

/// The members one structure or union subtree determines, the same
/// way [`spec_params_from`] reads parameters.
pub open spec fn spec_members_from(
    info: Seq<u8>,
    strs: Seq<u8>,
    abbrevs: Seq<AbbrevModel>,
    q: int,
    unit_end: int,
    address_size: u8,
    version: u16,
    depth: int,
) -> Option<Seq<MemberModel>>
    decreases unit_end - q,
    when 0 <= q && unit_end <= info.len()
    via spec_members_from_decreases
{
    if !(depth > 0 && q < unit_end) {
        Some(Seq::<MemberModel>::empty())
    } else {
        match spec_read_die(info, abbrevs, q, unit_end, address_size, version) {
            Option::None => None,
            Option::Some((entry, q2)) => match entry {
                Option::None => spec_members_from(
                    info,
                    strs,
                    abbrevs,
                    q2,
                    unit_end,
                    address_size,
                    version,
                    depth - 1,
                ),
                Option::Some(die) => {
                    let emitted: Seq<MemberModel> = if depth == 1 && die.tag == DW_TAG_MEMBER {
                        match model_member(die, strs) {
                            Option::Some(mm) => seq![mm],
                            Option::None => Seq::empty(),
                        }
                    } else {
                        Seq::empty()
                    };
                    if die.has_children && depth == usize::MAX as int {
                        None
                    } else {
                        let depth2 = if die.has_children {
                            depth + 1
                        } else {
                            depth
                        };
                        match spec_members_from(
                            info,
                            strs,
                            abbrevs,
                            q2,
                            unit_end,
                            address_size,
                            version,
                            depth2,
                        ) {
                            Option::None => None,
                            Option::Some(rest) => Some(emitted + rest),
                        }
                    }
                },
            },
        }
    }
}

#[via_fn]
proof fn spec_members_from_decreases(
    info: Seq<u8>,
    strs: Seq<u8>,
    abbrevs: Seq<AbbrevModel>,
    q: int,
    unit_end: int,
    address_size: u8,
    version: u16,
    depth: int,
) {
    lemma_read_die_advances(info, abbrevs, q, unit_end, address_size, version);
}

pub open spec fn spec_collect_members(
    info: Seq<u8>,
    strs: Seq<u8>,
    abbrevs: Seq<AbbrevModel>,
    start: int,
    unit_end: int,
    address_size: u8,
    version: u16,
    has_children: bool,
) -> Option<Seq<MemberModel>> {
    if !has_children {
        Some(Seq::<MemberModel>::empty())
    } else {
        spec_members_from(info, strs, abbrevs, start, unit_end, address_size, version, 1)
    }
}

/// The records one unit's tree determines from position `p` on, in
/// depth-first pre-order: one function model per subprogram entry,
/// one variable model per variable entry outside any subprogram, one
/// type model per structure, union or enumeration entry. A malformed
/// entry ends this unit's walk; what stood before it is kept.
pub open spec fn spec_walk_from(
    info: Seq<u8>,
    strs: Seq<u8>,
    abbrevs: Seq<AbbrevModel>,
    p: int,
    unit_end: int,
    address_size: u8,
    version: u16,
    open_tags: Seq<u64>,
    subprog: int,
) -> (Seq<FunctionModel>, Seq<VariableModel>, Seq<TypeModel>)
    decreases unit_end - p,
    when 0 <= p && unit_end <= info.len()
    via spec_walk_from_decreases
{
    if p >= unit_end {
        (Seq::<FunctionModel>::empty(), Seq::<VariableModel>::empty(), Seq::<TypeModel>::empty())
    } else {
        match spec_read_die(info, abbrevs, p, unit_end, address_size, version) {
            Option::None => (
                Seq::<FunctionModel>::empty(),
                Seq::<VariableModel>::empty(),
                Seq::<TypeModel>::empty(),
            ),
            Option::Some((entry, p2)) => match entry {
                Option::None => {
                    if open_tags.len() > 0 {
                        let sub2: int = if open_tags.last() == DW_TAG_SUBPROGRAM && subprog > 0 {
                            subprog - 1
                        } else {
                            subprog
                        };
                        spec_walk_from(
                            info,
                            strs,
                            abbrevs,
                            p2,
                            unit_end,
                            address_size,
                            version,
                            open_tags.drop_last(),
                            sub2,
                        )
                    } else {
                        spec_walk_from(
                            info,
                            strs,
                            abbrevs,
                            p2,
                            unit_end,
                            address_size,
                            version,
                            open_tags,
                            subprog,
                        )
                    }
                },
                Option::Some(die) => {
                    let ef: Seq<FunctionModel> = if die.tag == DW_TAG_SUBPROGRAM {
                        match spec_collect_params(
                            info,
                            strs,
                            abbrevs,
                            p2,
                            unit_end,
                            address_size,
                            version,
                            die.has_children,
                        ) {
                            Option::Some(pm) => match model_function(die, pm, strs) {
                                Option::Some(fm) => seq![fm],
                                Option::None => Seq::empty(),
                            },
                            Option::None => Seq::empty(),
                        }
                    } else {
                        Seq::empty()
                    };
                    let ev: Seq<VariableModel> = if die.tag == DW_TAG_VARIABLE && subprog == 0 {
                        match model_variable(die, strs) {
                            Option::Some(vm) => seq![vm],
                            Option::None => Seq::empty(),
                        }
                    } else {
                        Seq::empty()
                    };
                    let et: Seq<TypeModel> = if die.tag == DW_TAG_STRUCTURE_TYPE || die.tag
                        == DW_TAG_UNION_TYPE {
                        match spec_collect_members(
                            info,
                            strs,
                            abbrevs,
                            p2,
                            unit_end,
                            address_size,
                            version,
                            die.has_children,
                        ) {
                            Option::Some(mm) => match model_type(die, mm, strs) {
                                Option::Some(tm) => seq![tm],
                                Option::None => Seq::empty(),
                            },
                            Option::None => Seq::empty(),
                        }
                    } else if die.tag == DW_TAG_ENUMERATION_TYPE {
                        match model_type(die, Seq::empty(), strs) {
                            Option::Some(tm) => seq![tm],
                            Option::None => Seq::empty(),
                        }
                    } else {
                        Seq::empty()
                    };
                    if die.has_children && die.tag == DW_TAG_SUBPROGRAM && subprog
                        == usize::MAX as int {
                        (ef, ev, et)
                    } else {
                        let tags2 = if die.has_children {
                            open_tags.push(die.tag)
                        } else {
                            open_tags
                        };
                        let sub2: int = if die.has_children && die.tag == DW_TAG_SUBPROGRAM {
                            subprog + 1
                        } else {
                            subprog
                        };
                        let rest = spec_walk_from(
                            info,
                            strs,
                            abbrevs,
                            p2,
                            unit_end,
                            address_size,
                            version,
                            tags2,
                            sub2,
                        );
                        (ef + rest.0, ev + rest.1, et + rest.2)
                    }
                },
            },
        }
    }
}

#[via_fn]
proof fn spec_walk_from_decreases(
    info: Seq<u8>,
    strs: Seq<u8>,
    abbrevs: Seq<AbbrevModel>,
    p: int,
    unit_end: int,
    address_size: u8,
    version: u16,
    open_tags: Seq<u64>,
    subprog: int,
) {
    lemma_read_die_advances(info, abbrevs, p, unit_end, address_size, version);
}

/// The records of every compilation unit from `pos` on. A unit whose
/// header cannot be decoded within its declared length is skipped; a
/// length that cannot be decoded at all makes the remaining units
/// unreachable.
pub open spec fn spec_units(info: Seq<u8>, abbrev: Seq<u8>, strs: Seq<u8>, pos: int) -> (
    Seq<FunctionModel>,
    Seq<VariableModel>,
    Seq<TypeModel>,
)
    decreases info.len() - pos,
    when 0 <= pos
{
    if pos >= info.len() || info.len() - pos < 4 {
        (Seq::<FunctionModel>::empty(), Seq::<VariableModel>::empty(), Seq::<TypeModel>::empty())
    } else {
        let unit_len = spec_u32_at(info, pos, true) as int;
        if unit_len == 0xffff_ffff {
            // A 64-bit unit: its contents are not decoded, but its
            // extended length is, so the units after it stay
            // reachable.
            if info.len() - pos < 12 {
                (
                    Seq::<FunctionModel>::empty(),
                    Seq::<VariableModel>::empty(),
                    Seq::<TypeModel>::empty(),
                )
            } else {
                let xlen = spec_u64_at(info, pos + 4, true) as int;
                if xlen > info.len() - (pos + 12) {
                    (
                        Seq::<FunctionModel>::empty(),
                        Seq::<VariableModel>::empty(),
                        Seq::<TypeModel>::empty(),
                    )
                } else {
                    spec_units(info, abbrev, strs, pos + 12 + xlen)
                }
            }
        } else if unit_len >= 0xffff_fff0 || unit_len > info.len() - (pos + 4) {
            (
                Seq::<FunctionModel>::empty(),
                Seq::<VariableModel>::empty(),
                Seq::<TypeModel>::empty(),
            )
        } else {
            let unit_end = pos + 4 + unit_len;
            if unit_len < 7 {
                spec_units(info, abbrev, strs, unit_end)
            } else {
                let version = spec_u16_at(info, pos + 4, true);
                let header: Option<(int, u64, u8)> = if 2 <= version <= 4 {
                    Some((pos + 11, spec_u32_at(info, pos + 6, true) as u64, info[pos + 10]))
                } else if version == 5 {
                    if unit_len < 8 {
                        None
                    } else {
                        Some((pos + 12, spec_u32_at(info, pos + 8, true) as u64, info[pos + 7]))
                    }
                } else {
                    None
                };
                match header {
                    Option::None => spec_units(info, abbrev, strs, unit_end),
                    Option::Some((die_start, abbrev_off, address_size)) => {
                        if address_size != 4 && address_size != 8 {
                            spec_units(info, abbrev, strs, unit_end)
                        } else {
                            match spec_abbrev_table(abbrev, abbrev_off) {
                                Option::None => spec_units(info, abbrev, strs, unit_end),
                                Option::Some(ab) => {
                                    let u = spec_walk_from(
                                        info,
                                        strs,
                                        ab,
                                        die_start,
                                        unit_end,
                                        address_size,
                                        version,
                                        Seq::empty(),
                                        0,
                                    );
                                    let rest = spec_units(info, abbrev, strs, unit_end);
                                    (u.0 + rest.0, u.1 + rest.1, u.2 + rest.2)
                                },
                            }
                        }
                    },
                }
            }
        }
    }
}

/// Everything the debug-information section determines: the
/// function, variable and type records of the whole walk, as a
/// mathematical function of the three section byte sequences.
pub open spec fn spec_dwarf_records(info: Seq<u8>, abbrev: Seq<u8>, strs: Seq<u8>) -> (
    Seq<FunctionModel>,
    Seq<VariableModel>,
    Seq<TypeModel>,
) {
    if info.len() == 0 {
        (Seq::<FunctionModel>::empty(), Seq::<VariableModel>::empty(), Seq::<TypeModel>::empty())
    } else {
        spec_units(info, abbrev, strs, 0)
    }
}

/// Collect the formal-parameter children of a subprogram entry whose
/// attribute list ends at `start`, in declaration order.
#[verifier::loop_isolation(false)]
fn collect_params(info: &[u8], strs: &[u8], abbrevs: &Vec<Abbrev>, start: usize, unit_end: usize,
    address_size: u8, version: u16, has_children: bool) -> (r: Option<Vec<VariableInfo>>)
    requires
        unit_end <= info@.len(),
        start <= unit_end,
        address_size == 4 || address_size == 8,
    ensures
        match r {
            Some(ps) => (match spec_collect_params(
                info@,
                strs@,
                abbrevs_model(abbrevs@),
                start as int,
                unit_end as int,
                address_size,
                version,
                has_children,
            ) {
                Option::Some(ms) => variables_match(ps@, ms, "parameter"@),
                Option::None => false,
            }),
            None => spec_collect_params(
                info@,
                strs@,
                abbrevs_model(abbrevs@),
                start as int,
                unit_end as int,
                address_size,
                version,
                has_children,
            ) is None,
        },
        r matches Some(ps) ==> forall|i: int|
            0 <= i < ps@.len() ==> spec_var_shape(#[trigger] ps@[i], "parameter"@),
{
    let ghost am = abbrevs_model(abbrevs@);
    let mut out: Vec<VariableInfo> = Vec::new();
    if !has_children {
        return Some(out);
    }
    let mut depth: usize = 1;
    let mut q = start;
    let ghost mut done: Seq<VariableModel> = Seq::empty();
    proof {
        match spec_params_from(
            info@,
            strs@,
            am,
            start as int,
            unit_end as int,
            address_size,
            version,
            1,
        ) {
            Option::Some(rest) => {
                assert(done + rest =~= rest);
            },
            Option::None => {},
        }
    }
    while depth > 0 && q < unit_end
        invariant
            start <= q <= unit_end,
            variables_match(out@, done, "parameter"@),
            forall|i: int| 0 <= i < out@.len() ==> spec_var_shape(#[trigger] out@[i], "parameter"@),
            spec_params_from(
                info@,
                strs@,
                am,
                start as int,
                unit_end as int,
                address_size,
                version,
                1,
            ) == (match spec_params_from(
                info@,
                strs@,
                am,
                q as int,
                unit_end as int,
                address_size,
                version,
                depth as int,
            ) {
                Option::Some(rest) => Some(done + rest),
                Option::None => None::<Seq<VariableModel>>,
            }),
        decreases unit_end - q,
    {
        let ghost d0 = depth as int;
        let ghost done0 = done;
        match read_die(info, abbrevs, q, unit_end, address_size, version) {
            None => {
                return None;
            },
            Some((entry, q2)) => {
                match entry {
                    None => {
                        depth = depth - 1;
                    },
                    Some(die) => {
                        let ghost d_m = die_model(die);
                        let ghost emitted: Seq<VariableModel> = if d0 == 1 && d_m.tag
                            == DW_TAG_FORMAL_PARAMETER {
                            match model_variable(d_m, strs@) {
                                Option::Some(vm) => seq![vm],
                                Option::None => Seq::empty(),
                            }
                        } else {
                            Seq::empty()
                        };
                        if depth == 1 && die.tag == DW_TAG_FORMAL_PARAMETER {
                            proof {
                                lemma_die_attr_bridges(die.attrs@, strs@, 0);
                            }
                            match extract_variable_info(&die, strs, "parameter") {
                                Some(v) => {
                                    proof {
                                        match model_variable(d_m, strs@) {
                                            Option::Some(vm) => {
                                                assert(variable_matches(v, vm, "parameter"@));
                                            },
                                            Option::None => {
                                                assert(false);
                                            },
                                        }
                                    }
                                    let ghost prev_out = out@;
                                    out.push(v);
                                    proof {
                                        done = done + emitted;
                                        assert forall|i: int|
                                            0 <= i < out@.len() implies variable_matches(
                                            #[trigger] out@[i],
                                            done[i],
                                            "parameter"@,
                                        ) by {
                                            if i < prev_out.len() {
                                                assert(out@[i] == prev_out[i]);
                                                assert(done[i] == done0[i]);
                                            }
                                        }
                                    }
                                },
                                None => {
                                    proof {
                                        assert(emitted =~= Seq::<VariableModel>::empty());
                                        assert(done + emitted =~= done);
                                        done = done + emitted;
                                    }
                                },
                            }
                        } else {
                            proof {
                                assert(done + emitted =~= done);
                                done = done + emitted;
                            }
                        }
                        if die.has_children {
                            if depth == usize::MAX {
                                return None;
                            }
                            depth = depth + 1;
                        }
                        proof {
                            match spec_params_from(
                                info@,
                                strs@,
                                am,
                                q2 as int,
                                unit_end as int,
                                address_size,
                                version,
                                depth as int,
                            ) {
                                Option::Some(rest2) => {
                                    assert(done0 + (emitted + rest2) =~= done + rest2);
                                },
                                Option::None => {},
                            }
                        }
                    },
                }
                q = q2;
            },
        }
    }
    proof {
        assert(done + Seq::<VariableModel>::empty() =~= done);
    }
    Some(out)
}

/// Collect the member children of a structure or union entry whose
/// attribute list ends at `start`, in declaration order.
#[verifier::loop_isolation(false)]
fn collect_members(info: &[u8], strs: &[u8], abbrevs: &Vec<Abbrev>, start: usize, unit_end: usize,
    address_size: u8, version: u16, has_children: bool) -> (r: Option<Vec<MemberInfo>>)
    requires
        unit_end <= info@.len(),
        start <= unit_end,
        address_size == 4 || address_size == 8,
    ensures
        match r {
            Some(xs) => (match spec_collect_members(
                info@,
                strs@,
                abbrevs_model(abbrevs@),
                start as int,
                unit_end as int,
                address_size,
                version,
                has_children,
            ) {
                Option::Some(ms) => members_match(xs@, ms),
                Option::None => false,
            }),
            None => spec_collect_members(
                info@,
                strs@,
                abbrevs_model(abbrevs@),
                start as int,
                unit_end as int,
                address_size,
                version,
                has_children,
            ) is None,
        },
        r matches Some(xs) ==> forall|i: int|
            0 <= i < xs@.len() ==> spec_member_shape(#[trigger] xs@[i]),
{
    let ghost am = abbrevs_model(abbrevs@);
    let mut out: Vec<MemberInfo> = Vec::new();
    if !has_children {
        return Some(out);
    }
    let mut depth: usize = 1;
    let mut q = start;
    let ghost mut done: Seq<MemberModel> = Seq::empty();
    proof {
        match spec_members_from(
            info@,
            strs@,
            am,
            start as int,
            unit_end as int,
            address_size,
            version,
            1,
        ) {
            Option::Some(rest) => {
                assert(done + rest =~= rest);
            },
            Option::None => {},
        }
    }
    while depth > 0 && q < unit_end
        invariant
            start <= q <= unit_end,
            members_match(out@, done),
            forall|i: int| 0 <= i < out@.len() ==> spec_member_shape(#[trigger] out@[i]),
            spec_members_from(
                info@,
                strs@,
                am,
                start as int,
                unit_end as int,
                address_size,
                version,
                1,
            ) == (match spec_members_from(
                info@,
                strs@,
                am,
                q as int,
                unit_end as int,
                address_size,
                version,
                depth as int,
            ) {
                Option::Some(rest) => Some(done + rest),
                Option::None => None::<Seq<MemberModel>>,
            }),
        decreases unit_end - q,
    {
        let ghost d0 = depth as int;
        let ghost done0 = done;
        match read_die(info, abbrevs, q, unit_end, address_size, version) {
            None => {
                return None;
            },
            Some((entry, q2)) => {
                match entry {
                    None => {
                        depth = depth - 1;
                    },
                    Some(die) => {
                        let ghost d_m = die_model(die);
                        let ghost emitted: Seq<MemberModel> = if d0 == 1 && d_m.tag
                            == DW_TAG_MEMBER {
                            match model_member(d_m, strs@) {
                                Option::Some(mm) => seq![mm],
                                Option::None => Seq::empty(),
                            }
                        } else {
                            Seq::empty()
                        };
                        if depth == 1 && die.tag == DW_TAG_MEMBER {
                            proof {
                                lemma_die_attr_bridges(die.attrs@, strs@, 0);
                            }
                            match extract_member_info(&die, strs) {
                                Some(x) => {
                                    proof {
                                        match model_member(d_m, strs@) {
                                            Option::Some(mm) => {
                                                assert(member_matches(x, mm));
                                            },
                                            Option::None => {
                                                assert(false);
                                            },
                                        }
                                    }
                                    let ghost prev_out = out@;
                                    out.push(x);
                                    proof {
                                        done = done + emitted;
                                        assert forall|i: int|
                                            0 <= i < out@.len() implies member_matches(
                                            #[trigger] out@[i],
                                            done[i],
                                        ) by {
                                            if i < prev_out.len() {
                                                assert(out@[i] == prev_out[i]);
                                                assert(done[i] == done0[i]);
                                            }
                                        }
                                    }
                                },
                                None => {
                                    proof {
                                        assert(emitted =~= Seq::<MemberModel>::empty());
                                        assert(done + emitted =~= done);
                                        done = done + emitted;
                                    }
                                },
                            }
                        } else {
                            proof {
                                assert(done + emitted =~= done);
                                done = done + emitted;
                            }
                        }
                        if die.has_children {
                            if depth == usize::MAX {
                                return None;
                            }
                            depth = depth + 1;
                        }
                        proof {
                            match spec_members_from(
                                info@,
                                strs@,
                                am,
                                q2 as int,
                                unit_end as int,
                                address_size,
                                version,
                                depth as int,
                            ) {
                                Option::Some(rest2) => {
                                    assert(done0 + (emitted + rest2) =~= done + rest2);
                                },
                                Option::None => {},
                            }
                        }
                    },
                }
                q = q2;
            },
        }
    }
    proof {
        assert(done + Seq::<MemberModel>::empty() =~= done);
    }
    Some(out)
}

/// One depth-first pass over every entry of one unit's tree,
/// dispatching per entry tag: subprograms become functions,
/// variables outside any subprogram become globals, and structure,
/// union and enumeration entries become types; every other tag is
/// ignored. A malformed entry abandons the rest of this unit only.
/// The appended records are exactly [`spec_walk_from`]'s value for
/// this unit.
#[verifier::rlimit(100)]
#[verifier::spinoff_prover]
#[verifier::loop_isolation(false)]
fn walk_unit(info: &[u8], strs: &[u8], abbrevs: &Vec<Abbrev>, die_start: usize, unit_end: usize,
    address_size: u8, version: u16, functions: &mut Vec<FunctionInfo>,
    variables: &mut Vec<VariableInfo>, types: &mut Vec<TypeInfo>)
    requires
        unit_end <= info@.len(),
        die_start <= unit_end,
        address_size == 4 || address_size == 8,
    ensures
        final(functions)@.len() >= old(functions)@.len(),
        final(functions)@.subrange(0, old(functions)@.len() as int) == old(functions)@,
        forall|i: int|
            old(functions)@.len() <= i < final(functions)@.len() ==> spec_function_shape(
                #[trigger] final(functions)@[i],
            ),
        final(variables)@.len() >= old(variables)@.len(),
        final(variables)@.subrange(0, old(variables)@.len() as int) == old(variables)@,
        forall|i: int|
            old(variables)@.len() <= i < final(variables)@.len() ==> spec_var_shape(
                #[trigger] final(variables)@[i],
                "global"@,
            ),
        final(types)@.len() >= old(types)@.len(),
        final(types)@.subrange(0, old(types)@.len() as int) == old(types)@,
        forall|i: int|
            old(types)@.len() <= i < final(types)@.len() ==> spec_type_shape(
                #[trigger] final(types)@[i],
            ),
        functions_match(
            final(functions)@.skip(old(functions)@.len() as int),
            spec_walk_from(
                info@,
                strs@,
                abbrevs_model(abbrevs@),
                die_start as int,
                unit_end as int,
                address_size,
                version,
                Seq::empty(),
                0,
            ).0,
        ),
        variables_match(
            final(variables)@.skip(old(variables)@.len() as int),
            spec_walk_from(
                info@,
                strs@,
                abbrevs_model(abbrevs@),
                die_start as int,
                unit_end as int,
                address_size,
                version,
                Seq::empty(),
                0,
            ).1,
            "global"@,
        ),
        types_match(
            final(types)@.skip(old(types)@.len() as int),
            spec_walk_from(
                info@,
                strs@,
                abbrevs_model(abbrevs@),
                die_start as int,
                unit_end as int,
                address_size,
                version,
                Seq::empty(),
                0,
            ).2,
        ),
{
    let ghost am = abbrevs_model(abbrevs@);
    let ghost full = spec_walk_from(
        info@,
        strs@,
        am,
        die_start as int,
        unit_end as int,
        address_size,
        version,
        Seq::empty(),
        0,
    );
    let mut p = die_start;
    let mut open_tags: Vec<u64> = Vec::new();
    let mut subprog: usize = 0;
    let ghost mut done_f: Seq<FunctionModel> = Seq::empty();
    let ghost mut done_v: Seq<VariableModel> = Seq::empty();
    let ghost mut done_t: Seq<TypeModel> = Seq::empty();
    proof {
        let rem = spec_walk_from(
            info@,
            strs@,
            am,
            die_start as int,
            unit_end as int,
            address_size,
            version,
            open_tags@,
            subprog as int,
        );
        assert(done_f + rem.0 =~= rem.0);
        assert(done_v + rem.1 =~= rem.1);
        assert(done_t + rem.2 =~= rem.2);
        assert(functions@.skip(old(functions)@.len() as int) =~= Seq::<FunctionInfo>::empty());
        assert(variables@.skip(old(variables)@.len() as int) =~= Seq::<VariableInfo>::empty());
        assert(types@.skip(old(types)@.len() as int) =~= Seq::<TypeInfo>::empty());
    }
    while p < unit_end
        invariant
            p <= unit_end,
            functions@.len() >= old(functions)@.len(),
            functions@.subrange(0, old(functions)@.len() as int) == old(functions)@,
            forall|i: int|
                old(functions)@.len() <= i < functions@.len() ==> spec_function_shape(
                    #[trigger] functions@[i],
                ),
            variables@.len() >= old(variables)@.len(),
            variables@.subrange(0, old(variables)@.len() as int) == old(variables)@,
            forall|i: int|
                old(variables)@.len() <= i < variables@.len() ==> spec_var_shape(
                    #[trigger] variables@[i],
                    "global"@,
                ),
            types@.len() >= old(types)@.len(),
            types@.subrange(0, old(types)@.len() as int) == old(types)@,
            forall|i: int|
                old(types)@.len() <= i < types@.len() ==> spec_type_shape(#[trigger] types@[i]),
            functions_match(functions@.skip(old(functions)@.len() as int), done_f),
            variables_match(variables@.skip(old(variables)@.len() as int), done_v, "global"@),
            types_match(types@.skip(old(types)@.len() as int), done_t),
            full.0 == done_f + spec_walk_from(
                info@,
                strs@,
                am,
                p as int,
                unit_end as int,
                address_size,
                version,
                open_tags@,
                subprog as int,
            ).0,
            full.1 == done_v + spec_walk_from(
                info@,
                strs@,
                am,
                p as int,
                unit_end as int,
                address_size,
                version,
                open_tags@,
                subprog as int,
            ).1,
            full.2 == done_t + spec_walk_from(
                info@,
                strs@,
                am,
                p as int,
                unit_end as int,
                address_size,
                version,
                open_tags@,
                subprog as int,
            ).2,
        decreases unit_end - p,
    {
        let ghost p0 = p as int;
        let ghost tags0 = open_tags@;
        let ghost sub0 = subprog as int;
        let ghost prev_functions = functions@;
        let ghost prev_variables = variables@;
        let ghost prev_types = types@;
        let ghost done_f0 = done_f;
        let ghost done_v0 = done_v;
        let ghost done_t0 = done_t;
        match read_die(info, abbrevs, p, unit_end, address_size, version) {
            None => {
                proof {
                    assert(done_f + Seq::<FunctionModel>::empty() =~= done_f);
                    assert(done_v + Seq::<VariableModel>::empty() =~= done_v);
                    assert(done_t + Seq::<TypeModel>::empty() =~= done_t);
                }
                return;
            },
            Some((entry, p2)) => {
                match entry {
                    None => {
                        match open_tags.pop() {
                            Some(t) => {
                                if t == DW_TAG_SUBPROGRAM && subprog > 0 {
                                    subprog = subprog - 1;
                                }
                            },
                            None => {},
                        }
                    },
                    Some(die) => {
                        let ghost d_m = die_model(die);
                        if die.tag == DW_TAG_SUBPROGRAM {
                            match collect_params(
                                info,
                                strs,
                                abbrevs,
                                p2,
                                unit_end,
                                address_size,
                                version,
                                die.has_children,
                            ) {
                                Some(params) => {
                                    proof {
                                        lemma_die_attr_bridges(
                                            die.attrs@,
                                            strs@,
                                            spec_func_address(die.attrs@),
                                        );
                                    }
                                    match extract_function_info(&die, params, strs) {
                                        Some(f) => {
                                            proof {
                                                let pm = spec_collect_params(
                                                    info@,
                                                    strs@,
                                                    am,
                                                    p2 as int,
                                                    unit_end as int,
                                                    address_size,
                                                    version,
                                                    die.has_children,
                                                );
                                                match model_function(d_m, pm->Some_0, strs@) {
                                                    Option::Some(fm) => {
                                                        assert(function_matches(f, fm));
                                                        done_f = done_f + seq![fm];
                                                    },
                                                    Option::None => {
                                                        assert(false);
                                                    },
                                                }
                                            }
                                            functions.push(f);
                                        },
                                        None => {},
                                    }
                                },
                                None => {},
                            }
                        } else if die.tag == DW_TAG_VARIABLE {
                            if subprog == 0 {
                                proof {
                                    lemma_die_attr_bridges(die.attrs@, strs@, 0);
                                }
                                match extract_variable_info(&die, strs, "global") {
                                    Some(v) => {
                                        proof {
                                            match model_variable(d_m, strs@) {
                                                Option::Some(vm) => {
                                                    assert(variable_matches(v, vm, "global"@));
                                                    done_v = done_v + seq![vm];
                                                },
                                                Option::None => {
                                                    assert(false);
                                                },
                                            }
                                        }
                                        variables.push(v);
                                    },
                                    None => {},
                                }
                            }
                        } else if die.tag == DW_TAG_STRUCTURE_TYPE || die.tag
                            == DW_TAG_UNION_TYPE {
                            match collect_members(
                                info,
                                strs,
                                abbrevs,
                                p2,
                                unit_end,
                                address_size,
                                version,
                                die.has_children,
                            ) {
                                Some(members) => {
                                    let ghost members_view = members@;
                                    proof {
                                        lemma_die_attr_bridges(die.attrs@, strs@, 0);
                                    }
                                    match extract_type_info(&die, members, strs) {
                                        Some(t) => {
                                            proof {
                                                let mm = spec_collect_members(
                                                    info@,
                                                    strs@,
                                                    am,
                                                    p2 as int,
                                                    unit_end as int,
                                                    address_size,
                                                    version,
                                                    die.has_children,
                                                );
                                                match model_type(d_m, mm->Some_0, strs@) {
                                                    Option::Some(tm) => {
                                                        assert(t.members@ == members_view);
                                                        assert(type_matches(t, tm));
                                                        done_t = done_t + seq![tm];
                                                    },
                                                    Option::None => {
                                                        assert(false);
                                                    },
                                                }
                                            }
                                            types.push(t);
                                        },
                                        None => {},
                                    }
                                },
                                None => {},
                            }
                        } else if die.tag == DW_TAG_ENUMERATION_TYPE {
                            proof {
                                lemma_die_attr_bridges(die.attrs@, strs@, 0);
                            }
                            match extract_type_info(&die, Vec::new(), strs) {
                                Some(t) => {
                                    proof {
                                        match model_type(d_m, Seq::empty(), strs@) {
                                            Option::Some(tm) => {
                                                assert(type_matches(t, tm));
                                                done_t = done_t + seq![tm];
                                            },
                                            Option::None => {
                                                assert(false);
                                            },
                                        }
                                    }
                                    types.push(t);
                                },
                                None => {},
                            }
                        }
                        if die.has_children {
                            open_tags.push(die.tag);
                            if die.tag == DW_TAG_SUBPROGRAM {
                                if subprog == usize::MAX {
                                    proof {
                                        let rem0 = spec_walk_from(
                                            info@,
                                            strs@,
                                            am,
                                            p0,
                                            unit_end as int,
                                            address_size,
                                            version,
                                            tags0,
                                            sub0,
                                        );
                                        assert(done_f0 + rem0.0 =~= done_f);
                                        assert(done_v0 + rem0.1 =~= done_v);
                                        assert(done_t0 + rem0.2 =~= done_t);
                                        assert forall|i: int|
                                            0 <= i < functions@.skip(
                                                old(functions)@.len() as int,
                                            ).len() implies function_matches(
                                            #[trigger] functions@.skip(
                                                old(functions)@.len() as int,
                                            )[i],
                                            done_f[i],
                                        ) by {
                                            if i < prev_functions.len() - old(
                                                functions,
                                            )@.len() {
                                                assert(functions@.skip(
                                                    old(functions)@.len() as int,
                                                )[i] == prev_functions.skip(
                                                    old(functions)@.len() as int,
                                                )[i]);
                                            }
                                        }
                                        assert forall|i: int|
                                            0 <= i < variables@.skip(
                                                old(variables)@.len() as int,
                                            ).len() implies variable_matches(
                                            #[trigger] variables@.skip(
                                                old(variables)@.len() as int,
                                            )[i],
                                            done_v[i],
                                            "global"@,
                                        ) by {
                                            if i < prev_variables.len() - old(
                                                variables,
                                            )@.len() {
                                                assert(variables@.skip(
                                                    old(variables)@.len() as int,
                                                )[i] == prev_variables.skip(
                                                    old(variables)@.len() as int,
                                                )[i]);
                                            }
                                        }
                                        assert forall|i: int|
                                            0 <= i < types@.skip(
                                                old(types)@.len() as int,
                                            ).len() implies type_matches(
                                            #[trigger] types@.skip(old(types)@.len() as int)[i],
                                            done_t[i],
                                        ) by {
                                            if i < prev_types.len() - old(types)@.len() {
                                                assert(types@.skip(old(types)@.len() as int)[i]
                                                    == prev_types.skip(
                                                    old(types)@.len() as int,
                                                )[i]);
                                            }
                                        }
                                        assert(functions@.subrange(0, old(functions)@.len() as int)
                                            =~= prev_functions.subrange(
                                            0,
                                            old(functions)@.len() as int,
                                        ));
                                        assert(variables@.subrange(0, old(variables)@.len() as int)
                                            =~= prev_variables.subrange(
                                            0,
                                            old(variables)@.len() as int,
                                        ));
                                        assert(types@.subrange(0, old(types)@.len() as int)
                                            =~= prev_types.subrange(
                                            0,
                                            old(types)@.len() as int,
                                        ));
                                    }
                                    return;
                                }
                                subprog = subprog + 1;
                            }
                        }
                    },
                }
                proof {
                    let rem0 = spec_walk_from(
                        info@,
                        strs@,
                        am,
                        p0,
                        unit_end as int,
                        address_size,
                        version,
                        tags0,
                        sub0,
                    );
                    let rem2 = spec_walk_from(
                        info@,
                        strs@,
                        am,
                        p2 as int,
                        unit_end as int,
                        address_size,
                        version,
                        open_tags@,
                        subprog as int,
                    );
                    assert(done_f0 + rem0.0 =~= done_f + rem2.0);
                    assert(done_v0 + rem0.1 =~= done_v + rem2.1);
                    assert(done_t0 + rem0.2 =~= done_t + rem2.2);
                    assert forall|i: int|
                        0 <= i < functions@.skip(old(functions)@.len() as int).len()
                            implies function_matches(
                        #[trigger] functions@.skip(old(functions)@.len() as int)[i],
                        done_f[i],
                    ) by {
                        if i < prev_functions.len() - old(functions)@.len() {
                            assert(functions@.skip(old(functions)@.len() as int)[i]
                                == prev_functions.skip(old(functions)@.len() as int)[i]);
                        }
                    }
                    assert forall|i: int|
                        0 <= i < variables@.skip(old(variables)@.len() as int).len()
                            implies variable_matches(
                        #[trigger] variables@.skip(old(variables)@.len() as int)[i],
                        done_v[i],
                        "global"@,
                    ) by {
                        if i < prev_variables.len() - old(variables)@.len() {
                            assert(variables@.skip(old(variables)@.len() as int)[i]
                                == prev_variables.skip(old(variables)@.len() as int)[i]);
                        }
                    }
                    assert forall|i: int|
                        0 <= i < types@.skip(old(types)@.len() as int).len() implies type_matches(
                        #[trigger] types@.skip(old(types)@.len() as int)[i],
                        done_t[i],
                    ) by {
                        if i < prev_types.len() - old(types)@.len() {
                            assert(types@.skip(old(types)@.len() as int)[i] == prev_types.skip(
                                old(types)@.len() as int,
                            )[i]);
                        }
                    }
                    assert(functions@.subrange(0, old(functions)@.len() as int)
                        =~= prev_functions.subrange(0, old(functions)@.len() as int));
                    assert(variables@.subrange(0, old(variables)@.len() as int)
                        =~= prev_variables.subrange(0, old(variables)@.len() as int));
                    assert(types@.subrange(0, old(types)@.len() as int) =~= prev_types.subrange(
                        0,
                        old(types)@.len() as int,
                    ));
                }
                p = p2;
            },
        }
    }
    proof {
        assert(done_f + Seq::<FunctionModel>::empty() =~= done_f);
        assert(done_v + Seq::<VariableModel>::empty() =~= done_v);
        assert(done_t + Seq::<TypeModel>::empty() =~= done_t);
    }
}

/// Walk every compilation unit of the debug-information section and
/// extract one record per recognized entry: the result is exactly
/// [`spec_dwarf_records`] of the three section byte sequences.
/// Decode failures are absorbed: a malformed entry abandons its
/// unit, a malformed unit header abandons further units, and what
/// was already extracted stands. An absent section yields three
/// empty lists — debug information is an enhancement, never a
/// requirement.
#[verifier::rlimit(100)]
#[verifier::spinoff_prover]
#[verifier::loop_isolation(false)]
pub fn extract_dwarf_info(info: &[u8], abbrev: &[u8], strs: &[u8]) -> (r: (
    Vec<FunctionInfo>,
    Vec<VariableInfo>,
    Vec<TypeInfo>,
))
    ensures
        info@.len() == 0 ==> r.0@.len() == 0 && r.1@.len() == 0 && r.2@.len() == 0,
        forall|i: int| 0 <= i < r.0@.len() ==> spec_function_shape(#[trigger] r.0@[i]),
        forall|i: int| 0 <= i < r.1@.len() ==> spec_var_shape(#[trigger] r.1@[i], "global"@),
        forall|i: int| 0 <= i < r.2@.len() ==> spec_type_shape(#[trigger] r.2@[i]),
        functions_match(r.0@, spec_dwarf_records(info@, abbrev@, strs@).0),
        variables_match(r.1@, spec_dwarf_records(info@, abbrev@, strs@).1, "global"@),
        types_match(r.2@, spec_dwarf_records(info@, abbrev@, strs@).2),
{
    let mut functions: Vec<FunctionInfo> = Vec::new();
    let mut variables: Vec<VariableInfo> = Vec::new();
    let mut types: Vec<TypeInfo> = Vec::new();
    let n = info.len();
    if n == 0 {
        return (functions, variables, types);
    }
    let ghost full = spec_units(info@, abbrev@, strs@, 0);
    let ghost mut done_f: Seq<FunctionModel> = Seq::empty();
    let ghost mut done_v: Seq<VariableModel> = Seq::empty();
    let ghost mut done_t: Seq<TypeModel> = Seq::empty();
    let mut pos: usize = 0;
    proof {
        let rem = spec_units(info@, abbrev@, strs@, 0);
        assert(done_f + rem.0 =~= rem.0);
        assert(done_v + rem.1 =~= rem.1);
        assert(done_t + rem.2 =~= rem.2);
    }
    while pos < n
        invariant
            pos <= n,
            functions_match(functions@, done_f),
            variables_match(variables@, done_v, "global"@),
            types_match(types@, done_t),
            forall|i: int|
                0 <= i < functions@.len() ==> spec_function_shape(#[trigger] functions@[i]),
            forall|i: int|
                0 <= i < variables@.len() ==> spec_var_shape(#[trigger] variables@[i], "global"@),
            forall|i: int| 0 <= i < types@.len() ==> spec_type_shape(#[trigger] types@[i]),
            full.0 == done_f + spec_units(info@, abbrev@, strs@, pos as int).0,
            full.1 == done_v + spec_units(info@, abbrev@, strs@, pos as int).1,
            full.2 == done_t + spec_units(info@, abbrev@, strs@, pos as int).2,
        decreases n - pos,
    {
        let ghost pos0 = pos as int;
        if n - pos < 4 {
            proof {
                assert(done_f + Seq::<FunctionModel>::empty() =~= done_f);
                assert(done_v + Seq::<VariableModel>::empty() =~= done_v);
                assert(done_t + Seq::<TypeModel>::empty() =~= done_t);
            }
            return (functions, variables, types);
        }
        let unit_len = read_u32_at(info, pos, true);
        if unit_len == 0xffff_ffff {
            // A 64-bit unit: skip it whole by its extended length;
            // its contents are not decoded, but the units after it
            // stay reachable.
            if n - pos < 12 {
                proof {
                    assert(done_f + Seq::<FunctionModel>::empty() =~= done_f);
                    assert(done_v + Seq::<VariableModel>::empty() =~= done_v);
                    assert(done_t + Seq::<TypeModel>::empty() =~= done_t);
                }
                return (functions, variables, types);
            }
            let xlen = read_u64_at(info, pos + 4, true);
            if xlen > (n - (pos + 12)) as u64 {
                proof {
                    assert(done_f + Seq::<FunctionModel>::empty() =~= done_f);
                    assert(done_v + Seq::<VariableModel>::empty() =~= done_v);
                    assert(done_t + Seq::<TypeModel>::empty() =~= done_t);
                }
                return (functions, variables, types);
            }
            pos = pos + 12 + xlen as usize;
            continue;
        }
        if unit_len >= 0xffff_fff0 {
            // A reserved unit length: the unit's extent is
            // unknowable, so later units are unreachable too.
            proof {
                assert(done_f + Seq::<FunctionModel>::empty() =~= done_f);
                assert(done_v + Seq::<VariableModel>::empty() =~= done_v);
                assert(done_t + Seq::<TypeModel>::empty() =~= done_t);
            }
            return (functions, variables, types);
        }
        if (unit_len as u64) > (n - (pos + 4)) as u64 {
            proof {
                assert(done_f + Seq::<FunctionModel>::empty() =~= done_f);
                assert(done_v + Seq::<VariableModel>::empty() =~= done_v);
                assert(done_t + Seq::<TypeModel>::empty() =~= done_t);
            }
            return (functions, variables, types);
        }
        let unit_end = pos + 4 + unit_len as usize;
        let next_pos = unit_end;
        if unit_len < 7 {
            pos = next_pos;
            continue;
        }
        let version = read_u16_at(info, pos + 4, true);
        let header: Option<(usize, u64, u8)> = if version >= 2 && version <= 4 {
            Some((pos + 11, read_u32_at(info, pos + 6, true) as u64, read_u8_at(info, pos + 10)))
        } else if version == 5 {
            if unit_len < 8 {
                None
            } else {
                Some((pos + 12, read_u32_at(info, pos + 8, true) as u64, read_u8_at(info, pos + 7)))
            }
        } else {
            None
        };
        match header {
            None => {
                pos = next_pos;
            },
            Some((die_start, abbrev_off, address_size)) => {
                if address_size != 4 && address_size != 8 {
                    pos = next_pos;
                    continue;
                }
                match parse_abbrev_table(abbrev, abbrev_off) {
                    None => {
                        pos = next_pos;
                    },
                    Some(abbrevs) => {
                        let ghost prev_functions = functions@;
                        let ghost prev_variables = variables@;
                        let ghost prev_types = types@;
                        let ghost done_f0 = done_f;
                        let ghost done_v0 = done_v;
                        let ghost done_t0 = done_t;
                        let ghost u = spec_walk_from(
                            info@,
                            strs@,
                            abbrevs_model(abbrevs@),
                            die_start as int,
                            unit_end as int,
                            address_size,
                            version,
                            Seq::empty(),
                            0,
                        );
                        walk_unit(
                            info,
                            strs,
                            &abbrevs,
                            die_start,
                            unit_end,
                            address_size,
                            version,
                            &mut functions,
                            &mut variables,
                            &mut types,
                        );
                        proof {
                            done_f = done_f + u.0;
                            done_v = done_v + u.1;
                            done_t = done_t + u.2;
                            let rem0 = spec_units(info@, abbrev@, strs@, pos0);
                            let rem2 = spec_units(info@, abbrev@, strs@, next_pos as int);
                            assert(done_f0 + (u.0 + rem2.0) =~= done_f + rem2.0);
                            assert(done_v0 + (u.1 + rem2.1) =~= done_v + rem2.1);
                            assert(done_t0 + (u.2 + rem2.2) =~= done_t + rem2.2);
                            assert forall|i: int|
                                0 <= i < functions@.len() implies function_matches(
                                #[trigger] functions@[i],
                                done_f[i],
                            ) by {
                                if i < prev_functions.len() {
                                    assert(functions@[i] == functions@.subrange(
                                        0,
                                        prev_functions.len() as int,
                                    )[i]);
                                    assert(done_f[i] == done_f0[i]);
                                } else {
                                    assert(functions@[i] == functions@.skip(
                                        prev_functions.len() as int,
                                    )[i - prev_functions.len()]);
                                    assert(done_f[i] == u.0[i - prev_functions.len()]);
                                }
                            }
                            assert forall|i: int|
                                0 <= i < variables@.len() implies variable_matches(
                                #[trigger] variables@[i],
                                done_v[i],
                                "global"@,
                            ) by {
                                if i < prev_variables.len() {
                                    assert(variables@[i] == variables@.subrange(
                                        0,
                                        prev_variables.len() as int,
                                    )[i]);
                                    assert(done_v[i] == done_v0[i]);
                                } else {
                                    assert(variables@[i] == variables@.skip(
                                        prev_variables.len() as int,
                                    )[i - prev_variables.len()]);
                                    assert(done_v[i] == u.1[i - prev_variables.len()]);
                                }
                            }
                            assert forall|i: int|
                                0 <= i < types@.len() implies type_matches(
                                #[trigger] types@[i],
                                done_t[i],
                            ) by {
                                if i < prev_types.len() {
                                    assert(types@[i] == types@.subrange(
                                        0,
                                        prev_types.len() as int,
                                    )[i]);
                                    assert(done_t[i] == done_t0[i]);
                                } else {
                                    assert(types@[i] == types@.skip(prev_types.len() as int)[i
                                        - prev_types.len()]);
                                    assert(done_t[i] == u.2[i - prev_types.len()]);
                                }
                            }
                            assert forall|i: int|
                                0 <= i < functions@.len() implies spec_function_shape(
                                #[trigger] functions@[i],
                            ) by {
                                if i < prev_functions.len() {
                                    assert(functions@[i] == functions@.subrange(
                                        0,
                                        prev_functions.len() as int,
                                    )[i]);
                                }
                            }
                            assert forall|i: int|
                                0 <= i < variables@.len() implies spec_var_shape(
                                #[trigger] variables@[i],
                                "global"@,
                            ) by {
                                if i < prev_variables.len() {
                                    assert(variables@[i] == variables@.subrange(
                                        0,
                                        prev_variables.len() as int,
                                    )[i]);
                                }
                            }
                            assert forall|i: int|
                                0 <= i < types@.len() implies spec_type_shape(
                                #[trigger] types@[i],
                            ) by {
                                if i < prev_types.len() {
                                    assert(types@[i] == types@.subrange(
                                        0,
                                        prev_types.len() as int,
                                    )[i]);
                                }
                            }
                        }
                        pos = next_pos;
                    },
                }
            },
        }
    }
    proof {
        assert(done_f + Seq::<FunctionModel>::empty() =~= done_f);
        assert(done_v + Seq::<VariableModel>::empty() =~= done_v);
        assert(done_t + Seq::<TypeModel>::empty() =~= done_t);
    }
    (functions, variables, types)
}

} // verus!
