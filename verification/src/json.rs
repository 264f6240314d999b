use vstd::prelude::*;

use crate::strutil::push_char;
use crate::strutil::str_to_chars;
use crate::types::{AnalysisError, AnalysisResult, CoredumpInfo, ElfInfo, FunctionInfo, MemberInfo,
    ThreadInfo, TypeInfo, VariableInfo};

verus! {

// -------------------------------------------------------------------
// The wire form of a result value: compact JSON with a fixed key
// order, decimal numbers, and a canonical three-case string escape.
// The spec functions below define the rendering exactly; the
// emitters are proved to produce it character for character.

/// The decimal digit character for `d`.
pub open spec fn spec_digit(d: int) -> char
    recommends
        0 <= d < 10,
{
    if d == 0 {
        '0'
    } else if d == 1 {
        '1'
    } else if d == 2 {
        '2'
    } else if d == 3 {
        '3'
    } else if d == 4 {
        '4'
    } else if d == 5 {
        '5'
    } else if d == 6 {
        '6'
    } else if d == 7 {
        '7'
    } else if d == 8 {
        '8'
    } else {
        '9'
    }
}

/// The decimal rendering of a natural number, most significant
/// digit first, without leading zeros.
pub open spec fn spec_dec(n: int) -> Seq<char>
    recommends
        n >= 0,
    decreases n,
{
    if n < 10 {
        seq![spec_digit(n)]
    } else {
        spec_dec(n / 10) + seq![spec_digit(n % 10)]
    }
}

/// The decimal rendering of a signed number: a minus sign before
/// the magnitude when negative.
pub open spec fn spec_dec_signed(v: int) -> Seq<char> {
    if v < 0 {
        seq!['-'] + spec_dec(-v)
    } else {
        spec_dec(v)
    }
}

/// The lowercase hexadecimal digit character for `d`.
pub open spec fn spec_hex_digit(d: int) -> char
    recommends
        0 <= d < 16,
{
    if d < 10 {
        spec_digit(d)
    } else if d == 10 {
        'a'
    } else if d == 11 {
        'b'
    } else if d == 12 {
        'c'
    } else if d == 13 {
        'd'
    } else if d == 14 {
        'e'
    } else {
        'f'
    }
}

/// How one character appears inside a JSON string literal: quote
/// and backslash get a backslash escape, control characters a
/// four-digit hexadecimal escape, and everything else stands for
/// itself.
pub open spec fn spec_escape_char(c: char) -> Seq<char> {
    if c == '"' {
        seq!['\\', '"']
    } else if c == '\\' {
        seq!['\\', '\\']
    } else if (c as u32) < 0x20 {
        seq!['\\', 'u', '0', '0', spec_hex_digit(c as int / 16), spec_hex_digit(c as int % 16)]
    } else {
        seq![c]
    }
}

/// The escaped form of the characters of `s` from position `k` on.
pub open spec fn spec_escape_from(s: Seq<char>, k: int) -> Seq<char>
    decreases s.len() - k,
{
    if k < 0 || k >= s.len() {
        Seq::empty()
    } else {
        spec_escape_char(s[k]) + spec_escape_from(s, k + 1)
    }
}

/// A JSON string literal: the escaped characters between quotes.
pub open spec fn spec_json_string(s: Seq<char>) -> Seq<char> {
    seq!['"'] + spec_escape_from(s, 0) + seq!['"']
}

/// A subrange splits at any interior point.
proof fn lemma_subrange_split(s: Seq<char>, a: int, b: int, c: int)
    requires
        0 <= a <= b <= c <= s.len(),
    ensures
        s.subrange(a, c) == s.subrange(a, b) + s.subrange(b, c),
{
    assert(s.subrange(a, c) =~= s.subrange(a, b) + s.subrange(b, c));
}

proof fn lemma_add_empty(a: Seq<char>)
    ensures
        a + Seq::<char>::empty() == a,
{
    assert(a + Seq::<char>::empty() =~= a);
}

proof fn lemma_empty_add(a: Seq<char>)
    ensures
        Seq::<char>::empty() + a == a,
{
    assert(Seq::<char>::empty() + a =~= a);
}

proof fn lemma_add_assoc(a: Seq<char>, b: Seq<char>, c: Seq<char>)
    ensures
        (a + b) + c == a + (b + c),
{
    assert((a + b) + c =~= a + (b + c));
}

/// Escaping distributes over appending one character at the end.
proof fn lemma_escape_push(s: Seq<char>, c: char, k: int)
    requires
        0 <= k <= s.len(),
    ensures
        spec_escape_from(s.push(c), k) == spec_escape_from(s, k) + spec_escape_char(c),
    decreases s.len() - k,
{
    if k == s.len() {
        assert(s.push(c)[k] == c);
        assert(spec_escape_from(s.push(c), k + 1) =~= Seq::empty());
        assert(spec_escape_from(s.push(c), k) =~= spec_escape_char(c));
        assert(spec_escape_from(s, k) =~= Seq::empty());
        assert(spec_escape_from(s, k) + spec_escape_char(c) =~= spec_escape_char(c));
    } else {
        lemma_escape_push(s, c, k + 1);
        assert(s.push(c)[k] == s[k]);
        assert(spec_escape_from(s.push(c), k) =~= spec_escape_char(s[k]) + spec_escape_from(
            s.push(c),
            k + 1,
        ));
        assert(spec_escape_char(s[k]) + (spec_escape_from(s, k + 1) + spec_escape_char(c))
            =~= (spec_escape_char(s[k]) + spec_escape_from(s, k + 1)) + spec_escape_char(c));
    }
}

/// The decimal digit character for `d`.
fn digit_char(d: u64) -> (c: char)
    requires
        d < 10,
    ensures
        c == spec_digit(d as int),
{
    if d == 0 {
        '0'
    } else if d == 1 {
        '1'
    } else if d == 2 {
        '2'
    } else if d == 3 {
        '3'
    } else if d == 4 {
        '4'
    } else if d == 5 {
        '5'
    } else if d == 6 {
        '6'
    } else if d == 7 {
        '7'
    } else if d == 8 {
        '8'
    } else {
        '9'
    }
}

/// The lowercase hexadecimal digit character for `d`.
fn hex_digit_char(d: u32) -> (c: char)
    requires
        d < 16,
    ensures
        c == spec_hex_digit(d as int),
{
    if d < 10 {
        digit_char(d as u64)
    } else if d == 10 {
        'a'
    } else if d == 11 {
        'b'
    } else if d == 12 {
        'c'
    } else if d == 13 {
        'd'
    } else if d == 14 {
        'e'
    } else {
        'f'
    }
}

/// Append the decimal rendering of `n`.
pub fn push_dec_u64(out: &mut String, n: u64)
    ensures
        final(out)@ == old(out)@ + spec_dec(n as int),
    decreases n,
{
    if n < 10 {
        push_char(out, digit_char(n));
        assert(final(out)@ =~= old(out)@ + spec_dec(n as int));
    } else {
        push_dec_u64(out, n / 10);
        push_char(out, digit_char(n % 10));
        assert(final(out)@ =~= old(out)@ + spec_dec(n as int));
    }
}

/// Append the decimal rendering of `v`, sign included.
pub fn push_dec_i64(out: &mut String, v: i64)
    ensures
        final(out)@ == old(out)@ + spec_dec_signed(v as int),
{
    if v < 0 {
        push_char(out, '-');
        let magnitude: u64 = ((-(v + 1)) as u64) + 1;
        assert(magnitude == -(v as int));
        push_dec_u64(out, magnitude);
        assert(final(out)@ =~= old(out)@ + spec_dec_signed(v as int));
    } else {
        push_dec_u64(out, v as u64);
    }
}

/// Append one character in its escaped form.
fn push_escaped_char(out: &mut String, c: char)
    ensures
        final(out)@ == old(out)@ + spec_escape_char(c),
{
    if c == '"' {
        push_char(out, '\\');
        push_char(out, '"');
        assert(final(out)@ =~= old(out)@ + spec_escape_char(c));
    } else if c == '\\' {
        push_char(out, '\\');
        push_char(out, '\\');
        assert(final(out)@ =~= old(out)@ + spec_escape_char(c));
    } else if (c as u32) < 0x20 {
        push_char(out, '\\');
        push_char(out, 'u');
        push_char(out, '0');
        push_char(out, '0');
        push_char(out, hex_digit_char((c as u32) / 16));
        push_char(out, hex_digit_char((c as u32) % 16));
        assert(final(out)@ =~= old(out)@ + spec_escape_char(c));
    } else {
        push_char(out, c);
        assert(final(out)@ =~= old(out)@ + spec_escape_char(c));
    }
}

/// Append `s` as a JSON string literal.
pub fn push_json_string(out: &mut String, s: &str)
    ensures
        final(out)@ == old(out)@ + spec_json_string(s@),
{
    push_char(out, '"');
    let n = s.unicode_len();
    let ghost base = out@;
    let mut i: usize = 0;
    while i < n
        invariant
            i <= n == s@.len(),
            out@ == base + spec_escape_from(s@.subrange(0, i as int), 0),
        decreases n - i,
    {
        let c = s.get_char(i);
        push_escaped_char(out, c);
        proof {
            assert(s@.subrange(0, i + 1) =~= s@.subrange(0, i as int).push(s@[i as int]));
            lemma_escape_push(s@.subrange(0, i as int), s@[i as int], 0);
        }
        i = i + 1;
    }
    proof {
        assert(s@.subrange(0, n as int) =~= s@);
    }
    push_char(out, '"');
    assert(final(out)@ =~= old(out)@ + spec_json_string(s@));
}


// -------------------------------------------------------------------
// The rendering of whole values. Fields appear in declaration
// order; an absent optional field renders as `null`, distinct from
// a present-but-empty sequence, which renders as `[]`.

pub open spec fn spec_json_opt_u64(v: Option<u64>) -> Seq<char> {
    match v {
        Option::None => "null"@,
        Option::Some(x) => spec_dec(x as int),
    }
}

pub open spec fn spec_json_opt_i64(v: Option<i64>) -> Seq<char> {
    match v {
        Option::None => "null"@,
        Option::Some(x) => spec_dec_signed(x as int),
    }
}

pub open spec fn spec_json_type(t: TypeInfo) -> Seq<char>
    decreases t, 1int, 0int,
{
    "{\"name\":"@ + spec_json_string(t.name@) + ",\"size\":"@ + spec_json_opt_u64(t.size)
        + ",\"kind\":"@ + spec_json_string(t.kind@) + ",\"members\":["@ + spec_json_members(
        t.members@,
        0,
    ) + "]}"@
}

pub open spec fn spec_json_members(ms: Seq<MemberInfo>, k: int) -> Seq<char>
    decreases ms, 0int, ms.len() - k,
{
    if k < 0 || k >= ms.len() {
        Seq::empty()
    } else {
        (if k > 0 {
            ","@
        } else {
            Seq::<char>::empty()
        }) + spec_json_member(ms[k]) + spec_json_members(ms, k + 1)
    }
}

pub open spec fn spec_json_member(m: MemberInfo) -> Seq<char>
    decreases m, 2int, 0int,
{
    "{\"name\":"@ + spec_json_string(m.name@) + ",\"offset\":"@ + spec_dec(m.offset as int)
        + ",\"type_info\":"@ + spec_json_type(m.type_info) + "}"@
}

pub open spec fn spec_json_opt_type(v: Option<TypeInfo>) -> Seq<char> {
    match v {
        Option::None => "null"@,
        Option::Some(t) => spec_json_type(t),
    }
}

pub open spec fn spec_json_variable(v: VariableInfo) -> Seq<char> {
    "{\"name\":"@ + spec_json_string(v.name@) + ",\"address\":"@ + spec_json_opt_u64(v.address)
        + ",\"offset\":"@ + spec_json_opt_i64(v.offset) + ",\"type_info\":"@ + spec_json_type(
        v.type_info,
    ) + ",\"scope\":"@ + spec_json_string(v.scope@) + "}"@
}

pub open spec fn spec_json_variables(vs: Seq<VariableInfo>, k: int) -> Seq<char>
    decreases vs.len() - k,
{
    if k < 0 || k >= vs.len() {
        Seq::empty()
    } else {
        (if k > 0 {
            ","@
        } else {
            Seq::<char>::empty()
        }) + spec_json_variable(vs[k]) + spec_json_variables(vs, k + 1)
    }
}

pub open spec fn spec_json_function(f: FunctionInfo) -> Seq<char> {
    "{\"name\":"@ + spec_json_string(f.name@) + ",\"address\":"@ + spec_dec(f.address as int)
        + ",\"size\":"@ + spec_json_opt_u64(f.size) + ",\"parameters\":["@
        + spec_json_variables(f.parameters@, 0) + "],\"return_type\":"@ + spec_json_opt_type(
        f.return_type,
    ) + "}"@
}

pub open spec fn spec_json_functions(fs: Seq<FunctionInfo>, k: int) -> Seq<char>
    decreases fs.len() - k,
{
    if k < 0 || k >= fs.len() {
        Seq::empty()
    } else {
        (if k > 0 {
            ","@
        } else {
            Seq::<char>::empty()
        }) + spec_json_function(fs[k]) + spec_json_functions(fs, k + 1)
    }
}

pub open spec fn spec_json_strings(ss: Seq<String>, k: int) -> Seq<char>
    decreases ss.len() - k,
{
    if k < 0 || k >= ss.len() {
        Seq::empty()
    } else {
        (if k > 0 {
            ","@
        } else {
            Seq::<char>::empty()
        }) + spec_json_string(ss[k]@) + spec_json_strings(ss, k + 1)
    }
}

pub open spec fn spec_json_types(ts: Seq<TypeInfo>, k: int) -> Seq<char>
    decreases ts.len() - k,
{
    if k < 0 || k >= ts.len() {
        Seq::empty()
    } else {
        (if k > 0 {
            ","@
        } else {
            Seq::<char>::empty()
        }) + spec_json_type(ts[k]) + spec_json_types(ts, k + 1)
    }
}

pub open spec fn spec_json_elf(info: ElfInfo) -> Seq<char> {
    "{\"architecture\":"@ + spec_json_string(info.architecture@) + ",\"entry_point\":"@
        + spec_dec(info.entry_point as int) + ",\"sections\":["@ + spec_json_strings(
        info.sections@,
        0,
    ) + "],\"file_type\":"@ + spec_json_string(info.file_type@) + ",\"endianness\":"@
        + spec_json_string(info.endianness@) + ",\"functions\":["@ + spec_json_functions(
        info.functions@,
        0,
    ) + "],\"variables\":["@ + spec_json_variables(info.variables@, 0) + "],\"types\":["@
        + spec_json_types(info.types@, 0) + "]}"@
}

pub open spec fn spec_json_bytes(bs: Seq<u8>, k: int) -> Seq<char>
    decreases bs.len() - k,
{
    if k < 0 || k >= bs.len() {
        Seq::empty()
    } else {
        (if k > 0 {
            ","@
        } else {
            Seq::<char>::empty()
        }) + spec_dec(bs[k] as int) + spec_json_bytes(bs, k + 1)
    }
}

pub open spec fn spec_json_thread(th: ThreadInfo) -> Seq<char> {
    "{\"thread_id\":"@ + spec_dec(th.thread_id as int) + ",\"registers\":["@ + spec_json_bytes(
        th.registers@,
        0,
    ) + "]}"@
}

pub open spec fn spec_json_threads(ths: Seq<ThreadInfo>, k: int) -> Seq<char>
    decreases ths.len() - k,
{
    if k < 0 || k >= ths.len() {
        Seq::empty()
    } else {
        (if k > 0 {
            ","@
        } else {
            Seq::<char>::empty()
        }) + spec_json_thread(ths[k]) + spec_json_threads(ths, k + 1)
    }
}

pub open spec fn spec_json_core(ci: CoredumpInfo) -> Seq<char> {
    "{\"architecture\":"@ + spec_json_string(ci.architecture@) + ",\"threads\":["@
        + spec_json_threads(ci.threads@, 0) + "]}"@
}

/// The whole wire form of a result value.
pub open spec fn spec_json_result(r: AnalysisResult) -> Seq<char> {
    "{\"elf_info\":"@ + (match r.elf_info {
        Option::None => "null"@,
        Option::Some(info) => spec_json_elf(info),
    }) + ",\"coredump_info\":"@ + (match r.coredump_info {
        Option::None => "null"@,
        Option::Some(ci) => spec_json_core(ci),
    }) + "}"@
}

// -------------------------------------------------------------------
// Emitters, each proved to append exactly the spec rendering.

fn push_json_opt_u64(out: &mut String, v: &Option<u64>)
    ensures
        final(out)@ == old(out)@ + spec_json_opt_u64(*v),
{
    match v {
        None => {
            out.append("null");
        },
        Some(x) => {
            push_dec_u64(out, *x);
        },
    }
}

fn push_json_opt_i64(out: &mut String, v: &Option<i64>)
    ensures
        final(out)@ == old(out)@ + spec_json_opt_i64(*v),
{
    match v {
        None => {
            out.append("null");
        },
        Some(x) => {
            push_dec_i64(out, *x);
        },
    }
}

fn push_json_type(out: &mut String, t: &TypeInfo)
    ensures
        final(out)@ == old(out)@ + spec_json_type(*t),
    decreases *t, 1int, 0int,
{
    out.append("{\"name\":");
    push_json_string(out, t.name.as_str());
    out.append(",\"size\":");
    push_json_opt_u64(out, &t.size);
    out.append(",\"kind\":");
    push_json_string(out, t.kind.as_str());
    out.append(",\"members\":[");
    push_json_members(out, &t.members, 0);
    out.append("]}");
    assert(final(out)@ =~= old(out)@ + spec_json_type(*t));
}

fn push_json_members(out: &mut String, ms: &Vec<MemberInfo>, k: usize)
    requires
        k <= ms@.len(),
    ensures
        final(out)@ == old(out)@ + spec_json_members(ms@, k as int),
    decreases ms@, 0int, ms@.len() - k,
{
    if k < ms.len() {
        if k > 0 {
            out.append(",");
        }
        push_json_member(out, vstd::std_specs::vec::vec_index(ms, k));
        push_json_members(out, ms, k + 1);
        assert(final(out)@ =~= old(out)@ + spec_json_members(ms@, k as int));
    } else {
        assert(final(out)@ =~= old(out)@ + spec_json_members(ms@, k as int));
    }
}

fn push_json_member(out: &mut String, m: &MemberInfo)
    ensures
        final(out)@ == old(out)@ + spec_json_member(*m),
    decreases *m, 2int, 0int,
{
    out.append("{\"name\":");
    push_json_string(out, m.name.as_str());
    out.append(",\"offset\":");
    push_dec_u64(out, m.offset);
    out.append(",\"type_info\":");
    push_json_type(out, &m.type_info);
    out.append("}");
    assert(final(out)@ =~= old(out)@ + spec_json_member(*m));
}

fn push_json_variable(out: &mut String, v: &VariableInfo)
    ensures
        final(out)@ == old(out)@ + spec_json_variable(*v),
{
    out.append("{\"name\":");
    push_json_string(out, v.name.as_str());
    out.append(",\"address\":");
    push_json_opt_u64(out, &v.address);
    out.append(",\"offset\":");
    push_json_opt_i64(out, &v.offset);
    out.append(",\"type_info\":");
    push_json_type(out, &v.type_info);
    out.append(",\"scope\":");
    push_json_string(out, v.scope.as_str());
    out.append("}");
    assert(final(out)@ =~= old(out)@ + spec_json_variable(*v));
}

#[verifier::loop_isolation(false)]
fn push_json_variables(out: &mut String, vs: &Vec<VariableInfo>)
    ensures
        final(out)@ == old(out)@ + spec_json_variables(vs@, 0),
{
    let n = vs.len();
    let mut k: usize = 0;
    while k < n
        invariant
            k <= n,
            out@ + spec_json_variables(vs@, k as int) == old(out)@ + spec_json_variables(vs@, 0),
        decreases n - k,
    {
        let ghost before = out@;
        if k > 0 {
            out.append(",");
        }
        push_json_variable(out, vstd::std_specs::vec::vec_index(vs, k));
        proof {
            assert(out@ + spec_json_variables(vs@, k + 1) =~= before + spec_json_variables(
                vs@,
                k as int,
            ));
        }
        k = k + 1;
    }
    assert(final(out)@ =~= old(out)@ + spec_json_variables(vs@, 0));
}

fn push_json_function(out: &mut String, f: &FunctionInfo)
    ensures
        final(out)@ == old(out)@ + spec_json_function(*f),
{
    out.append("{\"name\":");
    push_json_string(out, f.name.as_str());
    out.append(",\"address\":");
    push_dec_u64(out, f.address);
    out.append(",\"size\":");
    push_json_opt_u64(out, &f.size);
    out.append(",\"parameters\":[");
    push_json_variables(out, &f.parameters);
    out.append("],\"return_type\":");
    match &f.return_type {
        None => {
            out.append("null");
        },
        Some(t) => {
            push_json_type(out, t);
        },
    }
    out.append("}");
    assert(final(out)@ =~= old(out)@ + spec_json_function(*f));
}

#[verifier::loop_isolation(false)]
fn push_json_functions(out: &mut String, fs: &Vec<FunctionInfo>)
    ensures
        final(out)@ == old(out)@ + spec_json_functions(fs@, 0),
{
    let n = fs.len();
    let mut k: usize = 0;
    while k < n
        invariant
            k <= n,
            out@ + spec_json_functions(fs@, k as int) == old(out)@ + spec_json_functions(fs@, 0),
        decreases n - k,
    {
        let ghost before = out@;
        if k > 0 {
            out.append(",");
        }
        push_json_function(out, vstd::std_specs::vec::vec_index(fs, k));
        proof {
            assert(out@ + spec_json_functions(fs@, k + 1) =~= before + spec_json_functions(
                fs@,
                k as int,
            ));
        }
        k = k + 1;
    }
    assert(final(out)@ =~= old(out)@ + spec_json_functions(fs@, 0));
}

#[verifier::loop_isolation(false)]
fn push_json_strings(out: &mut String, ss: &Vec<String>)
    ensures
        final(out)@ == old(out)@ + spec_json_strings(ss@, 0),
{
    let n = ss.len();
    let mut k: usize = 0;
    while k < n
        invariant
            k <= n,
            out@ + spec_json_strings(ss@, k as int) == old(out)@ + spec_json_strings(ss@, 0),
        decreases n - k,
    {
        let ghost before = out@;
        if k > 0 {
            out.append(",");
        }
        push_json_string(out, vstd::std_specs::vec::vec_index(ss, k).as_str());
        proof {
            assert(out@ + spec_json_strings(ss@, k + 1) =~= before + spec_json_strings(
                ss@,
                k as int,
            ));
        }
        k = k + 1;
    }
    assert(final(out)@ =~= old(out)@ + spec_json_strings(ss@, 0));
}

#[verifier::loop_isolation(false)]
fn push_json_types(out: &mut String, ts: &Vec<TypeInfo>)
    ensures
        final(out)@ == old(out)@ + spec_json_types(ts@, 0),
{
    let n = ts.len();
    let mut k: usize = 0;
    while k < n
        invariant
            k <= n,
            out@ + spec_json_types(ts@, k as int) == old(out)@ + spec_json_types(ts@, 0),
        decreases n - k,
    {
        let ghost before = out@;
        if k > 0 {
            out.append(",");
        }
        push_json_type(out, vstd::std_specs::vec::vec_index(ts, k));
        proof {
            assert(out@ + spec_json_types(ts@, k + 1) =~= before + spec_json_types(ts@, k as int));
        }
        k = k + 1;
    }
    assert(final(out)@ =~= old(out)@ + spec_json_types(ts@, 0));
}

#[verifier::loop_isolation(false)]
fn push_json_bytes(out: &mut String, bs: &Vec<u8>)
    ensures
        final(out)@ == old(out)@ + spec_json_bytes(bs@, 0),
{
    let n = bs.len();
    let mut k: usize = 0;
    while k < n
        invariant
            k <= n,
            out@ + spec_json_bytes(bs@, k as int) == old(out)@ + spec_json_bytes(bs@, 0),
        decreases n - k,
    {
        let ghost before = out@;
        if k > 0 {
            out.append(",");
        }
        push_dec_u64(out, *vstd::std_specs::vec::vec_index(bs, k) as u64);
        proof {
            assert(out@ + spec_json_bytes(bs@, k + 1) =~= before + spec_json_bytes(bs@, k as int));
        }
        k = k + 1;
    }
    assert(final(out)@ =~= old(out)@ + spec_json_bytes(bs@, 0));
}

fn push_json_thread(out: &mut String, th: &ThreadInfo)
    ensures
        final(out)@ == old(out)@ + spec_json_thread(*th),
{
    out.append("{\"thread_id\":");
    push_dec_u64(out, th.thread_id);
    out.append(",\"registers\":[");
    push_json_bytes(out, &th.registers);
    out.append("]}");
    assert(final(out)@ =~= old(out)@ + spec_json_thread(*th));
}

#[verifier::loop_isolation(false)]
fn push_json_threads(out: &mut String, ths: &Vec<ThreadInfo>)
    ensures
        final(out)@ == old(out)@ + spec_json_threads(ths@, 0),
{
    let n = ths.len();
    let mut k: usize = 0;
    while k < n
        invariant
            k <= n,
            out@ + spec_json_threads(ths@, k as int) == old(out)@ + spec_json_threads(ths@, 0),
        decreases n - k,
    {
        let ghost before = out@;
        if k > 0 {
            out.append(",");
        }
        push_json_thread(out, vstd::std_specs::vec::vec_index(ths, k));
        proof {
            assert(out@ + spec_json_threads(ths@, k + 1) =~= before + spec_json_threads(
                ths@,
                k as int,
            ));
        }
        k = k + 1;
    }
    assert(final(out)@ =~= old(out)@ + spec_json_threads(ths@, 0));
}

fn push_json_elf(out: &mut String, info: &ElfInfo)
    ensures
        final(out)@ == old(out)@ + spec_json_elf(*info),
{
    let ghost o = old(out)@;
    out.append("{\"architecture\":");
    let ghost mut partial: Seq<char> = "{\"architecture\":"@;
    proof {
        assert(out@ == o + partial);
    }
    push_json_string(out, info.architecture.as_str());
    proof {
        lemma_add_assoc(o, partial, spec_json_string(info.architecture@));
        partial = partial + spec_json_string(info.architecture@);
        assert(out@ == o + partial);
    }
    out.append(",\"entry_point\":");
    proof {
        lemma_add_assoc(o, partial, ",\"entry_point\":"@);
        partial = partial + ",\"entry_point\":"@;
        assert(out@ == o + partial);
    }
    push_dec_u64(out, info.entry_point);
    proof {
        lemma_add_assoc(o, partial, spec_dec(info.entry_point as int));
        partial = partial + spec_dec(info.entry_point as int);
        assert(out@ == o + partial);
    }
    out.append(",\"sections\":[");
    proof {
        lemma_add_assoc(o, partial, ",\"sections\":["@);
        partial = partial + ",\"sections\":["@;
        assert(out@ == o + partial);
    }
    push_json_strings(out, &info.sections);
    proof {
        lemma_add_assoc(o, partial, spec_json_strings(info.sections@, 0));
        partial = partial + spec_json_strings(info.sections@, 0);
        assert(out@ == o + partial);
    }
    out.append("],\"file_type\":");
    proof {
        lemma_add_assoc(o, partial, "],\"file_type\":"@);
        partial = partial + "],\"file_type\":"@;
        assert(out@ == o + partial);
    }
    push_json_string(out, info.file_type.as_str());
    proof {
        lemma_add_assoc(o, partial, spec_json_string(info.file_type@));
        partial = partial + spec_json_string(info.file_type@);
        assert(out@ == o + partial);
    }
    out.append(",\"endianness\":");
    proof {
        lemma_add_assoc(o, partial, ",\"endianness\":"@);
        partial = partial + ",\"endianness\":"@;
        assert(out@ == o + partial);
    }
    push_json_string(out, info.endianness.as_str());
    proof {
        lemma_add_assoc(o, partial, spec_json_string(info.endianness@));
        partial = partial + spec_json_string(info.endianness@);
        assert(out@ == o + partial);
    }
    out.append(",\"functions\":[");
    proof {
        lemma_add_assoc(o, partial, ",\"functions\":["@);
        partial = partial + ",\"functions\":["@;
        assert(out@ == o + partial);
    }
    push_json_functions(out, &info.functions);
    proof {
        lemma_add_assoc(o, partial, spec_json_functions(info.functions@, 0));
        partial = partial + spec_json_functions(info.functions@, 0);
        assert(out@ == o + partial);
    }
    out.append("],\"variables\":[");
    proof {
        lemma_add_assoc(o, partial, "],\"variables\":["@);
        partial = partial + "],\"variables\":["@;
        assert(out@ == o + partial);
    }
    push_json_variables(out, &info.variables);
    proof {
        lemma_add_assoc(o, partial, spec_json_variables(info.variables@, 0));
        partial = partial + spec_json_variables(info.variables@, 0);
        assert(out@ == o + partial);
    }
    out.append("],\"types\":[");
    proof {
        lemma_add_assoc(o, partial, "],\"types\":["@);
        partial = partial + "],\"types\":["@;
        assert(out@ == o + partial);
    }
    push_json_types(out, &info.types);
    proof {
        lemma_add_assoc(o, partial, spec_json_types(info.types@, 0));
        partial = partial + spec_json_types(info.types@, 0);
        assert(out@ == o + partial);
    }
    out.append("]}");
    proof {
        lemma_add_assoc(o, partial, "]}"@);
        partial = partial + "]}"@;
        assert(out@ == o + partial);
    }
    assert(partial == spec_json_elf(*info));
}

fn push_json_core(out: &mut String, ci: &CoredumpInfo)
    ensures
        final(out)@ == old(out)@ + spec_json_core(*ci),
{
    out.append("{\"architecture\":");
    push_json_string(out, ci.architecture.as_str());
    out.append(",\"threads\":[");
    push_json_threads(out, &ci.threads);
    out.append("]}");
    assert(final(out)@ =~= old(out)@ + spec_json_core(*ci));
}

/// Render a result value to its wire form: compact JSON with stable
/// key order, decimal numbers, and `null` for each absent optional
/// field. The rendering is a pure, lossless projection of the
/// value, so serialization itself never fails.
pub fn to_json(result: &AnalysisResult) -> (r: Result<String, AnalysisError>)
    ensures
        r is Ok,
        r matches Ok(s) ==> s@ == spec_json_result(*result),
{
    let mut out = String::new();
    out.append("{\"elf_info\":");
    match &result.elf_info {
        None => {
            out.append("null");
        },
        Some(info) => {
            push_json_elf(&mut out, info);
        },
    }
    out.append(",\"coredump_info\":");
    match &result.coredump_info {
        None => {
            out.append("null");
        },
        Some(ci) => {
            push_json_core(&mut out, ci);
        },
    }
    out.append("}");
    assert(out@ =~= spec_json_result(*result));
    Ok(out)
}


// -------------------------------------------------------------------
// Parsing the wire form back. The parser accepts exactly the
// canonical renderings the emitters produce; each function's
// contract says that the characters it consumed are the rendering
// of the value it returns, so a successful parse of a whole
// document re-renders to that same document.

fn char_at(s: &Vec<char>, i: usize) -> (c: char)
    requires
        i < s@.len(),
    ensures
        c == s@[i as int],
{
    *vstd::std_specs::vec::vec_index(s, i)
}

/// Consume the characters of `lit` verbatim.
#[verifier::loop_isolation(false)]
fn expect_lit(s: &Vec<char>, i: usize, lit: &str) -> (r: Option<usize>)
    ensures
        r matches Some(j) ==> {
            &&& i + lit@.len() == j <= s@.len()
            &&& s@.subrange(i as int, j as int) == lit@
        },
{
    let m = lit.unicode_len();
    if i > s.len() || m > s.len() - i {
        return None;
    }
    let mut k: usize = 0;
    while k < m
        invariant
            k <= m == lit@.len(),
            i + m <= s@.len(),
            s@.subrange(i as int, i + k) == lit@.subrange(0, k as int),
        decreases m - k,
    {
        if char_at(s, i + k) != lit.get_char(k) {
            return None;
        }
        proof {
            assert(s@.subrange(i as int, i + k + 1) =~= s@.subrange(i as int, i + k).push(
                s@[i + k],
            ));
            assert(lit@.subrange(0, k + 1) =~= lit@.subrange(0, k as int).push(lit@[k as int]));
        }
        k = k + 1;
    }
    proof {
        assert(lit@.subrange(0, m as int) =~= lit@);
    }
    Some(i + m)
}

/// The value of a decimal digit character.
fn digit_val(c: char) -> (r: Option<u64>)
    ensures
        r matches Some(d) ==> d < 10 && c == spec_digit(d as int),
{
    if c == '0' {
        Some(0)
    } else if c == '1' {
        Some(1)
    } else if c == '2' {
        Some(2)
    } else if c == '3' {
        Some(3)
    } else if c == '4' {
        Some(4)
    } else if c == '5' {
        Some(5)
    } else if c == '6' {
        Some(6)
    } else if c == '7' {
        Some(7)
    } else if c == '8' {
        Some(8)
    } else if c == '9' {
        Some(9)
    } else {
        None
    }
}

/// The value of a lowercase hexadecimal digit character.
fn hex_val(c: char) -> (r: Option<u32>)
    ensures
        r matches Some(d) ==> d < 16 && c == spec_hex_digit(d as int),
{
    match digit_val(c) {
        Some(d) => Some(d as u32),
        None => {
            if c == 'a' {
                Some(10)
            } else if c == 'b' {
                Some(11)
            } else if c == 'c' {
                Some(12)
            } else if c == 'd' {
                Some(13)
            } else if c == 'e' {
                Some(14)
            } else if c == 'f' {
                Some(15)
            } else {
                None
            }
        },
    }
}

/// The decimal rendering of `n` as a character vector.
fn u64_chars(n: u64) -> (r: Vec<char>)
    ensures
        r@ == spec_dec(n as int),
    decreases n,
{
    if n < 10 {
        let mut r: Vec<char> = Vec::new();
        r.push(digit_char(n));
        assert(r@ =~= spec_dec(n as int));
        r
    } else {
        let mut r = u64_chars(n / 10);
        r.push(digit_char(n % 10));
        assert(r@ =~= spec_dec(n as int));
        r
    }
}

/// Parse a canonical decimal number: the consumed characters are
/// exactly the rendering of the returned value.
#[verifier::loop_isolation(false)]
fn parse_u64(s: &Vec<char>, i: usize) -> (r: Option<(u64, usize)>)
    ensures
        r matches Some((v, j)) ==> {
            &&& i < j <= s@.len()
            &&& s@.subrange(i as int, j as int) == spec_dec(v as int)
        },
{
    let n = s.len();
    if i >= n {
        return None;
    }
    let mut j = i;
    let mut v: u64 = 0;
    while j < n && digit_val(char_at(s, j)).is_some()
        invariant
            i <= j <= n,
        decreases n - j,
    {
        match digit_val(char_at(s, j)) {
            None => {
                return None;
            },
            Some(d) => {
                if v > (u64::MAX - d) / 10 {
                    return None;
                }
                v = v * 10 + d;
                j = j + 1;
            },
        }
    }
    if j == i {
        return None;
    }
    // Accept only the canonical rendering: re-render and compare.
    let canon = u64_chars(v);
    let m = canon.len();
    if m != j - i {
        return None;
    }
    let mut k: usize = 0;
    while k < m
        invariant
            k <= m == canon@.len(),
            i + m <= s@.len(),
            j == i + m,
            s@.subrange(i as int, i + k) == canon@.subrange(0, k as int),
        decreases m - k,
    {
        if char_at(s, i + k) != *vstd::std_specs::vec::vec_index(&canon, k) {
            return None;
        }
        proof {
            assert(s@.subrange(i as int, i + k + 1) =~= s@.subrange(i as int, i + k).push(
                s@[i + k],
            ));
            assert(canon@.subrange(0, k + 1) =~= canon@.subrange(0, k as int).push(
                canon@[k as int],
            ));
        }
        k = k + 1;
    }
    proof {
        assert(canon@.subrange(0, m as int) =~= canon@);
        assert(spec_dec(v as int).len() >= 1);
    }
    Some((v, j))
}

/// Parse a canonical signed decimal number.
#[verifier::loop_isolation(false)]
fn parse_i64(s: &Vec<char>, i: usize) -> (r: Option<(i64, usize)>)
    ensures
        r matches Some((v, j)) ==> {
            &&& i < j <= s@.len()
            &&& s@.subrange(i as int, j as int) == spec_dec_signed(v as int)
        },
{
    let n = s.len();
    if i >= n {
        return None;
    }
    if char_at(s, i) == '-' {
        match parse_u64(s, i + 1) {
            None => None,
            Some((m, j)) => {
                if m == 0 || m > 9223372036854775808u64 {
                    return None;
                }
                let v: i64 = if m == 9223372036854775808u64 {
                    i64::MIN
                } else {
                    -((m - 1) as i64) - 1
                };
                proof {
                    assert(-(v as int) == m);
                    assert(s@.subrange(i as int, j as int) =~= seq!['-'] + s@.subrange(
                        i + 1,
                        j as int,
                    ));
                }
                Some((v, j))
            },
        }
    } else {
        match parse_u64(s, i) {
            None => None,
            Some((m, j)) => {
                if m > 0x7fff_ffff_ffff_ffffu64 {
                    return None;
                }
                Some((m as i64, j))
            },
        }
    }
}

/// Parse a canonical JSON string literal, undoing the three-case
/// escape.
#[verifier::loop_isolation(false)]
fn parse_json_string(s: &Vec<char>, i: usize) -> (r: Option<(String, usize)>)
    ensures
        r matches Some((v, j)) ==> {
            &&& i < j <= s@.len()
            &&& s@.subrange(i as int, j as int) == spec_json_string(v@)
        },
{
    let n = s.len();
    if i >= n || char_at(s, i) != '"' {
        return None;
    }
    let mut out = String::new();
    let mut j = i + 1;
    while j < n
        invariant
            i + 1 <= j <= n == s@.len(),
            s@[i as int] == '"',
            s@.subrange(i + 1, j as int) == spec_escape_from(out@, 0),
        decreases n - j,
    {
        let ghost out0 = out@;
        let c = char_at(s, j);
        if c == '"' {
            proof {
                assert(s@.subrange(i as int, j + 1) =~= seq!['"'] + s@.subrange(i + 1, j as int)
                    + seq!['"']);
            }
            return Some((out, j + 1));
        }
        if c == '\\' {
            if j + 1 >= n {
                return None;
            }
            let e = char_at(s, j + 1);
            if e == '"' {
                push_char(&mut out, '"');
                proof {
                    lemma_escape_push(out0, '"', 0);
                    assert(spec_escape_char('"') =~= s@.subrange(j as int, j + 2));
                    assert(s@.subrange(i + 1, j + 2) =~= s@.subrange(i + 1, j as int)
                        + s@.subrange(j as int, j + 2));
                }
                j = j + 2;
            } else if e == '\\' {
                push_char(&mut out, '\\');
                proof {
                    lemma_escape_push(out0, '\\', 0);
                    assert(spec_escape_char('\\') =~= s@.subrange(j as int, j + 2));
                    assert(s@.subrange(i + 1, j + 2) =~= s@.subrange(i + 1, j as int)
                        + s@.subrange(j as int, j + 2));
                }
                j = j + 2;
            } else if e == 'u' {
                if n - j < 6 {
                    return None;
                }
                if char_at(s, j + 2) != '0' || char_at(s, j + 3) != '0' {
                    return None;
                }
                let h1 = match hex_val(char_at(s, j + 4)) {
                    None => {
                        return None;
                    },
                    Some(h) => h,
                };
                let h2 = match hex_val(char_at(s, j + 5)) {
                    None => {
                        return None;
                    },
                    Some(h) => h,
                };
                let value = h1 * 16 + h2;
                if value >= 0x20 {
                    return None;
                }
                let c2 = (value as u8) as char;
                push_char(&mut out, c2);
                proof {
                    assert(c2 as u32 == value);
                    lemma_escape_push(out0, c2, 0);
                    assert(spec_escape_char(c2) =~= s@.subrange(j as int, j + 6));
                    assert(s@.subrange(i + 1, j + 6) =~= s@.subrange(i + 1, j as int)
                        + s@.subrange(j as int, j + 6));
                }
                j = j + 6;
            } else {
                return None;
            }
        } else {
            if (c as u32) < 0x20 {
                return None;
            }
            push_char(&mut out, c);
            proof {
                lemma_escape_push(out0, c, 0);
                assert(spec_escape_char(c) =~= s@.subrange(j as int, j + 1));
                assert(s@.subrange(i + 1, j + 1) =~= s@.subrange(i + 1, j as int) + s@.subrange(
                    j as int,
                    j + 1,
                ));
            }
            j = j + 1;
        }
    }
    None
}

fn parse_opt_u64(s: &Vec<char>, i: usize) -> (r: Option<(Option<u64>, usize)>)
    ensures
        r matches Some((v, j)) ==> {
            &&& i < j <= s@.len()
            &&& s@.subrange(i as int, j as int) == spec_json_opt_u64(v)
        },
{
    match expect_lit(s, i, "null") {
        Some(j) => {
            proof {
                reveal_strlit("null");
            }
            Some((None, j))
        },
        None => {
            match parse_u64(s, i) {
                None => None,
                Some((v, j)) => Some((Some(v), j)),
            }
        },
    }
}

fn parse_opt_i64(s: &Vec<char>, i: usize) -> (r: Option<(Option<i64>, usize)>)
    ensures
        r matches Some((v, j)) ==> {
            &&& i < j <= s@.len()
            &&& s@.subrange(i as int, j as int) == spec_json_opt_i64(v)
        },
{
    match expect_lit(s, i, "null") {
        Some(j) => {
            proof {
                reveal_strlit("null");
            }
            Some((None, j))
        },
        None => {
            match parse_i64(s, i) {
                None => None,
                Some((v, j)) => Some((Some(v), j)),
            }
        },
    }
}


proof fn lemma_json_members_push(ms: Seq<MemberInfo>, x: MemberInfo, k: int)
    requires
        0 <= k <= ms.len(),
    ensures
        spec_json_members(ms.push(x), k) == spec_json_members(ms, k) + (if ms.len() > 0 {
            ","@
        } else {
            Seq::<char>::empty()
        }) + spec_json_member(x),
    decreases ms.len() - k,
{
    let sep_new: Seq<char> = if ms.len() > 0 {
        ","@
    } else {
        Seq::empty()
    };
    let sep_k: Seq<char> = if k > 0 {
        ","@
    } else {
        Seq::empty()
    };
    if k == ms.len() {
        assert(ms.push(x)[k] == x);
        assert(spec_json_members(ms.push(x), k) == (sep_k + spec_json_member(x)) + spec_json_members(ms.push(x), k + 1));
        assert(spec_json_members(ms.push(x), k + 1) == Seq::<char>::empty());
        lemma_add_empty(sep_k + spec_json_member(x));
        assert(spec_json_members(ms, k) == Seq::<char>::empty());
        lemma_empty_add(sep_new);
        assert(spec_json_members(ms, k) + sep_new == sep_new);
        assert(sep_k == sep_new);
        assert(spec_json_members(ms.push(x), k) == spec_json_members(ms, k) + sep_new + spec_json_member(x));
    } else {
        lemma_json_members_push(ms, x, k + 1);
        assert(ms.push(x)[k] == ms[k]);
        let a = sep_k + spec_json_member(ms[k]);
        let b = spec_json_members(ms, k + 1);
        let c = sep_new;
        let d = spec_json_member(x);
        assert(spec_json_members(ms.push(x), k) == a + spec_json_members(ms.push(x), k + 1));
        assert(spec_json_members(ms.push(x), k + 1) == (b + c) + d);
        lemma_add_assoc(a, b + c, d);
        lemma_add_assoc(a, b, c);
        assert(spec_json_members(ms, k) == a + b);
        assert(spec_json_members(ms.push(x), k) == ((a + b) + c) + d);
    }
}

#[verifier::loop_isolation(false)]
fn parse_members(s: &Vec<char>, i: usize) -> (r: Option<(Vec<MemberInfo>, usize)>)
    ensures
        r matches Some((vs, j)) ==> {
            &&& i <= j <= s@.len()
            &&& s@.subrange(i as int, j as int) == spec_json_members(vs@, 0)
        },
    decreases s@.len() - i, 1int,
{
    proof {
        reveal_strlit(",");
    }
    let n = s.len();
    let mut out: Vec<MemberInfo> = Vec::new();
    let mut j = i;
    if j < n && char_at(s, j) == ']' {
        assert(s@.subrange(i as int, i as int) =~= spec_json_members(out@, 0));
        return Some((out, j));
    }
    match parse_member(s, j) {
        None => {
            return None;
        },
        Some((x, j1)) => {
            
            let ghost prev = out@;
            let ghost gx = x;
            out.push(x);
            proof {
                lemma_json_members_push(prev, gx, 0);
                assert(s@.subrange(i as int, j1 as int) =~= spec_json_members(out@, 0));
            }
            j = j1;
        },
    }
    while j < n && char_at(s, j) == ','
        invariant
            i <= j <= n,
            out@.len() >= 1,
            s@.subrange(i as int, j as int) == spec_json_members(out@, 0),
        decreases n - j,
    {
        match parse_member(s, j + 1) {
            None => {
                return None;
            },
            Some((x, j2)) => {
                
                let ghost prev = out@;
                let ghost gx = x;
                out.push(x);
                proof {
                    lemma_json_members_push(prev, gx, 0);
                    assert(s@.subrange(j as int, j + 1) =~= ","@);
                    lemma_subrange_split(s@, i as int, j as int, j + 1);
                    lemma_subrange_split(s@, i as int, j + 1, j2 as int);
                    assert(s@.subrange(i as int, j2 as int) =~= spec_json_members(out@, 0));
                }
                j = j2;
            },
        }
    }
    Some((out, j))
}

proof fn lemma_json_variables_push(ms: Seq<VariableInfo>, x: VariableInfo, k: int)
    requires
        0 <= k <= ms.len(),
    ensures
        spec_json_variables(ms.push(x), k) == spec_json_variables(ms, k) + (if ms.len() > 0 {
            ","@
        } else {
            Seq::<char>::empty()
        }) + spec_json_variable(x),
    decreases ms.len() - k,
{
    let sep_new: Seq<char> = if ms.len() > 0 {
        ","@
    } else {
        Seq::empty()
    };
    let sep_k: Seq<char> = if k > 0 {
        ","@
    } else {
        Seq::empty()
    };
    if k == ms.len() {
        assert(ms.push(x)[k] == x);
        assert(spec_json_variables(ms.push(x), k) == (sep_k + spec_json_variable(x)) + spec_json_variables(ms.push(x), k + 1));
        assert(spec_json_variables(ms.push(x), k + 1) == Seq::<char>::empty());
        lemma_add_empty(sep_k + spec_json_variable(x));
        assert(spec_json_variables(ms, k) == Seq::<char>::empty());
        lemma_empty_add(sep_new);
        assert(spec_json_variables(ms, k) + sep_new == sep_new);
        assert(sep_k == sep_new);
        assert(spec_json_variables(ms.push(x), k) == spec_json_variables(ms, k) + sep_new + spec_json_variable(x));
    } else {
        lemma_json_variables_push(ms, x, k + 1);
        assert(ms.push(x)[k] == ms[k]);
        let a = sep_k + spec_json_variable(ms[k]);
        let b = spec_json_variables(ms, k + 1);
        let c = sep_new;
        let d = spec_json_variable(x);
        assert(spec_json_variables(ms.push(x), k) == a + spec_json_variables(ms.push(x), k + 1));
        assert(spec_json_variables(ms.push(x), k + 1) == (b + c) + d);
        lemma_add_assoc(a, b + c, d);
        lemma_add_assoc(a, b, c);
        assert(spec_json_variables(ms, k) == a + b);
        assert(spec_json_variables(ms.push(x), k) == ((a + b) + c) + d);
    }
}

#[verifier::loop_isolation(false)]
fn parse_variables(s: &Vec<char>, i: usize) -> (r: Option<(Vec<VariableInfo>, usize)>)
    ensures
        r matches Some((vs, j)) ==> {
            &&& i <= j <= s@.len()
            &&& s@.subrange(i as int, j as int) == spec_json_variables(vs@, 0)
        },
    
{
    proof {
        reveal_strlit(",");
    }
    let n = s.len();
    let mut out: Vec<VariableInfo> = Vec::new();
    let mut j = i;
    if j < n && char_at(s, j) == ']' {
        assert(s@.subrange(i as int, i as int) =~= spec_json_variables(out@, 0));
        return Some((out, j));
    }
    match parse_variable(s, j) {
        None => {
            return None;
        },
        Some((x, j1)) => {
            
            let ghost prev = out@;
            let ghost gx = x;
            out.push(x);
            proof {
                lemma_json_variables_push(prev, gx, 0);
                assert(s@.subrange(i as int, j1 as int) =~= spec_json_variables(out@, 0));
            }
            j = j1;
        },
    }
    while j < n && char_at(s, j) == ','
        invariant
            i <= j <= n,
            out@.len() >= 1,
            s@.subrange(i as int, j as int) == spec_json_variables(out@, 0),
        decreases n - j,
    {
        match parse_variable(s, j + 1) {
            None => {
                return None;
            },
            Some((x, j2)) => {
                
                let ghost prev = out@;
                let ghost gx = x;
                out.push(x);
                proof {
                    lemma_json_variables_push(prev, gx, 0);
                    assert(s@.subrange(j as int, j + 1) =~= ","@);
                    lemma_subrange_split(s@, i as int, j as int, j + 1);
                    lemma_subrange_split(s@, i as int, j + 1, j2 as int);
                    assert(s@.subrange(i as int, j2 as int) =~= spec_json_variables(out@, 0));
                }
                j = j2;
            },
        }
    }
    Some((out, j))
}

#[verifier::rlimit(100)]
proof fn lemma_json_functions_push(ms: Seq<FunctionInfo>, x: FunctionInfo, k: int)
    requires
        0 <= k <= ms.len(),
    ensures
        spec_json_functions(ms.push(x), k) == spec_json_functions(ms, k) + (if ms.len() > 0 {
            ","@
        } else {
            Seq::<char>::empty()
        }) + spec_json_function(x),
    decreases ms.len() - k,
{
    let sep_new: Seq<char> = if ms.len() > 0 {
        ","@
    } else {
        Seq::empty()
    };
    let sep_k: Seq<char> = if k > 0 {
        ","@
    } else {
        Seq::empty()
    };
    if k == ms.len() {
        assert(ms.push(x)[k] == x);
        assert(spec_json_functions(ms.push(x), k) == (sep_k + spec_json_function(x)) + spec_json_functions(ms.push(x), k + 1));
        assert(spec_json_functions(ms.push(x), k + 1) == Seq::<char>::empty());
        lemma_add_empty(sep_k + spec_json_function(x));
        assert(spec_json_functions(ms, k) == Seq::<char>::empty());
        lemma_empty_add(sep_new);
        assert(spec_json_functions(ms, k) + sep_new == sep_new);
        assert(sep_k == sep_new);
        assert(spec_json_functions(ms.push(x), k) == spec_json_functions(ms, k) + sep_new + spec_json_function(x));
    } else {
        lemma_json_functions_push(ms, x, k + 1);
        assert(ms.push(x)[k] == ms[k]);
        let a = sep_k + spec_json_function(ms[k]);
        let b = spec_json_functions(ms, k + 1);
        let c = sep_new;
        let d = spec_json_function(x);
        assert(spec_json_functions(ms.push(x), k) == a + spec_json_functions(ms.push(x), k + 1));
        assert(spec_json_functions(ms.push(x), k + 1) == (b + c) + d);
        lemma_add_assoc(a, b + c, d);
        lemma_add_assoc(a, b, c);
        assert(spec_json_functions(ms, k) == a + b);
        assert(spec_json_functions(ms.push(x), k) == ((a + b) + c) + d);
    }
}

#[verifier::rlimit(100)]
#[verifier::loop_isolation(false)]
fn parse_functions(s: &Vec<char>, i: usize) -> (r: Option<(Vec<FunctionInfo>, usize)>)
    ensures
        r matches Some((vs, j)) ==> {
            &&& i <= j <= s@.len()
            &&& s@.subrange(i as int, j as int) == spec_json_functions(vs@, 0)
        },
    
{
    proof {
        reveal_strlit(",");
    }
    let n = s.len();
    let mut out: Vec<FunctionInfo> = Vec::new();
    let mut j = i;
    if j < n && char_at(s, j) == ']' {
        assert(s@.subrange(i as int, i as int) =~= spec_json_functions(out@, 0));
        return Some((out, j));
    }
    match parse_function(s, j) {
        None => {
            return None;
        },
        Some((x, j1)) => {
            
            let ghost prev = out@;
            let ghost gx = x;
            out.push(x);
            proof {
                lemma_json_functions_push(prev, gx, 0);
                assert(s@.subrange(i as int, j1 as int) =~= spec_json_functions(out@, 0));
            }
            j = j1;
        },
    }
    while j < n && char_at(s, j) == ','
        invariant
            i <= j <= n,
            out@.len() >= 1,
            s@.subrange(i as int, j as int) == spec_json_functions(out@, 0),
        decreases n - j,
    {
        match parse_function(s, j + 1) {
            None => {
                return None;
            },
            Some((x, j2)) => {
                
                let ghost prev = out@;
                let ghost gx = x;
                out.push(x);
                proof {
                    lemma_json_functions_push(prev, gx, 0);
                    assert(s@.subrange(j as int, j + 1) =~= ","@);
                    lemma_subrange_split(s@, i as int, j as int, j + 1);
                    lemma_subrange_split(s@, i as int, j + 1, j2 as int);
                    assert(s@.subrange(i as int, j2 as int) =~= spec_json_functions(out@, 0));
                }
                j = j2;
            },
        }
    }
    Some((out, j))
}

proof fn lemma_json_strings_push(ms: Seq<String>, x: String, k: int)
    requires
        0 <= k <= ms.len(),
    ensures
        spec_json_strings(ms.push(x), k) == spec_json_strings(ms, k) + (if ms.len() > 0 {
            ","@
        } else {
            Seq::<char>::empty()
        }) + spec_json_string(x@),
    decreases ms.len() - k,
{
    let sep_new: Seq<char> = if ms.len() > 0 {
        ","@
    } else {
        Seq::empty()
    };
    let sep_k: Seq<char> = if k > 0 {
        ","@
    } else {
        Seq::empty()
    };
    if k == ms.len() {
        assert(ms.push(x)[k] == x);
        assert(spec_json_strings(ms.push(x), k) == (sep_k + spec_json_string(x@)) + spec_json_strings(ms.push(x), k + 1));
        assert(spec_json_strings(ms.push(x), k + 1) == Seq::<char>::empty());
        lemma_add_empty(sep_k + spec_json_string(x@));
        assert(spec_json_strings(ms, k) == Seq::<char>::empty());
        lemma_empty_add(sep_new);
        assert(spec_json_strings(ms, k) + sep_new == sep_new);
        assert(sep_k == sep_new);
        assert(spec_json_strings(ms.push(x), k) == spec_json_strings(ms, k) + sep_new + spec_json_string(x@));
    } else {
        lemma_json_strings_push(ms, x, k + 1);
        assert(ms.push(x)[k] == ms[k]);
        let a = sep_k + spec_json_string(ms[k]@);
        let b = spec_json_strings(ms, k + 1);
        let c = sep_new;
        let d = spec_json_string(x@);
        assert(spec_json_strings(ms.push(x), k) == a + spec_json_strings(ms.push(x), k + 1));
        assert(spec_json_strings(ms.push(x), k + 1) == (b + c) + d);
        lemma_add_assoc(a, b + c, d);
        lemma_add_assoc(a, b, c);
        assert(spec_json_strings(ms, k) == a + b);
        assert(spec_json_strings(ms.push(x), k) == ((a + b) + c) + d);
    }
}

#[verifier::loop_isolation(false)]
fn parse_strings(s: &Vec<char>, i: usize) -> (r: Option<(Vec<String>, usize)>)
    ensures
        r matches Some((vs, j)) ==> {
            &&& i <= j <= s@.len()
            &&& s@.subrange(i as int, j as int) == spec_json_strings(vs@, 0)
        },
    
{
    proof {
        reveal_strlit(",");
    }
    let n = s.len();
    let mut out: Vec<String> = Vec::new();
    let mut j = i;
    if j < n && char_at(s, j) == ']' {
        assert(s@.subrange(i as int, i as int) =~= spec_json_strings(out@, 0));
        return Some((out, j));
    }
    match parse_json_string(s, j) {
        None => {
            return None;
        },
        Some((x, j1)) => {
            
            let ghost prev = out@;
            let ghost gx = x;
            out.push(x);
            proof {
                lemma_json_strings_push(prev, gx, 0);
                assert(s@.subrange(i as int, j1 as int) =~= spec_json_strings(out@, 0));
            }
            j = j1;
        },
    }
    while j < n && char_at(s, j) == ','
        invariant
            i <= j <= n,
            out@.len() >= 1,
            s@.subrange(i as int, j as int) == spec_json_strings(out@, 0),
        decreases n - j,
    {
        match parse_json_string(s, j + 1) {
            None => {
                return None;
            },
            Some((x, j2)) => {
                
                let ghost prev = out@;
                let ghost gx = x;
                out.push(x);
                proof {
                    lemma_json_strings_push(prev, gx, 0);
                    assert(s@.subrange(j as int, j + 1) =~= ","@);
                    lemma_subrange_split(s@, i as int, j as int, j + 1);
                    lemma_subrange_split(s@, i as int, j + 1, j2 as int);
                    assert(s@.subrange(i as int, j2 as int) =~= spec_json_strings(out@, 0));
                }
                j = j2;
            },
        }
    }
    Some((out, j))
}

proof fn lemma_json_types_push(ms: Seq<TypeInfo>, x: TypeInfo, k: int)
    requires
        0 <= k <= ms.len(),
    ensures
        spec_json_types(ms.push(x), k) == spec_json_types(ms, k) + (if ms.len() > 0 {
            ","@
        } else {
            Seq::<char>::empty()
        }) + spec_json_type(x),
    decreases ms.len() - k,
{
    let sep_new: Seq<char> = if ms.len() > 0 {
        ","@
    } else {
        Seq::empty()
    };
    let sep_k: Seq<char> = if k > 0 {
        ","@
    } else {
        Seq::empty()
    };
    if k == ms.len() {
        assert(ms.push(x)[k] == x);
        assert(spec_json_types(ms.push(x), k) == (sep_k + spec_json_type(x)) + spec_json_types(ms.push(x), k + 1));
        assert(spec_json_types(ms.push(x), k + 1) == Seq::<char>::empty());
        lemma_add_empty(sep_k + spec_json_type(x));
        assert(spec_json_types(ms, k) == Seq::<char>::empty());
        lemma_empty_add(sep_new);
        assert(spec_json_types(ms, k) + sep_new == sep_new);
        assert(sep_k == sep_new);
        assert(spec_json_types(ms.push(x), k) == spec_json_types(ms, k) + sep_new + spec_json_type(x));
    } else {
        lemma_json_types_push(ms, x, k + 1);
        assert(ms.push(x)[k] == ms[k]);
        let a = sep_k + spec_json_type(ms[k]);
        let b = spec_json_types(ms, k + 1);
        let c = sep_new;
        let d = spec_json_type(x);
        assert(spec_json_types(ms.push(x), k) == a + spec_json_types(ms.push(x), k + 1));
        assert(spec_json_types(ms.push(x), k + 1) == (b + c) + d);
        lemma_add_assoc(a, b + c, d);
        lemma_add_assoc(a, b, c);
        assert(spec_json_types(ms, k) == a + b);
        assert(spec_json_types(ms.push(x), k) == ((a + b) + c) + d);
    }
}

#[verifier::loop_isolation(false)]
fn parse_types(s: &Vec<char>, i: usize) -> (r: Option<(Vec<TypeInfo>, usize)>)
    ensures
        r matches Some((vs, j)) ==> {
            &&& i <= j <= s@.len()
            &&& s@.subrange(i as int, j as int) == spec_json_types(vs@, 0)
        },
    
{
    proof {
        reveal_strlit(",");
    }
    let n = s.len();
    let mut out: Vec<TypeInfo> = Vec::new();
    let mut j = i;
    if j < n && char_at(s, j) == ']' {
        assert(s@.subrange(i as int, i as int) =~= spec_json_types(out@, 0));
        return Some((out, j));
    }
    match parse_type(s, j) {
        None => {
            return None;
        },
        Some((x, j1)) => {
            
            let ghost prev = out@;
            let ghost gx = x;
            out.push(x);
            proof {
                lemma_json_types_push(prev, gx, 0);
                assert(s@.subrange(i as int, j1 as int) =~= spec_json_types(out@, 0));
            }
            j = j1;
        },
    }
    while j < n && char_at(s, j) == ','
        invariant
            i <= j <= n,
            out@.len() >= 1,
            s@.subrange(i as int, j as int) == spec_json_types(out@, 0),
        decreases n - j,
    {
        match parse_type(s, j + 1) {
            None => {
                return None;
            },
            Some((x, j2)) => {
                
                let ghost prev = out@;
                let ghost gx = x;
                out.push(x);
                proof {
                    lemma_json_types_push(prev, gx, 0);
                    assert(s@.subrange(j as int, j + 1) =~= ","@);
                    lemma_subrange_split(s@, i as int, j as int, j + 1);
                    lemma_subrange_split(s@, i as int, j + 1, j2 as int);
                    assert(s@.subrange(i as int, j2 as int) =~= spec_json_types(out@, 0));
                }
                j = j2;
            },
        }
    }
    Some((out, j))
}

proof fn lemma_json_threads_push(ms: Seq<ThreadInfo>, x: ThreadInfo, k: int)
    requires
        0 <= k <= ms.len(),
    ensures
        spec_json_threads(ms.push(x), k) == spec_json_threads(ms, k) + (if ms.len() > 0 {
            ","@
        } else {
            Seq::<char>::empty()
        }) + spec_json_thread(x),
    decreases ms.len() - k,
{
    let sep_new: Seq<char> = if ms.len() > 0 {
        ","@
    } else {
        Seq::empty()
    };
    let sep_k: Seq<char> = if k > 0 {
        ","@
    } else {
        Seq::empty()
    };
    if k == ms.len() {
        assert(ms.push(x)[k] == x);
        assert(spec_json_threads(ms.push(x), k) == (sep_k + spec_json_thread(x)) + spec_json_threads(ms.push(x), k + 1));
        assert(spec_json_threads(ms.push(x), k + 1) == Seq::<char>::empty());
        lemma_add_empty(sep_k + spec_json_thread(x));
        assert(spec_json_threads(ms, k) == Seq::<char>::empty());
        lemma_empty_add(sep_new);
        assert(spec_json_threads(ms, k) + sep_new == sep_new);
        assert(sep_k == sep_new);
        assert(spec_json_threads(ms.push(x), k) == spec_json_threads(ms, k) + sep_new + spec_json_thread(x));
    } else {
        lemma_json_threads_push(ms, x, k + 1);
        assert(ms.push(x)[k] == ms[k]);
        let a = sep_k + spec_json_thread(ms[k]);
        let b = spec_json_threads(ms, k + 1);
        let c = sep_new;
        let d = spec_json_thread(x);
        assert(spec_json_threads(ms.push(x), k) == a + spec_json_threads(ms.push(x), k + 1));
        assert(spec_json_threads(ms.push(x), k + 1) == (b + c) + d);
        lemma_add_assoc(a, b + c, d);
        lemma_add_assoc(a, b, c);
        assert(spec_json_threads(ms, k) == a + b);
        assert(spec_json_threads(ms.push(x), k) == ((a + b) + c) + d);
    }
}

#[verifier::loop_isolation(false)]
fn parse_threads(s: &Vec<char>, i: usize) -> (r: Option<(Vec<ThreadInfo>, usize)>)
    ensures
        r matches Some((vs, j)) ==> {
            &&& i <= j <= s@.len()
            &&& s@.subrange(i as int, j as int) == spec_json_threads(vs@, 0)
        },
    
{
    proof {
        reveal_strlit(",");
    }
    let n = s.len();
    let mut out: Vec<ThreadInfo> = Vec::new();
    let mut j = i;
    if j < n && char_at(s, j) == ']' {
        assert(s@.subrange(i as int, i as int) =~= spec_json_threads(out@, 0));
        return Some((out, j));
    }
    match parse_thread(s, j) {
        None => {
            return None;
        },
        Some((x, j1)) => {
            
            let ghost prev = out@;
            let ghost gx = x;
            out.push(x);
            proof {
                lemma_json_threads_push(prev, gx, 0);
                assert(s@.subrange(i as int, j1 as int) =~= spec_json_threads(out@, 0));
            }
            j = j1;
        },
    }
    while j < n && char_at(s, j) == ','
        invariant
            i <= j <= n,
            out@.len() >= 1,
            s@.subrange(i as int, j as int) == spec_json_threads(out@, 0),
        decreases n - j,
    {
        match parse_thread(s, j + 1) {
            None => {
                return None;
            },
            Some((x, j2)) => {
                
                let ghost prev = out@;
                let ghost gx = x;
                out.push(x);
                proof {
                    lemma_json_threads_push(prev, gx, 0);
                    assert(s@.subrange(j as int, j + 1) =~= ","@);
                    lemma_subrange_split(s@, i as int, j as int, j + 1);
                    lemma_subrange_split(s@, i as int, j + 1, j2 as int);
                    assert(s@.subrange(i as int, j2 as int) =~= spec_json_threads(out@, 0));
                }
                j = j2;
            },
        }
    }
    Some((out, j))
}

proof fn lemma_json_bytes_push(ms: Seq<u8>, x: u8, k: int)
    requires
        0 <= k <= ms.len(),
    ensures
        spec_json_bytes(ms.push(x), k) == spec_json_bytes(ms, k) + (if ms.len() > 0 {
            ","@
        } else {
            Seq::<char>::empty()
        }) + spec_dec(x as int),
    decreases ms.len() - k,
{
    let sep_new: Seq<char> = if ms.len() > 0 {
        ","@
    } else {
        Seq::empty()
    };
    let sep_k: Seq<char> = if k > 0 {
        ","@
    } else {
        Seq::empty()
    };
    if k == ms.len() {
        assert(ms.push(x)[k] == x);
        assert(spec_json_bytes(ms.push(x), k) == (sep_k + spec_dec(x as int)) + spec_json_bytes(ms.push(x), k + 1));
        assert(spec_json_bytes(ms.push(x), k + 1) == Seq::<char>::empty());
        lemma_add_empty(sep_k + spec_dec(x as int));
        assert(spec_json_bytes(ms, k) == Seq::<char>::empty());
        lemma_empty_add(sep_new);
        assert(spec_json_bytes(ms, k) + sep_new == sep_new);
        assert(sep_k == sep_new);
        assert(spec_json_bytes(ms.push(x), k) == spec_json_bytes(ms, k) + sep_new + spec_dec(x as int));
    } else {
        lemma_json_bytes_push(ms, x, k + 1);
        assert(ms.push(x)[k] == ms[k]);
        let a = sep_k + spec_dec(ms[k] as int);
        let b = spec_json_bytes(ms, k + 1);
        let c = sep_new;
        let d = spec_dec(x as int);
        assert(spec_json_bytes(ms.push(x), k) == a + spec_json_bytes(ms.push(x), k + 1));
        assert(spec_json_bytes(ms.push(x), k + 1) == (b + c) + d);
        lemma_add_assoc(a, b + c, d);
        lemma_add_assoc(a, b, c);
        assert(spec_json_bytes(ms, k) == a + b);
        assert(spec_json_bytes(ms.push(x), k) == ((a + b) + c) + d);
    }
}

#[verifier::loop_isolation(false)]
fn parse_bytes(s: &Vec<char>, i: usize) -> (r: Option<(Vec<u8>, usize)>)
    ensures
        r matches Some((vs, j)) ==> {
            &&& i <= j <= s@.len()
            &&& s@.subrange(i as int, j as int) == spec_json_bytes(vs@, 0)
        },
    
{
    proof {
        reveal_strlit(",");
    }
    let n = s.len();
    let mut out: Vec<u8> = Vec::new();
    let mut j = i;
    if j < n && char_at(s, j) == ']' {
        assert(s@.subrange(i as int, i as int) =~= spec_json_bytes(out@, 0));
        return Some((out, j));
    }
    match parse_u64(s, j) {
        None => {
            return None;
        },
        Some((x, j1)) => {
            if x > 255 {
                return None;
            }
            let x: u8 = x as u8;
            let ghost prev = out@;
            let ghost gx = x;
            out.push(x);
            proof {
                lemma_json_bytes_push(prev, gx, 0);
                assert(s@.subrange(i as int, j1 as int) =~= spec_json_bytes(out@, 0));
            }
            j = j1;
        },
    }
    while j < n && char_at(s, j) == ','
        invariant
            i <= j <= n,
            out@.len() >= 1,
            s@.subrange(i as int, j as int) == spec_json_bytes(out@, 0),
        decreases n - j,
    {
        match parse_u64(s, j + 1) {
            None => {
                return None;
            },
            Some((x, j2)) => {
                if x > 255 {
                return None;
            }
            let x: u8 = x as u8;
                let ghost prev = out@;
                let ghost gx = x;
                out.push(x);
                proof {
                    lemma_json_bytes_push(prev, gx, 0);
                    assert(s@.subrange(j as int, j + 1) =~= ","@);
                    lemma_subrange_split(s@, i as int, j as int, j + 1);
                    lemma_subrange_split(s@, i as int, j + 1, j2 as int);
                    assert(s@.subrange(i as int, j2 as int) =~= spec_json_bytes(out@, 0));
                }
                j = j2;
            },
        }
    }
    Some((out, j))
}


fn parse_member(s: &Vec<char>, i: usize) -> (r: Option<(MemberInfo, usize)>)
    ensures
        r matches Some((v, j)) ==> {
            &&& i < j <= s@.len()
            &&& s@.subrange(i as int, j as int) == spec_json_member(v)
        },
    decreases s@.len() - i, 0int,
{
    let j0 = match expect_lit(s, i, "{\"name\":") {
        None => {
            return None;
        },
        Some(j) => j,
    };
    let (name, j1) = match parse_json_string(s, j0) {
        None => {
            return None;
        },
        Some(x) => x,
    };
    let j2 = match expect_lit(s, j1, ",\"offset\":") {
        None => {
            return None;
        },
        Some(j) => j,
    };
    let (offset, j3) = match parse_u64(s, j2) {
        None => {
            return None;
        },
        Some(x) => x,
    };
    let j4 = match expect_lit(s, j3, ",\"type_info\":") {
        None => {
            return None;
        },
        Some(j) => j,
    };
    let (type_info, j5) = match parse_type(s, j4) {
        None => {
            return None;
        },
        Some(x) => x,
    };
    let j6 = match expect_lit(s, j5, "}") {
        None => {
            return None;
        },
        Some(j) => j,
    };
    let v = MemberInfo { name, offset, type_info };
    proof {
        lemma_subrange_split(s@, i as int, j0 as int, j1 as int);
        lemma_subrange_split(s@, i as int, j1 as int, j2 as int);
        lemma_subrange_split(s@, i as int, j2 as int, j3 as int);
        lemma_subrange_split(s@, i as int, j3 as int, j4 as int);
        lemma_subrange_split(s@, i as int, j4 as int, j5 as int);
        lemma_subrange_split(s@, i as int, j5 as int, j6 as int);
    }
    Some((v, j6))
}

#[verifier::rlimit(50)]
fn parse_type(s: &Vec<char>, i: usize) -> (r: Option<(TypeInfo, usize)>)
    ensures
        r matches Some((v, j)) ==> {
            &&& i < j <= s@.len()
            &&& s@.subrange(i as int, j as int) == spec_json_type(v)
        },
    decreases s@.len() - i, 2int,
{
    let j0 = match expect_lit(s, i, "{\"name\":") {
        None => {
            return None;
        },
        Some(j) => j,
    };
    let (name, j1) = match parse_json_string(s, j0) {
        None => {
            return None;
        },
        Some(x) => x,
    };
    let j2 = match expect_lit(s, j1, ",\"size\":") {
        None => {
            return None;
        },
        Some(j) => j,
    };
    let (size, j3) = match parse_opt_u64(s, j2) {
        None => {
            return None;
        },
        Some(x) => x,
    };
    let j4 = match expect_lit(s, j3, ",\"kind\":") {
        None => {
            return None;
        },
        Some(j) => j,
    };
    let (kind, j5) = match parse_json_string(s, j4) {
        None => {
            return None;
        },
        Some(x) => x,
    };
    let j6 = match expect_lit(s, j5, ",\"members\":[") {
        None => {
            return None;
        },
        Some(j) => j,
    };
    let (members, j7) = match parse_members(s, j6) {
        None => {
            return None;
        },
        Some(x) => x,
    };
    let j8 = match expect_lit(s, j7, "]}") {
        None => {
            return None;
        },
        Some(j) => j,
    };
    let v = TypeInfo { name, size, kind, members };
    proof {
        lemma_subrange_split(s@, i as int, j0 as int, j1 as int);
        lemma_subrange_split(s@, i as int, j1 as int, j2 as int);
        lemma_subrange_split(s@, i as int, j2 as int, j3 as int);
        lemma_subrange_split(s@, i as int, j3 as int, j4 as int);
        lemma_subrange_split(s@, i as int, j4 as int, j5 as int);
        lemma_subrange_split(s@, i as int, j5 as int, j6 as int);
        lemma_subrange_split(s@, i as int, j6 as int, j7 as int);
        lemma_subrange_split(s@, i as int, j7 as int, j8 as int);
    }
    Some((v, j8))
}

fn parse_opt_type(s: &Vec<char>, i: usize) -> (r: Option<(Option<TypeInfo>, usize)>)
    ensures
        r matches Some((v, j)) ==> {
            &&& i < j <= s@.len()
            &&& s@.subrange(i as int, j as int) == spec_json_opt_type(v)
        },
{
    match expect_lit(s, i, "null") {
        Some(j) => {
            proof {
                reveal_strlit("null");
            }
            Some((None, j))
        },
        None => {
            match parse_type(s, i) {
                None => None,
                Some((t, j)) => Some((Some(t), j)),
            }
        },
    }
}

#[verifier::rlimit(50)]
fn parse_variable(s: &Vec<char>, i: usize) -> (r: Option<(VariableInfo, usize)>)
    ensures
        r matches Some((v, j)) ==> {
            &&& i < j <= s@.len()
            &&& s@.subrange(i as int, j as int) == spec_json_variable(v)
        },
    
{
    let j0 = match expect_lit(s, i, "{\"name\":") {
        None => {
            return None;
        },
        Some(j) => j,
    };
    let (name, j1) = match parse_json_string(s, j0) {
        None => {
            return None;
        },
        Some(x) => x,
    };
    let j2 = match expect_lit(s, j1, ",\"address\":") {
        None => {
            return None;
        },
        Some(j) => j,
    };
    let (address, j3) = match parse_opt_u64(s, j2) {
        None => {
            return None;
        },
        Some(x) => x,
    };
    let j4 = match expect_lit(s, j3, ",\"offset\":") {
        None => {
            return None;
        },
        Some(j) => j,
    };
    let (offset, j5) = match parse_opt_i64(s, j4) {
        None => {
            return None;
        },
        Some(x) => x,
    };
    let j6 = match expect_lit(s, j5, ",\"type_info\":") {
        None => {
            return None;
        },
        Some(j) => j,
    };
    let (type_info, j7) = match parse_type(s, j6) {
        None => {
            return None;
        },
        Some(x) => x,
    };
    let j8 = match expect_lit(s, j7, ",\"scope\":") {
        None => {
            return None;
        },
        Some(j) => j,
    };
    let (scope, j9) = match parse_json_string(s, j8) {
        None => {
            return None;
        },
        Some(x) => x,
    };
    let j10 = match expect_lit(s, j9, "}") {
        None => {
            return None;
        },
        Some(j) => j,
    };
    let v = VariableInfo { name, address, offset, type_info, scope };
    proof {
        lemma_subrange_split(s@, i as int, j0 as int, j1 as int);
        lemma_subrange_split(s@, i as int, j1 as int, j2 as int);
        lemma_subrange_split(s@, i as int, j2 as int, j3 as int);
        lemma_subrange_split(s@, i as int, j3 as int, j4 as int);
        lemma_subrange_split(s@, i as int, j4 as int, j5 as int);
        lemma_subrange_split(s@, i as int, j5 as int, j6 as int);
        lemma_subrange_split(s@, i as int, j6 as int, j7 as int);
        lemma_subrange_split(s@, i as int, j7 as int, j8 as int);
        lemma_subrange_split(s@, i as int, j8 as int, j9 as int);
        lemma_subrange_split(s@, i as int, j9 as int, j10 as int);
    }
    Some((v, j10))
}

#[verifier::rlimit(50)]
fn parse_function(s: &Vec<char>, i: usize) -> (r: Option<(FunctionInfo, usize)>)
    ensures
        r matches Some((v, j)) ==> {
            &&& i < j <= s@.len()
            &&& s@.subrange(i as int, j as int) == spec_json_function(v)
        },
    
{
    let j0 = match expect_lit(s, i, "{\"name\":") {
        None => {
            return None;
        },
        Some(j) => j,
    };
    let (name, j1) = match parse_json_string(s, j0) {
        None => {
            return None;
        },
        Some(x) => x,
    };
    let j2 = match expect_lit(s, j1, ",\"address\":") {
        None => {
            return None;
        },
        Some(j) => j,
    };
    let (address, j3) = match parse_u64(s, j2) {
        None => {
            return None;
        },
        Some(x) => x,
    };
    let j4 = match expect_lit(s, j3, ",\"size\":") {
        None => {
            return None;
        },
        Some(j) => j,
    };
    let (size, j5) = match parse_opt_u64(s, j4) {
        None => {
            return None;
        },
        Some(x) => x,
    };
    let j6 = match expect_lit(s, j5, ",\"parameters\":[") {
        None => {
            return None;
        },
        Some(j) => j,
    };
    let (parameters, j7) = match parse_variables(s, j6) {
        None => {
            return None;
        },
        Some(x) => x,
    };
    let j8 = match expect_lit(s, j7, "],\"return_type\":") {
        None => {
            return None;
        },
        Some(j) => j,
    };
    let (return_type, j9) = match parse_opt_type(s, j8) {
        None => {
            return None;
        },
        Some(x) => x,
    };
    let j10 = match expect_lit(s, j9, "}") {
        None => {
            return None;
        },
        Some(j) => j,
    };
    let v = FunctionInfo { name, address, size, parameters, return_type };
    proof {
        lemma_subrange_split(s@, i as int, j0 as int, j1 as int);
        lemma_subrange_split(s@, i as int, j1 as int, j2 as int);
        lemma_subrange_split(s@, i as int, j2 as int, j3 as int);
        lemma_subrange_split(s@, i as int, j3 as int, j4 as int);
        lemma_subrange_split(s@, i as int, j4 as int, j5 as int);
        lemma_subrange_split(s@, i as int, j5 as int, j6 as int);
        lemma_subrange_split(s@, i as int, j6 as int, j7 as int);
        lemma_subrange_split(s@, i as int, j7 as int, j8 as int);
        lemma_subrange_split(s@, i as int, j8 as int, j9 as int);
        lemma_subrange_split(s@, i as int, j9 as int, j10 as int);
    }
    Some((v, j10))
}

fn parse_thread(s: &Vec<char>, i: usize) -> (r: Option<(ThreadInfo, usize)>)
    ensures
        r matches Some((v, j)) ==> {
            &&& i < j <= s@.len()
            &&& s@.subrange(i as int, j as int) == spec_json_thread(v)
        },
    
{
    let j0 = match expect_lit(s, i, "{\"thread_id\":") {
        None => {
            return None;
        },
        Some(j) => j,
    };
    let (thread_id, j1) = match parse_u64(s, j0) {
        None => {
            return None;
        },
        Some(x) => x,
    };
    let j2 = match expect_lit(s, j1, ",\"registers\":[") {
        None => {
            return None;
        },
        Some(j) => j,
    };
    let (registers, j3) = match parse_bytes(s, j2) {
        None => {
            return None;
        },
        Some(x) => x,
    };
    let j4 = match expect_lit(s, j3, "]}") {
        None => {
            return None;
        },
        Some(j) => j,
    };
    let v = ThreadInfo { thread_id, registers };
    proof {
        lemma_subrange_split(s@, i as int, j0 as int, j1 as int);
        lemma_subrange_split(s@, i as int, j1 as int, j2 as int);
        lemma_subrange_split(s@, i as int, j2 as int, j3 as int);
        lemma_subrange_split(s@, i as int, j3 as int, j4 as int);
    }
    Some((v, j4))
}

#[verifier::rlimit(100)]
fn parse_elf(s: &Vec<char>, i: usize) -> (r: Option<(ElfInfo, usize)>)
    ensures
        r matches Some((v, j)) ==> {
            &&& i < j <= s@.len()
            &&& s@.subrange(i as int, j as int) == spec_json_elf(v)
        },
    
{
    let j0 = match expect_lit(s, i, "{\"architecture\":") {
        None => {
            return None;
        },
        Some(j) => j,
    };
    let (architecture, j1) = match parse_json_string(s, j0) {
        None => {
            return None;
        },
        Some(x) => x,
    };
    let j2 = match expect_lit(s, j1, ",\"entry_point\":") {
        None => {
            return None;
        },
        Some(j) => j,
    };
    let (entry_point, j3) = match parse_u64(s, j2) {
        None => {
            return None;
        },
        Some(x) => x,
    };
    let j4 = match expect_lit(s, j3, ",\"sections\":[") {
        None => {
            return None;
        },
        Some(j) => j,
    };
    let (sections, j5) = match parse_strings(s, j4) {
        None => {
            return None;
        },
        Some(x) => x,
    };
    let j6 = match expect_lit(s, j5, "],\"file_type\":") {
        None => {
            return None;
        },
        Some(j) => j,
    };
    let (file_type, j7) = match parse_json_string(s, j6) {
        None => {
            return None;
        },
        Some(x) => x,
    };
    let j8 = match expect_lit(s, j7, ",\"endianness\":") {
        None => {
            return None;
        },
        Some(j) => j,
    };
    let (endianness, j9) = match parse_json_string(s, j8) {
        None => {
            return None;
        },
        Some(x) => x,
    };
    let j10 = match expect_lit(s, j9, ",\"functions\":[") {
        None => {
            return None;
        },
        Some(j) => j,
    };
    let (functions, j11) = match parse_functions(s, j10) {
        None => {
            return None;
        },
        Some(x) => x,
    };
    let j12 = match expect_lit(s, j11, "],\"variables\":[") {
        None => {
            return None;
        },
        Some(j) => j,
    };
    let (variables, j13) = match parse_variables(s, j12) {
        None => {
            return None;
        },
        Some(x) => x,
    };
    let j14 = match expect_lit(s, j13, "],\"types\":[") {
        None => {
            return None;
        },
        Some(j) => j,
    };
    let (types, j15) = match parse_types(s, j14) {
        None => {
            return None;
        },
        Some(x) => x,
    };
    let j16 = match expect_lit(s, j15, "]}") {
        None => {
            return None;
        },
        Some(j) => j,
    };
    let v = ElfInfo { architecture, entry_point, sections, file_type, endianness, functions, variables, types };
    proof {
        lemma_subrange_split(s@, i as int, j0 as int, j1 as int);
        lemma_subrange_split(s@, i as int, j1 as int, j2 as int);
        lemma_subrange_split(s@, i as int, j2 as int, j3 as int);
        lemma_subrange_split(s@, i as int, j3 as int, j4 as int);
        lemma_subrange_split(s@, i as int, j4 as int, j5 as int);
        lemma_subrange_split(s@, i as int, j5 as int, j6 as int);
        lemma_subrange_split(s@, i as int, j6 as int, j7 as int);
        lemma_subrange_split(s@, i as int, j7 as int, j8 as int);
        lemma_subrange_split(s@, i as int, j8 as int, j9 as int);
        lemma_subrange_split(s@, i as int, j9 as int, j10 as int);
        lemma_subrange_split(s@, i as int, j10 as int, j11 as int);
        lemma_subrange_split(s@, i as int, j11 as int, j12 as int);
        lemma_subrange_split(s@, i as int, j12 as int, j13 as int);
        lemma_subrange_split(s@, i as int, j13 as int, j14 as int);
        lemma_subrange_split(s@, i as int, j14 as int, j15 as int);
        lemma_subrange_split(s@, i as int, j15 as int, j16 as int);
    }
    Some((v, j16))
}

fn parse_core(s: &Vec<char>, i: usize) -> (r: Option<(CoredumpInfo, usize)>)
    ensures
        r matches Some((v, j)) ==> {
            &&& i < j <= s@.len()
            &&& s@.subrange(i as int, j as int) == spec_json_core(v)
        },
    
{
    let j0 = match expect_lit(s, i, "{\"architecture\":") {
        None => {
            return None;
        },
        Some(j) => j,
    };
    let (architecture, j1) = match parse_json_string(s, j0) {
        None => {
            return None;
        },
        Some(x) => x,
    };
    let j2 = match expect_lit(s, j1, ",\"threads\":[") {
        None => {
            return None;
        },
        Some(j) => j,
    };
    let (threads, j3) = match parse_threads(s, j2) {
        None => {
            return None;
        },
        Some(x) => x,
    };
    let j4 = match expect_lit(s, j3, "]}") {
        None => {
            return None;
        },
        Some(j) => j,
    };
    let v = CoredumpInfo { architecture, threads };
    proof {
        lemma_subrange_split(s@, i as int, j0 as int, j1 as int);
        lemma_subrange_split(s@, i as int, j1 as int, j2 as int);
        lemma_subrange_split(s@, i as int, j2 as int, j3 as int);
        lemma_subrange_split(s@, i as int, j3 as int, j4 as int);
    }
    Some((v, j4))
}

fn parse_opt_elf(s: &Vec<char>, i: usize) -> (r: Option<(Option<ElfInfo>, usize)>)
    ensures
        r matches Some((v, j)) ==> {
            &&& i < j <= s@.len()
            &&& s@.subrange(i as int, j as int) == (match v {
                Option::None => "null"@,
                Option::Some(info) => spec_json_elf(info),
            })
        },
{
    match expect_lit(s, i, "null") {
        Some(j) => {
            proof {
                reveal_strlit("null");
            }
            Some((None, j))
        },
        None => {
            match parse_elf(s, i) {
                None => None,
                Some((info, j)) => Some((Some(info), j)),
            }
        },
    }
}

fn parse_opt_core(s: &Vec<char>, i: usize) -> (r: Option<(Option<CoredumpInfo>, usize)>)
    ensures
        r matches Some((v, j)) ==> {
            &&& i < j <= s@.len()
            &&& s@.subrange(i as int, j as int) == (match v {
                Option::None => "null"@,
                Option::Some(ci) => spec_json_core(ci),
            })
        },
{
    match expect_lit(s, i, "null") {
        Some(j) => {
            proof {
                reveal_strlit("null");
            }
            Some((None, j))
        },
        None => {
            match parse_core(s, i) {
                None => None,
                Some((ci, j)) => Some((Some(ci), j)),
            }
        },
    }
}

fn parse_result(s: &Vec<char>, i: usize) -> (r: Option<(AnalysisResult, usize)>)
    ensures
        r matches Some((v, j)) ==> {
            &&& i < j <= s@.len()
            &&& s@.subrange(i as int, j as int) == spec_json_result(v)
        },
    
{
    let j0 = match expect_lit(s, i, "{\"elf_info\":") {
        None => {
            return None;
        },
        Some(j) => j,
    };
    let (elf_info, j1) = match parse_opt_elf(s, j0) {
        None => {
            return None;
        },
        Some(x) => x,
    };
    let j2 = match expect_lit(s, j1, ",\"coredump_info\":") {
        None => {
            return None;
        },
        Some(j) => j,
    };
    let (coredump_info, j3) = match parse_opt_core(s, j2) {
        None => {
            return None;
        },
        Some(x) => x,
    };
    let j4 = match expect_lit(s, j3, "}") {
        None => {
            return None;
        },
        Some(j) => j,
    };
    let v = AnalysisResult { elf_info, coredump_info };
    proof {
        lemma_subrange_split(s@, i as int, j0 as int, j1 as int);
        lemma_subrange_split(s@, i as int, j1 as int, j2 as int);
        lemma_subrange_split(s@, i as int, j2 as int, j3 as int);
        lemma_subrange_split(s@, i as int, j3 as int, j4 as int);
    }
    Some((v, j4))
}

/// Parse a result value back from its wire form. The parser accepts
/// exactly the canonical renderings [`to_json`] produces: whenever
/// it returns a value, rendering that value reproduces the input
/// character for character, so nothing is lost or mangled in
/// between.
pub fn from_json(s: &str) -> (r: Option<AnalysisResult>)
    ensures
        r matches Some(v) ==> s@ == spec_json_result(v),
{
    let cs = str_to_chars(s);
    match parse_result(&cs, 0) {
        None => None,
        Some((v, j)) => {
            if j == cs.len() {
                proof {
                    assert(cs@.subrange(0, j as int) =~= cs@);
                }
                Some(v)
            } else {
                None
            }
        },
    }
}

} // verus!
