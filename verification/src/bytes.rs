use vstd::prelude::*;

verus! {

// Multi-byte integer fields of ELF and DWARF structures are stored at
// fixed byte offsets, little- or big-endian. The spec functions below
// say what value a field holds as plain arithmetic over the bytes;
// the exec functions are proved to return exactly that value.

pub open spec fn spec_u16_at(b: Seq<u8>, off: int, le: bool) -> u16
    recommends
        0 <= off,
        off + 2 <= b.len(),
{
    if le {
        (b[off] + b[off + 1] * 0x100) as u16
    } else {
        (b[off + 1] + b[off] * 0x100) as u16
    }
}

pub open spec fn spec_u32_at(b: Seq<u8>, off: int, le: bool) -> u32
    recommends
        0 <= off,
        off + 4 <= b.len(),
{
    if le {
        (b[off] + b[off + 1] * 0x100 + b[off + 2] * 0x1_0000 + b[off + 3] * 0x100_0000) as u32
    } else {
        (b[off + 3] + b[off + 2] * 0x100 + b[off + 1] * 0x1_0000 + b[off] * 0x100_0000) as u32
    }
}

pub open spec fn spec_u64_at(b: Seq<u8>, off: int, le: bool) -> u64
    recommends
        0 <= off,
        off + 8 <= b.len(),
{
    if le {
        (spec_u32_at(b, off, true) + spec_u32_at(b, off + 4, true) * 0x1_0000_0000) as u64
    } else {
        (spec_u32_at(b, off + 4, false) + spec_u32_at(b, off, false) * 0x1_0000_0000) as u64
    }
}

pub fn read_u16_at(b: &[u8], off: usize, le: bool) -> (r: u16)
    requires
        off + 2 <= b@.len(),
    ensures
        r == spec_u16_at(b@, off as int, le),
{
    let n = b.len();
    assert(off + 2 <= n);
    let b0 = *vstd::slice::slice_index_get(b, off) as u16;
    let b1 = *vstd::slice::slice_index_get(b, off + 1) as u16;
    if le {
        b0 + b1 * 0x100
    } else {
        b1 + b0 * 0x100
    }
}

pub fn read_u32_at(b: &[u8], off: usize, le: bool) -> (r: u32)
    requires
        off + 4 <= b@.len(),
    ensures
        r == spec_u32_at(b@, off as int, le),
{
    let n = b.len();
    assert(off + 4 <= n);
    let b0 = *vstd::slice::slice_index_get(b, off) as u32;
    let b1 = *vstd::slice::slice_index_get(b, off + 1) as u32;
    let b2 = *vstd::slice::slice_index_get(b, off + 2) as u32;
    let b3 = *vstd::slice::slice_index_get(b, off + 3) as u32;
    if le {
        b0 + b1 * 0x100 + b2 * 0x1_0000 + b3 * 0x100_0000
    } else {
        b3 + b2 * 0x100 + b1 * 0x1_0000 + b0 * 0x100_0000
    }
}

pub fn read_u64_at(b: &[u8], off: usize, le: bool) -> (r: u64)
    requires
        off + 8 <= b@.len(),
    ensures
        r == spec_u64_at(b@, off as int, le),
{
    let n = b.len();
    assert(off + 8 <= n);
    let lo = read_u32_at(b, off, le) as u64;
    let hi = read_u32_at(b, off + 4, le) as u64;
    if le {
        lo + hi * 0x1_0000_0000
    } else {
        hi + lo * 0x1_0000_0000
    }
}

pub fn read_u8_at(b: &[u8], off: usize) -> (r: u8)
    requires
        off < b@.len(),
    ensures
        r == b@[off as int],
{
    *vstd::slice::slice_index_get(b, off)
}

// Unsigned LEB128, the variable-length integer encoding DWARF uses
// for abbreviation codes, attribute names and forms, and several
// attribute values. Each byte carries seven payload bits, low bits
// first; the high bit marks continuation. Decoding fails (`None`) on
// a truncated run, on an encoding longer than ten bytes, and on a
// value that does not fit in 64 bits.

pub open spec fn spec_uleb_at(b: Seq<u8>, pos: int, shift: nat, acc: u64) -> Option<(u64, int)>
    decreases b.len() - pos,
{
    if pos < 0 || pos >= b.len() || shift > 63 {
        None
    } else {
        let byte = b[pos];
        let low = (byte & 0x7f) as u64;
        let shifted = (low << shift) as u64;
        if shifted >> shift != low {
            None
        } else {
            let acc2 = acc | shifted;
            if byte & 0x80 == 0 {
                Some((acc2, pos + 1))
            } else {
                spec_uleb_at(b, pos + 1, shift + 7, acc2)
            }
        }
    }
}

pub open spec fn spec_uleb(b: Seq<u8>, pos: int) -> Option<(u64, int)> {
    spec_uleb_at(b, pos, 0, 0)
}

/// A successful LEB128 decode always consumes at least one byte and
/// stays inside the buffer.
pub proof fn lemma_uleb_at_advances(b: Seq<u8>, pos: int, shift: nat, acc: u64)
    ensures
        spec_uleb_at(b, pos, shift, acc) matches Some((v, p)) ==> pos < p <= b.len(),
    decreases b.len() - pos,
{
    if 0 <= pos < b.len() && shift <= 63 {
        let byte = b[pos];
        let low = (byte & 0x7f) as u64;
        if (low << shift) as u64 >> shift == low && byte & 0x80 != 0 {
            lemma_uleb_at_advances(b, pos + 1, shift + 7, acc | ((low << shift) as u64));
        }
    }
}

pub proof fn lemma_uleb_advances(b: Seq<u8>, pos: int)
    ensures
        spec_uleb(b, pos) matches Some((v, p)) ==> pos < p <= b.len(),
{
    lemma_uleb_at_advances(b, pos, 0, 0);
}

fn read_uleb_at(b: &[u8], pos: usize, shift: u64, acc: u64) -> (r: Option<(u64, usize)>)
    ensures
        match r {
            Some((v, p)) => {
                &&& spec_uleb_at(b@, pos as int, shift as nat, acc) == Some((v, p as int))
                &&& pos < p <= b@.len()
            },
            None => spec_uleb_at(b@, pos as int, shift as nat, acc) is None,
        },
    decreases b@.len() - pos,
{
    if pos >= b.len() || shift > 63 {
        return None;
    }
    let byte = *vstd::slice::slice_index_get(b, pos);
    let low = (byte & 0x7f) as u64;
    let shifted = low << shift;
    if shifted >> shift != low {
        return None;
    }
    let acc2 = acc | shifted;
    if byte & 0x80 == 0 {
        Some((acc2, pos + 1))
    } else {
        read_uleb_at(b, pos + 1, shift + 7, acc2)
    }
}

/// Decode one unsigned LEB128 value starting at `pos`, returning the
/// value and the position just past its last byte.
pub fn read_uleb(b: &[u8], pos: usize) -> (r: Option<(u64, usize)>)
    ensures
        match r {
            Some((v, p)) => {
                &&& spec_uleb(b@, pos as int) == Some((v, p as int))
                &&& pos < p <= b@.len()
            },
            None => spec_uleb(b@, pos as int) is None,
        },
{
    read_uleb_at(b, pos, 0, 0)
}

// Signed LEB128 values appear only in positions this extraction
// skips, so all that is needed is where the run ends: the position
// just past the first byte without the continuation bit, within the
// same ten-byte cap unsigned decoding has.

pub open spec fn spec_leb_end(b: Seq<u8>, pos: int, budget: nat) -> Option<int>
    decreases budget,
{
    if pos < 0 || pos >= b.len() || budget == 0 {
        None
    } else if b[pos] & 0x80 == 0 {
        Some(pos + 1)
    } else {
        spec_leb_end(b, pos + 1, (budget - 1) as nat)
    }
}

/// A successful skip always consumes at least one byte and stays
/// inside the buffer.
pub proof fn lemma_leb_end_advances(b: Seq<u8>, pos: int, budget: nat)
    ensures
        spec_leb_end(b, pos, budget) matches Some(p) ==> pos < p <= b.len(),
    decreases budget,
{
    if 0 <= pos < b.len() && budget > 0 && b[pos] & 0x80 != 0 {
        lemma_leb_end_advances(b, pos + 1, (budget - 1) as nat);
    }
}

fn skip_leb_at(b: &[u8], pos: usize, budget: u64) -> (r: Option<usize>)
    ensures
        match r {
            Some(p) => {
                &&& spec_leb_end(b@, pos as int, budget as nat) == Some(p as int)
                &&& pos < p <= b@.len()
            },
            None => spec_leb_end(b@, pos as int, budget as nat) is None,
        },
    decreases budget,
{
    if pos >= b.len() || budget == 0 {
        return None;
    }
    let byte = *vstd::slice::slice_index_get(b, pos);
    if byte & 0x80 == 0 {
        Some(pos + 1)
    } else {
        skip_leb_at(b, pos + 1, budget - 1)
    }
}

/// The position just past one LEB128 run (signed or unsigned)
/// starting at `pos`; `None` on truncation or a run over ten bytes.
pub fn skip_leb(b: &[u8], pos: usize) -> (r: Option<usize>)
    ensures
        match r {
            Some(p) => {
                &&& spec_leb_end(b@, pos as int, 10) == Some(p as int)
                &&& pos < p <= b@.len()
            },
            None => spec_leb_end(b@, pos as int, 10) is None,
        },
{
    skip_leb_at(b, pos, 10)
}

} // verus!
