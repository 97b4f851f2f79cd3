//! Framing of data read from a script's linear memory.
//!
//! The only structured data crossing the sandbox boundary besides
//! scalars is the log message: a length-prefixed UTF-16 string.  The
//! message pointer `ptr` points at the first code unit; the four bytes
//! before it hold the number of code units, little-endian.  Everything
//! here is bounds-checked; a malformed frame yields `None` instead of
//! reading out of range.

use vstd::prelude::*;

verus! {

/// A `u16` assembled from two little-endian bytes.
pub open spec fn spec_u16_le(b0: u8, b1: u8) -> u16 {
    (b0 + b1 * 0x100) as u16
}

/// A `u32` assembled from four little-endian bytes.
pub open spec fn spec_u32_le(b0: u8, b1: u8, b2: u8, b3: u8) -> u32 {
    (b0 + b1 * 0x100 + b2 * 0x1_0000 + b3 * 0x100_0000) as u32
}

/// Reads a `u16` from two little-endian bytes.
pub fn u16_from_le_pair(b0: u8, b1: u8) -> (r: u16)
    ensures
        r == spec_u16_le(b0, b1),
{
    b0 as u16 + b1 as u16 * 0x100
}

/// Reads a `u32` from four little-endian bytes.
pub fn u32_from_le_quad(b0: u8, b1: u8, b2: u8, b3: u8) -> (r: u32)
    ensures
        r == spec_u32_le(b0, b1, b2, b3),
{
    b0 as u32 + b1 as u32 * 0x100 + b2 as u32 * 0x1_0000 + b3 as u32 * 0x100_0000
}

/// The number of UTF-16 code units a frame at `ptr` claims: the four
/// little-endian bytes just before the message.
pub open spec fn spec_msg_len(data: Seq<u8>, ptr: int) -> u32 {
    spec_u32_le(data[ptr - 4], data[ptr - 3], data[ptr - 2], data[ptr - 1])
}

/// Whether a frame at `ptr` lies fully inside `data`: the length prefix
/// fits before it and the claimed code units fit after it.
pub open spec fn spec_msg_in_bounds(data: Seq<u8>, ptr: int) -> bool {
    &&& 4 <= ptr <= data.len()
    &&& ptr + 2 * (spec_msg_len(data, ptr) as int) <= data.len()
}

/// The code units of the frame at `ptr`, each read little-endian.
pub open spec fn spec_msg_units(data: Seq<u8>, ptr: int) -> Seq<u16> {
    Seq::new(
        spec_msg_len(data, ptr) as nat,
        |i: int| spec_u16_le(data[ptr + 2 * i], data[ptr + 2 * i + 1]),
    )
}

/// Decodes the length-prefixed UTF-16 frame at `ptr`, returning its
/// code units, or `None` when the frame does not lie fully inside
/// `data`.  The embedding application turns the units into text.
pub fn read_log_message(data: &[u8], ptr: usize) -> (r: Option<Vec<u16>>)
    ensures
        match r {
            Some(units) => spec_msg_in_bounds(data@, ptr as int) && units@ == spec_msg_units(
                data@,
                ptr as int,
            ),
            None => !spec_msg_in_bounds(data@, ptr as int),
        },
{
    let dn = data.len();
    if ptr < 4 || ptr > dn {
        return None;
    }
    let len = u32_from_le_quad(data[ptr - 4], data[ptr - 3], data[ptr - 2], data[ptr - 1]);
    let len_usize = len as usize;
    let room = (dn - ptr) / 2;
    if len_usize > room {
        proof {
            assert(2 * room <= data@.len() - ptr);
            assert(!spec_msg_in_bounds(data@, ptr as int));
        }
        return None;
    }
    proof {
        assert(2 * (len as int) <= 2 * room);
    }
    let mut units: Vec<u16> = Vec::new();
    let mut j: usize = 0;
    while j < len_usize
        invariant
            dn == data@.len(),
            4 <= ptr <= dn,
            len == spec_msg_len(data@, ptr as int),
            len_usize == len as int,
            ptr + 2 * len_usize <= dn,
            0 <= j <= len_usize,
            units@.len() == j,
            forall|i: int|
                0 <= i < j ==> (#[trigger] units@[i]) == spec_u16_le(
                    data@[ptr + 2 * i],
                    data@[ptr + 2 * i + 1],
                ),
        decreases len_usize - j,
    {
        let u = u16_from_le_pair(data[ptr + 2 * j], data[ptr + 2 * j + 1]);
        units.push(u);
        j += 1;
    }
    proof {
        assert(units@ =~= spec_msg_units(data@, ptr as int));
    }
    Some(units)
}

} // verus!
