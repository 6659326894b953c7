//! The catalog ("memlist"): a run of fixed 20-byte big-endian records
//! naming, for each asset, which bank archive holds its bytes, where
//! they start, and their packed and unpacked sizes.

use vstd::prelude::*;

use crate::bank::to_u32;
use crate::bank::word_at;

verus! {

/// Lifecycle state a catalog record declares for its asset. A record
/// whose state byte carries the end marker closes the catalog.
#[derive(Clone, Copy, Debug, PartialEq, Eq, Structural)]
pub enum MemEntryState {
    NotNeeded,
    Loaded,
    LoadMe,
    EndOfMemlist,
}

impl MemEntryState {
    /// The byte the catalog file stores for this state.
    pub open spec fn spec_code(self) -> u8 {
        match self {
            MemEntryState::NotNeeded => 0,
            MemEntryState::Loaded => 1,
            MemEntryState::LoadMe => 2,
            MemEntryState::EndOfMemlist => 255,
        }
    }

    pub fn code(self) -> (r: u8)
        ensures
            r == self.spec_code(),
    {
        match self {
            MemEntryState::NotNeeded => 0,
            MemEntryState::Loaded => 1,
            MemEntryState::LoadMe => 2,
            MemEntryState::EndOfMemlist => 255,
        }
    }
}

/// One catalog record, field for field as the file stores it.
#[derive(Clone, Copy, Debug, PartialEq, Eq, Structural)]
pub struct MemEntry {
    pub state: u8,
    pub type_: u8,
    pub buf_ptr: u16,
    pub unused_4: u16,
    pub rank_num: u8,
    pub bank_id: u8,
    pub bank_offset: u32,
    pub unused_c: u16,
    pub packed_size: u16,
    pub unused_10: u16,
    pub size: u16,
}

/// The big-endian 16-bit value at byte offset `pos` of `data`.
pub open spec fn spec_be16(data: Seq<u8>, pos: int) -> u16 {
    ((data[pos] as u16) << 8u16) | (data[pos + 1] as u16)
}

/// Reads the big-endian 16-bit value stored at `buff[offset..offset + 2]`.
pub fn be16(buff: &Vec<u8>, offset: usize) -> (r: u16)
    requires
        offset + 2 <= buff@.len(),
    ensures
        r == spec_be16(buff@, offset as int),
{
    // the length, as a usize, bounds the index arithmetic below
    let _n: usize = buff.len();
    ((buff[offset] as u16) << 8u16) | (buff[offset + 1] as u16)
}

/// The catalog record whose 20 bytes start at offset `i` of `data`.
pub open spec fn spec_entry_at(data: Seq<u8>, i: int) -> MemEntry {
    MemEntry {
        state: data[i],
        type_: data[i + 1],
        buf_ptr: spec_be16(data, i + 2),
        unused_4: spec_be16(data, i + 4),
        rank_num: data[i + 6],
        bank_id: data[i + 7],
        bank_offset: word_at(data, i + 8),
        unused_c: spec_be16(data, i + 12),
        packed_size: spec_be16(data, i + 14),
        unused_10: spec_be16(data, i + 16),
        size: spec_be16(data, i + 18),
    }
}

/// The records of `data` from offset `i` on: one every 20 bytes,
/// stopping at the end marker or where fewer than 20 bytes remain.
pub open spec fn spec_memlist(data: Seq<u8>, i: nat) -> Seq<MemEntry>
    decreases data.len() - i,
{
    if i + 20 > data.len() {
        Seq::empty()
    } else if data[i as int] == MemEntryState::EndOfMemlist.spec_code() {
        Seq::empty()
    } else {
        seq![spec_entry_at(data, i as int)] + spec_memlist(data, (i + 20) as nat)
    }
}

/// Parses the whole catalog out of the bytes of the memlist file.
pub fn load_memlist(data: &Vec<u8>) -> (entries: Vec<MemEntry>)
    ensures
        entries@ == spec_memlist(data@, 0),
{
    let n = data.len();
    let mut entries: Vec<MemEntry> = Vec::new();
    let mut i: usize = 0;
    while n - i >= 20 && data[i] != MemEntryState::EndOfMemlist.code()
        invariant
            i <= n,
            n == data@.len(),
            spec_memlist(data@, 0) == entries@ + spec_memlist(data@, i as nat),
        decreases n - i,
    {
        let ghost pre = entries@;
        let entry = MemEntry {
            state: data[i],
            type_: data[i + 1],
            buf_ptr: be16(data, i + 2),
            unused_4: be16(data, i + 4),
            rank_num: data[i + 6],
            bank_id: data[i + 7],
            bank_offset: to_u32(data, i + 8),
            unused_c: be16(data, i + 12),
            packed_size: be16(data, i + 14),
            unused_10: be16(data, i + 16),
            size: be16(data, i + 18),
        };
        entries.push(entry);
        i = i + 20;
        proof {
            assert(pre.push(entry) =~= pre + seq![entry]);
            assert((pre + seq![entry]) + spec_memlist(data@, i as nat) =~= pre + (seq![entry]
                + spec_memlist(data@, i as nat)));
        }
    }
    proof {
        assert(spec_memlist(data@, i as nat) =~= Seq::<MemEntry>::empty());
        assert(entries@ + Seq::<MemEntry>::empty() =~= entries@);
    }
    entries
}

} // verus!
