//! The bank entry decompressor: a bit stream read backwards, 32-bit
//! words at a time, driving a token decoder that writes the output
//! buffer from its high end toward its low end.

use vstd::prelude::*;

use crate::memlib::MemEntry;

verus! {

/// Why a bank entry failed to decode.
#[derive(Clone, Copy, Debug, PartialEq, Eq, Structural)]
pub enum UnpackError {
    /// The packed buffer breaks the format's framing: not longer than
    /// 8 bytes, length not a multiple of 4, or a destination smaller
    /// than the declared uncompressed size.
    FormatError,
    /// A mid-stream inconsistency: a back-reference reaching outside
    /// the decoded region, a token overshooting the declared size, or
    /// the bit stream running out of words.
    CorruptionError,
    /// The right number of bytes came out, but the checksum folded
    /// over the consumed words did not cancel to zero.
    ChecksumError,
}

/// The big-endian 32-bit word at byte offset `pos` of `data`.
pub open spec fn word_at(data: Seq<u8>, pos: int) -> u32 {
    ((data[pos] as u32) << 24u32) | ((data[pos + 1] as u32) << 16u32)
        | ((data[pos + 2] as u32) << 8u32) | (data[pos + 3] as u32)
}

/// Reads the big-endian 32-bit word stored at `buff[offset..offset + 4]`.
pub fn to_u32(buff: &Vec<u8>, offset: usize) -> (r: u32)
    requires
        offset + 4 <= buff@.len(),
    ensures
        r == word_at(buff@, offset as int),
{
    // the length, as a usize, bounds the index arithmetic below
    let _n: usize = buff.len();
    ((buff[offset] as u32) << 24u32) | ((buff[offset + 1] as u32) << 16u32)
        | ((buff[offset + 2] as u32) << 8u32) | (buff[offset + 3] as u32)
}

/// Cursor state of the backward bit reader: which word of the packed
/// buffer is loaded, how many of its bits are consumed, and the running
/// XOR fold over every word read so far.
pub struct BitStream {
    pub current_word_pos: usize,
    pub current_word: u32,
    pub current_bit_shift: u32,
    pub current_word_is_first: bool,
    pub crc: u32,
}

impl BitStream {
    /// The reader can keep going on `data`: the loaded word lies inside
    /// the buffer and the drain counter has not run past a word's end.
    /// The first word is never drained to bit 31 (see `spec_quirk`),
    /// which keeps its early-refill test within a legal shift range.
    pub open spec fn wf(self, data: Seq<u8>) -> bool {
        &&& self.current_word_pos + 4 <= data.len()
        &&& self.current_bit_shift <= 32
        &&& (self.current_word_is_first ==> self.current_bit_shift < 32)
    }

    /// The reader as first built over `data[..end]`: the word at
    /// `end - 4` is loaded and folded into the seeded checksum.
    pub open spec fn spec_init(data: Seq<u8>, end: int, seed: u32) -> BitStream {
        let w = word_at(data, end - 4);
        BitStream {
            current_word_pos: (end - 4) as usize,
            current_word: w,
            current_bit_shift: 0,
            current_word_is_first: true,
            crc: seed ^ w,
        }
    }

    /// The format drains the first loaded word only while its remaining
    /// value is above 1, not for a full 32 bits as with every later
    /// word. Whether that asymmetry was meant or inherited by the
    /// format's own tooling is an open question; the streams are
    /// encoded around it, so it is reproduced exactly here.
    pub open spec fn spec_quirk(self) -> BitStream {
        if self.current_word_is_first && (self.current_word >> self.current_bit_shift) <= 1 {
            BitStream {
                current_word_pos: self.current_word_pos,
                current_word: self.current_word,
                current_bit_shift: 32,
                current_word_is_first: false,
                crc: self.crc,
            }
        } else {
            self
        }
    }

    /// Loads the next lower word once the current one is drained,
    /// folding it into the checksum; `None` when no word is left.
    pub open spec fn spec_refill(self, data: Seq<u8>) -> Option<BitStream> {
        let b = self.spec_quirk();
        if b.current_bit_shift == 32 {
            if b.current_word_pos >= 4 {
                let w = word_at(data, b.current_word_pos - 4);
                Some(BitStream {
                    current_word_pos: (b.current_word_pos - 4) as usize,
                    current_word: w,
                    current_bit_shift: 0,
                    current_word_is_first: b.current_word_is_first,
                    crc: b.crc ^ w,
                })
            } else {
                None
            }
        } else {
            Some(b)
        }
    }

    /// One bit taken from the reader: the low bit of the (refilled)
    /// reservoir at the current drain position.
    pub open spec fn spec_next(self, data: Seq<u8>) -> Option<(u8, BitStream)> {
        match self.spec_refill(data) {
            Some(b) => Some((
                (((b.current_word >> b.current_bit_shift) & 1) as u8),
                BitStream {
                    current_word_pos: b.current_word_pos,
                    current_word: b.current_word,
                    current_bit_shift: (b.current_bit_shift + 1) as u32,
                    current_word_is_first: b.current_word_is_first,
                    crc: b.crc,
                },
            )),
            None => None,
        }
    }

    /// `n` bits taken in sequence, the first read landing in the
    /// highest position of the accumulated value.
    pub open spec fn spec_next_bits_acc(self, data: Seq<u8>, n: nat, acc: u32) -> Option<
        (u32, BitStream),
    >
        decreases n,
    {
        if n == 0 {
            Some((acc, self))
        } else {
            match self.spec_next(data) {
                Some(p) => p.1.spec_next_bits_acc(data, (n - 1) as nat, (acc << 1u32) | (p.0 as u32)),
                None => None,
            }
        }
    }

    pub open spec fn spec_next_bits(self, data: Seq<u8>, n: nat) -> Option<(u32, BitStream)> {
        self.spec_next_bits_acc(data, n, 0)
    }

    /// Builds the reader over `data[..end]`, loading the word at the
    /// high end as the first reservoir and folding it into `seed`.
    pub fn new(data: &Vec<u8>, end: usize, seed: u32) -> (r: BitStream)
        requires
            4 <= end <= data@.len(),
        ensures
            r == BitStream::spec_init(data@, end as int, seed),
            r.wf(data@),
    {
        let current_word_pos = end - 4;
        let current_word = to_u32(data, current_word_pos);
        BitStream {
            current_word_pos,
            current_word,
            current_bit_shift: 0,
            current_word_is_first: true,
            crc: seed ^ current_word,
        }
    }

    /// Pulls one bit, refilling the reservoir from the next lower word
    /// when the current one is drained. A reader that has no word left
    /// to load reports corruption instead of reading out of bounds.
    pub fn get_bit(&mut self, data: &Vec<u8>) -> (r: Result<u8, UnpackError>)
        requires
            old(self).wf(data@),
        ensures
            match old(self).spec_next(data@) {
                Some(p) => r == Ok::<u8, UnpackError>(p.0) && *final(self) == p.1
                    && p.1.wf(data@) && p.0 <= 1,
                None => r == Err::<u8, UnpackError>(UnpackError::CorruptionError),
            },
    {
        if self.current_word_is_first && (self.current_word >> self.current_bit_shift) <= 1 {
            self.current_word_is_first = false;
            self.current_bit_shift = 32;
        }
        if self.current_bit_shift == 32 {
            if self.current_word_pos < 4 {
                return Err(UnpackError::CorruptionError);
            }
            self.current_bit_shift = 0;
            self.current_word_pos = self.current_word_pos - 4;
            self.current_word = to_u32(data, self.current_word_pos);
            self.crc = self.crc ^ self.current_word;
        }
        let bit = ((self.current_word >> self.current_bit_shift) & 1) as u8;
        proof {
            let w = self.current_word;
            let s = self.current_bit_shift;
            assert((((w >> s) & 1) as u8) <= 1) by (bit_vector);
            assert(s == 31 ==> (w >> s) <= 1) by (bit_vector);
        }
        self.current_bit_shift = self.current_bit_shift + 1;
        Ok(bit)
    }

    /// Pulls `count` bits, most significant first, as the format's
    /// multi-bit length and offset fields are laid out.
    pub fn get_bits(&mut self, data: &Vec<u8>, count: usize) -> (r: Result<u32, UnpackError>)
        requires
            old(self).wf(data@),
            count <= 16,
        ensures
            match old(self).spec_next_bits(data@, count as nat) {
                Some(p) => r == Ok::<u32, UnpackError>(p.0) && *final(self) == p.1
                    && p.1.wf(data@) && p.0 < (1u32 << (count as u32)),
                None => r == Err::<u32, UnpackError>(UnpackError::CorruptionError),
            },
    {
        let ghost orig = *self;
        let mut bits: u32 = 0;
        let mut i: usize = 0;
        proof {
            assert(0u32 < (1u32 << 0u32)) by (bit_vector);
        }
        while i < count
            invariant
                self.wf(data@),
                i <= count,
                count <= 16,
                bits < (1u32 << (i as u32)),
                orig == *old(self),
                orig.spec_next_bits_acc(data@, count as nat, 0)
                    == self.spec_next_bits_acc(data@, (count - i) as nat, bits),
            decreases count - i,
        {
            let ghost pre = *self;
            let b = match self.get_bit(data) {
                Ok(b) => b,
                Err(e) => {
                    proof {
                        assert(pre.spec_next_bits_acc(data@, (count - i) as nat, bits)
                            == None::<(u32, BitStream)>);
                        assert(orig.spec_next_bits(data@, count as nat)
                            == None::<(u32, BitStream)>);
                    }
                    return Err(e);
                },
            };
            proof {
                let bv = b as u32;
                let iw = i as u32;
                assert(bv <= 1 && iw < 16 && bits < (1u32 << iw) ==> ((bits << 1u32) | bv) < (
                1u32 << ((iw + 1) as u32))) by (bit_vector);
            }
            bits = (bits << 1u32) | (b as u32);
            i = i + 1;
        }
        Ok(bits)
    }
}

/// `n` literal bytes pulled from the bit stream and written at
/// `pos - 1` downward; `None` when the output region or the bit
/// stream runs out first.
pub open spec fn spec_copy(
    bs: BitStream,
    data: Seq<u8>,
    out: Seq<u8>,
    pos: nat,
    n: nat,
) -> Option<(BitStream, Seq<u8>)>
    decreases n,
{
    if n == 0 {
        Some((bs, out))
    } else if pos == 0 {
        None
    } else {
        match bs.spec_next_bits(data, 8) {
            Some(p) => spec_copy(p.1, data, out.update(pos - 1, p.0 as u8), (pos - 1) as nat, (
            n - 1) as nat),
            None => None,
        }
    }
}

/// `n` bytes copied from `offset` positions above the write cursor,
/// one by one, at `pos - 1` downward; `None` when the cursor would
/// pass the low end or a source byte would lie at or above `top`,
/// the first byte decoded.
pub open spec fn spec_dup(out: Seq<u8>, pos: nat, n: nat, offset: u32, top: nat) -> Option<
    Seq<u8>,
>
    decreases n,
{
    if n == 0 {
        Some(out)
    } else if pos == 0 {
        None
    } else if pos - 1 + offset >= top {
        None
    } else {
        spec_dup(out.update(pos - 1, out[pos - 1 + offset]), (pos - 1) as nat, (n - 1) as nat,
            offset, top)
    }
}

/// Write cursor over the destination buffer: decoded bytes fill
/// `buff[..top]` from `top` toward 0, and `buff[pos..top]` is the
/// already-decoded output that back-references copy from.
pub struct BuffWriter {
    pub buff: Vec<u8>,
    pub pos: usize,
    pub top: usize,
}

impl BuffWriter {
    pub open spec fn wf(self) -> bool {
        self.pos <= self.top <= self.buff@.len()
    }

    /// Takes the destination buffer, with the cursor set to write the
    /// byte at `top - 1` first.
    pub fn new(buff: Vec<u8>, top: usize) -> (r: BuffWriter)
        requires
            top <= buff@.len(),
        ensures
            r == (BuffWriter { buff, pos: top, top }),
            r.wf(),
    {
        BuffWriter { pos: top, top, buff }
    }

    /// Copies `size` raw bytes out of the bit stream into the buffer,
    /// walking the cursor down.
    pub fn copy_bytes(&mut self, size: u32, bs: &mut BitStream, data: &Vec<u8>) -> (r: Result<
        (),
        UnpackError,
    >)
        requires
            old(self).wf(),
            old(bs).wf(data@),
        ensures
            final(self).top == old(self).top,
            final(self).buff@.len() == old(self).buff@.len(),
            final(self).pos <= old(self).pos,
            match spec_copy(*old(bs), data@, old(self).buff@, old(self).pos as nat, size as nat) {
                Some(p) => r == Ok::<(), UnpackError>(()) && *final(bs) == p.0 && final(bs).wf(
                data@) && final(self).buff@ == p.1 && final(self).pos + size == old(self).pos
                    && final(self).wf(),
                None => r == Err::<(), UnpackError>(UnpackError::CorruptionError),
            },
    {
        let ghost obs = *bs;
        let ghost ow = *self;
        let mut i: u32 = 0;
        while i < size
            invariant
                self.wf(),
                bs.wf(data@),
                self.top == ow.top,
                self.buff@.len() == ow.buff@.len(),
                i <= size,
                i <= ow.pos,
                self.pos == ow.pos - i,
                ow == *old(self),
                obs == *old(bs),
                spec_copy(obs, data@, ow.buff@, ow.pos as nat, size as nat) == spec_copy(
                    *bs,
                    data@,
                    self.buff@,
                    self.pos as nat,
                    (size - i) as nat,
                ),
            decreases size - i,
        {
            let ghost pre_bs = *bs;
            let ghost pre_buff = self.buff@;
            let ghost pre_pos = self.pos;
            if self.pos == 0 {
                proof {
                    assert(spec_copy(pre_bs, data@, pre_buff, 0, (size - i) as nat)
                        == None::<(BitStream, Seq<u8>)>);
                }
                return Err(UnpackError::CorruptionError);
            }
            let v = match bs.get_bits(data, 8) {
                Ok(v) => v,
                Err(e) => {
                    proof {
                        assert(spec_copy(pre_bs, data@, pre_buff, pre_pos as nat, (size - i) as nat)
                            == None::<(BitStream, Seq<u8>)>);
                    }
                    return Err(e);
                },
            };
            self.pos = self.pos - 1;
            self.buff[self.pos] = v as u8;
            i = i + 1;
        }
        Ok(())
    }

    /// Copies `size` already-decoded bytes from `offset` positions
    /// above the cursor, the overlapping-window copy of the format's
    /// back-reference tokens.
    pub fn duplicate_bytes(&mut self, size: u32, offset: u32) -> (r: Result<(), UnpackError>)
        requires
            old(self).wf(),
        ensures
            final(self).top == old(self).top,
            final(self).buff@.len() == old(self).buff@.len(),
            final(self).pos <= old(self).pos,
            match spec_dup(old(self).buff@, old(self).pos as nat, size as nat, offset, old(
                self,
            ).top as nat) {
                Some(o2) => r == Ok::<(), UnpackError>(()) && final(self).buff@ == o2 && final(
                self).pos + size == old(self).pos && final(self).wf(),
                None => r == Err::<(), UnpackError>(UnpackError::CorruptionError),
            },
    {
        let ghost ow = *self;
        let mut i: u32 = 0;
        while i < size
            invariant
                self.wf(),
                self.top == ow.top,
                self.buff@.len() == ow.buff@.len(),
                i <= size,
                i <= ow.pos,
                self.pos == ow.pos - i,
                ow == *old(self),
                spec_dup(ow.buff@, ow.pos as nat, size as nat, offset, ow.top as nat) == spec_dup(
                    self.buff@,
                    self.pos as nat,
                    (size - i) as nat,
                    offset,
                    self.top as nat,
                ),
            decreases size - i,
        {
            let ghost pre_buff = self.buff@;
            let ghost pre_pos = self.pos;
            if self.pos == 0 {
                proof {
                    assert(spec_dup(pre_buff, 0, (size - i) as nat, offset, ow.top as nat)
                        == None::<Seq<u8>>);
                }
                return Err(UnpackError::CorruptionError);
            }
            let p = self.pos - 1;
            if self.top - p <= offset as usize {
                proof {
                    assert(spec_dup(pre_buff, pre_pos as nat, (size - i) as nat, offset,
                        ow.top as nat) == None::<Seq<u8>>);
                }
                return Err(UnpackError::CorruptionError);
            }
            let v = self.buff[p + offset as usize];
            self.buff[p] = v;
            self.pos = p;
            i = i + 1;
        }
        Ok(())
    }
}

/// One token decoded control-bit-first, from reader state `bs` with
/// `pos` bytes still owed into `out[..top]`: the new reader state,
/// output, and bytes still owed. The four shapes: a control bit 0
/// then 0 is a short literal run of 1..=8 bytes; 0 then 1 a two-byte
/// back-reference with an 8-bit offset; 1 then a 2-bit selector picks
/// a 3-byte (9-bit offset) or 4-byte (10-bit offset) back-reference,
/// a 1..=256 byte back-reference with a 12-bit offset, or a 9..=264
/// byte literal run. A token owing more bytes than remain, a bad
/// offset, or a drained stream is corruption.
pub open spec fn spec_decode_step(
    bs: BitStream,
    data: Seq<u8>,
    out: Seq<u8>,
    pos: nat,
    top: nat,
) -> Result<(BitStream, Seq<u8>, nat), UnpackError> {
    {
        match bs.spec_next(data) {
            None => Err(UnpackError::CorruptionError),
            Some(p0) => if p0.0 == 0 {
                match p0.1.spec_next(data) {
                    None => Err(UnpackError::CorruptionError),
                    Some(p1) => if p1.0 == 0 {
                        match p1.1.spec_next_bits(data, 3) {
                            None => Err(UnpackError::CorruptionError),
                            Some(pl) => {
                                let n = pl.0 as nat + 1;
                                match spec_copy(pl.1, data, out, pos, n) {
                                    None => Err(UnpackError::CorruptionError),
                                    Some(pc) => if n <= pos {
                                        Ok((pc.0, pc.1, (pos - n) as nat))
                                    } else {
                                        Err(UnpackError::CorruptionError)
                                    },
                                }
                            },
                        }
                    } else {
                        match p1.1.spec_next_bits(data, 8) {
                            None => Err(UnpackError::CorruptionError),
                            Some(po) => match spec_dup(out, pos, 2, po.0, top) {
                                None => Err(UnpackError::CorruptionError),
                                Some(o2) => if 2 <= pos {
                                    Ok((po.1, o2, (pos - 2) as nat))
                                } else {
                                    Err(UnpackError::CorruptionError)
                                },
                            },
                        }
                    },
                }
            } else {
                match p0.1.spec_next_bits(data, 2) {
                    None => Err(UnpackError::CorruptionError),
                    Some(pc) => if pc.0 == 0 {
                        match pc.1.spec_next_bits(data, 9) {
                            None => Err(UnpackError::CorruptionError),
                            Some(po) => match spec_dup(out, pos, 3, po.0, top) {
                                None => Err(UnpackError::CorruptionError),
                                Some(o2) => if 3 <= pos {
                                    Ok((po.1, o2, (pos - 3) as nat))
                                } else {
                                    Err(UnpackError::CorruptionError)
                                },
                            },
                        }
                    } else if pc.0 == 1 {
                        match pc.1.spec_next_bits(data, 10) {
                            None => Err(UnpackError::CorruptionError),
                            Some(po) => match spec_dup(out, pos, 4, po.0, top) {
                                None => Err(UnpackError::CorruptionError),
                                Some(o2) => if 4 <= pos {
                                    Ok((po.1, o2, (pos - 4) as nat))
                                } else {
                                    Err(UnpackError::CorruptionError)
                                },
                            },
                        }
                    } else if pc.0 == 2 {
                        match pc.1.spec_next_bits(data, 8) {
                            None => Err(UnpackError::CorruptionError),
                            Some(pl) => {
                                let n = pl.0 as nat + 1;
                                match pl.1.spec_next_bits(data, 12) {
                                    None => Err(UnpackError::CorruptionError),
                                    Some(po) => match spec_dup(out, pos, n, po.0, top) {
                                        None => Err(UnpackError::CorruptionError),
                                        Some(o2) => if n <= pos {
                                            Ok((po.1, o2, (pos - n) as nat))
                                        } else {
                                            Err(UnpackError::CorruptionError)
                                        },
                                    },
                                }
                            },
                        }
                    } else {
                        match pc.1.spec_next_bits(data, 8) {
                            None => Err(UnpackError::CorruptionError),
                            Some(pl) => {
                                let n = pl.0 as nat + 9;
                                match spec_copy(pl.1, data, out, pos, n) {
                                    None => Err(UnpackError::CorruptionError),
                                    Some(pc2) => if n <= pos {
                                        Ok((pc2.0, pc2.1, (pos - n) as nat))
                                    } else {
                                        Err(UnpackError::CorruptionError)
                                    },
                                }
                            },
                        }
                    },
                }
            },
        }
    }
}

/// The token loop as a mathematical function: starting from reader
/// state `bs` with `pos` bytes still owed into `out[..top]`, take one
/// token at a time until nothing is owed. Every token emits at least
/// one byte, so the loop terminates; a step claiming otherwise could
/// only be corruption.
pub open spec fn spec_decode(
    bs: BitStream,
    data: Seq<u8>,
    out: Seq<u8>,
    pos: nat,
    top: nat,
) -> Result<(Seq<u8>, BitStream), UnpackError>
    decreases pos,
{
    if pos == 0 {
        Ok((out, bs))
    } else {
        match spec_decode_step(bs, data, out, pos, top) {
            Err(e) => Err(e),
            Ok(t) => if t.2 < pos {
                spec_decode(t.0, data, t.1, t.2, top)
            } else {
                Err(UnpackError::CorruptionError)
            },
        }
    }
}

/// The last word of a packed buffer: the declared uncompressed size.
pub open spec fn spec_declared_size(src: Seq<u8>) -> u32 {
    word_at(src, src.len() - 4)
}

/// The next-to-last word of a packed buffer: the embedded checksum.
pub open spec fn spec_embedded_crc(src: Seq<u8>) -> u32 {
    word_at(src, src.len() - 8)
}

/// What `unpack` returns: framing is checked first (length over 8 and
/// a multiple of 4, destination at least the declared size), then the
/// token loop runs, then the checksum fold over every consumed word,
/// seeded with the embedded checksum, must have cancelled to zero.
pub open spec fn spec_unpack(src: Seq<u8>, dst: Seq<u8>) -> Result<Seq<u8>, UnpackError> {
    if src.len() <= 8 || src.len() % 4 != 0 {
        Err(UnpackError::FormatError)
    } else if spec_declared_size(src) > dst.len() {
        Err(UnpackError::FormatError)
    } else {
        let size = spec_declared_size(src) as nat;
        let bs0 = BitStream::spec_init(src, src.len() - 8, spec_embedded_crc(src));
        match spec_decode(bs0, src, dst, size, size) {
            Ok(p) => if p.1.crc == 0 {
                Ok(p.0)
            } else {
                Err(UnpackError::ChecksumError)
            },
            Err(e) => Err(e),
        }
    }
}

/// Reads and executes one token: classifies it from its control bits
/// and runs the literal copy or back-reference it encodes, exactly as
/// `spec_decode_step` lays it down.
#[verifier::rlimit(100)]
fn decode_token(bs: &mut BitStream, w: &mut BuffWriter, src: &Vec<u8>) -> (r: Result<
    (),
    UnpackError,
>)
    requires
        old(bs).wf(src@),
        old(w).wf(),
        old(w).pos > 0,
    ensures
        final(w).top == old(w).top,
        final(w).buff@.len() == old(w).buff@.len(),
        final(w).pos <= old(w).pos,
        match spec_decode_step(*old(bs), src@, old(w).buff@, old(w).pos as nat,
            old(w).top as nat) {
            Ok(t) => r == Ok::<(), UnpackError>(()) && *final(bs) == t.0 && final(bs).wf(src@)
                && final(w).buff@ == t.1 && final(w).pos as nat == t.2 && t.2 < old(w).pos
                && final(w).wf(),
            Err(e) => r == Err::<(), UnpackError>(e),
        },
{
    let b0 = match bs.get_bit(src) {
        Ok(b) => b,
        Err(e) => {
            return Err(e);
        },
    };
    if b0 == 0 {
        let b1 = match bs.get_bit(src) {
            Ok(b) => b,
            Err(e) => {
                return Err(e);
            },
        };
        if b1 == 0 {
            // copy between 1 and 8 bytes
            let l = match bs.get_bits(src, 3) {
                Ok(v) => v,
                Err(e) => {
                    return Err(e);
                },
            };
            proof {
                assert(1u32 << 3u32 == 8) by (bit_vector);
            }
            let size = l + 1;
            match w.copy_bytes(size, bs, src) {
                Ok(()) => Ok(()),
                Err(e) => Err(e),
            }
        } else {
            // duplicate 2 bytes
            let offset = match bs.get_bits(src, 8) {
                Ok(v) => v,
                Err(e) => {
                    return Err(e);
                },
            };
            match w.duplicate_bytes(2, offset) {
                Ok(()) => Ok(()),
                Err(e) => Err(e),
            }
        }
    } else {
        let c = match bs.get_bits(src, 2) {
            Ok(v) => v,
            Err(e) => {
                return Err(e);
            },
        };
        if c == 0 {
            // duplicate 3 bytes
            let offset = match bs.get_bits(src, 9) {
                Ok(v) => v,
                Err(e) => {
                    return Err(e);
                },
            };
            match w.duplicate_bytes(3, offset) {
                Ok(()) => Ok(()),
                Err(e) => Err(e),
            }
        } else if c == 1 {
            // duplicate 4 bytes
            let offset = match bs.get_bits(src, 10) {
                Ok(v) => v,
                Err(e) => {
                    return Err(e);
                },
            };
            match w.duplicate_bytes(4, offset) {
                Ok(()) => Ok(()),
                Err(e) => Err(e),
            }
        } else if c == 2 {
            // duplicate between 1 and 256 bytes
            let l = match bs.get_bits(src, 8) {
                Ok(v) => v,
                Err(e) => {
                    return Err(e);
                },
            };
            proof {
                assert(1u32 << 8u32 == 256) by (bit_vector);
            }
            let size = l + 1;
            let offset = match bs.get_bits(src, 12) {
                Ok(v) => v,
                Err(e) => {
                    return Err(e);
                },
            };
            match w.duplicate_bytes(size, offset) {
                Ok(()) => Ok(()),
                Err(e) => Err(e),
            }
        } else {
            // copy between 9 and 264 bytes
            let l = match bs.get_bits(src, 8) {
                Ok(v) => v,
                Err(e) => {
                    return Err(e);
                },
            };
            proof {
                assert(1u32 << 8u32 == 256) by (bit_vector);
            }
            let size = l + 1 + 8;
            match w.copy_bytes(size, bs, src) {
                Ok(()) => Ok(()),
                Err(e) => Err(e),
            }
        }
    }
}

/// Decodes the packed buffer `src` into the first
/// `spec_declared_size(src@)` bytes of `dst`, leaving the rest of
/// `dst` as it was, exactly as `spec_unpack` lays it down.
pub fn unpack(src: &Vec<u8>, dst: Vec<u8>) -> (r: Result<Vec<u8>, UnpackError>)
    ensures
        match spec_unpack(src@, dst@) {
            Ok(o) => r matches Ok(v) && v@ == o,
            Err(e) => r == Err::<Vec<u8>, UnpackError>(e),
        },
{
    let n = src.len();
    if n <= 8 {
        return Err(UnpackError::FormatError);
    }
    if n % 4 != 0 {
        return Err(UnpackError::FormatError);
    }
    let data_size_pos = n - 4;
    let crc_pos = n - 8;
    let data_end = n - 8;
    let data_size = to_u32(src, data_size_pos);
    let expected_crc = to_u32(src, crc_pos);
    if data_size as usize > dst.len() {
        return Err(UnpackError::FormatError);
    }
    let ghost dst0 = dst@;
    let mut bs = BitStream::new(src, data_end, expected_crc);
    let mut w = BuffWriter::new(dst, data_size as usize);
    let mut failed = false;
    let mut err = UnpackError::CorruptionError;
    while !failed && w.pos > 0
        invariant
            failed ==> spec_unpack(src@, dst0) == Err::<Seq<u8>, UnpackError>(err),
            !failed ==> {
                &&& bs.wf(src@)
                &&& w.wf()
                &&& spec_unpack(src@, dst0) == (match spec_decode(bs, src@, w.buff@,
                    w.pos as nat, w.top as nat) {
                    Ok(p) => if p.1.crc == 0 {
                        Ok::<Seq<u8>, UnpackError>(p.0)
                    } else {
                        Err::<Seq<u8>, UnpackError>(UnpackError::ChecksumError)
                    },
                    Err(e) => Err::<Seq<u8>, UnpackError>(e),
                })
            },
        decreases w.pos + (if failed { 0int } else { 1int }),
    {
        match decode_token(&mut bs, &mut w, src) {
            Ok(()) => (),
            Err(e) => {
                failed = true;
                err = e;
            },
        }
    }
    if failed {
        return Err(err);
    }
    if bs.crc == 0 {
        Ok(w.buff)
    } else {
        Err(UnpackError::ChecksumError)
    }
}

/// A zero-filled buffer of `n` bytes.
fn zero_vec(n: usize) -> (v: Vec<u8>)
    ensures
        v@ == Seq::new(n as nat, |i: int| 0u8),
{
    let mut v: Vec<u8> = Vec::new();
    let mut i: usize = 0;
    while i < n
        invariant
            i <= n,
            v@ == Seq::new(i as nat, |j: int| 0u8),
        decreases n - i,
    {
        v.push(0);
        i = i + 1;
        proof {
            assert(v@ =~= Seq::new(i as nat, |j: int| 0u8));
        }
    }
    proof {
        assert(v@ =~= Seq::new(n as nat, |j: int| 0u8));
    }
    v
}

/// The bytes a catalog entry yields from the raw bytes stored for it:
/// stored and unpacked sizes equal means the bytes are raw and pass
/// through untouched; otherwise they are a packed buffer, decoded
/// into a fresh zero-filled buffer of the entry's unpacked size.
pub open spec fn spec_load_bank_entry(entry: MemEntry, raw: Seq<u8>) -> Result<
    Seq<u8>,
    UnpackError,
> {
    if entry.packed_size == entry.size {
        Ok(raw)
    } else {
        spec_unpack(raw, Seq::new(entry.size as nat, |i: int| 0u8))
    }
}

/// Produces the unpacked bytes of one catalog entry, given the
/// `entry.packed_size` bytes stored for it in its bank archive
/// (or, for a raw entry, the `entry.size` stored bytes).
pub fn load_bank_entry(entry: &MemEntry, raw: Vec<u8>) -> (r: Result<Vec<u8>, UnpackError>)
    ensures
        match spec_load_bank_entry(*entry, raw@) {
            Ok(o) => r matches Ok(v) && v@ == o,
            Err(e) => r == Err::<Vec<u8>, UnpackError>(e),
        },
        entry.packed_size == entry.size ==> (r matches Ok(v) && v@ == raw@),
        entry.packed_size != entry.size && r is Ok ==> (r matches Ok(v) && v@.len()
            == entry.size as nat),
{
    if entry.packed_size != entry.size {
        let dst = zero_vec(entry.size as usize);
        let r = unpack(&raw, dst);
        proof {
            match spec_unpack(raw@, dst@) {
                Ok(o) => lemma_unpack_emits_declared_size(raw@, dst@, o),
                Err(e) => {},
            }
        }
        r
    } else {
        Ok(raw)
    }
}

/// Decoding is deterministic: two decodes of the same packed buffer
/// into the same destination agree exactly, failure for failure and
/// byte for byte. The decoder keeps no state across calls.
pub proof fn lemma_unpack_deterministic(
    src: Seq<u8>,
    dst: Seq<u8>,
    r1: Result<Seq<u8>, UnpackError>,
    r2: Result<Seq<u8>, UnpackError>,
)
    requires
        r1 == spec_unpack(src, dst),
        r2 == spec_unpack(src, dst),
    ensures
        r1 == r2,
{
}

/// A literal run keeps the destination's length and touches nothing
/// at or above the write cursor.
proof fn lemma_copy_frame(
    bs: BitStream,
    data: Seq<u8>,
    out: Seq<u8>,
    pos: nat,
    n: nat,
    p: (BitStream, Seq<u8>),
)
    requires
        pos <= out.len(),
        spec_copy(bs, data, out, pos, n) == Some(p),
    ensures
        p.1.len() == out.len(),
        forall|j: int| pos <= j < out.len() ==> p.1[j] == out[j],
    decreases n,
{
    if n == 0 {
    } else if pos == 0 {
    } else {
        match bs.spec_next_bits(data, 8) {
            Some(q) => {
                let out2 = out.update(pos - 1, q.0 as u8);
                lemma_copy_frame(q.1, data, out2, (pos - 1) as nat, (n - 1) as nat, p);
                assert forall|j: int| pos <= j < out.len() implies p.1[j] == out[j] by {
                    assert(p.1[j] == out2[j]);
                    assert(out2[j] == out[j]);
                }
            },
            None => {},
        }
    }
}

/// A back-reference run keeps the destination's length and touches
/// nothing at or above the write cursor.
proof fn lemma_dup_frame(out: Seq<u8>, pos: nat, n: nat, offset: u32, top: nat, o2: Seq<u8>)
    requires
        pos <= out.len(),
        spec_dup(out, pos, n, offset, top) == Some(o2),
    ensures
        o2.len() == out.len(),
        forall|j: int| pos <= j < out.len() ==> o2[j] == out[j],
    decreases n,
{
    if n == 0 {
    } else if pos == 0 {
    } else if pos - 1 + offset >= top {
    } else {
        let out2 = out.update(pos - 1, out[pos - 1 + offset]);
        lemma_dup_frame(out2, (pos - 1) as nat, (n - 1) as nat, offset, top, o2);
        assert forall|j: int| pos <= j < out.len() implies o2[j] == out[j] by {
            assert(o2[j] == out2[j]);
            assert(out2[j] == out[j]);
        }
    }
}

/// One token keeps the destination's length and writes only between
/// the new cursor and the old one.
proof fn lemma_step_frame(
    bs: BitStream,
    data: Seq<u8>,
    out: Seq<u8>,
    pos: nat,
    top: nat,
    t: (BitStream, Seq<u8>, nat),
)
    requires
        pos <= out.len(),
        spec_decode_step(bs, data, out, pos, top) == Ok::<(BitStream, Seq<u8>, nat),
            UnpackError>(t),
    ensures
        t.1.len() == out.len(),
        forall|j: int| pos <= j < out.len() ==> t.1[j] == out[j],
{
    match bs.spec_next(data) {
        None => {},
        Some(p0) => if p0.0 == 0 {
            match p0.1.spec_next(data) {
                None => {},
                Some(p1) => if p1.0 == 0 {
                    match p1.1.spec_next_bits(data, 3) {
                        None => {},
                        Some(pl) => {
                            match spec_copy(pl.1, data, out, pos, pl.0 as nat + 1) {
                                None => {},
                                Some(pc) => {
                                    lemma_copy_frame(pl.1, data, out, pos, pl.0 as nat + 1, pc);
                                },
                            }
                        },
                    }
                } else {
                    match p1.1.spec_next_bits(data, 8) {
                        None => {},
                        Some(po) => {
                            match spec_dup(out, pos, 2, po.0, top) {
                                None => {},
                                Some(o2) => {
                                    lemma_dup_frame(out, pos, 2, po.0, top, o2);
                                },
                            }
                        },
                    }
                },
            }
        } else {
            match p0.1.spec_next_bits(data, 2) {
                None => {},
                Some(pc) => if pc.0 == 0 {
                    match pc.1.spec_next_bits(data, 9) {
                        None => {},
                        Some(po) => {
                            match spec_dup(out, pos, 3, po.0, top) {
                                None => {},
                                Some(o2) => {
                                    lemma_dup_frame(out, pos, 3, po.0, top, o2);
                                },
                            }
                        },
                    }
                } else if pc.0 == 1 {
                    match pc.1.spec_next_bits(data, 10) {
                        None => {},
                        Some(po) => {
                            match spec_dup(out, pos, 4, po.0, top) {
                                None => {},
                                Some(o2) => {
                                    lemma_dup_frame(out, pos, 4, po.0, top, o2);
                                },
                            }
                        },
                    }
                } else if pc.0 == 2 {
                    match pc.1.spec_next_bits(data, 8) {
                        None => {},
                        Some(pl) => {
                            match pl.1.spec_next_bits(data, 12) {
                                None => {},
                                Some(po) => {
                                    match spec_dup(out, pos, pl.0 as nat + 1, po.0, top) {
                                        None => {},
                                        Some(o2) => {
                                            lemma_dup_frame(out, pos, pl.0 as nat + 1, po.0, top,
                                                o2);
                                        },
                                    }
                                },
                            }
                        },
                    }
                } else {
                    match pc.1.spec_next_bits(data, 8) {
                        None => {},
                        Some(pl) => {
                            match spec_copy(pl.1, data, out, pos, pl.0 as nat + 9) {
                                None => {},
                                Some(pc2) => {
                                    lemma_copy_frame(pl.1, data, out, pos, pl.0 as nat + 9, pc2);
                                },
                            }
                        },
                    }
                },
            }
        },
    }
}

/// The whole token loop keeps the destination's length and writes
/// only below the starting cursor.
proof fn lemma_decode_frame(
    bs: BitStream,
    data: Seq<u8>,
    out: Seq<u8>,
    pos: nat,
    top: nat,
    p: (Seq<u8>, BitStream),
)
    requires
        pos <= out.len(),
        spec_decode(bs, data, out, pos, top) == Ok::<(Seq<u8>, BitStream), UnpackError>(p),
    ensures
        p.0.len() == out.len(),
        forall|j: int| pos <= j < out.len() ==> p.0[j] == out[j],
    decreases pos,
{
    if pos == 0 {
    } else {
        match spec_decode_step(bs, data, out, pos, top) {
            Err(e) => {},
            Ok(t) => if t.2 < pos {
                lemma_step_frame(bs, data, out, pos, top, t);
                lemma_decode_frame(t.0, data, t.1, t.2, top, p);
            } else {
            },
        }
    }
}

/// Exactly the declared number of bytes comes out of the token loop:
/// a successful decode returns a buffer of the destination's length
/// whose bytes at or above the declared uncompressed size are the
/// destination's own, so the loop filled `[0, declared size)` and
/// nothing else, and it ran until nothing was owed.
pub proof fn lemma_unpack_emits_declared_size(src: Seq<u8>, dst: Seq<u8>, out: Seq<u8>)
    requires
        spec_unpack(src, dst) == Ok::<Seq<u8>, UnpackError>(out),
    ensures
        out.len() == dst.len(),
        spec_declared_size(src) <= dst.len(),
        forall|j: int| spec_declared_size(src) <= j < dst.len() ==> out[j] == dst[j],
{
    let size = spec_declared_size(src) as nat;
    let bs0 = BitStream::spec_init(src, src.len() - 8, spec_embedded_crc(src));
    match spec_decode(bs0, src, dst, size, size) {
        Ok(p) => {
            lemma_decode_frame(bs0, src, dst, size, size, p);
        },
        Err(e) => {},
    }
}

/// A decode that succeeds did so with the checksum fold cancelled to
/// zero: the words consumed out of the packed buffer, folded over the
/// embedded checksum seed, XOR to nothing.
pub proof fn lemma_unpack_checksum_zero(src: Seq<u8>, dst: Seq<u8>)
    requires
        spec_unpack(src, dst) is Ok,
    ensures
        ({
            let size = spec_declared_size(src) as nat;
            let bs0 = BitStream::spec_init(src, src.len() - 8, spec_embedded_crc(src));
            &&& spec_decode(bs0, src, dst, size, size) is Ok
            &&& spec_decode(bs0, src, dst, size, size) matches Ok(p) && p.1.crc == 0
        }),
{
}

} // verus!
