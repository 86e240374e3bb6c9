//! The MSI capability register block and the guest writes that change it.

use byteorder::{ByteOrder, LittleEndian};
use vstd::prelude::*;

verus! {

/// Message control: MSI enable.
pub const MSI_CTL_ENABLE: u16 = 0x1;

/// Message control: multiple message enable.
pub const MSI_CTL_MULTI_MSG_ENABLE: u16 = 0x70;

/// Message control: 64-bit address capable (read-only).
pub const MSI_CTL_64_BITS: u16 = 0x80;

/// Message control: per-vector masking capable (read-only).
pub const MSI_CTL_PER_VECTOR: u16 = 0x100;

/// The bits of message control that a guest write may change.
pub const MSI_CTL_WRITABLE: u16 = MSI_CTL_ENABLE | MSI_CTL_MULTI_MSG_ENABLE;

/// Offset of message control when written as a word.
pub const MSI_MSG_CTL_OFFSET: u64 = 0x2;

/// Offset of the lower message address.
pub const MSI_MSG_ADDR_LO_OFFSET: u64 = 0x4;

/// The bits of the lower message address that a guest write may change.
pub const MSI_MSG_ADDR_LO_MASK: u32 = 0xffff_fffc;

/// Value of a two-byte little-endian field.
pub open spec fn le_u16(b: Seq<u8>) -> u16 {
    (b[0] as int + 256 * b[1] as int) as u16
}

/// Value of a four-byte little-endian field.
pub open spec fn le_u32(b: Seq<u8>) -> u32 {
    (b[0] as int + 256 * b[1] as int + 65536 * b[2] as int + 16777216 * b[3] as int) as u32
}

/// Relies on byteorder's `LittleEndian::read_u16`: the first two bytes, least
/// significant first (it panics on a shorter slice).
#[verifier::external_body]
fn read_le_u16(b: &[u8]) -> (r: u16)
    requires
        b@.len() >= 2,
    ensures
        r == le_u16(b@),
{
    LittleEndian::read_u16(b)
}

/// Relies on byteorder's `LittleEndian::read_u32`: the first four bytes, least
/// significant first (it panics on a shorter slice).
#[verifier::external_body]
fn read_le_u32(b: &[u8]) -> (r: u32)
    requires
        b@.len() >= 4,
    ensures
        r == le_u32(b@),
{
    LittleEndian::read_u32(b)
}

/// Message control after a guest writes `value` to it: the writable bits come
/// from `value`, every other bit keeps its old value.
pub open spec fn merge_ctl(ctl: u16, value: u16) -> u16 {
    (ctl & !MSI_CTL_WRITABLE) | (value & MSI_CTL_WRITABLE)
}

/// Number of vectors that a multiple message enable encoding stands for.
pub open spec fn vector_count(ctl: u16) -> usize {
    let field = (ctl >> 4u16) & 7u16;
    if field == 0 {
        1
    } else if field == 1 {
        2
    } else if field == 2 {
        4
    } else if field == 3 {
        8
    } else if field == 4 {
        16
    } else if field == 5 {
        32
    } else {
        0
    }
}

/// Why a guest write to the capability was ignored.
#[derive(Clone, Copy, Debug, PartialEq, Eq, Structural)]
pub enum InvalidAccess {
    /// No field of the requested width sits at the offset.
    Offset,
    /// The write is neither two nor four bytes wide.
    Length,
}

/// The MSI capability register block.
#[derive(Clone, Copy, Debug, PartialEq, Eq, Structural)]
pub struct MsiCap {
    /// Message control: bit 0 enable, bits 1-3 multiple message capable,
    /// bits 4-6 multiple message enable, bit 7 64-bit address capable,
    /// bit 8 per-vector masking capable, bits 9-15 reserved.
    pub msg_ctl: u16,
    /// Lower message address; bits 0-1 are reserved.
    pub msg_addr_lo: u32,
    /// Upper message address, used with 64-bit addressing.
    pub msg_addr_hi: u32,
    /// Message data.
    pub msg_data: u16,
    /// Per-vector mask bits.
    pub mask_bits: u32,
    /// Per-vector pending bits.
    pub pending_bits: u32,
}

impl MsiCap {
    pub open spec fn is_64_bits(self) -> bool {
        self.msg_ctl & MSI_CTL_64_BITS == MSI_CTL_64_BITS
    }

    pub open spec fn has_vector_mask(self) -> bool {
        self.msg_ctl & MSI_CTL_PER_VECTOR == MSI_CTL_PER_VECTOR
    }

    pub open spec fn is_enabled(self) -> bool {
        self.msg_ctl & MSI_CTL_ENABLE == MSI_CTL_ENABLE
    }

    /// Whether vector `v` is masked: bit `v` of the mask bits, where masking is
    /// supported at all.
    pub open spec fn is_vector_masked(self, v: int) -> bool {
        self.has_vector_mask() && 0 <= v < 32 && (self.mask_bits >> (v as u32)) & 1u32 == 1u32
    }

    /// Size of the capability structure in bytes.
    pub open spec fn structure_size(self) -> u64 {
        (10 + (if self.is_64_bits() { 4int } else { 0int }) + (if self.has_vector_mask() {
            10int
        } else {
            0int
        })) as u64
    }

    /// Offset of message data: it follows the upper address where there is one.
    pub open spec fn msg_data_offset(self) -> u64 {
        if self.is_64_bits() {
            0xc
        } else {
            0x8
        }
    }

    /// Offset of the upper message address, present with 64-bit addressing only.
    pub open spec fn addr_hi_offset(self) -> Option<u64> {
        if self.is_64_bits() {
            Some(0x8)
        } else {
            None
        }
    }

    /// Offset of the mask bits, right after message data, present with
    /// per-vector masking only.
    pub open spec fn mask_bits_offset(self) -> Option<u64> {
        if self.has_vector_mask() {
            Some(if self.is_64_bits() { 0x10u64 } else { 0xcu64 })
        } else {
            None
        }
    }

    /// Whether a write of `len` bytes at `offset` reaches a field.
    pub open spec fn access_status(self, offset: u64, len: nat) -> Result<(), InvalidAccess> {
        if len == 2 {
            if offset == MSI_MSG_CTL_OFFSET || offset == self.msg_data_offset() {
                Ok(())
            } else {
                Err(InvalidAccess::Offset)
            }
        } else if len == 4 {
            if offset == 0 || offset == MSI_MSG_ADDR_LO_OFFSET || offset == self.msg_data_offset()
                || self.addr_hi_offset() == Some(offset) || self.mask_bits_offset() == Some(
                offset,
            ) {
                Ok(())
            } else {
                Err(InvalidAccess::Offset)
            }
        } else {
            Err(InvalidAccess::Length)
        }
    }

    /// The register block after the guest writes `data` at `offset`.
    pub open spec fn written(self, offset: u64, data: Seq<u8>) -> MsiCap {
        if data.len() == 2 {
            let v = le_u16(data);
            if offset == MSI_MSG_CTL_OFFSET {
                MsiCap { msg_ctl: merge_ctl(self.msg_ctl, v), ..self }
            } else if offset == self.msg_data_offset() {
                MsiCap { msg_data: v, ..self }
            } else {
                self
            }
        } else if data.len() == 4 {
            let v = le_u32(data);
            if offset == 0 {
                MsiCap { msg_ctl: merge_ctl(self.msg_ctl, (v >> 16u32) as u16), ..self }
            } else if offset == MSI_MSG_ADDR_LO_OFFSET {
                MsiCap { msg_addr_lo: v & MSI_MSG_ADDR_LO_MASK, ..self }
            } else if offset == self.msg_data_offset() {
                MsiCap { msg_data: v as u16, ..self }
            } else if self.addr_hi_offset() == Some(offset) {
                MsiCap { msg_addr_hi: v, ..self }
            } else if self.mask_bits_offset() == Some(offset) {
                MsiCap { mask_bits: v, ..self }
            } else {
                self
            }
        } else {
            self
        }
    }

    /// A capability with the given message control and every other field zero.
    pub open spec fn with_control(msg_ctl: u16) -> MsiCap {
        MsiCap {
            msg_ctl,
            msg_addr_lo: 0,
            msg_addr_hi: 0,
            msg_data: 0,
            mask_bits: 0,
            pending_bits: 0,
        }
    }

    pub fn new(msg_ctl: u16) -> (r: MsiCap)
        ensures
            r == MsiCap::with_control(msg_ctl),
    {
        MsiCap {
            msg_ctl,
            msg_addr_lo: 0,
            msg_addr_hi: 0,
            msg_data: 0,
            mask_bits: 0,
            pending_bits: 0,
        }
    }

    pub fn addr_64_bits(&self) -> (r: bool)
        ensures
            r == self.is_64_bits(),
    {
        self.msg_ctl & MSI_CTL_64_BITS == MSI_CTL_64_BITS
    }

    pub fn per_vector_mask(&self) -> (r: bool)
        ensures
            r == self.has_vector_mask(),
    {
        self.msg_ctl & MSI_CTL_PER_VECTOR == MSI_CTL_PER_VECTOR
    }

    pub fn enabled(&self) -> (r: bool)
        ensures
            r == self.is_enabled(),
    {
        self.msg_ctl & MSI_CTL_ENABLE == MSI_CTL_ENABLE
    }

    /// Encodings 0 to 5 stand for 1, 2, 4, 8, 16 and 32 vectors; the reserved
    /// encodings 6 and 7 for none.
    pub fn num_enabled_vectors(&self) -> (r: usize)
        ensures
            r == vector_count(self.msg_ctl),
    {
        let field: u16 = (self.msg_ctl >> 4u16) & 0x7u16;
        if field > 5 {
            return 0;
        }
        assert(field <= 5 ==> (1usize << field) == (if field == 0 {
            1usize
        } else if field == 1 {
            2usize
        } else if field == 2 {
            4usize
        } else if field == 3 {
            8usize
        } else if field == 4 {
            16usize
        } else {
            32usize
        })) by (bit_vector);
        1usize << field
    }

    pub fn vector_masked(&self, vector: usize) -> (r: bool)
        ensures
            r == self.is_vector_masked(vector as int),
    {
        if !self.per_vector_mask() {
            return false;
        }
        if vector >= 32 {
            return false;
        }
        (self.mask_bits >> (vector as u32)) & 0x1u32 == 0x1u32
    }

    pub fn size(&self) -> (r: u64)
        ensures
            r == self.structure_size(),
    {
        let mut size: u64 = 0xa;
        if self.addr_64_bits() {
            size += 0x4;
        }
        if self.per_vector_mask() {
            size += 0xa;
        }
        size
    }
    /// Applies a guest write of `data` at `offset`. Only the enable and multiple
    /// message enable bits of message control can change; the reserved low bits
    /// of the lower address are cleared. A write that reaches no field changes
    /// nothing and is reported.
    pub fn update(&mut self, offset: u64, data: &[u8]) -> (r: Result<(), InvalidAccess>)
        ensures
            *final(self) == old(self).written(offset, data@),
            r == old(self).access_status(offset, data@.len()),
            final(self).msg_ctl & !MSI_CTL_WRITABLE == old(self).msg_ctl & !MSI_CTL_WRITABLE,
            final(self).is_64_bits() == old(self).is_64_bits(),
            final(self).has_vector_mask() == old(self).has_vector_mask(),
            old(self).msg_addr_lo & 3 == 0 ==> final(self).msg_addr_lo & 3 == 0,
    {
        proof {
            lemma_written_keeps_fixed_bits(*self, offset, data@);
        }
        let a64 = self.addr_64_bits();
        let pvm = self.per_vector_mask();
        let msg_data_offset: u64 = if a64 {
            0xc
        } else {
            0x8
        };
        let addr_hi_offset: Option<u64> = if a64 {
            Some(0x8)
        } else {
            None
        };
        let mask_bits_offset: Option<u64> = if pvm {
            Some(if a64 { 0x10u64 } else { 0xcu64 })
        } else {
            None
        };
        if data.len() == 2 {
            let value = read_le_u16(data);
            if offset == MSI_MSG_CTL_OFFSET {
                self.msg_ctl = (self.msg_ctl & !MSI_CTL_WRITABLE) | (value & MSI_CTL_WRITABLE);
                Ok(())
            } else if offset == msg_data_offset {
                self.msg_data = value;
                Ok(())
            } else {
                Err(InvalidAccess::Offset)
            }
        } else if data.len() == 4 {
            let value = read_le_u32(data);
            let is_addr_hi = match addr_hi_offset {
                Some(o) => o == offset,
                None => false,
            };
            let is_mask_bits = match mask_bits_offset {
                Some(o) => o == offset,
                None => false,
            };
            if offset == 0 {
                self.msg_ctl = (self.msg_ctl & !MSI_CTL_WRITABLE) | (((value >> 16u32) as u16)
                    & MSI_CTL_WRITABLE);
                Ok(())
            } else if offset == MSI_MSG_ADDR_LO_OFFSET {
                self.msg_addr_lo = value & MSI_MSG_ADDR_LO_MASK;
                Ok(())
            } else if offset == msg_data_offset {
                self.msg_data = value as u16;
                Ok(())
            } else if is_addr_hi {
                self.msg_addr_hi = value;
                Ok(())
            } else if is_mask_bits {
                self.mask_bits = value;
                Ok(())
            } else {
                Err(InvalidAccess::Offset)
            }
        } else {
            Err(InvalidAccess::Length)
        }
    }
}

/// A guest write keeps every read-only bit of message control, hence the
/// capability flags, and never sets the reserved bits of the lower address.
pub proof fn lemma_written_keeps_fixed_bits(cap: MsiCap, offset: u64, data: Seq<u8>)
    ensures
        cap.written(offset, data).msg_ctl & !MSI_CTL_WRITABLE == cap.msg_ctl & !MSI_CTL_WRITABLE,
        cap.written(offset, data).is_64_bits() == cap.is_64_bits(),
        cap.written(offset, data).has_vector_mask() == cap.has_vector_mask(),
        cap.msg_addr_lo & 3 == 0 ==> cap.written(offset, data).msg_addr_lo & 3 == 0,
        offset == MSI_MSG_ADDR_LO_OFFSET && data.len() == 4 ==> cap.written(offset, data).msg_addr_lo
            & 3 == 0,
{
    let w = cap.written(offset, data);
    let c = cap.msg_ctl;
    let n = w.msg_ctl;
    assert(forall|v: u16|
        #![trigger merge_ctl(c, v)]
        merge_ctl(c, v) & !MSI_CTL_WRITABLE == c & !MSI_CTL_WRITABLE && (merge_ctl(c, v)
            & MSI_CTL_64_BITS == c & MSI_CTL_64_BITS) && (merge_ctl(c, v) & MSI_CTL_PER_VECTOR == c
            & MSI_CTL_PER_VECTOR)) by (bit_vector);
    assert(forall|v: u32| #![trigger (v & MSI_MSG_ADDR_LO_MASK)] (v & MSI_MSG_ADDR_LO_MASK) & 3 == 0)
        by (bit_vector);
}

/// The register block after a sequence of guest writes, applied in order.
pub open spec fn written_all(cap: MsiCap, writes: Seq<(u64, Seq<u8>)>) -> MsiCap
    decreases writes.len(),
{
    if writes.len() == 0 {
        cap
    } else {
        written_all(cap, writes.drop_last()).written(writes.last().0, writes.last().1)
    }
}

/// After any sequence of guest writes, message control keeps every bit but
/// enable and multiple message enable: the multiple message capable field and
/// the 64-bit and per-vector masking flags are those the block started with.
pub proof fn lemma_fixed_bits_kept(cap: MsiCap, writes: Seq<(u64, Seq<u8>)>)
    ensures
        written_all(cap, writes).msg_ctl & !MSI_CTL_WRITABLE == cap.msg_ctl & !MSI_CTL_WRITABLE,
        written_all(cap, writes).is_64_bits() == cap.is_64_bits(),
        written_all(cap, writes).has_vector_mask() == cap.has_vector_mask(),
    decreases writes.len(),
{
    if writes.len() > 0 {
        let prev = written_all(cap, writes.drop_last());
        lemma_fixed_bits_kept(cap, writes.drop_last());
        lemma_written_keeps_fixed_bits(prev, writes.last().0, writes.last().1);
    }
}

/// Starting from a lower address whose two reserved bits are clear (as in a
/// newly built block), they are clear after any sequence of guest writes.
pub proof fn lemma_addr_lo_reserved_clear(cap: MsiCap, writes: Seq<(u64, Seq<u8>)>)
    requires
        cap.msg_addr_lo & 3 == 0,
    ensures
        written_all(cap, writes).msg_addr_lo & 3 == 0,
    decreases writes.len(),
{
    if writes.len() > 0 {
        let prev = written_all(cap, writes.drop_last());
        lemma_addr_lo_reserved_clear(cap, writes.drop_last());
        lemma_written_keeps_fixed_bits(prev, writes.last().0, writes.last().1);
    }
}

} // verus!
