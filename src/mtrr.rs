//! Memory type range register fields.
use vstd::prelude::*;

verus! {

/// A memory type as the range registers code it.
#[derive(Clone, Copy, Debug, PartialEq, Eq, Structural)]
pub enum MTRRMemoryType {
    Uncacheable,
    WriteCombining,
    WriteThrough,
    WriteProtected,
    Writeback,
}

/// `value` codes a memory type: 0, 1, 4, 5 or 6.
pub open spec fn is_memory_type_code(value: u8) -> bool {
    value == 0 || value == 1 || value == 4 || value == 5 || value == 6
}

impl MTRRMemoryType {
    pub open spec fn code(self) -> u8 {
        match self {
            MTRRMemoryType::Uncacheable => 0,
            MTRRMemoryType::WriteCombining => 1,
            MTRRMemoryType::WriteThrough => 4,
            MTRRMemoryType::WriteProtected => 5,
            MTRRMemoryType::Writeback => 6,
        }
    }

    /// The memory type coded by `value`.
    pub fn from_u8(value: u8) -> (r: MTRRMemoryType)
        requires
            is_memory_type_code(value),
        ensures
            r.code() == value,
    {
        match value {
            0 => MTRRMemoryType::Uncacheable,
            1 => MTRRMemoryType::WriteCombining,
            4 => MTRRMemoryType::WriteThrough,
            5 => MTRRMemoryType::WriteProtected,
            _ => MTRRMemoryType::Writeback,
        }
    }
}

/// The memory type coded by `value`, or `None` for a reserved code.
pub fn memory_type_of(value: u8) -> (r: Option<MTRRMemoryType>)
    ensures
        r is Some <==> is_memory_type_code(value),
        r matches Some(t) ==> t.code() == value,
{
    if is_code(value) {
        Some(MTRRMemoryType::from_u8(value))
    } else {
        None
    }
}

fn is_code(value: u8) -> (r: bool)
    ensures
        r == is_memory_type_code(value),
{
    value == 0 || value == 1 || value == 4 || value == 5 || value == 6
}

/// The memory type byte of sub-range `i` of a fixed-range register.
pub fn fixed_range_field(reg_value: u64, i: u32) -> (r: u8)
    requires
        i < 8,
    ensures
        r == ((reg_value >> (8 * i) as u64) & 0xff) as u8,
{
    ((reg_value >> (8 * i) as u64) & 0xff) as u8
}

/// A variable-range register pair, decoded.
#[derive(Clone, Copy, Debug, PartialEq, Eq, Structural)]
pub struct VariableRangeMtrr {
    pub valid: bool,
    pub memory_type: u8,
    pub base_address: u64,
    pub mask: u64,
}

/// The address bits a physical address of `bits` bits has above the 4 KiB page offset.
pub open spec fn address_mask(bits: u32) -> u64 {
    (u64::MAX >> (64 - bits) as u64) & 0xffff_ffff_ffff_f000
}

/// Decodes the base and mask registers of one variable range on a processor with
/// `physical_address_bits` address bits.
pub fn variable_range_mtrr(physbase: u64, physmask: u64, physical_address_bits: u32) -> (r:
    VariableRangeMtrr)
    requires
        1 <= physical_address_bits <= 64,
    ensures
        r.valid == ((physmask >> 11u64) & 1 == 1),
        r.memory_type == (physbase & 0xff) as u8,
        r.base_address == physbase & address_mask(physical_address_bits),
        r.mask == physmask & address_mask(physical_address_bits),
{
    let m = (u64::MAX >> (64 - physical_address_bits) as u64) & 0xffff_ffff_ffff_f000;
    VariableRangeMtrr {
        valid: (physmask >> 11) & 1 == 1,
        memory_type: (physbase & 0xff) as u8,
        base_address: physbase & m,
        mask: physmask & m,
    }
}

} // verus!
