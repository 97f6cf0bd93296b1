//! Decoding the processor identification leaves.
use vstd::prelude::*;
use vstd::utf8::valid_utf8;
use arrayvec::ArrayString;

verus! {

/// arrayvec's fixed-capacity string, held opaquely; `array_string_bytes` names its contents.
#[verifier::external_type_specification]
#[verifier::external_body]
pub struct ExArrayString<const CAP: usize>(ArrayString<CAP>);

/// The bytes an `ArrayString<12>` holds.
pub uninterp spec fn array_string_bytes(s: ArrayString<12>) -> Seq<u8>;

/// Relies on `arrayvec::ArrayString::from_byte_string`: `Ok` exactly when the twelve bytes are
/// valid UTF-8 (it checks them with `str::from_utf8`), holding those bytes.
#[verifier::external_body]
fn array_string_from_bytes(b: &[u8; 12]) -> (r: Option<ArrayString<12>>)
    ensures
        r is Some <==> valid_utf8(b@),
        r matches Some(s) ==> array_string_bytes(s) == b@,
{
    match ArrayString::<12>::from_byte_string(b) {
        Ok(s) => Some(s),
        Err(_) => None,
    }
}

/// The four registers one identification leaf returns.
#[derive(Clone, Copy, Debug, PartialEq, Eq, Structural)]
pub struct CPUIDLeaf {
    pub r_eax: u32,
    pub r_ebx: u32,
    pub r_ecx: u32,
    pub r_edx: u32,
}

impl CPUIDLeaf {
    pub open spec fn supported(&self) -> bool {
        !(self.r_eax == 0 && self.r_ebx == 0 && self.r_ecx == 0 && self.r_edx == 0)
    }

    /// A leaf the processor does not provide reads as all zeros.
    pub fn is_leaf_supported(&self) -> (r: bool)
        ensures
            r == self.supported(),
    {
        !(self.r_eax == 0 && self.r_ebx == 0 && self.r_ecx == 0 && self.r_edx == 0)
    }
}

#[derive(Clone, Copy, Debug, PartialEq, Eq, Structural)]
pub enum ProcessorType {
    OriginalOEMProcessor,
    IntelOverDriveProcessor,
    DualProcessor,
    IntelReserved,
}

/// The processor type coded by the two bits `code`.
pub open spec fn processor_type_of(code: u32) -> ProcessorType {
    if code == 0 {
        ProcessorType::OriginalOEMProcessor
    } else if code == 1 {
        ProcessorType::IntelOverDriveProcessor
    } else if code == 2 {
        ProcessorType::DualProcessor
    } else {
        ProcessorType::IntelReserved
    }
}

/// Basic feature flags: leaf 1's ECX in the low half, EDX in the high half.
#[derive(Clone, Copy, Debug, PartialEq, Eq, Structural)]
pub struct CPUBasicFeatureFlags(pub u64);

/// Local APIC on chip.
pub const FEATURE_APIC: u64 = 0x200_0000_0000;

/// Model-specific registers.
pub const FEATURE_MSR: u64 = 0x20_0000_0000;

/// Memory type range registers.
pub const FEATURE_MTRR: u64 = 0x1000_0000_0000;

impl CPUBasicFeatureFlags {
    /// Every bit of `flags` is set.
    pub fn contains(&self, flags: u64) -> (r: bool)
        ensures
            r == (self.0 & flags == flags),
    {
        self.0 & flags == flags
    }
}

/// What the basic identification leaves say about the processor.
#[derive(Debug)]
pub struct CPUInfo {
    pub vendor_id_str: ArrayString<12>,
    pub highest_supported_basic_function: u32,
    pub stepping_id: u8,
    pub model: u8,
    pub family_id: u16,
    pub processor_type: ProcessorType,
    pub local_apic_id: u8,
    pub feature_flags: CPUBasicFeatureFlags,
}

/// Why the identification leaves could not be decoded.
#[derive(Clone, Copy, Debug, PartialEq, Eq, Structural)]
pub enum CpuInfoError {
    /// Leaf 0 or leaf 1 is missing.
    RequiredLeafNotSupported,
    /// The vendor string is not UTF-8.
    VendorNotUtf8,
}

/// The vendor string: leaf 0's EBX, EDX and ECX, each little-endian.
pub open spec fn vendor_bytes(leaf_0: CPUIDLeaf) -> Seq<u8> {
    le_bytes(leaf_0.r_ebx) + le_bytes(leaf_0.r_edx) + le_bytes(leaf_0.r_ecx)
}

pub open spec fn le_bytes(v: u32) -> Seq<u8> {
    seq![(v & 0xff) as u8, ((v >> 8u32) & 0xff) as u8, ((v >> 16u32) & 0xff) as u8, ((v >> 24u32) & 0xff) as u8]
}

pub open spec fn family_of(eax: u32) -> u16 {
    let base = ((eax >> 8u32) & 0xf) as u16;
    if base == 0xf {
        (base + ((eax >> 20u32) & 0xff)) as u16
    } else {
        base
    }
}

pub open spec fn model_of(eax: u32) -> u8 {
    let base = ((eax >> 8u32) & 0xf) as u16;
    let m = ((eax >> 4u32) & 0xf) as u8;
    if base == 0xf || base == 6 {
        (m + ((eax >> 12u32) & 0xf0)) as u8
    } else {
        m
    }
}

fn put_le(out: &mut [u8; 12], at: usize, v: u32)
    requires
        at + 4 <= 12,
    ensures
        forall|i: int| 0 <= i < 12 && !(at <= i < at + 4) ==> final(out)@[i] == old(out)@[i],
        forall|j: int| 0 <= j < 4 ==> final(out)@[at + j] == #[trigger] le_bytes(v)[j],
{
    out[at] = (v & 0xff) as u8;
    out[at + 1] = ((v >> 8) & 0xff) as u8;
    out[at + 2] = ((v >> 16) & 0xff) as u8;
    out[at + 3] = ((v >> 24) & 0xff) as u8;
}

/// Decodes leaves 0 and 1. Leaf 1 counts only when leaf 0 reports it (its EAX is at least 1).
pub fn get_cpu_info(leaf_0: &CPUIDLeaf, leaf_1: &CPUIDLeaf) -> (r: Result<CPUInfo, CpuInfoError>)
    ensures
        !leaf_0.supported() || leaf_0.r_eax < 1 || !leaf_1.supported() ==> r
            is Err && r->Err_0 == CpuInfoError::RequiredLeafNotSupported,
        leaf_0.supported() && leaf_0.r_eax >= 1 && leaf_1.supported() && !valid_utf8(
            vendor_bytes(*leaf_0),
        ) ==> r is Err && r->Err_0 == CpuInfoError::VendorNotUtf8,
        r matches Ok(info) ==> {
            &&& array_string_bytes(info.vendor_id_str) == vendor_bytes(*leaf_0)
            &&& info.highest_supported_basic_function == leaf_0.r_eax
            &&& info.stepping_id == (leaf_1.r_eax & 0xf) as u8
            &&& info.model == model_of(leaf_1.r_eax)
            &&& info.family_id == family_of(leaf_1.r_eax)
            &&& info.processor_type == processor_type_of((leaf_1.r_eax >> 12u32) & 0x3)
            &&& info.local_apic_id == ((leaf_1.r_ebx >> 24u32) & 0xff) as u8
            &&& info.feature_flags.0 == ((leaf_1.r_edx as u64) << 32u64) | (leaf_1.r_ecx as u64)
        },
        leaf_0.supported() && leaf_0.r_eax >= 1 && leaf_1.supported() && valid_utf8(
            vendor_bytes(*leaf_0),
        ) ==> r is Ok,
{
    if !leaf_0.is_leaf_supported() {
        return Err(CpuInfoError::RequiredLeafNotSupported);
    }
    let highest_supported_basic_function = leaf_0.r_eax;
    if highest_supported_basic_function < 1 || !leaf_1.is_leaf_supported() {
        return Err(CpuInfoError::RequiredLeafNotSupported);
    }
    let mut vendor: [u8; 12] = [0; 12];
    put_le(&mut vendor, 0, leaf_0.r_ebx);
    put_le(&mut vendor, 4, leaf_0.r_edx);
    put_le(&mut vendor, 8, leaf_0.r_ecx);
    assert(vendor@ =~= vendor_bytes(*leaf_0));
    let vendor_id_str = match array_string_from_bytes(&vendor) {
        Some(s) => s,
        None => {
            return Err(CpuInfoError::VendorNotUtf8);
        },
    };
    let eax = leaf_1.r_eax;
    let stepping_id = (eax & 0xf) as u8;
    let mut family_id = ((eax >> 8) & 0xf) as u16;
    let mut model = ((eax >> 4) & 0xf) as u8;
    assert((eax >> 4u32) & 0xf <= 0xf) by (bit_vector);
    assert((eax >> 8u32) & 0xf <= 0xf) by (bit_vector);
    assert((eax >> 12u32) & 0xf0 <= 0xf0) by (bit_vector);
    assert((eax >> 20u32) & 0xff <= 0xff) by (bit_vector);
    if family_id == 0xf || family_id == 0x6 {
        model = model + ((eax >> 12) & 0xf0) as u8;
    }
    if family_id == 0xf {
        family_id = family_id + ((eax >> 20) & 0xff) as u16;
    }
    let code = (eax >> 12) & 0x3;
    let processor_type = if code == 0 {
        ProcessorType::OriginalOEMProcessor
    } else if code == 1 {
        ProcessorType::IntelOverDriveProcessor
    } else if code == 2 {
        ProcessorType::DualProcessor
    } else {
        ProcessorType::IntelReserved
    };
    let local_apic_id = ((leaf_1.r_ebx >> 24) & 0xff) as u8;
    let feature_flags = CPUBasicFeatureFlags(((leaf_1.r_edx as u64) << 32) | (leaf_1.r_ecx as u64));
    Ok(
        CPUInfo {
            vendor_id_str,
            highest_supported_basic_function,
            stepping_id,
            model,
            family_id,
            processor_type,
            local_apic_id,
            feature_flags,
        },
    )
}

/// The fields of the local APIC base register's low half.
#[derive(Clone, Copy, Debug, PartialEq, Eq, Structural)]
pub struct ApicBase {
    /// This processor is the bootstrap processor: bit 8.
    pub is_bsp: bool,
    /// The local APIC is enabled: bit 11.
    pub enabled: bool,
    /// The page-aligned base address: bits 12 to 31.
    pub base_address: u32,
}

pub fn decode_apic_base(apic_base_msr: u32) -> (r: ApicBase)
    ensures
        r.is_bsp == ((apic_base_msr >> 8u32) & 1 == 1),
        r.enabled == ((apic_base_msr >> 11u32) & 1 == 1),
        r.base_address == apic_base_msr & 0xffff_f000,
{
    ApicBase {
        is_bsp: (apic_base_msr >> 8) & 1 == 1,
        enabled: (apic_base_msr >> 11) & 1 == 1,
        base_address: apic_base_msr & 0xffff_f000,
    }
}

/// A local APIC version register with a zero version nibble belongs to a discrete 82489DX.
pub fn is_discrete_apic(lapic_version_reg: u32) -> (r: bool)
    ensures
        r == (lapic_version_reg & 0xf0 == 0),
{
    lapic_version_reg & 0xf0 == 0
}

} // verus!
