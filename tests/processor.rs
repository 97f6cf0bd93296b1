use glyph_console::cpuid::{
    decode_apic_base, get_cpu_info, is_discrete_apic, CPUIDLeaf, CpuInfoError, ProcessorType,
    FEATURE_APIC, FEATURE_MSR,
};
use glyph_console::graphics::{LimineFramebuffer, LimineFramebufferMemoryModel};
use glyph_console::mtrr::{fixed_range_field, memory_type_of, variable_range_mtrr, MTRRMemoryType};

fn genuine_intel() -> CPUIDLeaf {
    CPUIDLeaf {
        r_eax: 0x16,
        r_ebx: u32::from_le_bytes(*b"Genu"),
        r_ecx: u32::from_le_bytes(*b"ntel"),
        r_edx: u32::from_le_bytes(*b"ineI"),
    }
}

#[test]
fn leaf_support() {
    assert!(!CPUIDLeaf { r_eax: 0, r_ebx: 0, r_ecx: 0, r_edx: 0 }.is_leaf_supported());
    assert!(CPUIDLeaf { r_eax: 0, r_ebx: 0, r_ecx: 0, r_edx: 1 }.is_leaf_supported());
}

#[test]
fn decodes_vendor_and_signature() {
    let leaf_1 = CPUIDLeaf { r_eax: 0x000906EA, r_ebx: 0x0410_0800, r_ecx: 0x7FFA_FBBF, r_edx: 0xBFEB_FBFF };
    let info = get_cpu_info(&genuine_intel(), &leaf_1).unwrap();
    assert_eq!(info.vendor_id_str.as_str(), "GenuineIntel");
    assert_eq!(info.highest_supported_basic_function, 0x16);
    assert_eq!(info.stepping_id, 0xA);
    assert_eq!(info.model, 0x9E);
    assert_eq!(info.family_id, 6);
    assert_eq!(info.processor_type, ProcessorType::OriginalOEMProcessor);
    assert_eq!(info.local_apic_id, 4);
    assert_eq!(info.feature_flags.0, 0xBFEB_FBFF_7FFA_FBBF);
    assert!(info.feature_flags.contains(FEATURE_APIC));
    assert!(info.feature_flags.contains(FEATURE_MSR));
}

#[test]
fn extended_family_adds_for_family_fifteen() {
    let leaf_1 = CPUIDLeaf { r_eax: 0x0070_2F12, r_ebx: 0, r_ecx: 0, r_edx: 1 };
    let info = get_cpu_info(&genuine_intel(), &leaf_1).unwrap();
    assert_eq!(info.family_id, 0xF + 0x7);
    assert_eq!(info.model, 0x1);
    assert_eq!(info.processor_type, ProcessorType::DualProcessor);
}

#[test]
fn missing_leaves_are_errors() {
    let none = CPUIDLeaf { r_eax: 0, r_ebx: 0, r_ecx: 0, r_edx: 0 };
    assert_eq!(get_cpu_info(&none, &none).err(), Some(CpuInfoError::RequiredLeafNotSupported));
    let mut only_0 = genuine_intel();
    only_0.r_eax = 0;
    let leaf_1 = CPUIDLeaf { r_eax: 1, r_ebx: 0, r_ecx: 0, r_edx: 0 };
    assert_eq!(get_cpu_info(&only_0, &leaf_1).err(), Some(CpuInfoError::RequiredLeafNotSupported));
    assert_eq!(get_cpu_info(&genuine_intel(), &none).err(), Some(CpuInfoError::RequiredLeafNotSupported));
}

#[test]
fn non_utf8_vendor_is_an_error() {
    let mut leaf_0 = genuine_intel();
    leaf_0.r_ebx = 0xFFFF_FFFF;
    let leaf_1 = CPUIDLeaf { r_eax: 1, r_ebx: 0, r_ecx: 0, r_edx: 0 };
    assert_eq!(get_cpu_info(&leaf_0, &leaf_1).err(), Some(CpuInfoError::VendorNotUtf8));
}

#[test]
fn apic_fields() {
    let apic = decode_apic_base(0xFEE0_0900);
    assert!(apic.is_bsp);
    assert!(apic.enabled);
    assert_eq!(apic.base_address, 0xFEE0_0000);
    assert!(is_discrete_apic(0x0005_0004));
    assert!(!is_discrete_apic(0x0005_0014));
}

#[test]
fn memory_types() {
    assert_eq!(MTRRMemoryType::from_u8(6), MTRRMemoryType::Writeback);
    assert_eq!(MTRRMemoryType::from_u8(1), MTRRMemoryType::WriteCombining);
    assert_eq!(memory_type_of(4), Some(MTRRMemoryType::WriteThrough));
    assert_eq!(memory_type_of(2), None);
    assert_eq!(memory_type_of(7), None);
    assert_eq!(fixed_range_field(0x0605_0401_0006_0504, 0), 0x04);
    assert_eq!(fixed_range_field(0x0605_0401_0006_0504, 7), 0x06);
}

#[test]
fn variable_range_decoding() {
    let r = variable_range_mtrr(0x0000_0000_C000_0000, 0x0000_000F_C000_0800, 36);
    assert!(r.valid);
    assert_eq!(r.memory_type, 0);
    assert_eq!(r.base_address, 0xC000_0000);
    assert_eq!(r.mask, 0xF_C000_0000);
    let r = variable_range_mtrr(0x1234_5678_9ABC_DE06, 0, 64);
    assert!(!r.valid);
    assert_eq!(r.memory_type, 6);
    assert_eq!(r.base_address, 0x1234_5678_9ABC_D000);
}

#[test]
fn display_num_draws_clipped_red_squares() {
    let mut fb = LimineFramebuffer {
        pixels: vec![0; 200 * 120],
        width: 200,
        height: 120,
        pitch: 800,
        bpp: 32,
        memory_model: LimineFramebufferMemoryModel::Rgb,
        red_mask_size: 8,
        red_mask_shift: 16,
        green_mask_size: 8,
        green_mask_shift: 8,
        blue_mask_size: 8,
        blue_mask_shift: 0,
    };
    fb.display_num(0);
    assert!(fb.pixels.iter().all(|p| *p == 0));
    fb.display_num(12);
    let red = 0xFF0000;
    assert_eq!(fb.pixels[0], red);
    assert_eq!(fb.pixels[49 * 200 + 49], red);
    assert_eq!(fb.pixels[50], red);
    assert_eq!(fb.pixels[20 * 9 + 60 * 200], 0);
    assert_eq!(fb.pixels[12 * 200 + 20], red);
    assert!(fb.pixels.iter().all(|p| *p == 0 || *p == red));
}
