use glyph_console::interrupts::{
    AbortInterruptHandlerWithErrorCode, DescriptorTable, Idt, InterruptDescriptor,
    InterruptDescriptorFlags, InterruptHandler, InterruptHandlerWithErrorCode, SegmentSelector,
    SegmentSelectorErrorCode,
};
use glyph_console::limine::{LimineStackSizeResponse, LimineVideoMode};
use glyph_console::slices::slice_element_count;
use glyph_console::sleep;

#[test]
fn descriptor_splits_the_address() {
    let d = InterruptDescriptor::new(0x1122_3344_5566_7788, 8);
    assert_eq!(d.handler_address_0_15, 0x7788);
    assert_eq!(d.handler_address_16_31, 0x5566);
    assert_eq!(d.handler_address_32_63, 0x1122_3344);
    assert_eq!(d.handler_cs, 8);
    assert_eq!(d.options, 0xEE00);
    assert_eq!(d.reserved, 0);
}

#[test]
fn descriptor_with_options_and_empty() {
    let d = InterruptDescriptor::with_options(0xABCD, 0x10, 0x8F00);
    assert_eq!(d.options, 0x8F00);
    assert_eq!(d.handler_address_0_15, 0xABCD);
    let e = InterruptDescriptor::empty();
    assert_eq!(e.options, 0);
    assert_eq!(e.handler_cs, 0);
}

#[test]
fn flag_bits() {
    assert_eq!(InterruptDescriptorFlags::Present.bits(), 0x8000);
    assert_eq!(InterruptDescriptorFlags::TypeInterruptGate.bits(), 0x0E00);
    assert_eq!(InterruptDescriptorFlags::TypeTrapGate.bits(), 0x0F00);
    assert_eq!(InterruptDescriptorFlags::dpl(3), 0x6000);
    assert_eq!(InterruptDescriptorFlags::ist(5), 5);
}

#[test]
fn handlers_point_at_their_address() {
    let mut h = InterruptHandler::empty();
    h.set_to_handler(0xFFFF_8000_0000_1234, 0x28);
    assert_eq!(h.0.handler_address_32_63, 0xFFFF_8000);
    assert_eq!(h.0.handler_address_0_15, 0x1234);
    let mut e = InterruptHandlerWithErrorCode::empty();
    e.set_to_handler(0x10, 0x28);
    assert_eq!(e.0.handler_address_0_15, 0x10);
    let mut a = AbortInterruptHandlerWithErrorCode::empty();
    a.set_to_handler(0x20, 0x28);
    assert_eq!(a.0.options, 0xEE00);
}

#[test]
fn table_starts_empty_and_takes_user_handlers() {
    let mut idt = Idt::new();
    assert_eq!(idt.breakpoint.0, InterruptDescriptor::empty());
    idt.breakpoint.set_to_handler(0x40, 8);
    assert_eq!(idt.breakpoint.0.handler_address_0_15, 0x40);
    idt.set_user_handler(32, 0x50, 8);
    idt.set_user_handler(255, 0x60, 8);
    assert_eq!(idt.entry(3).handler_address_0_15, 0x40);
    assert_eq!(idt.entry(32).handler_address_0_15, 0x50);
    assert_eq!(idt.entry(255).handler_address_0_15, 0x60);
    assert_eq!(idt.entry(254), InterruptDescriptor::empty());
    assert_eq!(idt.entry(9), InterruptDescriptor::empty());
    assert_eq!(idt.entry(3).reserved, 0);
}

#[test]
fn selector_fields() {
    let s = SegmentSelector(0b1_0110);
    assert!(!s.is_null());
    assert_eq!(s.rpl(), 0b10);
    assert_eq!(s.table(), DescriptorTable::Ldt);
    assert_eq!(s.descriptor_index(), 2);
    assert!(SegmentSelector(1).is_null());
    assert_eq!(SegmentSelector(0x08).table(), DescriptorTable::Gdt);
}

#[test]
fn error_code_fields() {
    let e = SegmentSelectorErrorCode(0b1_1011);
    assert!(e.is_external());
    assert_eq!(e.table(), DescriptorTable::Idt);
    assert_eq!(e.descriptor_index(), 3);
    assert_eq!(SegmentSelectorErrorCode(0b100).table(), DescriptorTable::Ldt);
    assert_eq!(SegmentSelectorErrorCode(0).table(), DescriptorTable::Gdt);
}

#[test]
fn element_counts() {
    assert_eq!(slice_element_count::<[u32; 4], u8>(), 16);
    assert_eq!(slice_element_count::<[u32; 4], u32>(), 4);
    assert_eq!(slice_element_count::<u64, [u8; 3]>(), 2);
}

#[test]
fn boot_records_hold_values() {
    let m = LimineVideoMode {
        pitch: 4096,
        width: 1024,
        height: 768,
        bpp: 32,
        memory_model: 1,
        red_mask_size: 8,
        red_mask_shift: 16,
        green_mask_size: 8,
        green_mask_shift: 8,
        blue_mask_size: 8,
        blue_mask_shift: 0,
    };
    assert_eq!(m.pitch / (m.bpp as u64 / 8), m.width);
    assert_eq!(LimineStackSizeResponse { revision: 1 }.revision, 1);
}

#[test]
fn sleep_returns() {
    sleep(0);
    sleep(1000);
}
