//! Interrupt descriptor table entries and the selectors an interrupt reports.
use vstd::prelude::*;

verus! {

/// The full handler address encoded by the three address parts of a descriptor.
pub open spec fn joined_address(a0: u16, a1: u16, a2: u32) -> u64 {
    (a0 as u64) | ((a1 as u64) << 16u64) | ((a2 as u64) << 32u64)
}

/// One 16-byte entry of the interrupt descriptor table.
#[derive(Clone, Copy, Debug, PartialEq, Eq, Structural)]
pub struct InterruptDescriptor {
    pub handler_address_0_15: u16,
    pub handler_cs: u16,
    pub options: u16,
    pub handler_address_16_31: u16,
    pub handler_address_32_63: u32,
    pub reserved: u32,
}

impl InterruptDescriptor {
    /// The handler address the entry jumps to.
    pub open spec fn handler_address(&self) -> u64 {
        joined_address(self.handler_address_0_15, self.handler_address_16_31, self.handler_address_32_63)
    }

    fn new_internal(address: u64, code_segment: u16, options: u16) -> (r: InterruptDescriptor)
        ensures
            r.handler_address() == address,
            r.handler_cs == code_segment,
            r.options == options,
            r.reserved == 0,
    {
        let a0 = (address & 0xffff) as u16;
        let a1 = ((address >> 16) & 0xffff) as u16;
        let a2 = ((address >> 32) & 0xffff_ffff) as u32;
        assert(((a0 as u64) | ((a1 as u64) << 16u64) | ((a2 as u64) << 32u64)) == address) by (bit_vector)
            requires
                a0 == (address & 0xffff) as u16,
                a1 == ((address >> 16) & 0xffff) as u16,
                a2 == ((address >> 32) & 0xffff_ffff) as u32,
        ;
        InterruptDescriptor {
            handler_address_0_15: a0,
            handler_cs: code_segment,
            options,
            handler_address_16_31: a1,
            handler_address_32_63: a2,
            reserved: 0,
        }
    }

    /// An entry to `address` in code segment `code_segment` with the given option bits.
    pub fn with_options(address: u64, code_segment: u16, options: u16) -> (r: InterruptDescriptor)
        ensures
            r.handler_address() == address,
            r.handler_cs == code_segment,
            r.options == options,
            r.reserved == 0,
    {
        InterruptDescriptor::new_internal(address, code_segment, options)
    }

    /// A present interrupt entry to `address`, reachable from ring 3, on the current stack.
    pub fn new(address: u64, code_segment: u16) -> (r: InterruptDescriptor)
        ensures
            r.handler_address() == address,
            r.handler_cs == code_segment,
            r.options == default_gate_options(),
            r.reserved == 0,
    {
        let options = InterruptDescriptorFlags::Present.bits()
            | InterruptDescriptorFlags::TypeInterruptGate.bits()
            | InterruptDescriptorFlags::dpl(3) | InterruptDescriptorFlags::ist(0);
        assert((0x8000u16 | 0x0E00u16 | (3u16 << 13u16) | 0u16) == 0xEE00u16) by (bit_vector);
        InterruptDescriptor::with_options(address, code_segment, options)
    }

    /// An entry with every field zero: not present.
    pub fn empty() -> (r: InterruptDescriptor)
        ensures
            r == empty_descriptor(),
    {
        InterruptDescriptor {
            handler_address_0_15: 0,
            handler_address_16_31: 0,
            handler_address_32_63: 0,
            options: 0,
            reserved: 0,
            handler_cs: 0,
        }
    }
}

pub open spec fn empty_descriptor() -> InterruptDescriptor {
    InterruptDescriptor {
        handler_address_0_15: 0,
        handler_cs: 0,
        options: 0,
        handler_address_16_31: 0,
        handler_address_32_63: 0,
        reserved: 0,
    }
}

/// Options of an entry made by `InterruptDescriptor::new`: present, interrupt entry, privilege 3.
pub open spec fn default_gate_options() -> u16 {
    0xEE00
}

/// Option bits of an entry.
#[derive(Clone, Copy, Debug, PartialEq, Eq, Structural)]
pub enum InterruptDescriptorFlags {
    Present,
    TypeInterruptGate,
    TypeTrapGate,
}

impl InterruptDescriptorFlags {
    /// The flag's bits in the options word.
    pub fn bits(self) -> (r: u16)
        ensures
            self == InterruptDescriptorFlags::Present ==> r == 0x8000,
            self == InterruptDescriptorFlags::TypeInterruptGate ==> r == 0x0E00,
            self == InterruptDescriptorFlags::TypeTrapGate ==> r == 0x0F00,
    {
        match self {
            InterruptDescriptorFlags::Present => 0x8000,
            InterruptDescriptorFlags::TypeInterruptGate => 0x0E00,
            InterruptDescriptorFlags::TypeTrapGate => 0x0F00,
        }
    }

    /// The descriptor privilege level field: bits 13 and 14.
    pub fn dpl(dpl: u8) -> (r: u16)
        ensures
            r == (dpl as u16) << 13u16,
    {
        (dpl as u16) << 13
    }

    /// The interrupt stack table index field: the low bits.
    pub fn ist(ist: u8) -> (r: u16)
        ensures
            r == ist as u16,
    {
        ist as u16
    }
}

/// An entry for a handler that takes no error code.
#[derive(Clone, Copy, Debug, PartialEq, Eq, Structural)]
pub struct InterruptHandler(pub InterruptDescriptor);

impl InterruptHandler {
    /// Points the entry at the handler at `handler_addr`.
    pub fn set_to_handler(&mut self, handler_addr: u64, code_segment: u16)
        ensures
            final(self).0.handler_address() == handler_addr,
            final(self).0.handler_cs == code_segment,
            final(self).0.options == default_gate_options(),
            final(self).0.reserved == 0,
    {
        self.0 = InterruptDescriptor::new(handler_addr, code_segment);
    }

    pub fn empty() -> (r: InterruptHandler)
        ensures
            r.0 == empty_descriptor(),
    {
        InterruptHandler(InterruptDescriptor::empty())
    }
}

/// An entry for a handler that is passed an error code.
#[derive(Clone, Copy, Debug, PartialEq, Eq, Structural)]
pub struct InterruptHandlerWithErrorCode(pub InterruptDescriptor);

impl InterruptHandlerWithErrorCode {
    /// Points the entry at the handler at `handler_addr`.
    pub fn set_to_handler(&mut self, handler_addr: u64, code_segment: u16)
        ensures
            final(self).0.handler_address() == handler_addr,
            final(self).0.handler_cs == code_segment,
            final(self).0.options == default_gate_options(),
            final(self).0.reserved == 0,
    {
        self.0 = InterruptDescriptor::new(handler_addr, code_segment);
    }

    pub fn empty() -> (r: InterruptHandlerWithErrorCode)
        ensures
            r.0 == empty_descriptor(),
    {
        InterruptHandlerWithErrorCode(InterruptDescriptor::empty())
    }
}

/// An entry for a handler that is passed an error code and never returns.
#[derive(Clone, Copy, Debug, PartialEq, Eq, Structural)]
pub struct AbortInterruptHandlerWithErrorCode(pub InterruptDescriptor);

impl AbortInterruptHandlerWithErrorCode {
    /// Points the entry at the handler at `handler_addr`.
    pub fn set_to_handler(&mut self, handler_addr: u64, code_segment: u16)
        ensures
            final(self).0.handler_address() == handler_addr,
            final(self).0.handler_cs == code_segment,
            final(self).0.options == default_gate_options(),
            final(self).0.reserved == 0,
    {
        self.0 = InterruptDescriptor::new(handler_addr, code_segment);
    }

    pub fn empty() -> (r: AbortInterruptHandlerWithErrorCode)
        ensures
            r.0 == empty_descriptor(),
    {
        AbortInterruptHandlerWithErrorCode(InterruptDescriptor::empty())
    }
}

/// Number of vectors the processor reserves for its own exceptions.
pub const RESERVED_VECTORS: usize = 32;

/// The interrupt descriptor table: the processor's exception entries by name, then the
/// user-defined vectors from 32 on.
pub struct Idt {
    pub divide_by_zero: InterruptHandler,
    pub debug: InterruptHandler,
    pub non_maskable_interrupt: InterruptHandler,
    pub breakpoint: InterruptHandler,
    pub overflow: InterruptHandler,
    pub bound_range: InterruptHandler,
    pub invalid_opcode: InterruptHandler,
    pub device_not_available: InterruptHandler,
    pub double_fault: AbortInterruptHandlerWithErrorCode,
    reserved0: InterruptDescriptor,
    pub invalid_tss: InterruptHandlerWithErrorCode,
    pub segment_not_present: InterruptHandlerWithErrorCode,
    pub stack: InterruptHandlerWithErrorCode,
    pub general_protection: InterruptHandlerWithErrorCode,
    pub page_fault: InterruptHandlerWithErrorCode,
    reserved1: InterruptDescriptor,
    pub floating_point_exception_pending: InterruptHandler,
    pub alignment_check: InterruptHandler,
    pub machine_check: InterruptHandler,
    pub simd_floating_point: InterruptHandler,
    reserved2: InterruptDescriptor,
    pub control_protection: InterruptHandlerWithErrorCode,
    reserved3: [InterruptDescriptor; 6],
    pub hypervisor_injection: InterruptHandler,
    pub vmm_communication: InterruptHandler,
    pub security_exception: InterruptHandler,
    reserved4: InterruptDescriptor,
    user_defined: [InterruptHandler; 224],
}

impl Idt {
    /// The entry of user-defined vector `index`.
    pub closed spec fn user_gate(&self, index: int) -> InterruptDescriptor {
        self.user_defined@[index - RESERVED_VECTORS].0
    }

    /// Every entry of the table is empty.
    pub closed spec fn all_empty(&self) -> bool {
        &&& self.divide_by_zero.0 == empty_descriptor()
        &&& self.debug.0 == empty_descriptor()
        &&& self.non_maskable_interrupt.0 == empty_descriptor()
        &&& self.breakpoint.0 == empty_descriptor()
        &&& self.overflow.0 == empty_descriptor()
        &&& self.bound_range.0 == empty_descriptor()
        &&& self.invalid_opcode.0 == empty_descriptor()
        &&& self.device_not_available.0 == empty_descriptor()
        &&& self.double_fault.0 == empty_descriptor()
        &&& self.reserved0 == empty_descriptor()
        &&& self.invalid_tss.0 == empty_descriptor()
        &&& self.segment_not_present.0 == empty_descriptor()
        &&& self.stack.0 == empty_descriptor()
        &&& self.general_protection.0 == empty_descriptor()
        &&& self.page_fault.0 == empty_descriptor()
        &&& self.reserved1 == empty_descriptor()
        &&& self.floating_point_exception_pending.0 == empty_descriptor()
        &&& self.alignment_check.0 == empty_descriptor()
        &&& self.machine_check.0 == empty_descriptor()
        &&& self.simd_floating_point.0 == empty_descriptor()
        &&& self.reserved2 == empty_descriptor()
        &&& self.control_protection.0 == empty_descriptor()
        &&& forall|i: int| 0 <= i < 6 ==> #[trigger] self.reserved3@[i] == empty_descriptor()
        &&& self.hypervisor_injection.0 == empty_descriptor()
        &&& self.vmm_communication.0 == empty_descriptor()
        &&& self.security_exception.0 == empty_descriptor()
        &&& self.reserved4 == empty_descriptor()
        &&& forall|i: int| 0 <= i < 224 ==> #[trigger] self.user_defined@[i].0 == empty_descriptor()
    }

    /// A table whose entries are all empty.
    pub fn new() -> (r: Idt)
        ensures
            r.all_empty(),
    {
        let empty = InterruptDescriptor::empty();
        let handler = InterruptHandler::empty();
        Idt {
            divide_by_zero: InterruptHandler::empty(),
            debug: InterruptHandler::empty(),
            non_maskable_interrupt: InterruptHandler::empty(),
            breakpoint: InterruptHandler::empty(),
            overflow: InterruptHandler::empty(),
            bound_range: InterruptHandler::empty(),
            invalid_opcode: InterruptHandler::empty(),
            device_not_available: InterruptHandler::empty(),
            double_fault: AbortInterruptHandlerWithErrorCode::empty(),
            reserved0: InterruptDescriptor::empty(),
            invalid_tss: InterruptHandlerWithErrorCode::empty(),
            segment_not_present: InterruptHandlerWithErrorCode::empty(),
            stack: InterruptHandlerWithErrorCode::empty(),
            general_protection: InterruptHandlerWithErrorCode::empty(),
            page_fault: InterruptHandlerWithErrorCode::empty(),
            reserved1: InterruptDescriptor::empty(),
            floating_point_exception_pending: InterruptHandler::empty(),
            alignment_check: InterruptHandler::empty(),
            machine_check: InterruptHandler::empty(),
            simd_floating_point: InterruptHandler::empty(),
            reserved2: InterruptDescriptor::empty(),
            control_protection: InterruptHandlerWithErrorCode::empty(),
            reserved3: [empty; 6],
            hypervisor_injection: InterruptHandler::empty(),
            vmm_communication: InterruptHandler::empty(),
            security_exception: InterruptHandler::empty(),
            reserved4: InterruptDescriptor::empty(),
            user_defined: [handler; 224],
        }
    }

    /// The entry the processor uses for vector `v`, in table order.
    pub closed spec fn vector_entry(&self, v: int) -> InterruptDescriptor {
        if v >= RESERVED_VECTORS {
            self.user_defined@[v - RESERVED_VECTORS].0
        } else if v == 0 {
            self.divide_by_zero.0
        } else if v == 1 {
            self.debug.0
        } else if v == 2 {
            self.non_maskable_interrupt.0
        } else if v == 3 {
            self.breakpoint.0
        } else if v == 4 {
            self.overflow.0
        } else if v == 5 {
            self.bound_range.0
        } else if v == 6 {
            self.invalid_opcode.0
        } else if v == 7 {
            self.device_not_available.0
        } else if v == 8 {
            self.double_fault.0
        } else if v == 9 {
            self.reserved0
        } else if v == 10 {
            self.invalid_tss.0
        } else if v == 11 {
            self.segment_not_present.0
        } else if v == 12 {
            self.stack.0
        } else if v == 13 {
            self.general_protection.0
        } else if v == 14 {
            self.page_fault.0
        } else if v == 15 {
            self.reserved1
        } else if v == 16 {
            self.floating_point_exception_pending.0
        } else if v == 17 {
            self.alignment_check.0
        } else if v == 18 {
            self.machine_check.0
        } else if v == 19 {
            self.simd_floating_point.0
        } else if v == 20 {
            self.reserved2
        } else if v == 21 {
            self.control_protection.0
        } else if 22 <= v < 28 {
            self.reserved3@[v - 22]
        } else if v == 28 {
            self.hypervisor_injection.0
        } else if v == 29 {
            self.vmm_communication.0
        } else if v == 30 {
            self.security_exception.0
        } else {
            self.reserved4
        }
    }

    /// The entry of vector `vector`, for copying the table into the layout the processor reads.
    pub fn entry(&self, vector: usize) -> (r: InterruptDescriptor)
        requires
            vector < 256,
        ensures
            r == self.vector_entry(vector as int),
    {
        if vector >= RESERVED_VECTORS {
            return self.user_defined[vector - RESERVED_VECTORS].0;
        }
        match vector {
            0 => self.divide_by_zero.0,
            1 => self.debug.0,
            2 => self.non_maskable_interrupt.0,
            3 => self.breakpoint.0,
            4 => self.overflow.0,
            5 => self.bound_range.0,
            6 => self.invalid_opcode.0,
            7 => self.device_not_available.0,
            8 => self.double_fault.0,
            9 => self.reserved0,
            10 => self.invalid_tss.0,
            11 => self.segment_not_present.0,
            12 => self.stack.0,
            13 => self.general_protection.0,
            14 => self.page_fault.0,
            15 => self.reserved1,
            16 => self.floating_point_exception_pending.0,
            17 => self.alignment_check.0,
            18 => self.machine_check.0,
            19 => self.simd_floating_point.0,
            20 => self.reserved2,
            21 => self.control_protection.0,
            22..=27 => self.reserved3[vector - 22],
            28 => self.hypervisor_injection.0,
            29 => self.vmm_communication.0,
            30 => self.security_exception.0,
            _ => self.reserved4,
        }
    }

    /// Points user-defined vector `index` at the handler at `handler_addr`. The processor's own
    /// vectors, below 32, are set through their named fields instead.
    pub fn set_user_handler(&mut self, index: usize, handler_addr: u64, code_segment: u16)
        requires
            RESERVED_VECTORS <= index < 256,
        ensures
            final(self).user_gate(index as int).handler_address() == handler_addr,
            final(self).user_gate(index as int).handler_cs == code_segment,
            final(self).user_gate(index as int).options == default_gate_options(),
            forall|i: int|
                RESERVED_VECTORS <= i < 256 && i != index ==> #[trigger] final(self).user_gate(i) == old(
                    self,
                ).user_gate(i),
    {
        let mut gate = self.user_defined[index - RESERVED_VECTORS];
        gate.set_to_handler(handler_addr, code_segment);
        self.user_defined.set(index - RESERVED_VECTORS, gate);
    }
}

/// What the processor pushes when it enters a handler.
#[derive(Clone, Copy, Debug)]
pub struct InterruptStackFrame {
    pub return_ss: SegmentSelector,
    pub return_stack_pointer: u64,
    pub rflags: u64,
    pub return_cs: SegmentSelector,
    pub return_address: u64,
}

/// The descriptor table a selector or error code refers to.
#[derive(Clone, Copy, Debug, PartialEq, Eq, Structural)]
pub enum DescriptorTable {
    Gdt,
    Ldt,
    Idt,
}

/// A segment selector: requested privilege level, table indicator, descriptor index.
#[derive(Clone, Copy, Debug, PartialEq, Eq, Structural)]
pub struct SegmentSelector(pub u16);

impl SegmentSelector {
    /// The null selector: index 0 in the global table, whatever the privilege level.
    pub fn is_null(&self) -> (r: bool)
        ensures
            r == (self.0 >> 1u16 == 0),
    {
        self.0 >> 1 == 0
    }

    /// Requested privilege level: bits 0 and 1.
    pub fn rpl(&self) -> (r: u16)
        ensures
            r == self.0 & 0b11,
    {
        self.0 & 0b11
    }

    /// The table the selector indexes: bit 2.
    pub fn table(&self) -> (r: DescriptorTable)
        ensures
            r == (if self.0 & 0b100 == 0 {
                DescriptorTable::Gdt
            } else {
                DescriptorTable::Ldt
            }),
    {
        if self.0 & 0b100 == 0 {
            DescriptorTable::Gdt
        } else {
            DescriptorTable::Ldt
        }
    }

    /// Index of the descriptor: bits 3 and up.
    pub fn descriptor_index(&self) -> (r: u16)
        ensures
            r == self.0 >> 3u16,
    {
        self.0 >> 3
    }
}

/// The error code of a segment-related exception.
#[derive(Clone, Copy, Debug, PartialEq, Eq, Structural)]
pub struct SegmentSelectorErrorCode(pub u16);

impl SegmentSelectorErrorCode {
    /// The exception came from outside the program: bit 0.
    pub fn is_external(&self) -> (r: bool)
        ensures
            r == (self.0 & 0b1 != 0),
    {
        self.0 & 0b1 != 0
    }

    /// The table of the descriptor in question: bit 1 selects the interrupt table, else bit 2
    /// selects the local table over the global one.
    pub fn table(&self) -> (r: DescriptorTable)
        ensures
            r == (if self.0 & 0b10 != 0 {
                DescriptorTable::Idt
            } else if self.0 & 0b100 == 0 {
                DescriptorTable::Gdt
            } else {
                DescriptorTable::Ldt
            }),
    {
        if self.0 & 0b10 != 0 {
            DescriptorTable::Idt
        } else if self.0 & 0b100 == 0 {
            DescriptorTable::Gdt
        } else {
            DescriptorTable::Ldt
        }
    }

    /// Index of the descriptor: bits 3 and up.
    pub fn descriptor_index(&self) -> (r: u16)
        ensures
            r == self.0 >> 3u16,
    {
        self.0 >> 3
    }
}

} // verus!
