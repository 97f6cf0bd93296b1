//! Boot-protocol records that hold plain values.
use vstd::prelude::*;

verus! {

/// A video mode a framebuffer supports.
#[derive(Clone, Copy, Debug, PartialEq, Eq, Structural)]
pub struct LimineVideoMode {
    pub pitch: u64,
    pub width: u64,
    pub height: u64,
    pub bpp: u16,
    pub memory_model: u8,
    pub red_mask_size: u8,
    pub red_mask_shift: u8,
    pub green_mask_size: u8,
    pub green_mask_shift: u8,
    pub blue_mask_size: u8,
    pub blue_mask_shift: u8,
}

/// The answer to a stack size request.
#[derive(Clone, Copy, Debug, PartialEq, Eq, Structural)]
pub struct LimineStackSizeResponse {
    pub revision: u64,
}

} // verus!
