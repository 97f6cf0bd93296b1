//! Glyph-atlas codec and incremental text rendering for a kernel console.
//!
//! The atlas is a packed little-endian blob of glyph records with per-pixel
//! coverage. The library decodes it once, looks glyphs up by codepoint, lays
//! text out line by line onto a fixed pixel surface (recomputing the layout
//! from retained history when the surface runs out of rows) and composites
//! glyph coverage into the surface's pixel words.
use vstd::prelude::*;

pub mod atlas;
pub mod codec;
pub mod compositor;
pub mod coverage;
pub mod cpuid;
pub mod graphics;
pub mod interrupts;
pub mod limine;
pub mod mtrr;
pub mod slices;
pub mod text_rendering;

verus! {

/// Spins for `loop_iters` iterations.
pub fn sleep(loop_iters: u64) {
    let mut i: u64 = 0;
    while i < loop_iters
        invariant
            i <= loop_iters,
        decreases loop_iters - i,
    {
        i = i + 1;
    }
}

} // verus!
