//! Real-time core of an ECG monitor: calibrated conversion of double-buffered
//! converter samples, a bounded transport queue, a scrolling waveform and
//! heart-rate renderer, and heart-rate scaling from a beat count.
use vstd::prelude::*;

pub mod beat;
pub mod display;
pub mod dma;
pub mod error;
pub mod queue;
pub mod sampler;
pub mod text;

verus! {

/// Rows the scroll hardware keeps fixed above the scrolling area: the plot's
/// left margin.
pub const TOP_SCROLL_OFFSET: u16 = 10;

/// Rows the scroll hardware keeps fixed below the scrolling area: the plot's
/// right margin.
pub const BOTTOM_SCROLL_OFFSET: u16 = 50;

/// The DMA target: reference and input codes of the first half, then of the
/// second half.
pub type Buffer = [u16; 4];

} // verus!
