use vstd::prelude::*;

verus! {

/// Arbitration priority of a DMA channel.
#[derive(Clone, Copy, Debug, PartialEq, Eq, Structural)]
pub enum DmaPriority {
    Low,
    Medium,
    High,
    VeryHigh,
}

/// Width of one transferred item.
#[derive(Clone, Copy, Debug, PartialEq, Eq, Structural)]
pub enum WordSize {
    Bits8,
    Bits16,
    Bits32,
}

/// Which end of a transfer is read.
#[derive(Clone, Copy, Debug, PartialEq, Eq, Structural)]
pub enum Direction {
    FromPeripheral,
    FromMemory,
}

/// The settings of the DMA channel that copies converter results into the
/// sample buffer, round and round.
#[derive(Clone, Copy, Debug, PartialEq, Eq, Structural)]
pub struct Dma {
    pub priority: DmaPriority,
    pub word_size: WordSize,
    pub direction: Direction,
    pub peripheral_addr: u32,
    pub peripheral_increment: bool,
    pub memory_addr: u32,
    pub memory_increment: bool,
    pub transfer_length: u16,
    pub circular: bool,
}

impl Dma {
    /// Settings for a circular, highest-priority transfer of `len` half-words
    /// from the peripheral register at `peripheral_addr` into memory at
    /// `memory_addr`, stepping through memory only.
    pub fn new(peripheral_addr: u32, memory_addr: u32, len: u16) -> (r: Dma)
        ensures
            r == (Dma {
                priority: DmaPriority::VeryHigh,
                word_size: WordSize::Bits16,
                direction: Direction::FromPeripheral,
                peripheral_addr,
                peripheral_increment: false,
                memory_addr,
                memory_increment: true,
                transfer_length: len,
                circular: true,
            }),
    {
        Dma {
            priority: DmaPriority::VeryHigh,
            word_size: WordSize::Bits16,
            direction: Direction::FromPeripheral,
            peripheral_addr,
            peripheral_increment: false,
            memory_addr,
            memory_increment: true,
            transfer_length: len,
            circular: true,
        }
    }
}

} // verus!
