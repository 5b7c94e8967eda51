//! A descriptor-ring DMA channel core for SPI and I2S peripherals.
//!
//! `ring` slices a buffer into the chain of descriptors the DMA engine walks;
//! `regs` is the register interface of a DMA-capable peripheral; `channel`
//! drives a transfer in both directions and reports its outcome; `pdma` hands
//! out one channel per peripheral.
pub mod channel;
pub mod pdma;
pub mod regs;
pub mod ring;
