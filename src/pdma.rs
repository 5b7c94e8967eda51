//! The DMA peripheral and the channel creators it hands out, one per
//! DMA-capable peripheral.
use vstd::prelude::*;
use core::marker::PhantomData;
use crate::channel::{
    Channel, ChannelState, DirectionView, after_configure_ops, I2s0DmaSuitablePeripheral, I2s1DmaSuitablePeripheral,
    PeripheralMarker, Spi2DmaSuitablePeripheral, Spi3DmaSuitablePeripheral,
};
use crate::regs::{
    DmaPriority, DmaRegisters, RegisterAccess, RegisterBlock, RegisterOp, power_on_registers,
};
use crate::ring::DescriptorRing;

verus! {

/// The clock gates of the peripherals.
pub struct PeripheralClockControl {
    dma_enabled: bool,
}

impl PeripheralClockControl {
    pub closed spec fn dma_enabled_spec(&self) -> bool {
        self.dma_enabled
    }

    /// All clocks gated.
    pub fn new() -> (r: PeripheralClockControl)
        ensures
            !r.dma_enabled_spec(),
    {
        PeripheralClockControl { dma_enabled: false }
    }

    /// Ungates the DMA clock.
    pub fn enable_dma(&mut self)
        ensures
            final(self).dma_enabled_spec(),
    {
        self.dma_enabled = true;
    }

    pub fn is_dma_enabled(&self) -> (r: bool)
        ensures
            r == self.dma_enabled_spec(),
    {
        self.dma_enabled
    }
}

/// The token that stands for the DMA peripheral; there is one.
pub struct DmaPeripheral {}

/// Hands out the one channel of the peripheral family `P`.
pub struct ChannelCreator<P: PeripheralMarker> {
    regs: RegisterBlock,
    _phantom: PhantomData<P>,
}

impl<P: PeripheralMarker> ChannelCreator<P> {
    pub closed spec fn registers(&self) -> DmaRegisters {
        self.regs.registers()
    }

    /// The register writes made on the peripheral so far, oldest first.
    pub closed spec fn log(&self) -> Seq<RegisterOp> {
        self.regs.log()
    }

    fn new() -> (r: Self)
        ensures
            r.registers() == power_on_registers(),
            r.log() == Seq::<RegisterOp>::empty(),
    {
        ChannelCreator { regs: RegisterBlock::new(), _phantom: PhantomData }
    }

    /// Turns the creator into the channel: both directions configured with
    /// `burst_mode` and `priority`, idle, over the given rings.
    pub fn configure(
        self,
        burst_mode: bool,
        tx_descriptors: DescriptorRing,
        rx_descriptors: DescriptorRing,
        priority: DmaPriority,
    ) -> (r: Channel<RegisterBlock, P>)
        requires
            tx_descriptors.wf(),
            rx_descriptors.wf(),
        ensures
            r.wf(),
            r.tx_view() == (DirectionView {
                state: ChannelState::Idle,
                burst_mode,
                buffer_len: 0,
                links: 0,
                queued: 0,
                done: 0,
                progress: 0,
                last_seen: None,
                link_capacity: tx_descriptors.capacity_spec(),
                chain: tx_descriptors@,
            }),
            r.rx_view() == (DirectionView {
                state: ChannelState::Idle,
                burst_mode,
                buffer_len: 0,
                links: 0,
                queued: 0,
                done: 0,
                progress: 0,
                last_seen: None,
                link_capacity: rx_descriptors.capacity_spec(),
                chain: rx_descriptors@,
            }),
            r.registers() == (DmaRegisters {
                lane_selected: true,
                out_burst: burst_mode,
                in_burst: burst_mode,
                ..self.registers()
            }),
            r.log() == after_configure_ops(self.log(), burst_mode, priority),
    {
        Channel::new(self.regs, burst_mode, tx_descriptors, rx_descriptors, priority)
    }
}

/// DMA Peripheral
///
/// This offers the available DMA channels.
pub struct Dma {
    pub _inner: DmaPeripheral,
    pub spi2channel: ChannelCreator<Spi2DmaSuitablePeripheral>,
    pub spi3channel: ChannelCreator<Spi3DmaSuitablePeripheral>,
    pub i2s0channel: ChannelCreator<I2s0DmaSuitablePeripheral>,
    pub i2s1channel: ChannelCreator<I2s1DmaSuitablePeripheral>,
}

impl Dma {
    /// Create a DMA instance: the DMA clock is ungated and every channel
    /// creator starts from power-on registers.
    pub fn new(dma: DmaPeripheral, peripheral_clock_control: &mut PeripheralClockControl) -> (r: Dma)
        ensures
            final(peripheral_clock_control).dma_enabled_spec(),
            r.spi2channel.registers() == power_on_registers(),
            r.spi2channel.log() == Seq::<RegisterOp>::empty(),
            r.spi3channel.registers() == power_on_registers(),
            r.spi3channel.log() == Seq::<RegisterOp>::empty(),
            r.i2s0channel.registers() == power_on_registers(),
            r.i2s0channel.log() == Seq::<RegisterOp>::empty(),
            r.i2s1channel.registers() == power_on_registers(),
            r.i2s1channel.log() == Seq::<RegisterOp>::empty(),
    {
        peripheral_clock_control.enable_dma();
        Dma {
            _inner: dma,
            spi2channel: ChannelCreator::new(),
            spi3channel: ChannelCreator::new(),
            i2s0channel: ChannelCreator::new(),
            i2s1channel: ChannelCreator::new(),
        }
    }
}

} // verus!
