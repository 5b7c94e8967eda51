//! The register operations a DMA-capable peripheral offers to a channel.
use vstd::prelude::*;

verus! {

/// Bus-arbitration priority hint.
#[derive(Clone, Copy, Debug, PartialEq, Eq, Structural)]
pub enum DmaPriority {
    Priority0,
    Priority1,
    Priority2,
    Priority3,
    Priority4,
    Priority5,
}

/// The DMA-related state of one peripheral's register block: configuration
/// the CPU writes, and the status flags and descriptor addresses the DMA
/// engine reports. Descriptor addresses are indices into the ring.
#[derive(Clone, Copy, Debug, PartialEq, Eq, Structural)]
pub struct DmaRegisters {
    pub lane_selected: bool,
    pub out_burst: bool,
    pub in_burst: bool,
    pub out_link: u32,
    pub in_link: u32,
    pub out_started: bool,
    pub in_started: bool,
    pub out_done: bool,
    pub out_eof: bool,
    pub out_descriptor_error: bool,
    pub in_done: bool,
    pub in_suc_eof: bool,
    pub in_descriptor_error: bool,
    pub out_eof_descriptor: usize,
    pub in_descriptor: usize,
    pub in_eof_length: usize,
}

/// One register operation of the CPU side, as recorded in order.
#[derive(Clone, Copy, Debug, PartialEq, Eq, Structural)]
pub enum RegisterOp {
    InitChannel,
    SetOutBurstMode(bool),
    SetOutPriority(DmaPriority),
    ClearOutInterrupts,
    ResetOut,
    SetOutDescriptors(u32),
    StartOut,
    SetInBurstMode(bool),
    SetInPriority(DmaPriority),
    ClearInInterrupts,
    ResetIn,
    SetInDescriptors(u32),
    StartIn,
}

/// Register state after the transmit flags were acknowledged.
pub open spec fn out_flags_cleared(r: DmaRegisters) -> DmaRegisters {
    DmaRegisters { out_done: false, out_eof: false, out_descriptor_error: false, ..r }
}

/// Register state after the receive flags were acknowledged.
pub open spec fn in_flags_cleared(r: DmaRegisters) -> DmaRegisters {
    DmaRegisters { in_done: false, in_suc_eof: false, in_descriptor_error: false, ..r }
}

/// The operations through which a channel drives one peripheral's DMA lane.
/// Each is a plain register access; `registers` is the state they act on, and
/// `log` the writes made so far, oldest first.
pub trait RegisterAccess: Sized {
    spec fn registers(&self) -> DmaRegisters;

    spec fn log(&self) -> Seq<RegisterOp>;

    /// Connects the peripheral to its DMA lane.
    fn init_channel(&mut self)
        ensures
            final(self).registers() == (DmaRegisters { lane_selected: true, ..old(self).registers() }),
            final(self).log() == old(self).log().push(RegisterOp::InitChannel),
    ;

    fn set_out_burstmode(&mut self, burst_mode: bool)
        ensures
            final(self).registers() == (DmaRegisters { out_burst: burst_mode, ..old(self).registers() }),
            final(self).log() == old(self).log().push(RegisterOp::SetOutBurstMode(burst_mode)),
    ;

    /// A hint the peripheral may ignore; it changes no state the channel reads.
    fn set_out_priority(&mut self, priority: DmaPriority)
        ensures
            final(self).registers() == old(self).registers(),
            final(self).log() == old(self).log().push(RegisterOp::SetOutPriority(priority)),
    ;

    fn clear_out_interrupts(&mut self)
        ensures
            final(self).registers() == out_flags_cleared(old(self).registers()),
            final(self).log() == old(self).log().push(RegisterOp::ClearOutInterrupts),
    ;

    /// Pulses the reset line of the transmit state machine.
    fn reset_out(&mut self)
        ensures
            final(self).registers() == (DmaRegisters { out_started: false, ..old(self).registers() }),
            final(self).log() == old(self).log().push(RegisterOp::ResetOut),
    ;

    fn set_out_descriptors(&mut self, address: u32)
        ensures
            final(self).registers() == (DmaRegisters { out_link: address, ..old(self).registers() }),
            final(self).log() == old(self).log().push(RegisterOp::SetOutDescriptors(address)),
    ;

    fn start_out(&mut self)
        ensures
            final(self).registers() == (DmaRegisters { out_started: true, ..old(self).registers() }),
            final(self).log() == old(self).log().push(RegisterOp::StartOut),
    ;

    fn is_out_done(&self) -> (r: bool)
        ensures
            r == self.registers().out_done,
    ;

    fn is_out_eof_set(&self) -> (r: bool)
        ensures
            r == self.registers().out_eof,
    ;

    fn has_out_descriptor_error(&self) -> (r: bool)
        ensures
            r == self.registers().out_descriptor_error,
    ;

    fn last_out_dscr_address(&self) -> (r: usize)
        ensures
            r == self.registers().out_eof_descriptor,
    ;

    fn set_in_burstmode(&mut self, burst_mode: bool)
        ensures
            final(self).registers() == (DmaRegisters { in_burst: burst_mode, ..old(self).registers() }),
            final(self).log() == old(self).log().push(RegisterOp::SetInBurstMode(burst_mode)),
    ;

    /// A hint the peripheral may ignore; it changes no state the channel reads.
    fn set_in_priority(&mut self, priority: DmaPriority)
        ensures
            final(self).registers() == old(self).registers(),
            final(self).log() == old(self).log().push(RegisterOp::SetInPriority(priority)),
    ;

    fn clear_in_interrupts(&mut self)
        ensures
            final(self).registers() == in_flags_cleared(old(self).registers()),
            final(self).log() == old(self).log().push(RegisterOp::ClearInInterrupts),
    ;

    /// Pulses the reset line of the receive state machine.
    fn reset_in(&mut self)
        ensures
            final(self).registers() == (DmaRegisters { in_started: false, ..old(self).registers() }),
            final(self).log() == old(self).log().push(RegisterOp::ResetIn),
    ;

    fn set_in_descriptors(&mut self, address: u32)
        ensures
            final(self).registers() == (DmaRegisters { in_link: address, ..old(self).registers() }),
            final(self).log() == old(self).log().push(RegisterOp::SetInDescriptors(address)),
    ;

    fn start_in(&mut self)
        ensures
            final(self).registers() == (DmaRegisters { in_started: true, ..old(self).registers() }),
            final(self).log() == old(self).log().push(RegisterOp::StartIn),
    ;

    fn is_in_done(&self) -> (r: bool)
        ensures
            r == self.registers().in_done,
    ;

    fn is_in_suc_eof_set(&self) -> (r: bool)
        ensures
            r == self.registers().in_suc_eof,
    ;

    fn has_in_descriptor_error(&self) -> (r: bool)
        ensures
            r == self.registers().in_descriptor_error,
    ;

    fn last_in_dscr_address(&self) -> (r: usize)
        ensures
            r == self.registers().in_descriptor,
    ;

    /// Bytes the peripheral wrote into the descriptor that ended the frame.
    fn last_in_dscr_length(&self) -> (r: usize)
        ensures
            r == self.registers().in_eof_length,
    ;
}

/// A peripheral's DMA register block held in memory. The CPU side goes through
/// `RegisterAccess`; the `signal_*` methods are the DMA engine's side, which
/// raises status flags and reports descriptor addresses.
pub struct RegisterBlock {
    state: DmaRegisters,
    log: Ghost<Seq<RegisterOp>>,
}

impl RegisterBlock {
    /// A block after power-on: everything cleared.
    pub fn new() -> (r: RegisterBlock)
        ensures
            r.registers() == power_on_registers(),
            r.log() == Seq::<RegisterOp>::empty(),
    {
        RegisterBlock {
            state: DmaRegisters {
                lane_selected: false,
                out_burst: false,
                in_burst: false,
                out_link: 0,
                in_link: 0,
                out_started: false,
                in_started: false,
                out_done: false,
                out_eof: false,
                out_descriptor_error: false,
                in_done: false,
                in_suc_eof: false,
                in_descriptor_error: false,
                out_eof_descriptor: 0,
                in_descriptor: 0,
                in_eof_length: 0,
            },
            log: Ghost(Seq::empty()),
        }
    }

    /// A copy of the whole register state.
    pub fn snapshot(&self) -> (r: DmaRegisters)
        ensures
            r == self.registers(),
    {
        self.state
    }

    /// The engine finished transmit descriptor `descriptor`.
    pub fn signal_out_done(&mut self, descriptor: usize)
        ensures
            final(self).registers() == (DmaRegisters {
                out_done: true,
                out_eof_descriptor: descriptor,
                ..old(self).registers()
            }),
            final(self).log() == old(self).log(),
    {
        self.state.out_done = true;
        self.state.out_eof_descriptor = descriptor;
    }

    /// The engine finished the transmit descriptor that ends the frame.
    pub fn signal_out_eof(&mut self, descriptor: usize)
        ensures
            final(self).registers() == (DmaRegisters {
                out_done: true,
                out_eof: true,
                out_eof_descriptor: descriptor,
                ..old(self).registers()
            }),
            final(self).log() == old(self).log(),
    {
        self.state.out_done = true;
        self.state.out_eof = true;
        self.state.out_eof_descriptor = descriptor;
    }

    /// The engine met a malformed or unreachable transmit link.
    pub fn signal_out_descriptor_error(&mut self)
        ensures
            final(self).registers() == (DmaRegisters {
                out_descriptor_error: true,
                ..old(self).registers()
            }),
            final(self).log() == old(self).log(),
    {
        self.state.out_descriptor_error = true;
    }

    /// The engine filled receive descriptor `descriptor`.
    pub fn signal_in_done(&mut self, descriptor: usize)
        ensures
            final(self).registers() == (DmaRegisters {
                in_done: true,
                in_descriptor: descriptor,
                ..old(self).registers()
            }),
            final(self).log() == old(self).log(),
    {
        self.state.in_done = true;
        self.state.in_descriptor = descriptor;
    }

    /// The peripheral ended the received frame in descriptor `descriptor`,
    /// after writing `length` bytes into it.
    pub fn signal_in_suc_eof(&mut self, descriptor: usize, length: usize)
        ensures
            final(self).registers() == (DmaRegisters {
                in_done: true,
                in_suc_eof: true,
                in_descriptor: descriptor,
                in_eof_length: length,
                ..old(self).registers()
            }),
            final(self).log() == old(self).log(),
    {
        self.state.in_done = true;
        self.state.in_suc_eof = true;
        self.state.in_descriptor = descriptor;
        self.state.in_eof_length = length;
    }

    /// The engine met a malformed or unreachable receive link.
    pub fn signal_in_descriptor_error(&mut self)
        ensures
            final(self).registers() == (DmaRegisters {
                in_descriptor_error: true,
                ..old(self).registers()
            }),
            final(self).log() == old(self).log(),
    {
        self.state.in_descriptor_error = true;
    }
}

/// Register state right after power-on.
pub open spec fn power_on_registers() -> DmaRegisters {
    DmaRegisters {
        lane_selected: false,
        out_burst: false,
        in_burst: false,
        out_link: 0,
        in_link: 0,
        out_started: false,
        in_started: false,
        out_done: false,
        out_eof: false,
        out_descriptor_error: false,
        in_done: false,
        in_suc_eof: false,
        in_descriptor_error: false,
        out_eof_descriptor: 0,
        in_descriptor: 0,
        in_eof_length: 0,
    }
}

impl RegisterAccess for RegisterBlock {
    closed spec fn registers(&self) -> DmaRegisters {
        self.state
    }

    closed spec fn log(&self) -> Seq<RegisterOp> {
        self.log@
    }

    fn init_channel(&mut self) {
        proof {
            self.log@ = self.log@.push(RegisterOp::InitChannel);
        }
        self.state.lane_selected = true;
    }

    fn set_out_burstmode(&mut self, burst_mode: bool) {
        proof {
            self.log@ = self.log@.push(RegisterOp::SetOutBurstMode(burst_mode));
        }
        self.state.out_burst = burst_mode;
    }

    fn set_out_priority(&mut self, priority: DmaPriority) {
        proof {
            self.log@ = self.log@.push(RegisterOp::SetOutPriority(priority));
        }
    }

    fn clear_out_interrupts(&mut self) {
        proof {
            self.log@ = self.log@.push(RegisterOp::ClearOutInterrupts);
        }
        self.state.out_done = false;
        self.state.out_eof = false;
        self.state.out_descriptor_error = false;
    }

    fn reset_out(&mut self) {
        proof {
            self.log@ = self.log@.push(RegisterOp::ResetOut);
        }
        self.state.out_started = false;
    }

    fn set_out_descriptors(&mut self, address: u32) {
        proof {
            self.log@ = self.log@.push(RegisterOp::SetOutDescriptors(address));
        }
        self.state.out_link = address;
    }

    fn start_out(&mut self) {
        proof {
            self.log@ = self.log@.push(RegisterOp::StartOut);
        }
        self.state.out_started = true;
    }

    fn is_out_done(&self) -> (r: bool) {
        self.state.out_done
    }

    fn is_out_eof_set(&self) -> (r: bool) {
        self.state.out_eof
    }

    fn has_out_descriptor_error(&self) -> (r: bool) {
        self.state.out_descriptor_error
    }

    fn last_out_dscr_address(&self) -> (r: usize) {
        self.state.out_eof_descriptor
    }

    fn set_in_burstmode(&mut self, burst_mode: bool) {
        proof {
            self.log@ = self.log@.push(RegisterOp::SetInBurstMode(burst_mode));
        }
        self.state.in_burst = burst_mode;
    }

    fn set_in_priority(&mut self, priority: DmaPriority) {
        proof {
            self.log@ = self.log@.push(RegisterOp::SetInPriority(priority));
        }
    }

    fn clear_in_interrupts(&mut self) {
        proof {
            self.log@ = self.log@.push(RegisterOp::ClearInInterrupts);
        }
        self.state.in_done = false;
        self.state.in_suc_eof = false;
        self.state.in_descriptor_error = false;
    }

    fn reset_in(&mut self) {
        proof {
            self.log@ = self.log@.push(RegisterOp::ResetIn);
        }
        self.state.in_started = false;
    }

    fn set_in_descriptors(&mut self, address: u32) {
        proof {
            self.log@ = self.log@.push(RegisterOp::SetInDescriptors(address));
        }
        self.state.in_link = address;
    }

    fn start_in(&mut self) {
        proof {
            self.log@ = self.log@.push(RegisterOp::StartIn);
        }
        self.state.in_started = true;
    }

    fn is_in_done(&self) -> (r: bool) {
        self.state.in_done
    }

    fn is_in_suc_eof_set(&self) -> (r: bool) {
        self.state.in_suc_eof
    }

    fn has_in_descriptor_error(&self) -> (r: bool) {
        self.state.in_descriptor_error
    }

    fn last_in_dscr_address(&self) -> (r: usize) {
        self.state.in_descriptor
    }

    fn last_in_dscr_length(&self) -> (r: usize) {
        self.state.in_eof_length
    }
}

} // verus!
