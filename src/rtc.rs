//! The real-time counter (RTC) of the nRF52: a type-state handle whose
//! counter is either stopped or started, and the register writes that
//! configure it.
//!
//! Each configuring operation gives the write to perform on the peripheral's
//! register block; performing it is the caller's part.

use vstd::prelude::*;

verus! {

/// Type state: the counter is stopped.
pub struct Stopped;

/// Type state: the counter runs.
pub struct Started;

/// The RTC peripheral `periph` in mode `M` (`Stopped` or `Started`).
pub struct Rtc<T, M> {
    pub periph: T,
    pub mode: M,
}

/// Takes hold of an RTC peripheral, with its counter stopped.
pub trait RtcExt: Sized {
    fn constrain(self) -> (r: Rtc<Self, Stopped>)
        ensures
            r.periph == self,
    ;
}

impl<T> RtcExt for T {
    fn constrain(self) -> (r: Rtc<T, Stopped>) {
        Rtc { periph: self, mode: Stopped }
    }
}

/// The interrupts and events of the RTC.
#[derive(Clone, Copy, Debug, PartialEq, Eq, Structural)]
pub enum RtcInterrupt {
    Tick,
    Overflow,
    Compare0,
    Compare1,
    Compare2,
    Compare3,
}

impl RtcInterrupt {
    /// The bit of the interrupt in the INTEN and EVTEN registers.
    pub open spec fn spec_mask(self) -> u32 {
        match self {
            RtcInterrupt::Tick => 1u32 << 0u32,
            RtcInterrupt::Overflow => 1u32 << 1u32,
            RtcInterrupt::Compare0 => 1u32 << 16u32,
            RtcInterrupt::Compare1 => 1u32 << 17u32,
            RtcInterrupt::Compare2 => 1u32 << 18u32,
            RtcInterrupt::Compare3 => 1u32 << 19u32,
        }
    }

    /// The bit of the interrupt in the INTEN and EVTEN registers.
    pub fn mask(&self) -> (r: u32)
        ensures
            r == self.spec_mask(),
    {
        match self {
            RtcInterrupt::Tick => 1u32 << 0u32,
            RtcInterrupt::Overflow => 1u32 << 1u32,
            RtcInterrupt::Compare0 => 1u32 << 16u32,
            RtcInterrupt::Compare1 => 1u32 << 17u32,
            RtcInterrupt::Compare2 => 1u32 << 18u32,
            RtcInterrupt::Compare3 => 1u32 << 19u32,
        }
    }
}

/// The four compare registers.
#[derive(Clone, Copy, Debug, PartialEq, Eq, Structural)]
pub enum RtcCompareReg {
    Compare0,
    Compare1,
    Compare2,
    Compare3,
}

impl RtcCompareReg {
    /// The index of the compare register.
    pub open spec fn spec_index(self) -> u8 {
        match self {
            RtcCompareReg::Compare0 => 0,
            RtcCompareReg::Compare1 => 1,
            RtcCompareReg::Compare2 => 2,
            RtcCompareReg::Compare3 => 3,
        }
    }
}

/// The registers that the driver writes.
#[derive(Clone, Copy, Debug, PartialEq, Eq, Structural)]
pub enum RtcRegister {
    /// INTENSET: a one bit enables that interrupt.
    IntenSet,
    /// INTENCLR: a one bit disables that interrupt.
    IntenClr,
    /// EVTENSET: a one bit enables routing of that event.
    EvtenSet,
    /// EVTENCLR: a one bit disables routing of that event.
    EvtenClr,
    /// EVENTS_TICK: set when the counter ticks.
    EventsTick,
    /// EVENTS_OVRFLW: set when the counter overflows.
    EventsOvrflw,
    /// EVENTS_COMPARE[n]: set when the counter reaches compare register n.
    EventsCompare(u8),
    /// CC[n]: the compare value of register n.
    Cc(u8),
    /// PRESCALER: the 12-bit counter prescaler.
    Prescaler,
}

/// One write of `bits` to `register`.
#[derive(Clone, Copy, Debug, PartialEq, Eq, Structural)]
pub struct RegisterWrite {
    pub register: RtcRegister,
    pub bits: u32,
}

/// Why a setting was refused.
#[derive(Clone, Copy, Debug, PartialEq, Eq, Structural)]
pub enum Error {
    /// The prescaler is 2^12 or more.
    PrescalerOutOfRange,
    /// The compare value is 2^24 or more.
    CompareOutOfRange,
}

/// The largest compare value plus one: the counter has 24 bits.
pub const COMPARE_LIMIT: u32 = 0x0100_0000;

/// The largest prescaler plus one: the prescaler has 12 bits.
pub const PRESCALER_LIMIT: u32 = 0x1000;

impl RtcInterrupt {
    /// The event register of the interrupt.
    pub open spec fn spec_event_register(self) -> RtcRegister {
        match self {
            RtcInterrupt::Tick => RtcRegister::EventsTick,
            RtcInterrupt::Overflow => RtcRegister::EventsOvrflw,
            RtcInterrupt::Compare0 => RtcRegister::EventsCompare(0),
            RtcInterrupt::Compare1 => RtcRegister::EventsCompare(1),
            RtcInterrupt::Compare2 => RtcRegister::EventsCompare(2),
            RtcInterrupt::Compare3 => RtcRegister::EventsCompare(3),
        }
    }
}

impl<T, M> Rtc<T, M> {
    /// The same peripheral with its counter started.
    pub fn enable_counter(self) -> (r: Rtc<T, Started>)
        ensures
            r.periph == self.periph,
    {
        Rtc { periph: self.periph, mode: Started }
    }

    /// The same peripheral with its counter stopped.
    pub fn disable_counter(self) -> (r: Rtc<T, Stopped>)
        ensures
            r.periph == self.periph,
    {
        Rtc { periph: self.periph, mode: Stopped }
    }

    /// The write that enables interrupt `irq`.
    pub fn enable_interrupt(&self, irq: RtcInterrupt) -> (r: RegisterWrite)
        ensures
            r == (RegisterWrite { register: RtcRegister::IntenSet, bits: irq.spec_mask() }),
    {
        RegisterWrite { register: RtcRegister::IntenSet, bits: irq.mask() }
    }

    /// The write that disables interrupt `irq`.
    pub fn disable_interrupt(&self, irq: RtcInterrupt) -> (r: RegisterWrite)
        ensures
            r == (RegisterWrite { register: RtcRegister::IntenClr, bits: irq.spec_mask() }),
    {
        RegisterWrite { register: RtcRegister::IntenClr, bits: irq.mask() }
    }

    /// The write that enables routing of event `evt`.
    pub fn enable_event(&self, evt: RtcInterrupt) -> (r: RegisterWrite)
        ensures
            r == (RegisterWrite { register: RtcRegister::EvtenSet, bits: evt.spec_mask() }),
    {
        RegisterWrite { register: RtcRegister::EvtenSet, bits: evt.mask() }
    }

    /// The write that disables routing of event `evt`.
    pub fn disable_event(&self, evt: RtcInterrupt) -> (r: RegisterWrite)
        ensures
            r == (RegisterWrite { register: RtcRegister::EvtenClr, bits: evt.spec_mask() }),
    {
        RegisterWrite { register: RtcRegister::EvtenClr, bits: evt.mask() }
    }

    /// Reads event `evt` from `current`, the value its event register holds
    /// now: whether the event has happened, and the write that goes back to
    /// the register (1 when `clear_on_read`, else 0).
    pub fn get_event(&self, evt: RtcInterrupt, clear_on_read: bool, current: u32) -> (r: (
        bool,
        RegisterWrite,
    ))
        ensures
            r.0 == (current == 1),
            r.1 == (RegisterWrite {
                register: evt.spec_event_register(),
                bits: if clear_on_read { 1u32 } else { 0u32 },
            }),
    {
        let register = match evt {
            RtcInterrupt::Tick => RtcRegister::EventsTick,
            RtcInterrupt::Overflow => RtcRegister::EventsOvrflw,
            RtcInterrupt::Compare0 => RtcRegister::EventsCompare(0),
            RtcInterrupt::Compare1 => RtcRegister::EventsCompare(1),
            RtcInterrupt::Compare2 => RtcRegister::EventsCompare(2),
            RtcInterrupt::Compare3 => RtcRegister::EventsCompare(3),
        };
        let bits: u32 = if clear_on_read { 1 } else { 0 };
        (current == 1, RegisterWrite { register, bits })
    }

    /// The write that sets compare register `reg` to `val`, which must fit
    /// the 24-bit counter.
    pub fn set_compare(&self, reg: RtcCompareReg, val: u32) -> (r: Result<RegisterWrite, Error>)
        ensures
            r is Ok <==> val < COMPARE_LIMIT,
            val >= COMPARE_LIMIT ==> r == Err::<RegisterWrite, Error>(Error::CompareOutOfRange),
            r matches Ok(w) ==> w == (RegisterWrite { register: RtcRegister::Cc(reg.spec_index()), bits: val }),
    {
        if val >= COMPARE_LIMIT {
            return Err(Error::CompareOutOfRange);
        }
        let index: u8 = match reg {
            RtcCompareReg::Compare0 => 0,
            RtcCompareReg::Compare1 => 1,
            RtcCompareReg::Compare2 => 2,
            RtcCompareReg::Compare3 => 3,
        };
        Ok(RegisterWrite { register: RtcRegister::Cc(index), bits: val })
    }

    /// Gives the peripheral back.
    pub fn release(self) -> (r: T)
        ensures
            r == self.periph,
    {
        self.periph
    }
}

impl<T> Rtc<T, Stopped> {
    /// The write that sets the prescaler, which must fit 12 bits; only while
    /// the counter is stopped.
    pub fn set_prescaler(&self, prescaler: u32) -> (r: Result<RegisterWrite, Error>)
        ensures
            r is Ok <==> prescaler < PRESCALER_LIMIT,
            prescaler >= PRESCALER_LIMIT ==> r == Err::<RegisterWrite, Error>(Error::PrescalerOutOfRange),
            r matches Ok(w) ==> w == (RegisterWrite { register: RtcRegister::Prescaler, bits: prescaler }),
    {
        if prescaler >= PRESCALER_LIMIT {
            return Err(Error::PrescalerOutOfRange);
        }
        Ok(RegisterWrite { register: RtcRegister::Prescaler, bits: prescaler })
    }
}

} // verus!
