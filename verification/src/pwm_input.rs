//! Model of a PWM input-capture reading: a timer in input-capture mode
//! latches the length of a full input period into one capture register and
//! the length of the high phase into another. The register-level
//! configuration that produces these counts lives outside the library;
//! here the two latched counts are held as plain values.

use vstd::prelude::*;

verus! {

/// A pair of counts latched by a PWM input-capture timer: the full period
/// and the duty (high-phase) portion of it, in timer ticks.
#[derive(Clone, Copy, Debug, PartialEq, Eq, Structural)]
pub struct PwmInput {
    period: u16,
    duty: u16,
}

impl PwmInput {
    /// The latched period count.
    pub closed spec fn spec_period(self) -> u16 {
        self.period
    }

    /// The latched duty count.
    pub closed spec fn spec_duty(self) -> u16 {
        self.duty
    }

    /// Hold a pair of counts latched from the capture registers.
    pub fn new(period: u16, duty: u16) -> (r: Self)
        ensures
            r.spec_period() == period,
            r.spec_duty() == duty,
    {
        PwmInput { period, duty }
    }

    /// The tick count of the most recently captured full input period.
    pub fn get_period(&self) -> (r: u16)
        ensures
            r == self.spec_period(),
    {
        self.period
    }

    /// The tick count of the high phase within the captured period.
    pub fn get_duty_cycle(&self) -> (r: u16)
        ensures
            r == self.spec_duty(),
    {
        self.duty
    }
}

} // verus!
