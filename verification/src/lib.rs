//! Verified real-time core for a four-wheel (mecanum-style) robot base.
//!
//! The crate covers the algorithmic substrate of the firmware: the
//! duty-cycle scaling function, the length-delimited byte-stuffing frame
//! codec, the encoder snapshot record and the priority-ceiling discipline
//! that guards it, the serial link handler state machine, and a model of
//! the PWM input-capture readings. Register-level peripheral configuration
//! and interrupt plumbing live outside the library.

pub mod codec;
pub mod interleave;
pub mod link;
pub mod pwm_input;
pub mod scale;
pub mod telemetry;

pub use codec::decode_in_place;
pub use codec::encode;
pub use codec::DecodeError;
pub use link::LinkHandler;
pub use link::LinkOutcome;
pub use pwm_input::PwmInput;
pub use scale::to_scale;
pub use telemetry::sample;
pub use telemetry::sampler_pass;
pub use telemetry::MotorCounts;
pub use telemetry::TelemetryCell;
