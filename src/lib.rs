//! A Memory Array Redcode Simulator: the virtual machine of Core War.
//!
//! Warriors written in Redcode share a circular memory and run one
//! instruction per step, round-robin over warriors and FIFO over each
//! warrior's processes.

pub mod redcode;
pub mod ring;
pub mod ops;
pub mod mars;
pub mod builder;
pub mod runtime;
pub mod laws;

pub use redcode::{Address, AddressingMode, Field, Instruction, OpCode, OpField, OpMode, Offset, Pid, Pin, Program};
pub use mars::{Mars, MarsConfig, MarsError, MarsEvent, MarsState};
pub use builder::{BuilderError, MarsBuilder};
pub use runtime::{Core, CoreEvent};
