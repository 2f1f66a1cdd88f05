//! A sans-I/O core for delivering SCPI instrument commands over UDP or TCP.
//!
//! The crate decides *what* has to happen on the network (which socket to
//! open, which bytes to write, when a pause has lasted long enough) and leaves
//! the socket calls themselves to a driver. Every decision is a function from
//! plain values to plain values and carries a machine-checked contract.

pub mod error;
pub mod networking;
pub mod framing;
pub mod address;
pub mod duty_cycle;
pub mod messenger;
pub mod trace;
pub mod dispatch;
pub mod status;

pub use dispatch::{
    send_duty_cycled_message, send_list_of_scpi_messages, send_repeated_scpi_message,
    send_scpi_message,
};
