//! Behavioural model of a One ROM device sitting in the Macintosh ROM socket.
//!
//! The device has no data-in path: it watches its own address bus. A host sends
//! the command byte `b` by reading `base + (cmd_page * 256 + b) * stride`, so
//! every read in the window is shown to a state machine that walks
//! knock -> group -> command -> arguments and then executes. Replies come back
//! through the back-channel, a region inside the slot being served that the
//! device writes its response header and data into.
//!
//! A bus cycle, not a byte, is what the device observes: a word access is one
//! cycle with every strobe asserted and presents one command byte, not two.
//! `OneRom::access` observes a cycle; `OneRom::fetch` returns the second byte of
//! a word without observing another.
//!
//! * `protocol`: the numbers of the protocol.
//! * `device`: what a device is and does, as a mathematical model.
//! * `dev`: the executable device, which is proved to do what the model says.
//! * `rom`: the devices on one bus, and their mapping into the address space.
//! * `commands`: what each command does, in the numbers on the bus.
//! * `laws`: what holds of a device over its commands.
//! * `sessions`: what holds of whole exchanges between a host and a device.
//! * `cycles`: what holds of the devices on one bus.

pub mod commands;
pub mod cycles;
pub mod dev;
pub mod device;
pub mod laws;
pub mod protocol;
pub mod rom;
pub mod sessions;

pub use device::Faults;
pub use rom::{OneRom, OneRomEnv};
