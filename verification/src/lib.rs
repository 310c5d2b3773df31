//! Models of hardware around an emulated compact Macintosh, and instrumentation
//! for it.
//!
//! * `onerom`: One ROM devices in the ROM socket.
//! * `dram`: DRAM rows that decay for want of refresh.
//! * `perf`: counters of bus accesses and interrupts.
//! * `settings`: reading of the textual settings of the models.

pub mod dram;
pub mod onerom;
pub mod perf;
pub mod settings;
