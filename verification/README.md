# snow_core

Verified models of hardware around an emulated compact Macintosh.

* `src/onerom/`: One ROM devices in the ROM socket, which take their commands
  from the addresses that a host reads. `device.rs` says what a device is and
  does; `dev.rs` and `rom.rs` are proved to do so; `laws.rs`, `sessions.rs` and
  `cycles.rs` prove what follows for commands, for whole exchanges and for the
  devices on one bus.
* `src/dram/`: DRAM rows that lose bits when nothing refreshes them.
* `src/perf/`: counters of bus accesses and interrupts, and the figures made of
  them once per emulated second.
* `src/settings.rs`: reading of the textual settings of the models.
* `app/`: the models wired to environment variables, the log and saved states.
* `tests/`: the library on concrete values.
