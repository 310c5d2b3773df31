//! What a One ROM device is and does, as a mathematical model.

use super::protocol;
use super::protocol::{KNOCK_LEN, HDR_TOK_LO, HDR_TOK_HI, HDR_PROG, HDR_SIZE, G_CONTROL, G_READ, G_MODIFY, G_NV, G_RESET, NOP, ENTER_CMD_RESP, EXIT_CMD_RESP, EXIT_CMD_RESP_SILENT, SWITCH_AND_EXIT, LOAD_AND_EXIT, EXIT_CMD_RESP_RESTORE, FLASH_SLOT_INFO, FLASH_SLOT_INFO_ALL, RAM_SLOT_INFO_ALL, DEVICE_NAME, FIRMWARE_VERSION, PROTOCOL_VERSION, SLOT_PEEK, BOOT_INFO, SLOT_POKE, SWITCH_SLOT, LOAD_SLOT, SLOT_POKE_ALL_BYTE, NV_INFO, NV_PEEK, NV_POKE_BEGIN, NV_POKE, NV_POKE_COMMIT, NV_POKE_CANCEL, NV_POKE_COMMIT_BYTE, RESERVED_AA, NRAM, NFLASH, NV_SIZE};
use vstd::prelude::*;

verus! {

/// Fault-injection settings. They exist to exercise a host's error handling.
#[derive(Clone, Copy)]
pub struct Faults {
    /// Devices disagree about which RAM slot is active. A host picks its write
    /// destination against that field, so on a broadcast bus a disagreement
    /// means one device's answer choosing a slot that is live on another.
    pub skew: bool,
    /// Stop maintaining the back-channel after this many commands (zero: never):
    /// the host issues a command and watches a token that never moves.
    pub deaf: u32,
    /// Start already in command-response mode, as a device left that way by a
    /// host reset mid-session really is. In that state no knock is needed and
    /// every read on the command page decodes as a command.
    pub entered: bool,
    /// Refuse to peek at a slot.
    pub nopeek: bool,
    /// 1: loading a slot is refused; 2: it fails half done, leaving the target
    /// slot holding part of an image.
    pub loadfail: u8,
}

/// What the device expects next.
#[derive(Clone, Copy, PartialEq, Eq, Structural)]
pub enum St {
    Knock,
    Group,
    Cmd,
    Args,
}

/// The state of a device.
#[verifier::ext_equal]
pub struct Device {
    /// The RAM slots and the flash slots, each of `size` bytes.
    pub ram: Seq<Seq<u8>>,
    pub flash: Seq<Seq<u8>>,
    pub size: int,
    /// The RAM slot that is served.
    pub active_slot: int,
    pub st: St,
    /// How much of the knock has been heard, and the most that ever was before
    /// it broke off.
    pub kmatch: int,
    pub kmax: int,
    /// The command being received, and the arguments it has and wants.
    pub group: u8,
    pub cmd: u8,
    pub args: Seq<u8>,
    pub nargs: int,
    pub want: int,
    /// Whether the device is in command-response mode, and what it was entered
    /// with: the command page, the back-channel region and its data area, and
    /// the bytes for "complete" and "succeeded".
    pub active: bool,
    pub cmd_page: int,
    pub region_off: int,
    pub data_size: int,
    pub complete: u8,
    pub status_ok: u8,
    /// The 16-bit count of commands noticed.
    pub token: int,
    /// Commands executed.
    pub cmds: int,
    pub idx: int,
    /// The slots the device reports.
    pub nram: int,
    pub nflash: int,
    /// Non-volatile storage, and the copy that a write to it is staged in.
    pub nv: Seq<u8>,
    pub stage: Option<Seq<u8>>,
    pub boot_flash: u8,
    pub boot_ram: u8,
}

/// `s` with `p` written over it from position `at`; what would fall outside is
/// dropped.
pub open spec fn overwritten(s: Seq<u8>, at: int, p: Seq<u8>) -> Seq<u8> {
    Seq::new(
        s.len(),
        |i: int|
            if at <= i < at + p.len() {
                p[i - at]
            } else {
                s[i]
            },
    )
}

/// `n` bytes of value `b`.
pub open spec fn filled(n: int, b: u8) -> Seq<u8> {
    Seq::new(n as nat, |i: int| b)
}

/// The complement of a byte.
pub open spec fn inverted(b: u8) -> u8 {
    (255 - b) as u8
}

/// Two bytes as a number, the low one first.
pub open spec fn le16(lo: u8, hi: u8) -> int {
    lo + 256 * hi
}

/// Three bytes as a number, the low one first.
pub open spec fn le24(lo: u8, mid: u8, hi: u8) -> int {
    lo + 256 * mid + 65536 * hi
}

/// The records of the first `n` flash slots, one after the other.
pub open spec fn flash_records(n: int, size: int) -> Seq<u8>
    decreases n,
{
    if n <= 0 {
        Seq::empty()
    } else {
        flash_records(n - 1, size) + protocol::flash_record(n - 1, size)
    }
}

impl Device {
    /// What holds of every device, also while it executes a command.
    pub open spec fn sound(self) -> bool {
        &&& self.ram.len() == NRAM
        &&& self.flash.len() == NFLASH
        &&& forall|s: int| 0 <= s < NRAM ==> (#[trigger] self.ram[s]).len() == self.size
        &&& forall|s: int| 0 <= s < NFLASH ==> (#[trigger] self.flash[s]).len() == self.size
        &&& 1 <= self.nram <= NRAM
        &&& 1 <= self.nflash <= NFLASH
        &&& 0 <= self.active_slot < self.nram
        &&& 0 <= self.kmatch < KNOCK_LEN
        &&& self.args.len() == 16
        &&& 0 <= self.nargs <= self.want <= 9
        &&& self.nv.len() == NV_SIZE
        &&& self.stage matches Some(s) ==> s.len() == NV_SIZE
        &&& 0 <= self.region_off
        &&& 0 <= self.data_size < 0x10000
        &&& 0 <= self.token < 0x10000
        &&& 0 <= self.cmds
    }

    /// What holds of every device between two bus cycles: it is sound, waits for
    /// arguments only while some are missing, and waits for no knock while it is
    /// in command-response mode.
    pub open spec fn wf(self) -> bool {
        &&& self.sound()
        &&& self.st == St::Args ==> self.nargs < self.want
        &&& self.active ==> self.st != St::Knock
    }

    /// The slot the host sees.
    pub open spec fn served(self) -> Seq<u8> {
        self.ram[self.active_slot]
    }

    /// The device with another content in one RAM slot.
    pub open spec fn with_slot(self, slot: int, content: Seq<u8>) -> Device {
        Device { ram: self.ram.update(slot, content), ..self }
    }

    /// The device with byte `b` at offset `off` of every slot.
    pub open spec fn seeded(self, off: int, b: u8) -> Device {
        Device {
            ram: self.ram.map_values(|s: Seq<u8>| s.update(off, b)),
            flash: self.flash.map_values(|s: Seq<u8>| s.update(off, b)),
            ..self
        }
    }

    /// The device with `p` written into the back-channel region from offset
    /// `off`.
    pub open spec fn channel_written(self, off: int, p: Seq<u8>) -> Device {
        self.with_slot(self.active_slot, overwritten(self.served(), self.region_off + off, p))
    }

    /// The byte at offset `off` of the back-channel region; zero past the end of
    /// the slot.
    pub open spec fn channel_byte(self, off: int) -> u8 {
        if self.region_off + off < self.size {
            self.served()[self.region_off + off]
        } else {
            0
        }
    }

    /// The device with `p` written into the data area from offset `off`; what
    /// does not fit in the area is dropped.
    pub open spec fn data_written(self, off: int, p: Seq<u8>) -> Device {
        if off >= self.data_size {
            self
        } else if off + p.len() > self.data_size {
            self.channel_written(HDR_SIZE + off, p.take(self.data_size - off))
        } else {
            self.channel_written(HDR_SIZE + off, p)
        }
    }

    /// A command noticed: the token moves on, and the header shows it beside the
    /// command, marked as not complete.
    pub open spec fn begun(self, g: u8, c: u8) -> Device {
        let token = (self.token + 1) % 0x10000;
        Device {
            token,
            ..self.channel_written(
                0,
                seq![
                    g,
                    c,
                    (token % 256) as u8,
                    (token / 256) as u8,
                    inverted(self.complete),
                ],
            )
        }
    }

    /// A command finished: the header says so, and how it went.
    pub open spec fn ended(self, ok: bool) -> Device {
        self.channel_written(
            HDR_PROG as int,
            seq![
                self.complete,
                if ok {
                    self.status_ok
                } else {
                    inverted(self.status_ok)
                },
            ],
        )
    }

    /// Whether the entry arguments are acceptable so far that the device takes
    /// the region over: sentinels that are not reserved, an aligned region, and
    /// room for a header.
    pub open spec fn entry_taken(self) -> bool {
        let region_off = le24(self.args[2], self.args[3], self.args[4]);
        &&& self.args[7] != RESERVED_AA
        &&& self.args[8] != RESERVED_AA
        &&& region_off % 4 == 0
        &&& region_off + HDR_SIZE <= self.size
    }

    /// The size of the region that the entry arguments ask for.
    pub open spec fn entry_size(self) -> int {
        le16(self.args[5], self.args[6])
    }

    /// Whether the region that the entry arguments ask for lies inside the slot.
    pub open spec fn entry_fits(self) -> bool {
        le24(self.args[2], self.args[3], self.args[4]) + self.entry_size() <= self.size
    }

    /// The device with the region and the sentinels that the entry arguments ask
    /// for, and the token that the region already holds.
    pub open spec fn placed(self) -> Device {
        let placed = Device {
            region_off: le24(self.args[2], self.args[3], self.args[4]),
            complete: self.args[7],
            status_ok: self.args[8],
            ..self
        };
        Device {
            token: le16(
                placed.channel_byte(HDR_TOK_LO as int),
                placed.channel_byte(HDR_TOK_HI as int),
            ),
            ..placed
        }
    }

    /// The device in command-response mode, on the page and with the data area
    /// that the entry arguments ask for.
    pub open spec fn opened(self) -> Device {
        Device {
            cmd_page: le16(self.args[0], self.args[1]),
            data_size: self.entry_size() - HDR_SIZE,
            active: true,
            ..self
        }
    }

    /// Entering command-response mode. The header of the region is cleared. A
    /// region that does not fit is reported as a failure through the region
    /// itself.
    pub open spec fn entering(self) -> (Device, bool) {
        if !self.entry_taken() {
            (self, false)
        } else if !self.entry_fits() {
            (self.placed().begun(G_CONTROL, ENTER_CMD_RESP).ended(false), false)
        } else {
            (self.placed().opened().channel_written(0, filled(HDR_SIZE as int, 0)), true)
        }
    }

    /// Entering command-response mode without writing to the region.
    pub open spec fn entering_unheard(self) -> Device {
        if !self.entry_taken() {
            self
        } else if !self.entry_fits() {
            self.placed()
        } else {
            self.placed().opened()
        }
    }

    /// The device after a reset: it waits for a knock, and a staged write is
    /// forgotten. The slots are not touched.
    pub open spec fn reset(self) -> Device {
        Device { st: St::Knock, kmatch: 0, active: false, stage: None, ..self }
    }

    /// Whether argument `i` names a RAM slot that the device reports.
    pub open spec fn names_ram(self, i: int) -> bool {
        self.args[i] != RESERVED_AA && self.args[i] < self.nram
    }

    /// Whether argument `i` names a RAM slot that the device reports and is not
    /// the one being served.
    pub open spec fn names_spare(self, i: int) -> bool {
        self.names_ram(i) && self.args[i] != self.active_slot
    }

    /// The control group.
    pub open spec fn control(self) -> (Device, bool) {
        let left = Device { active: false, ..self };
        if self.cmd == NOP {
            (self, true)
        } else if self.cmd == ENTER_CMD_RESP {
            self.entering()
        } else if self.cmd == EXIT_CMD_RESP || self.cmd == EXIT_CMD_RESP_SILENT {
            (left, true)
        } else if self.cmd == SWITCH_AND_EXIT {
            if self.names_ram(0) {
                (Device { active_slot: self.args[0] as int, ..left }, true)
            } else {
                (left, true)
            }
        } else if self.cmd == LOAD_AND_EXIT {
            if self.names_ram(0) && self.args[1] != RESERVED_AA && self.args[1] < NFLASH {
                (left.with_slot(self.args[0] as int, self.flash[self.args[1] as int]), true)
            } else {
                (left, true)
            }
        } else if self.cmd == EXIT_CMD_RESP_RESTORE {
            let n = self.args[8] as int;
            if 1 <= n <= 8 {
                (left.channel_written(0, self.args.take(n)), true)
            } else {
                (left, true)
            }
        } else {
            (self, false)
        }
    }

    /// The bytes a peek returns: those of the slot from `addr` on, and 0xFF past
    /// its end.
    pub open spec fn peeked(self, slot: int, addr: int, count: int) -> Seq<u8> {
        Seq::new(
            count as nat,
            |i: int|
                if addr + i < self.size {
                    self.ram[slot][addr + i]
                } else {
                    0xFFu8
                },
        )
    }

    /// How many flash records a reply to FLASH_SLOT_INFO_ALL holds: as many as fit
    /// behind the preamble, up to all that are reported.
    pub open spec fn records_sent(self) -> int {
        let room = (if self.data_size < 4 {
            0
        } else {
            self.data_size - 4
        }) / 32;
        if self.nflash < room {
            self.nflash
        } else {
            room
        }
    }

    /// The read group: everything is answered in the data area.
    pub open spec fn read(self, faults: Faults) -> (Device, bool) {
        if !self.active {
            (self, false)
        } else if self.cmd == FLASH_SLOT_INFO {
            if self.args[0] != RESERVED_AA && self.args[0] < self.nflash && self.data_size >= 32 {
                (self.data_written(0, protocol::flash_record(self.args[0] as int, self.size)), true)
            } else {
                (self, false)
            }
        } else if self.cmd == FLASH_SLOT_INFO_ALL {
            let n = self.records_sent();
            (
                self.data_written(
                    0,
                    seq![self.nflash as u8, n as u8, 32u8, 0u8] + flash_records(n, self.size),
                ),
                true,
            )
        } else if self.cmd == RAM_SLOT_INFO_ALL {
            (
                self.data_written(
                    0,
                    seq![self.nram as u8, self.active_slot as u8, protocol::rom_type(self.size), 0u8],
                ),
                true,
            )
        } else if self.cmd == DEVICE_NAME {
            (self.data_written(0, protocol::device_name()), true)
        } else if self.cmd == FIRMWARE_VERSION {
            (self.data_written(0, protocol::firmware_version()), true)
        } else if self.cmd == PROTOCOL_VERSION {
            (self.data_written(0, protocol::protocol_version()), true)
        } else if self.cmd == SLOT_PEEK {
            let count = self.args[0] as int;
            let addr = le24(self.args[1], self.args[2], self.args[3]);
            let slot = self.args[4] as int;
            if !faults.nopeek && slot < self.nram && 0 < count <= self.data_size {
                (self.data_written(0, self.peeked(slot, addr, count)), true)
            } else {
                (self, false)
            }
        } else if self.cmd == BOOT_INFO {
            (self.data_written(0, seq![self.boot_flash, self.boot_ram]), true)
        } else {
            (self, false)
        }
    }

    /// The modify group.
    pub open spec fn modify(self, faults: Faults) -> (Device, bool) {
        if !self.active {
            (self, false)
        } else if self.cmd == SLOT_POKE {
            let addr = le24(self.args[1], self.args[2], self.args[3]);
            let slot = self.args[4] as int;
            if self.names_spare(4) && addr < self.size {
                (self.with_slot(slot, self.ram[slot].update(addr, self.args[0])), true)
            } else {
                (self, false)
            }
        } else if self.cmd == SWITCH_SLOT {
            if self.names_ram(0) {
                (Device { active_slot: self.args[0] as int, ..self }, true)
            } else {
                (self, false)
            }
        } else if self.cmd == LOAD_SLOT {
            let to = self.args[0] as int;
            let from = self.args[1] as int;
            if !self.names_ram(0) || from >= self.nflash || faults.loadfail == 1 {
                (self, false)
            } else if faults.loadfail == 2 {
                (
                    self.with_slot(
                        to,
                        overwritten(self.ram[to], 0, self.flash[from].take(self.size / 2)),
                    ),
                    false,
                )
            } else {
                (self.with_slot(to, self.flash[from]), true)
            }
        } else if self.cmd == SLOT_POKE_ALL_BYTE {
            if self.names_spare(1) {
                (self.with_slot(self.args[1] as int, filled(self.size, self.args[0])), true)
            } else {
                (self, false)
            }
        } else {
            (self, false)
        }
    }

    /// The NV group. A write is staged, byte by byte, and takes effect as a
    /// whole; staging needs a RAM slot that is not being served.
    pub open spec fn nv_group(self) -> (Device, bool) {
        if !self.active {
            (self, false)
        } else if self.cmd == NV_INFO {
            (
                self.data_written(
                    0,
                    seq![(NV_SIZE as int % 256) as u8, (NV_SIZE as int / 256) as u8, 1u8],
                ),
                true,
            )
        } else if self.cmd == NV_PEEK {
            let count = self.args[0] as int;
            let loc = le16(self.args[1], self.args[2]);
            if count != 0 && loc + count <= NV_SIZE {
                (self.data_written(0, self.nv.subrange(loc, loc + count)), true)
            } else {
                (self, false)
            }
        } else if self.cmd == NV_POKE_BEGIN {
            if self.names_spare(0) {
                (Device { stage: Some(self.nv), ..self }, true)
            } else {
                (self, false)
            }
        } else if self.cmd == NV_POKE {
            let loc = le16(self.args[1], self.args[2]);
            match self.stage {
                Some(s) => if loc < NV_SIZE {
                    (Device { stage: Some(s.update(loc, self.args[0])), ..self }, true)
                } else {
                    (self, false)
                },
                None => (self, false),
            }
        } else if self.cmd == NV_POKE_COMMIT {
            match self.stage {
                Some(s) => (Device { nv: s, stage: None, ..self }, true),
                None => (self, false),
            }
        } else if self.cmd == NV_POKE_CANCEL {
            (Device { stage: None, ..self }, true)
        } else if self.cmd == NV_POKE_COMMIT_BYTE {
            let loc = le16(self.args[1], self.args[2]);
            if self.names_spare(3) && loc < NV_SIZE {
                (Device { nv: self.nv.update(loc, self.args[0]), ..self }, true)
            } else {
                (self, false)
            }
        } else {
            (self, false)
        }
    }

    /// What the received command does, and whether it succeeds.
    pub open spec fn dispatched(self, faults: Faults) -> (Device, bool) {
        if self.group == G_RESET {
            (self.reset(), true)
        } else if self.group == G_CONTROL {
            self.control()
        } else if self.group == G_READ {
            self.read(faults)
        } else if self.group == G_MODIFY {
            self.modify(faults)
        } else if self.group == G_NV {
            self.nv_group()
        } else {
            (self, false)
        }
    }

    /// What the received command does to a device that has stopped answering: what
    /// it does to any other, but that nothing is written to the back-channel, no
    /// header and no data.
    pub open spec fn dispatched_unheard(self, faults: Faults) -> Device {
        let (done, _) = self.dispatched(faults);
        if self.group == G_CONTROL && self.cmd == ENTER_CMD_RESP {
            self.entering_unheard()
        } else if self.group == G_READ || self.group == G_NV {
            Device { ram: self.ram, ..done }
        } else {
            done
        }
    }

    /// Whether the device has stopped answering.
    pub open spec fn deaf(self, faults: Faults) -> bool {
        0 < faults.deaf <= self.cmds
    }

    /// Whether the received command is answered in the header of the region that
    /// the device already has.
    pub open spec fn answers(self, faults: Faults) -> bool {
        self.active && !protocol::silent(self.group, self.cmd) && !self.deaf(faults)
    }

    /// The received command executed, with its answer. The header can only be
    /// written while a region is known; a device that has just been entered
    /// writes both halves afterwards. A deaf device writes nothing back.
    pub open spec fn executed(self, faults: Faults) -> Device {
        let noticed = if self.answers(faults) {
            self.begun(self.group, self.cmd)
        } else {
            self
        };
        let (done, ok) = noticed.dispatched(faults);
        let answered = if self.deaf(faults) {
            self.dispatched_unheard(faults)
        } else if self.answers(faults) {
            done.ended(ok)
        } else if !self.active && done.active {
            done.begun(self.group, self.cmd).ended(true)
        } else {
            done
        };
        Device { cmds: self.cmds + 1, ..answered }
    }

    /// The received command executed, and the device waiting for what comes
    /// next: another command while in command-response mode, a knock otherwise.
    pub open spec fn ran(self, faults: Faults) -> Device {
        let done = self.executed(faults);
        Device {
            st: if done.active {
                St::Group
            } else {
                St::Knock
            },
            ..done
        }
    }

    /// Whether a read at device offset `observed` means something to the device.
    /// In command-response mode only reads on the command page do; the others
    /// are ordinary fetches of the image being served.
    pub open spec fn heeds(self, observed: int) -> bool {
        self.active ==> observed / 256 == self.cmd_page
    }

    /// Whether reads at these offsets show `bytes` to the device, one each: on the
    /// command page in command-response mode, and otherwise each on any page.
    pub open spec fn hears(self, offsets: Seq<int>, bytes: Seq<u8>) -> bool {
        &&& offsets.len() == bytes.len()
        &&& forall|k: int|
            0 <= k < offsets.len() ==> (#[trigger] offsets[k]) % 256 == bytes[k] as int && (
            self.active ==> offsets[k] / 256 == self.cmd_page)
    }

    /// The device with byte `b` taken, and whether that completes a command.
    pub open spec fn taken(self, b: u8) -> (Device, bool) {
        match self.st {
            St::Knock => if b == protocol::knock()[self.kmatch] {
                if self.kmatch + 1 == KNOCK_LEN {
                    (Device { kmatch: 0, st: St::Group, ..self }, false)
                } else {
                    (Device { kmatch: self.kmatch + 1, ..self }, false)
                }
            } else {
                (
                    Device {
                        kmax: if self.kmatch > self.kmax {
                            self.kmatch
                        } else {
                            self.kmax
                        },
                        kmatch: if b == protocol::knock()[0] {
                            1
                        } else {
                            0
                        },
                        ..self
                    },
                    false,
                )
            },
            St::Group => (Device { group: b, st: St::Cmd, ..self }, false),
            St::Cmd => {
                let want = protocol::argument_count(self.group, b);
                if want == 0 {
                    (Device { cmd: b, nargs: 0, want, ..self }, true)
                } else {
                    (Device { cmd: b, nargs: 0, want, st: St::Args, ..self }, false)
                }
            },
            St::Args => (
                Device { args: self.args.update(self.nargs, b), nargs: self.nargs + 1, ..self },
                self.nargs + 1 >= self.want,
            ),
        }
    }

    /// The device after a bus cycle that reads device offset `observed`.
    pub open spec fn fed(self, observed: int, faults: Faults) -> Device {
        let (next, complete) = self.taken((observed % 256) as u8);
        if !self.heeds(observed) {
            self
        } else if complete {
            next.ran(faults)
        } else {
            next
        }
    }

    /// Whether the received command is no entry into a region without room for
    /// its own header.
    pub open spec fn header_fits(self) -> bool {
        self.group == G_CONTROL && self.cmd == ENTER_CMD_RESP && self.entry_taken()
            && self.entry_fits() ==> self.entry_size() >= HDR_SIZE
    }

    /// Whether the received command can be executed and counted in machine
    /// arithmetic: the count of commands does not run over, and a region to be
    /// entered has room for its own header.
    pub open spec fn in_range(self) -> bool {
        self.cmds < u32::MAX && self.header_fits()
    }

    /// Whether a bus cycle that reads device offset `observed` either completes
    /// no command or one that can be executed in machine arithmetic.
    pub open spec fn feedable(self, observed: int) -> bool {
        let (next, complete) = self.taken((observed % 256) as u8);
        self.heeds(observed) && complete ==> next.in_range()
    }

    /// The device that has received command `c` of group `g` with arguments `a`.
    pub open spec fn given(self, g: u8, c: u8, a: Seq<u8>) -> Device {
        Device {
            group: g,
            cmd: c,
            args: overwritten(self.args, 0, a),
            nargs: a.len() as int,
            want: a.len() as int,
            st: if a.len() == 0 {
                St::Cmd
            } else {
                St::Args
            },
            ..self
        }
    }

    /// The device after executing command `c` of group `g` with arguments `a`.
    pub open spec fn commanded(self, g: u8, c: u8, a: Seq<u8>, faults: Faults) -> Device {
        self.given(g, c, a).ran(faults)
    }

    /// The device after bus cycles that read these offsets, one after the other.
    #[verifier::opaque]
    pub open spec fn watched(self, offsets: Seq<int>, faults: Faults) -> Device
        decreases offsets.len(),
    {
        if offsets.len() == 0 {
            self
        } else {
            self.watched(offsets.drop_last(), faults).fed(offsets.last(), faults)
        }
    }
}

/// Whether the last `k` of these bytes are the first `k` of the knock.
pub open spec fn ends_in_knock(bytes: Seq<u8>, k: int) -> bool {
    &&& 0 <= k <= bytes.len()
    &&& k <= KNOCK_LEN
    &&& bytes.skip(bytes.len() - k) == protocol::knock().take(k)
}

/// The bytes that reads of these offsets show to a device.
pub open spec fn shown(offsets: Seq<int>) -> Seq<u8> {
    offsets.map_values(|o: int| (o % 256) as u8)
}

} // verus!
