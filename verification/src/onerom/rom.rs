//! The devices on one bus, and their mapping into the address space.

use super::dev;
use super::dev::{feed, Dev};
use super::device::{Device, Faults, St};
use super::protocol::{HDR_SIZE, NFLASH, NRAM};
use crate::settings;
use crate::settings::{byte, flag, num};
use vstd::prelude::*;

verus! {

/// The devices behind the ROM window, which hold the bytes of the window in
/// turn.
pub struct OneRom {
    pub devs: Vec<Dev>,
    pub ndev: usize,
    /// Whether a byte access selects one device only.
    pub gated: bool,
    /// Consecutive bytes of the window that belong to one device.
    pub dev_bytes: u32,
    /// Bytes of the window that one bus cycle covers.
    pub stride: u32,
    pub base: u32,
    pub per_dev: u32,
    /// Whether the bytes of one device are served in reverse.
    pub swap: bool,
    pub faults: Faults,
}

/// The settings of the model, as the environment gives them.
pub struct OneRomEnv {
    /// `SNOW_ONEROM`: `1` enables the model.
    pub enable: Option<String>,
    /// `SNOW_ONEROM_BASE`: window base (default 0x400000, the Plus ROM).
    pub base: Option<String>,
    /// `SNOW_ONEROM_DEVS`: devices on the bus (default 2, one per lane).
    pub devs: Option<String>,
    /// `SNOW_ONEROM_FLASH`: flash slots each device reports (default 3).
    pub flash: Option<String>,
    /// `SNOW_ONEROM_RAMSLOTS`: RAM slots each device reports (default 2).
    pub ramslots: Option<String>,
    /// `SNOW_ONEROM_NV0`: preloads NV byte 0, the saved default slot; absent
    /// leaves NV blank (0xFF: nothing saved).
    pub nv0: Option<String>,
    /// `SNOW_ONEROM_SKEW`, `_DEAF`, `_ENTERED`, `_NOPEEK`, `_LOADFAIL`: the
    /// faults to inject.
    pub skew: Option<String>,
    pub deaf: Option<String>,
    pub entered: Option<String>,
    pub nopeek: Option<String>,
    pub loadfail: Option<String>,
    /// `SNOW_ONEROM_ENTERED_PAGE`, `SNOW_ONEROM_ENTERED_BCH`: command page and
    /// back-channel offset of devices that start in command-response mode
    /// (default 0xE0 and 0xE100).
    pub entered_page: Option<String>,
    pub entered_bch: Option<String>,
}

/// `n` moved into the range from `lo` to `hi`.
pub open spec fn clamped(n: int, lo: int, hi: int) -> int {
    if n < lo {
        lo
    } else if n > hi {
        hi
    } else {
        n
    }
}

impl OneRomEnv {
    pub open spec fn ndev(self) -> int {
        clamped(settings::number(settings::text(self.devs), 2), 1, 4)
    }

    pub open spec fn nflash(self) -> int {
        clamped(settings::number(settings::text(self.flash), 3), 1, NFLASH as int)
    }

    pub open spec fn nram(self) -> int {
        clamped(settings::number(settings::text(self.ramslots), 2), 1, NRAM as int)
    }

    pub open spec fn faults(self) -> Faults {
        Faults {
            skew: settings::switched_on(settings::text(self.skew)),
            deaf: settings::number(settings::text(self.deaf), 0) as u32,
            entered: settings::switched_on(settings::text(self.entered)),
            nopeek: settings::switched_on(settings::text(self.nopeek)),
            loadfail: (settings::number(settings::text(self.loadfail), 0) % 256) as u8,
        }
    }

    /// Device `i` before an image is loaded: blank but for the preloaded NV
    /// byte, in command-response mode if it starts so, and with another slot
    /// active than device 0 if the devices disagree.
    pub open spec fn prepared(self, i: int, size: int) -> Device {
        let blank = dev::blank(i, size, self.nram(), self.nflash());
        let preloaded = match settings::decimal_byte(settings::text(self.nv0)) {
            Some(v) => Device { nv: blank.nv.update(0, v as u8), ..blank },
            None => blank,
        };
        let opened = if self.faults().entered {
            Device {
                st: St::Group,
                active: true,
                cmd_page: settings::number(settings::text(self.entered_page), 0xE0) % 0x10000,
                region_off: settings::number(settings::text(self.entered_bch), 0xE100),
                data_size: 160 - HDR_SIZE,
                complete: 0xBB,
                status_ok: 0xCC,
                ..preloaded
            }
        } else {
            preloaded
        };
        if self.faults().skew && i > 0 && self.nram() > 1 {
            Device { active_slot: 1, ..opened }
        } else {
            opened
        }
    }

    /// The bytes of an image of `len` bytes that each device holds.
    pub open spec fn per_dev(self, len: int) -> int {
        len % 0x1_0000_0000 / self.ndev()
    }

    /// The devices before an image is loaded.
    pub open spec fn bus(self, len: int) -> Bus {
        Bus {
            devs: Seq::new(self.ndev() as nat, |i: int| self.prepared(i, self.per_dev(len))),
            gated: true,
            dev_bytes: 1,
            stride: self.ndev(),
            base: settings::number(settings::text(self.base), 0x40_0000),
            per_dev: self.per_dev(len),
            swap: false,
            faults: self.faults(),
        }
    }

    /// The model that these settings ask for, serving `rom`.
    pub open spec fn configured(self, rom: Seq<u8>) -> Bus {
        self.bus(rom.len() as int).loaded(rom)
    }

    /// The model, if the settings ask for one.
    pub open spec fn model(self, rom: Seq<u8>) -> Option<Bus> {
        if settings::switched_on(settings::text(self.enable)) {
            Some(self.configured(rom))
        } else {
            None
        }
    }
}

/// The state of the devices on a bus.
#[verifier::ext_equal]
pub struct Bus {
    pub devs: Seq<Device>,
    pub gated: bool,
    pub dev_bytes: int,
    pub stride: int,
    pub base: int,
    pub per_dev: int,
    pub swap: bool,
    pub faults: Faults,
}

/// The states of some devices.
pub open spec fn states(devs: Seq<Dev>) -> Seq<Device> {
    devs.map_values(|d: Dev| d@)
}

impl View for OneRom {
    type V = Bus;

    open spec fn view(&self) -> Bus {
        Bus {
            devs: states(self.devs@),
            gated: self.gated,
            dev_bytes: self.dev_bytes as int,
            stride: self.stride as int,
            base: self.base as int,
            per_dev: self.per_dev as int,
            swap: self.swap,
            faults: self.faults,
        }
    }
}

/// The last index below `len` that agrees with `at` modulo 2^32.
pub open spec fn last_copy(len: int, at: int) -> int {
    at + (len - 1 - at) / 0x1_0000_0000 * 0x1_0000_0000
}

impl Bus {
    /// What holds of every bus: one to four devices, all well formed, of one or
    /// two bytes each, those of two bytes with their bytes swapped.
    pub open spec fn wf(self) -> bool {
        &&& 1 <= self.devs.len() <= 4
        &&& self.dev_bytes == 1 || self.dev_bytes == 2
        &&& self.swap == (self.dev_bytes == 2)
        &&& self.stride == self.devs.len() * self.dev_bytes
        &&& 0 <= self.per_dev
        &&& self.per_dev * self.stride <= u32::MAX
        &&& forall|i: int| 0 <= i < self.devs.len() ==> (#[trigger] self.devs[i]).wf()
    }

    /// The size of the window.
    pub open spec fn window(self) -> int {
        self.per_dev * self.stride
    }

    /// Whether `addr` lies in the window.
    pub open spec fn holds(self, addr: int) -> bool {
        self.base <= addr < self.base + self.window()
    }

    /// Whether there is a device `i`, and it is in command-response mode.
    pub open spec fn in_session(self, i: int) -> bool {
        0 <= i < self.devs.len() && self.devs[i].active
    }

    /// How many commands device `i` has executed; none if there is no such device.
    pub open spec fn executed_by(self, i: int) -> int {
        if 0 <= i < self.devs.len() {
            self.devs[i].cmds
        } else {
            0
        }
    }

    /// The device that holds the byte at `addr`.
    pub open spec fn lane(self, addr: int) -> int {
        (addr - self.base) % self.stride / self.dev_bytes
    }

    /// The offset inside a device that a read of `addr` puts on its address bus.
    pub open spec fn offset(self, addr: int) -> int {
        let k = (addr - self.base) % self.stride % self.dev_bytes;
        (addr - self.base) / self.stride * self.dev_bytes + (if self.swap {
            self.dev_bytes - 1 - k
        } else {
            k
        })
    }

    /// The byte served at `addr`; 0xFF past the end of the device.
    pub open spec fn byte_at(self, addr: int) -> u8 {
        let d = self.devs[self.lane(addr)];
        if self.offset(addr) < d.size {
            d.served()[self.offset(addr)]
        } else {
            0xFF
        }
    }

    /// Whether an access reaches device `i`: a word access reaches all of them,
    /// a byte access only the one that holds the byte unless selects are not
    /// gated.
    pub open spec fn reaches(self, addr: int, width: int, i: int) -> bool {
        width >= 2 || !self.gated || i == self.lane(addr)
    }

    /// The devices after an access: each that it reaches has seen one bus cycle.
    pub open spec fn accessed(self, addr: int, width: int) -> Bus {
        Bus {
            devs: Seq::new(
                self.devs.len(),
                |i: int|
                    if self.reaches(addr, width, i) {
                        self.devs[i].fed(self.offset(addr), self.faults)
                    } else {
                        self.devs[i]
                    },
            ),
            ..self
        }
    }

    /// An access: the devices after it, and the byte that is then served.
    pub open spec fn read(self, addr: int, width: int) -> (Bus, u8) {
        (self.accessed(addr, width), self.accessed(addr, width).byte_at(addr))
    }

    /// Whether the window ends below 2^32.
    pub open spec fn fits(self) -> bool {
        self.base + self.window() <= u32::MAX
    }

    /// The position in an image of the byte that device `lane` holds at `off`.
    pub open spec fn position(self, lane: int, off: int) -> int {
        off / self.dev_bytes * self.stride + lane * self.dev_bytes + off % self.dev_bytes
    }

    /// The content of a slot of device `lane` after an image has been split
    /// across the devices. Positions are counted modulo 2^32, and of two bytes
    /// in one position the later one stays.
    pub open spec fn split_slot(self, lane: int, slot: Seq<u8>, image: Seq<u8>) -> Seq<u8> {
        Seq::new(
            slot.len(),
            |off: int|
                {
                    let at = self.position(lane, off);
                    if at < image.len() && at < 0x1_0000_0000 {
                        image[last_copy(image.len() as int, at)]
                    } else {
                        slot[off]
                    }
                },
        )
    }

    /// The devices with an image split across them, in every slot.
    pub open spec fn loaded(self, image: Seq<u8>) -> Bus {
        Bus {
            devs: Seq::new(
                self.devs.len(),
                |i: int|
                    Device {
                        ram: self.devs[i].ram.map_values(|s: Seq<u8>| self.split_slot(i, s, image)),
                        flash: self.devs[i].flash.map_values(
                            |s: Seq<u8>| self.split_slot(i, s, image),
                        ),
                        ..self.devs[i]
                    },
            ),
            ..self
        }
    }

    /// Whether an access stays within machine arithmetic: it does not lie below
    /// the window, and no device it reaches completes a command that cannot be
    /// executed.
    pub open spec fn accessible(self, addr: int, width: int) -> bool {
        &&& self.base <= addr
        &&& forall|i: int|
            0 <= i < self.devs.len() && self.reaches(addr, width, i)
                ==> (#[trigger] self.devs[i]).feedable(self.offset(addr))
    }
}

impl OneRom {
    /// What holds of every model.
    pub open spec fn wf(self) -> bool {
        self@.wf() && self.ndev == self@.devs.len()
    }

    /// Builds the model that the settings ask for, or `None` when it is not
    /// enabled. Every slot is seeded with the ROM image the machine was launched
    /// with, split across the devices as the hardware splits it.
    pub fn from_env(rom: &[u8], env: &OneRomEnv) -> (r: Option<OneRom>)
        ensures
            r is Some <==> settings::switched_on(settings::text(env.enable)),
            r matches Some(m) ==> m.wf() && m@ == env.configured(rom@),
            env.model(rom@) == (match r {
                Some(m) => Some(m@),
                None => None,
            }),
    {
        if !flag(&env.enable) {
            return None;
        }
        let base: u32 = num(&env.base, 0x40_0000);
        let ndev: u32 = clamp(num(&env.devs, 2), 1, 4);
        let nflash: u32 = clamp(num(&env.flash, 3), 1, NFLASH as u32);
        let nram: u32 = clamp(num(&env.ramslots, 2), 1, NRAM as u32);
        let nv0: Option<u8> = byte(&env.nv0);
        let faults: Faults = Faults {
            skew: flag(&env.skew),
            deaf: num(&env.deaf, 0),
            entered: flag(&env.entered),
            nopeek: flag(&env.nopeek),
            loadfail: (num(&env.loadfail, 0) % 256) as u8,
        };
        let dev_bytes: u32 = 1;  // 8-bit devices, one per lane of the bus
        let stride: u32 = ndev;
        let per_dev: u32 = (rom.len() as u64 % 0x1_0000_0000) as u32 / stride;
        let page: u32 = num(&env.entered_page, 0xE0) % 0x10000;
        let bch: u32 = num(&env.entered_bch, 0xE100);

        let mut devs: Vec<Dev> = Vec::new();
        let mut i: u32 = 0;
        while i < ndev
            invariant
                i <= ndev <= 4,
                ndev == env.ndev(),
                nflash == env.nflash(),
                nram == env.nram(),
                1 <= nram <= NRAM,
                1 <= nflash <= NFLASH,
                nv0 matches Some(v) ==> settings::decimal_byte(settings::text(env.nv0)) == Some(
                    v as int,
                ),
                nv0 is None ==> settings::decimal_byte(settings::text(env.nv0)) is None,
                faults == env.faults(),
                page == settings::number(settings::text(env.entered_page), 0xE0) % 0x10000,
                page < 0x10000,
                bch == settings::number(settings::text(env.entered_bch), 0xE100),
                devs@.len() == i,
                forall|j: int|
                    0 <= j < i ==> (#[trigger] devs@[j])@ == env.prepared(j, per_dev as int)
                        && devs@[j]@.wf(),
            decreases ndev - i,
        {
            let mut d = Dev::new(i as usize, per_dev, nram as usize, nflash as usize);
            if let Some(v) = nv0 {
                d.nv[0] = v;
            }
            // A device left in command-response mode by a host reset. It is past
            // the knock, and every read on its command page is part of a command.
            if faults.entered {
                d.st = St::Group;
                d.active = true;
                d.cmd_page = page as u16;
                d.region_off = bch;
                d.data_size = 160 - HDR_SIZE;
                d.complete = 0xBB;
                d.status_ok = 0xCC;
            }
            if faults.skew && i > 0 && nram > 1 {
                d.active_slot = 1;
            }
            assert(d@ =~= env.prepared(i as int, per_dev as int));
            devs.push(d);
            i = i + 1;
        }
        let mut m = OneRom {
            devs,
            ndev: ndev as usize,
            gated: true,
            dev_bytes,
            stride,
            base,
            per_dev,
            swap: dev_bytes == 2,
            faults,
        };
        proof {
            let bus = env.bus(rom@.len() as int);
            assert(m@.devs =~= bus.devs);
            assert(m@ =~= bus);
            assert(per_dev * stride <= u32::MAX) by (nonlinear_arith)
                requires
                    per_dev == (rom@.len() % 0x1_0000_0000) as int / stride as int,
                    0 < stride,
            ;
            assert forall|j: int| 0 <= j < m@.devs.len() implies (#[trigger] m@.devs[j]).wf() by {
                assert(m@.devs[j] == m.devs@[j]@);
            }
        }
        m.load_image(rom);
        Some(m)
    }

    /// Whether the model is well formed, as any model is that was built by
    /// `from_env` and has only been accessed.
    pub fn is_wf(&self) -> (r: bool)
        ensures
            r == self.wf(),
    {
        let n: usize = self.devs.len();
        let shaped: bool = 1 <= n && n <= 4 && self.ndev == n && (self.dev_bytes == 1
            || self.dev_bytes == 2) && self.swap == (self.dev_bytes == 2) && self.stride == n as u32
            * self.dev_bytes;
        if !shaped {
            return false;
        }
        assert(self.per_dev * self.stride <= u64::MAX) by (nonlinear_arith)
            requires
                self.per_dev <= u32::MAX,
                self.stride <= u32::MAX,
        ;
        if self.per_dev as u64 * self.stride as u64 > u32::MAX as u64 {
            return false;
        }
        let mut i: usize = 0;
        while i < n
            invariant
                i <= n,
                n == self@.devs.len(),
                forall|j: int| 0 <= j < i ==> (#[trigger] self@.devs[j]).wf(),
            decreases n - i,
        {
            assert(self.devs@[i as int]@ == self@.devs[i as int]);
            if !self.devs[i].is_wf() {
                return false;
            }
            i = i + 1;
        }
        true
    }

    /// Whether the access `addr`, `width` stays within machine arithmetic.
    pub fn can_access(&self, addr: u32, width: u32) -> (r: bool)
        requires
            self.wf(),
        ensures
            r == self@.accessible(addr as int, width as int),
    {
        if addr < self.base {
            return false;
        }
        let (lane, observed) = self.map(addr);
        let n: usize = self.ndev;
        let mut i: usize = 0;
        while i < n
            invariant
                i <= n,
                self.wf(),
                n == self.ndev,
                self@.base <= addr,
                lane == self@.lane(addr as int),
                observed == self@.offset(addr as int),
                forall|j: int|
                    0 <= j < i && self@.reaches(addr as int, width as int, j)
                        ==> (#[trigger] self@.devs[j]).feedable(observed as int),
            decreases n - i,
        {
            assert(self.devs@[i as int]@ == self@.devs[i as int]);
            if width >= 2 || !self.gated || i == lane {
                if !self.devs[i].can_feed(observed) {
                    return false;
                }
            }
            i = i + 1;
        }
        true
    }

    /// Splits an image across the devices, into every slot.
    fn load_image(&mut self, image: &[u8])
        requires
            old(self).wf(),
            forall|i: int|
                0 <= i < old(self)@.devs.len() ==> (#[trigger] old(self)@.devs[i]).size == old(
                    self,
                )@.per_dev,
        ensures
            final(self).wf(),
            final(self)@ == old(self)@.loaded(image@),
    {
        let ghost before = self@;
        let len: usize = image.len();
        let mut i: usize = 0;
        proof {
            lemma_load_nothing(before);
            assert(image@.take(0) =~= Seq::<u8>::empty());
        }
        while i < len
            invariant
                i <= len,
                len == image@.len(),
                before.wf(),
                forall|l: int|
                    0 <= l < before.devs.len() ==> (#[trigger] before.devs[l]).size
                        == before.per_dev,
                self@ == before.loaded(image@.take(i as int)),
                self.wf(),
            decreases len - i,
        {
            let at: u32 = (i as u64 % 0x1_0000_0000) as u32;
            let cyc: u32 = at / self.stride;
            let within: u32 = at % self.stride;
            let lane: usize = (within / self.dev_bytes) as usize;
            let k: u32 = within % self.dev_bytes;
            proof {
                lemma_split(at as int, self.ndev as int, self.dev_bytes as int);
            }
            let off: u32 = cyc * self.dev_bytes + k;
            let ghost now = self@;
            assert(self.devs@[lane as int]@ == now.devs[lane as int]);
            if off < self.per_dev {
                self.devs[lane].seed_byte(off, image[i]);
                assert(self@.devs =~= now.devs.update(lane as int, self.devs@[lane as int]@));
            }
            proof {
                lemma_load_one(before, image@, i as int, lane as int, off as int);
                assert(self@ =~= before.loaded(image@.take(i + 1)));
            }
            i = i + 1;
        }
        assert(image@.take(len as int) =~= image@);
    }

    /// Whether the window ends below 2^32.
    pub fn window_fits(&self) -> (r: bool)
        requires
            self.wf(),
        ensures
            r == (self@.base + self@.window() <= u32::MAX),
            r == self@.fits(),
    {
        self.per_dev * self.stride <= u32::MAX - self.base
    }

    /// Whether `addr` lies in the window.
    pub fn covers(&self, addr: u32) -> (r: bool)
        requires
            self.wf(),
            addr < self@.base || self@.base + self@.window() <= u32::MAX,
        ensures
            r == (self@.base <= addr < self@.base + self@.window()),
            r == self@.holds(addr as int),
    {
        addr >= self.base && addr < self.base + self.per_dev * self.stride
    }

    /// Device and device offset for a CPU address.
    pub fn map(&self, addr: u32) -> (r: (usize, u32))
        requires
            self.wf(),
            self@.base <= addr,
        ensures
            r.0 == self@.lane(addr as int),
            r.0 < self@.devs.len(),
            r.1 == self@.offset(addr as int),
    {
        let rel: u32 = addr - self.base;
        let cyc: u32 = rel / self.stride;
        let within: u32 = rel % self.stride;
        let lane: usize = (within / self.dev_bytes) as usize;
        let mut k: u32 = within % self.dev_bytes;
        proof {
            lemma_split(rel as int, self.ndev as int, self.dev_bytes as int);
        }
        if self.swap {
            k = self.dev_bytes - 1 - k;
        }
        (lane, cyc * self.dev_bytes + k)
    }

    /// The served byte without observing a cycle: the second half of a word
    /// access, whose single cycle `access` has already shown to the devices.
    pub fn fetch(&self, addr: u32) -> (b: u8)
        requires
            self.wf(),
            self@.base <= addr,
        ensures
            b == self@.byte_at(addr as int),
    {
        let (lane, off) = self.map(addr);
        assert(self@.devs[lane as int] == self.devs@[lane as int]@);
        let d = &self.devs[lane];
        assert(d@.wf());
        assert(d.ram@[d.active_slot as int]@ == d@.served());
        if off < d.size {
            d.ram[d.active_slot][off as usize]
        } else {
            0xFF
        }
    }

    /// One CPU access; `width` is 1 for a byte access, 2 for a word. A word
    /// access is one bus cycle with every strobe asserted, so it reaches every
    /// device however the selects are wired.
    pub fn access(&mut self, addr: u32, width: u32) -> (b: u8)
        requires
            old(self).wf(),
            old(self)@.accessible(addr as int, width as int),
        ensures
            final(self).wf(),
            final(self)@ == old(self)@.accessed(addr as int, width as int),
            b == final(self)@.byte_at(addr as int),
            (final(self)@, b) == old(self)@.read(addr as int, width as int),
    {
        let ghost before = self@;
        let (lane, observed) = self.map(addr);
        if width >= 2 || !self.gated {
            let n: usize = self.ndev;
            let mut i: usize = 0;
            while i < n
                invariant
                    i <= n,
                    n == before.devs.len(),
                    n == self.ndev,
                    before.wf(),
                    observed == before.offset(addr as int),
                    before.accessible(addr as int, width as int),
                    width >= 2 || !before.gated,
                    self@ == (Bus { devs: self@.devs, ..before }),
                    self@.devs.len() == n,
                    forall|j: int|
                        0 <= j < i ==> #[trigger] self@.devs[j] == before.devs[j].fed(
                            observed as int,
                            before.faults,
                        ) && self@.devs[j].wf(),
                    forall|j: int| i <= j < n ==> #[trigger] self@.devs[j] == before.devs[j],
                decreases n - i,
            {
                let faults: Faults = self.faults;
                assert(self.devs@[i as int]@ == self@.devs[i as int]);
                assert(before.reaches(addr as int, width as int, i as int));
                let ghost now = self@;
                feed(&mut self.devs[i], observed, &faults);
                assert(self.devs@[i as int]@ == self@.devs[i as int]);
                assert(self@.devs =~= now.devs.update(i as int, self.devs@[i as int]@));
                i = i + 1;
            }
        } else {
            let faults: Faults = self.faults;
            assert(self.devs@[lane as int]@ == self@.devs[lane as int]);
            assert(before.reaches(addr as int, width as int, lane as int));
            feed(&mut self.devs[lane], observed, &faults);
            assert(self@.devs =~= before.devs.update(lane as int, self.devs@[lane as int]@));
        }
        assert(self@.devs =~= before.accessed(addr as int, width as int).devs);
        self.fetch(addr)
    }

    /// Whether device `dev` is in command-response mode.
    pub fn entered(&self, dev: usize) -> (r: bool)
        ensures
            r == (dev < self@.devs.len() && self@.devs[dev as int].active),
            r == self@.in_session(dev as int),
    {
        if dev < self.devs.len() {
            assert(self.devs@[dev as int]@ == self@.devs[dev as int]);
            self.devs[dev].active
        } else {
            false
        }
    }

    /// How many commands device `dev` has executed.
    pub fn commands(&self, dev: usize) -> (n: u32)
        ensures
            n == (if dev < self@.devs.len() {
                self@.devs[dev as int].cmds
            } else {
                0
            }),
            n == self@.executed_by(dev as int),
    {
        if dev < self.devs.len() {
            assert(self.devs@[dev as int]@ == self@.devs[dev as int]);
            self.devs[dev].cmds
        } else {
            0
        }
    }
}

fn clamp(n: u32, lo: u32, hi: u32) -> (r: u32)
    requires
        lo <= hi,
    ensures
        r == clamped(n as int, lo as int, hi as int),
{
    if n < lo {
        lo
    } else if n > hi {
        hi
    } else {
        n
    }
}

/// A position on the bus falls on one of the devices, and the offset it puts on
/// their address bus is no larger than the position rounded up to a pair.
proof fn lemma_split(rel: int, ndev: int, dev_bytes: int)
    requires
        0 <= rel <= u32::MAX,
        1 <= ndev <= 4,
        dev_bytes == 1 || dev_bytes == 2,
    ensures
        ndev * dev_bytes > 0,
        0 <= rel % (ndev * dev_bytes) / dev_bytes < ndev,
        0 <= rel / (ndev * dev_bytes) * dev_bytes,
        rel / (ndev * dev_bytes) * dev_bytes + dev_bytes <= u32::MAX + 1,
{
    let cyc = rel / (ndev * dev_bytes);
    if dev_bytes == 1 {
        assert(ndev * dev_bytes == ndev);
        assert(cyc * dev_bytes == cyc);
        if ndev == 1 || ndev == 2 || ndev == 3 {
        } else {
            assert(ndev == 4);
        }
    } else {
        assert(ndev * dev_bytes == 2 * ndev);
        assert(cyc * dev_bytes == 2 * cyc);
        if ndev == 1 {
            assert(cyc == rel / 2);
        } else if ndev == 2 {
            assert(cyc == rel / 4);
        } else if ndev == 3 {
            assert(cyc == rel / 6);
        } else {
            assert(cyc == rel / 8);
        }
    }
}

/// Splitting an empty image leaves a slot as it is.
proof fn lemma_empty_split(bus: Bus, lane: int, slot: Seq<u8>)
    requires
        bus.wf(),
        0 <= lane < bus.devs.len(),
    ensures
        bus.split_slot(lane, slot, Seq::empty()) == slot,
{
    assert forall|off: int| 0 <= off < slot.len() implies bus.position(lane, off) >= 0 by {
        lemma_position(bus, 0, lane, off);
    }
    assert(bus.split_slot(lane, slot, Seq::empty()) =~= slot);
}

/// Splitting an empty image changes nothing.
proof fn lemma_load_nothing(bus: Bus)
    requires
        bus.wf(),
    ensures
        bus.loaded(Seq::empty()) == bus,
{
    let after = bus.loaded(Seq::empty());
    assert forall|i: int| 0 <= i < bus.devs.len() implies after.devs[i] == bus.devs[i] by {
        assert forall|s: int| 0 <= s < bus.devs[i].ram.len() implies after.devs[i].ram[s]
            == bus.devs[i].ram[s] by {
            lemma_empty_split(bus, i, bus.devs[i].ram[s]);
        }
        assert forall|s: int| 0 <= s < bus.devs[i].flash.len() implies after.devs[i].flash[s]
            == bus.devs[i].flash[s] by {
            lemma_empty_split(bus, i, bus.devs[i].flash[s]);
        }
        assert(after.devs[i] =~= bus.devs[i]);
    }
    assert(after =~= bus);
}

/// One position of an image belongs to one offset of one device.
proof fn lemma_position(bus: Bus, at: int, lane: int, off: int)
    requires
        bus.wf(),
        0 <= at,
        0 <= lane < bus.devs.len(),
        0 <= off,
    ensures
        bus.position(lane, off) == at <==> {
            &&& lane == at % bus.stride / bus.dev_bytes
            &&& off == at / bus.stride * bus.dev_bytes + at % bus.stride % bus.dev_bytes
        },
        0 <= bus.position(lane, off),
{
    let db = bus.dev_bytes;
    let st = bus.stride;
    let p = bus.position(lane, off);
    let c = off / db;
    let k = off % db;
    assert(0 <= lane * db && lane * db + db <= st) by (nonlinear_arith)
        requires
            0 <= lane < bus.devs.len(),
            st == bus.devs.len() * db,
            0 < db,
    ;
    assert(p == c * st + (lane * db + k));
    vstd::arithmetic::div_mod::lemma_fundamental_div_mod_converse(p, st, c, lane * db + k);
    vstd::arithmetic::div_mod::lemma_fundamental_div_mod_converse(lane * db + k, db, lane, k);
    vstd::arithmetic::div_mod::lemma_fundamental_div_mod(at, st);
    vstd::arithmetic::div_mod::lemma_fundamental_div_mod(at % st, db);
    vstd::arithmetic::div_mod::lemma_fundamental_div_mod(off, db);
    assert(0 <= c * st) by (nonlinear_arith)
        requires
            0 <= c,
            0 < st,
    ;
    if lane == at % st / db && off == at / st * db + at % st % db {
        let q = at / st;
        let r = at % st % db;
        assert(0 <= q);
        vstd::arithmetic::div_mod::lemma_fundamental_div_mod_converse(off, db, q, r);
        assert(c == q && k == r);
        assert(c * st == st * q) by (nonlinear_arith)
            requires
                c == q,
        ;
        assert(lane * db == db * (at % st / db)) by (nonlinear_arith)
            requires
                lane == at % st / db,
        ;
    }
    if p == at {
        assert(c * db == db * c) by (nonlinear_arith);
    }
}

/// What one more byte of the image does to one slot.
proof fn lemma_load_slot(bus: Bus, image: Seq<u8>, n: int, l: int, slot: Seq<u8>)
    requires
        bus.wf(),
        0 <= n < image.len(),
        0 <= l < bus.devs.len(),
    ensures
        ({
            let at = n % 0x1_0000_0000;
            let lane = at % bus.stride / bus.dev_bytes;
            let off = at / bus.stride * bus.dev_bytes + at % bus.stride % bus.dev_bytes;
            let less = bus.split_slot(l, slot, image.take(n));
            bus.split_slot(l, slot, image.take(n + 1)) == (if l == lane && 0 <= off < slot.len() {
                less.update(off, image[n])
            } else {
                less
            })
        }),
{
    let at = n % 0x1_0000_0000;
    let lane = at % bus.stride / bus.dev_bytes;
    let off = at / bus.stride * bus.dev_bytes + at % bus.stride % bus.dev_bytes;
    let less = bus.split_slot(l, slot, image.take(n));
    let more = bus.split_slot(l, slot, image.take(n + 1));
    assert forall|o: int| 0 <= o < slot.len() implies more[o] == (if l == lane && o == off {
        image[n]
    } else {
        less[o]
    }) by {
        lemma_position(bus, at, l, o);
        let p = bus.position(l, o);
        if p == at {
            assert(last_copy(n + 1, p) == n);
        } else if p < 0x1_0000_0000 {
            assert(p <= n ==> p < n);
            assert(p < n ==> last_copy(n + 1, p) == last_copy(n, p));
            assert(p < n ==> p <= last_copy(n, p) < n);
        }
    }
    assert(more =~= (if l == lane && 0 <= off < slot.len() {
        less.update(off, image[n])
    } else {
        less
    }));
}

/// What one more byte of the image does to the devices.
proof fn lemma_load_one(bus: Bus, image: Seq<u8>, n: int, lane: int, off: int)
    requires
        bus.wf(),
        forall|l: int| 0 <= l < bus.devs.len() ==> (#[trigger] bus.devs[l]).size == bus.per_dev,
        0 <= n < image.len(),
        ({
            let at = n % 0x1_0000_0000;
            &&& lane == at % bus.stride / bus.dev_bytes
            &&& off == at / bus.stride * bus.dev_bytes + at % bus.stride % bus.dev_bytes
        }),
        0 <= lane < bus.devs.len(),
        0 <= off,
    ensures
        ({
            let less = bus.loaded(image.take(n));
            bus.loaded(image.take(n + 1)).devs == (if off < bus.per_dev {
                less.devs.update(lane, less.devs[lane].seeded(off, image[n]))
            } else {
                less.devs
            })
        }),
{
    let less = bus.loaded(image.take(n));
    let more = bus.loaded(image.take(n + 1));
    assert forall|l: int| 0 <= l < bus.devs.len() implies more.devs[l] == (if off < bus.per_dev
        && l == lane {
        less.devs[l].seeded(off, image[n])
    } else {
        less.devs[l]
    }) by {
        let d = bus.devs[l];
        let want = if off < bus.per_dev && l == lane {
            less.devs[l].seeded(off, image[n])
        } else {
            less.devs[l]
        };
        assert forall|s: int| 0 <= s < d.ram.len() implies more.devs[l].ram[s] == want.ram[s] by {
            lemma_load_slot(bus, image, n, l, d.ram[s]);
        }
        assert forall|s: int| 0 <= s < d.flash.len() implies more.devs[l].flash[s]
            == want.flash[s] by {
            lemma_load_slot(bus, image, n, l, d.flash[s]);
        }
        assert(more.devs[l] =~= want);
    }
    assert(more.devs =~= (if off < bus.per_dev {
        less.devs.update(lane, less.devs[lane].seeded(off, image[n]))
    } else {
        less.devs
    }));
}

} // verus!
