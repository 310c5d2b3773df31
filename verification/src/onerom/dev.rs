//! The executable device.

use super::device;
use super::device::{Device, Faults, St};
use super::protocol;
use super::protocol::{
    arg_count, cmd_is_silent, knock_byte, rom_type_for, slot_record, BOOT_INFO, DEVICE_NAME,
    ENTER_CMD_RESP, EXIT_CMD_RESP, EXIT_CMD_RESP_RESTORE, EXIT_CMD_RESP_SILENT, FIRMWARE_VERSION,
    FLASH_SLOT_INFO, FLASH_SLOT_INFO_ALL, G_CONTROL, G_MODIFY, G_NV, G_READ, G_RESET, HDR_LAST_C,
    HDR_LAST_G, HDR_PROG, HDR_RESP, HDR_SIZE, HDR_TOK_HI, HDR_TOK_LO, KNOCK_LEN, LOAD_AND_EXIT,
    LOAD_SLOT, NFLASH, NOP, NRAM, NV_INFO, NV_PEEK, NV_POKE, NV_POKE_BEGIN, NV_POKE_CANCEL,
    NV_POKE_COMMIT, NV_POKE_COMMIT_BYTE, NV_SIZE, PROTOCOL_VERSION, RAM_SLOT_INFO_ALL, RESERVED_AA,
    SLOT_PEEK, SLOT_POKE, SLOT_POKE_ALL_BYTE, SWITCH_AND_EXIT, SWITCH_SLOT,
};
use vstd::prelude::*;

verus! {

/// One device.
pub struct Dev {
    pub ram: Vec<Vec<u8>>,
    pub flash: Vec<Vec<u8>>,
    pub size: u32,
    pub active_slot: usize,
    pub st: St,
    pub kmatch: usize,
    pub kmax: usize,
    pub group: u8,
    pub cmd: u8,
    pub args: [u8; 16],
    pub nargs: usize,
    pub want: usize,
    pub active: bool,
    pub cmd_page: u16,
    pub region_off: u32,
    pub data_size: u32,
    pub complete: u8,
    pub status_ok: u8,
    pub tok_lo: u8,
    pub tok_hi: u8,
    pub cmds: u32,
    pub idx: usize,
    pub nram: usize,
    pub nflash: usize,
    pub nv: Vec<u8>,
    pub stage: Option<Vec<u8>>,
    pub boot_flash: u8,
    pub boot_ram: u8,
}

/// The contents of some slots.
pub open spec fn contents(slots: Seq<Vec<u8>>) -> Seq<Seq<u8>> {
    slots.map_values(|s: Vec<u8>| s@)
}

impl View for Dev {
    type V = Device;

    open spec fn view(&self) -> Device {
        Device {
            ram: contents(self.ram@),
            flash: contents(self.flash@),
            size: self.size as int,
            active_slot: self.active_slot as int,
            st: self.st,
            kmatch: self.kmatch as int,
            kmax: self.kmax as int,
            group: self.group,
            cmd: self.cmd,
            args: self.args@,
            nargs: self.nargs as int,
            want: self.want as int,
            active: self.active,
            cmd_page: self.cmd_page as int,
            region_off: self.region_off as int,
            data_size: self.data_size as int,
            complete: self.complete,
            status_ok: self.status_ok,
            token: device::le16(self.tok_lo, self.tok_hi),
            cmds: self.cmds as int,
            idx: self.idx as int,
            nram: self.nram as int,
            nflash: self.nflash as int,
            nv: self.nv@,
            stage: match self.stage {
                Some(s) => Some(s@),
                None => None,
            },
            boot_flash: self.boot_flash,
            boot_ram: self.boot_ram,
        }
    }
}

/// A device as it leaves the factory: blank slots, blank NV (0xFF), and 0xFF for
/// both sentinels, so that a host reading them before entering sees "does not
/// know".
pub open spec fn blank(idx: int, size: int, nram: int, nflash: int) -> Device {
    Device {
        ram: Seq::new(NRAM as nat, |s: int| device::filled(size, 0)),
        flash: Seq::new(NFLASH as nat, |s: int| device::filled(size, 0)),
        size,
        active_slot: 0,
        st: St::Knock,
        kmatch: 0,
        kmax: 0,
        group: 0,
        cmd: 0,
        args: device::filled(16, 0),
        nargs: 0,
        want: 0,
        active: false,
        cmd_page: 0,
        region_off: 0,
        data_size: 0,
        complete: 0xFF,
        status_ok: 0xFF,
        token: 0,
        cmds: 0,
        idx,
        nram,
        nflash,
        nv: device::filled(NV_SIZE as int, 0xFF),
        stage: None,
        boot_flash: 0,
        boot_ram: 0,
    }
}

/// `n` slots of `size` zero bytes.
fn blank_slots(n: usize, size: u32) -> (slots: Vec<Vec<u8>>)
    ensures
        contents(slots@) == Seq::new(n as nat, |s: int| device::filled(size as int, 0)),
{
    let mut slots: Vec<Vec<u8>> = Vec::new();
    let mut i: usize = 0;
    while i < n
        invariant
            i <= n,
            slots@.len() == i,
            forall|s: int| 0 <= s < i ==> (#[trigger] slots@[s])@ == device::filled(size as int, 0),
        decreases n - i,
    {
        let slot: Vec<u8> = vec![0u8; size as usize];
        assert(slot@ =~= device::filled(size as int, 0));
        slots.push(slot);
        i = i + 1;
    }
    assert(contents(slots@) =~= Seq::new(n as nat, |s: int| device::filled(size as int, 0)));
    slots
}

/// Whether there are `n` slots of `size` bytes.
fn are_slots(slots: &Vec<Vec<u8>>, n: usize, size: u32) -> (r: bool)
    ensures
        r == (contents(slots@).len() == n && forall|s: int|
            0 <= s < n ==> (#[trigger] contents(slots@)[s]).len() == size),
{
    if slots.len() != n {
        return false;
    }
    let mut i: usize = 0;
    while i < n
        invariant
            i <= n,
            n == slots@.len(),
            forall|s: int| 0 <= s < i ==> (#[trigger] contents(slots@)[s]).len() == size,
        decreases n - i,
    {
        assert(contents(slots@)[i as int] == slots@[i as int]@);
        if slots[i].len() != size as usize {
            return false;
        }
        i = i + 1;
    }
    true
}

fn read16(lo: u8, hi: u8) -> (v: u32)
    ensures
        v == device::le16(lo, hi),
        v < 0x10000,
{
    lo as u32 + 256 * hi as u32
}

fn read24(lo: u8, mid: u8, hi: u8) -> (v: u32)
    ensures
        v == device::le24(lo, mid, hi),
        v < 0x1000000,
{
    lo as u32 + 256 * mid as u32 + 65536 * hi as u32
}

impl Dev {
    pub fn new(idx: usize, size: u32, nram: usize, nflash: usize) -> (d: Dev)
        ensures
            d@ == blank(idx as int, size as int, nram as int, nflash as int),
            1 <= nram <= NRAM && 1 <= nflash <= NFLASH ==> d@.wf(),
    {
        let nv: Vec<u8> = vec![0xFFu8; NV_SIZE];
        assert(nv@ =~= device::filled(NV_SIZE as int, 0xFF));
        let args: [u8; 16] = [0u8; 16];
        assert(args@ =~= device::filled(16, 0));
        Dev {
            ram: blank_slots(NRAM, size),
            flash: blank_slots(NFLASH, size),
            size,
            active_slot: 0,
            st: St::Knock,
            kmatch: 0,
            kmax: 0,
            group: 0,
            cmd: 0,
            args,
            nargs: 0,
            want: 0,
            active: false,
            cmd_page: 0,
            region_off: 0,
            data_size: 0,
            complete: 0xFF,
            status_ok: 0xFF,
            tok_lo: 0,
            tok_hi: 0,
            cmds: 0,
            idx,
            nram,
            nflash,
            nv,
            stage: None,
            boot_flash: 0,
            boot_ram: 0,
        }
    }

    /// Whether the device is well formed, as any device is that was made by `new`
    /// and has only seen bus cycles.
    pub fn is_wf(&self) -> (r: bool)
        ensures
            r == self@.wf(),
    {
        let stage_fits: bool = match &self.stage {
            Some(s) => s.len() == NV_SIZE,
            None => true,
        };
        let in_step: bool = match self.st {
            St::Knock => !self.active,
            St::Args => self.nargs < self.want,
            _ => true,
        };
        are_slots(&self.ram, NRAM, self.size) && are_slots(&self.flash, NFLASH, self.size) && 1
            <= self.nram && self.nram <= NRAM && 1 <= self.nflash && self.nflash <= NFLASH
            && self.active_slot < self.nram && self.kmatch < KNOCK_LEN && self.nargs <= self.want
            && self.want <= 9 && self.nv.len() == NV_SIZE && stage_fits && self.data_size < 0x10000
            && in_step
    }

    /// Whether a bus cycle that reads offset `observed` either completes no
    /// command or one that can be executed in machine arithmetic.
    pub fn can_feed(&self, observed: u32) -> (r: bool)
        requires
            self@.wf(),
        ensures
            r == self@.feedable(observed as int),
    {
        if self.active && observed / 256 != self.cmd_page as u32 {
            return true;
        }
        let b: u8 = (observed % 256) as u8;
        match self.st {
            St::Cmd => arg_count(self.group, b) != 0 || self.can_run(self.group, b, &self.args),
            St::Args => {
                let mut args: [u8; 16] = self.args;
                args[self.nargs] = b;
                self.nargs + 1 < self.want || self.can_run(self.group, self.cmd, &args)
            },
            _ => true,
        }
    }

    /// Whether a command with these arguments can be executed in machine
    /// arithmetic.
    fn can_run(&self, g: u8, c: u8, args: &[u8; 16]) -> (r: bool)
        ensures
            r == (Device { group: g, cmd: c, args: args@, ..self@ }).in_range(),
    {
        if self.cmds == u32::MAX {
            return false;
        }
        if g != G_CONTROL || c != ENTER_CMD_RESP {
            return true;
        }
        let roff: u32 = read24(args[2], args[3], args[4]);
        let rsize: u32 = read16(args[5], args[6]);
        let taken: bool = args[7] != RESERVED_AA && args[8] != RESERVED_AA && roff % 4 == 0 && roff
            + HDR_SIZE <= self.size;
        !(taken && roff + rsize <= self.size) || rsize >= HDR_SIZE
    }

    /// Writes byte `b` at offset `off` of every slot.
    pub(crate) fn seed_byte(&mut self, off: u32, b: u8)
        requires
            old(self)@.sound(),
            off < old(self)@.size,
        ensures
            final(self)@ == old(self)@.seeded(off as int, b),
            old(self)@.wf() ==> final(self)@.wf(),
    {
        let ghost before = self@;
        let mut s: usize = 0;
        while s < NRAM
            invariant
                s <= NRAM,
                before.sound(),
                off < before.size,
                self@ == (Device { ram: self@.ram, ..before }),
                self@.ram.len() == NRAM,
                forall|t: int|
                    0 <= t < NRAM ==> #[trigger] self@.ram[t] == (if t < s {
                        before.ram[t].update(off as int, b)
                    } else {
                        before.ram[t]
                    }),
            decreases NRAM - s,
        {
            let ghost now = self@;
            assert(self.ram@[s as int]@ == now.ram[s as int]);
            self.ram[s][off as usize] = b;
            assert(self@.ram =~= now.ram.update(
                s as int,
                now.ram[s as int].update(off as int, b),
            ));
            s = s + 1;
        }
        let mut f: usize = 0;
        while f < NFLASH
            invariant
                f <= NFLASH,
                before.sound(),
                off < before.size,
                self@ == (Device { ram: self@.ram, flash: self@.flash, ..before }),
                self@.ram == before.seeded(off as int, b).ram,
                self@.flash.len() == NFLASH,
                forall|t: int|
                    0 <= t < NFLASH ==> #[trigger] self@.flash[t] == (if t < f {
                        before.flash[t].update(off as int, b)
                    } else {
                        before.flash[t]
                    }),
            decreases NFLASH - f,
        {
            let ghost now = self@;
            assert(self.flash@[f as int]@ == now.flash[f as int]);
            self.flash[f][off as usize] = b;
            assert(self@.flash =~= now.flash.update(
                f as int,
                now.flash[f as int].update(off as int, b),
            ));
            f = f + 1;
        }
        assert(self@.flash =~= before.seeded(off as int, b).flash);
    }

    /// Replaces the content of one RAM slot.
    fn set_slot(&mut self, slot: usize, content: Vec<u8>)
        requires
            slot < old(self)@.ram.len(),
        ensures
            final(self)@ == old(self)@.with_slot(slot as int, content@),
    {
        self.ram[slot] = content;
        assert(contents(self.ram@) =~= contents(old(self).ram@).update(slot as int, content@));
    }

    /// Writes one byte of the back-channel region.
    pub fn hdr_write(&mut self, off: u32, v: u8)
        requires
            old(self)@.sound(),
        ensures
            final(self)@ == old(self)@.channel_written(off as int, seq![v]),
            final(self)@.sound(),
    {
        let ghost before = self@;
        let a: u64 = self.region_off as u64 + off as u64;
        if a < self.size as u64 {
            let slot: usize = self.active_slot;
            assert(self.ram@[slot as int]@ == before.ram[slot as int]);
            self.ram[slot][a as usize] = v;
            assert(self.ram@[slot as int]@ =~= device::overwritten(
                before.served(),
                a as int,
                seq![v],
            ));
        } else {
            assert(before.served() =~= device::overwritten(before.served(), a as int, seq![v]));
        }
        assert(contents(self.ram@) =~= before.channel_written(off as int, seq![v]).ram);
    }

    /// Reads one byte of the back-channel region.
    pub fn hdr_read(&self, off: u32) -> (v: u8)
        requires
            self@.sound(),
        ensures
            v == self@.channel_byte(off as int),
    {
        let a: u64 = self.region_off as u64 + off as u64;
        if a < self.size as u64 {
            assert(self.ram@[self.active_slot as int]@ == self@.ram[self.active_slot as int]);
            self.ram[self.active_slot][a as usize]
        } else {
            0
        }
    }

    /// Writes into the data area; what does not fit is dropped.
    pub fn data_write(&mut self, off: u32, p: &[u8])
        requires
            old(self)@.sound(),
            off < old(self).data_size ==> off + p@.len() <= u32::MAX,
        ensures
            final(self)@ == old(self)@.data_written(off as int, p@),
            final(self)@.sound(),
    {
        let ghost before = self@;
        if off >= self.data_size {
            return;
        }
        let mut n: u32 = p.len() as u32;
        if off + n > self.data_size {
            n = self.data_size - off;
        }
        let ghost sent = p@.take(n as int);
        assert(n == p@.len() ==> sent =~= p@);
        let mut i: u32 = 0;
        assert(device::overwritten(
            before.served(),
            before.region_off + HDR_SIZE + off,
            sent.take(0),
        ) =~= before.served());
        assert(before.channel_written(HDR_SIZE + off, sent.take(0)) =~= before);
        while i < n
            invariant
                i <= n <= p@.len(),
                before.sound(),
                sent == p@.take(n as int),
                off + n <= before.data_size,
                self@ == before.channel_written(HDR_SIZE + off, sent.take(i as int)),
                self@.sound(),
            decreases n - i,
        {
            let ghost now = self@;
            self.hdr_write(HDR_SIZE + off + i, p[i as usize]);
            proof {
                let at = before.region_off + HDR_SIZE + off;
                assert(device::overwritten(
                    device::overwritten(before.served(), at, sent.take(i as int)),
                    at + i,
                    seq![p@[i as int]],
                ) =~= device::overwritten(before.served(), at, sent.take(i + 1)));
                assert(self@ =~= before.channel_written(HDR_SIZE + off, sent.take(i + 1)));
            }
            i = i + 1;
        }
        assert(sent.take(n as int) =~= sent);
    }

    /// Bumps the token and records the command, before it is run. The host polls
    /// the token to see that its command was noticed at all, separately from
    /// whether it succeeded.
    pub fn cmd_begin(&mut self, g: u8, c: u8)
        requires
            old(self)@.sound(),
        ensures
            final(self)@ == old(self)@.begun(g, c),
            final(self)@.sound(),
    {
        let ghost before = self@;
        let prog: u8 = 255 - self.complete;
        self.hdr_write(HDR_PROG, prog);
        self.tok_lo = self.tok_lo.wrapping_add(1);
        if self.tok_lo == 0 {
            self.tok_hi = self.tok_hi.wrapping_add(1);
        }
        let lo: u8 = self.tok_lo;
        let hi: u8 = self.tok_hi;
        self.hdr_write(HDR_TOK_LO, lo);
        self.hdr_write(HDR_TOK_HI, hi);
        self.hdr_write(HDR_LAST_G, g);
        self.hdr_write(HDR_LAST_C, c);
        proof {
            let token = (before.token + 1) % 0x10000;
            assert(token == device::le16(lo, hi));
            let header = seq![g, c, lo, hi, prog];
            assert(self@.served() =~= device::overwritten(
                before.served(),
                before.region_off,
                header,
            ));
            assert(self@.ram =~= before.channel_written(0, header).ram);
            assert(self@ =~= before.begun(g, c));
        }
    }

    /// Marks the command as complete, and says how it went.
    pub fn cmd_end(&mut self, ok: bool)
        requires
            old(self)@.sound(),
        ensures
            final(self)@ == old(self)@.ended(ok),
            final(self)@.sound(),
    {
        let ghost before = self@;
        let resp: u8 = if ok {
            self.status_ok
        } else {
            255 - self.status_ok
        };
        let prog: u8 = self.complete;
        self.hdr_write(HDR_RESP, resp);
        self.hdr_write(HDR_PROG, prog);
        proof {
            let tail = seq![prog, resp];
            assert(self@.served() =~= device::overwritten(
                before.served(),
                before.region_off + HDR_PROG,
                tail,
            ));
            assert(self@.ram =~= before.channel_written(HDR_PROG as int, tail).ram);
            assert(self@ =~= before.ended(ok));
        }
    }
}

/// Enters command-response mode with the nine arguments received.
pub fn exec_enter(d: &mut Dev) -> (ok: bool)
    requires
        old(d)@.sound(),
        old(d)@.entry_taken() && old(d)@.entry_fits() ==> old(d)@.entry_size() >= HDR_SIZE,
    ensures
        (final(d)@, ok) == old(d)@.entering(),
{
    if !place(d) {
        return false;
    }
    let roff: u32 = d.region_off;
    let rsize: u32 = read16(d.args[5], d.args[6]);
    if roff + rsize > d.size {
        // Reported rather than discarded: the host gets a failure it can see.
        d.cmd_begin(G_CONTROL, ENTER_CMD_RESP);
        d.cmd_end(false);
        return false;
    }
    open_session(d);
    let ghost open = d@;
    let mut i: u32 = 0;
    assert(device::overwritten(open.served(), open.region_off, device::filled(0, 0))
        =~= open.served());
    assert(open =~= open.channel_written(0, device::filled(0, 0)));
    while i < HDR_SIZE
        invariant
            i <= HDR_SIZE,
            open.sound(),
            d@ == open.channel_written(0, device::filled(i as int, 0)),
            d@.sound(),
        decreases HDR_SIZE - i,
    {
        d.hdr_write(i, 0);
        proof {
            assert(device::overwritten(
                device::overwritten(
                    open.served(),
                    open.region_off,
                    device::filled(i as int, 0),
                ),
                open.region_off + i,
                seq![0u8],
            ) =~= device::overwritten(
                open.served(),
                open.region_off,
                device::filled(i + 1, 0),
            ));
            assert(d@ =~= open.channel_written(0, device::filled(i + 1, 0)));
        }
        i = i + 1;
    }
    true
}

/// Enters command-response mode without writing to the region.
fn enter_unheard(d: &mut Dev)
    requires
        old(d)@.sound(),
        old(d)@.entry_taken() && old(d)@.entry_fits() ==> old(d)@.entry_size() >= HDR_SIZE,
    ensures
        final(d)@ == old(d)@.entering_unheard(),
        final(d)@.sound(),
{
    if !place(d) {
        return;
    }
    let roff: u32 = d.region_off;
    let rsize: u32 = read16(d.args[5], d.args[6]);
    if roff + rsize > d.size {
        return;
    }
    open_session(d);
}

/// Takes over the region and the sentinels that the entry arguments ask for, if
/// they are acceptable.
fn place(d: &mut Dev) -> (ok: bool)
    requires
        old(d)@.sound(),
    ensures
        ok == old(d)@.entry_taken(),
        final(d)@ == (if ok {
            old(d)@.placed()
        } else {
            old(d)@
        }),
        final(d)@.sound(),
        ok ==> final(d).region_off < 0x1000000,
{
    let roff: u32 = read24(d.args[2], d.args[3], d.args[4]);
    let cplt: u8 = d.args[7];
    let sok: u8 = d.args[8];

    // With a reserved value for either sentinel the host could not tell
    // completion from non-completion.
    if cplt == RESERVED_AA || sok == RESERVED_AA {
        return false;
    }
    if roff % 4 != 0 {
        return false;
    }
    if roff + HDR_SIZE > d.size {
        return false;
    }
    d.region_off = roff;
    d.complete = cplt;
    d.status_ok = sok;

    // The token is read before the region is cleared: the device does not
    // initialise it, and the host needs its prior value.
    d.tok_lo = d.hdr_read(HDR_TOK_LO);
    d.tok_hi = d.hdr_read(HDR_TOK_HI);
    true
}

/// Puts the device in command-response mode.
fn open_session(d: &mut Dev)
    requires
        old(d)@.sound(),
        old(d)@.entry_size() >= HDR_SIZE,
    ensures
        final(d)@ == old(d)@.opened(),
        final(d)@.sound(),
{
    d.cmd_page = read16(d.args[0], d.args[1]) as u16;
    d.data_size = read16(d.args[5], d.args[6]) - HDR_SIZE;
    d.active = true;
}

/// Executes a command of the control group.
fn exec_control(d: &mut Dev) -> (ok: bool)
    requires
        old(d)@.sound(),
        old(d)@.header_fits(),
        old(d)@.group == G_CONTROL,
    ensures
        (final(d)@, ok) == old(d)@.control(),
{
    let ghost before = d@;
    let c: u8 = d.cmd;
    if c == NOP {
        true
    } else if c == ENTER_CMD_RESP {
        exec_enter(d)
    } else if c == EXIT_CMD_RESP || c == EXIT_CMD_RESP_SILENT {
        d.active = false;
        true
    } else if c == SWITCH_AND_EXIT {
        if d.args[0] != RESERVED_AA && (d.args[0] as usize) < d.nram {
            d.active_slot = d.args[0] as usize;
        }
        d.active = false;
        true
    } else if c == LOAD_AND_EXIT {
        let r: usize = d.args[0] as usize;
        let f: usize = d.args[1] as usize;
        d.active = false;
        if d.args[0] != RESERVED_AA && d.args[1] != RESERVED_AA && r < d.nram && f < NFLASH {
            let image = d.flash[f].clone();
            assert(image@ =~= before.flash[f as int]);
            d.set_slot(r, image);
        }
        true
    } else if c == EXIT_CMD_RESP_RESTORE {
        // Puts back the bytes the back-channel displaced, then leaves.
        d.active = false;
        let n: u8 = d.args[8];
        if 1 <= n && n <= 8 {
            let ghost left = d@;
            let mut k: u32 = 0;
            assert(device::overwritten(left.served(), left.region_off, left.args.take(0))
                =~= left.served());
            assert(left =~= left.channel_written(0, left.args.take(0)));
            while k < n as u32
                invariant
                    k <= n <= 8,
                    left.sound(),
                    d@ == left.channel_written(0, left.args.take(k as int)),
                    d@.sound(),
                decreases n - k,
            {
                let v: u8 = d.args[k as usize];
                assert(v == left.args[k as int]);
                d.hdr_write(k, v);
                proof {
                    assert(device::overwritten(
                        device::overwritten(
                            left.served(),
                            left.region_off,
                            left.args.take(k as int),
                        ),
                        left.region_off + k,
                        seq![v],
                    ) =~= device::overwritten(
                        left.served(),
                        left.region_off,
                        left.args.take(k + 1),
                    ));
                    assert(d@ =~= left.channel_written(0, left.args.take(k + 1)));
                }
                k = k + 1;
            }
        }
        true
    } else {
        false
    }
}

/// Two consecutive writes into the data area are one.
proof fn lemma_data_append(d: Device, p: Seq<u8>, q: Seq<u8>)
    requires
        d.sound(),
    ensures
        d.data_written(0, p).data_written(p.len() as int, q) == d.data_written(0, p + q),
{
    let at = d.region_off + HDR_SIZE;
    let n = d.data_size;
    let one = d.data_written(0, p);
    let two = one.data_written(p.len() as int, q);
    let all = d.data_written(0, p + q);
    if p.len() >= n {
        assert((p + q).take(n) =~= p.take(n));
        assert(p.take(p.len() as int) =~= p);
        if q.len() == 0 {
            assert(p + q =~= p);
        }
    } else {
        let r = if p.len() + q.len() > n {
            q.take(n - p.len())
        } else {
            q
        };
        assert(p.len() + q.len() > n ==> (p + q).take(n) =~= p + r);
        assert(device::overwritten(
            device::overwritten(d.served(), at, p),
            at + p.len(),
            r,
        ) =~= device::overwritten(d.served(), at, p + r));
        assert(one.served() =~= device::overwritten(d.served(), at, p));
        assert(two =~= all);
    }
}

/// Answers FLASH_SLOT_INFO_ALL: a preamble, then the records there is room for.
fn exec_flash_info_all(d: &mut Dev)
    requires
        old(d)@.sound(),
    ensures
        final(d)@ == ({
            let n = old(d)@.records_sent();
            old(d)@.data_written(
                0,
                seq![old(d)@.nflash as u8, n as u8, 32u8, 0u8] + device::flash_records(
                    n,
                    old(d)@.size,
                ),
            )
        }),
{
    let ghost before = d@;
    let total: u8 = d.nflash as u8;
    let room: u32 = if d.data_size < 4 {
        0
    } else {
        (d.data_size - 4) / 32
    };
    let whole: u8 = if (total as u32) < room {
        total
    } else {
        room as u8
    };
    assert(whole == before.records_sent());
    let pre: [u8; 4] = [total, whole, 32, 0];
    let ghost head = seq![total, whole, 32u8, 0u8];
    assert(pre@ =~= head);
    d.data_write(0, &pre);
    let mut s: usize = 0;
    assert(head + device::flash_records(0, before.size) =~= head);
    while s < whole as usize
        invariant
            s <= whole <= 16,
            head.len() == 4,
            before.sound(),
            d@ == before.data_written(0, head + device::flash_records(s as int, before.size)),
            d@.sound(),
            device::flash_records(s as int, before.size).len() == 32 * s,
        decreases whole - s,
    {
        let rec = slot_record(s, d.size);
        let ghost sent = head + device::flash_records(s as int, before.size);
        let ghost record = protocol::flash_record(s as int, before.size);
        d.data_write(4 + (s as u32) * 32, &rec);
        proof {
            lemma_data_append(before, sent, record);
            assert(sent + record =~= head + device::flash_records(s + 1, before.size));
        }
        s = s + 1;
    }
}

/// Answers SLOT_PEEK, unless the slot or the count is out of range.
fn exec_slot_peek(d: &mut Dev) -> (ok: bool)
    requires
        old(d)@.sound(),
    ensures
        ({
            let count = old(d)@.args[0] as int;
            let addr = device::le24(old(d)@.args[1], old(d)@.args[2], old(d)@.args[3]);
            let slot = old(d)@.args[4] as int;
            &&& ok == (slot < old(d)@.nram && 0 < count <= old(d)@.data_size)
            &&& final(d)@ == (if ok {
                old(d)@.data_written(0, old(d)@.peeked(slot, addr, count))
            } else {
                old(d)@
            })
        }),
{
    let ghost before = d@;
    let count: u32 = d.args[0] as u32;
    let addr: u32 = read24(d.args[1], d.args[2], d.args[3]);
    let slot: usize = d.args[4] as usize;
    if slot >= d.nram || count == 0 || count > d.data_size {
        return false;
    }
    let mut buf: Vec<u8> = Vec::with_capacity(count as usize);
    let ghost answer = before.peeked(slot as int, addr as int, count as int);
    let mut i: u32 = 0;
    while i < count
        invariant
            i <= count <= 255,
            addr < 0x1000000,
            d@ == before,
            before.sound(),
            slot < before.nram,
            answer == before.peeked(slot as int, addr as int, count as int),
            buf@ == answer.take(i as int),
        decreases count - i,
    {
        let a: u32 = addr + i;
        assert(d.ram@[slot as int]@ == before.ram[slot as int]);
        let b: u8 = if a < d.size {
            d.ram[slot][a as usize]
        } else {
            0xFF
        };
        buf.push(b);
        assert(buf@ =~= answer.take(i + 1));
        i = i + 1;
    }
    assert(buf@ =~= answer);
    d.data_write(0, buf.as_slice());
    true
}

/// Executes a command of the read group.
fn exec_read(d: &mut Dev, faults: &Faults) -> (ok: bool)
    requires
        old(d)@.sound(),
    ensures
        (final(d)@, ok) == old(d)@.read(*faults),
{
    let ghost before = d@;
    if !d.active {
        return false;
    }
    let c: u8 = d.cmd;
    if c == FLASH_SLOT_INFO {
        let sl: usize = d.args[0] as usize;
        if d.args[0] == RESERVED_AA || sl >= d.nflash {
            return false;
        }
        if d.data_size < 32 {
            return false;
        }
        let rec = slot_record(sl, d.size);
        d.data_write(0, &rec);
        true
    } else if c == FLASH_SLOT_INFO_ALL {
        exec_flash_info_all(d);
        true
    } else if c == RAM_SLOT_INFO_ALL {
        let info: [u8; 4] = [d.nram as u8, d.active_slot as u8, rom_type_for(d.size), 0];
        assert(info@ =~= seq![
            before.nram as u8,
            before.active_slot as u8,
            protocol::rom_type(before.size),
            0u8,
        ]);
        d.data_write(0, &info);
        true
    } else if c == DEVICE_NAME {
        let name: [u8; 13] = [
            0x4F, 0x4E, 0x45, 0x52, 0x4F, 0x4D, 0x2D, 0x4D, 0x4F, 0x44, 0x45, 0x4C, 0x00,
        ];
        assert(name@ =~= protocol::device_name());
        d.data_write(0, &name);
        true
    } else if c == FIRMWARE_VERSION {
        let version: [u8; 6] = [0x30, 0x2E, 0x30, 0x2E, 0x30, 0x00];
        assert(version@ =~= protocol::firmware_version());
        d.data_write(0, &version);
        true
    } else if c == PROTOCOL_VERSION {
        let version: [u8; 3] = [0, 1, 2];
        assert(version@ =~= protocol::protocol_version());
        d.data_write(0, &version);
        true
    } else if c == SLOT_PEEK {
        if faults.nopeek {
            return false;
        }
        exec_slot_peek(d)
    } else if c == BOOT_INFO {
        let info: [u8; 2] = [d.boot_flash, d.boot_ram];
        assert(info@ =~= seq![before.boot_flash, before.boot_ram]);
        d.data_write(0, &info);
        true
    } else {
        false
    }
}

/// Executes a command of the modify group.
fn exec_modify(d: &mut Dev, faults: &Faults) -> (ok: bool)
    requires
        old(d)@.sound(),
    ensures
        (final(d)@, ok) == old(d)@.modify(*faults),
{
    let ghost before = d@;
    if !d.active {
        return false;
    }
    let c: u8 = d.cmd;
    if c == SLOT_POKE {
        let byte: u8 = d.args[0];
        let addr: u32 = read24(d.args[1], d.args[2], d.args[3]);
        let slot: usize = d.args[4] as usize;
        // Never the running slot, and never a reserved number: the device
        // refuses rather than overwrite what it serves.
        if d.args[4] == RESERVED_AA || slot >= d.nram || slot == d.active_slot {
            return false;
        }
        if addr >= d.size {
            return false;
        }
        assert(d.ram@[slot as int]@ == before.ram[slot as int]);
        d.ram[slot][addr as usize] = byte;
        assert(contents(d.ram@) =~= before.ram.update(
            slot as int,
            before.ram[slot as int].update(addr as int, byte),
        ));
        true
    } else if c == SWITCH_SLOT {
        let slot: usize = d.args[0] as usize;
        if d.args[0] == RESERVED_AA || slot >= d.nram {
            return false;
        }
        d.active_slot = slot;
        true
    } else if c == LOAD_SLOT {
        let r: usize = d.args[0] as usize;
        let f: usize = d.args[1] as usize;
        if d.args[0] == RESERVED_AA || r >= d.nram || f >= d.nflash {
            return false;
        }
        if faults.loadfail == 1 {
            return false;
        }
        if faults.loadfail == 2 {
            // Half done: the target slot now holds part of an image.
            exec_half_load(d, r, f);
            return false;
        }
        let image = d.flash[f].clone();
        assert(image@ =~= before.flash[f as int]);
        d.set_slot(r, image);
        true
    } else if c == SLOT_POKE_ALL_BYTE {
        let byte: u8 = d.args[0];
        let slot: usize = d.args[1] as usize;
        if d.args[1] == RESERVED_AA || slot >= d.nram || slot == d.active_slot {
            return false;
        }
        let fill: Vec<u8> = vec![byte; d.size as usize];
        assert(fill@ =~= device::filled(before.size, byte));
        d.set_slot(slot, fill);
        true
    } else {
        false
    }
}

/// Copies the first half of a flash slot into a RAM slot.
fn exec_half_load(d: &mut Dev, r: usize, f: usize)
    requires
        old(d)@.sound(),
        r < NRAM,
        f < NFLASH,
    ensures
        final(d)@ == old(d)@.with_slot(
            r as int,
            device::overwritten(
                old(d)@.ram[r as int],
                0,
                old(d)@.flash[f as int].take(old(d)@.size / 2),
            ),
        ),
{
    let ghost before = d@;
    let half: u32 = d.size / 2;
    let ghost part = before.flash[f as int].take(half as int);
    assert(d.ram@[r as int]@ == before.ram[r as int]);
    assert(d.flash@[f as int]@ == before.flash[f as int]);
    let mut image = d.ram[r].clone();
    assert(image@ =~= before.ram[r as int]);
    let mut i: u32 = 0;
    assert(image@ =~= device::overwritten(before.ram[r as int], 0, part.take(0)));
    while i < half
        invariant
            i <= half <= before.size,
            before.sound(),
            d@ == before,
            r < NRAM,
            f < NFLASH,
            part == before.flash[f as int].take(half as int),
            image@ == device::overwritten(before.ram[r as int], 0, part.take(i as int)),
        decreases half - i,
    {
        assert(d.flash@[f as int]@ == before.flash[f as int]);
        image[i as usize] = d.flash[f][i as usize];
        assert(image@ =~= device::overwritten(before.ram[r as int], 0, part.take(i + 1)));
        i = i + 1;
    }
    assert(part.take(half as int) =~= part);
    d.set_slot(r, image);
}

/// Executes a command of the NV group.
fn exec_nv(d: &mut Dev) -> (ok: bool)
    requires
        old(d)@.sound(),
    ensures
        (final(d)@, ok) == old(d)@.nv_group(),
{
    let ghost before = d@;
    if !d.active {
        return false;
    }
    let c: u8 = d.cmd;
    if c == NV_INFO {
        let info: [u8; 3] = [(NV_SIZE % 256) as u8, (NV_SIZE / 256) as u8, 1];
        assert(info@ =~= seq![(NV_SIZE as int % 256) as u8, (NV_SIZE as int / 256) as u8, 1u8]);
        d.data_write(0, &info);
        true
    } else if c == NV_PEEK {
        let count: u32 = d.args[0] as u32;
        let loc: u32 = read16(d.args[1], d.args[2]);
        if count == 0 || loc + count > NV_SIZE as u32 {
            return false;
        }
        let mut buf: Vec<u8> = Vec::with_capacity(count as usize);
        let ghost answer = before.nv.subrange(loc as int, loc + count);
        let mut i: u32 = 0;
        while i < count
            invariant
                i <= count,
                loc + count <= NV_SIZE,
                d@ == before,
                before.sound(),
                answer == before.nv.subrange(loc as int, loc + count),
                buf@ == answer.take(i as int),
            decreases count - i,
        {
            buf.push(d.nv[(loc + i) as usize]);
            assert(buf@ =~= answer.take(i + 1));
            i = i + 1;
        }
        assert(buf@ =~= answer);
        d.data_write(0, buf.as_slice());
        true
    } else if c == NV_POKE_BEGIN {
        // A device may stage the write in the slot that the host lends it, so that
        // must not be the one being served. Here the copy has its own place, and
        // the slot is left alone.
        let slot: usize = d.args[0] as usize;
        if d.args[0] == RESERVED_AA || slot >= d.nram || slot == d.active_slot {
            return false;
        }
        let copy = d.nv.clone();
        assert(copy@ =~= before.nv);
        d.stage = Some(copy);
        true
    } else if c == NV_POKE {
        let byte: u8 = d.args[0];
        let loc: usize = read16(d.args[1], d.args[2]) as usize;
        match d.stage.take() {
            Some(st) => {
                let mut st = st;
                let ok: bool = loc < NV_SIZE;
                if ok {
                    st[loc] = byte;
                }
                d.stage = Some(st);
                ok
            },
            None => false,
        }
    } else if c == NV_POKE_COMMIT {
        match d.stage.take() {
            Some(st) => {
                d.nv = st;
                true
            },
            None => false,
        }
    } else if c == NV_POKE_CANCEL {
        d.stage = None;
        true
    } else if c == NV_POKE_COMMIT_BYTE {
        // Begin, poke and commit in one.
        let byte: u8 = d.args[0];
        let loc: usize = read16(d.args[1], d.args[2]) as usize;
        let slot: usize = d.args[3] as usize;
        if d.args[3] == RESERVED_AA || slot >= d.nram || slot == d.active_slot {
            return false;
        }
        if loc >= NV_SIZE {
            return false;
        }
        d.nv[loc] = byte;
        true
    } else {
        false
    }
}

/// Does what the received command asks for; `false` where it is refused.
pub fn dispatch(d: &mut Dev, faults: &Faults) -> (ok: bool)
    requires
        old(d)@.sound(),
        old(d)@.header_fits(),
    ensures
        (final(d)@, ok) == old(d)@.dispatched(*faults),
        final(d)@.sound(),
{
    let ghost before = d@;
    let g: u8 = d.group;
    let ok: bool = if g == G_RESET {
        // Resynchronises a device whose session has desynchronised, so it works
        // in any state and leaves the back-channel alone.
        d.st = St::Knock;
        d.kmatch = 0;
        d.active = false;
        d.stage = None;
        true
    } else if g == G_CONTROL {
        exec_control(d)
    } else if g == G_READ {
        exec_read(d, faults)
    } else if g == G_MODIFY {
        exec_modify(d, faults)
    } else if g == G_NV {
        exec_nv(d)
    } else {
        false
    };
    proof {
        lemma_dispatched_sound(before, *faults);
    }
    ok
}

/// Executing a command keeps a device sound.
pub(crate) proof fn lemma_dispatched_sound(d: Device, faults: Faults)
    requires
        d.sound(),
        d.header_fits(),
    ensures
        d.dispatched(faults).0.sound(),
        d.dispatched(faults).0.cmds == d.cmds,
        d.dispatched(faults).0.group == d.group,
        d.dispatched(faults).0.cmd == d.cmd,
        d.dispatched(faults).0.want == d.want,
        d.dispatched(faults).0.nargs == d.nargs,
{
}

/// Does what the received command asks for, and writes nothing to the
/// back-channel.
fn dispatch_unheard(d: &mut Dev, faults: &Faults)
    requires
        old(d)@.sound(),
        old(d)@.header_fits(),
    ensures
        final(d)@ == old(d)@.dispatched_unheard(*faults),
        final(d)@.sound(),
        final(d)@.cmds == old(d)@.cmds,
{
    let ghost before = d@;
    let g: u8 = d.group;
    proof {
        lemma_dispatched_sound(before, *faults);
    }
    if g == G_CONTROL && d.cmd == ENTER_CMD_RESP {
        enter_unheard(d);
    } else if g == G_READ || g == G_NV {
        // Without a data area there is nowhere to put a reply.
        let data_size: u32 = d.data_size;
        d.data_size = 0;
        let _ = dispatch(d, faults);
        d.data_size = data_size;
        assert(d@ =~= before.dispatched_unheard(*faults));
    } else {
        let _ = dispatch(d, faults);
    }
}

/// Executes the received command and answers it.
pub fn run_command(d: &mut Dev, faults: &Faults)
    requires
        old(d)@.sound(),
        old(d)@.in_range(),
    ensures
        final(d)@ == old(d)@.executed(*faults),
        final(d)@.sound(),
{
    let ghost before = d@;
    let was: bool = d.active;
    // Deaf: the command is executed and nothing is written back, so that the
    // host sees a token that never moves and must time out rather than hang.
    if faults.deaf > 0 && d.cmds >= faults.deaf {
        dispatch_unheard(d, faults);
        d.cmds = d.cmds + 1;
        return;
    }
    let silent: bool = cmd_is_silent(d.group, d.cmd);
    // The header can only be written while a region is known, so the
    // bookkeeping goes by the state before the command.
    if was && !silent {
        let g: u8 = d.group;
        let c: u8 = d.cmd;
        d.cmd_begin(g, c);
    }
    let ghost noticed = d@;
    let ok: bool = dispatch(d, faults);
    proof {
        lemma_dispatched_sound(noticed, *faults);
    }
    if was && !silent {
        d.cmd_end(ok);
    } else if !was && d.active {
        // Entered: there was no region to write into when the command arrived,
        // and there is one now.
        let g: u8 = d.group;
        let c: u8 = d.cmd;
        d.cmd_begin(g, c);
        d.cmd_end(true);
    }
    d.cmds = d.cmds + 1;
}

/// Executes the received command and waits for what comes next.
fn run_and_wait(d: &mut Dev, faults: &Faults)
    requires
        old(d)@.sound(),
        old(d)@.in_range(),
    ensures
        final(d)@ == old(d)@.ran(*faults),
        final(d)@.wf(),
{
    run_command(d, faults);
    d.st = if d.active {
        St::Group
    } else {
        St::Knock
    };
}

/// Shows a device one bus cycle that reads its offset `observed`.
pub fn feed(d: &mut Dev, observed: u32, faults: &Faults)
    requires
        old(d)@.wf(),
        old(d)@.feedable(observed as int),
    ensures
        final(d)@ == old(d)@.fed(observed as int, *faults),
        final(d)@.wf(),
{
    // Once entered, only reads on the command page are commands.
    if d.active && observed / 256 != d.cmd_page as u32 {
        return;
    }
    let b: u8 = (observed % 256) as u8;
    let complete: bool = take_byte(d, b);
    if complete {
        run_and_wait(d, faults);
    }
}

/// Takes one byte of the session; `true` where it completes a command.
fn take_byte(d: &mut Dev, b: u8) -> (complete: bool)
    requires
        old(d)@.wf(),
    ensures
        (final(d)@, complete) == old(d)@.taken(b),
        final(d)@.sound(),
        !complete ==> final(d)@.wf(),
{
    match d.st {
        St::Knock => {
            if b == knock_byte(d.kmatch) {
                d.kmatch = d.kmatch + 1;
                if d.kmatch == KNOCK_LEN {
                    d.kmatch = 0;
                    d.st = St::Group;
                }
            } else {
                // How far the knock ever got before being broken. A host whose
                // own instruction fetches come from this window interleaves them
                // with its command reads, and the device cannot tell them apart.
                if d.kmatch > d.kmax {
                    d.kmax = d.kmatch;
                }
                d.kmatch = if b == knock_byte(0) {
                    1
                } else {
                    0
                };
            }
            false
        },
        St::Group => {
            d.group = b;
            d.st = St::Cmd;
            false
        },
        St::Cmd => {
            d.cmd = b;
            d.nargs = 0;
            d.want = arg_count(d.group, d.cmd);
            if d.want == 0 {
                true
            } else {
                d.st = St::Args;
                false
            }
        },
        St::Args => {
            let n: usize = d.nargs;
            d.args[n] = b;
            d.nargs = n + 1;
            d.nargs >= d.want
        },
    }
}

} // verus!
