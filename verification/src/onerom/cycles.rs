//! What holds of the devices on one bus.

use super::device::{Device, St};
use super::laws;
use super::protocol;
use super::rom;
use super::rom::{Bus, OneRom, OneRomEnv};
use crate::settings;
use vstd::prelude::*;

verus! {

/// An access keeps the devices well formed.
pub proof fn access_keeps_well_formed(bus: Bus, addr: int, width: int)
    requires
        bus.wf(),
        bus.accessible(addr, width),
    ensures
        bus.accessed(addr, width).wf(),
{
    offset_is_natural(bus, addr);
    let after = bus.accessed(addr, width);
    assert forall|i: int| 0 <= i < after.devs.len() implies (#[trigger] after.devs[i]).wf() by {
        if bus.reaches(addr, width, i) {
            laws::fed_is_well_formed(bus.devs[i], bus.offset(addr), bus.faults);
        }
    }
}

proof fn offset_is_natural(bus: Bus, addr: int)
    requires
        bus.wf(),
        bus.base <= addr,
    ensures
        0 <= bus.offset(addr),
        0 < bus.stride,
{
    let cyc = (addr - bus.base) / bus.stride;
    assert(0 < bus.stride) by (nonlinear_arith)
        requires
            bus.stride == bus.devs.len() * bus.dev_bytes,
            1 <= bus.devs.len(),
            1 <= bus.dev_bytes,
    ;
    vstd::arithmetic::div_mod::lemma_div_pos_is_pos(addr - bus.base, bus.stride);
    assert(0 <= cyc * bus.dev_bytes) by (nonlinear_arith)
        requires
            0 <= cyc,
            1 <= bus.dev_bytes,
    ;
    vstd::arithmetic::div_mod::lemma_mod_bound((addr - bus.base) % bus.stride, bus.dev_bytes);
}

/// A word access is one bus cycle with every strobe asserted: every device sees
/// exactly one, of the same offset, and the bus itself stays as it is.
pub proof fn word_access_reaches_all(bus: Bus, addr: int, width: int, i: int)
    requires
        bus.wf(),
        width >= 2,
        0 <= i < bus.devs.len(),
    ensures
        bus.accessed(addr, width).devs[i] == bus.devs[i].fed(bus.offset(addr), bus.faults),
        bus.accessed(addr, width) == (Bus { devs: bus.accessed(addr, width).devs, ..bus }),
{
}

/// A byte access under gated selects is seen by one device only.
pub proof fn byte_access_reaches_one(bus: Bus, addr: int, i: int)
    requires
        bus.wf(),
        bus.gated,
        0 <= i < bus.devs.len(),
        i != bus.lane(addr),
    ensures
        bus.accessed(addr, 1).devs[i] == bus.devs[i],
{
}

/// A read that no device takes for part of a command is an ordinary fetch: it
/// changes nothing, and returns what `fetch` returns.
pub proof fn plain_read_changes_nothing(bus: Bus, addr: int, width: int)
    requires
        bus.wf(),
        forall|i: int|
            0 <= i < bus.devs.len() && bus.reaches(addr, width, i) ==> !(#[trigger] bus.devs[i]).heeds(
                bus.offset(addr),
            ),
    ensures
        bus.accessed(addr, width) == bus,
        bus.accessed(addr, width).byte_at(addr) == bus.byte_at(addr),
{
    assert(bus.accessed(addr, width).devs =~= bus.devs);
    assert(bus.accessed(addr, width) =~= bus);
}

/// The address a host reads to send byte `b` on command page `page`.
pub open spec fn command_address(bus: Bus, page: int, b: u8) -> int {
    bus.base + (page * 256 + b) * bus.stride
}

/// The addresses a host reads to send `bytes`, each on its page.
pub open spec fn command_addresses(bus: Bus, pages: Seq<int>, bytes: Seq<u8>) -> Seq<int> {
    Seq::new(bytes.len(), |k: int| command_address(bus, pages[k], bytes[k]))
}

/// Reading the command address of a byte shows that byte, on that page, to the
/// devices that are read.
pub proof fn command_address_shows_byte(bus: Bus, page: int, b: u8)
    requires
        bus.wf(),
        bus.dev_bytes == 1,
        0 <= page,
    ensures
        bus.offset(command_address(bus, page, b)) == page * 256 + b,
        bus.offset(command_address(bus, page, b)) / 256 == page,
        bus.offset(command_address(bus, page, b)) % 256 == b as int,
        bus.lane(command_address(bus, page, b)) == 0,
{
    let o = page * 256 + b;
    assert(bus.stride == bus.devs.len()) by (nonlinear_arith)
        requires
            bus.stride == bus.devs.len() * bus.dev_bytes,
            bus.dev_bytes == 1,
    ;
    let rel = o * bus.stride;
    vstd::arithmetic::div_mod::lemma_fundamental_div_mod_converse(rel, bus.stride, o, 0);
    assert(command_address(bus, page, b) - bus.base == rel);
}

/// The bus after word accesses at these addresses, one after the other.
pub open spec fn driven(bus: Bus, addrs: Seq<int>) -> Bus
    decreases addrs.len(),
{
    if addrs.len() == 0 {
        bus
    } else {
        driven(bus, addrs.drop_last()).accessed(addrs.last(), 2)
    }
}

/// Word accesses drive every device alike: each sees the offsets that the
/// addresses stand for, in order.
pub proof fn words_drive_all(bus: Bus, addrs: Seq<int>, i: int)
    requires
        bus.wf(),
        0 <= i < bus.devs.len(),
    ensures
        driven(bus, addrs).devs.len() == bus.devs.len(),
        driven(bus, addrs) == (Bus { devs: driven(bus, addrs).devs, ..bus }),
        driven(bus, addrs).devs[i] == bus.devs[i].watched(
            addrs.map_values(|a: int| bus.offset(a)),
            bus.faults,
        ),
    decreases addrs.len(),
{
    reveal(Device::watched);
    let offsets = addrs.map_values(|a: int| bus.offset(a));
    if addrs.len() > 0 {
        words_drive_all(bus, addrs.drop_last(), i);
        assert(offsets.drop_last() =~= addrs.drop_last().map_values(|a: int| bus.offset(a)));
        let most = driven(bus, addrs.drop_last());
        assert(most.offset(addrs.last()) == bus.offset(addrs.last()));
    }
}

/// A host that reads the command addresses of a command by words has every
/// device that waits for one execute it: on its command page where it is in
/// command-response mode, and otherwise each byte on any page. Before the last
/// byte no such device has executed anything.
pub proof fn command_is_broadcast(
    bus: Bus,
    pages: Seq<int>,
    g: u8,
    c: u8,
    a: Seq<u8>,
    i: int,
)
    requires
        bus.wf(),
        bus.dev_bytes == 1,
        pages.len() == a.len() + 2,
        forall|k: int| 0 <= k < pages.len() ==> 0 <= #[trigger] pages[k],
        0 <= i < bus.devs.len(),
        bus.devs[i].st == St::Group,
        bus.devs[i].active ==> forall|k: int|
            0 <= k < pages.len() ==> #[trigger] pages[k] == bus.devs[i].cmd_page,
        a.len() == protocol::argument_count(g, c),
    ensures
        ({
            let addrs = command_addresses(bus, pages, seq![g, c] + a);
            &&& driven(bus, addrs).devs[i] == bus.devs[i].commanded(g, c, a, bus.faults)
            &&& forall|n: int|
                0 <= n < addrs.len() ==> (#[trigger] driven(bus, addrs.take(n))).devs[i].cmds
                    == bus.devs[i].cmds
        }),
{
    let bytes = seq![g, c] + a;
    let addrs = command_addresses(bus, pages, bytes);
    let offsets = addrs.map_values(|x: int| bus.offset(x));
    assert forall|k: int| 0 <= k < bytes.len() implies (#[trigger] offsets[k]) % 256
        == bytes[k] as int && bus.devs[i].heeds(offsets[k]) by {
        command_address_shows_byte(bus, pages[k], bytes[k]);
    }
    laws::command_is_decoded(bus.devs[i], offsets, g, c, a, bus.faults);
    words_drive_all(bus, addrs, i);
    assert forall|n: int| 0 <= n < pages.len() implies (#[trigger] driven(
        bus,
        addrs.take(n),
    )).devs[i].cmds == bus.devs[i].cmds by {
        words_drive_all(bus, addrs.take(n), i);
        assert(addrs.take(n).map_values(|x: int| bus.offset(x)) =~= offsets.take(n));
    }
}

/// A model just built serves the ROM image it was given at every address of its
/// window, whatever faults it injects. (Of an image of 2^32 bytes or more it
/// serves the last bytes that fall on each address.)
pub proof fn fresh_model_serves_image(env: OneRomEnv, rom: Seq<u8>, i: int)
    requires
        0 <= i < env.configured(rom).window(),
    ensures
        env.configured(rom).byte_at(env.configured(rom).base + i) == rom[rom::last_copy(
            rom.len() as int,
            i,
        )],
        rom.len() < 0x1_0000_0000 ==> env.configured(rom).byte_at(env.configured(rom).base + i)
            == rom[i],
{
    let n = env.ndev();
    let bus = env.bus(rom.len() as int);
    let after = env.configured(rom);
    let size = env.per_dev(rom.len() as int);
    let lane = i % n;
    let off = i / n;
    vstd::arithmetic::div_mod::lemma_fundamental_div_mod(i, n);
    vstd::arithmetic::div_mod::lemma_mod_bound(i, n);
    assert(0 <= off < size) by (nonlinear_arith)
        requires
            0 <= i < size * n,
            off == i / n,
            1 <= n,
    ;
    assert(i < rom.len() % 0x1_0000_0000) by (nonlinear_arith)
        requires
            i < size * n,
            size == (rom.len() % 0x1_0000_0000) as int / n,
            1 <= n,
    ;
    assert(bus.position(lane, off) == i) by {
        assert(off / 1 == off && off % 1 == 0);
        assert(n * off == off * n) by (nonlinear_arith);
    }
    assert(after.base + i - after.base == i);
    assert(lane / 1 == lane && lane % 1 == 0 && off * 1 == off);
    assert(after.lane(after.base + i) == lane);
    assert(after.offset(after.base + i) == off);
    let d = after.devs[lane];
    let slot = bus.devs[lane].ram[d.active_slot];
    assert(slot.len() == size);
    assert(d.served() == bus.split_slot(lane, slot, rom));
}

/// A model told so starts with every device in command-response mode, past the
/// knock: the first reads on its command page are a command. Otherwise every
/// device waits for a knock.
pub proof fn fresh_model_starts(env: OneRomEnv, rom: Seq<u8>, i: int)
    requires
        0 <= i < env.ndev(),
    ensures
        ({
            let d = env.configured(rom).devs[i];
            &&& env.faults().entered ==> d.active && d.st == St::Group
            &&& !env.faults().entered ==> !d.active && d.st == St::Knock && d.kmatch == 0
            &&& d.cmds == 0
        }),
{
}

/// Devices told to disagree do: all but the first serve another slot than the
/// first, where there is another.
pub proof fn skewed_devices_disagree(env: OneRomEnv, rom: Seq<u8>, i: int)
    requires
        1 <= i < env.ndev(),
        env.nram() > 1,
    ensures
        env.faults().skew == (env.configured(rom).devs[i].active_slot != env.configured(
            rom,
        ).devs[0].active_slot),
{
}

/// The device that holds the byte at position `rel` of the window, and the offset
/// that reading it puts on the address bus of the devices: by bytes in turn, or by
/// pairs of bytes in turn, each pair the other way round.
pub open spec fn place(bus: Bus, rel: int) -> (int, int) {
    let n = bus.devs.len() as int;
    if bus.dev_bytes == 1 {
        (rel % n, rel / n)
    } else {
        (rel % (2 * n) / 2, rel / (2 * n) * 2 + (1 - rel % 2))
    }
}

/// The bytes of the window belong to the devices in turn.
pub proof fn window_is_dealt_out(bus: Bus, addr: int)
    requires
        bus.wf(),
        bus.base <= addr,
    ensures
        bus.lane(addr) == place(bus, addr - bus.base).0,
        bus.offset(addr) == place(bus, addr - bus.base).1,
        0 <= place(bus, addr - bus.base).0 < bus.devs.len(),
        0 <= place(bus, addr - bus.base).1,
{
    let n = bus.devs.len() as int;
    let rel = addr - bus.base;
    if bus.dev_bytes == 1 {
        assert(bus.stride == n) by (nonlinear_arith)
            requires
                bus.stride == bus.devs.len() * bus.dev_bytes,
                bus.dev_bytes == 1,
                n == bus.devs.len(),
        ;
        vstd::arithmetic::div_mod::lemma_mod_bound(rel, n);
        assert(rel % n / 1 == rel % n && rel % n % 1 == 0 && rel / n * 1 == rel / n);
    } else {
        assert(bus.stride == 2 * n) by (nonlinear_arith)
            requires
                bus.stride == bus.devs.len() * bus.dev_bytes,
                bus.dev_bytes == 2,
                n == bus.devs.len(),
        ;
        vstd::arithmetic::div_mod::lemma_mod_bound(rel, 2 * n);
        assert(rel % (2 * n) % 2 == rel % 2) by {
            vstd::arithmetic::div_mod::lemma_mod_mod(rel, 2, n);
        }
    }
    vstd::arithmetic::div_mod::lemma_div_pos_is_pos(rel, bus.stride);
}

/// A byte access, under gated selects, is seen by the device that holds the byte,
/// whichever it is, and by no other; without gating it is seen by all of them, as
/// a wider access always is. Each device that sees it sees one cycle.
pub proof fn access_is_seen(bus: Bus, addr: int, width: int, i: int)
    requires
        bus.wf(),
        bus.base <= addr,
        0 <= i < bus.devs.len(),
    ensures
        ({
            let (lane, off) = place(bus, addr - bus.base);
            let after = bus.accessed(addr, width);
            &&& after == (Bus { devs: after.devs, ..bus })
            &&& after.devs.len() == bus.devs.len()
            &&& i == lane || width >= 2 || !bus.gated ==> after.devs[i] == bus.devs[i].fed(
                off,
                bus.faults,
            )
            &&& i != lane && width < 2 && bus.gated ==> after.devs[i] == bus.devs[i]
        }),
{
    window_is_dealt_out(bus, addr);
}

/// Byte accesses at the addresses of one device drive that device as they would
/// drive it alone: a knock and a command sent on its lane reach it, whichever lane
/// that is, and leave the others as they were.
pub proof fn lane_is_driven(bus: Bus, lane: int, offsets: Seq<int>, i: int)
    requires
        bus.wf(),
        bus.dev_bytes == 1,
        bus.gated,
        0 <= lane < bus.devs.len(),
        forall|k: int| 0 <= k < offsets.len() ==> 0 <= #[trigger] offsets[k],
        0 <= i < bus.devs.len(),
    ensures
        ({
            let after = byte_driven(bus, lane, offsets);
            &&& after == (Bus { devs: after.devs, ..bus })
            &&& after.devs.len() == bus.devs.len()
            &&& after.devs[lane] == bus.devs[lane].watched(offsets, bus.faults)
            &&& i != lane ==> after.devs[i] == bus.devs[i]
        }),
    decreases offsets.len(),
{
    reveal(Device::watched);
    if offsets.len() > 0 {
        let o = offsets.last();
        let n = bus.devs.len() as int;
        let most = offsets.drop_last();
        assert(o == offsets[offsets.len() - 1]);
        assert forall|k: int| 0 <= k < most.len() implies 0 <= #[trigger] most[k] by {
            assert(most[k] == offsets[k]);
        }
        lane_is_driven(bus, lane, most, i);
        let mid = byte_driven(bus, lane, most);
        assert(bus.stride == n) by (nonlinear_arith)
            requires
                bus.stride == bus.devs.len() * bus.dev_bytes,
                bus.dev_bytes == 1,
                n == bus.devs.len(),
        ;
        let rel = o * n + lane;
        vstd::arithmetic::div_mod::lemma_fundamental_div_mod_converse(rel, n, o, lane);
        assert(bus.base + rel - mid.base == rel);
        assert(lane / 1 == lane && lane % 1 == 0 && o * 1 == o) by (nonlinear_arith);
        assert(mid.lane(bus.base + rel) == lane);
        assert(mid.offset(bus.base + rel) == o);
    }
}

/// The bus after byte accesses at these offsets of one device, one after the
/// other.
pub open spec fn byte_driven(bus: Bus, lane: int, offsets: Seq<int>) -> Bus
    decreases offsets.len(),
{
    if offsets.len() == 0 {
        bus
    } else {
        byte_driven(bus, lane, offsets.drop_last()).accessed(
            bus.base + offsets.last() * bus.devs.len() + lane,
            1,
        )
    }
}

/// The byte at an address is the one that its device holds, in the slot that it
/// serves, at the offset that belongs to the address; 0xFF past the end.
pub proof fn served_byte_is_read(bus: Bus, addr: int)
    requires
        bus.wf(),
        bus.base <= addr,
    ensures
        ({
            let (lane, off) = place(bus, addr - bus.base);
            let d = bus.devs[lane];
            &&& off < d.size ==> bus.byte_at(addr) == d.ram[d.active_slot][off]
            &&& off >= d.size ==> bus.byte_at(addr) == 0xFF
        }),
{
    window_is_dealt_out(bus, addr);
}

/// An access can be made unless it lies below the window, or one of the devices
/// that see it could not execute the command that it completes.
pub proof fn most_accesses_can_be_made(bus: Bus, addr: int, width: int)
    requires
        bus.wf(),
    ensures
        bus.accessible(addr, width) <==> bus.base <= addr && forall|i: int|
            0 <= i < bus.devs.len() && (width >= 2 || !bus.gated || i == place(
                bus,
                addr - bus.base,
            ).0) ==> (#[trigger] bus.devs[i]).feedable(place(bus, addr - bus.base).1),
{
    if bus.base <= addr {
        window_is_dealt_out(bus, addr);
    }
}

/// The window is as large as all the devices together, from its base on; a device
/// is in a session, and has a count of commands, if there is such a device.
pub proof fn window_spans_devices(bus: Bus, addr: int, i: int)
    requires
        bus.wf(),
    ensures
        bus.window() == bus.per_dev * (bus.devs.len() * bus.dev_bytes),
        bus.holds(addr) <==> 0 <= addr - bus.base < bus.per_dev * (bus.devs.len() * bus.dev_bytes),
        0 <= i < bus.devs.len() ==> bus.in_session(i) == bus.devs[i].active && bus.executed_by(i)
            == bus.devs[i].cmds,
        i >= bus.devs.len() ==> !bus.in_session(i) && bus.executed_by(i) == 0,
{
}

/// The number of devices, and of the slots that they report, is what the settings
/// say, kept between one and what there is room for.
pub proof fn numbers_are_kept_in_range(env: OneRomEnv)
    ensures
        ({
            let n = settings::number(settings::text(env.devs), 2);
            &&& 1 <= env.ndev() <= 4
            &&& 1 <= n <= 4 ==> env.ndev() == n
            &&& n < 1 ==> env.ndev() == 1
            &&& n > 4 ==> env.ndev() == 4
        }),
        ({
            let n = settings::number(settings::text(env.ramslots), 2);
            &&& 1 <= env.nram() <= 4
            &&& 1 <= n <= 4 ==> env.nram() == n
            &&& n < 1 ==> env.nram() == 1
            &&& n > 4 ==> env.nram() == 4
        }),
        ({
            let n = settings::number(settings::text(env.flash), 3);
            &&& 1 <= env.nflash() <= 16
            &&& 1 <= n <= 16 ==> env.nflash() == n
            &&& n < 1 ==> env.nflash() == 1
            &&& n > 16 ==> env.nflash() == 16
        }),
{
}

/// A model just built has the devices, the window and the faults that its settings
/// ask for.
pub proof fn fresh_model_is_as_asked(env: OneRomEnv, rom: Seq<u8>)
    ensures
        ({
            let bus = env.configured(rom);
            &&& bus.devs.len() == env.ndev()
            &&& bus.stride == env.ndev()
            &&& bus.dev_bytes == 1
            &&& bus.gated
            &&& !bus.swap
            &&& bus.base == settings::number(settings::text(env.base), 0x40_0000)
            &&& bus.per_dev == rom.len() as int % 0x1_0000_0000 / env.ndev()
            &&& bus.faults.skew <==> settings::switched_on(settings::text(env.skew))
            &&& bus.faults.entered <==> settings::switched_on(settings::text(env.entered))
            &&& bus.faults.nopeek <==> settings::switched_on(settings::text(env.nopeek))
            &&& bus.faults.deaf == settings::number(settings::text(env.deaf), 0)
            &&& bus.faults.loadfail as int == settings::number(settings::text(env.loadfail), 0)
                % 256
        }),
{
    settings::lemma_number_bound(settings::text(env.deaf), 0);
}

/// A device just built: numbered in turn, with its share of the image for a size,
/// in the session or waiting for a knock as asked, with blank NV but for the byte
/// that may be preloaded, and with nothing counted.
pub proof fn fresh_device_is_as_asked(env: OneRomEnv, rom: Seq<u8>, i: int)
    requires
        0 <= i < env.ndev(),
    ensures
        ({
            let d = env.configured(rom).devs[i];
            let on = settings::switched_on(settings::text(env.entered));
            let skewed = settings::switched_on(settings::text(env.skew)) && i > 0 && env.nram() > 1;
            let nv0 = settings::decimal_byte(settings::text(env.nv0));
            &&& d.idx == i
            &&& d.size == rom.len() as int % 0x1_0000_0000 / env.ndev()
            &&& d.nram == env.nram()
            &&& d.nflash == env.nflash()
            &&& d.active_slot == (if skewed {
                1int
            } else {
                0
            })
            &&& d.active == on
            &&& d.st == (if on {
                St::Group
            } else {
                St::Knock
            })
            &&& on ==> d.cmd_page == settings::number(settings::text(env.entered_page), 0xE0)
                % 0x10000
            &&& on ==> d.region_off == settings::number(settings::text(env.entered_bch), 0xE100)
            &&& on ==> d.data_size == 152 && d.complete == 0xBB && d.status_ok == 0xCC
            &&& !on ==> d.cmd_page == 0 && d.region_off == 0 && d.data_size == 0
            &&& !on ==> d.complete == 0xFF && d.status_ok == 0xFF
            &&& d.kmatch == 0 && d.kmax == 0 && d.token == 0 && d.cmds == 0
            &&& d.group == 0 && d.cmd == 0 && d.nargs == 0 && d.want == 0
            &&& d.args == Seq::new(16, |k: int| 0u8)
            &&& d.stage is None && d.boot_flash == 0 && d.boot_ram == 0
            &&& d.nv.len() == 4096
            &&& forall|k: int| 1 <= k < 4096 ==> #[trigger] d.nv[k] == 0xFF
            &&& nv0 is None ==> d.nv[0] == 0xFF
            &&& nv0 matches Some(v) ==> d.nv[0] == v as u8
            &&& d.ram.len() == 4
            &&& d.flash.len() == 16
        }),
{
    let d = env.configured(rom).devs[i];
    assert(d.args =~= Seq::new(16, |k: int| 0u8));
}

/// Every RAM slot and every flash slot of every device of a model just built holds
/// the device's share of the image: each byte that falls to it, in order. (Of an
/// image of 2^32 bytes or more the last byte that falls on a position counts.)
pub proof fn fresh_slots_hold_image(
    env: OneRomEnv,
    rom: Seq<u8>,
    i: int,
    off: int,
    j: int,
)
    requires
        0 <= i < env.ndev(),
        0 <= off < env.configured(rom).devs[i].size,
        0 <= j < rom.len(),
        j % 0x1_0000_0000 == off * env.ndev() + i,
        j + 0x1_0000_0000 >= rom.len(),
    ensures
        ({
            let d = env.configured(rom).devs[i];
            &&& forall|s: int| 0 <= s < 4 ==> (#[trigger] d.ram[s]).len() == d.size && d.ram[s][off]
                == rom[j]
            &&& forall|s: int|
                0 <= s < 16 ==> (#[trigger] d.flash[s]).len() == d.size && d.flash[s][off] == rom[j]
        }),
{
    let n = env.ndev();
    let bus = env.bus(rom.len() as int);
    let d = env.configured(rom).devs[i];
    let b = bus.devs[i];
    let at = off * n + i;
    assert(bus.position(i, off) == at) by {
        assert(off / 1 == off && off % 1 == 0 && i * 1 == i);
        assert(off * bus.stride == off * n);
    }
    assert(rom::last_copy(rom.len() as int, at) == j);
    assert forall|s: int| 0 <= s < 4 implies (#[trigger] d.ram[s]).len() == d.size && d.ram[s][off]
        == rom[j] by {
        assert(b.ram[s].len() == d.size);
        assert(d.ram[s] == bus.split_slot(i, b.ram[s], rom));
    }
    assert forall|s: int| 0 <= s < 16 implies (#[trigger] d.flash[s]).len() == d.size
        && d.flash[s][off] == rom[j] by {
        assert(b.flash[s].len() == d.size);
        assert(d.flash[s] == bus.split_slot(i, b.flash[s], rom));
    }
}

/// Every byte of an image that falls inside the devices is read back at its place
/// in the window of a model just built, and past the devices there is 0xFF.
pub proof fn image_is_read_back(env: OneRomEnv, rom: Seq<u8>, addr: int)
    requires
        rom.len() < 0x1_0000_0000,
        settings::number(settings::text(env.base), 0x40_0000) <= addr,
    ensures
        ({
            let rel = addr - settings::number(settings::text(env.base), 0x40_0000);
            let whole = rom.len() as int / env.ndev() * env.ndev();
            &&& rel < whole ==> env.configured(rom).byte_at(addr) == rom[rel]
            &&& rel >= whole ==> env.configured(rom).byte_at(addr) == 0xFF
        }),
{
    let n = env.ndev();
    let bus = env.configured(rom);
    let rel = addr - bus.base;
    let per = rom.len() as int / n;
    assert(bus.per_dev == per);
    assert(bus.window() == per * n);
    if rel < per * n {
        fresh_model_serves_image(env, rom, rel);
    } else {
        let lane = bus.lane(addr);
        assert(rel % n / 1 == rel % n && rel % n % 1 == 0 && rel / n * 1 == rel / n);
        assert(bus.offset(addr) == rel / n);
        vstd::arithmetic::div_mod::lemma_mod_bound(rel, n);
        assert(rel / n >= per) by (nonlinear_arith)
            requires
                rel >= per * n,
                1 <= n,
        ;
        assert(bus.devs[lane].size == per);
    }
}

/// The model of a bus has what its fields hold, device by device.
pub proof fn model_shows_fields(m: OneRom)
    ensures
        m@.devs.len() == m.devs@.len(),
        forall|i: int| 0 <= i < m.devs@.len() ==> #[trigger] m@.devs[i] == m.devs@[i]@,
        m@.gated == m.gated && m@.swap == m.swap && m@.faults == m.faults,
        m@.dev_bytes == m.dev_bytes && m@.stride == m.stride,
        m@.base == m.base && m@.per_dev == m.per_dev,
{
}

/// What it takes for a bus to be well formed: one to four devices, all well formed,
/// of one byte each, or of two that are swapped, and a window below 4 GB.
pub proof fn bus_is_well_formed_when(m: OneRom)
    ensures
        m.wf() <==> {
            &&& 1 <= m.devs@.len() <= 4 && m.ndev == m.devs@.len()
            &&& m.dev_bytes == 1 && !m.swap || m.dev_bytes == 2 && m.swap
            &&& m.stride == m.devs@.len() * m.dev_bytes
            &&& m.per_dev * m.stride < 0x1_0000_0000
            &&& forall|i: int| 0 <= i < m.devs@.len() ==> (#[trigger] m.devs@[i])@.wf()
        },
{
    assert forall|i: int| 0 <= i < m.devs@.len() implies #[trigger] m@.devs[i] == m.devs@[i]@ by {
    }
    if m.wf() {
        assert forall|i: int| 0 <= i < m.devs@.len() implies (#[trigger] m.devs@[i])@.wf() by {
            assert(m@.devs[i].wf());
        }
    }
}

/// An access shows the cycle to the devices first, and then reads the byte: what
/// the cycle has made a device serve is what the access returns, and what a fetch
/// of that address returns after it.
pub proof fn access_reads_after_cycle(bus: Bus, addr: int, width: int)
    requires
        bus.wf(),
        bus.base <= addr,
    ensures
        ({
            let (after, b) = bus.read(addr, width);
            let (lane, off) = place(bus, addr - bus.base);
            let seen = bus.devs[lane].fed(off, bus.faults);
            &&& after == bus.accessed(addr, width)
            &&& b == after.byte_at(addr)
            &&& off < seen.size ==> b == seen.ram[seen.active_slot][off]
            &&& off >= seen.size ==> b == 0xFF
        }),
{
    window_is_dealt_out(bus, addr);
}

/// The window fits if its last byte has a 32-bit address and one more follows.
pub proof fn window_fits_below(bus: Bus)
    requires
        bus.wf(),
    ensures
        bus.fits() <==> bus.base + bus.per_dev * (bus.devs.len() * bus.dev_bytes) < 0x1_0000_0000,
{
}

/// There is a model if the settings ask for one, by the one character `1`.
pub proof fn model_is_built_if_asked(env: OneRomEnv, rom: Seq<u8>)
    ensures
        env.enable is None ==> env.model(rom) is None,
        env.enable matches Some(s) ==> (env.model(rom) is Some <==> s@.len() == 1 && s@[0] == '1'),
        env.model(rom) is Some ==> env.model(rom)->0 == env.configured(rom),
{
    settings::laws::only_one_switches_on(settings::text(env.enable));
}

} // verus!
