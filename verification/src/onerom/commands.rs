//! What each command does, in the numbers that go over the bus.

use super::dev;
use super::dev::Dev;
use super::device;
use super::device::{Device, Faults, St};
use super::protocol;
use vstd::prelude::*;

verus! {

/// Whether `after` is `before` with `p` written over it from position `at`, as
/// far as it fits.
pub open spec fn patched(before: Seq<u8>, after: Seq<u8>, at: int, p: Seq<u8>) -> bool {
    &&& after.len() == before.len()
    &&& forall|i: int|
        0 <= i < before.len() ==> #[trigger] after[i] == (if at <= i < at + p.len() {
            p[i - at]
        } else {
            before[i]
        })
}

/// Whether `after` is `d` with `p` written into the slot being served, from
/// position `at`, and nothing else changed.
pub open spec fn serves(d: Device, after: Device, at: int, p: Seq<u8>) -> bool {
    &&& after == (Device { ram: after.ram, ..d })
    &&& after.ram.len() == d.ram.len()
    &&& patched(d.ram[d.active_slot], after.ram[d.active_slot], at, p)
    &&& forall|s: int|
        0 <= s < d.ram.len() && s != d.active_slot ==> #[trigger] after.ram[s] == d.ram[s]
}

/// Whether `after` is `d` with `reply` at the start of its data area, cut to what
/// the area holds, and nothing else changed.
pub open spec fn replies(d: Device, after: Device, reply: Seq<u8>) -> bool {
    if reply.len() <= d.data_size {
        serves(d, after, d.region_off + 8, reply)
    } else {
        serves(d, after, d.region_off + 8, reply.take(d.data_size))
    }
}

/// The name of a flash slot in ASCII.
pub open spec fn name_bytes(slot: int) -> Seq<u8> {
    if slot == 0 {
        seq![109u8, 97, 99, 109, 111, 110]
    } else if slot == 1 {
        seq![77u8, 97, 99, 105, 110, 116, 111, 115, 104, 32, 80, 108, 117, 115, 32, 82, 79, 77]
    } else if slot == 2 {
        seq![77u8, 97, 99, 71, 114, 117, 98]
    } else {
        seq![115u8, 108, 111, 116]
    }
}

/// A part is named by its size, and a size that is none of the four has 0xFF.
pub proof fn parts_are_named(size: int)
    ensures
        protocol::rom_type(size) == 0x1A <==> size == 2048,
        protocol::rom_type(size) == 0x1B <==> size == 8192,
        protocol::rom_type(size) == 0x1C <==> size == 32768,
        protocol::rom_type(size) == 0x1D <==> size == 65536,
        protocol::rom_type(size) == 0xFF <==> size != 2048 && size != 8192 && size != 32768 && size
            != 65536,
{
}

/// A flash record is 32 bytes: the type of the part, the name of the slot, and
/// zeros to the end.
pub proof fn records_name_slots(slot: int, size: int)
    ensures
        ({
            let rec = protocol::flash_record(slot, size);
            let name = name_bytes(slot);
            &&& rec.len() == 32
            &&& rec[0] == protocol::rom_type(size)
            &&& forall|j: int| 0 <= j < name.len() ==> rec[1 + j] == #[trigger] name[j]
            &&& forall|j: int| name.len() < j < 32 ==> #[trigger] rec[j] == 0
        }),
{
    let rec = protocol::flash_record(slot, size);
    let name = name_bytes(slot);
    assert(protocol::slot_name(slot) =~= name);
    assert forall|j: int| 0 <= j < name.len() implies rec[1 + j] == #[trigger] name[j] by {
        assert(rec[1 + j] == protocol::slot_name(slot)[j]);
    }
}

/// The knock spells `!RBCP!`.
pub proof fn knock_is_spelled()
    ensures
        protocol::knock() == seq![33u8, 82, 66, 67, 80, 33],
{
}

/// The arguments that each command takes, and every other byte pair takes none.
pub proof fn arguments_are_counted(g: u8, c: u8)
    ensures
        ({
            let n = protocol::argument_count(g, c);
            &&& n == 9 <==> g == 0 && (c == 1 || c == 6)
            &&& n == 5 <==> g == 1 && c == 7 || g == 2 && c == 0
            &&& n == 4 <==> g == 3 && c == 6
            &&& n == 3 <==> g == 3 && (c == 1 || c == 3)
            &&& n == 2 <==> g == 0 && c == 5 || g == 2 && (c == 2 || c == 3)
            &&& n == 1 <==> g == 0 && c == 4 || g == 1 && c == 1 || g == 2 && c == 1 || g == 3 && c
                == 2
            &&& n == 0 || n == 1 || n == 2 || n == 3 || n == 4 || n == 5 || n == 9
        }),
{
}

/// The commands that are not answered are the reset and the four that leave
/// command-response mode without a word.
pub proof fn silence_is_kept(g: u8, c: u8)
    ensures
        protocol::silent(g, c) <==> g == 0xAA && c == 0xAA || g == 0 && 3 <= c <= 6,
{
}

/// A flash slot that there is has its record sent, if the data area holds 32
/// bytes; any other request for one is refused and changes nothing.
pub proof fn flash_slot_is_described(d: Device, faults: Faults)
    requires
        d.sound(),
        d.active,
        d.group == 1,
        d.cmd == 1,
    ensures
        ({
            let (after, ok) = d.dispatched(faults);
            let slot = d.args[0] as int;
            &&& ok <==> slot < d.nflash && 32 <= d.data_size
            &&& ok ==> replies(d, after, protocol::flash_record(slot, d.size))
            &&& !ok ==> after == d
        }),
{
    let (after, ok) = d.dispatched(faults);
    if ok {
        assert(protocol::flash_record(d.args[0] as int, d.size).len() == 32);
    }
}

/// All flash slots at once: how many there are, how many follow, the length of a
/// record, and the records one after the other, as many as fit and no more than
/// there are.
pub proof fn flash_slots_are_listed(d: Device, faults: Faults)
    requires
        d.sound(),
        d.active,
        d.group == 1,
        d.cmd == 2,
        4 <= d.data_size,
        d.region_off + 8 + d.data_size <= d.size,
    ensures
        ({
            let (after, ok) = d.dispatched(faults);
            let at = d.region_off + 8;
            let n = after.ram[d.active_slot][at + 1] as int;
            &&& ok
            &&& after.ram[d.active_slot][at] == d.nflash
            &&& after.ram[d.active_slot][at + 2] == 32
            &&& after.ram[d.active_slot][at + 3] == 0
            &&& n <= d.nflash
            &&& 4 + 32 * n <= d.data_size
            &&& n == d.nflash || d.data_size < 4 + 32 * n + 32
            &&& forall|k: int, j: int|
                #![trigger protocol::flash_record(k, d.size)[j]]
                0 <= k < n && 0 <= j < 32 ==> after.ram[d.active_slot][at + 4 + 32 * k + j]
                    == protocol::flash_record(k, d.size)[j]
            &&& forall|i: int|
                0 <= i < d.size && !(at <= i < at + 4 + 32 * n)
                    ==> #[trigger] after.ram[d.active_slot][i] == d.ram[d.active_slot][i]
        }),
{
    let (after, ok) = d.dispatched(faults);
    let n = d.records_sent();
    let records = device::flash_records(n, d.size);
    let at = d.region_off + 8;
    records_are_joined(n, d.size);
    assert(0 <= n <= d.nflash);
    assert(4 + 32 * n <= d.data_size);
    let reply = seq![d.nflash as u8, n as u8, 32u8, 0u8] + records;
    assert(reply.len() == 4 + 32 * n);
    assert(after == d.channel_written(8, reply));
    assert(after.ram[d.active_slot][at + 1] == reply[1]);
    assert(after.ram[d.active_slot][at] == reply[0]);
    assert(after.ram[d.active_slot][at + 2] == reply[2]);
    assert(after.ram[d.active_slot][at + 3] == reply[3]);
    assert forall|k: int, j: int|
        #![trigger protocol::flash_record(k, d.size)[j]]
        0 <= k < n && 0 <= j < 32 implies after.ram[d.active_slot][at + 4 + 32 * k + j]
        == protocol::flash_record(k, d.size)[j] by {
        assert(reply[4 + 32 * k + j] == records[32 * k + j]);
    }
}

proof fn records_are_joined(n: int, size: int)
    requires
        0 <= n,
    ensures
        device::flash_records(n, size).len() == 32 * n,
        forall|k: int, j: int|
            #![trigger protocol::flash_record(k, size)[j]]
            0 <= k < n && 0 <= j < 32 ==> device::flash_records(n, size)[32 * k + j]
                == protocol::flash_record(k, size)[j],
    decreases n,
{
    if n > 0 {
        records_are_joined(n - 1, size);
        let less = device::flash_records(n - 1, size);
        let more = device::flash_records(n, size);
        assert(more == less + protocol::flash_record(n - 1, size));
        assert forall|k: int, j: int|
            #![trigger protocol::flash_record(k, size)[j]]
            0 <= k < n && 0 <= j < 32 implies more[32 * k + j] == protocol::flash_record(
            k,
            size,
        )[j] by {
            if k < n - 1 {
                assert(more[32 * k + j] == less[32 * k + j]);
            }
        }
    }
}

/// With less than four bytes of data area the listing is cut short, and holds no
/// record.
pub proof fn short_listing_is_cut(d: Device, faults: Faults)
    requires
        d.sound(),
        d.active,
        d.group == 1,
        d.cmd == 2,
        d.data_size < 4,
    ensures
        d.dispatched(faults).1,
        replies(d, d.dispatched(faults).0, seq![d.nflash as u8, 0, 32, 0]),
{
    let n = d.records_sent();
    assert(n == 0);
    assert(seq![d.nflash as u8, n as u8, 32u8, 0u8] + device::flash_records(0, d.size) =~= seq![
        d.nflash as u8,
        0,
        32,
        0,
    ]);
}

/// The RAM slots: how many there are, which one is being served, and the part.
pub proof fn ram_slots_are_described(d: Device, faults: Faults)
    requires
        d.sound(),
        d.active,
        d.group == 1,
        d.cmd == 3,
    ensures
        d.dispatched(faults).1,
        replies(
            d,
            d.dispatched(faults).0,
            seq![d.nram as u8, d.active_slot as u8, protocol::rom_type(d.size), 0],
        ),
{
}

/// What a device says of itself: `ONEROM-MODEL`, `0.0.0`, protocol 0.1.2, and the
/// slots it was started with.
pub proof fn device_is_described(d: Device, faults: Faults)
    requires
        d.sound(),
        d.active,
        d.group == 1,
        d.cmd == 4 || d.cmd == 5 || d.cmd == 6 || d.cmd == 8,
    ensures
        d.dispatched(faults).1,
        d.cmd == 4 ==> replies(
            d,
            d.dispatched(faults).0,
            seq![79u8, 78, 69, 82, 79, 77, 45, 77, 79, 68, 69, 76, 0],
        ),
        d.cmd == 5 ==> replies(d, d.dispatched(faults).0, seq![48u8, 46, 48, 46, 48, 0]),
        d.cmd == 6 ==> replies(d, d.dispatched(faults).0, seq![0u8, 1, 2]),
        d.cmd == 8 ==> replies(d, d.dispatched(faults).0, seq![d.boot_flash, d.boot_ram]),
{
}

/// A peek that asks for at least one byte, for no more than the data area holds,
/// and of a slot that there is, returns the bytes of that slot from the address
/// on, and 0xFF for each past its end. Any other is refused and changes nothing.
pub proof fn peek_returns_bytes(d: Device, faults: Faults)
    requires
        d.sound(),
        d.active,
        d.group == 1,
        d.cmd == 7,
    ensures
        ({
            let (after, ok) = d.dispatched(faults);
            let count = d.args[0] as int;
            let addr = d.args[1] + 256 * d.args[2] + 65536 * d.args[3];
            let slot = d.args[4] as int;
            &&& ok <==> !faults.nopeek && slot < d.nram && 1 <= count <= d.data_size
            &&& ok ==> replies(
                d,
                after,
                Seq::new(
                    count as nat,
                    |i: int|
                        if addr + i < d.size {
                            d.ram[slot][addr + i]
                        } else {
                            0xFFu8
                        },
                ),
            )
            &&& !ok ==> after == d
        }),
{
    let (after, ok) = d.dispatched(faults);
    let count = d.args[0] as int;
    let addr = d.args[1] + 256 * d.args[2] + 65536 * d.args[3];
    let slot = d.args[4] as int;
    let reply = Seq::new(
        count as nat,
        |i: int|
            if addr + i < d.size {
                d.ram[slot][addr + i]
            } else {
                0xFFu8
            },
    );
    assert(addr == device::le24(d.args[1], d.args[2], d.args[3]));
    if ok {
        assert(d.peeked(slot, addr, count) =~= reply);
    }
}

/// A poke of one byte, inside a slot that there is and that is not being served,
/// writes that byte. Any other is refused and changes nothing.
pub proof fn poke_writes_byte(d: Device, faults: Faults)
    requires
        d.sound(),
        d.active,
        d.group == 2,
        d.cmd == 0,
    ensures
        ({
            let (after, ok) = d.dispatched(faults);
            let addr = d.args[1] + 256 * d.args[2] + 65536 * d.args[3];
            let slot = d.args[4] as int;
            &&& ok <==> slot < d.nram && slot != d.active_slot && addr < d.size
            &&& ok ==> after == (Device {
                ram: d.ram.update(slot, d.ram[slot].update(addr, d.args[0])),
                ..d
            })
            &&& !ok ==> after == d
        }),
{
}

/// A switch to any slot that there is makes the device serve it, and touches no
/// slot. Any other is refused and changes nothing.
pub proof fn switch_serves_slot(d: Device, faults: Faults)
    requires
        d.sound(),
        d.active,
        d.group == 2,
        d.cmd == 1,
    ensures
        ({
            let (after, ok) = d.dispatched(faults);
            let slot = d.args[0] as int;
            &&& ok <==> slot < d.nram
            &&& ok ==> after == (Device { active_slot: slot, ..d })
            &&& !ok ==> after == d
        }),
{
}

/// A load of a flash slot into any RAM slot that there is copies it whole, unless
/// loads are made to fail. Any other is refused and changes nothing.
pub proof fn load_copies_slot(d: Device, faults: Faults)
    requires
        d.sound(),
        d.active,
        d.group == 2,
        d.cmd == 2,
        faults.loadfail != 2,
    ensures
        ({
            let (after, ok) = d.dispatched(faults);
            let to = d.args[0] as int;
            let from = d.args[1] as int;
            &&& ok <==> to < d.nram && from < d.nflash && faults.loadfail != 1
            &&& ok ==> after == (Device { ram: d.ram.update(to, d.flash[from]), ..d })
            &&& !ok ==> after == d
        }),
{
}

/// A load made to fail half done is refused, and leaves the first half of the
/// image before what the slot held. It touches nothing where the slots are not.
pub proof fn failing_load_copies_half(d: Device, faults: Faults)
    requires
        d.sound(),
        d.active,
        d.group == 2,
        d.cmd == 2,
        faults.loadfail == 2,
    ensures
        ({
            let (after, ok) = d.dispatched(faults);
            let to = d.args[0] as int;
            let from = d.args[1] as int;
            &&& !ok
            &&& to < d.nram && from < d.nflash ==> {
                &&& after == (Device { ram: d.ram.update(to, after.ram[to]), ..d })
                &&& patched(d.ram[to], after.ram[to], 0, d.flash[from].take(d.size / 2))
            }
            &&& to >= d.nram || from >= d.nflash ==> after == d
        }),
{
    let (after, _) = d.dispatched(faults);
    let to = d.args[0] as int;
    if to < d.nram && d.args[1] < d.nflash {
        assert(after.ram =~= d.ram.update(to, after.ram[to]));
    }
}

/// A fill of a slot that there is, and that is not being served, makes every byte
/// of it the one given. Any other is refused and changes nothing.
pub proof fn fill_writes_every_byte(d: Device, faults: Faults)
    requires
        d.sound(),
        d.active,
        d.group == 2,
        d.cmd == 3,
    ensures
        ({
            let (after, ok) = d.dispatched(faults);
            let slot = d.args[1] as int;
            &&& ok <==> slot < d.nram && slot != d.active_slot
            &&& ok ==> {
                &&& after == (Device { ram: d.ram.update(slot, after.ram[slot]), ..d })
                &&& after.ram[slot].len() == d.size
                &&& forall|i: int| 0 <= i < d.size ==> #[trigger] after.ram[slot][i] == d.args[0]
            }
            &&& !ok ==> after == d
        }),
{
    let (after, ok) = d.dispatched(faults);
    let slot = d.args[1] as int;
    if ok {
        assert(after.ram =~= d.ram.update(slot, after.ram[slot]));
    }
}

/// The NV of a device is reported as 4096 bytes, the low byte first, and a 1.
pub proof fn nv_is_described(d: Device, faults: Faults)
    requires
        d.sound(),
        d.active,
        d.group == 3,
        d.cmd == 0,
    ensures
        d.dispatched(faults).1,
        replies(d, d.dispatched(faults).0, seq![0u8, 16, 1]),
{
}

/// A peek at the NV that asks for at least one byte and stays inside returns those
/// bytes. Any other is refused and changes nothing.
pub proof fn nv_peek_returns_bytes(d: Device, faults: Faults)
    requires
        d.sound(),
        d.active,
        d.group == 3,
        d.cmd == 1,
    ensures
        ({
            let (after, ok) = d.dispatched(faults);
            let count = d.args[0] as int;
            let loc = d.args[1] + 256 * d.args[2];
            &&& ok <==> 1 <= count && loc + count <= 4096
            &&& ok ==> replies(d, after, Seq::new(count as nat, |i: int| d.nv[loc + i]))
            &&& !ok ==> after == d
        }),
{
    let (after, ok) = d.dispatched(faults);
    let count = d.args[0] as int;
    let loc = d.args[1] + 256 * d.args[2];
    if ok {
        assert(d.nv.subrange(loc, loc + count) =~= Seq::new(
            count as nat,
            |i: int| d.nv[loc + i],
        ));
    }
}

/// Beginning an NV write, with a slot that there is and that is not being served,
/// stages a copy of the NV. Any other is refused and changes nothing.
pub proof fn nv_begin_copies(d: Device, faults: Faults)
    requires
        d.sound(),
        d.active,
        d.group == 3,
        d.cmd == 2,
    ensures
        ({
            let (after, ok) = d.dispatched(faults);
            &&& ok <==> d.args[0] < d.nram && d.args[0] != d.active_slot
            &&& ok ==> after == (Device { stage: Some(d.nv), ..d })
            &&& !ok ==> after == d
        }),
{
}

/// A poke inside the NV changes that byte of the staged copy; without a copy, or
/// past the end, it is refused and changes nothing.
pub proof fn nv_poke_writes_byte(d: Device, faults: Faults)
    requires
        d.sound(),
        d.active,
        d.group == 3,
        d.cmd == 3,
    ensures
        ({
            let (after, ok) = d.dispatched(faults);
            let loc = d.args[1] + 256 * d.args[2];
            &&& ok <==> d.stage is Some && loc < 4096
            &&& ok ==> after == (Device { stage: Some(d.stage->0.update(loc, d.args[0])), ..d })
            &&& !ok ==> after == d
        }),
{
}

/// A commit puts the staged copy in place of the NV and needs one; a cancel
/// forgets it, and always succeeds.
pub proof fn nv_write_ends(d: Device, faults: Faults)
    requires
        d.sound(),
        d.active,
        d.group == 3,
        d.cmd == 4 || d.cmd == 5,
    ensures
        ({
            let (after, ok) = d.dispatched(faults);
            &&& d.cmd == 4 ==> (ok <==> d.stage is Some)
            &&& d.cmd == 4 && ok ==> after == (Device { nv: d.stage->0, stage: None, ..d })
            &&& d.cmd == 4 && !ok ==> after == d
            &&& d.cmd == 5 ==> ok && after == (Device { stage: None, ..d })
        }),
{
}

/// A byte committed at once, with a slot that there is and that is not being
/// served, is in the NV; a copy that is staged stays. Any other is refused and
/// changes nothing.
pub proof fn nv_byte_is_written(d: Device, faults: Faults)
    requires
        d.sound(),
        d.active,
        d.group == 3,
        d.cmd == 6,
    ensures
        ({
            let (after, ok) = d.dispatched(faults);
            let loc = d.args[1] + 256 * d.args[2];
            &&& ok <==> d.args[3] < d.nram && d.args[3] != d.active_slot && loc < 4096
            &&& ok ==> after == (Device { nv: d.nv.update(loc, d.args[0]), ..d })
            &&& !ok ==> after == d
        }),
{
}

/// Commands that there are not, and commands for an open session outside one, are
/// refused and change nothing.
pub proof fn others_are_refused(d: Device, faults: Faults)
    requires
        d.sound(),
        ({
            ||| 4 <= d.group && d.group != 0xAA
            ||| d.group == 0 && d.cmd > 6
            ||| d.group == 1 && (d.cmd == 0 || d.cmd > 8 || !d.active)
            ||| d.group == 2 && (d.cmd > 3 || !d.active)
            ||| d.group == 3 && (d.cmd > 6 || !d.active)
        }),
    ensures
        d.dispatched(faults) == (d, false),
{
}

/// A command that does nothing succeeds; the two plain exits only leave the
/// session.
pub proof fn plain_exits_leave(d: Device, faults: Faults)
    requires
        d.sound(),
        d.group == 0,
        d.cmd == 0 || d.cmd == 2 || d.cmd == 3,
    ensures
        d.cmd == 0 ==> d.dispatched(faults) == (d, true),
        d.cmd != 0 ==> d.dispatched(faults) == (Device { active: false, ..d }, true),
{
}

/// Leaving with a switch serves any slot that there is; with another number it
/// only leaves.
pub proof fn switching_exit_serves_slot(d: Device, faults: Faults)
    requires
        d.sound(),
        d.group == 0,
        d.cmd == 4,
    ensures
        ({
            let (after, ok) = d.dispatched(faults);
            let slot = d.args[0] as int;
            &&& ok
            &&& slot < d.nram ==> after == (Device { active: false, active_slot: slot, ..d })
            &&& slot >= d.nram ==> after == (Device { active: false, ..d })
        }),
{
}

/// Leaving with a load copies any of the sixteen flash slots into any RAM slot
/// that is reported; with other numbers it only leaves.
pub proof fn loading_exit_copies_slot(d: Device, faults: Faults)
    requires
        d.sound(),
        d.group == 0,
        d.cmd == 5,
    ensures
        ({
            let (after, ok) = d.dispatched(faults);
            let to = d.args[0] as int;
            let from = d.args[1] as int;
            &&& ok
            &&& to < d.nram && from < 16 ==> after == (Device {
                active: false,
                ram: d.ram.update(to, d.flash[from]),
                ..d
            })
            &&& to >= d.nram || from >= 16 ==> after == (Device { active: false, ..d })
        }),
{
}

/// Leaving with a restore writes the first one to eight arguments, as many as the
/// ninth says, over the start of the region; with another number it only leaves.
pub proof fn restoring_exit_writes_back(d: Device, faults: Faults)
    requires
        d.sound(),
        d.group == 0,
        d.cmd == 6,
    ensures
        ({
            let (after, ok) = d.dispatched(faults);
            let n = d.args[8] as int;
            let left = Device { active: false, ..d };
            &&& ok
            &&& 1 <= n <= 8 ==> serves(left, after, d.region_off, d.args.take(n))
            &&& n == 0 || n > 8 ==> after == left
        }),
{
}

/// Entering is refused, and changes nothing, where a sentinel is the reserved
/// value, the region is not aligned to four or its header runs past the slot.
pub proof fn bad_entry_is_refused(d: Device, faults: Faults)
    requires
        d.sound(),
        d.group == 0,
        d.cmd == 1,
        ({
            let at = d.args[2] + 256 * d.args[3] + 65536 * d.args[4];
            d.args[7] == 0xAA || d.args[8] == 0xAA || at % 4 != 0 || at + 8 > d.size
        }),
    ensures
        d.dispatched(faults) == (d, false),
{
}

/// Otherwise the region, its sentinels and the token that lies in it are taken
/// over. A region that runs past the slot is refused through its own header, under
/// the next token; one that does not opens the session, with its header cleared.
pub proof fn entry_takes_region(d: Device, faults: Faults)
    requires
        d.sound(),
        d.group == 0,
        d.cmd == 1,
        d.args[7] != 0xAA,
        d.args[8] != 0xAA,
        ({
            let at = d.args[2] + 256 * d.args[3] + 65536 * d.args[4];
            at % 4 == 0 && at + 8 <= d.size
        }),
    ensures
        ({
            let (after, ok) = d.dispatched(faults);
            let at = d.args[2] + 256 * d.args[3] + 65536 * d.args[4];
            let size = d.args[5] + 256 * d.args[6];
            let held = d.ram[d.active_slot][at + 2] + 256 * d.ram[d.active_slot][at + 3];
            let next = (held + 1) % 65536;
            let taken = Device {
                region_off: at,
                complete: d.args[7],
                status_ok: d.args[8],
                ..d
            };
            &&& ok <==> at + size <= d.size
            &&& ok ==> serves(
                Device {
                    active: true,
                    cmd_page: d.args[0] + 256 * d.args[1],
                    data_size: size - 8,
                    token: held,
                    ..taken
                },
                after,
                at,
                seq![0u8, 0, 0, 0, 0, 0, 0, 0],
            )
            &&& !ok ==> serves(
                Device { token: next, ..taken },
                after,
                at,
                seq![
                    0u8,
                    1,
                    (next % 256) as u8,
                    (next / 256) as u8,
                    d.args[7],
                    (255 - d.args[8]) as u8,
                ],
            )
        }),
{
    let (after, ok) = d.dispatched(faults);
    assert(device::filled(8, 0) =~= seq![0u8, 0, 0, 0, 0, 0, 0, 0]);
}

/// A command that is answered first moves the token on and shows itself in the
/// header as not complete; then does what it does; and last says in the header
/// that it is complete, and how it went.
pub proof fn answer_is_written(d: Device, begun: Device, done: Device, ok: bool, faults: Faults)
    requires
        d.sound(),
        d.active,
        faults.deaf == 0 || d.cmds < faults.deaf,
        !(d.group == 0xAA && d.cmd == 0xAA),
        !(d.group == 0 && 3 <= d.cmd <= 6),
        ({
            let next = (d.token + 1) % 65536;
            serves(
                Device { token: next, ..d },
                begun,
                d.region_off,
                seq![
                    d.group,
                    d.cmd,
                    (next % 256) as u8,
                    (next / 256) as u8,
                    (255 - d.complete) as u8,
                ],
            )
        }),
        begun.dispatched(faults) == (done, ok),
    ensures
        serves(
            Device {
                cmds: d.cmds + 1,
                st: if done.active {
                    St::Group
                } else {
                    St::Knock
                },
                ..done
            },
            d.ran(faults),
            done.region_off + 4,
            seq![
                done.complete,
                if ok {
                    done.status_ok
                } else {
                    (255 - done.status_ok) as u8
                },
            ],
        ),
{
    let mine = d.begun(d.group, d.cmd);
    assert(mine.ram[d.active_slot] =~= begun.ram[d.active_slot]);
    assert(mine.ram =~= begun.ram);
    assert(mine =~= begun);
}

/// A command that is not answered, because it is one of the silent ones or because
/// there is no region yet, only does what it does and is counted; but an entry
/// that opens the session writes its whole answer afterwards.
pub proof fn silent_command_is_run(d: Device, faults: Faults)
    requires
        d.sound(),
        faults.deaf == 0 || d.cmds < faults.deaf,
        !d.active || d.group == 0xAA && d.cmd == 0xAA || d.group == 0 && 3 <= d.cmd <= 6,
    ensures
        ({
            let (done, _) = d.dispatched(faults);
            let next = (done.token + 1) % 65536;
            &&& d.active || !done.active ==> d.ran(faults) == (Device {
                cmds: d.cmds + 1,
                st: if done.active {
                    St::Group
                } else {
                    St::Knock
                },
                ..done
            })
            &&& !d.active && done.active ==> serves(
                Device { cmds: d.cmds + 1, st: St::Group, token: next, ..done },
                d.ran(faults),
                done.region_off,
                seq![
                    d.group,
                    d.cmd,
                    (next % 256) as u8,
                    (next / 256) as u8,
                    done.complete,
                    done.status_ok,
                ],
            )
        }),
{
}

/// A device goes deaf after the number of commands it is told to, and never where
/// that is zero: from then on it does what it is told, but what a command would
/// write back is not written.
pub proof fn deaf_command_is_run(d: Device, faults: Faults)
    requires
        d.sound(),
        faults.deaf != 0,
        d.cmds >= faults.deaf,
        !(d.group == 0 && d.cmd == 1),
    ensures
        ({
            let (done, _) = d.dispatched(faults);
            d.ran(faults) == (Device {
                cmds: d.cmds + 1,
                st: if done.active {
                    St::Group
                } else {
                    St::Knock
                },
                ram: if d.group == 1 || d.group == 3 {
                    d.ram
                } else {
                    done.ram
                },
                ..done
            })
        }),
{
}

/// A deaf device enters as any other does, but for what it would write in the
/// region.
pub proof fn deaf_entry_is_run(d: Device, faults: Faults)
    requires
        d.sound(),
        faults.deaf != 0,
        d.cmds >= faults.deaf,
        d.group == 0,
        d.cmd == 1,
        d.header_fits(),
    ensures
        ({
            let (done, ok) = d.dispatched(faults);
            let at = done.region_off;
            let after = d.ran(faults);
            &&& after == (Device {
                cmds: d.cmds + 1,
                st: if done.active {
                    St::Group
                } else {
                    St::Knock
                },
                ram: d.ram,
                token: after.token,
                ..done
            })
            &&& ok ==> after.token == done.token
            &&& done != d && !ok ==> (after.token + 1) % 65536 == done.token
            &&& done == d ==> after.token == d.token
        }),
{
}

/// A read that completes no command is taken down as the state asks for: the next
/// byte of the knock, a group, a command, an argument. Outside the knock, the one
/// that completes a command executes it.
pub proof fn read_is_taken_down(d: Device, observed: int, faults: Faults)
    requires
        d.wf(),
        0 <= observed,
        d.active ==> observed / 256 == d.cmd_page,
    ensures
        ({
            let b = (observed % 256) as u8;
            let after = d.fed(observed, faults);
            let n = protocol::argument_count(d.group, b);
            &&& d.st == St::Group ==> after == (Device { group: b, st: St::Cmd, ..d })
            &&& d.st == St::Cmd && n > 0 ==> after == (Device {
                cmd: b,
                nargs: 0,
                want: n,
                st: St::Args,
                ..d
            })
            &&& d.st == St::Cmd && n == 0 ==> after == (Device {
                cmd: b,
                nargs: 0,
                want: 0,
                ..d
            }).ran(faults)
            &&& d.st == St::Args && d.nargs + 1 < d.want ==> after == (Device {
                args: d.args.update(d.nargs, b),
                nargs: d.nargs + 1,
                ..d
            })
            &&& d.st == St::Args && d.nargs + 1 == d.want ==> after == (Device {
                args: d.args.update(d.nargs, b),
                nargs: d.nargs + 1,
                ..d
            }).ran(faults)
        }),
{
}

/// While a device waits for a knock, the next byte of it takes it one further, and
/// the sixth opens the door; any other byte begins anew, with one heard already
/// where it is the opening byte. How far a knock ever came before it broke is
/// kept, and changes only when one breaks.
pub proof fn knock_is_followed(d: Device, observed: int, faults: Faults)
    requires
        d.wf(),
        0 <= observed,
        d.st == St::Knock,
    ensures
        ({
            let b = (observed % 256) as u8;
            let k = seq![33u8, 82, 66, 67, 80, 33];
            let after = d.fed(observed, faults);
            &&& b == k[d.kmatch] && d.kmatch < 5 ==> after == (Device {
                kmatch: d.kmatch + 1,
                ..d
            })
            &&& b == k[d.kmatch] && d.kmatch == 5 ==> after == (Device {
                kmatch: 0,
                st: St::Group,
                ..d
            })
            &&& b != k[d.kmatch] ==> {
                &&& after == (Device { kmatch: after.kmatch, kmax: after.kmax, ..d })
                &&& after.kmatch == (if b == 33 {
                    1int
                } else {
                    0
                })
                &&& after.kmax >= d.kmax
                &&& after.kmax >= d.kmatch
                &&& after.kmax == d.kmax || after.kmax == d.kmatch
            }
        }),
{
    knock_is_spelled();
}

/// A bus cycle can be shown to a device unless it completes a command that would
/// run over the count of commands, or enters a region of less than eight bytes
/// that is otherwise acceptable.
pub proof fn most_reads_can_be_taken(d: Device, observed: int)
    requires
        d.wf(),
        0 <= observed,
    ensures
        ({
            let b = (observed % 256) as u8;
            let a = d.args.update(d.nargs, b);
            let heard = d.active ==> observed / 256 == d.cmd_page;
            let last = d.st == St::Cmd && protocol::argument_count(d.group, b) == 0 || d.st
                == St::Args && d.nargs + 1 == d.want;
            let at = a[2] + 256 * a[3] + 65536 * a[4];
            let size = a[5] + 256 * a[6];
            let tiny = d.st == St::Args && d.group == 0 && d.cmd == 1 && a[7] != 0xAA && a[8]
                != 0xAA && at % 4 == 0 && at + 8 <= d.size && at + size <= d.size && size < 8;
            d.feedable(observed) <==> !(heard && last && (d.cmds >= u32::MAX || tiny))
        }),
{
    let b = (observed % 256) as u8;
    arguments_are_counted(d.group, b);
}

/// A device as it is made: every byte of its four RAM slots and sixteen flash slots
/// is zero and every byte of its NV 0xFF, it waits for a knock, and nothing has
/// happened to it.
pub proof fn new_device_is_blank(idx: int, size: int, nram: int, nflash: int)
    requires
        0 <= size,
    ensures
        ({
            let d = dev::blank(idx, size, nram, nflash);
            &&& d.idx == idx && d.size == size && d.nram == nram && d.nflash == nflash
            &&& d.ram.len() == 4 && d.flash.len() == 16 && d.nv.len() == 4096
            &&& forall|s: int, i: int| 0 <= s < 4 && 0 <= i < size ==> #[trigger] d.ram[s][i] == 0
            &&& forall|s: int, i: int|
                0 <= s < 16 && 0 <= i < size ==> #[trigger] d.flash[s][i] == 0
            &&& forall|s: int| 0 <= s < 4 ==> #[trigger] d.ram[s].len() == size
            &&& forall|s: int| 0 <= s < 16 ==> #[trigger] d.flash[s].len() == size
            &&& forall|i: int| 0 <= i < 4096 ==> #[trigger] d.nv[i] == 0xFF
            &&& d.args.len() == 16
            &&& forall|i: int| 0 <= i < 16 ==> #[trigger] d.args[i] == 0
            &&& d.st == St::Knock && d.kmatch == 0 && d.kmax == 0
            &&& d.group == 0 && d.cmd == 0 && d.nargs == 0 && d.want == 0
            &&& !d.active && d.active_slot == 0 && d.cmd_page == 0 && d.region_off == 0
            &&& d.data_size == 0 && d.complete == 0xFF && d.status_ok == 0xFF
            &&& d.token == 0 && d.cmds == 0 && d.stage is None
            &&& d.boot_flash == 0 && d.boot_ram == 0
        }),
{
}

/// What is written into the region or its data area is there, as far as the slot
/// and the area reach, and nothing else changes; what is read from the region is
/// there, and zero past the slot.
pub proof fn region_holds_what_is_written(d: Device, off: int, p: Seq<u8>)
    requires
        d.sound(),
        0 <= off,
    ensures
        serves(d, d.channel_written(off, p), d.region_off + off, p),
        d.region_off + off < d.size ==> d.channel_byte(off) == d.ram[d.active_slot][d.region_off
            + off],
        d.region_off + off >= d.size ==> d.channel_byte(off) == 0,
        off >= d.data_size ==> d.data_written(off, p) == d,
        off + p.len() <= d.data_size ==> serves(
            d,
            d.data_written(off, p),
            d.region_off + 8 + off,
            p,
        ),
        off < d.data_size < off + p.len() ==> serves(
            d,
            d.data_written(off, p),
            d.region_off + 8 + off,
            p.take(d.data_size - off),
        ),
{
    if p.len() == 0 {
        assert(d.channel_written(8 + off, p).ram[d.active_slot] =~= d.ram[d.active_slot]);
        assert(d.channel_written(8 + off, p).ram =~= d.ram);
    }
}

/// The two halves of an answer: the token moved on, beside the command and "not
/// complete"; then "complete", and how it went.
pub proof fn answer_has_two_halves(d: Device, g: u8, c: u8, ok: bool)
    requires
        d.sound(),
    ensures
        ({
            let next = (d.token + 1) % 65536;
            serves(
                Device { token: next, ..d },
                d.begun(g, c),
                d.region_off,
                seq![g, c, (next % 256) as u8, (next / 256) as u8, (255 - d.complete) as u8],
            )
        }),
        serves(
            d,
            d.ended(ok),
            d.region_off + 4,
            seq![
                d.complete,
                if ok {
                    d.status_ok
                } else {
                    (255 - d.status_ok) as u8
                },
            ],
        ),
{
}

/// The model of a device has what its fields hold, slot by slot and byte by byte;
/// the two bytes of the token are the low one and the high one of a number.
pub proof fn model_shows_fields(d: Dev)
    ensures
        d@.ram.len() == d.ram@.len(),
        forall|s: int| 0 <= s < d.ram@.len() ==> #[trigger] d@.ram[s] == d.ram@[s]@,
        d@.flash.len() == d.flash@.len(),
        forall|s: int| 0 <= s < d.flash@.len() ==> #[trigger] d@.flash[s] == d.flash@[s]@,
        d@.size == d.size && d@.active_slot == d.active_slot && d@.st == d.st,
        d@.kmatch == d.kmatch && d@.kmax == d.kmax,
        d@.group == d.group && d@.cmd == d.cmd && d@.args == d.args@,
        d@.nargs == d.nargs && d@.want == d.want,
        d@.active == d.active && d@.cmd_page == d.cmd_page,
        d@.region_off == d.region_off && d@.data_size == d.data_size,
        d@.complete == d.complete && d@.status_ok == d.status_ok,
        d@.token == d.tok_lo + 256 * d.tok_hi,
        d@.cmds == d.cmds && d@.idx == d.idx && d@.nram == d.nram && d@.nflash == d.nflash,
        d@.nv == d.nv@,
        d.stage is None ==> d@.stage is None,
        d.stage matches Some(v) ==> d@.stage == Some(v@),
        d@.boot_flash == d.boot_flash && d@.boot_ram == d.boot_ram,
{
}

/// What it takes for a device to be well formed: its slots and its NV have their
/// sizes, what it counts lies where it can, it waits for arguments only while some
/// are missing, and for no knock in a session.
pub proof fn device_is_well_formed_when(d: Device)
    ensures
        d.wf() <==> {
            &&& d.ram.len() == 4 && forall|s: int| 0 <= s < 4 ==> (#[trigger] d.ram[s]).len()
                == d.size
            &&& d.flash.len() == 16 && forall|s: int| 0 <= s < 16 ==> (#[trigger] d.flash[s]).len()
                == d.size
            &&& 1 <= d.nram <= 4 && 1 <= d.nflash <= 16 && 0 <= d.active_slot < d.nram
            &&& 0 <= d.kmatch < 6 && d.args.len() == 16 && 0 <= d.nargs <= d.want <= 9
            &&& d.nv.len() == 4096 && (d.stage is Some ==> d.stage->0.len() == 4096)
            &&& 0 <= d.region_off && 0 <= d.data_size < 65536 && 0 <= d.token < 65536 && 0
                <= d.cmds
            &&& d.st == St::Args ==> d.nargs < d.want
            &&& d.active ==> d.st != St::Knock
        },
{
}

} // verus!
