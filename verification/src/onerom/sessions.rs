//! What holds of whole exchanges between a host and a device.

use super::device;
use super::device::{Device, Faults, St};
use super::laws;
use super::protocol;
use super::protocol::{
    ENTER_CMD_RESP, EXIT_CMD_RESP_RESTORE, G_CONTROL, G_MODIFY, G_NV, G_READ,
    HDR_SIZE, HDR_TOK_HI, HDR_TOK_LO, LOAD_AND_EXIT, LOAD_SLOT, NFLASH, NRAM, NV_PEEK, NV_POKE,
    NV_POKE_BEGIN, NV_POKE_CANCEL, NV_POKE_COMMIT, NV_POKE_COMMIT_BYTE, NV_SIZE, SLOT_PEEK,
    RAM_SLOT_INFO_ALL, SLOT_POKE, SLOT_POKE_ALL_BYTE, SWITCH_AND_EXIT, SWITCH_SLOT,
};
use vstd::prelude::*;

verus! {

/// Entering with acceptable arguments opens a session: the device is in
/// command-response mode on the page asked for, its region lies where it was
/// asked for, and the header reports the entry as complete and successful under
/// a token one past the one that the region held before.
pub proof fn entry_opens_session(d: Device, a: Seq<u8>, faults: Faults)
    requires
        d.sound(),
        !d.active,
        a.len() == 9,
        d.given(G_CONTROL, ENTER_CMD_RESP, a).entry_taken(),
        d.given(G_CONTROL, ENTER_CMD_RESP, a).entry_fits(),
        device::le16(a[5], a[6]) >= HDR_SIZE,
        !d.deaf(faults),
    ensures
        ({
            let after = d.commanded(G_CONTROL, ENTER_CMD_RESP, a, faults);
            let at = device::le24(a[2], a[3], a[4]);
            &&& after.active
            &&& after.st == St::Group
            &&& after.cmd_page == device::le16(a[0], a[1])
            &&& after.region_off == at
            &&& after.data_size == device::le16(a[5], a[6]) - HDR_SIZE
            &&& after.complete == a[7]
            &&& after.status_ok == a[8]
            &&& after.token == (device::le16(
                d.served()[at + HDR_TOK_LO],
                d.served()[at + HDR_TOK_HI],
            ) + 1) % 0x10000
            &&& laws::header(after) == seq![
                G_CONTROL,
                ENTER_CMD_RESP,
                (after.token % 256) as u8,
                (after.token / 256) as u8,
                a[7],
                a[8],
            ]
        }),
{
    let after = d.commanded(G_CONTROL, ENTER_CMD_RESP, a, faults);
    assert(laws::header(after) =~= seq![
        G_CONTROL,
        ENTER_CMD_RESP,
        (after.token % 256) as u8,
        (after.token / 256) as u8,
        a[7],
        a[8],
    ]);
}

/// Entering with a reserved sentinel, an unaligned region or no room for a
/// header is discarded: the device counts it and waits for a knock.
pub proof fn bad_entry_is_discarded(d: Device, a: Seq<u8>, faults: Faults)
    requires
        d.sound(),
        !d.active,
        a.len() == 9,
        !d.given(G_CONTROL, ENTER_CMD_RESP, a).entry_taken(),
    ensures
        ({
            let after = d.commanded(G_CONTROL, ENTER_CMD_RESP, a, faults);
            &&& after == (Device {
                cmds: d.cmds + 1,
                st: St::Knock,
                ..d.given(G_CONTROL, ENTER_CMD_RESP, a)
            })
            &&& after.ram == d.ram
            &&& after.token == d.token
        }),
{
}

/// Entering with a region that does not fit is reported rather than discarded:
/// the host sees a failure in the header it asked for, if the device still
/// answers.
pub proof fn oversized_entry_is_reported(d: Device, a: Seq<u8>, faults: Faults)
    requires
        d.sound(),
        !d.active,
        a.len() == 9,
        d.given(G_CONTROL, ENTER_CMD_RESP, a).entry_taken(),
        !d.given(G_CONTROL, ENTER_CMD_RESP, a).entry_fits(),
        !d.deaf(faults),
    ensures
        ({
            let after = d.commanded(G_CONTROL, ENTER_CMD_RESP, a, faults);
            &&& !after.active
            &&& after.st == St::Knock
            &&& laws::header(after) == seq![
                G_CONTROL,
                ENTER_CMD_RESP,
                (after.token % 256) as u8,
                (after.token / 256) as u8,
                a[7],
                device::inverted(a[8]),
            ]
        }),
{
    let after = d.commanded(G_CONTROL, ENTER_CMD_RESP, a, faults);
    assert(laws::header(after) =~= seq![
        G_CONTROL,
        ENTER_CMD_RESP,
        (after.token % 256) as u8,
        (after.token / 256) as u8,
        a[7],
        device::inverted(a[8]),
    ]);
}

/// Leaving with a restore writes the bytes given over the start of the region,
/// and nothing else.
pub proof fn restore_puts_back(d: Device, a: Seq<u8>, faults: Faults)
    requires
        d.sound(),
        a.len() == 9,
        1 <= a[8] <= 8,
    ensures
        ({
            let after = d.commanded(G_CONTROL, EXIT_CMD_RESP_RESTORE, a, faults);
            &&& !after.active
            &&& after.st == St::Knock
            &&& after.active_slot == d.active_slot
            &&& after.ram == d.ram.update(
                d.active_slot,
                device::overwritten(d.served(), d.region_off, a.take(a[8] as int)),
            )
        }),
{
    let args = device::overwritten(d.args, 0, a);
    assert(args.take(a[8] as int) =~= a.take(a[8] as int));
}

/// A session that only enters, and leaves with a restore of the bytes that the
/// header displaced, leaves the served image as it was, and counts two commands.
pub proof fn entry_and_restore_cancel(d: Device, a: Seq<u8>, faults: Faults)
    requires
        d.sound(),
        !d.active,
        a.len() == 9,
        d.given(G_CONTROL, ENTER_CMD_RESP, a).entry_taken(),
        d.given(G_CONTROL, ENTER_CMD_RESP, a).entry_fits(),
        device::le16(a[5], a[6]) >= HDR_SIZE,
    ensures
        ({
            let at = device::le24(a[2], a[3], a[4]);
            let displaced = d.served().subrange(at, at + HDR_SIZE);
            let open = d.commanded(G_CONTROL, ENTER_CMD_RESP, a, faults);
            let after = open.commanded(G_CONTROL, EXIT_CMD_RESP_RESTORE, displaced.push(8), faults);
            &&& after.ram == d.ram
            &&& after.served() == d.served()
            &&& !after.active
            &&& after.cmds == d.cmds + 2
        }),
{
    let at = device::le24(a[2], a[3], a[4]);
    let displaced = d.served().subrange(at, at + HDR_SIZE);
    let open = d.commanded(G_CONTROL, ENTER_CMD_RESP, a, faults);
    let after = open.commanded(G_CONTROL, EXIT_CMD_RESP_RESTORE, displaced.push(8), faults);
    entry_writes_header_only(d, a, faults);
    restore_puts_back(open, displaced.push(8), faults);
    assert(displaced.push(8).take(8) =~= displaced);
    assert(after.served() =~= d.served());
    assert(after.ram =~= d.ram);
}

/// Entering touches nothing in the slots but the header of the region.
proof fn entry_writes_header_only(d: Device, a: Seq<u8>, faults: Faults)
    requires
        d.sound(),
        !d.active,
        a.len() == 9,
        d.given(G_CONTROL, ENTER_CMD_RESP, a).entry_taken(),
        d.given(G_CONTROL, ENTER_CMD_RESP, a).entry_fits(),
        device::le16(a[5], a[6]) >= HDR_SIZE,
    ensures
        ({
            let at = device::le24(a[2], a[3], a[4]);
            let open = d.commanded(G_CONTROL, ENTER_CMD_RESP, a, faults);
            &&& open.sound()
            &&& open.region_off == at
            &&& open.active_slot == d.active_slot
            &&& open.ram.len() == d.ram.len()
            &&& forall|s: int|
                0 <= s < NRAM && s != d.active_slot ==> #[trigger] open.ram[s] == d.ram[s]
            &&& open.served().len() == d.served().len()
            &&& forall|i: int|
                0 <= i < d.size && !(at <= i < at + HDR_SIZE) ==> #[trigger] open.served()[i]
                    == d.served()[i]
        }),
{
}

/// On a device that still answers, a peek at a slot leaves its bytes in the data
/// area, with 0xFF for what lies past the end of the slot. Of the slot being served, the bytes where the
/// answer's own header goes are apart.
pub proof fn peek_reads_slot(
    d: Device,
    count: u8,
    lo: u8,
    mid: u8,
    hi: u8,
    slot: u8,
    faults: Faults,
)
    requires
        d.sound(),
        d.active,
        !faults.nopeek,
        slot < d.nram,
        0 < count <= d.data_size,
        d.region_off + HDR_SIZE + count <= d.size,
        !d.deaf(faults),
    ensures
        ({
            let after = d.commanded(G_READ, SLOT_PEEK, seq![count, lo, mid, hi, slot], faults);
            let at = d.region_off + HDR_SIZE;
            let addr = device::le24(lo, mid, hi);
            &&& after.active
            &&& after.active_slot == d.active_slot
            &&& after.served().len() == d.size
            &&& forall|i: int|
                0 <= i < count && !(slot == d.active_slot && d.region_off <= addr + i < d.region_off
                    + 5) ==> #[trigger] after.served()[at + i] == d.peeked(
                    slot as int,
                    addr,
                    count as int,
                )[i]
        }),
{
    let a = seq![count, lo, mid, hi, slot];
    let g = d.given(G_READ, SLOT_PEEK, a);
    assert(g.args[0] == count && g.args[1] == lo && g.args[2] == mid && g.args[3] == hi && g.args[4]
        == slot);
}

/// A poke of a spare slot changes the one byte it names in that slot, and no
/// other slot but for the header of the answer.
pub proof fn poke_writes_slot(
    d: Device,
    byte: u8,
    lo: u8,
    mid: u8,
    hi: u8,
    slot: u8,
    faults: Faults,
)
    requires
        d.sound(),
        d.active,
        slot < d.nram,
        slot != d.active_slot,
        device::le24(lo, mid, hi) < d.size,
    ensures
        ({
            let after = d.commanded(G_MODIFY, SLOT_POKE, seq![byte, lo, mid, hi, slot], faults);
            &&& after.sound()
            &&& after.active
            &&& after.active_slot == d.active_slot
            &&& after.region_off == d.region_off
            &&& after.data_size == d.data_size
            &&& after.nram == d.nram
            &&& after.size == d.size
            &&& after.ram[slot as int] == d.ram[slot as int].update(
                device::le24(lo, mid, hi),
                byte,
            )
            &&& forall|s: int|
                0 <= s < NRAM && s != slot && s != d.active_slot ==> #[trigger] after.ram[s]
                    == d.ram[s]
        }),
{
    let a = seq![byte, lo, mid, hi, slot];
    let g = d.given(G_MODIFY, SLOT_POKE, a);
    assert(g.args[0] == byte && g.args[1] == lo && g.args[2] == mid && g.args[3] == hi && g.args[4]
        == slot);
}

/// A peek reads back what a poke wrote, on a device that still answers.
pub proof fn peek_reads_back_poke(
    d: Device,
    byte: u8,
    lo: u8,
    mid: u8,
    hi: u8,
    slot: u8,
    faults: Faults,
)
    requires
        d.sound(),
        d.active,
        !faults.nopeek,
        slot < d.nram,
        slot != d.active_slot,
        device::le24(lo, mid, hi) < d.size,
        1 <= d.data_size,
        d.region_off + HDR_SIZE < d.size,
        !d.commanded(G_MODIFY, SLOT_POKE, seq![byte, lo, mid, hi, slot], faults).deaf(faults),
    ensures
        d.commanded(G_MODIFY, SLOT_POKE, seq![byte, lo, mid, hi, slot], faults).commanded(
            G_READ,
            SLOT_PEEK,
            seq![1, lo, mid, hi, slot],
            faults,
        ).served()[d.region_off + HDR_SIZE] == byte,
{
    let poked = d.commanded(G_MODIFY, SLOT_POKE, seq![byte, lo, mid, hi, slot], faults);
    poke_writes_slot(d, byte, lo, mid, hi, slot, faults);
    peek_reads_slot(poked, 1, lo, mid, hi, slot, faults);
    let at = d.region_off + HDR_SIZE;
    let peeked = poked.commanded(G_READ, SLOT_PEEK, seq![1, lo, mid, hi, slot], faults);
    assert(peeked.served()[at + 0] == byte);
}

/// What a device does for a poke of a spare slot and then for a peek at it: both
/// succeed, and the data area holds the slot as the poke left it, with 0xFF for
/// what lies past its end.
pub proof fn peek_returns_poked_slot(
    d: Device,
    byte: u8,
    at: Seq<u8>,
    count: u8,
    from: Seq<u8>,
    slot: u8,
    faults: Faults,
)
    requires
        d.sound(),
        d.active,
        !faults.nopeek,
        slot < d.nram,
        slot != d.active_slot,
        at.len() == 3,
        from.len() == 3,
        device::le24(at[0], at[1], at[2]) < d.size,
        0 < count <= d.data_size,
        d.region_off + HDR_SIZE + count <= d.size,
    ensures
        ({
            let (poked, wrote) = d.given(
                G_MODIFY,
                SLOT_POKE,
                seq![byte, at[0], at[1], at[2], slot],
            ).dispatched(faults);
            let (peeked, read) = poked.given(
                G_READ,
                SLOT_PEEK,
                seq![count, from[0], from[1], from[2], slot],
            ).dispatched(faults);
            let written = d.ram[slot as int].update(device::le24(at[0], at[1], at[2]), byte);
            let addr = device::le24(from[0], from[1], from[2]);
            &&& wrote
            &&& read
            &&& poked.ram == d.ram.update(slot as int, written)
            &&& forall|i: int|
                0 <= i < count ==> #[trigger] peeked.served()[d.region_off + HDR_SIZE + i] == (
                if addr + i < d.size {
                    written[addr + i]
                } else {
                    0xFFu8
                })
        }),
{
    let poke = d.given(G_MODIFY, SLOT_POKE, seq![byte, at[0], at[1], at[2], slot]);
    assert(poke.args[0] == byte && poke.args[1] == at[0] && poke.args[2] == at[1] && poke.args[3]
        == at[2] && poke.args[4] == slot);
    let (poked, _) = poke.dispatched(faults);
    let peek = poked.given(G_READ, SLOT_PEEK, seq![count, from[0], from[1], from[2], slot]);
    assert(peek.args[0] == count && peek.args[1] == from[0] && peek.args[2] == from[1]
        && peek.args[3] == from[2] && peek.args[4] == slot);
}

/// The point of the toolkit: loading a flash image into a spare slot and
/// switching to it makes the device serve that image, outside command-response
/// mode.
pub proof fn loaded_image_is_served(d: Device, slot: u8, flash: u8, faults: Faults)
    requires
        d.sound(),
        d.active,
        slot < d.nram,
        slot != d.active_slot,
        flash < d.nflash,
        faults.loadfail != 1,
        faults.loadfail != 2,
    ensures
        ({
            let after = d.commanded(G_MODIFY, LOAD_SLOT, seq![slot, flash], faults).commanded(
                G_CONTROL,
                SWITCH_AND_EXIT,
                seq![slot],
                faults,
            );
            &&& after.active_slot == slot
            &&& after.served() == d.flash[flash as int]
            &&& !after.active
            &&& after.st == St::Knock
        }),
{
    let g = d.given(G_MODIFY, LOAD_SLOT, seq![slot, flash]);
    assert(g.args[0] == slot && g.args[1] == flash);
    let mid = d.commanded(G_MODIFY, LOAD_SLOT, seq![slot, flash], faults);
    assert(mid.ram[slot as int] == d.flash[flash as int]);
    assert(mid.nram == d.nram && mid.args.len() == 16);
    let h = mid.given(G_CONTROL, SWITCH_AND_EXIT, seq![slot]);
    assert(h.args[0] == slot);
}

/// A load that fails half done leaves the first half of the image in the target
/// slot, whose second half is as it was, and is refused.
pub proof fn failed_load_leaves_half(d: Device, faults: Faults)
    requires
        d.sound(),
        d.active,
        d.group == G_MODIFY,
        d.cmd == LOAD_SLOT,
        d.names_ram(0),
        d.args[1] < d.nflash,
        faults.loadfail == 2,
    ensures
        ({
            let (after, ok) = d.dispatched(faults);
            let to = d.args[0] as int;
            let from = d.args[1] as int;
            &&& !ok
            &&& forall|i: int|
                0 <= i < d.size / 2 ==> #[trigger] after.ram[to][i] == d.flash[from][i]
            &&& forall|i: int|
                d.size / 2 <= i < d.size ==> #[trigger] after.ram[to][i] == d.ram[to][i]
        }),
{
}

/// Switching or loading on the way out changes nothing else in the slots, and
/// ends the session without an answer.
pub proof fn exits_end_session(d: Device, slot: u8, flash: u8, faults: Faults)
    requires
        d.sound(),
        slot < d.nram,
        flash < NFLASH,
    ensures
        ({
            let after = d.commanded(G_CONTROL, SWITCH_AND_EXIT, seq![slot], faults);
            &&& after.active_slot == slot
            &&& after.ram == d.ram
            &&& !after.active
            &&& after.token == d.token
        }),
        ({
            let after = d.commanded(G_CONTROL, LOAD_AND_EXIT, seq![slot, flash], faults);
            &&& after.ram == d.ram.update(slot as int, d.flash[flash as int])
            &&& after.active_slot == d.active_slot
            &&& !after.active
            &&& after.token == d.token
        }),
{
    let g = d.given(G_CONTROL, SWITCH_AND_EXIT, seq![slot]);
    assert(g.args[0] == slot);
    let h = d.given(G_CONTROL, LOAD_AND_EXIT, seq![slot, flash]);
    assert(h.args[0] == slot && h.args[1] == flash);
}

/// A spare slot filled with a byte reads back as that byte everywhere, on a
/// device that still answers.
pub proof fn peek_reads_back_fill(
    d: Device,
    byte: u8,
    lo: u8,
    mid: u8,
    hi: u8,
    slot: u8,
    faults: Faults,
)
    requires
        d.sound(),
        d.active,
        !faults.nopeek,
        slot < d.nram,
        slot != d.active_slot,
        device::le24(lo, mid, hi) < d.size,
        1 <= d.data_size,
        d.region_off + HDR_SIZE < d.size,
        !d.commanded(G_MODIFY, SLOT_POKE_ALL_BYTE, seq![byte, slot], faults).deaf(faults),
    ensures
        d.commanded(G_MODIFY, SLOT_POKE_ALL_BYTE, seq![byte, slot], faults).commanded(
            G_READ,
            SLOT_PEEK,
            seq![1, lo, mid, hi, slot],
            faults,
        ).served()[d.region_off + HDR_SIZE] == byte,
{
    let filled = d.commanded(G_MODIFY, SLOT_POKE_ALL_BYTE, seq![byte, slot], faults);
    fill_writes_slot(d, byte, slot, faults);
    peek_reads_slot(filled, 1, lo, mid, hi, slot, faults);
    let at = d.region_off + HDR_SIZE;
    let peeked = filled.commanded(G_READ, SLOT_PEEK, seq![1, lo, mid, hi, slot], faults);
    assert(peeked.served()[at + 0] == byte);
}

proof fn fill_writes_slot(d: Device, byte: u8, slot: u8, faults: Faults)
    requires
        d.sound(),
        d.active,
        slot < d.nram,
        slot != d.active_slot,
    ensures
        ({
            let after = d.commanded(G_MODIFY, SLOT_POKE_ALL_BYTE, seq![byte, slot], faults);
            &&& after.sound()
            &&& after.active
            &&& after.active_slot == d.active_slot
            &&& after.region_off == d.region_off
            &&& after.data_size == d.data_size
            &&& after.nram == d.nram
            &&& after.size == d.size
            &&& after.ram[slot as int] == device::filled(d.size, byte)
        }),
{
    let g = d.given(G_MODIFY, SLOT_POKE_ALL_BYTE, seq![byte, slot]);
    assert(g.args[0] == byte && g.args[1] == slot);
}

/// What an NV command leaves as it was.
pub open spec fn same_session(d: Device, after: Device) -> bool {
    &&& after.sound()
    &&& after.active == d.active
    &&& after.active_slot == d.active_slot
    &&& after.region_off == d.region_off
    &&& after.data_size == d.data_size
    &&& after.nram == d.nram
    &&& after.size == d.size
}

/// Beginning an NV write stages a copy and leaves the NV alone.
pub proof fn nv_begin_stages(d: Device, slot: u8, faults: Faults)
    requires
        d.sound(),
        d.active,
        slot < d.nram,
        slot != d.active_slot,
    ensures
        ({
            let after = d.commanded(G_NV, NV_POKE_BEGIN, seq![slot], faults);
            &&& same_session(d, after)
            &&& after.nv == d.nv
            &&& after.stage == Some(d.nv)
        }),
{
    let g = d.given(G_NV, NV_POKE_BEGIN, seq![slot]);
    assert(g.args[0] == slot);
}

/// A poke changes the staged copy and leaves the NV alone.
pub proof fn nv_poke_changes_stage(d: Device, byte: u8, lo: u8, hi: u8, faults: Faults)
    requires
        d.sound(),
        d.active,
        d.stage is Some,
        device::le16(lo, hi) < NV_SIZE,
    ensures
        ({
            let after = d.commanded(G_NV, NV_POKE, seq![byte, lo, hi], faults);
            &&& same_session(d, after)
            &&& after.nv == d.nv
            &&& after.stage == Some(d.stage->0.update(device::le16(lo, hi), byte))
        }),
{
    let g = d.given(G_NV, NV_POKE, seq![byte, lo, hi]);
    assert(g.args[0] == byte && g.args[1] == lo && g.args[2] == hi);
}

/// A commit makes the staged copy the NV; a cancel forgets it.
pub proof fn nv_commit_or_cancel(d: Device, faults: Faults)
    requires
        d.sound(),
        d.active,
        d.stage is Some,
    ensures
        ({
            let after = d.commanded(G_NV, NV_POKE_COMMIT, Seq::empty(), faults);
            &&& same_session(d, after)
            &&& after.nv == d.stage->0
            &&& after.stage is None
        }),
        ({
            let after = d.commanded(G_NV, NV_POKE_CANCEL, Seq::empty(), faults);
            &&& same_session(d, after)
            &&& after.nv == d.nv
            &&& after.stage is None
        }),
{
}

/// What a device does for the commands of a staged NV write: each succeeds, the
/// NV holds what it did until the commit, and then the byte; a cancel leaves it.
/// After either the stage is empty, so that a further poke or commit is refused
/// and does nothing.
pub proof fn nv_staging_dispatches(d: Device, byte: u8, lo: u8, hi: u8, slot: u8, faults: Faults)
    requires
        d.sound(),
        d.active,
        slot < d.nram,
        slot != d.active_slot,
        device::le16(lo, hi) < NV_SIZE,
    ensures
        ({
            let (begun, began) = d.given(G_NV, NV_POKE_BEGIN, seq![slot]).dispatched(faults);
            let (poked, poke) = begun.given(G_NV, NV_POKE, seq![byte, lo, hi]).dispatched(faults);
            let (written, commit) = poked.given(G_NV, NV_POKE_COMMIT, Seq::empty()).dispatched(
                faults,
            );
            let (dropped, cancel) = poked.given(G_NV, NV_POKE_CANCEL, Seq::empty()).dispatched(
                faults,
            );
            &&& began && poke && commit && cancel
            &&& begun.nv == d.nv
            &&& begun.stage == Some(d.nv)
            &&& poked.nv == d.nv
            &&& poked.stage == Some(d.nv.update(device::le16(lo, hi), byte))
            &&& written.nv == d.nv.update(device::le16(lo, hi), byte)
            &&& dropped.nv == d.nv
            &&& refuses_staged(written, faults)
            &&& refuses_staged(dropped, faults)
            &&& written.ram == d.ram
            &&& dropped.ram == d.ram
        }),
{
    let begin = d.given(G_NV, NV_POKE_BEGIN, seq![slot]);
    assert(begin.args[0] == slot);
    let (begun, _) = begin.dispatched(faults);
    let poke = begun.given(G_NV, NV_POKE, seq![byte, lo, hi]);
    assert(poke.args[0] == byte && poke.args[1] == lo && poke.args[2] == hi);
}

/// Whether a device has no staged copy, and refuses to poke or commit one.
pub open spec fn refuses_staged(d: Device, faults: Faults) -> bool {
    &&& d.stage is None
    &&& forall|a: Seq<u8>|
        #![trigger d.given(G_NV, NV_POKE, a)]
        d.given(G_NV, NV_POKE, a).dispatched(faults) == (d.given(G_NV, NV_POKE, a), false)
    &&& d.given(G_NV, NV_POKE_COMMIT, Seq::empty()).dispatched(faults) == (
        d.given(G_NV, NV_POKE_COMMIT, Seq::empty()),
        false,
    )
}

/// Without a staged copy, a poke and a commit are refused and do nothing.
pub proof fn nv_write_needs_begin(d: Device, faults: Faults)
    requires
        d.sound(),
        d.stage is None,
        d.group == G_NV,
        d.cmd == NV_POKE || d.cmd == NV_POKE_COMMIT,
    ensures
        d.dispatched(faults) == (d, false),
{
}

/// On a device that still answers, a peek at the NV leaves its bytes in the data
/// area.
pub proof fn nv_peek_reads(d: Device, count: u8, lo: u8, hi: u8, faults: Faults)
    requires
        d.sound(),
        d.active,
        0 < count <= d.data_size,
        device::le16(lo, hi) + count <= NV_SIZE,
        d.region_off + HDR_SIZE + count <= d.size,
        !d.deaf(faults),
    ensures
        ({
            let after = d.commanded(G_NV, NV_PEEK, seq![count, lo, hi], faults);
            let at = d.region_off + HDR_SIZE;
            let loc = device::le16(lo, hi);
            &&& same_session(d, after)
            &&& after.nv == d.nv
            &&& after.served().subrange(at, at + count) == d.nv.subrange(loc, loc + count)
        }),
{
    let a = seq![count, lo, hi];
    let g = d.given(G_NV, NV_PEEK, a);
    assert(g.args[0] == count && g.args[1] == lo && g.args[2] == hi);
    let after = d.commanded(G_NV, NV_PEEK, a, faults);
    let at = d.region_off + HDR_SIZE;
    let loc = device::le16(lo, hi);
    assert(after.served().subrange(at, at + count) =~= d.nv.subrange(loc, loc + count));
}

/// An NV write takes effect as a whole: begun, poked and committed it changes
/// the one byte, which a peek then reads back unless the device has gone deaf;
/// cancelled instead, it changes nothing; and the command that does all three in one comes to the same NV.
pub proof fn nv_write_takes_effect(d: Device, byte: u8, lo: u8, hi: u8, slot: u8, faults: Faults)
    requires
        d.sound(),
        d.active,
        slot < d.nram,
        slot != d.active_slot,
        device::le16(lo, hi) < NV_SIZE,
    ensures
        ({
            let staged = d.commanded(G_NV, NV_POKE_BEGIN, seq![slot], faults).commanded(
                G_NV,
                NV_POKE,
                seq![byte, lo, hi],
                faults,
            );
            let written = staged.commanded(G_NV, NV_POKE_COMMIT, Seq::empty(), faults);
            let peeked = written.commanded(G_NV, NV_PEEK, seq![1, lo, hi], faults);
            let dropped = staged.commanded(G_NV, NV_POKE_CANCEL, Seq::empty(), faults);
            let at_once = d.commanded(
                G_NV,
                NV_POKE_COMMIT_BYTE,
                seq![byte, lo, hi, slot],
                faults,
            );
            &&& staged.nv == d.nv
            &&& written.nv == d.nv.update(device::le16(lo, hi), byte)
            &&& written.stage is None
            &&& dropped.nv == d.nv
            &&& dropped.stage is None
            &&& at_once.nv == written.nv
            &&& 1 <= d.data_size && d.region_off + HDR_SIZE < d.size && !written.deaf(faults)
                ==> peeked.served()[d.region_off + HDR_SIZE] == byte
        }),
{
    let begun = d.commanded(G_NV, NV_POKE_BEGIN, seq![slot], faults);
    nv_begin_stages(d, slot, faults);
    let staged = begun.commanded(G_NV, NV_POKE, seq![byte, lo, hi], faults);
    nv_poke_changes_stage(begun, byte, lo, hi, faults);
    let written = staged.commanded(G_NV, NV_POKE_COMMIT, Seq::empty(), faults);
    nv_commit_or_cancel(staged, faults);
    nv_byte_is_committed(d, byte, lo, hi, slot, faults);
    if 1 <= d.data_size && d.region_off + HDR_SIZE < d.size && !written.deaf(faults) {
        nv_peek_reads(written, 1, lo, hi, faults);
        let at = d.region_off + HDR_SIZE;
        let peeked = written.commanded(G_NV, NV_PEEK, seq![1, lo, hi], faults);
        assert(peeked.served().subrange(at, at + 1)[0] == byte);
    }
}

proof fn nv_byte_is_committed(d: Device, byte: u8, lo: u8, hi: u8, slot: u8, faults: Faults)
    requires
        d.sound(),
        d.active,
        slot < d.nram,
        slot != d.active_slot,
        device::le16(lo, hi) < NV_SIZE,
    ensures
        d.commanded(G_NV, NV_POKE_COMMIT_BYTE, seq![byte, lo, hi, slot], faults).nv
            == d.nv.update(device::le16(lo, hi), byte),
{
    let g = d.given(G_NV, NV_POKE_COMMIT_BYTE, seq![byte, lo, hi, slot]);
    assert(g.args[0] == byte && g.args[1] == lo && g.args[2] == hi && g.args[3] == slot);
}

/// The reply to FLASH_SLOT_INFO_ALL keeps whole records inside the data area,
/// and holds as many as fit, up to all that are reported.
pub proof fn flash_records_fit(d: Device)
    requires
        d.sound(),
        4 <= d.data_size,
    ensures
        4 + 32 * d.records_sent() <= d.data_size,
        0 <= d.records_sent() <= d.nflash,
        d.records_sent() == d.nflash || d.data_size < 4 + 32 * (d.records_sent() + 1),
        device::flash_records(d.records_sent(), d.size).len() == 32 * d.records_sent(),
{
    flash_records_length(d.records_sent(), d.size);
}

proof fn flash_records_length(n: int, size: int)
    requires
        0 <= n,
    ensures
        device::flash_records(n, size).len() == 32 * n,
    decreases n,
{
    if n > 0 {
        flash_records_length(n - 1, size);
    }
}

/// A switch to any slot that there is serves that slot and keeps the session
/// open; no slot changes but for the header of the answer, half of which is in
/// the slot that was served before.
pub proof fn switched_slot_is_served(d: Device, slot: u8, faults: Faults)
    requires
        d.sound(),
        d.active,
        slot < d.nram,
    ensures
        ({
            let (_, ok) = d.given(G_MODIFY, SWITCH_SLOT, seq![slot]).dispatched(faults);
            let after = d.commanded(G_MODIFY, SWITCH_SLOT, seq![slot], faults);
            &&& ok
            &&& after.sound()
            &&& after.active_slot == slot
            &&& after.active
            &&& after.st == St::Group
            &&& after.region_off == d.region_off
            &&& after.data_size == d.data_size
            &&& after.cmds == d.cmds + 1
            &&& forall|s: int|
                0 <= s < NRAM && s != slot && s != d.active_slot ==> #[trigger] after.ram[s]
                    == d.ram[s]
            &&& forall|s: int, i: int|
                0 <= s < NRAM && 0 <= i < d.size && !(d.region_off <= i < d.region_off + 6)
                    ==> #[trigger] after.ram[s][i] == d.ram[s][i]
        }),
{
    let g = d.given(G_MODIFY, SWITCH_SLOT, seq![slot]);
    assert(g.args[0] == slot);
}

/// A switch and a switch back, to any two slots that there are, serve the first
/// again, and both are reported as successes.
pub proof fn switch_goes_both_ways(d: Device, to: u8, back: u8, faults: Faults)
    requires
        d.sound(),
        d.active,
        to < d.nram,
        back < d.nram,
        d.region_off + HDR_SIZE <= d.size,
        faults.deaf == 0,
    ensures
        ({
            let there = d.commanded(G_MODIFY, SWITCH_SLOT, seq![to], faults);
            let here = there.commanded(G_MODIFY, SWITCH_SLOT, seq![back], faults);
            &&& there.active_slot == to
            &&& there.ram[to as int][d.region_off + 4] == d.complete
            &&& there.ram[to as int][d.region_off + 5] == d.status_ok
            &&& here.active_slot == back
            &&& here.active
            &&& here.ram[back as int][d.region_off + 4] == d.complete
            &&& here.ram[back as int][d.region_off + 5] == d.status_ok
        }),
{
    let there = d.commanded(G_MODIFY, SWITCH_SLOT, seq![to], faults);
    switched_slot_is_served(d, to, faults);
    switch_answers(d, to, faults);
    assert(there.nram == d.nram && there.size == d.size);
    switched_slot_is_served(there, back, faults);
    switch_answers(there, back, faults);
}

proof fn switch_answers(d: Device, slot: u8, faults: Faults)
    requires
        d.sound(),
        d.active,
        slot < d.nram,
        d.region_off + HDR_SIZE <= d.size,
        faults.deaf == 0,
    ensures
        ({
            let after = d.commanded(G_MODIFY, SWITCH_SLOT, seq![slot], faults);
            &&& after.nram == d.nram
            &&& after.size == d.size
            &&& after.complete == d.complete
            &&& after.status_ok == d.status_ok
            &&& after.ram[slot as int][d.region_off + 4] == d.complete
            &&& after.ram[slot as int][d.region_off + 5] == d.status_ok
        }),
{
    let g = d.given(G_MODIFY, SWITCH_SLOT, seq![slot]);
    assert(g.args[0] == slot);
}

/// A device that still answers, asked for its RAM slots, says how many there are,
/// which one it serves, which part it stands for, and zero.
pub proof fn ram_slots_are_reported(d: Device, faults: Faults)
    requires
        d.sound(),
        d.active,
        4 <= d.data_size,
        d.region_off + HDR_SIZE + 4 <= d.size,
        !d.deaf(faults),
    ensures
        ({
            let after = d.commanded(G_READ, RAM_SLOT_INFO_ALL, Seq::empty(), faults);
            let at = d.region_off + HDR_SIZE;
            &&& after.active_slot == d.active_slot
            &&& after.ram[d.active_slot][at] == d.nram
            &&& after.ram[d.active_slot][at + 1] == d.active_slot
            &&& after.ram[d.active_slot][at + 2] == protocol::rom_type(d.size)
            &&& after.ram[d.active_slot][at + 3] == 0
        }),
{
}

/// The slot that a host has switched to is the one that the device then reports,
/// and the one that it serves.
pub proof fn switched_slot_is_reported(d: Device, slot: u8, faults: Faults)
    requires
        d.sound(),
        d.active,
        slot < d.nram,
        4 <= d.data_size,
        d.region_off + HDR_SIZE + 4 <= d.size,
        faults.deaf == 0 || d.cmds + 1 < faults.deaf,
    ensures
        ({
            let told = d.commanded(G_MODIFY, SWITCH_SLOT, seq![slot], faults).commanded(
                G_READ,
                RAM_SLOT_INFO_ALL,
                Seq::empty(),
                faults,
            );
            &&& told.active_slot == slot
            &&& told.served()[d.region_off + HDR_SIZE] == d.nram
            &&& told.served()[d.region_off + HDR_SIZE + 1] == slot
        }),
{
    let switched = d.commanded(G_MODIFY, SWITCH_SLOT, seq![slot], faults);
    switched_slot_is_served(d, slot, faults);
    assert(switched.nram == d.nram && switched.size == d.size);
    ram_slots_are_reported(switched, faults);
}

} // verus!
