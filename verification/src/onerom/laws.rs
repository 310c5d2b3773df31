//! What holds of a device over its commands.

use super::dev;
use super::device;
use super::device::{Device, Faults, St};
use super::protocol;
use super::protocol::{
    ENTER_CMD_RESP, EXIT_CMD_RESP_RESTORE, FLASH_SLOT_INFO, G_CONTROL, G_MODIFY, G_NV, G_READ,
    G_RESET, HDR_SIZE, KNOCK_LEN, LOAD_AND_EXIT, LOAD_SLOT, NRAM, NV_POKE, NV_POKE_BEGIN,
    NV_POKE_CANCEL, NV_POKE_COMMIT, NV_POKE_COMMIT_BYTE, RESERVED_AA, RESET, SLOT_PEEK, SLOT_POKE,
    SLOT_POKE_ALL_BYTE, SWITCH_AND_EXIT, SWITCH_SLOT,
};
use vstd::prelude::*;

verus! {

/// A bus cycle that can be executed keeps a device well formed.
pub proof fn fed_is_well_formed(d: Device, observed: int, faults: Faults)
    requires
        d.wf(),
        d.feedable(observed),
        0 <= observed,
    ensures
        d.fed(observed, faults).wf(),
{
    let (next, complete) = d.taken((observed % 256) as u8);
    if d.heeds(observed) && complete {
        ran_is_well_formed(next, faults);
    }
}

/// Executing a received command leaves a device well formed.
pub proof fn ran_is_well_formed(d: Device, faults: Faults)
    requires
        d.sound(),
        d.in_range(),
    ensures
        d.ran(faults).wf(),
        d.ran(faults).cmds == d.cmds + 1,
{
    let noticed = if d.answers(faults) {
        d.begun(d.group, d.cmd)
    } else {
        d
    };
    assert(noticed.sound());
    assert(noticed.in_range());
    dev::lemma_dispatched_sound(noticed, faults);
}

/// The knock is recognised exactly where the last six reads spell it: until
/// then a device that waits for it stays where it is, and has matched the
/// longest stretch of the knock that the reads end in. Nothing else of the
/// device changes.
pub proof fn knock_is_recognised(d: Device, offsets: Seq<int>, faults: Faults)
    requires
        d.wf(),
        !d.active,
        d.st == St::Knock,
        d.kmatch == 0,
        forall|n: int|
            0 <= n < offsets.len() ==> !device::ends_in_knock(
                #[trigger] device::shown(offsets.take(n)),
                KNOCK_LEN as int,
            ),
    ensures
        ({
            let after = d.watched(offsets, faults);
            let heard = device::shown(offsets);
            if device::ends_in_knock(heard, KNOCK_LEN as int) {
                after.st == St::Group && after.kmatch == 0
            } else {
                &&& after.st == St::Knock
                &&& 0 <= after.kmatch < KNOCK_LEN
                &&& device::ends_in_knock(heard, after.kmatch)
                &&& forall|k: int|
                    after.kmatch < k <= KNOCK_LEN ==> !#[trigger] device::ends_in_knock(heard, k)
            }
        }),
        ({
            let after = d.watched(offsets, faults);
            after == (Device { st: after.st, kmatch: after.kmatch, kmax: after.kmax, ..d })
        }),
    decreases offsets.len(),
{
    reveal(Device::watched);
    let heard = device::shown(offsets);
    if offsets.len() == 0 {
        assert(heard.skip(0) =~= protocol::knock().take(0));
    } else {
        let before = offsets.drop_last();
        assert(before =~= offsets.take(offsets.len() - 1));
        assert forall|n: int| 0 <= n < before.len() implies !device::ends_in_knock(
            #[trigger] device::shown(before.take(n)),
            KNOCK_LEN as int,
        ) by {
            assert(before.take(n) =~= offsets.take(n));
        }
        knock_is_recognised(d, before, faults);
        let mid = d.watched(before, faults);
        let past = device::shown(before);
        let b = (offsets.last() % 256) as u8;
        assert(heard =~= past.push(b));
        assert(mid.st == St::Knock);
        // The reads end in `k + 1` bytes of the knock exactly if they ended in
        // `k` and the new one is the next.
        assert forall|k: int| 0 <= k < KNOCK_LEN implies #[trigger] device::ends_in_knock(
            heard,
            k + 1,
        ) == (device::ends_in_knock(past, k) && b == protocol::knock()[k]) by {
            if k <= past.len() {
                assert(heard.skip(heard.len() - (k + 1)) =~= past.skip(past.len() - k).push(b));
                assert(protocol::knock().take(k + 1) =~= protocol::knock().take(k).push(
                    protocol::knock()[k],
                ));
                let x = past.skip(past.len() - k);
                let y = protocol::knock().take(k);
                if x.push(b) == y.push(protocol::knock()[k]) {
                    assert(x =~= x.push(b).drop_last());
                    assert(y =~= y.push(protocol::knock()[k]).drop_last());
                    assert(x.push(b).last() == y.push(protocol::knock()[k]).last());
                }
            }
        }
        assert(heard.skip(heard.len() as int) =~= protocol::knock().take(0));
        assert(device::ends_in_knock(heard, 0));
        let m = mid.kmatch;
        if b == protocol::knock()[m] {
            assert(device::ends_in_knock(heard, m + 1));
            assert forall|k: int| m + 1 < k <= KNOCK_LEN implies !#[trigger] device::ends_in_knock(
                heard,
                k,
            ) by {
                assert(device::ends_in_knock(heard, (k - 1) + 1) == (device::ends_in_knock(
                    past,
                    k - 1,
                ) && b == protocol::knock()[k - 1]));
            }
        } else {
            // Whatever the reads now end in starts with a byte of the part that
            // was matched, and there the opening byte occurs only once.
            assert forall|k: int| 2 <= k <= KNOCK_LEN implies !#[trigger] device::ends_in_knock(
                heard,
                k,
            ) by {
                if device::ends_in_knock(heard, (k - 1) + 1) {
                    assert(device::ends_in_knock(past, k - 1));
                    assert(k - 1 <= m);
                    if k - 1 < m {
                        let p = past.skip(past.len() - m);
                        let q = past.skip(past.len() - (k - 1));
                        assert(q[0] == p[m - (k - 1)]);
                        assert(q[0] == protocol::knock().take(k - 1)[0]);
                        assert(p[m - (k - 1)] == protocol::knock().take(m)[m - (k - 1)]);
                        assert(protocol::knock()[m - (k - 1)] == protocol::knock()[0]);
                    }
                }
            }
            assert(past.skip(past.len() as int) =~= protocol::knock().take(0));
            assert(device::ends_in_knock(past, 0));
            assert(device::ends_in_knock(heard, 0int + 1) == (b == protocol::knock()[0]));
        }
    }
}

/// One more read that the device heeds, which completes no command.
proof fn byte_is_appended(d: Device, offsets: Seq<int>, o: int, mid: Device, faults: Faults)
    requires
        d.watched(offsets, faults) == mid,
        mid.heeds(o),
        !mid.taken((o % 256) as u8).1,
    ensures
        d.watched(offsets.push(o), faults) == mid.taken((o % 256) as u8).0,
{
    reveal(Device::watched);
    assert(offsets.push(o).drop_last() =~= offsets);
}

/// One more read that the device heeds, which completes a command.
proof fn command_is_appended(d: Device, offsets: Seq<int>, o: int, mid: Device, faults: Faults)
    requires
        d.watched(offsets, faults) == mid,
        mid.heeds(o),
        mid.taken((o % 256) as u8).1,
    ensures
        d.watched(offsets.push(o), faults) == mid.taken((o % 256) as u8).0.ran(faults),
{
    reveal(Device::watched);
    assert(offsets.push(o).drop_last() =~= offsets);
}

/// A device that has seen nothing is as it was.
proof fn nothing_is_sent(d: Device, offsets: Seq<int>, faults: Faults)
    ensures
        d.watched(offsets.take(0), faults) == d,
{
    reveal(Device::watched);
}

/// The device that has received command `c` of group `g` and `n` of its
/// arguments `a`.
spec fn collecting(d: Device, g: u8, c: u8, a: Seq<u8>, n: int) -> Device {
    Device {
        group: g,
        cmd: c,
        args: device::overwritten(d.args, 0, a.take(n)),
        nargs: n,
        want: a.len() as int,
        st: St::Args,
        ..d
    }
}

/// The device that has received the first `n` bytes of command `c` of group `g`
/// with arguments `a`, and not yet all of them.
spec fn receiving(d: Device, g: u8, c: u8, a: Seq<u8>, n: int) -> Device {
    if n == 0 {
        d
    } else if n == 1 {
        Device { group: g, st: St::Cmd, ..d }
    } else {
        collecting(d, g, c, a, n - 2)
    }
}

/// While bytes are missing, a device collects them.
proof fn command_is_received(
    d: Device,
    offsets: Seq<int>,
    g: u8,
    c: u8,
    a: Seq<u8>,
    n: int,
    faults: Faults,
)
    requires
        d.wf(),
        d.st == St::Group,
        d.hears(offsets, seq![g, c] + a),
        a.len() == protocol::argument_count(g, c),
        0 <= n < offsets.len(),
    ensures
        d.watched(offsets.take(n), faults) == receiving(d, g, c, a, n),
    decreases n,
{
    if n == 0 {
        nothing_is_sent(d, offsets, faults);
    } else {
        let bytes = seq![g, c] + a;
        let o = offsets[n - 1];
        command_is_received(d, offsets, g, c, a, n - 1, faults);
        let mid = receiving(d, g, c, a, n - 1);
        assert((o % 256) as u8 == bytes[n - 1]);
        byte_is_appended(d, offsets.take(n - 1), o, mid, faults);
        assert(offsets.take(n - 1).push(o) =~= offsets.take(n));
        if n == 2 {
            assert(device::overwritten(d.args, 0, a.take(0)) =~= d.args);
        } else if n > 2 {
            let m = n - 2;
            assert(device::overwritten(d.args, 0, a.take(m - 1)).update(m - 1, a[m - 1])
                =~= device::overwritten(d.args, 0, a.take(m)));
        }
        assert(mid.taken(bytes[n - 1]).0 =~= receiving(d, g, c, a, n));
    }
}

/// The last byte of a command completes it.
proof fn command_is_completed(d: Device, g: u8, c: u8, a: Seq<u8>)
    requires
        d.wf(),
        d.st == St::Group,
        a.len() == protocol::argument_count(g, c),
    ensures
        receiving(d, g, c, a, a.len() as int + 1).taken((seq![g, c] + a).last()) == (
            d.given(g, c, a),
            true,
        ),
{
    let last = receiving(d, g, c, a, a.len() as int + 1).taken((seq![g, c] + a).last()).0;
    if a.len() == 0 {
        assert(device::overwritten(d.args, 0, a) =~= d.args);
    } else {
        let n = a.len() - 1;
        assert(device::overwritten(d.args, 0, a.take(n)).update(n, a[n]) =~= device::overwritten(
            d.args,
            0,
            a,
        ));
    }
    assert(last =~= d.given(g, c, a));
}

/// A command reaches a device as it is sent: reading the group, the command and
/// all of its arguments on the command page (outside command-response mode, each
/// of them on any page) executes that command with those arguments. Before the
/// last byte nothing is executed or counted: the device only takes down what it
/// has received.
pub proof fn command_is_decoded(
    d: Device,
    offsets: Seq<int>,
    g: u8,
    c: u8,
    a: Seq<u8>,
    faults: Faults,
)
    requires
        d.wf(),
        d.st == St::Group,
        d.hears(offsets, seq![g, c] + a),
        a.len() == protocol::argument_count(g, c),
    ensures
        d.watched(offsets, faults) == d.commanded(g, c, a, faults),
        ({
            let full = d.given(g, c, a);
            &&& d.watched(offsets, faults) == full.ran(faults)
            &&& full.group == g
            &&& full.cmd == c
            &&& full.args.len() == 16
            &&& forall|k: int| 0 <= k < a.len() ==> #[trigger] full.args[k] == a[k]
            &&& forall|k: int| a.len() <= k < 16 ==> #[trigger] full.args[k] == d.args[k]
            &&& full == (Device {
                st: full.st,
                group: g,
                cmd: c,
                args: full.args,
                nargs: a.len() as int,
                want: a.len() as int,
                ..d
            })
        }),
        forall|n: int|
            0 <= n < offsets.len() ==> {
                let mid = #[trigger] d.watched(offsets.take(n), faults);
                &&& mid.cmds == d.cmds
                &&& mid == (Device {
                    st: mid.st,
                    group: mid.group,
                    cmd: mid.cmd,
                    args: mid.args,
                    nargs: mid.nargs,
                    want: mid.want,
                    ..d
                })
            },
{
    let last = offsets.len() - 1;
    command_is_received(d, offsets, g, c, a, last, faults);
    command_is_completed(d, g, c, a);
    assert((offsets[last] % 256) as u8 == (seq![g, c] + a).last());
    command_is_appended(
        d,
        offsets.take(last),
        offsets[last],
        receiving(d, g, c, a, last),
        faults,
    );
    assert(offsets.take(last).push(offsets[last]) =~= offsets);
    assert forall|n: int| 0 <= n < offsets.len() implies {
        let mid = #[trigger] d.watched(offsets.take(n), faults);
        &&& mid.cmds == d.cmds
        &&& mid == (Device {
            st: mid.st,
            group: mid.group,
            cmd: mid.cmd,
            args: mid.args,
            nargs: mid.nargs,
            want: mid.want,
            ..d
        })
    } by {
        command_is_received(d, offsets, g, c, a, n, faults);
    }
}

/// Bus cycles one after the other.
proof fn watched_joins(d: Device, o: Seq<int>, p: Seq<int>, faults: Faults)
    ensures
        d.watched(o + p, faults) == d.watched(o, faults).watched(p, faults),
    decreases p.len(),
{
    reveal(Device::watched);
    if p.len() == 0 {
        assert(o + p =~= o);
    } else {
        watched_joins(d, o, p.drop_last(), faults);
        assert((o + p).drop_last() =~= o + p.drop_last());
    }
}

/// A host that knocks on a waiting device and then sends a command has it
/// execute that command, whatever pages it reads on, and nothing before the last
/// byte.
pub proof fn knock_opens_door(
    d: Device,
    offsets: Seq<int>,
    g: u8,
    c: u8,
    a: Seq<u8>,
    faults: Faults,
)
    requires
        d.wf(),
        !d.active,
        d.st == St::Knock,
        d.kmatch == 0,
        d.hears(offsets, protocol::knock() + (seq![g, c] + a)),
        a.len() == protocol::argument_count(g, c),
    ensures
        d.watched(offsets, faults) == (Device { st: St::Group, ..d }).commanded(g, c, a, faults),
        forall|n: int|
            0 <= n < offsets.len() ==> (#[trigger] d.watched(offsets.take(n), faults)).cmds
                == d.cmds,
{
    let k = protocol::knock();
    let bytes = k + (seq![g, c] + a);
    let open = Device { st: St::Group, ..d };
    let knocks = offsets.take(6);
    let rest = offsets.skip(6);
    assert(bytes.take(KNOCK_LEN as int) =~= k);
    knock_is_heard(d, offsets, bytes, 5, faults);
    let waiting = Device { kmatch: 5, ..d };
    assert((offsets[5] % 256) as u8 == bytes[5] && bytes[5] == k[5]);
    byte_is_appended(d, offsets.take(5), offsets[5], waiting, faults);
    assert(offsets.take(5).push(offsets[5]) =~= knocks);
    assert(waiting.taken(k[5]).0 =~= open);
    assert forall|i: int| 0 <= i < rest.len() implies (#[trigger] rest[i]) % 256 == (seq![g, c]
        + a)[i] as int && open.heeds(rest[i]) by {
        assert(rest[i] == offsets[i + 6]);
        assert(bytes[i + 6] == (seq![g, c] + a)[i]);
    }
    command_is_decoded(open, rest, g, c, a, faults);
    watched_joins(d, knocks, rest, faults);
    assert(knocks + rest =~= offsets);
    assert forall|n: int| 0 <= n < offsets.len() implies (#[trigger] d.watched(
        offsets.take(n),
        faults,
    )).cmds == d.cmds by {
        if n <= 5 {
            knock_is_heard(d, offsets, bytes, n, faults);
        } else {
            watched_joins(d, knocks, rest.take(n - 6), faults);
            assert(knocks + rest.take(n - 6) =~= offsets.take(n));
        }
    }
}

proof fn knock_is_heard(d: Device, offsets: Seq<int>, bytes: Seq<u8>, n: int, faults: Faults)
    requires
        d.wf(),
        !d.active,
        d.st == St::Knock,
        d.kmatch == 0,
        d.hears(offsets, bytes),
        bytes.len() >= KNOCK_LEN,
        bytes.take(KNOCK_LEN as int) == protocol::knock(),
        0 <= n <= 5,
    ensures
        d.watched(offsets.take(n), faults) == (Device { kmatch: n, ..d }),
    decreases n,
{
    if n == 0 {
        nothing_is_sent(d, offsets, faults);
    } else {
        let o = offsets[n - 1];
        knock_is_heard(d, offsets, bytes, n - 1, faults);
        assert(bytes[n - 1] == bytes.take(KNOCK_LEN as int)[n - 1]);
        assert((o % 256) as u8 == protocol::knock()[n - 1]);
        byte_is_appended(d, offsets.take(n - 1), o, Device { kmatch: n - 1, ..d }, faults);
        assert(offsets.take(n - 1).push(o) =~= offsets.take(n));
    }
}

/// In command-response mode a read off the command page is an ordinary fetch of
/// the image being served: it changes nothing.
pub proof fn other_pages_are_ignored(d: Device, observed: int, faults: Faults)
    requires
        d.active,
        observed / 256 != d.cmd_page,
    ensures
        d.fed(observed, faults) == d,
{
}

/// Some things no command changes: the flash slots, the sizes, the slots that
/// are reported and the device's place on the bus. Every command is counted.
pub proof fn command_keeps(d: Device, faults: Faults)
    requires
        d.sound(),
    ensures
        ({
            let after = d.ran(faults);
            &&& after.flash == d.flash
            &&& after.size == d.size
            &&& after.nram == d.nram
            &&& after.nflash == d.nflash
            &&& after.idx == d.idx
            &&& after.boot_flash == d.boot_flash
            &&& after.boot_ram == d.boot_ram
            &&& after.cmds == d.cmds + 1
        }),
{
}

/// The header of the back-channel region of a device: group, command, token,
/// progress and response.
pub open spec fn header(d: Device) -> Seq<u8> {
    d.served().subrange(d.region_off, d.region_off + 6)
}

/// Whether the received command moves the back-channel region or replaces what
/// is served in it: an entry that is taken, a switch to another slot, or a load
/// into the slot being served.
pub open spec fn moves_region(d: Device, faults: Faults) -> bool {
    ||| d.group == G_CONTROL && d.cmd == ENTER_CMD_RESP && d.entry_taken()
    ||| d.group == G_MODIFY && d.cmd == SWITCH_SLOT && d.names_spare(0)
    ||| d.group == G_MODIFY && d.cmd == LOAD_SLOT && d.args[0] == d.active_slot && d.args[1]
        < d.nflash && faults.loadfail != 1
}

/// Every command that a device answers moves the token on by one, and ends with
/// a header that names the command and the token, says "complete", and says
/// whether it succeeded; but for the commands that move the region away or
/// replace what is served in it.
pub proof fn answer_is_shown(d: Device, faults: Faults)
    requires
        d.sound(),
        d.answers(faults),
        d.region_off + HDR_SIZE <= d.size,
        !moves_region(d, faults),
    ensures
        ({
            let after = d.ran(faults);
            let ok = d.begun(d.group, d.cmd).dispatched(faults).1;
            &&& after.token == (d.token + 1) % 0x10000
            &&& header(after) == seq![
                d.group,
                d.cmd,
                (after.token % 256) as u8,
                (after.token / 256) as u8,
                d.complete,
                if ok {
                    d.status_ok
                } else {
                    device::inverted(d.status_ok)
                },
            ]
        }),
{
    let begun = d.begun(d.group, d.cmd);
    let (done, ok) = begun.dispatched(faults);
    let after = d.ran(faults);
    assert(done.active_slot == d.active_slot);
    assert(done.region_off == d.region_off);
    assert(forall|i: int|
        d.region_off <= i < d.region_off + 4 ==> done.served()[i] == begun.served()[i]);
    assert(header(after) =~= seq![
        d.group,
        d.cmd,
        (after.token % 256) as u8,
        (after.token / 256) as u8,
        d.complete,
        if ok {
            d.status_ok
        } else {
            device::inverted(d.status_ok)
        },
    ]);
}

/// A command that is not answered does not move the token: a silent one, and any
/// one on a device that has gone deaf or is not in command-response mode. Only an
/// entry that is taken sets it anew.
pub proof fn unanswered_token_stays(d: Device, faults: Faults)
    requires
        d.sound(),
        !d.answers(faults),
        !(d.group == G_CONTROL && d.cmd == ENTER_CMD_RESP && d.entry_taken()),
    ensures
        d.ran(faults).token == d.token,
{
}

/// A device that has gone deaf executes its commands and writes nothing back: no
/// header, no data, and its token stays where it is, but for an entry that is
/// taken, which reads it from the region.
pub proof fn deaf_device_is_silent(d: Device, faults: Faults)
    requires
        d.sound(),
        d.deaf(faults),
    ensures
        ({
            let after = d.ran(faults);
            let (done, _) = d.dispatched(faults);
            let enters = d.group == G_CONTROL && d.cmd == ENTER_CMD_RESP;
            let replies = d.group == G_READ || d.group == G_NV;
            &&& after.cmds == d.cmds + 1
            &&& after.active == done.active
            &&& after.active_slot == done.active_slot
            &&& after.nv == done.nv
            &&& after.stage == done.stage
            &&& enters || replies ==> after.ram == d.ram
            &&& !enters && !replies ==> after.ram == done.ram
            &&& !enters || !d.entry_taken() ==> after.token == d.token
            &&& !enters && !replies ==> after == (Device {
                cmds: d.cmds + 1,
                st: after.st,
                ..done
            })
        }),
{
}

/// What the device does for a command keeps it sound, and changes neither the
/// flash slots, the sizes and the slots that it reports, nor the count of
/// commands and the device's place on the bus.
pub proof fn dispatch_keeps(d: Device, faults: Faults)
    requires
        d.sound(),
        d.header_fits(),
    ensures
        ({
            let (done, _) = d.dispatched(faults);
            &&& done.sound()
            &&& done.flash == d.flash
            &&& done.size == d.size
            &&& done.nram == d.nram
            &&& done.nflash == d.nflash
            &&& done.idx == d.idx
            &&& done.cmds == d.cmds
            &&& done.boot_flash == d.boot_flash
            &&& done.boot_ram == d.boot_ram
        }),
{
    dev::lemma_dispatched_sound(d, faults);
}

/// A device told to refuse peeks, or loads, refuses them and does nothing.
pub proof fn faults_refuse(d: Device, faults: Faults)
    requires
        d.sound(),
    ensures
        faults.nopeek && d.group == G_READ && d.cmd == SLOT_PEEK ==> d.dispatched(faults) == (
            d,
            false,
        ),
        faults.loadfail == 1 && d.group == G_MODIFY && d.cmd == LOAD_SLOT ==> d.dispatched(faults)
            == (d, false),
{
}

/// A device outside command-response mode only counts the commands of the read,
/// modify and NV groups, and of groups that there are not.
pub proof fn closed_device_refuses(d: Device, faults: Faults)
    requires
        d.sound(),
        !d.active,
        d.group != G_CONTROL,
        d.group != G_RESET,
    ensures
        d.dispatched(faults) == (d, false),
        d.ran(faults) == (Device { cmds: d.cmds + 1, st: St::Knock, ..d }),
{
}

/// A command that there is not takes no arguments, does nothing and is refused.
pub proof fn unknown_command_is_refused(d: Device, faults: Faults)
    requires
        d.sound(),
        d.group != G_RESET,
        d.group == G_CONTROL ==> d.cmd > EXIT_CMD_RESP_RESTORE,
        d.group == G_READ ==> d.cmd < FLASH_SLOT_INFO || d.cmd > protocol::BOOT_INFO,
        d.group == G_MODIFY ==> d.cmd > SLOT_POKE_ALL_BYTE,
        d.group == G_NV ==> d.cmd > NV_POKE_COMMIT_BYTE,
    ensures
        protocol::argument_count(d.group, d.cmd) == 0,
        d.dispatched(faults) == (d, false),
{
}

/// A reset resynchronises a device in any state: it then waits for a knock, and
/// its slots, its NV and its token are as they were.
pub proof fn reset_resynchronises(d: Device, faults: Faults)
    requires
        d.sound(),
        d.group == G_RESET,
        d.cmd == RESET,
    ensures
        ({
            let after = d.ran(faults);
            &&& after.st == St::Knock
            &&& after.kmatch == 0
            &&& !after.active
            &&& after.stage is None
            &&& after.ram == d.ram
            &&& after.flash == d.flash
            &&& after.nv == d.nv
            &&& after.token == d.token
            &&& after.active_slot == d.active_slot
        }),
{
}

/// Every command of the reset group is taken as a reset, in any state: the
/// device leaves command-response mode, forgets a staged write and waits for a
/// knock from its start, and nothing else changes. A second reset does no more
/// than the first.
pub proof fn reset_group_resets(d: Device, faults: Faults)
    requires
        d.sound(),
        d.group == G_RESET,
    ensures
        ({
            let (after, ok) = d.dispatched(faults);
            &&& ok
            &&& after.st == St::Knock
            &&& after.kmatch == 0
            &&& !after.active
            &&& after.stage is None
            &&& after == (Device {
                st: after.st,
                kmatch: after.kmatch,
                active: after.active,
                stage: after.stage,
                ..d
            })
            &&& after.dispatched(faults) == (after, true)
        }),
{
}

/// A device reports the reserved value for an answer it does not know, and never
/// takes it for a slot: a command given it as a slot number is refused, and the
/// two that leave command-response mode leave the slots alone.
pub proof fn reserved_is_no_slot(d: Device, faults: Faults)
    requires
        d.sound(),
    ensures
        d.group == G_READ && d.cmd == FLASH_SLOT_INFO && d.args[0] == RESERVED_AA
            ==> d.dispatched(faults) == (d, false),
        d.group == G_READ && d.cmd == SLOT_PEEK && d.args[4] == RESERVED_AA ==> d.dispatched(faults)
            == (d, false),
        d.group == G_MODIFY && d.cmd == SLOT_POKE && d.args[4] == RESERVED_AA ==> d.dispatched(
            faults,
        ) == (d, false),
        d.group == G_MODIFY && d.cmd == SWITCH_SLOT && d.args[0] == RESERVED_AA ==> d.dispatched(
            faults,
        ) == (d, false),
        d.group == G_MODIFY && d.cmd == LOAD_SLOT && (d.args[0] == RESERVED_AA || d.args[1]
            == RESERVED_AA) ==> d.dispatched(faults) == (d, false),
        d.group == G_MODIFY && d.cmd == SLOT_POKE_ALL_BYTE && d.args[1] == RESERVED_AA
            ==> d.dispatched(faults) == (d, false),
        d.group == G_NV && d.cmd == NV_POKE_BEGIN && d.args[0] == RESERVED_AA ==> d.dispatched(
            faults,
        ) == (d, false),
        d.group == G_NV && d.cmd == NV_POKE_COMMIT_BYTE && d.args[3] == RESERVED_AA
            ==> d.dispatched(faults) == (d, false),
        d.group == G_CONTROL && d.cmd == SWITCH_AND_EXIT && d.args[0] == RESERVED_AA
            ==> d.dispatched(faults) == (Device { active: false, ..d }, true),
        d.group == G_CONTROL && d.cmd == LOAD_AND_EXIT && (d.args[0] == RESERVED_AA || d.args[1]
            == RESERVED_AA) ==> d.dispatched(faults) == (Device { active: false, ..d }, true),
{
}

/// A poke never touches the slot being served: a device refuses rather than
/// overwrite what it serves. Nor does staging an NV write through that slot.
pub proof fn running_slot_is_guarded(d: Device, faults: Faults)
    requires
        d.sound(),
        d.group == G_MODIFY && (d.cmd == SLOT_POKE || d.cmd == SLOT_POKE_ALL_BYTE) || d.group
            == G_NV && (d.cmd == NV_POKE_BEGIN || d.cmd == NV_POKE || d.cmd == NV_POKE_COMMIT
            || d.cmd == NV_POKE_CANCEL || d.cmd == NV_POKE_COMMIT_BYTE),
    ensures
        d.dispatched(faults).0.served() == d.served(),
        d.group == G_MODIFY && d.cmd == SLOT_POKE && d.args[4] == d.active_slot ==> !d.dispatched(
            faults,
        ).1,
        d.group == G_MODIFY && d.cmd == SLOT_POKE_ALL_BYTE && d.args[1] == d.active_slot
            ==> !d.dispatched(faults).1,
        d.group == G_NV && d.cmd == NV_POKE_BEGIN && d.args[0] == d.active_slot ==> !d.dispatched(
            faults,
        ).1,
        d.group == G_NV && d.cmd == NV_POKE_COMMIT_BYTE && d.args[3] == d.active_slot
            ==> !d.dispatched(faults).1,
{
}

/// The read group and the NV group write nowhere in the slots but inside the
/// back-channel region, its header and its data area.
pub proof fn replies_stay_in_region(d: Device, faults: Faults)
    requires
        d.sound(),
        d.group == G_READ || d.group == G_NV,
    ensures
        ({
            let after = d.ran(faults);
            &&& after.active_slot == d.active_slot
            &&& forall|s: int|
                0 <= s < NRAM && s != d.active_slot ==> #[trigger] after.ram[s] == d.ram[s]
            &&& forall|i: int|
                0 <= i < d.size && !(d.region_off <= i < d.region_off + HDR_SIZE + d.data_size)
                    ==> #[trigger] after.served()[i] == d.served()[i]
        }),
{
}

} // verus!
