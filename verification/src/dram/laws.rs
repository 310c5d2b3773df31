//! What holds of the decay model over whole frames.

use super::{Decay, DramDecay, DramEnv, DramState, TOTAL_ROWS, VIDEO_ROWS};
use crate::settings;
use vstd::prelude::*;

verus! {

/// Whether a RAM mask keeps every address bit that selects a row (A1..A9 and
/// A19).
pub open spec fn keeps_rows(ram_mask: usize) -> bool {
    ram_mask & 0x8_03FE == 0x8_03FE
}

/// The address picked for a row belongs to that row, on a board whose mask keeps
/// the row bits.
pub proof fn address_lies_in_row(r: int, x: u64, ram_mask: usize)
    requires
        0 <= r < TOTAL_ROWS,
    ensures
        super::row(super::address(r, x)) == r,
        keeps_rows(ram_mask) ==> super::row(
            ((super::address(r, x) as usize) & ram_mask) as int,
        ) == r,
{
    let a = super::address(r, x);
    let c0 = x as int % 2;
    let c1 = (x as int / 2) % 512;
    let c2 = (x as int / 0x400) % 4;
    let lo = r % 512;
    let hi = r / 512;
    assert(a == c0 + 2 * lo + 0x400 * c1 + 0x8_0000 * hi + 0x10_0000 * c2);
    assert(a / 2 == lo + 512 * c1 + 0x4_0000 * hi + 0x8_0000 * c2);
    assert((a / 2) % 512 == lo);
    assert(a / 0x8_0000 == hi + 2 * c2);
    assert((a / 0x8_0000) % 2 == hi);
    if keeps_rows(ram_mask) {
        let u = a as usize;
        assert(((u & ram_mask) / 2) % 512 == (u / 2) % 512 && ((u & ram_mask) / 0x8_0000) % 2 == (u
            / 0x8_0000) % 2) by (bit_vector)
            requires
                ram_mask & 0x8_03FE == 0x8_03FE,
        ;
    }
}

/// On a 256K-chip board the video scan refreshes every row, and nothing ever
/// decays.
pub proof fn small_board_never_decays(s: DramState, ram: Seq<u8>, ram_mask: usize)
    requires
        s.wf(),
        !s.ra9_is_row_bit,
    ensures
        s.frame_decay(ram, ram_mask).ram == ram,
        s.frame_decay(ram, ram_mask).dirty.len() == 0,
        s.after_vblank(ram, ram_mask) == s.scanned(),
{
    fresh_rows_keep(s.scanned(), ram, ram_mask, TOTAL_ROWS as int);
}

proof fn fresh_rows_keep(s: DramState, ram: Seq<u8>, ram_mask: usize, n: int)
    requires
        0 <= n,
        forall|r: int| 0 <= r < n ==> !#[trigger] s.stale(r),
    ensures
        s.decayed(ram, ram_mask, n) == (Decay {
            rng: s.rng,
            ram,
            corrupted: s.corrupted,
            dirty: Seq::empty(),
        }),
    decreases n,
{
    if n > 0 {
        fresh_rows_keep(s, ram, ram_mask, n - 1);
        assert(!s.stale(n - 1));
    }
}

/// A cell only decays in a row that has gone without refresh for the retention
/// time, and that is never a row that the video scan sweeps.
pub proof fn only_stale_rows_decay(s: DramState, ram: Seq<u8>, ram_mask: usize, k: int)
    requires
        s.wf(),
        keeps_rows(ram_mask),
        0 <= k < s.frame_decay(ram, ram_mask).dirty.len(),
    ensures
        ({
            let r = super::row(s.frame_decay(ram, ram_mask).dirty[k] as int);
            &&& VIDEO_ROWS <= r < TOTAL_ROWS
            &&& s.ra9_is_row_bit
            &&& s.scanned().stale(r)
        }),
{
    dirty_rows_are_stale(s.scanned(), ram, ram_mask, TOTAL_ROWS as int, k);
}

proof fn dirty_rows_are_stale(s: DramState, ram: Seq<u8>, ram_mask: usize, n: int, k: int)
    requires
        0 <= n <= TOTAL_ROWS,
        keeps_rows(ram_mask),
        0 <= k < s.decayed(ram, ram_mask, n).dirty.len(),
    ensures
        ({
            let r = super::row(s.decayed(ram, ram_mask, n).dirty[k] as int);
            0 <= r < n && s.stale(r)
        }),
    decreases n,
{
    if n > 0 {
        let d = s.decayed(ram, ram_mask, n - 1);
        let s2 = super::next_state(super::next_state(d.rng));
        address_lies_in_row(n - 1, super::drawn(s2), ram_mask);
        if k < d.dirty.len() {
            dirty_rows_are_stale(s, ram, ram_mask, n - 1, k);
        }
    }
}

/// Decay goes one way: bits only drift from 0 to 1. It changes the bytes that
/// are reported and no others, and every report is counted. On a board whose
/// mask keeps the row bits, no two reports are of one row, and they come in the
/// order of the rows.
pub proof fn decay_only_sets_bits(s: DramState, ram: Seq<u8>, ram_mask: usize)
    ensures
        ({
            let d = s.frame_decay(ram, ram_mask);
            &&& d.ram.len() == ram.len()
            &&& d.corrupted == s.corrupted + d.dirty.len()
            &&& forall|i: int| 0 <= i < ram.len() ==> ram[i] & #[trigger] d.ram[i] == ram[i]
            &&& forall|i: int|
                0 <= i < ram.len() && !d.dirty.contains(i as usize) ==> #[trigger] d.ram[i]
                    == ram[i]
            &&& forall|k: int|
                0 <= k < d.dirty.len() ==> #[trigger] d.dirty[k] < ram.len()
                    && d.ram[d.dirty[k] as int] != ram[d.dirty[k] as int]
            &&& keeps_rows(ram_mask) ==> forall|j: int, k: int|
                0 <= j < k < d.dirty.len() ==> super::row(#[trigger] d.dirty[j] as int)
                    < super::row(#[trigger] d.dirty[k] as int)
        }),
{
    rows_only_set_bits(s.scanned(), ram, ram_mask, TOTAL_ROWS as int);
    if keeps_rows(ram_mask) {
        dirty_rows_ascend(s.scanned(), ram, ram_mask, TOTAL_ROWS as int);
    }
}

proof fn dirty_rows_ascend(s: DramState, ram: Seq<u8>, ram_mask: usize, n: int)
    requires
        0 <= n <= TOTAL_ROWS,
        keeps_rows(ram_mask),
    ensures
        ({
            let d = s.decayed(ram, ram_mask, n);
            forall|j: int, k: int|
                0 <= j < k < d.dirty.len() ==> super::row(#[trigger] d.dirty[j] as int)
                    < super::row(#[trigger] d.dirty[k] as int)
        }),
    decreases n,
{
    if n > 0 {
        dirty_rows_ascend(s, ram, ram_mask, n - 1);
        let d = s.decayed(ram, ram_mask, n - 1);
        let e = s.decayed(ram, ram_mask, n);
        assert forall|j: int, k: int| 0 <= j < k < e.dirty.len() implies super::row(
            #[trigger] e.dirty[j] as int,
        ) < super::row(#[trigger] e.dirty[k] as int) by {
            assert(e.dirty[j] == d.dirty[j]);
            if k < d.dirty.len() {
                assert(e.dirty[k] == d.dirty[k]);
            } else {
                dirty_rows_are_stale(s, ram, ram_mask, n - 1, j);
                address_lies_in_row(
                    n - 1,
                    super::drawn(super::next_state(super::next_state(d.rng))),
                    ram_mask,
                );
            }
        }
    }
}

proof fn rows_only_set_bits(s: DramState, ram: Seq<u8>, ram_mask: usize, n: int)
    requires
        0 <= n,
    ensures
        ({
            let d = s.decayed(ram, ram_mask, n);
            &&& d.ram.len() == ram.len()
            &&& d.corrupted == s.corrupted + d.dirty.len()
            &&& forall|i: int| 0 <= i < ram.len() ==> ram[i] & #[trigger] d.ram[i] == ram[i]
            &&& forall|i: int|
                0 <= i < ram.len() && !d.dirty.contains(i as usize) ==> #[trigger] d.ram[i]
                    == ram[i]
            &&& forall|k: int|
                0 <= k < d.dirty.len() ==> #[trigger] d.dirty[k] < ram.len()
                    && d.ram[d.dirty[k] as int] != ram[d.dirty[k] as int]
        }),
    decreases n,
{
    if n <= 0 {
        assert forall|i: int| 0 <= i < ram.len() implies ram[i] & #[trigger] ram[i] == ram[i] by {
            let x = ram[i];
            assert(x & x == x) by (bit_vector);
        }
    } else {
        rows_only_set_bits(s, ram, ram_mask, n - 1);
        let d = s.decayed(ram, ram_mask, n - 1);
        let e = s.decayed(ram, ram_mask, n);
        if e.dirty.len() > d.dirty.len() {
            let idx = e.dirty.last();
            assert(e.dirty == d.dirty.push(idx));
            assert forall|i: int| 0 <= i < ram.len() implies ram[i] & #[trigger] e.ram[i]
                == ram[i] by {
                let x = ram[i];
                let y = d.ram[i];
                let b = super::picked_bit(
                    super::drawn(super::next_state(super::next_state(super::next_state(d.rng)))),
                );
                assert(x & (y | b) == x) by (bit_vector)
                    requires
                        x & y == x,
                ;
            }
            assert forall|k: int| 0 <= k < e.dirty.len() implies #[trigger] e.dirty[k] < ram.len()
                && e.ram[e.dirty[k] as int] != ram[e.dirty[k] as int] by {
                let x = ram[e.dirty[k] as int];
                let y = d.ram[e.dirty[k] as int];
                let p = super::drawn(
                    super::next_state(super::next_state(super::next_state(d.rng))),
                ) % 8;
                let b = 1u8 << (p as u8);
                assert((p as u8) < 8);
                if k < d.dirty.len() {
                    assert(e.dirty[k] == d.dirty[k]);
                    assert((y | b) != x) by (bit_vector)
                        requires
                            x & y == x,
                            y != x,
                    ;
                } else {
                    byte_gains_bit(x, y, p as u8);
                }
            }
            assert forall|i: int|
                0 <= i < ram.len() && !e.dirty.contains(i as usize) implies #[trigger] e.ram[i]
                == ram[i] by {
                assert(e.dirty[e.dirty.len() - 1] == idx);
                if d.dirty.contains(i as usize) {
                    let k = choose|k: int| 0 <= k < d.dirty.len() && d.dirty[k] == i as usize;
                    assert(e.dirty[k] == i as usize);
                }
            }
        }
    }
}

proof fn byte_gains_bit(x: u8, y: u8, k: u8)
    requires
        k < 8,
        x & y == x,
        y & (1u8 << k) == 0,
    ensures
        (y | (1u8 << k)) != x,
{
    assert((y | (1u8 << k)) != x) by (bit_vector)
        requires
            k < 8,
            x & y == x,
            y & (1u8 << k) == 0,
    ;
}

/// The number of bits set in a byte.
pub open spec fn ones(b: u8) -> int {
    (b & 1) + ((b >> 1) & 1) + ((b >> 2) & 1) + ((b >> 3) & 1) + ((b >> 4) & 1) + ((b >> 5) & 1) + ((
    b >> 6) & 1) + ((b >> 7) & 1)
}

/// The number of bits set in some bytes.
pub open spec fn set_bits(ram: Seq<u8>) -> int
    decreases ram.len(),
{
    if ram.len() == 0 {
        0
    } else {
        set_bits(ram.drop_last()) + ones(ram.last())
    }
}

/// Every report stands for exactly one bit: a frame sets as many bits as it
/// reports bytes, and counts them.
pub proof fn every_flip_is_counted(s: DramState, ram: Seq<u8>, ram_mask: usize)
    ensures
        ({
            let d = s.frame_decay(ram, ram_mask);
            &&& set_bits(d.ram) == set_bits(ram) + d.dirty.len()
            &&& d.corrupted - s.corrupted == set_bits(d.ram) - set_bits(ram)
        }),
{
    rows_flip_one_each(s.scanned(), ram, ram_mask, TOTAL_ROWS as int);
}

proof fn rows_flip_one_each(s: DramState, ram: Seq<u8>, ram_mask: usize, n: int)
    requires
        0 <= n,
    ensures
        ({
            let d = s.decayed(ram, ram_mask, n);
            &&& d.corrupted == s.corrupted + d.dirty.len()
            &&& set_bits(d.ram) == set_bits(ram) + d.dirty.len()
        }),
    decreases n,
{
    if n > 0 {
        rows_flip_one_each(s, ram, ram_mask, n - 1);
        let d = s.decayed(ram, ram_mask, n - 1);
        let e = s.decayed(ram, ram_mask, n);
        if e.dirty.len() > d.dirty.len() {
            let idx = e.dirty.last();
            let r = super::drawn(
                super::next_state(super::next_state(super::next_state(d.rng))),
            );
            let b = super::picked_bit(r);
            one_more_bit(d.ram[idx as int], (r % 8) as u8);
            set_bits_updated(d.ram, idx as int, d.ram[idx as int] | b);
        }
    }
}

proof fn one_more_bit(x: u8, k: u8)
    requires
        k < 8,
        x & (1u8 << k) == 0,
    ensures
        ones(x | (1u8 << k)) == ones(x) + 1,
{
    let y = x | (1u8 << k);
    assert((y & 1) + ((y >> 1) & 1) + ((y >> 2) & 1) + ((y >> 3) & 1) + ((y >> 4) & 1) + ((y >> 5)
        & 1) + ((y >> 6) & 1) + ((y >> 7) & 1) == (x & 1) + ((x >> 1) & 1) + ((x >> 2) & 1) + ((x
        >> 3) & 1) + ((x >> 4) & 1) + ((x >> 5) & 1) + ((x >> 6) & 1) + ((x >> 7) & 1) + 1)
        by (bit_vector)
        requires
            k < 8,
            x & (1u8 << k) == 0,
            y == x | (1u8 << k),
    ;
}

proof fn set_bits_updated(ram: Seq<u8>, i: int, b: u8)
    requires
        0 <= i < ram.len(),
    ensures
        set_bits(ram.update(i, b)) == set_bits(ram) - ones(ram[i]) + ones(b),
    decreases ram.len(),
{
    let after = ram.update(i, b);
    if i == ram.len() - 1 {
        assert(after.drop_last() =~= ram.drop_last());
    } else {
        set_bits_updated(ram.drop_last(), i, b);
        assert(after.drop_last() =~= ram.drop_last().update(i, b));
    }
}

/// What happens to a board, one thing after the other.
pub enum Step {
    /// The CPU accesses an address.
    Access(usize),
    /// A byte of the memory is written.
    Store(int, u8),
    /// A frame ends.
    Frame,
}

/// A board after a step: the model, the memory, and the bytes that the step
/// reported as corrupted.
#[verifier::ext_equal]
pub struct Moment {
    pub state: DramState,
    pub ram: Seq<u8>,
    pub dirty: Seq<usize>,
}

/// Whether `step` leads from one moment to the next: an access is recorded by
/// `touch`, the end of a frame is handed to `vblank`.
pub open spec fn leads(m: Moment, step: Step, next: Moment, ram_mask: usize) -> bool {
    match step {
        Step::Access(addr) => {
            &&& next.state == m.state.touched(addr as int)
            &&& next.ram == m.ram
            &&& next.dirty == Seq::<usize>::empty()
        },
        Step::Store(at, b) => {
            &&& next.state == m.state
            &&& next.ram == m.ram.update(at, b)
            &&& next.dirty == Seq::<usize>::empty()
        },
        Step::Frame => {
            &&& next.state == m.state.after_vblank(m.ram, ram_mask)
            &&& next.ram == m.state.frame_decay(m.ram, ram_mask).ram
            &&& next.dirty == m.state.frame_decay(m.ram, ram_mask).dirty
        },
    }
}

/// Whether these are the moments that the steps lead through, each under the RAM
/// mask of its own.
pub open spec fn is_run(run: Seq<Moment>, steps: Seq<Step>, masks: Seq<usize>) -> bool {
    &&& run.len() == steps.len() + 1
    &&& masks.len() == steps.len()
    &&& forall|i: int|
        0 <= i < steps.len() ==> leads(run[i], #[trigger] steps[i], run[i + 1], masks[i])
}

/// How many of the first `n` steps are frames.
pub open spec fn frames(steps: Seq<Step>, n: int) -> int
    decreases n,
{
    if n <= 0 {
        0
    } else if steps[n - 1] is Frame {
        frames(steps, n - 1) + 1
    } else {
        frames(steps, n - 1)
    }
}

/// Decay is repeatable: two boards that start alike, and to which the same
/// happens, corrupt the same bytes at the same times and are alike throughout.
pub proof fn equal_runs_stay_equal(
    a: Seq<Moment>,
    b: Seq<Moment>,
    steps: Seq<Step>,
    masks: Seq<usize>,
)
    requires
        is_run(a, steps, masks),
        is_run(b, steps, masks),
        a[0] == b[0],
    ensures
        a == b,
{
    assert forall|i: int| 0 <= i < a.len() implies a[i] == b[i] by {
        moments_are_equal(a, b, steps, masks, i);
    }
    assert(a =~= b);
}

proof fn moments_are_equal(
    a: Seq<Moment>,
    b: Seq<Moment>,
    steps: Seq<Step>,
    masks: Seq<usize>,
    i: int,
)
    requires
        is_run(a, steps, masks),
        is_run(b, steps, masks),
        a[0] == b[0],
        0 <= i < a.len(),
    ensures
        a[i] == b[i],
    decreases i,
{
    if i > 0 {
        moments_are_equal(a, b, steps, masks, i - 1);
        let step = steps[i - 1];
        assert(leads(a[i - 1], step, a[i - 1 + 1], masks[i - 1]));
        assert(leads(b[i - 1], step, b[i - 1 + 1], masks[i - 1]));
        assert(a[i] =~= b[i]);
    }
}

/// An access keeps its row for the retention time: as long as fewer frames than
/// that have ended since, none of them has reported or changed a byte of that
/// row, whatever else was accessed or written in between.
pub proof fn touched_row_is_kept(
    run: Seq<Moment>,
    steps: Seq<Step>,
    addr: usize,
    masks: Seq<usize>,
    i: int,
)
    requires
        is_run(run, steps, masks),
        run[0].state.wf(),
        steps.len() > 0,
        steps[0] == Step::Access(addr),
        0 < i < run.len(),
        steps[i - 1] is Frame ==> keeps_rows(masks[i - 1]),
        run[i - 1].ram.len() <= usize::MAX,
        frames(steps, i) < run[0].state.retention_frames,
    ensures
        forall|k: int|
            0 <= k < run[i].dirty.len() ==> super::row(#[trigger] run[i].dirty[k] as int)
                != super::row(addr as int),
        steps[i - 1] is Frame ==> forall|j: int|
            0 <= j < run[i].ram.len() && super::row(j) == super::row(addr as int)
                ==> #[trigger] run[i].ram[j] == run[i - 1].ram[j],
{
    assert(leads(run[i - 1], steps[i - 1], run[i - 1 + 1], masks[i - 1]));
    if steps[i - 1] is Frame {
        let r = super::row(addr as int);
        let s = run[i - 1].state;
        let ram = run[i - 1].ram;
        let dirty = run[i].dirty;
        row_ages(run, steps, addr, masks, i - 1);
        scan_ages(s, r);
        assert(!s.scanned().stale(r));
        assert forall|k: int| 0 <= k < dirty.len() implies super::row(
            #[trigger] dirty[k] as int,
        ) != r by {
            only_stale_rows_decay(s, ram, masks[i - 1], k);
        }
        decay_only_sets_bits(s, ram, masks[i - 1]);
        assert forall|j: int| 0 <= j < ram.len() && super::row(j) == r implies #[trigger] run[i].ram[j]
            == ram[j] by {
            if dirty.contains(j as usize) {
                let k = choose|k: int| 0 <= k < dirty.len() && dirty[k] == j as usize;
                assert(super::row(dirty[k] as int) == r);
            }
        }
    }
}

/// The video scan ages a row by one, or refreshes it.
proof fn scan_ages(s: DramState, r: int)
    requires
        s.wf(),
        0 <= r < TOTAL_ROWS,
        s.age(r) < u32::MAX,
    ensures
        s.scanned().age(r) == (if s.swept(r) {
            0
        } else {
            s.age(r) + 1
        }),
{
    let f = s.frame as int;
    let l = s.last_refresh[r] as int;
    assert(s.scanned().frame == (f + 1) % 0x1_0000_0000);
    if !s.swept(r) {
        assert(s.scanned().last_refresh[r] == l);
    }
}

/// Decay leaves the times and the settings alone.
proof fn decay_keeps_times(s: DramState, ram: Seq<u8>, ram_mask: usize)
    ensures
        ({
            let after = s.after_vblank(ram, ram_mask);
            &&& after.frame == s.scanned().frame
            &&& after.last_refresh == s.scanned().last_refresh
            &&& after.retention_frames == s.retention_frames
            &&& after.decay_odds == s.decay_odds
            &&& after.ra9_is_row_bit == s.ra9_is_row_bit
        }),
{
}

/// After an access its row ages by at most one per frame.
proof fn row_ages(run: Seq<Moment>, steps: Seq<Step>, addr: usize, masks: Seq<usize>, i: int)
    requires
        is_run(run, steps, masks),
        run[0].state.wf(),
        steps.len() > 0,
        steps[0] == Step::Access(addr),
        0 < i < run.len(),
        frames(steps, i) < u32::MAX,
    ensures
        run[i].state.wf(),
        run[i].state.retention_frames == run[0].state.retention_frames,
        0 <= run[i].state.age(super::row(addr as int)) <= frames(steps, i),
    decreases i,
{
    let r = super::row(addr as int);
    let m = run[i - 1];
    assert(leads(m, steps[i - 1], run[i - 1 + 1], masks[i - 1]));
    assert(0 <= r < TOTAL_ROWS);
    if i == 1 {
        assert(frames(steps, 0) == 0);
        assert(run[1].state.age(r) == 0);
    } else {
        row_ages(run, steps, addr, masks, i - 1);
        match steps[i - 1] {
            Step::Access(other) => {
                let q = super::row(other as int);
                assert(0 <= q < TOTAL_ROWS);
            },
            Step::Store(_, _) => {},
            Step::Frame => {
                scan_ages(m.state, r);
                decay_keeps_times(m.state, m.ram, masks[i - 1]);
                assert(run[i].state.age(r) == m.state.scanned().age(r));
            },
        }
    }
}

/// Two addresses lie in one row exactly if they agree in A1..A9 and A19, and the
/// row is the number that those bits make.
pub proof fn rows_are_selected(a: usize, b: usize)
    ensures
        super::row(a as int) == super::row(b as int) <==> a & 0x8_03FE == b & 0x8_03FE,
        super::row(a as int) == ((a & 0x3FE) >> 1) + ((a & 0x8_0000) >> 10),
        0 <= super::row(a as int) < 1024,
{
    assert((a / 2) % 512 + 512 * ((a / 0x8_0000) % 2) == ((a & 0x3FE) >> 1) + ((a & 0x8_0000)
        >> 10)) by (bit_vector);
    assert((b / 2) % 512 + 512 * ((b / 0x8_0000) % 2) == ((b & 0x3FE) >> 1) + ((b & 0x8_0000)
        >> 10)) by (bit_vector);
    assert(((a & 0x3FE) >> 1) + ((a & 0x8_0000) >> 10) == ((b & 0x3FE) >> 1) + ((b & 0x8_0000)
        >> 10) <==> a & 0x8_03FE == b & 0x8_03FE) by (bit_vector);
}

/// An access refreshes the row that its address selects, and no other, and changes
/// nothing else.
pub proof fn access_refreshes_row(s: DramState, addr: usize, r: int)
    requires
        s.wf(),
        0 <= r < 1024,
    ensures
        ({
            let after = s.touched(addr as int);
            let mine = (addr as int / 2) % 512 + 512 * ((addr as int / 0x8_0000) % 2);
            &&& after.last_refresh.len() == 1024
            &&& r == mine ==> after.last_refresh[r] == s.frame
            &&& r != mine ==> after.last_refresh[r] == s.last_refresh[r]
            &&& after == (DramState { last_refresh: after.last_refresh, ..s })
        }),
{
}

/// A frame is counted, modulo 2^32. Its video scan refreshes the rows of the lower
/// half, and on a 256K-chip board all of them. Neither the scan nor the decay
/// changes the settings.
pub proof fn frame_is_scanned(s: DramState, ram: Seq<u8>, ram_mask: usize, r: int)
    requires
        s.wf(),
        0 <= r < 1024,
    ensures
        ({
            let after = s.after_vblank(ram, ram_mask);
            let decay = s.frame_decay(ram, ram_mask);
            &&& after.frame as int == (s.frame + 1) % 0x1_0000_0000
            &&& after.last_refresh.len() == 1024
            &&& r < 512 || !s.ra9_is_row_bit ==> after.last_refresh[r] == after.frame
            &&& r >= 512 && s.ra9_is_row_bit ==> after.last_refresh[r] == s.last_refresh[r]
            &&& after.retention_frames == s.retention_frames
            &&& after.decay_odds == s.decay_odds
            &&& after.ra9_is_row_bit == s.ra9_is_row_bit
            &&& after.rng == decay.rng
            &&& after.corrupted == decay.corrupted
            &&& s.scanned() == (DramState { rng: s.rng, corrupted: s.corrupted, ..after })
            &&& decay == s.scanned().decayed(ram, ram_mask, 1024)
            &&& s.scanned().decayed(ram, ram_mask, 0) == (Decay {
                rng: s.rng,
                ram,
                corrupted: s.corrupted,
                dirty: Seq::empty(),
            })
        }),
{
}

/// A row that nothing refreshes ages by one with every frame: its time stays while
/// the frames go by.
pub proof fn untouched_row_ages(
    run: Seq<Moment>,
    steps: Seq<Step>,
    masks: Seq<usize>,
    r: int,
    i: int,
)
    requires
        is_run(run, steps, masks),
        run[0].state.wf(),
        run[0].state.ra9_is_row_bit,
        512 <= r < 1024,
        forall|k: int|
            0 <= k < steps.len() ==> match #[trigger] steps[k] {
                Step::Access(a) => super::row(a as int) != r,
                _ => true,
            },
        0 <= i < run.len(),
    ensures
        run[i].state.wf(),
        run[i].state.ra9_is_row_bit,
        run[i].state.retention_frames == run[0].state.retention_frames,
        run[i].state.last_refresh[r] == run[0].state.last_refresh[r],
        run[i].state.frame as int == (run[0].state.frame + frames(steps, i)) % 0x1_0000_0000,
    decreases i,
{
    if i > 0 {
        untouched_row_ages(run, steps, masks, r, i - 1);
        assert(leads(run[i - 1], steps[i - 1], run[i - 1 + 1], masks[i - 1]));
        step_keeps_row(run[i - 1], steps[i - 1], run[i], masks[i - 1], r);
        if steps[i - 1] is Frame {
            frames_wrap(run[0].state.frame + frames(steps, i - 1));
        }
    }
}

proof fn step_keeps_row(m: Moment, step: Step, next: Moment, ram_mask: usize, r: int)
    requires
        leads(m, step, next, ram_mask),
        m.state.wf(),
        m.state.ra9_is_row_bit,
        512 <= r < 1024,
        step matches Step::Access(a) ==> super::row(a as int) != r,
    ensures
        next.state.wf(),
        next.state.ra9_is_row_bit,
        next.state.retention_frames == m.state.retention_frames,
        next.state.last_refresh[r] == m.state.last_refresh[r],
        next.state.frame as int == (if step is Frame {
            (m.state.frame + 1) % 0x1_0000_0000
        } else {
            m.state.frame as int
        }),
{
    match step {
        Step::Access(a) => {
            access_refreshes_row(m.state, a, r);
        },
        Step::Store(_, _) => {},
        Step::Frame => {
            frame_is_scanned(m.state, m.ram, ram_mask, r);
        },
    }
}

proof fn frames_wrap(n: int)
    ensures
        (n % 0x1_0000_0000 + 1) % 0x1_0000_0000 == (n + 1) % 0x1_0000_0000,
        0 <= n < 0x1_0000_0000 ==> n % 0x1_0000_0000 == n,
{
}

/// A row that was refreshed less than the retention time ago is passed over in a
/// frame, and draws nothing.
pub proof fn fresh_row_is_passed_over(s: DramState, ram: Seq<u8>, ram_mask: usize, r: int)
    requires
        0 <= r < 1024,
        (s.frame - s.last_refresh[r]) % 0x1_0000_0000 < s.retention_frames,
    ensures
        s.decayed(ram, ram_mask, r + 1) == s.decayed(ram, ram_mask, r),
{
}

/// A row is passed over only while it is fresh: once it has gone without refresh for
/// the retention time, and from then on, it draws at least once in every frame.
pub proof fn stale_row_draws(s: DramState, d: Decay, ram_mask: usize, r: int)
    requires
        (s.frame - s.last_refresh[r]) % 0x1_0000_0000 >= s.retention_frames,
    ensures
        ({
            let e = s.row_decayed(d, r, ram_mask);
            let s1 = super::next_state(d.rng);
            let s2 = super::next_state(s1);
            e.rng == s1 || e.rng == s2 || e.rng == super::next_state(s2)
        }),
{
}

/// A row that has gone without refresh for the retention time or longer, however
/// long, draws once, and is spared unless the odds divide what is drawn; then draws
/// a cell, and is spared if that is not fitted.
pub proof fn stale_row_may_be_spared(s: DramState, ram: Seq<u8>, ram_mask: usize, r: int)
    requires
        0 <= r < 1024,
        (s.frame - s.last_refresh[r]) % 0x1_0000_0000 >= s.retention_frames,
        s.decay_odds > 0,
    ensures
        ({
            let d = s.decayed(ram, ram_mask, r);
            let e = s.decayed(ram, ram_mask, r + 1);
            let s1 = super::next_state(d.rng);
            let s2 = super::next_state(s1);
            let hit = super::drawn(s1) % (s.decay_odds as u64) == 0;
            let idx = ((super::address(r, super::drawn(s2)) as usize) & ram_mask) as int;
            &&& !hit ==> e == (Decay { rng: s1, ..d })
            &&& hit && idx >= d.ram.len() ==> e == (Decay { rng: s2, ..d })
        }),
{
}

/// A stale row that is not spared draws a bit of the cell, which is 1 from then on.
/// Where it was 0 before, it is counted and the cell is reported. No other cell
/// changes.
pub proof fn stale_row_may_be_hit(s: DramState, ram: Seq<u8>, ram_mask: usize, r: int)
    requires
        0 <= r < 1024,
        (s.frame - s.last_refresh[r]) % 0x1_0000_0000 >= s.retention_frames,
        s.decay_odds > 0,
        ({
            let d = s.decayed(ram, ram_mask, r);
            let s1 = super::next_state(d.rng);
            let s2 = super::next_state(s1);
            let idx = ((super::address(r, super::drawn(s2)) as usize) & ram_mask) as int;
            super::drawn(s1) % (s.decay_odds as u64) == 0 && idx < d.ram.len()
        }),
    ensures
        ({
            let d = s.decayed(ram, ram_mask, r);
            let e = s.decayed(ram, ram_mask, r + 1);
            let s2 = super::next_state(super::next_state(d.rng));
            let s3 = super::next_state(s2);
            let idx = ((super::address(r, super::drawn(s2)) as usize) & ram_mask) as int;
            let bit = 1u8 << ((super::drawn(s3) % 8) as u8);
            &&& e.rng == s3
            &&& e.ram.len() == d.ram.len()
            &&& e.ram[idx] & bit == bit
            &&& e.ram[idx] | bit == d.ram[idx] | bit
            &&& forall|j: int| 0 <= j < d.ram.len() && j != idx ==> #[trigger] e.ram[j] == d.ram[j]
            &&& d.ram[idx] & bit == 0 ==> e.corrupted == d.corrupted + 1 && e.dirty == d.dirty.push(
                idx as usize,
            )
            &&& d.ram[idx] & bit != 0 ==> e.corrupted == d.corrupted && e.dirty == d.dirty && e.ram
                == d.ram
        }),
{
    let d = s.decayed(ram, ram_mask, r);
    let s2 = super::next_state(super::next_state(d.rng));
    let idx = (super::address(r, super::drawn(s2)) as usize) & ram_mask;
    let k = (super::drawn(super::next_state(s2)) % 8) as u8;
    let x = d.ram[idx as int];
    bit_is_set(x, k);
}

proof fn bit_is_set(x: u8, k: u8)
    requires
        k < 8,
    ensures
        (x | (1u8 << k)) & (1u8 << k) == (1u8 << k),
        (x | (1u8 << k)) | (1u8 << k) == x | (1u8 << k),
        x & (1u8 << k) != 0 ==> x & (1u8 << k) == (1u8 << k),
{
    assert((x | (1u8 << k)) & (1u8 << k) == (1u8 << k) && (x | (1u8 << k)) | (1u8 << k) == x | (1u8
        << k)) by (bit_vector);
    assert(x & (1u8 << k) != 0 ==> x & (1u8 << k) == (1u8 << k)) by (bit_vector)
        requires
            k < 8,
    ;
}

/// A row that is stale does decay: if the odds divide what it draws first, the cell
/// it draws is fitted and the bit it draws is 0 there, then after the frame that
/// bit is 1 and the cell is among those reported. What the rows before it have done
/// to that cell is nothing, on a board whose mask keeps the row bits.
pub proof fn stale_row_decays(s: DramState, ram: Seq<u8>, ram_mask: usize, r: int)
    requires
        s.wf(),
        s.ra9_is_row_bit,
        512 <= r < 1024,
        (s.frame + 1 - s.last_refresh[r]) % 0x1_0000_0000 >= s.retention_frames,
        ({
            let d = s.scanned().decayed(ram, ram_mask, r);
            let s1 = super::next_state(d.rng);
            let s2 = super::next_state(s1);
            let s3 = super::next_state(s2);
            let idx = ((super::address(r, super::drawn(s2)) as usize) & ram_mask) as int;
            &&& super::drawn(s1) % (s.decay_odds as u64) == 0
            &&& idx < ram.len()
            &&& d.ram[idx] & (1u8 << ((super::drawn(s3) % 8) as u8)) == 0
        }),
    ensures
        ({
            let d = s.scanned().decayed(ram, ram_mask, r);
            let s2 = super::next_state(super::next_state(d.rng));
            let s3 = super::next_state(s2);
            let idx = (super::address(r, super::drawn(s2)) as usize) & ram_mask;
            let bit = 1u8 << ((super::drawn(s3) % 8) as u8);
            let after = s.frame_decay(ram, ram_mask);
            &&& after.ram[idx as int] & bit == bit
            &&& after.dirty.contains(idx)
            &&& after.corrupted > s.corrupted
            &&& keeps_rows(ram_mask) ==> d.ram[idx as int] == ram[idx as int]
        }),
{
    let t = s.scanned();
    let d = t.decayed(ram, ram_mask, r);
    let s2 = super::next_state(super::next_state(d.rng));
    let idx = (super::address(r, super::drawn(s2)) as usize) & ram_mask;
    let bit = 1u8 << ((super::drawn(super::next_state(s2)) % 8) as u8);
    frame_is_scanned(s, ram, ram_mask, r);
    assert(t.wf());
    frame_of_scan(s.frame as int, s.last_refresh[r] as int);
    lemma_rows_keep_length(t, ram, ram_mask, r);
    stale_row_may_be_hit(t, ram, ram_mask, r);
    hit_lasts(t, ram, ram_mask, r, idx, bit);
    if keeps_rows(ram_mask) {
        rows_before_spare(t, ram, ram_mask, r, super::drawn(s2));
    }
}

proof fn frame_of_scan(f: int, l: int)
    ensures
        ((f + 1) % 0x1_0000_0000 - l) % 0x1_0000_0000 == (f + 1 - l) % 0x1_0000_0000,
{
}

proof fn lemma_rows_keep_length(s: DramState, ram: Seq<u8>, ram_mask: usize, n: int)
    requires
        0 <= n,
    ensures
        s.decayed(ram, ram_mask, n).ram.len() == ram.len(),
{
    rows_only_set_bits(s, ram, ram_mask, n);
}

/// A cell that one row has reported and set stays so to the end of the frame.
proof fn hit_lasts(s: DramState, ram: Seq<u8>, ram_mask: usize, r: int, idx: usize, bit: u8)
    requires
        0 <= r < 1024,
        idx < ram.len(),
        ({
            let e = s.decayed(ram, ram_mask, r + 1);
            &&& e.dirty.len() > 0
            &&& e.dirty.last() == idx
            &&& e.ram[idx as int] & bit == bit
        }),
    ensures
        ({
            let f = s.decayed(ram, ram_mask, 1024);
            &&& f.ram[idx as int] & bit == bit
            &&& f.dirty.contains(idx)
            &&& f.corrupted > s.corrupted
        }),
{
    let e = s.decayed(ram, ram_mask, r + 1);
    let f = s.decayed(ram, ram_mask, 1024);
    rows_add_up(s, ram, ram_mask, r + 1, 1024);
    rows_only_set_bits(s, ram, ram_mask, 1024);
    assert(f.dirty[e.dirty.len() - 1] == idx);
    let x = e.ram[idx as int];
    let y = f.ram[idx as int];
    assert(y & bit == bit) by (bit_vector)
        requires
            x & y == x,
            x & bit == bit,
    ;
}

/// The rows before a row leave its cells as they were.
proof fn rows_before_spare(s: DramState, ram: Seq<u8>, ram_mask: usize, r: int, x: u64)
    requires
        0 <= r < 1024,
        keeps_rows(ram_mask),
        (super::address(r, x) as usize) & ram_mask < ram.len(),
    ensures
        ({
            let idx = (super::address(r, x) as usize) & ram_mask;
            s.decayed(ram, ram_mask, r).ram[idx as int] == ram[idx as int]
        }),
{
    let d = s.decayed(ram, ram_mask, r);
    let idx = (super::address(r, x) as usize) & ram_mask;
    rows_only_set_bits(s, ram, ram_mask, r);
    if d.dirty.contains(idx) {
        let j = choose|j: int| 0 <= j < d.dirty.len() && d.dirty[j] == idx;
        dirty_rows_are_stale(s, ram, ram_mask, r, j);
        address_lies_in_row(r, x, ram_mask);
    }
}

/// What some rows have reported and set, the rows after them leave.
proof fn rows_add_up(s: DramState, ram: Seq<u8>, ram_mask: usize, n: int, m: int)
    requires
        0 <= n <= m,
    ensures
        ({
            let d = s.decayed(ram, ram_mask, n);
            let e = s.decayed(ram, ram_mask, m);
            &&& d.ram.len() == e.ram.len() == ram.len()
            &&& d.dirty.len() <= e.dirty.len()
            &&& forall|k: int| 0 <= k < d.dirty.len() ==> #[trigger] e.dirty[k] == d.dirty[k]
            &&& forall|i: int| 0 <= i < ram.len() ==> d.ram[i] & #[trigger] e.ram[i] == d.ram[i]
        }),
    decreases m - n,
{
    let d = s.decayed(ram, ram_mask, n);
    rows_only_set_bits(s, ram, ram_mask, n);
    if n == m {
        assert forall|i: int| 0 <= i < ram.len() implies d.ram[i] & #[trigger] d.ram[i]
            == d.ram[i] by {
            let x = d.ram[i];
            assert(x & x == x) by (bit_vector);
        }
    } else {
        rows_add_up(s, ram, ram_mask, n, m - 1);
        let mid = s.decayed(ram, ram_mask, m - 1);
        let e = s.decayed(ram, ram_mask, m);
        assert forall|i: int| 0 <= i < ram.len() implies d.ram[i] & #[trigger] e.ram[i]
            == d.ram[i] by {
            let x = d.ram[i];
            let y = mid.ram[i];
            let b = super::picked_bit(
                super::drawn(super::next_state(super::next_state(super::next_state(mid.rng)))),
            );
            assert(x & (y | b) == x) by (bit_vector)
                requires
                    x & y == x,
            ;
        }
        assert forall|k: int| 0 <= k < d.dirty.len() implies #[trigger] e.dirty[k]
            == d.dirty[k] by {
            assert(mid.dirty[k] == d.dirty[k]);
            assert(e.dirty[k] == mid.dirty[k]);
        }
    }
}

/// A cell of a row is drawn by twelve bits of a number, which are its column: every
/// cell of the row below 4 MB is drawn by one such column, and by no other.
pub proof fn every_cell_can_be_drawn(r: int, x: u64, a: int)
    requires
        0 <= r < 1024,
        0 <= a < 0x40_0000,
        super::row(a) == r,
    ensures
        0 <= super::address(r, x) < 0x40_0000,
        super::row(super::address(r, x)) == r,
        super::address(r, x) == a <==> x as int % 0x1000 == a % 2 + 2 * ((a / 0x400) % 512)
            + 0x400 * (a / 0x10_0000),
{
    let y = x as int;
    let hi = r / 512;
    column_digits(y);
    address_digits(a);
    assert((r / 512) % 2 == hi);
    assert(super::row(a) % 512 == (a / 2) % 512 && super::row(a) / 512 == (a / 0x8_0000) % 2);
    digits_agree(
        y % 2,
        (y / 2) % 512,
        (y / 0x400) % 4,
        r % 512,
        hi,
        a % 2,
        (a / 0x400) % 512,
        a / 0x10_0000,
    );
    address_lies_in_row(r, x, 0);
}

proof fn column_digits(y: int)
    requires
        0 <= y,
    ensures
        y % 0x1000 == y % 2 + 2 * ((y / 2) % 512) + 0x400 * ((y / 0x400) % 4),
{
}

proof fn address_digits(a: int)
    requires
        0 <= a < 0x40_0000,
    ensures
        a == a % 2 + 2 * ((a / 2) % 512) + 0x400 * ((a / 0x400) % 512) + 0x8_0000 * ((a / 0x8_0000)
            % 2) + 0x10_0000 * (a / 0x10_0000),
{
    assert(a / 2 == (a / 2) % 512 + 512 * (a / 0x400));
    assert(a / 0x400 == (a / 0x400) % 512 + 512 * (a / 0x8_0000));
    assert(a / 0x8_0000 == (a / 0x8_0000) % 2 + 2 * (a / 0x10_0000));
}

proof fn digits_agree(c0: int, c1: int, c2: int, lo: int, hi: int, a0: int, a1: int, a2: int)
    requires
        0 <= c0 < 2,
        0 <= c1 < 512,
        0 <= c2 < 4,
        0 <= lo < 512,
        0 <= hi < 2,
        0 <= a0 < 2,
        0 <= a1 < 512,
        0 <= a2 < 4,
    ensures
        c0 + 2 * lo + 0x400 * c1 + 0x8_0000 * hi + 0x10_0000 * c2 == a0 + 2 * lo + 0x400 * a1
            + 0x8_0000 * hi + 0x10_0000 * a2 <==> c0 + 2 * c1 + 0x400 * c2 == a0 + 2 * a1 + 0x400
            * a2,
        0 <= c0 + 2 * lo + 0x400 * c1 + 0x8_0000 * hi + 0x10_0000 * c2 < 0x40_0000,
{
}

/// The generator is xorshift64*: three shifts, each joined by exclusive or, and a
/// multiplication modulo 2^64. It is linear in the bits of its state, and never
/// falls to zero from another state.
pub proof fn generator_is_xorshift(x: u64, y: u64)
    ensures
        super::next_state(x ^ y) == super::next_state(x) ^ super::next_state(y),
        super::next_state(x) == 0 <==> x == 0,
        ({
            let a = x ^ (x / 0x1000);
            let b = a ^ (((a as u128 * 0x200_0000) % 0x1_0000_0000_0000_0000) as u64);
            super::next_state(x) == b ^ (b / 0x800_0000)
        }),
        super::drawn(x) as int == (x * 0x2545_F491_4F6C_DD1D) % 0x1_0000_0000_0000_0000,
{
    let a = x ^ (x / 0x1000);
    assert(x >> 12u64 == x / 0x1000) by (bit_vector);
    assert((a << 25u64) == (((a as u128 * 0x200_0000) % 0x1_0000_0000_0000_0000) as u64))
        by (bit_vector);
    let b = a ^ (a << 25u64);
    assert(b >> 27u64 == b / 0x800_0000) by (bit_vector);
    shifts_are_linear(x, y);
    shifts_lose_nothing(x);
}

proof fn shifts_are_linear(x: u64, y: u64)
    ensures
        super::next_state(x ^ y) == super::next_state(x) ^ super::next_state(y),
{
    let a = x ^ (x >> 12u64);
    let b = y ^ (y >> 12u64);
    let z = x ^ y;
    assert(z ^ (z >> 12u64) == a ^ b) by (bit_vector)
        requires
            z == x ^ y,
            a == x ^ (x >> 12u64),
            b == y ^ (y >> 12u64),
    ;
    let c = a ^ (a << 25u64);
    let d = b ^ (b << 25u64);
    let w = a ^ b;
    assert(w ^ (w << 25u64) == c ^ d) by (bit_vector)
        requires
            w == a ^ b,
            c == a ^ (a << 25u64),
            d == b ^ (b << 25u64),
    ;
    let v = c ^ d;
    assert(v ^ (v >> 27u64) == (c ^ (c >> 27u64)) ^ (d ^ (d >> 27u64))) by (bit_vector)
        requires
            v == c ^ d,
    ;
}

proof fn shifts_lose_nothing(x: u64)
    ensures
        super::next_state(x) == 0 <==> x == 0,
{
    let a = x ^ (x >> 12u64);
    let b = a ^ (a << 25u64);
    assert(a == 0 <==> x == 0) by (bit_vector)
        requires
            a == x ^ (x >> 12u64),
    ;
    assert(b == 0 <==> a == 0) by (bit_vector)
        requires
            b == a ^ (a << 25u64),
    ;
    assert(b ^ (b >> 27u64) == 0 <==> b == 0) by (bit_vector);
}

/// A model just built has refreshed every row at frame zero, starts the generator
/// where it always starts, and takes what is set: the retention time and the odds,
/// 60 and 4 where they are not set to a positive number, and a full row address on
/// a board of 2 MB or more.
pub proof fn fresh_model_is_as_asked(env: DramEnv, ram_size: int)
    ensures
        ({
            let s = env.configured(ram_size);
            &&& s.last_refresh.len() == 1024
            &&& forall|r: int| 0 <= r < 1024 ==> #[trigger] s.last_refresh[r] == 0
            &&& s.frame == 0
            &&& s.corrupted == 0
            &&& s.rng == 0x2026_0814_DEAD_BEEF
            &&& s.ra9_is_row_bit <==> ram_size >= 0x20_0000
            &&& s.retention_frames == settings::positive(settings::text(env.frames), 60)
            &&& s.decay_odds == settings::positive(settings::text(env.odds), 4)
            &&& s.retention_frames > 0
            &&& s.decay_odds > 0
        }),
{
    settings::lemma_positive_bound(settings::text(env.frames), 60);
    settings::lemma_positive_bound(settings::text(env.odds), 4);
}

/// Whether row `r` lies in the half that the video scan does not reach, and at the
/// end of the next frame has gone without refresh for the retention time.
pub open spec fn overdue(s: DramState, r: int) -> bool {
    &&& s.ra9_is_row_bit
    &&& 512 <= r < 1024
    &&& (s.frame + 1 - s.last_refresh[r]) % 0x1_0000_0000 >= s.retention_frames
}

/// The end of a frame reports exactly the bytes it has changed, one bit each, and
/// counts them; on a board whose mask keeps the row bits, in the order of their rows
/// and only in rows that nothing has refreshed for the retention time.
pub proof fn frame_reports_what_decays(m: Moment, next: Moment, ram_mask: usize)
    requires
        leads(m, Step::Frame, next, ram_mask),
        m.state.wf(),
    ensures
        next.ram.len() == m.ram.len(),
        next.state.corrupted == m.state.corrupted + next.dirty.len(),
        set_bits(next.ram) == set_bits(m.ram) + next.dirty.len(),
        forall|k: int|
            0 <= k < next.dirty.len() ==> #[trigger] next.dirty[k] < m.ram.len()
                && next.ram[next.dirty[k] as int] != m.ram[next.dirty[k] as int],
        forall|i: int|
            0 <= i < m.ram.len() && !next.dirty.contains(i as usize) ==> #[trigger] next.ram[i]
                == m.ram[i],
        keeps_rows(ram_mask) ==> forall|j: int, k: int|
            0 <= j < k < next.dirty.len() ==> super::row(#[trigger] next.dirty[j] as int)
                < super::row(#[trigger] next.dirty[k] as int),
        keeps_rows(ram_mask) ==> forall|k: int|
            0 <= k < next.dirty.len() ==> overdue(
                m.state,
                super::row(#[trigger] next.dirty[k] as int),
            ),
{
    decay_only_sets_bits(m.state, m.ram, ram_mask);
    every_flip_is_counted(m.state, m.ram, ram_mask);
    if keeps_rows(ram_mask) {
        assert forall|k: int| 0 <= k < next.dirty.len() implies overdue(
            m.state,
            super::row(#[trigger] next.dirty[k] as int),
        ) by {
            let r = super::row(next.dirty[k] as int);
            only_stale_rows_decay(m.state, m.ram, ram_mask, k);
            frame_of_scan(m.state.frame as int, m.state.last_refresh[r] as int);
        }
    }
}

/// There is a model if the settings ask for one, by the one character `1`.
pub proof fn model_is_built_if_asked(env: DramEnv, ram_size: int)
    ensures
        env.enable is None ==> env.model(ram_size) is None,
        env.enable matches Some(s) ==> (env.model(ram_size) is Some <==> s@.len() == 1 && s@[0]
            == '1'),
        env.model(ram_size) is Some ==> env.model(ram_size)->0 == env.configured(ram_size),
{
    settings::laws::only_one_switches_on(settings::text(env.enable));
}

/// The model has what its fields hold, and is well formed if it has a time for each
/// of the 1024 rows and neither the retention time nor the odds are zero.
pub proof fn model_shows_fields(m: DramDecay)
    ensures
        m@.last_refresh == m.last_refresh@,
        m@.frame == m.frame && m@.retention_frames == m.retention_frames,
        m@.decay_odds == m.decay_odds && m@.ra9_is_row_bit == m.ra9_is_row_bit,
        m@.rng == m.rng && m@.corrupted == m.corrupted,
        m@.wf() <==> m.last_refresh@.len() == 1024 && m.retention_frames > 0 && m.decay_odds > 0,
{
}

} // verus!
