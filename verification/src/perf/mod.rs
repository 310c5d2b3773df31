//! Lightweight performance instrumentation for the emulated Mac.
//!
//! Counts VIA and SCC register accesses and CPU interrupts, measures how long
//! the CPU spends at elevated IPL (inside an ISR), and hands out the figures once
//! per emulated second, so that the bus load and the masked time of two ROMs can
//! be compared on the same machine.
//!
//! Calibrated for the 7.8336 MHz Mac Plus. Every counter wraps at 2^64.

pub mod laws;

use vstd::prelude::*;

verus! {

/// CPU cycles.
pub type Ticks = u64;

/// Cycles in one emulated second of a Mac Plus (7.8336 MHz).
pub const ONESEC_CYCLES: Ticks = 7_833_600;

/// Stands for "not at elevated IPL" in place of a time.
pub const NOT_IN_ISR: u64 = 0xFFFF_FFFF_FFFF_FFFF;

/// The counters.
pub struct Perf {
    pub via_reads: u64,
    pub via_writes: u64,
    pub scc_reads: u64,
    pub scc_writes: u64,
    /// Interrupts taken, by level (1..=7; index 0 unused).
    pub irq_count: [u64; 8],
    /// Elevated-IPL regions: how many, and their durations in CPU cycles.
    pub isr_count: u64,
    pub isr_cycles_sum: u64,
    pub isr_cycles_max: u64,
    pub isr_cycles_min: u64,
    /// When the current elevated-IPL region began, or `NOT_IN_ISR`.
    pub isr_since: u64,
    /// VIA level-1 IRQ triggers by IFR source bit (0..=6). Bit 1 is CA1, the
    /// 60 Hz tick; everything else is excess.
    pub via_src: [u64; 8],
    /// The sources that were asserted last.
    pub via_src_prev: u8,
    /// When the last report was made.
    pub last_report: u64,
}

/// The figures of one report.
pub struct Report {
    /// Cycles since the report before.
    pub interval: Ticks,
    pub via_r: u64,
    pub via_w: u64,
    pub scc_r: u64,
    pub scc_w: u64,
    pub irqs: [u64; 8],
    pub isr_n: u64,
    pub isr_sum: u64,
    /// Shortest, mean and longest duration; zero where there was none.
    pub isr_min: u64,
    pub isr_mean: u64,
    pub isr_max: u64,
    pub via_src: [u64; 8],
}

/// The state of the counters.
#[verifier::ext_equal]
pub struct PerfState {
    pub via_reads: u64,
    pub via_writes: u64,
    pub scc_reads: u64,
    pub scc_writes: u64,
    pub irq_count: Seq<u64>,
    pub isr_count: u64,
    pub isr_sum: u64,
    pub isr_max: u64,
    pub isr_min: u64,
    /// When the current elevated-IPL region began, if the CPU is in one.
    pub since: Option<u64>,
    pub via_src: Seq<u64>,
    pub via_src_prev: u8,
    pub last_report: u64,
}

impl View for Perf {
    type V = PerfState;

    open spec fn view(&self) -> PerfState {
        PerfState {
            via_reads: self.via_reads,
            via_writes: self.via_writes,
            scc_reads: self.scc_reads,
            scc_writes: self.scc_writes,
            irq_count: self.irq_count@,
            isr_count: self.isr_count,
            isr_sum: self.isr_cycles_sum,
            isr_max: self.isr_cycles_max,
            isr_min: self.isr_cycles_min,
            since: if self.isr_since == NOT_IN_ISR {
                None
            } else {
                Some(self.isr_since)
            },
            via_src: self.via_src@,
            via_src_prev: self.via_src_prev,
            last_report: self.last_report,
        }
    }
}

/// `n` modulo 2^64.
pub open spec fn wrapped(n: int) -> u64 {
    (n % 0x1_0000_0000_0000_0000) as u64
}

/// Whether bit `i` of `b` is set.
pub open spec fn bit(b: u8, i: int) -> bool {
    (b >> (i as u8)) & 1 == 1
}

/// Whether source `i` is asserted in `cur` and was not in `prev`.
pub open spec fn rises(prev: u8, cur: u8, i: int) -> bool {
    bit(cur, i) && !bit(prev, i)
}

/// The larger and the smaller of two numbers.
pub open spec fn larger(a: u64, b: u64) -> u64 {
    if a < b {
        b
    } else {
        a
    }
}

pub open spec fn smaller(a: u64, b: u64) -> u64 {
    if b < a {
        b
    } else {
        a
    }
}

/// The cycles from `since` to `now`; none if `now` is earlier.
pub open spec fn duration(since: u64, now: u64) -> u64 {
    if now >= since {
        (now - since) as u64
    } else {
        0
    }
}

/// Counters with nothing counted.
pub open spec fn cleared() -> PerfState {
    PerfState {
        via_reads: 0,
        via_writes: 0,
        scc_reads: 0,
        scc_writes: 0,
        irq_count: Seq::new(8, |i: int| 0u64),
        isr_count: 0,
        isr_sum: 0,
        isr_max: 0,
        isr_min: u64::MAX,
        since: None,
        via_src: Seq::new(8, |i: int| 0u64),
        via_src_prev: 0,
        last_report: 0,
    }
}

impl PerfState {
    /// The state after an interrupt of `level`; a level there is not counts
    /// nothing.
    pub open spec fn interrupted(self, level: u8) -> PerfState {
        if level < 8 {
            PerfState {
                irq_count: self.irq_count.update(
                    level as int,
                    wrapped(self.irq_count[level as int] + 1),
                ),
                ..self
            }
        } else {
            self
        }
    }

    /// The state after the sources `cur` have been seen: each of the sources 0
    /// to 6 that has risen is counted once.
    pub open spec fn edged(self, cur: u8) -> PerfState {
        PerfState {
            via_src: Seq::new(
                self.via_src.len(),
                |i: int|
                    if i < 7 && rises(self.via_src_prev, cur, i) {
                        wrapped(self.via_src[i] + 1)
                    } else {
                        self.via_src[i]
                    },
            ),
            via_src_prev: cur,
            ..self
        }
    }

    /// The state after a region of `dur` cycles has ended.
    pub open spec fn timed(self, dur: u64) -> PerfState {
        PerfState {
            since: None,
            isr_count: wrapped(self.isr_count + 1),
            isr_sum: wrapped(self.isr_sum + dur),
            isr_max: larger(self.isr_max, dur),
            isr_min: smaller(self.isr_min, dur),
            ..self
        }
    }

    /// The state after IPL mask `mask` has been sampled at cycle `now`. A region
    /// begins where the mask rises from zero and ends where it falls back to
    /// it. (The last of all cycle numbers begins none.)
    pub open spec fn sampled(self, mask: u8, now: u64) -> PerfState {
        match self.since {
            None => if mask > 0 && now != NOT_IN_ISR {
                PerfState { since: Some(now), ..self }
            } else {
                self
            },
            Some(t) => if mask > 0 {
                self
            } else {
                self.timed(duration(t, now))
            },
        }
    }

    /// The state after a report: everything counted starts over. The region the
    /// CPU is in, the sources asserted and the time of the report stay.
    pub open spec fn reported(self) -> PerfState {
        PerfState {
            since: self.since,
            via_src_prev: self.via_src_prev,
            last_report: self.last_report,
            ..cleared()
        }
    }

    /// Cycles since the last report.
    pub open spec fn elapsed(self, now: u64) -> u64 {
        wrapped(now - self.last_report)
    }

    /// Whether a report is due: an emulated second has gone by since the last.
    pub open spec fn due(self, now: u64) -> bool {
        self.elapsed(now) >= ONESEC_CYCLES
    }

    /// Whether `r` is the report that is due at `now`.
    pub open spec fn makes(self, now: u64, r: Report) -> bool {
        r.of(self, self.elapsed(now))
    }

    /// The state after a report made at `now`.
    pub open spec fn reported_at(self, now: u64) -> PerfState {
        PerfState { last_report: now, ..self.reported() }
    }
}

impl Report {
    /// Whether these are the figures of `s` over `interval` cycles.
    pub open spec fn of(self, s: PerfState, interval: u64) -> bool {
        &&& self.interval == interval
        &&& self.via_r == s.via_reads
        &&& self.via_w == s.via_writes
        &&& self.scc_r == s.scc_reads
        &&& self.scc_w == s.scc_writes
        &&& self.irqs@ == s.irq_count
        &&& self.isr_n == s.isr_count
        &&& self.isr_sum == s.isr_sum
        &&& self.isr_max == s.isr_max
        &&& self.isr_min == (if s.isr_min == u64::MAX {
            0
        } else {
            s.isr_min
        })
        &&& self.isr_mean == (if s.isr_count > 0 {
            s.isr_sum as int / s.isr_count as int
        } else {
            0
        })
        &&& self.via_src@ == s.via_src
    }

    /// VIA accesses, SCC accesses, interrupts of all levels, and VIA level-1 IRQ
    /// triggers other than the tick.
    pub open spec fn totals(self) -> (int, int, int, int) {
        (
            self.via_r + self.via_w,
            self.scc_r + self.scc_w,
            total(self.irqs@),
            total(self.via_src@) - self.via_src@[1],
        )
    }

    /// VIA accesses.
    pub fn via_total(&self) -> (n: u128)
        ensures
            n == self.via_r + self.via_w,
            n == self.totals().0,
    {
        self.via_r as u128 + self.via_w as u128
    }

    /// SCC accesses.
    pub fn scc_total(&self) -> (n: u128)
        ensures
            n == self.scc_r + self.scc_w,
            n == self.totals().1,
    {
        self.scc_r as u128 + self.scc_w as u128
    }

    /// Interrupts of all levels.
    pub fn irq_total(&self) -> (n: u128)
        ensures
            n == total(self.irqs@),
            n == self.totals().2,
    {
        sum8(&self.irqs)
    }

    /// VIA level-1 IRQ triggers other than the tick.
    pub fn excess(&self) -> (n: u128)
        ensures
            n == total(self.via_src@) - self.via_src@[1],
            n == self.totals().3,
    {
        proof {
            reveal_with_fuel(total, 9);
        }
        sum8(&self.via_src) - self.via_src[1] as u128
    }
}

/// The sum of some numbers.
pub open spec fn total(s: Seq<u64>) -> int
    decreases s.len(),
{
    if s.len() == 0 {
        0
    } else {
        total(s.drop_last()) + s.last()
    }
}

fn sum8(a: &[u64; 8]) -> (n: u128)
    ensures
        n == total(a@),
{
    let mut n: u128 = 0;
    let mut i: usize = 0;
    assert(a@.take(0) =~= Seq::<u64>::empty());
    while i < 8
        invariant
            i <= 8,
            n == total(a@.take(i as int)),
            n <= i * 0x1_0000_0000_0000_0000,
        decreases 8 - i,
    {
        assert(a@.take(i + 1).drop_last() =~= a@.take(i as int));
        n = n + a[i] as u128;
        i = i + 1;
    }
    assert(a@.take(8) =~= a@);
    n
}

impl Perf {
    /// Counters with nothing counted.
    pub fn new() -> (p: Perf)
        ensures
            p@ == cleared(),
    {
        let p = Perf {
            via_reads: 0,
            via_writes: 0,
            scc_reads: 0,
            scc_writes: 0,
            irq_count: [0u64; 8],
            isr_count: 0,
            isr_cycles_sum: 0,
            isr_cycles_max: 0,
            isr_cycles_min: u64::MAX,
            isr_since: NOT_IN_ISR,
            via_src: [0u64; 8],
            via_src_prev: 0,
            last_report: 0,
        };
        assert(p@ =~= cleared());
        p
    }
}

/// Whether a setting (`SNOW_PERF`) enables the instrumentation: any value does
/// but an empty one and `0`.
pub open spec fn enables(v: Option<Seq<char>>) -> bool {
    match v {
        Some(s) => s.len() != 0 && s != seq!['0'],
        None => false,
    }
}

/// True if the setting enables the instrumentation.
pub fn enabled(v: &Option<String>) -> (r: bool)
    ensures
        r == enables(crate::settings::text(*v)),
{
    match v {
        Some(s) => {
            let len: usize = s.as_str().unicode_len();
            let zero: bool = len == 1 && s.as_str().get_char(0) == '0';
            assert(zero ==> s@ =~= seq!['0']);
            len != 0 && !zero
        },
        None => false,
    }
}

/// The answer to whether the instrumentation is enabled, given the one that was
/// kept, if any, and the setting.
pub open spec fn kept_or_new(kept: Option<bool>, v: Option<Seq<char>>) -> bool {
    match kept {
        Some(answer) => answer,
        None => enables(v),
    }
}

/// The answer that is kept from then on.
pub open spec fn kept_after(kept: Option<bool>, v: Option<Seq<char>>) -> Option<bool> {
    Some(kept_or_new(kept, v))
}

/// True if the instrumentation is enabled. The setting counts on the first call
/// only; the answer is kept for the others.
pub fn enabled_once(kept: &mut Option<bool>, v: &Option<String>) -> (r: bool)
    ensures
        r == kept_or_new(*old(kept), crate::settings::text(*v)),
        *final(kept) == Some(r),
        *final(kept) == kept_after(*old(kept), crate::settings::text(*v)),
{
    let answer: bool = match *kept {
        Some(answer) => answer,
        None => enabled(v),
    };
    *kept = Some(answer);
    answer
}

/// Records a VIA register read.
pub fn via_read(p: &mut Perf)
    ensures
        final(p)@ == (PerfState { via_reads: wrapped(old(p)@.via_reads + 1), ..old(p)@ }),
        final(p)@ == laws::called(old(p)@, laws::Call::ViaRead),
{
    p.via_reads = p.via_reads.wrapping_add(1);
}

/// Records a VIA register write.
pub fn via_write(p: &mut Perf)
    ensures
        final(p)@ == (PerfState { via_writes: wrapped(old(p)@.via_writes + 1), ..old(p)@ }),
        final(p)@ == laws::called(old(p)@, laws::Call::ViaWrite),
{
    p.via_writes = p.via_writes.wrapping_add(1);
}

/// Records an SCC register read.
pub fn scc_read(p: &mut Perf)
    ensures
        final(p)@ == (PerfState { scc_reads: wrapped(old(p)@.scc_reads + 1), ..old(p)@ }),
        final(p)@ == laws::called(old(p)@, laws::Call::SccRead),
{
    p.scc_reads = p.scc_reads.wrapping_add(1);
}

/// Records an SCC register write.
pub fn scc_write(p: &mut Perf)
    ensures
        final(p)@ == (PerfState { scc_writes: wrapped(old(p)@.scc_writes + 1), ..old(p)@ }),
        final(p)@ == laws::called(old(p)@, laws::Call::SccWrite),
{
    p.scc_writes = p.scc_writes.wrapping_add(1);
}

/// Records that an interrupt of `level` (1..=7) was taken.
pub fn irq(p: &mut Perf, level: u8)
    ensures
        final(p)@ == old(p)@.interrupted(level),
        final(p)@ == laws::called(old(p)@, laws::Call::Irq(level)),
{
    let l: usize = level as usize;
    if l < 8 {
        p.irq_count[l] = p.irq_count[l].wrapping_add(1);
    }
}

/// Records the VIA level-1 IRQ sources from the current (IFR & IER) byte. Each
/// source is counted once, on its rising edge, so that calling this on every CPU
/// step yields one count per actual trigger.
pub fn via_irq_edge(p: &mut Perf, cur: u8)
    ensures
        final(p)@ == old(p)@.edged(cur),
        final(p)@ == laws::called(old(p)@, laws::Call::ViaIrqEdge(cur)),
{
    let ghost before = p@;
    let prev: u8 = p.via_src_prev;
    p.via_src_prev = cur;
    let rising: u8 = cur & !prev;
    let mut i: u8 = 0;
    while i < 7
        invariant
            i <= 7,
            rising == cur & !prev,
            before.via_src_prev == prev,
            before.via_src.len() == 8,
            p@ == (PerfState { via_src: p@.via_src, via_src_prev: cur, ..before }),
            forall|j: int|
                0 <= j < 8 ==> #[trigger] p@.via_src[j] == (if j < i && rises(prev, cur, j) {
                    wrapped(before.via_src[j] + 1)
                } else {
                    before.via_src[j]
                }),
        decreases 7 - i,
    {
        assert((rising & (1u8 << i) != 0) == ((cur >> i) & 1 == 1 && (prev >> i) & 1 != 1))
            by (bit_vector)
            requires
                rising == cur & !prev,
                i < 7,
        ;
        if rising & (1u8 << i) != 0 {
            let k: usize = i as usize;
            p.via_src[k] = p.via_src[k].wrapping_add(1);
        }
        i = i + 1;
    }
    assert(p@ =~= before.edged(cur));
}

/// Samples the CPU's IPL mask (0: foreground, more: inside an ISR) at cycle
/// `now`. Times the outermost elevated-IPL region only, and does not depend on
/// matching returns.
pub fn sample_ipl(p: &mut Perf, mask: u8, now: Ticks)
    ensures
        final(p)@ == old(p)@.sampled(mask, now),
        final(p)@ == laws::called(old(p)@, laws::Call::SampleIpl(mask, now)),
{
    let since: u64 = p.isr_since;
    if mask > 0 {
        if since == NOT_IN_ISR {
            p.isr_since = now;
        }
    } else if since != NOT_IN_ISR {
        p.isr_since = NOT_IN_ISR;
        let dur: u64 = now.saturating_sub(since);
        p.isr_count = p.isr_count.wrapping_add(1);
        p.isr_cycles_sum = p.isr_cycles_sum.wrapping_add(dur);
        if p.isr_cycles_max < dur {
            p.isr_cycles_max = dur;
        }
        if dur < p.isr_cycles_min {
            p.isr_cycles_min = dur;
        }
    }
}

/// Makes a report and starts the counters over if an emulated second has gone
/// by. Cheap when it has not.
pub fn maybe_report(p: &mut Perf, now: Ticks) -> (r: Option<Report>)
    ensures
        (match r {
            None => {
                &&& old(p)@.elapsed(now) < ONESEC_CYCLES
                &&& final(p)@ == old(p)@
            },
            Some(rep) => {
                &&& old(p)@.elapsed(now) >= ONESEC_CYCLES
                &&& rep.of(old(p)@, old(p)@.elapsed(now))
                &&& final(p)@ == (PerfState { last_report: now, ..old(p)@.reported() })
            },
        }),
        r is Some <==> old(p)@.due(now),
        r matches Some(rep) ==> old(p)@.makes(now, rep),
        final(p)@ == (if old(p)@.due(now) {
            old(p)@.reported_at(now)
        } else {
            old(p)@
        }),
{
    let interval: u64 = now.wrapping_sub(p.last_report);
    assert(interval == p@.elapsed(now));
    if interval < ONESEC_CYCLES {
        return None;
    }
    p.last_report = now;
    Some(report(p, interval))
}

/// Takes the figures and starts the counters over.
pub fn report(p: &mut Perf, interval: Ticks) -> (r: Report)
    ensures
        r.of(old(p)@, interval),
        final(p)@ == old(p)@.reported(),
{
    let ghost before = p@;
    let isr_n: u64 = p.isr_count;
    let isr_sum: u64 = p.isr_cycles_sum;
    let r = Report {
        interval,
        via_r: p.via_reads,
        via_w: p.via_writes,
        scc_r: p.scc_reads,
        scc_w: p.scc_writes,
        irqs: p.irq_count,
        isr_n,
        isr_sum,
        isr_min: if p.isr_cycles_min == u64::MAX {
            0
        } else {
            p.isr_cycles_min
        },
        isr_mean: if isr_n > 0 {
            isr_sum / isr_n
        } else {
            0
        },
        isr_max: p.isr_cycles_max,
        via_src: p.via_src,
    };
    p.via_reads = 0;
    p.via_writes = 0;
    p.scc_reads = 0;
    p.scc_writes = 0;
    p.irq_count = [0u64; 8];
    p.isr_count = 0;
    p.isr_cycles_sum = 0;
    p.isr_cycles_max = 0;
    p.isr_cycles_min = u64::MAX;
    p.via_src = [0u64; 8];
    assert(p@ =~= before.reported());
    r
}

} // verus!
