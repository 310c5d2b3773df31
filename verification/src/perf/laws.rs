//! What holds of the counters over many calls.

use super::{Perf, PerfState, Report, NOT_IN_ISR};
use vstd::prelude::*;

verus! {

/// A call that counts something.
pub enum Call {
    ViaRead,
    ViaWrite,
    SccRead,
    SccWrite,
    Irq(u8),
    ViaIrqEdge(u8),
    SampleIpl(u8, u64),
}

/// The state after one call.
pub open spec fn called(s: PerfState, c: Call) -> PerfState {
    match c {
        Call::ViaRead => PerfState { via_reads: super::wrapped(s.via_reads + 1), ..s },
        Call::ViaWrite => PerfState { via_writes: super::wrapped(s.via_writes + 1), ..s },
        Call::SccRead => PerfState { scc_reads: super::wrapped(s.scc_reads + 1), ..s },
        Call::SccWrite => PerfState { scc_writes: super::wrapped(s.scc_writes + 1), ..s },
        Call::Irq(level) => s.interrupted(level),
        Call::ViaIrqEdge(cur) => s.edged(cur),
        Call::SampleIpl(mask, now) => s.sampled(mask, now),
    }
}

/// The state after some calls, one after the other.
pub open spec fn after(s: PerfState, calls: Seq<Call>) -> PerfState
    decreases calls.len(),
{
    if calls.len() == 0 {
        s
    } else {
        called(after(s, calls.drop_last()), calls.last())
    }
}

/// How many of the calls are `c`.
pub open spec fn count(calls: Seq<Call>, c: Call) -> int
    decreases calls.len(),
{
    if calls.len() == 0 {
        0
    } else {
        count(calls.drop_last(), c) + (if calls.last() == c {
            1int
        } else {
            0
        })
    }
}

/// The sources that were seen last, after some calls.
pub open spec fn last_seen(prev: u8, calls: Seq<Call>) -> u8
    decreases calls.len(),
{
    if calls.len() == 0 {
        prev
    } else {
        match calls.last() {
            Call::ViaIrqEdge(cur) => cur,
            _ => last_seen(prev, calls.drop_last()),
        }
    }
}

/// How often source `i` rises over some calls.
pub open spec fn edges(prev: u8, calls: Seq<Call>, i: int) -> int
    decreases calls.len(),
{
    if calls.len() == 0 {
        0
    } else {
        edges(prev, calls.drop_last(), i) + match calls.last() {
            Call::ViaIrqEdge(cur) => if super::rises(
                last_seen(prev, calls.drop_last()),
                cur,
                i,
            ) {
                1int
            } else {
                0
            },
            _ => 0,
        }
    }
}

/// Every access and every interrupt is counted, modulo 2^64, and no other call
/// counts as one.
pub proof fn calls_are_counted(s: PerfState, calls: Seq<Call>, level: u8)
    requires
        s.irq_count.len() == 8,
        s.via_src.len() == 8,
        level < 8,
    ensures
        after(s, calls).via_reads == super::wrapped(s.via_reads + count(calls, Call::ViaRead)),
        after(s, calls).via_writes == super::wrapped(s.via_writes + count(calls, Call::ViaWrite)),
        after(s, calls).scc_reads == super::wrapped(s.scc_reads + count(calls, Call::SccRead)),
        after(s, calls).scc_writes == super::wrapped(s.scc_writes + count(calls, Call::SccWrite)),
        after(s, calls).irq_count.len() == 8,
        after(s, calls).irq_count[level as int] == super::wrapped(
            s.irq_count[level as int] + count(calls, Call::Irq(level)),
        ),
        after(s, calls).via_src.len() == 8,
        after(s, calls).last_report == s.last_report,
    decreases calls.len(),
{
    wrapped_stays(s.via_reads);
    wrapped_stays(s.via_writes);
    wrapped_stays(s.scc_reads);
    wrapped_stays(s.scc_writes);
    wrapped_stays(s.irq_count[level as int]);
    if calls.len() > 0 {
        let most = calls.drop_last();
        let t = after(s, most);
        calls_are_counted(s, most, level);
        match calls.last() {
            Call::ViaRead => {
                wrapped_steps(s.via_reads + count(most, Call::ViaRead));
            },
            Call::ViaWrite => {
                wrapped_steps(s.via_writes + count(most, Call::ViaWrite));
            },
            Call::SccRead => {
                wrapped_steps(s.scc_reads + count(most, Call::SccRead));
            },
            Call::SccWrite => {
                wrapped_steps(s.scc_writes + count(most, Call::SccWrite));
            },
            Call::Irq(l) => {
                wrapped_steps(s.irq_count[level as int] + count(most, Call::Irq(level)));
                assert(after(s, calls) == t.interrupted(l));
                assert(l != level ==> Call::Irq(l) != Call::Irq(level));
            },
            Call::ViaIrqEdge(cur) => {
                assert(after(s, calls) == t.edged(cur));
            },
            Call::SampleIpl(mask, now) => {
                assert(after(s, calls) == t.sampled(mask, now));
            },
        }
    }
}

proof fn wrapped_stays(n: u64)
    ensures
        super::wrapped(n as int) == n,
{
}

proof fn wrapped_steps(n: int)
    ensures
        super::wrapped(super::wrapped(n) + 1) == super::wrapped(n + 1),
{
}

/// A source is counted once per rising edge, however often it is seen asserted.
pub proof fn edges_are_counted(s: PerfState, calls: Seq<Call>, i: int)
    requires
        s.via_src.len() == 8,
        0 <= i < 7,
    ensures
        after(s, calls).via_src.len() == 8,
        after(s, calls).via_src[i] == super::wrapped(
            s.via_src[i] + edges(s.via_src_prev, calls, i),
        ),
        after(s, calls).via_src[7] == s.via_src[7],
        after(s, calls).via_src_prev == last_seen(s.via_src_prev, calls),
    decreases calls.len(),
{
    wrapped_stays(s.via_src[i]);
    if calls.len() > 0 {
        let most = calls.drop_last();
        let t = after(s, most);
        edges_are_counted(s, most, i);
        match calls.last() {
            Call::ViaIrqEdge(cur) => {
                assert(after(s, calls) == t.edged(cur));
                wrapped_steps(s.via_src[i] + edges(s.via_src_prev, most, i));
            },
            Call::Irq(l) => {
                assert(after(s, calls) == t.interrupted(l));
            },
            Call::SampleIpl(mask, now) => {
                assert(after(s, calls) == t.sampled(mask, now));
            },
            _ => {},
        }
    }
}

/// Seeing the same sources again counts nothing.
pub proof fn steady_sources_count_nothing(s: PerfState, cur: u8)
    ensures
        s.edged(cur).edged(cur) == s.edged(cur),
{
    assert(s.edged(cur).edged(cur) =~= s.edged(cur));
}

/// Whether every IPL sample among the calls is at elevated IPL.
pub open spec fn stays_elevated(calls: Seq<Call>) -> bool {
    forall|k: int|
        0 <= k < calls.len() ==> match #[trigger] calls[k] {
            Call::SampleIpl(mask, _) => mask > 0,
            _ => true,
        }
}

/// A region of elevated IPL is timed once, from its outermost beginning to its
/// end, however the IPL nests in between and whatever else is counted.
pub proof fn outermost_region_is_timed(
    s: PerfState,
    mask: u8,
    begin: u64,
    calls: Seq<Call>,
    end: u64,
)
    requires
        s.since is None,
        mask > 0,
        begin != NOT_IN_ISR,
        stays_elevated(calls),
    ensures
        ({
            let done = after(s.sampled(mask, begin), calls).sampled(0, end);
            let dur = super::duration(begin, end);
            &&& done.since is None
            &&& done.isr_count == super::wrapped(s.isr_count + 1)
            &&& done.isr_sum == super::wrapped(s.isr_sum + dur)
            &&& done.isr_max == super::larger(s.isr_max, dur)
            &&& done.isr_min == super::smaller(s.isr_min, dur)
        }),
{
    elevated_calls_keep(s.sampled(mask, begin), calls);
}

proof fn elevated_calls_keep(s: PerfState, calls: Seq<Call>)
    requires
        s.since is Some,
        stays_elevated(calls),
    ensures
        ({
            let t = after(s, calls);
            &&& t.since == s.since
            &&& t.isr_count == s.isr_count
            &&& t.isr_sum == s.isr_sum
            &&& t.isr_max == s.isr_max
            &&& t.isr_min == s.isr_min
        }),
    decreases calls.len(),
{
    if calls.len() > 0 {
        let most = calls.drop_last();
        assert forall|k: int| 0 <= k < most.len() implies match #[trigger] most[k] {
            Call::SampleIpl(mask, _) => mask > 0,
            _ => true,
        } by {
            assert(most[k] == calls[k]);
        }
        elevated_calls_keep(s, most);
        assert(calls[calls.len() - 1] == calls.last());
    }
}

/// Whether the figures on durations agree with each other: no more and no less
/// than the extremes allow.
pub open spec fn consistent(s: PerfState) -> bool {
    if s.isr_count == 0 {
        s.isr_sum == 0 && s.isr_max == 0 && s.isr_min == u64::MAX
    } else {
        &&& s.isr_min <= s.isr_max
        &&& s.isr_count * s.isr_min <= s.isr_sum
        &&& s.isr_sum <= s.isr_count * s.isr_max
    }
}

/// Every call, and every report, keeps the figures on durations in agreement, as
/// long as their sum and their number do not wrap.
pub proof fn calls_keep_consistent(s: PerfState, c: Call)
    requires
        consistent(s),
        c matches Call::SampleIpl(mask, now) ==> mask > 0 || (s.since matches Some(t)
            ==> s.isr_count < u64::MAX && s.isr_sum + super::duration(t, now) <= u64::MAX),
    ensures
        consistent(called(s, c)),
        consistent(s.reported()),
        consistent(super::cleared()),
{
    if let Call::SampleIpl(mask, now) = c {
        if let Some(t) = s.since {
            if mask == 0 {
                timing_keeps_consistent(s, super::duration(t, now));
            }
        }
    }
}

proof fn timing_keeps_consistent(s: PerfState, dur: u64)
    requires
        consistent(s),
        s.isr_count < u64::MAX,
        s.isr_sum + dur <= u64::MAX,
    ensures
        consistent(s.timed(dur)),
{
    let n = s.isr_count as int;
    let lo = super::smaller(s.isr_min, dur) as int;
    let hi = super::larger(s.isr_max, dur) as int;
    wrapped_stays((n + 1) as u64);
    wrapped_stays((s.isr_sum + dur) as u64);
    if n > 0 {
        extremes_widen(n, s.isr_sum as int, s.isr_min as int, s.isr_max as int, dur as int, lo, hi);
        assert(s.timed(dur).isr_count == n + 1);
    } else {
        let t = s.timed(dur);
        assert(t.isr_count == 1 && t.isr_sum == dur && t.isr_max == dur && t.isr_min == dur);
        assert(t.isr_count * t.isr_min == dur && t.isr_count * t.isr_max == dur)
            by (nonlinear_arith)
            requires
                t.isr_count == 1,
                t.isr_max == dur,
                t.isr_min == dur,
        ;
    }
}

proof fn extremes_widen(n: int, sum: int, lo: int, hi: int, dur: int, lo2: int, hi2: int)
    requires
        0 < n,
        n * lo <= sum <= n * hi,
        lo2 <= lo,
        lo2 <= dur <= hi2,
        hi <= hi2,
    ensures
        (n + 1) * lo2 <= sum + dur <= (n + 1) * hi2,
{
    assert((n + 1) * lo2 <= n * lo + dur) by (nonlinear_arith)
        requires
            0 < n,
            lo2 <= lo,
            lo2 <= dur,
    ;
    assert(n * hi + dur <= (n + 1) * hi2) by (nonlinear_arith)
        requires
            0 < n,
            hi <= hi2,
            dur <= hi2,
    ;
}

/// A report's mean duration lies between the shortest and the longest.
pub proof fn mean_lies_between(r: Report, s: PerfState, interval: u64)
    requires
        r.of(s, interval),
        consistent(s),
    ensures
        r.isr_min <= r.isr_mean <= r.isr_max,
{
    if s.isr_count > 0 {
        let n = s.isr_count as int;
        let sum = s.isr_sum as int;
        let lo = s.isr_min as int;
        let hi = s.isr_max as int;
        assert(lo <= sum / n <= hi) by (nonlinear_arith)
            requires
                0 < n,
                n * lo <= sum <= n * hi,
        ;
    }
}

/// The first answer on whether the instrumentation is enabled stays, whatever
/// the setting becomes: over any number of calls, `kept` being what is kept
/// before and after each.
pub proof fn first_answer_stays(
    kept: Seq<Option<bool>>,
    settings: Seq<Option<Seq<char>>>,
    i: int,
)
    requires
        kept.len() == settings.len() + 1,
        kept[0] is None,
        forall|j: int|
            0 <= j < settings.len() ==> kept[j + 1] == super::kept_after(
                kept[j],
                #[trigger] settings[j],
            ),
        0 < i < kept.len(),
    ensures
        kept[i] == Some(super::enables(settings[0])),
    decreases i,
{
    assert(kept[i - 1 + 1] == super::kept_after(kept[i - 1], settings[i - 1]));
    if i > 1 {
        first_answer_stays(kept, settings, i - 1);
    }
}

/// A report starts everything over that is counted or timed: after it the counts
/// are zero, and there is neither a shortest nor a longest region. The region that
/// the CPU is in, the sources that are asserted and the time of the last report
/// stay; of a report made by the clock, its time is kept. A set of counters starts
/// out the same way, with nothing asserted.
pub proof fn report_starts_over(s: PerfState, now: u64)
    ensures
        blank(s.reported()),
        s.reported().since == s.since,
        s.reported().via_src_prev == s.via_src_prev,
        s.reported().last_report == s.last_report,
        s.reported_at(now) == (PerfState { last_report: now, ..s.reported() }),
        blank(super::cleared()),
        super::cleared().since is None,
        super::cleared().via_src_prev == 0,
        super::cleared().last_report == 0,
{
}

/// Whether nothing has been counted or timed.
pub open spec fn blank(s: PerfState) -> bool {
    &&& s.via_reads == 0 && s.via_writes == 0 && s.scc_reads == 0 && s.scc_writes == 0
    &&& s.isr_count == 0 && s.isr_sum == 0 && s.isr_max == 0 && s.isr_min
        == 0xFFFF_FFFF_FFFF_FFFF
    &&& s.irq_count.len() == 8 && s.via_src.len() == 8
    &&& forall|i: int| 0 <= i < 8 ==> #[trigger] s.irq_count[i] == 0
    &&& forall|i: int| 0 <= i < 8 ==> #[trigger] s.via_src[i] == 0
}

/// When the region that the CPU is in began, after some calls.
pub open spec fn open_since(since: Option<u64>, calls: Seq<Call>) -> Option<u64>
    decreases calls.len(),
{
    if calls.len() == 0 {
        since
    } else {
        let before = open_since(since, calls.drop_last());
        match calls.last() {
            Call::SampleIpl(mask, now) => if mask == 0 {
                None
            } else if before is Some {
                before
            } else if now == 0xFFFF_FFFF_FFFF_FFFF {
                None
            } else {
                Some(now)
            },
            _ => before,
        }
    }
}

/// How long each region lasted that ended during some calls.
pub open spec fn lasted(since: Option<u64>, calls: Seq<Call>) -> Seq<int>
    decreases calls.len(),
{
    if calls.len() == 0 {
        Seq::empty()
    } else {
        let before = lasted(since, calls.drop_last());
        match (calls.last(), open_since(since, calls.drop_last())) {
            (Call::SampleIpl(mask, now), Some(t)) => if mask != 0 {
                before
            } else if now >= t {
                before.push(now - t)
            } else {
                before.push(0)
            },
            _ => before,
        }
    }
}

/// The sum of some durations.
pub open spec fn sum(s: Seq<int>) -> int
    decreases s.len(),
{
    if s.len() == 0 {
        0
    } else {
        sum(s.drop_last()) + s.last()
    }
}

/// The figures on regions are those of the regions that ended since the last
/// report, and of no others: their number and their sum, modulo 2^64, and among
/// them a longest and a shortest.
pub proof fn regions_are_figured(s: PerfState, calls: Seq<Call>)
    ensures
        ({
            let t = after(s.reported(), calls);
            let l = lasted(s.since, calls);
            &&& t.since == open_since(s.since, calls)
            &&& t.isr_count as int == l.len() % 0x1_0000_0000_0000_0000
            &&& t.isr_sum as int == sum(l) % 0x1_0000_0000_0000_0000
            &&& forall|k: int| 0 <= k < l.len() ==> t.isr_min <= #[trigger] l[k] <= t.isr_max
            &&& l.len() > 0 ==> l.contains(t.isr_min as int) && l.contains(t.isr_max as int)
            &&& l.len() == 0 ==> t.isr_min == 0xFFFF_FFFF_FFFF_FFFF && t.isr_max == 0
        }),
    decreases calls.len(),
{
    let t = after(s.reported(), calls);
    let l = lasted(s.since, calls);
    if calls.len() > 0 {
        let most = calls.drop_last();
        let u = after(s.reported(), most);
        let m = lasted(s.since, most);
        regions_are_figured(s, most);
        assert(t == called(u, calls.last()));
        match calls.last() {
            Call::SampleIpl(mask, now) => {
                if u.since is Some && mask == 0 {
                    let dur = super::duration(u.since->0, now);
                    assert(l == m.push(dur as int));
                    assert(l.drop_last() =~= m);
                    wrapped_adds(m.len() as int, 1);
                    wrapped_adds(sum(m), dur as int);
                    extremes_are_among(m, l, u, dur);
                }
            },
            _ => {},
        }
    }
}

proof fn wrapped_adds(a: int, b: int)
    ensures
        (a % 0x1_0000_0000_0000_0000 + b) % 0x1_0000_0000_0000_0000 == (a + b)
            % 0x1_0000_0000_0000_0000,
{
}

proof fn extremes_are_among(m: Seq<int>, l: Seq<int>, u: PerfState, dur: u64)
    requires
        l == m.push(dur as int),
        forall|k: int| 0 <= k < m.len() ==> u.isr_min <= #[trigger] m[k] <= u.isr_max,
        m.len() > 0 ==> m.contains(u.isr_min as int) && m.contains(u.isr_max as int),
        m.len() == 0 ==> u.isr_min == 0xFFFF_FFFF_FFFF_FFFF && u.isr_max == 0,
    ensures
        ({
            let t = u.timed(dur);
            &&& forall|k: int| 0 <= k < l.len() ==> t.isr_min <= #[trigger] l[k] <= t.isr_max
            &&& l.contains(t.isr_min as int)
            &&& l.contains(t.isr_max as int)
        }),
{
    let t = u.timed(dur);
    assert(l[m.len() as int] == dur);
    assert forall|k: int| 0 <= k < l.len() implies t.isr_min <= #[trigger] l[k] <= t.isr_max by {
        if k < m.len() {
            assert(l[k] == m[k]);
        }
    }
    if m.len() > 0 {
        let i = choose|i: int| 0 <= i < m.len() && m[i] == u.isr_min as int;
        let j = choose|j: int| 0 <= j < m.len() && m[j] == u.isr_max as int;
        assert(l[i] == u.isr_min && l[j] == u.isr_max);
    }
}

/// Every call counts what it is for and nothing else: an access of its kind, an
/// interrupt of its level where there is such a level, the sources that have risen
/// since they were last seen, or a sample of the IPL.
pub proof fn call_counts_its_own(s: PerfState, c: Call)
    requires
        s.irq_count.len() == 8,
        s.via_src.len() == 8,
    ensures
        ({
            let t = called(s, c);
            let one = 0x1_0000_0000_0000_0000int;
            &&& t.last_report == s.last_report
            &&& t.via_reads as int == (s.via_reads + (if c is ViaRead {
                1int
            } else {
                0
            })) % one
            &&& t.via_writes as int == (s.via_writes + (if c is ViaWrite {
                1int
            } else {
                0
            })) % one
            &&& t.scc_reads as int == (s.scc_reads + (if c is SccRead {
                1int
            } else {
                0
            })) % one
            &&& t.scc_writes as int == (s.scc_writes + (if c is SccWrite {
                1int
            } else {
                0
            })) % one
            &&& t.irq_count.len() == 8
            &&& forall|i: int|
                0 <= i < 8 ==> #[trigger] t.irq_count[i] as int == (s.irq_count[i] + (if c
                    matches Call::Irq(l) && l == i {
                    1int
                } else {
                    0
                })) % one
            &&& t.via_src.len() == 8
            &&& !(c is ViaIrqEdge) ==> t.via_src == s.via_src && t.via_src_prev == s.via_src_prev
            &&& !(c is SampleIpl) ==> t.since == s.since && t.isr_count == s.isr_count && t.isr_sum
                == s.isr_sum && t.isr_max == s.isr_max && t.isr_min == s.isr_min
        }),
{
}

/// A source below 7 is counted when its bit is 1 and was 0 the time before; the
/// last bit, which only sums up the others, is not.
pub proof fn rising_source_is_counted(s: PerfState, cur: u8, i: u8)
    requires
        s.via_src.len() == 8,
        i < 8,
    ensures
        ({
            let t = called(s, Call::ViaIrqEdge(cur));
            let rose = i < 7 && cur & (1u8 << i) != 0 && s.via_src_prev & (1u8 << i) == 0;
            &&& t.via_src_prev == cur
            &&& rose ==> t.via_src[i as int] as int == (s.via_src[i as int] + 1)
                % 0x1_0000_0000_0000_0000
            &&& !rose ==> t.via_src[i as int] == s.via_src[i as int]
        }),
{
    let prev = s.via_src_prev;
    assert((cur >> i) & 1 == 1 <==> cur & (1u8 << i) != 0) by (bit_vector)
        requires
            i < 8,
    ;
    assert((prev >> i) & 1 == 1 <==> prev & (1u8 << i) != 0) by (bit_vector)
        requires
            i < 8,
    ;
}

/// A sample at elevated IPL begins a region if there is none, at its own time; one
/// at IPL zero ends the region there is, and otherwise does nothing.
pub proof fn sample_begins_or_ends(s: PerfState, mask: u8, now: u64)
    ensures
        ({
            let t = called(s, Call::SampleIpl(mask, now));
            &&& mask > 0 && s.since is None && now != 0xFFFF_FFFF_FFFF_FFFF ==> t == (PerfState {
                since: Some(now),
                ..s
            })
            &&& mask > 0 && (s.since is Some || now == 0xFFFF_FFFF_FFFF_FFFF) ==> t == s
            &&& mask == 0 && s.since is None ==> t == s
            &&& mask == 0 && s.since is Some ==> {
                let dur = if now >= s.since->0 {
                    now - s.since->0
                } else {
                    0
                };
                &&& t == (PerfState {
                    since: None,
                    isr_count: t.isr_count,
                    isr_sum: t.isr_sum,
                    isr_max: t.isr_max,
                    isr_min: t.isr_min,
                    ..s
                })
                &&& t.isr_count as int == (s.isr_count + 1) % 0x1_0000_0000_0000_0000
                &&& t.isr_sum as int == (s.isr_sum + dur) % 0x1_0000_0000_0000_0000
                &&& t.isr_max >= dur && t.isr_max >= s.isr_max
                &&& t.isr_max == dur || t.isr_max == s.isr_max
                &&& t.isr_min <= dur && t.isr_min <= s.isr_min
                &&& t.isr_min == dur || t.isr_min == s.isr_min
            }
        }),
{
}

/// A report hands out what was counted, and of the regions the number, the sum, the
/// longest, the shortest and the mean, rounded down; where there was none, zeros.
pub proof fn report_hands_out(r: Report, s: PerfState, interval: u64)
    requires
        r.of(s, interval),
    ensures
        r.interval == interval,
        r.via_r == s.via_reads && r.via_w == s.via_writes,
        r.scc_r == s.scc_reads && r.scc_w == s.scc_writes,
        r.irqs@ == s.irq_count && r.via_src@ == s.via_src,
        r.isr_n == s.isr_count && r.isr_sum == s.isr_sum && r.isr_max == s.isr_max,
        s.isr_min != 0xFFFF_FFFF_FFFF_FFFF ==> r.isr_min == s.isr_min,
        s.isr_min == 0xFFFF_FFFF_FFFF_FFFF ==> r.isr_min == 0,
        s.isr_count == 0 ==> r.isr_mean == 0,
        s.isr_count > 0 ==> r.isr_mean * s.isr_count <= s.isr_sum < (r.isr_mean + 1) * s.isr_count,
{
    if s.isr_count > 0 {
        let n = s.isr_count as int;
        let q = s.isr_sum as int / n;
        vstd::arithmetic::div_mod::lemma_fundamental_div_mod(s.isr_sum as int, n);
        vstd::arithmetic::div_mod::lemma_mod_bound(s.isr_sum as int, n);
        assert(q * n == n * q && (q + 1) * n == n * q + n) by (nonlinear_arith);
    }
}

/// A report that is due is of the time since the one before, and of what was counted
/// in it.
pub proof fn report_is_of_its_time(r: Report, s: PerfState, now: u64)
    requires
        s.makes(now, r),
    ensures
        r.interval as int == (now - s.last_report) % 0x1_0000_0000_0000_0000,
        r.of(s, r.interval),
{
}

/// A second report has only what happened after the first: with nothing in between
/// it is all zeros.
pub proof fn quiet_report_is_zero(r: Report, s: PerfState, interval: u64)
    requires
        r.of(s.reported(), interval),
    ensures
        r.via_r == 0 && r.via_w == 0 && r.scc_r == 0 && r.scc_w == 0,
        r.isr_n == 0 && r.isr_sum == 0 && r.isr_min == 0 && r.isr_mean == 0 && r.isr_max == 0,
        forall|i: int| 0 <= i < 8 ==> #[trigger] r.irqs@[i] == 0,
        forall|i: int| 0 <= i < 8 ==> #[trigger] r.via_src@[i] == 0,
        r.totals() == (0int, 0int, 0int, 0int),
{
    totals_add_up(r);
}

/// The totals of a report: reads and writes together, all eight levels together,
/// and all eight sources but source 1.
pub proof fn totals_add_up(r: Report)
    ensures
        r.totals().0 == r.via_r + r.via_w,
        r.totals().1 == r.scc_r + r.scc_w,
        r.totals().2 == r.irqs@[0] + r.irqs@[1] + r.irqs@[2] + r.irqs@[3] + r.irqs@[4] + r.irqs@[5]
            + r.irqs@[6] + r.irqs@[7],
        r.totals().3 == r.via_src@[0] + r.via_src@[2] + r.via_src@[3] + r.via_src@[4]
            + r.via_src@[5] + r.via_src@[6] + r.via_src@[7],
{
    reveal_with_fuel(super::total, 9);
}

/// A report is due once 7,833,600 cycles have gone by since the last, counted
/// modulo 2^64; so after one, none is due until as many more have.
pub proof fn report_is_due_each_second(s: PerfState, now: u64, later: u64)
    ensures
        s.elapsed(now) as int == (now - s.last_report) % 0x1_0000_0000_0000_0000,
        s.due(now) <==> (now - s.last_report) % 0x1_0000_0000_0000_0000 >= 7_833_600,
        later >= now ==> (s.reported_at(now).due(later) <==> later - now >= 7_833_600),
{
}

/// The instrumentation is on for any setting but an empty one and the one character
/// `0`, and off where there is no setting; an answer that is kept counts instead.
pub proof fn settings_enable(v: Option<Seq<char>>, kept: Option<bool>)
    ensures
        super::enables(v) <==> v is Some && v->0.len() > 0 && !(v->0.len() == 1 && v->0[0] == '0'),
        super::kept_or_new(None, v) == super::enables(v),
        kept is Some ==> super::kept_or_new(kept, v) == kept->0,
        super::kept_after(kept, v) == Some(super::kept_or_new(kept, v)),
{
    if let Some(s) = v {
        assert(s.len() == 1 && s[0] == '0' ==> s =~= seq!['0']);
    }
}

/// The state of the counters has what their fields hold; all ones stand for no
/// region.
pub proof fn state_shows_fields(p: Perf)
    ensures
        p@.via_reads == p.via_reads && p@.via_writes == p.via_writes,
        p@.scc_reads == p.scc_reads && p@.scc_writes == p.scc_writes,
        p@.irq_count == p.irq_count@ && p@.via_src == p.via_src@,
        p@.isr_count == p.isr_count && p@.isr_sum == p.isr_cycles_sum,
        p@.isr_max == p.isr_cycles_max && p@.isr_min == p.isr_cycles_min,
        p.isr_since == 0xFFFF_FFFF_FFFF_FFFF ==> p@.since is None,
        p.isr_since != 0xFFFF_FFFF_FFFF_FFFF ==> p@.since == Some(p.isr_since),
        p@.via_src_prev == p.via_src_prev && p@.last_report == p.last_report,
{
}

} // verus!
