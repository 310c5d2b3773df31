use snow_core::perf::{
    enabled, enabled_once, irq, maybe_report, report, sample_ipl, scc_read, scc_write, via_irq_edge, via_read,
    via_write, Perf, NOT_IN_ISR, ONESEC_CYCLES,
};

#[test]
fn enabling() {
    assert!(!enabled(&None));
    assert!(!enabled(&Some("".to_string())));
    assert!(!enabled(&Some("0".to_string())));
    for s in ["1", "00", " ", "no"] {
        assert!(enabled(&Some(s.to_string())));
    }
}

#[test]
fn first_answer_is_kept() {
    for (first, want) in [("1", true), ("0", false)] {
        let mut kept = None;
        assert_eq!(enabled_once(&mut kept, &Some(first.to_string())), want);
        assert_eq!(kept, Some(want));
        for later in [None, Some("0".to_string()), Some("1".to_string())] {
            assert_eq!(enabled_once(&mut kept, &later), want);
        }
        assert_eq!(kept, Some(want));
    }
    let mut kept = None;
    assert!(!enabled_once(&mut kept, &None));
    assert!(!enabled_once(&mut kept, &Some("1".to_string())));
}

#[test]
fn accesses_are_counted_and_reset() {
    let mut p = Perf::new();
    for _ in 0..5 {
        via_read(&mut p);
    }
    for _ in 0..4 {
        via_write(&mut p);
    }
    for _ in 0..3 {
        scc_read(&mut p);
    }
    for _ in 0..2 {
        scc_write(&mut p);
    }
    assert!(maybe_report(&mut p, ONESEC_CYCLES - 1).is_none());
    let r = maybe_report(&mut p, ONESEC_CYCLES + 9).unwrap();
    assert_eq!((r.via_r, r.via_w, r.scc_r, r.scc_w), (5, 4, 3, 2));
    assert_eq!((r.via_total(), r.scc_total(), r.interval), (9, 5, ONESEC_CYCLES + 9));
    assert!(maybe_report(&mut p, 2 * ONESEC_CYCLES).is_none());
    let r = maybe_report(&mut p, 2 * ONESEC_CYCLES + 9).unwrap();
    assert_eq!((r.via_r, r.via_w, r.scc_r, r.scc_w, r.interval), (0, 0, 0, 0, ONESEC_CYCLES));
}

#[test]
fn counters_wrap() {
    let mut p = Perf::new();
    p.via_reads = u64::MAX;
    via_read(&mut p);
    assert_eq!(p.via_reads, 0);
}

#[test]
fn time_going_back_makes_a_report() {
    let mut p = Perf::new();
    p.last_report = 10;
    let r = maybe_report(&mut p, 9).unwrap();
    assert_eq!(r.interval, u64::MAX);
    assert_eq!(p.last_report, 9);
}

#[test]
fn interrupts_by_level() {
    let mut p = Perf::new();
    for l in [1u8, 1, 2, 4, 7, 8, 255, 0] {
        irq(&mut p, l);
    }
    let r = report(&mut p, 1);
    assert_eq!(r.irqs, [1, 2, 1, 0, 1, 0, 0, 1]);
    assert_eq!(r.irq_total(), 6);
    assert_eq!(p.irq_count, [0; 8]);
}

#[test]
fn sources_count_on_the_rising_edge() {
    let mut p = Perf::new();
    for b in [0x02u8, 0x02, 0x06, 0x04, 0x06, 0xFF, 0x80, 0x00, 0x20] {
        via_irq_edge(&mut p, b);
    }
    let r = report(&mut p, 1);
    assert_eq!(r.via_src, [1, 2, 1, 1, 1, 2, 1, 0]);
    assert_eq!(r.excess(), 7);
    via_irq_edge(&mut p, 0x20);
    assert_eq!(p.via_src, [0; 8]);
    via_irq_edge(&mut p, 0x60);
    assert_eq!(p.via_src[6], 1);
}

#[test]
fn outermost_region_is_timed() {
    let mut p = Perf::new();
    sample_ipl(&mut p, 0, 5);
    sample_ipl(&mut p, 1, 100);
    sample_ipl(&mut p, 7, 110);
    sample_ipl(&mut p, 1, 120);
    sample_ipl(&mut p, 0, 150);
    sample_ipl(&mut p, 0, 160);
    sample_ipl(&mut p, 2, 200);
    sample_ipl(&mut p, 0, 211);
    let r = report(&mut p, 1);
    assert_eq!((r.isr_n, r.isr_sum, r.isr_min, r.isr_mean, r.isr_max), (2, 61, 11, 30, 50));
}

#[test]
fn open_region_survives_a_report() {
    let mut p = Perf::new();
    sample_ipl(&mut p, 1, 100);
    let r = report(&mut p, 1);
    assert_eq!((r.isr_n, r.isr_min, r.isr_mean, r.isr_max), (0, 0, 0, 0));
    sample_ipl(&mut p, 0, 130);
    assert_eq!((p.isr_count, p.isr_cycles_sum, p.isr_since), (1, 30, NOT_IN_ISR));
}

#[test]
fn time_going_back_lasts_nothing() {
    let mut p = Perf::new();
    sample_ipl(&mut p, 1, 100);
    sample_ipl(&mut p, 0, 90);
    assert_eq!((p.isr_count, p.isr_cycles_sum, p.isr_cycles_min), (1, 0, 0));
}

#[test]
fn last_cycle_begins_nothing() {
    let mut p = Perf::new();
    sample_ipl(&mut p, 1, u64::MAX);
    sample_ipl(&mut p, 0, u64::MAX);
    assert_eq!(p.isr_count, 0);
}
