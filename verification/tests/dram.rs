use snow_core::dram::{DramDecay, DramEnv};

fn env(frames: &str, odds: &str) -> DramEnv {
    DramEnv {
        enable: Some("1".to_string()),
        frames: Some(frames.to_string()),
        odds: Some(odds.to_string()),
    }
}

fn next(x: &mut u64) -> u64 {
    *x ^= *x >> 12;
    *x ^= *x << 25;
    *x ^= *x >> 27;
    x.wrapping_mul(0x2545_F491_4F6C_DD1D)
}

#[test]
fn decay_is_off_unless_the_setting_is_one() {
    let mut e = env("60", "4");
    e.enable = None;
    assert!(DramDecay::from_env(1 << 22, &e).is_none());
    e.enable = Some("2".to_string());
    assert!(DramDecay::from_env(1 << 22, &e).is_none());
}

#[test]
fn decay_defaults() {
    let e = DramEnv { enable: Some("1".to_string()), frames: None, odds: Some("0".to_string()) };
    let m = DramDecay::from_env(2 * 1024 * 1024, &e).unwrap();
    assert_eq!((m.retention_frames, m.decay_odds, m.frame, m.corrupted), (60, 4, 0, 0));
    assert!(m.ra9_is_row_bit && m.is_wf());
    assert_eq!(m.rng, 0x2026_0814_DEAD_BEEF);
    assert!(!DramDecay::from_env(2 * 1024 * 1024 - 1, &e).unwrap().ra9_is_row_bit);
}

#[test]
fn rows() {
    assert_eq!(DramDecay::row_of(0), 0);
    assert_eq!(DramDecay::row_of(1), 0);
    assert_eq!(DramDecay::row_of(2), 1);
    assert_eq!(DramDecay::row_of(0x3FF), 511);
    assert_eq!(DramDecay::row_of(0x400), 0);
    assert_eq!(DramDecay::row_of(0x8_0000), 512);
    assert_eq!(DramDecay::row_of(0x10_0000), 0);
    assert_eq!(DramDecay::row_of(0x38_03FF), 1023);
}

#[test]
fn random_numbers() {
    let mut m = DramDecay::from_env(1 << 22, &env("1", "1")).unwrap();
    let mut x = 0x2026_0814_DEAD_BEEFu64;
    for _ in 0..100 {
        assert_eq!(m.next_rand(), next(&mut x));
    }
    assert_eq!(m.rng, x);
}

#[test]
fn address_lies_in_its_row() {
    let mut m = DramDecay::from_env(1 << 22, &env("1", "1")).unwrap();
    let mut x = m.rng;
    for row in [0usize, 1, 511, 512, 1023] {
        for _ in 0..50 {
            let r = next(&mut x) as usize;
            let want = (r & 1)
                | ((row & 511) << 1)
                | (((r >> 1) & 0x1FF) << 10)
                | (((row >> 9) & 1) << 19)
                | (((r >> 10) & 3) << 20);
            let a = m.addr_in_row(row, 0x3F_FFFF);
            assert_eq!(a, want);
            assert_eq!(DramDecay::row_of(a), row);
        }
    }
}

#[test]
fn small_board_never_decays() {
    let mut m = DramDecay::from_env(1 << 20, &env("1", "1")).unwrap();
    let mut ram = vec![0u8; 1 << 20];
    for _ in 0..20 {
        assert!(m.vblank(&mut ram, 0xF_FFFF).is_empty());
    }
    assert!(ram.iter().all(|b| *b == 0));
    assert_eq!((m.frame, m.corrupted), (20, 0));
}

#[test]
fn decay_waits_for_the_retention_time() {
    let mut m = DramDecay::from_env(1 << 22, &env("5", "1")).unwrap();
    let mut ram = vec![0u8; 1 << 22];
    for _ in 0..4 {
        assert!(m.vblank(&mut ram, 0x3F_FFFF).is_empty());
    }
    let dirty = m.vblank(&mut ram, 0x3F_FFFF);
    assert_eq!(dirty.len(), 512);
    assert_eq!(m.corrupted, 512);
    for (k, i) in dirty.iter().enumerate() {
        assert_eq!(DramDecay::row_of(*i), 512 + k);
        assert!(ram[*i] != 0);
    }
}

#[test]
fn one_frame_in_full() {
    let mut m = DramDecay::from_env(1 << 22, &env("1", "3")).unwrap();
    let mut ram = vec![0x55u8; 0x30_0000];
    let mut want = ram.clone();
    let mut list: Vec<usize> = vec![];
    let mut x = m.rng;
    for row in 512..1024usize {
        if next(&mut x) % 3 != 0 {
            continue;
        }
        let r = next(&mut x) as usize;
        let i = (r & 1)
            | ((row & 511) << 1)
            | (((r >> 1) & 0x1FF) << 10)
            | (1 << 19)
            | (((r >> 10) & 3) << 20);
        if i >= want.len() {
            continue;
        }
        let bit = 1u8 << (next(&mut x) % 8);
        if want[i] & bit == 0 {
            want[i] |= bit;
            list.push(i);
        }
    }
    assert!(!list.is_empty());
    assert_eq!(m.vblank(&mut ram, 0x3F_FFFF), list);
    assert!(ram == want);
    assert_eq!(m.corrupted, list.len() as u64);
    assert_eq!(m.rng, x);
}

#[test]
fn touched_row_is_kept() {
    let mut m = DramDecay::from_env(1 << 22, &env("3", "1")).unwrap();
    let mut ram = vec![0u8; 1 << 22];
    for _ in 0..10 {
        m.touch(0x8_0010);
        for i in m.vblank(&mut ram, 0x3F_FFFF) {
            assert!(DramDecay::row_of(i) != DramDecay::row_of(0x8_0010));
        }
    }
    assert!(m.corrupted > 0);
}

#[test]
fn set_bits_stay() {
    let mut m = DramDecay::from_env(1 << 22, &env("1", "1")).unwrap();
    let mut ram = vec![0xFFu8; 1 << 22];
    assert!(m.vblank(&mut ram, 0x3F_FFFF).is_empty());
    assert_eq!(m.corrupted, 0);
}

#[test]
fn touched_row_is_kept_among_other_accesses() {
    let mut m = DramDecay::from_env(1 << 22, &env("4", "1")).unwrap();
    let mut ram = vec![0u8; 1 << 22];
    for _ in 0..6 {
        m.vblank(&mut ram, 0x3F_FFFF);
    }
    m.touch(0x8_0010);
    for n in 1..6usize {
        m.touch(0x8_0010 + 0x20 * n);
        ram[0x8_0010] = 0;
        let dirty = m.vblank(&mut ram, 0x3F_FFFF);
        assert!(!dirty.is_empty());
        let hit = dirty.iter().any(|i| DramDecay::row_of(*i) == DramDecay::row_of(0x8_0010));
        if n < 4 {
            assert!(!hit);
        }
    }
}

#[test]
fn runs_repeat() {
    let run = || {
        let mut m = DramDecay::from_env(1 << 22, &env("2", "4")).unwrap();
        let mut ram = vec![0x11u8; 1 << 22];
        let mut seen: Vec<Vec<usize>> = vec![];
        for n in 0..12usize {
            m.touch(0x8_0000 + 6 * n);
            ram[0x8_0000 + 77 * n] = n as u8;
            seen.push(m.vblank(&mut ram, 0x3F_FFFF));
        }
        (seen, ram, m.rng, m.corrupted)
    };
    let (a, b) = (run(), run());
    assert!(a.3 > 0);
    assert!(a == b);
}

#[test]
fn reports_are_of_changed_bytes_in_row_order() {
    let mut m = DramDecay::from_env(1 << 22, &env("1", "2")).unwrap();
    let mut ram = vec![0x0Fu8; 1 << 22];
    let before = ram.clone();
    let dirty = m.vblank(&mut ram, 0x3F_FFFF);
    assert!(dirty.len() > 1);
    for i in &dirty {
        assert!(ram[*i] != before[*i]);
        assert_eq!(ram[*i] & before[*i], before[*i]);
    }
    for w in dirty.windows(2) {
        assert!(DramDecay::row_of(w[0]) < DramDecay::row_of(w[1]));
    }
    assert_eq!((0..ram.len()).filter(|i| ram[*i] != before[*i]).count(), dirty.len());
}

#[test]
fn masks_may_change_from_frame_to_frame() {
    let run = || {
        let mut m = DramDecay::from_env(1 << 22, &env("4", "1")).unwrap();
        let mut ram = vec![0u8; 1 << 22];
        for _ in 0..6 {
            m.vblank(&mut ram, 0x3F_FFFF);
        }
        m.touch(0x8_0010);
        let mut seen: Vec<Vec<usize>> = vec![];
        for mask in [0x3F_FFFFusize, 0x0F_FFFF, 0x08_03FE] {
            let dirty = m.vblank(&mut ram, mask);
            assert!(!dirty.is_empty());
            for i in &dirty {
                assert_eq!(i & !mask, 0);
                assert!(DramDecay::row_of(*i) != DramDecay::row_of(0x8_0010));
            }
            seen.push(dirty);
        }
        (seen, ram, m.rng, m.corrupted)
    };
    assert!(run() == run());
}
