use snow_core::onerom::dev::{dispatch, exec_enter, feed, run_command, Dev};
use snow_core::onerom::device::St;
use snow_core::onerom::protocol::{
    arg_count, cmd_is_silent, knock_byte, rom_type_for, slot_record,
};
use snow_core::onerom::{Faults, OneRom, OneRomEnv};

const BASE: u32 = 0x40_0000;
const PAGE: u32 = 0xE0;
const REGION: u32 = 0xE100;
const KNOCK: &[u8] = b"!RBCP!";

const NO_FAULTS: Faults =
    Faults { skew: false, deaf: 0, entered: false, nopeek: false, loadfail: 0 };

fn env() -> OneRomEnv {
    OneRomEnv {
        enable: Some("1".to_string()),
        base: None,
        devs: None,
        flash: None,
        ramslots: None,
        nv0: None,
        skew: None,
        deaf: None,
        entered: None,
        nopeek: None,
        loadfail: None,
        entered_page: None,
        entered_bch: None,
    }
}

fn text(s: &str) -> Option<String> {
    Some(s.to_string())
}

/// 128 KB whose bytes differ from one device to the next.
fn image() -> Vec<u8> {
    (0..0x2_0000u32).map(|i| (i.wrapping_mul(7) >> 3) as u8 ^ (i & 1) as u8).collect()
}

fn model(e: &OneRomEnv) -> OneRom {
    OneRom::from_env(&image(), e).unwrap()
}

/// Sends bytes on a page by word accesses.
fn send(m: &mut OneRom, page: u32, bytes: &[u8]) {
    for b in bytes {
        let addr = m.base + (page * 256 + *b as u32) * m.stride;
        assert!(m.can_access(addr, 2));
        m.access(addr, 2);
    }
}

/// A byte at a device offset, as device `lane` serves it.
fn at(m: &OneRom, lane: u32, off: u32) -> u8 {
    m.fetch(m.base + off * m.stride + lane)
}

fn header(m: &OneRom, lane: u32) -> Vec<u8> {
    (0..6).map(|i| at(m, lane, REGION + i)).collect()
}

fn data(m: &OneRom, lane: u32, n: u32) -> Vec<u8> {
    (0..n).map(|i| at(m, lane, REGION + 8 + i)).collect()
}

/// ENTER on page 0xE0 with a region of `size` bytes at 0xE100, completion 0xBB
/// and success 0xCC.
fn entry(size: u16) -> Vec<u8> {
    vec![0x00, 0x01, 0xE0, 0x00, 0x00, 0xE1, 0x00, size as u8, (size >> 8) as u8, 0xBB, 0xCC]
}

fn opened(e: &OneRomEnv) -> OneRom {
    let mut m = model(e);
    send(&mut m, 0x12, KNOCK);
    send(&mut m, 0x34, &entry(0x200));
    m
}

#[test]
fn disabled_unless_the_setting_is_one() {
    let mut e = env();
    e.enable = None;
    assert!(OneRom::from_env(&image(), &e).is_none());
    e.enable = text("yes");
    assert!(OneRom::from_env(&image(), &e).is_none());
    e.enable = text(" 1");
    assert!(OneRom::from_env(&image(), &e).is_none());
    e.enable = text("1");
    assert!(OneRom::from_env(&image(), &e).is_some());
}

#[test]
fn defaults_and_clamps() {
    let m = model(&env());
    assert_eq!((m.ndev, m.base, m.stride, m.per_dev), (2, 0x40_0000, 2, 0x1_0000));
    assert_eq!((m.devs[0].nram, m.devs[0].nflash), (2, 3));
    assert!(m.gated && !m.swap && m.is_wf());
    let mut e = env();
    e.base = text(" 0xF80000 ");
    e.devs = text("9");
    e.flash = text("0");
    e.ramslots = text("99");
    let m = model(&e);
    assert_eq!((m.ndev, m.base, m.per_dev), (4, 0xF8_0000, 0x8000));
    assert_eq!((m.devs[3].nram, m.devs[3].nflash, m.devs[3].idx), (4, 1, 3));
}

#[test]
fn fresh_model_serves_the_image() {
    let rom = image();
    for n in ["1", "2", "3", "4"] {
        let mut e = env();
        e.devs = text(n);
        e.skew = text("1");
        let m = model(&e);
        let window = m.per_dev * m.stride;
        for i in (0..window).step_by(997) {
            assert_eq!(m.fetch(m.base + i), rom[i as usize]);
        }
        assert_eq!(m.fetch(m.base + window - 1), rom[window as usize - 1]);
    }
}

#[test]
fn past_the_device_reads_ff() {
    let m = model(&env());
    assert_eq!(m.fetch(BASE + 0x2_0000), 0xFF);
}

#[test]
fn covers_is_the_window() {
    let m = model(&env());
    assert!(!m.covers(BASE - 1));
    assert!(m.covers(BASE));
    assert!(m.covers(BASE + 0x1_FFFF));
    assert!(!m.covers(BASE + 0x2_0000));
    assert!(m.window_fits());
    let mut e = env();
    e.base = text("0xFFFF0000");
    assert!(!model(&e).window_fits());
}

#[test]
fn map_splits_addresses() {
    let m = model(&env());
    assert_eq!(m.map(BASE), (0, 0));
    assert_eq!(m.map(BASE + 1), (1, 0));
    assert_eq!(m.map(BASE + 7), (1, 3));
    let mut e = env();
    e.devs = text("3");
    assert_eq!(model(&e).map(BASE + 11), (2, 3));
}

#[test]
fn knock_needs_all_six_in_a_row() {
    let mut m = model(&env());
    send(&mut m, 0, b"!RBCP");
    send(&mut m, 0, b"x");
    assert_eq!(m.devs[0].kmax, 5);
    send(&mut m, 0, b"!R!RBCP!");
    send(&mut m, 0, &entry(0x200));
    assert!(m.entered(0) && m.entered(1));
    assert!(!m.entered(2));
    assert_eq!((m.commands(0), m.commands(1), m.commands(7)), (1, 1, 0));
}

#[test]
fn knock_bytes() {
    let k: Vec<u8> = (0..6).map(knock_byte).collect();
    assert_eq!(k, KNOCK);
}

#[test]
fn closed_device_heeds_every_page() {
    let mut m = model(&env());
    let bytes: Vec<u8> = KNOCK.iter().copied().chain(entry(0x200)).collect();
    for (k, b) in bytes.iter().enumerate() {
        assert_eq!((m.commands(0), m.entered(0)), (0, false));
        send(&mut m, (37 * k as u32) % 256, &[*b]);
    }
    assert_eq!((m.commands(0), m.commands(1)), (1, 1));
    assert!(m.entered(0) && m.entered(1));
    assert_eq!((m.devs[0].cmd_page, m.devs[0].region_off), (0xE0, REGION));
}

#[test]
fn nothing_runs_before_the_last_byte() {
    let mut m = opened(&env());
    let (h, served) = (header(&m, 0), m.devs[0].ram[0].clone());
    for b in [0x02u8, 0x00, 0x5A, 0x34, 0x12, 0x00] {
        send(&mut m, PAGE, &[b]);
        send(&mut m, PAGE + 1, &[0xAA]);
        assert_eq!((m.commands(0), header(&m, 0)), (1, h.clone()));
    }
    assert!(m.devs[0].ram[0] == served);
    send(&mut m, PAGE, &[0x01]);
    assert_eq!((m.commands(0), m.devs[0].ram[1][0x1234]), (2, 0x5A));
}

#[test]
fn byte_access_reaches_one_device() {
    let mut m = model(&env());
    for b in KNOCK.iter().chain(entry(0x200).iter()) {
        m.access(BASE + *b as u32 * 2 + 1, 1);
    }
    assert!(!m.entered(0));
    assert!(m.entered(1));
}

#[test]
fn entry_answers_with_the_next_token() {
    let rom = image();
    let m = opened(&env());
    for lane in 0..2u32 {
        let old = |i: u32| rom[((REGION + i) * 2 + lane) as usize];
        let token = u16::from_le_bytes([old(2), old(3)]).wrapping_add(1);
        let [lo, hi] = token.to_le_bytes();
        assert_eq!(header(&m, lane), [0x00, 0x01, lo, hi, 0xBB, 0xCC]);
        assert_eq!((at(&m, lane, REGION + 6), at(&m, lane, REGION + 7)), (0, 0));
    }
    let d = &m.devs[0];
    assert_eq!((d.cmd_page, d.region_off, d.data_size), (0xE0, REGION, 0x1F8));
}

#[test]
fn entry_with_a_bad_region_is_discarded() {
    for (i, v) in [(4usize, 0x01u8), (9, 0xAA), (10, 0xAA), (6, 0x01)] {
        let mut m = model(&env());
        let before: Vec<u8> = (0..0x1_0000).map(|o| at(&m, 0, o)).collect();
        let mut e = entry(0x200);
        e[i] = v;
        send(&mut m, 0, KNOCK);
        send(&mut m, 0, &e);
        assert!(!m.entered(0));
        assert_eq!(m.commands(0), 1);
        let after: Vec<u8> = (0..0x1_0000).map(|o| at(&m, 0, o)).collect();
        assert_eq!(before, after);
    }
}

#[test]
fn entry_that_does_not_fit_is_reported() {
    let mut m = model(&env());
    send(&mut m, 0, KNOCK);
    send(&mut m, 0, &entry(0x2000));
    assert!(!m.entered(0));
    let h = header(&m, 0);
    assert_eq!((h[0], h[1], h[4], h[5]), (0x00, 0x01, 0xBB, 0x33));
}

#[test]
fn entry_too_small_for_a_header_cannot_be_executed() {
    let mut m = model(&env());
    send(&mut m, 0, KNOCK);
    let e = entry(7);
    send(&mut m, 0, &e[..10]);
    assert!(!m.can_access(BASE + 0xCC * 2, 2));
    assert!(m.can_access(BASE + 0xAA * 2, 2));
    assert!(!m.can_access(BASE - 2, 2));
}

#[test]
fn token_moves_with_every_answer() {
    let mut m = opened(&env());
    let t0 = u16::from_le_bytes([header(&m, 0)[2], header(&m, 0)[3]]);
    for n in 1..600u16 {
        send(&mut m, PAGE, &[0x00, 0x00]);
        let [lo, hi] = t0.wrapping_add(n).to_le_bytes();
        assert_eq!(header(&m, 0), [0x00, 0x00, lo, hi, 0xBB, 0xCC]);
    }
    assert_eq!(m.commands(0), 600);
}

#[test]
fn other_pages_are_ordinary_fetches() {
    let mut m = opened(&env());
    let h = header(&m, 0);
    send(&mut m, PAGE + 1, &[0xAA, 0xAA]);
    send(&mut m, 0, KNOCK);
    assert_eq!(header(&m, 0), h);
    assert_eq!(m.commands(0), 1);
}

#[test]
fn unknown_command_is_refused() {
    let mut m = opened(&env());
    send(&mut m, PAGE, &[0x01, 0x63]);
    assert_eq!(header(&m, 0)[5], 0x33);
    send(&mut m, PAGE, &[0x77, 0x01]);
    assert_eq!((header(&m, 0)[0], header(&m, 0)[5]), (0x77, 0x33));
    send(&mut m, PAGE, &[0x00, 0x07]);
    assert_eq!(header(&m, 0)[5], 0x33);
}

#[test]
fn flash_slot_info() {
    let mut m = opened(&env());
    send(&mut m, PAGE, &[0x01, 0x01, 0x01]);
    assert_eq!(header(&m, 0)[5], 0xCC);
    let d = data(&m, 0, 32);
    assert_eq!(d[0], 0x1D);
    assert_eq!(&d[1..19], b"Macintosh Plus ROM");
    assert_eq!(d[19..32], [0u8; 13]);
    for slot in [3u8, 0xAA] {
        send(&mut m, PAGE, &[0x01, 0x01, slot]);
        assert_eq!(header(&m, 0)[5], 0x33);
    }
}

#[test]
fn flash_slot_info_all() {
    let mut m = opened(&env());
    send(&mut m, PAGE, &[0x01, 0x02]);
    let d = data(&m, 0, 100);
    assert_eq!(d[..4], [3, 3, 32, 0]);
    assert_eq!(&d[4..11], b"\x1Dmacmon");
    assert_eq!(&d[36..42], b"\x1DMacin");
    assert_eq!(&d[68..76], b"\x1DMacGrub");
    let mut m = model(&env());
    send(&mut m, 0, KNOCK);
    send(&mut m, 0, &entry(8 + 4 + 32 * 2 + 31));
    send(&mut m, PAGE, &[0x01, 0x02]);
    assert_eq!(data(&m, 0, 4), [3, 2, 32, 0]);
}

#[test]
fn room_for_many_records_holds_all_there_are() {
    let mut d = Dev::new(0, 65536, 2, 3);
    d.active = true;
    d.st = St::Cmd;
    d.group = 0x01;
    d.cmd = 0x02;
    d.data_size = 4 + 32 * 256;
    assert!(dispatch(&mut d, &NO_FAULTS));
    assert_eq!(d.ram[0][8..12], [3, 3, 32, 0]);
    for s in 0..3usize {
        assert_eq!(d.ram[0][12 + 32 * s..44 + 32 * s], slot_record(s, 65536));
    }
    assert!(d.ram[0][12 + 96..].iter().all(|b| *b == 0));
    d.data_size = 3;
    assert!(dispatch(&mut d, &NO_FAULTS));
    assert_eq!(d.ram[0][8..12], [3, 0, 32, 0]);
}

#[test]
fn ram_slot_info_names_the_part() {
    let mut m = opened(&env());
    send(&mut m, PAGE, &[0x01, 0x03]);
    assert_eq!(data(&m, 0, 4), [2, 0, 0x1D, 0]);
}

#[test]
fn identification() {
    let mut m = opened(&env());
    send(&mut m, PAGE, &[0x01, 0x04]);
    assert_eq!(data(&m, 1, 13), b"ONEROM-MODEL\0");
    send(&mut m, PAGE, &[0x01, 0x05]);
    assert_eq!(data(&m, 1, 6), b"0.0.0\0");
    send(&mut m, PAGE, &[0x01, 0x06]);
    assert_eq!(data(&m, 1, 3), [0, 1, 2]);
    send(&mut m, PAGE, &[0x01, 0x08]);
    assert_eq!(data(&m, 1, 2), [0, 0]);
}

#[test]
fn poke_reads_back() {
    let mut m = opened(&env());
    send(&mut m, PAGE, &[0x02, 0x00, 0x5A, 0x34, 0x12, 0x00, 0x01]);
    assert_eq!(header(&m, 0)[5], 0xCC);
    send(&mut m, PAGE, &[0x01, 0x07, 3, 0x33, 0x12, 0x00, 0x01]);
    let rom = image();
    assert_eq!(data(&m, 0, 3), [rom[0x1233 * 2], 0x5A, rom[0x1235 * 2]]);
}

#[test]
fn peek_past_the_end_is_ff() {
    let mut m = opened(&env());
    send(&mut m, PAGE, &[0x01, 0x07, 3, 0xFE, 0xFF, 0x00, 0x01]);
    let rom = image();
    assert_eq!(data(&m, 0, 3), [rom[0xFFFE * 2], rom[0xFFFF * 2], 0xFF]);
    for (count, slot) in [(0u8, 1u8), (1, 2), (1, 0xAA)] {
        send(&mut m, PAGE, &[0x01, 0x07, count, 0, 0, 0, slot]);
        assert_eq!(header(&m, 0)[5], 0x33);
    }
}

#[test]
fn peek_can_be_refused() {
    let mut e = env();
    e.nopeek = text("1");
    let mut m = opened(&e);
    send(&mut m, PAGE, &[0x01, 0x07, 1, 0, 0, 0, 1]);
    assert_eq!(header(&m, 0)[5], 0x33);
}

#[test]
fn poke_refuses_the_running_slot_and_the_outside() {
    let mut m = opened(&env());
    for tail in [[0u8, 0, 0, 0], [0, 0, 0, 2], [0, 0, 0, 0xAA], [0, 0, 1, 1]] {
        let before = at(&m, 0, 0);
        send(&mut m, PAGE, &[0x02, 0x00, !before, tail[0], tail[1], tail[2], tail[3]]);
        assert_eq!(header(&m, 0)[5], 0x33);
        assert_eq!(at(&m, 0, 0), before);
    }
}

#[test]
fn switch_slot() {
    let mut m = opened(&env());
    send(&mut m, PAGE, &[0x02, 0x00, 0x5A, 0x00, 0x00, 0x00, 0x01]);
    send(&mut m, PAGE, &[0x02, 0x01, 0x01]);
    assert!(m.entered(0));
    assert_eq!(at(&m, 0, 0), 0x5A);
    send(&mut m, PAGE, &[0x02, 0x01, 0xAA]);
    assert_eq!(header(&m, 0)[5], 0x33);
}

#[test]
fn fill_then_load_then_serve() {
    let rom = image();
    let mut m = opened(&env());
    send(&mut m, PAGE, &[0x02, 0x03, 0x77, 0x01]);
    assert!(m.devs[1].ram[1].iter().all(|b| *b == 0x77));
    send(&mut m, PAGE, &[0x02, 0x03, 0x77, 0x00]);
    assert_eq!(header(&m, 0)[5], 0x33);
    send(&mut m, PAGE, &[0x02, 0x02, 0x01, 0x02]);
    assert_eq!(header(&m, 0)[5], 0xCC);
    send(&mut m, PAGE, &[0x00, 0x04, 0x01]);
    assert!(!m.entered(0) && !m.entered(1));
    for i in (0..rom.len()).step_by(101) {
        assert_eq!(m.fetch(BASE + i as u32), rom[i]);
    }
}

#[test]
fn load_refuses_slots_that_are_not() {
    let mut m = opened(&env());
    for (r, f) in [(2u8, 0u8), (0xAA, 0), (1, 3), (1, 0xAA)] {
        send(&mut m, PAGE, &[0x02, 0x02, r, f]);
        assert_eq!(header(&m, 0)[5], 0x33);
    }
}

#[test]
fn load_can_be_refused_or_fail_half_done() {
    let rom = image();
    for fault in ["1", "2"] {
        let mut e = env();
        e.loadfail = text(fault);
        let mut m = opened(&e);
        send(&mut m, PAGE, &[0x02, 0x03, 0x77, 0x01]);
        send(&mut m, PAGE, &[0x02, 0x02, 0x01, 0x00]);
        assert_eq!(header(&m, 0)[5], 0x33);
        let ram = &m.devs[0].ram[1];
        if fault == "1" {
            assert!(ram.iter().all(|b| *b == 0x77));
        } else {
            assert!((0..0x8000).all(|i| ram[i] == rom[i * 2]));
            assert!((0x8000..0x1_0000).all(|i| ram[i] == 0x77));
        }
    }
}

#[test]
fn load_and_exit() {
    let rom = image();
    let mut m = opened(&env());
    send(&mut m, PAGE, &[0x02, 0x03, 0x77, 0x01]);
    let h = header(&m, 0);
    send(&mut m, PAGE, &[0x00, 0x05, 0x01, 0x0F]);
    assert!(!m.entered(0));
    assert_eq!(header(&m, 0), h);
    assert!((0..0x1_0000).all(|i| m.devs[0].ram[1][i] == rom[i * 2]));
    let mut m = opened(&env());
    send(&mut m, PAGE, &[0x02, 0x03, 0x77, 0x01]);
    send(&mut m, PAGE, &[0x00, 0x05, 0x01, 0x10]);
    assert!(!m.entered(0));
    assert!(m.devs[0].ram[1].iter().all(|b| *b == 0x77));
}

#[test]
fn exits() {
    let mut m = opened(&env());
    let h = header(&m, 0);
    send(&mut m, PAGE, &[0x00, 0x03]);
    assert!(!m.entered(0));
    assert_eq!(header(&m, 0), h);
    let mut m = opened(&env());
    send(&mut m, PAGE, &[0x00, 0x02]);
    assert!(!m.entered(0));
    assert_eq!((header(&m, 0)[1], header(&m, 0)[5]), (0x02, 0xCC));
}

#[test]
fn entry_and_restore_leave_the_image() {
    let rom = image();
    let mut e = env();
    e.devs = text("1");
    let mut m = model(&e);
    send(&mut m, 0, KNOCK);
    send(&mut m, 0, &entry(0x200));
    let mut restore = vec![0x00, 0x06];
    restore.extend_from_slice(&rom[REGION as usize..REGION as usize + 8]);
    restore.push(8);
    send(&mut m, PAGE, &restore);
    assert!(!m.entered(0));
    assert_eq!(m.commands(0), 2);
    for i in 0..rom.len() {
        assert_eq!(m.fetch(BASE + i as u32), rom[i]);
    }
}

#[test]
fn restore_count_out_of_range_only_leaves() {
    for n in [0u8, 9] {
        let mut m = opened(&env());
        let h = header(&m, 0);
        send(&mut m, PAGE, &[0x00, 0x06, 1, 2, 3, 4, 5, 6, 7, 8, n]);
        assert!(!m.entered(0));
        assert_eq!(header(&m, 0), h);
    }
}

#[test]
fn nv_reads_and_writes() {
    let mut m = opened(&env());
    send(&mut m, PAGE, &[0x03, 0x00]);
    assert_eq!(data(&m, 0, 3), [0x00, 0x10, 1]);
    send(&mut m, PAGE, &[0x03, 0x01, 2, 0xFE, 0x0F]);
    assert_eq!(data(&m, 0, 2), [0xFF, 0xFF]);
    for bad in [[0u8, 0, 0], [2, 0xFF, 0x0F]] {
        send(&mut m, PAGE, &[0x03, 0x01, bad[0], bad[1], bad[2]]);
        assert_eq!(header(&m, 0)[5], 0x33);
    }
    let spare = m.devs[0].ram[1].clone();
    send(&mut m, PAGE, &[0x03, 0x02, 0x01]);
    send(&mut m, PAGE, &[0x03, 0x03, 0x42, 0x05, 0x01]);
    assert_eq!(m.devs[0].nv[0x105], 0xFF);
    send(&mut m, PAGE, &[0x03, 0x04]);
    assert!(m.devs[0].ram[1] == spare);
    send(&mut m, PAGE, &[0x03, 0x01, 1, 0x05, 0x01]);
    assert_eq!(data(&m, 0, 1), [0x42]);
    send(&mut m, PAGE, &[0x03, 0x06, 0x43, 0x06, 0x01, 0x01]);
    assert_eq!(m.devs[1].nv[0x106], 0x43);
}

#[test]
fn nv_write_needs_a_spare_slot_and_a_beginning() {
    let mut m = opened(&env());
    for slot in [0u8, 2, 0xAA] {
        send(&mut m, PAGE, &[0x03, 0x02, slot]);
        assert_eq!(header(&m, 0)[5], 0x33);
        send(&mut m, PAGE, &[0x03, 0x06, 1, 0, 0, slot]);
        assert_eq!(header(&m, 0)[5], 0x33);
    }
    send(&mut m, PAGE, &[0x03, 0x03, 1, 0, 0]);
    assert_eq!(header(&m, 0)[5], 0x33);
    send(&mut m, PAGE, &[0x03, 0x04]);
    assert_eq!(header(&m, 0)[5], 0x33);
    send(&mut m, PAGE, &[0x03, 0x06, 1, 0, 0x10, 1]);
    assert_eq!(header(&m, 0)[5], 0x33);
    send(&mut m, PAGE, &[0x03, 0x02, 1]);
    send(&mut m, PAGE, &[0x03, 0x03, 1, 0, 0x10]);
    assert_eq!(header(&m, 0)[5], 0x33);
    send(&mut m, PAGE, &[0x03, 0x03, 1, 0, 0]);
    send(&mut m, PAGE, &[0x03, 0x05]);
    assert_eq!(header(&m, 0)[5], 0xCC);
    assert!(m.devs[0].nv.iter().all(|b| *b == 0xFF) && m.devs[0].stage.is_none());
}

#[test]
fn nv_byte_can_be_preloaded() {
    let mut e = env();
    e.nv0 = text(" 7 ");
    let m = model(&e);
    assert_eq!((m.devs[0].nv[0], m.devs[0].nv[1], m.devs[1].nv[0]), (7, 0xFF, 7));
    e.nv0 = text("256");
    assert_eq!(model(&e).devs[0].nv[0], 0xFF);
}

#[test]
fn closed_device_refuses() {
    let mut m = model(&env());
    send(&mut m, 0, KNOCK);
    send(&mut m, 0, &[0x02, 0x03, 0x77, 0x01]);
    assert_eq!(m.commands(0), 1);
    assert!(!m.devs[0].ram[1].iter().all(|b| *b == 0x77));
}

#[test]
fn reset_resynchronises() {
    let mut m = opened(&env());
    send(&mut m, PAGE, &[0x03, 0x02, 0x01]);
    let h = header(&m, 0);
    send(&mut m, PAGE, &[0xAA, 0xAA]);
    assert!(!m.entered(0) && m.devs[0].stage.is_none());
    assert_eq!(header(&m, 0), h);
    send(&mut m, 0, KNOCK);
    send(&mut m, 0, &entry(0x200));
    assert!(m.entered(0));
}

#[test]
fn every_command_of_the_reset_group_resets() {
    for cmd in [0x00u8, 0x01, 0xAA] {
        let mut d = Dev::new(0, 64, 2, 1);
        d.active = true;
        d.st = St::Cmd;
        d.group = 0xAA;
        d.cmd = cmd;
        d.stage = Some(d.nv.clone());
        d.cmds = u32::MAX;
        assert!(dispatch(&mut d, &NO_FAULTS));
        assert!(d.st == St::Knock && d.kmatch == 0 && !d.active && d.stage.is_none());
        assert_eq!(d.cmds, u32::MAX);
        assert!(d.ram[0].iter().all(|b| *b == 0));
    }
}

#[test]
fn deaf_device_executes_and_stays_silent() {
    let mut e = env();
    e.deaf = text("2");
    let mut m = opened(&e);
    send(&mut m, PAGE, &[0x00, 0x00]);
    let h = header(&m, 0);
    send(&mut m, PAGE, &[0x02, 0x03, 0x77, 0x01]);
    assert_eq!(header(&m, 0), h);
    assert_eq!(m.commands(0), 3);
    assert!(m.devs[0].ram[1].iter().all(|b| *b == 0x77));
    let served = m.devs[0].ram[0].clone();
    send(&mut m, PAGE, &[0x01, 0x06]);
    send(&mut m, PAGE, &[0x01, 0x07, 4, 0, 0, 0, 1]);
    send(&mut m, PAGE, &[0x03, 0x06, 0x42, 0, 0, 1]);
    send(&mut m, PAGE, &[0x03, 0x01, 1, 0, 0]);
    assert!(m.devs[0].ram[0] == served);
    assert_eq!((m.devs[0].nv[0], m.commands(0)), (0x42, 7));
    send(&mut m, PAGE, &[0x00, 0x04, 0x01]);
    assert!(!m.entered(0));
    assert_eq!(at(&m, 0, 0), 0x77);
}

#[test]
fn deaf_device_writes_no_data() {
    let faults = Faults { deaf: 1, ..NO_FAULTS };
    let mut d = Dev::new(0, 256, 2, 1);
    d.active = true;
    d.st = St::Cmd;
    d.group = 0x01;
    d.cmd = 0x06;
    d.data_size = 152;
    d.cmds = 1;
    run_command(&mut d, &faults);
    assert_eq!((d.cmds, d.tok_lo, d.tok_hi, d.active), (2, 0, 0, true));
    assert_eq!(d.data_size, 152);
    assert!(d.ram[0].iter().all(|b| *b == 0));
    d.cmds = 0;
    run_command(&mut d, &faults);
    assert_eq!(d.ram[0][..11], [0x01, 0x06, 1, 0, 0xFF, 0xFF, 0, 0, 0, 1, 2]);
}

#[test]
fn deaf_device_enters_unheard() {
    let mut e = env();
    e.deaf = text("1");
    for (size, enters) in [(0x200u16, true), (0x2000, false)] {
        let mut m = model(&e);
        send(&mut m, 0, KNOCK);
        send(&mut m, 0, &[0x00, 0x00]);
        let served = m.devs[0].ram[0].clone();
        let held = u16::from_le_bytes([header(&m, 0)[2], header(&m, 0)[3]]);
        send(&mut m, 0, KNOCK);
        send(&mut m, 0, &entry(size));
        assert_eq!((m.entered(0), m.commands(0)), (enters, 2));
        assert!(m.devs[0].ram[0] == served);
        let d = &m.devs[0];
        assert_eq!(u16::from_le_bytes([d.tok_lo, d.tok_hi]), held);
        assert_eq!((d.region_off, d.complete, d.status_ok), (REGION, 0xBB, 0xCC));
    }
}

#[test]
fn entered_model_needs_no_knock() {
    let mut e = env();
    e.entered = text("1");
    let mut m = model(&e);
    assert!(m.entered(0) && m.entered(1));
    send(&mut m, PAGE, &[0x01, 0x03]);
    assert_eq!(m.commands(0), 1);
    assert_eq!((header(&m, 0)[4], header(&m, 0)[5]), (0xBB, 0xCC));
    assert_eq!(data(&m, 0, 4), [2, 0, 0x1D, 0]);
    e.entered_page = text("0x12");
    e.entered_bch = text("256");
    let mut m = model(&e);
    send(&mut m, 0x12, &[0x00, 0x00]);
    assert_eq!((at(&m, 0, 0x100), at(&m, 0, 0x104)), (0x00, 0xBB));
}

#[test]
fn skewed_devices_disagree() {
    let mut e = env();
    e.skew = text("1");
    e.devs = text("3");
    let slots = |m: &OneRom| -> Vec<usize> { m.devs.iter().map(|d| d.active_slot).collect() };
    assert_eq!(slots(&model(&e)), [0, 1, 1]);
    e.ramslots = text("1");
    assert_eq!(slots(&model(&e)), [0, 0, 0]);
}

#[test]
fn argument_counts() {
    for (g, c, n) in [
        (0x00u8, 0x01u8, 9usize),
        (0x00, 0x04, 1),
        (0x00, 0x05, 2),
        (0x00, 0x06, 9),
        (0x01, 0x01, 1),
        (0x01, 0x07, 5),
        (0x02, 0x00, 5),
        (0x02, 0x01, 1),
        (0x02, 0x02, 2),
        (0x02, 0x03, 2),
        (0x03, 0x01, 3),
        (0x03, 0x02, 1),
        (0x03, 0x03, 3),
        (0x03, 0x06, 4),
        (0x03, 0x05, 0),
        (0xAA, 0xAA, 0),
        (0x09, 0x01, 0),
    ] {
        assert_eq!(arg_count(g, c), n);
    }
}

#[test]
fn silent_commands() {
    assert!(cmd_is_silent(0xAA, 0xAA));
    assert!(!cmd_is_silent(0xAA, 0x00));
    assert!(!cmd_is_silent(0x00, 0x01));
    assert!(!cmd_is_silent(0x00, 0x02));
    assert!((3..=6).all(|c| cmd_is_silent(0x00, c)));
    assert!(!cmd_is_silent(0x02, 0x04));
}

#[test]
fn rom_types() {
    let types: Vec<u8> = [2048, 8192, 32768, 65536, 131072].map(rom_type_for).to_vec();
    assert_eq!(types, [0x1A, 0x1B, 0x1C, 0x1D, 0xFF]);
}

#[test]
fn slot_records() {
    let r = slot_record(9, 32768);
    assert_eq!(&r[..6], b"\x1Cslot\0");
    assert_eq!(r[6..], [0u8; 26]);
}

#[test]
fn header_and_data_stay_in_the_slot() {
    let mut d = Dev::new(0, 16, 2, 1);
    assert!(d.is_wf());
    d.region_off = 12;
    d.data_size = 4;
    d.hdr_write(3, 9);
    d.hdr_write(4, 8);
    assert_eq!((d.ram[0][15], d.hdr_read(3), d.hdr_read(4)), (9, 9, 0));
    d.region_off = 0;
    d.data_write(2, &[1, 2, 3]);
    assert_eq!(d.ram[0][8..14], [0, 0, 1, 2, 0, 0]);
    d.data_write(4, &[5]);
    assert_eq!(d.ram[0][12], 0);
    d.cmd_begin(7, 6);
    assert_eq!(d.ram[0][..6], [7, 6, 1, 0, 0x00, 0]);
    d.cmd_end(false);
    assert_eq!(d.ram[0][..6], [7, 6, 1, 0, 0xFF, 0x00]);
}

#[test]
fn entry_on_a_bare_device() {
    let mut d = Dev::new(0, 64, 2, 1);
    d.args[..9].copy_from_slice(&[1, 2, 8, 0, 0, 24, 0, 0x11, 0x22]);
    d.ram[0][10] = 0xFF;
    assert!(exec_enter(&mut d));
    assert!(d.active);
    assert_eq!((d.cmd_page, d.region_off, d.data_size), (0x201, 8, 16));
    assert_eq!((d.tok_lo, d.tok_hi), (0xFF, 0));
    assert!(d.ram[0].iter().all(|b| *b == 0));
}

#[test]
fn feeding_a_bare_device() {
    let mut d = Dev::new(0, 64, 2, 1);
    for b in KNOCK {
        feed(&mut d, 0x300 + *b as u32, &NO_FAULTS);
    }
    feed(&mut d, 0x00, &NO_FAULTS);
    assert!(d.can_feed(0x00));
    feed(&mut d, 0x00, &NO_FAULTS);
    assert_eq!((d.cmds, d.active), (1, false));
    d.nram = 9;
    assert!(!d.is_wf());
}
