use snow_core::settings::{byte, flag, num, positive_num};

fn some(s: &str) -> Option<String> {
    Some(s.to_string())
}

#[test]
fn flags() {
    assert!(flag(&some("1")));
    for s in ["", "0", "11", "1 ", "true"] {
        assert!(!flag(&some(s)));
    }
    assert!(!flag(&None));
}

#[test]
fn numbers() {
    assert_eq!(num(&None, 7), 7);
    assert_eq!(num(&some("42"), 7), 42);
    assert_eq!(num(&some("\t +42\u{3000}"), 7), 42);
    assert_eq!(num(&some("0x1F"), 7), 31);
    assert_eq!(num(&some("0x+fF"), 7), 255);
    assert_eq!(num(&some("0xFFFFFFFF"), 7), u32::MAX);
    assert_eq!(num(&some("0x100000000"), 7), 7);
    assert_eq!(num(&some("4294967295"), 7), u32::MAX);
    assert_eq!(num(&some("4294967296"), 7), 7);
    assert_eq!(num(&some("99999999999999999999999999"), 7), 7);
    for s in ["", " ", "+", "0x", "0X10", "-1", "12a", "1 2", "++1", "0xG"] {
        assert_eq!(num(&some(s), 7), 7);
    }
}

#[test]
fn numbers_agree_with_std() {
    for s in ["0", "007", "+0", "4294967295", "65536", " 9", "9 ", "１", "5\n", ""] {
        assert_eq!(num(&some(s), 1), s.trim().parse::<u32>().unwrap_or(1));
        assert_eq!(positive_num(&some(s), 1), s.parse::<u32>().ok().filter(|v| *v > 0).unwrap_or(1));
        assert_eq!(byte(&some(s)), s.trim().parse::<u8>().ok());
    }
}

#[test]
fn bytes() {
    assert_eq!(byte(&some("255")), Some(255));
    assert_eq!(byte(&some(" 0 ")), Some(0));
    assert_eq!(byte(&some("256")), None);
    assert_eq!(byte(&some("0x10")), None);
    assert_eq!(byte(&None), None);
}

#[test]
fn positive_numbers() {
    assert_eq!(positive_num(&some("60"), 4), 60);
    assert_eq!(positive_num(&some("0"), 4), 4);
    assert_eq!(positive_num(&some(" 60"), 4), 4);
    assert_eq!(positive_num(&None, 4), 4);
}

#[test]
fn white_space_agrees_with_std() {
    for u in 0..0x1_1000u32 {
        if let Some(c) = char::from_u32(u) {
            let s = format!("{}5{}", c, c);
            assert_eq!(num(&Some(s.clone()), 1), s.trim().parse::<u32>().unwrap_or(1));
        }
    }
}
