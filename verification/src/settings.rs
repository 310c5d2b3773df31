//! Reading of the textual settings that configure the models.
//!
//! A setting is the value of an environment variable, or `None` when the
//! variable is absent. What follows turns such a value into a flag or a number.

pub mod laws;

use vstd::prelude::*;

verus! {

/// The characters of a setting.
pub open spec fn text(v: Option<String>) -> Option<Seq<char>> {
    match v {
        Some(s) => Some(s@),
        None => None,
    }
}

/// The characters with the Unicode property `White_Space`.
pub open spec fn white_space(c: char) -> bool {
    ||| 0x9 <= c as u32 <= 0xD
    ||| c as u32 == 0x20
    ||| c as u32 == 0x85
    ||| c as u32 == 0xA0
    ||| c as u32 == 0x1680
    ||| 0x2000 <= c as u32 <= 0x200A
    ||| c as u32 == 0x2028
    ||| c as u32 == 0x2029
    ||| c as u32 == 0x202F
    ||| c as u32 == 0x205F
    ||| c as u32 == 0x3000
}

/// `s` without the white space at its two ends.
pub open spec fn trimmed(s: Seq<char>) -> Seq<char>
    decreases s.len(),
{
    if s.len() == 0 {
        s
    } else if white_space(s.first()) {
        trimmed(s.drop_first())
    } else if white_space(s.last()) {
        trimmed(s.drop_last())
    } else {
        s
    }
}

/// What `c` is worth as a digit of base `radix`, if it is one.
pub open spec fn digit_value(c: char, radix: int) -> Option<int> {
    let v = if '0' <= c <= '9' {
        c as int - '0' as int
    } else if 'a' <= c <= 'f' {
        c as int - 'a' as int + 10
    } else if 'A' <= c <= 'F' {
        c as int - 'A' as int + 10
    } else {
        16
    };
    if v < radix {
        Some(v)
    } else {
        None
    }
}

/// The number that a string of digits writes in base `radix`; the empty string
/// writes zero, and a string with a character that is no digit writes nothing.
pub open spec fn digits_value(s: Seq<char>, radix: int) -> Option<int>
    decreases s.len(),
{
    if s.len() == 0 {
        Some(0)
    } else {
        match (digits_value(s.drop_last(), radix), digit_value(s.last(), radix)) {
            (Some(high), Some(low)) => Some(high * radix + low),
            _ => None,
        }
    }
}

/// The unsigned number that `s` writes in base `radix`, if it is at most `max`:
/// at least one digit, with one `+` allowed in front.
pub open spec fn unsigned(s: Seq<char>, radix: int, max: int) -> Option<int> {
    let digits = if s.len() > 0 && s[0] == '+' {
        s.skip(1)
    } else {
        s
    };
    if digits.len() == 0 {
        None
    } else {
        match digits_value(digits, radix) {
            Some(v) => if v <= max {
                Some(v)
            } else {
                None
            },
            None => None,
        }
    }
}

/// Whether a setting switches something on: it is the one character `1`.
pub open spec fn switched_on(v: Option<Seq<char>>) -> bool {
    v == Some(seq!['1'])
}

/// The number a setting stands for: hexadecimal after `0x`, decimal otherwise,
/// with white space around it ignored. A setting that is absent or writes no
/// 32-bit number stands for `default`.
pub open spec fn number(v: Option<Seq<char>>, default: int) -> int {
    let parsed = match v {
        Some(s) => {
            let t = trimmed(s);
            if t.len() >= 2 && t[0] == '0' && t[1] == 'x' {
                unsigned(t.skip(2), 16, u32::MAX as int)
            } else {
                unsigned(t, 10, u32::MAX as int)
            }
        },
        None => None,
    };
    match parsed {
        Some(n) => n,
        None => default,
    }
}

/// The byte a setting writes in decimal, with white space around it ignored.
pub open spec fn decimal_byte(v: Option<Seq<char>>) -> Option<int> {
    match v {
        Some(s) => unsigned(trimmed(s), 10, u8::MAX as int),
        None => None,
    }
}

/// The positive number a setting writes in decimal, with nothing around it;
/// `default` where it is absent, zero or no 32-bit number.
pub open spec fn positive(v: Option<Seq<char>>, default: int) -> int {
    let parsed = match v {
        Some(s) => unsigned(s, 10, u32::MAX as int),
        None => None,
    };
    match parsed {
        Some(n) => if n > 0 {
            n
        } else {
            default
        },
        None => default,
    }
}

/// A number written in digits is never negative.
proof fn lemma_digits_value_bound(s: Seq<char>, radix: int)
    requires
        0 < radix,
    ensures
        digits_value(s, radix) matches Some(v) ==> 0 <= v,
    decreases s.len(),
{
    if s.len() > 0 {
        lemma_digits_value_bound(s.drop_last(), radix);
        if let Some(high) = digits_value(s.drop_last(), radix) {
            assert(0 <= high * radix) by (nonlinear_arith)
                requires
                    0 <= high,
                    0 < radix,
            ;
        }
    }
}

/// Numbers parsed out of a setting lie between zero and the given maximum.
pub proof fn lemma_unsigned_bound(s: Seq<char>, radix: int, max: int)
    requires
        0 < radix,
    ensures
        unsigned(s, radix, max) matches Some(v) ==> 0 <= v <= max,
{
    lemma_digits_value_bound(s, radix);
    lemma_digits_value_bound(s.skip(1), radix);
}

/// A setting with a non-negative 32-bit default stands for a 32-bit number.
pub proof fn lemma_number_bound(v: Option<Seq<char>>, default: int)
    requires
        0 <= default <= u32::MAX,
    ensures
        0 <= number(v, default) <= u32::MAX,
{
    if let Some(s) = v {
        let t = trimmed(s);
        lemma_unsigned_bound(t, 10, u32::MAX as int);
        lemma_unsigned_bound(t.skip(2), 16, u32::MAX as int);
    }
}

/// A setting with a positive 32-bit default stands for a positive 32-bit number.
pub proof fn lemma_positive_bound(v: Option<Seq<char>>, default: int)
    requires
        0 < default <= u32::MAX,
    ensures
        0 < positive(v, default) <= u32::MAX,
{
    if let Some(s) = v {
        lemma_unsigned_bound(s, 10, u32::MAX as int);
    }
}

fn is_white_space(c: char) -> (r: bool)
    ensures
        r == white_space(c),
{
    let u: u32 = c as u32;
    (0x9 <= u && u <= 0xD) || u == 0x20 || u == 0x85 || u == 0xA0 || u == 0x1680 || (0x2000 <= u
        && u <= 0x200A) || u == 0x2028 || u == 0x2029 || u == 0x202F || u == 0x205F || u == 0x3000
}

fn trim(s: &str) -> (r: &str)
    ensures
        r@ == trimmed(s@),
{
    let len: usize = s.unicode_len();
    let mut from: usize = 0;
    assert(s@.subrange(0, len as int) =~= s@);
    while from < len && is_white_space(s.get_char(from))
        invariant
            from <= len,
            len == s@.len(),
            trimmed(s@) == trimmed(s@.subrange(from as int, len as int)),
        decreases len - from,
    {
        assert(s@.subrange(from as int, len as int).drop_first() =~= s@.subrange(
            from + 1,
            len as int,
        ));
        from = from + 1;
    }
    let mut to: usize = len;
    while from < to && is_white_space(s.get_char(to - 1))
        invariant
            from <= to <= len,
            len == s@.len(),
            from < len ==> !white_space(s@[from as int]),
            trimmed(s@) == trimmed(s@.subrange(from as int, to as int)),
        decreases to,
    {
        assert(s@.subrange(from as int, to as int).drop_last() =~= s@.subrange(
            from as int,
            to - 1,
        ));
        to = to - 1;
    }
    s.substring_char(from, to)
}

fn digit(c: char, radix: u32) -> (r: Option<u32>)
    requires
        radix <= 16,
    ensures
        (match r {
            Some(v) => digit_value(c, radix as int) == Some(v as int) && v < 16,
            None => digit_value(c, radix as int) is None,
        }),
{
    let u: u32 = c as u32;
    let v: u32 = if '0' <= c && c <= '9' {
        u - '0' as u32
    } else if 'a' <= c && c <= 'f' {
        u - 'a' as u32 + 10
    } else if 'A' <= c && c <= 'F' {
        u - 'A' as u32 + 10
    } else {
        16
    };
    if v < radix {
        Some(v)
    } else {
        None
    }
}

fn parse_unsigned(s: &str, radix: u32, max: u32) -> (r: Option<u32>)
    requires
        radix == 10 || radix == 16,
    ensures
        (match r {
            Some(v) => unsigned(s@, radix as int, max as int) == Some(v as int),
            None => unsigned(s@, radix as int, max as int) is None,
        }),
{
    let len: usize = s.unicode_len();
    let first: usize = if len > 0 && s.get_char(0) == '+' {
        1
    } else {
        0
    };
    let ghost digits = if first == 1 {
        s@.skip(1)
    } else {
        s@
    };
    if first == len {
        return None;
    }
    let mut i: usize = first;
    // Saturates one above `max`.
    let mut acc: u64 = 0;
    assert(digits.take(0) =~= Seq::<char>::empty());
    while i < len
        invariant
            radix == 10 || radix == 16,
            len == s@.len(),
            first <= i <= len,
            first == (if len > 0 && s@[0] == '+' {
                1int
            } else {
                0
            }),
            digits == (if first == 1 {
                s@.skip(1)
            } else {
                s@
            }),
            digits_value(digits.take(i - first), radix as int) matches Some(v) && (if v <= max {
                acc == v
            } else {
                acc == max + 1
            }),
        decreases len - i,
    {
        let ghost seen = digits.take(i + 1 - first);
        assert(seen.drop_last() =~= digits.take(i - first));
        assert(seen.last() == s@[i as int]);
        match digit(s.get_char(i), radix) {
            Some(d) => {
                proof {
                    lemma_digits_value_bound(digits.take(i - first), radix as int);
                }
                acc = acc * radix as u64 + d as u64;
                if acc > max as u64 {
                    acc = max as u64 + 1;
                }
            },
            None => {
                proof {
                    lemma_no_digit(digits, radix as int, i - first);
                }
                return None;
            },
        }
        i = i + 1;
    }
    assert(digits.take(len - first) =~= digits);
    if acc <= max as u64 {
        Some(acc as u32)
    } else {
        None
    }
}

/// A string with a character that is no digit writes no number.
proof fn lemma_no_digit(s: Seq<char>, radix: int, at: int)
    requires
        0 <= at < s.len(),
        digit_value(s[at], radix) is None,
    ensures
        digits_value(s, radix) is None,
    decreases s.len(),
{
    if at < s.len() - 1 {
        lemma_no_digit(s.drop_last(), radix, at);
    }
}

/// Whether the setting is exactly `1`.
pub fn flag(v: &Option<String>) -> (r: bool)
    ensures
        r == switched_on(text(*v)),
{
    match v {
        Some(s) => {
            let one = s.as_str().unicode_len() == 1 && s.as_str().get_char(0) == '1';
            assert(one ==> s@ =~= seq!['1']);
            one
        },
        None => false,
    }
}

/// The number the setting stands for, or `default`.
pub fn num(v: &Option<String>, default: u32) -> (r: u32)
    ensures
        r == number(text(*v), default as int),
{
    match v {
        Some(s) => {
            let t = trim(s.as_str());
            let len: usize = t.unicode_len();
            let parsed = if len >= 2 && t.get_char(0) == '0' && t.get_char(1) == 'x' {
                let h = t.substring_char(2, len);
                assert(h@ =~= t@.skip(2));
                parse_unsigned(h, 16, u32::MAX)
            } else {
                parse_unsigned(t, 10, u32::MAX)
            };
            match parsed {
                Some(n) => n,
                None => default,
            }
        },
        None => default,
    }
}

/// The byte the setting writes in decimal.
pub fn byte(v: &Option<String>) -> (r: Option<u8>)
    ensures
        (match r {
            Some(b) => decimal_byte(text(*v)) == Some(b as int),
            None => decimal_byte(text(*v)) is None,
        }),
{
    match v {
        Some(s) => match parse_unsigned(trim(s.as_str()), 10, 255) {
            Some(n) => {
                proof {
                    lemma_unsigned_bound(trimmed(s@), 10, 255);
                }
                Some(n as u8)
            },
            None => None,
        },
        None => None,
    }
}

/// The positive decimal number the setting writes, or `default`.
pub fn positive_num(v: &Option<String>, default: u32) -> (r: u32)
    ensures
        r == positive(text(*v), default as int),
{
    match v {
        Some(s) => match parse_unsigned(s.as_str(), 10, u32::MAX) {
            Some(n) => if n > 0 {
                n
            } else {
                default
            },
            None => default,
        },
        None => default,
    }
}

} // verus!
