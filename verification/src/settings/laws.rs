//! What holds of the settings that are read.

use vstd::prelude::*;

verus! {

/// A switch is on for the one character `1` and for nothing else.
pub proof fn only_one_switches_on(v: Option<Seq<char>>)
    ensures
        super::switched_on(v) <==> v is Some && v->0.len() == 1 && v->0[0] == '1',
{
    if let Some(s) = v {
        assert(s.len() == 1 && s[0] == '1' ==> s =~= seq!['1']);
    }
}

/// A setting that is there has its characters, and one that is not has none.
pub proof fn text_is_taken_as_it_is(s: String)
    ensures
        super::text(Some(s)) == Some(s@),
        super::text(None) is None,
{
}

/// The characters that are white space.
pub proof fn white_space_is_listed(c: char)
    ensures
        ({
            let u = c as u32;
            super::white_space(c) <==> u == 9 || u == 10 || u == 11 || u == 12 || u == 13 || u == 32
                || u == 0x85 || u == 0xA0 || u == 0x1680 || u == 0x2000 || u == 0x2001 || u == 0x2002
                || u == 0x2003 || u == 0x2004 || u == 0x2005 || u == 0x2006 || u == 0x2007 || u
                == 0x2008 || u == 0x2009 || u == 0x200A || u == 0x2028 || u == 0x2029 || u == 0x202F
                || u == 0x205F || u == 0x3000
        }),
{
}

/// What is left of a string is what lies between the white space at its two ends.
pub proof fn ends_are_trimmed(s: Seq<char>, i: int, j: int)
    requires
        0 <= i <= j <= s.len(),
        forall|k: int| 0 <= k < i ==> super::white_space(#[trigger] s[k]),
        forall|k: int| j <= k < s.len() ==> super::white_space(#[trigger] s[k]),
        i < j ==> !super::white_space(s[i]) && !super::white_space(s[j - 1]),
    ensures
        super::trimmed(s) == s.subrange(i, j),
    decreases s.len(),
{
    if s.len() == 0 {
        assert(s.subrange(i, j) =~= s);
    } else if super::white_space(s[0]) {
        let t = s.drop_first();
        if i > 0 {
            ends_are_trimmed(t, i - 1, j - 1);
            assert(t.subrange(i - 1, j - 1) =~= s.subrange(i, j));
        } else {
            assert(i == j);
            ends_are_trimmed(t, 0, 0);
            assert(t.subrange(0, 0) =~= s.subrange(i, j));
        }
    } else {
        assert(i == 0 && j > 0);
        if super::white_space(s[s.len() - 1]) {
            let t = s.drop_last();
            assert(j < s.len());
            ends_are_trimmed(t, i, j);
            assert(t.subrange(i, j) =~= s.subrange(i, j));
        } else {
            assert(j == s.len());
            assert(s.subrange(i, j) =~= s);
        }
    }
}

/// What each character is worth as a digit: in base ten the ten digits, in base
/// sixteen also the letters from `a` to `f`, small or large.
pub proof fn digits_are_worth(c: char, radix: int)
    requires
        radix == 10 || radix == 16,
    ensures
        ({
            let u = c as u32 as int;
            let v = super::digit_value(c, radix);
            &&& 48 <= u <= 57 ==> v == Some(u - 48)
            &&& radix == 16 && 97 <= u <= 102 ==> v == Some(u - 87)
            &&& radix == 16 && 65 <= u <= 70 ==> v == Some(u - 55)
            &&& !(48 <= u <= 57) && (radix == 10 || !(97 <= u <= 102) && !(65 <= u <= 70))
                ==> v is None
        }),
{
}

/// A digit behind others is worth itself and makes the others worth the base times
/// as much; with a character that is no digit, anywhere, there is no number.
pub proof fn digits_add_up(s: Seq<char>, c: char, radix: int, at: int)
    requires
        0 < radix,
    ensures
        super::digits_value(Seq::empty(), radix) == Some(0int),
        super::digits_value(s, radix) is Some && super::digit_value(c, radix) is Some
            ==> super::digits_value(s.push(c), radix) == Some(
            super::digits_value(s, radix)->0 * radix + super::digit_value(c, radix)->0,
        ),
        0 <= at < s.len() && super::digit_value(s[at], radix) is None ==> super::digits_value(
            s,
            radix,
        ) is None,
        super::digit_value(c, radix) is None ==> super::digits_value(s.push(c), radix) is None,
{
    assert(s.push(c).drop_last() =~= s);
    if 0 <= at < s.len() && super::digit_value(s[at], radix) is None {
        super::lemma_no_digit(s, radix, at);
    }
}

/// A number is written in at least one digit, with or without one `+` before it,
/// and is none if it is larger than the largest that is asked for.
pub proof fn numbers_are_bounded(s: Seq<char>, radix: int, max: int)
    requires
        0 < radix,
    ensures
        super::unsigned(Seq::empty(), radix, max) is None,
        s.len() > 0 && s[0] != '+' ==> super::unsigned(s, radix, max) == (if super::digits_value(
            s,
            radix,
        ) is Some && super::digits_value(s, radix)->0 <= max {
            super::digits_value(s, radix)
        } else {
            None
        }),
        super::unsigned(seq!['+'] + s, radix, max) == (if s.len() > 0 && super::digits_value(
            s,
            radix,
        ) is Some && super::digits_value(s, radix)->0 <= max {
            super::digits_value(s, radix)
        } else {
            None
        }),
{
    assert((seq!['+'] + s).skip(1) =~= s);
}

/// The character for a digit.
pub open spec fn digit_char(n: int) -> char {
    if n < 10 {
        (48 + n) as char
    } else {
        (87 + n) as char
    }
}

/// A number written out in digits.
pub open spec fn written(n: int, radix: int) -> Seq<char>
    decreases n,
{
    if n < radix || radix < 2 {
        seq![digit_char(n)]
    } else {
        proof {
            vstd::arithmetic::div_mod::lemma_div_decreases(n, radix);
            vstd::arithmetic::div_mod::lemma_div_pos_is_pos(n, radix);
        }
        written(n / radix, radix).push(digit_char(n % radix))
    }
}

/// Every number that is written out is read back: with white space around it, in
/// decimal or in hexadecimal after `0x`, where it has 32 bits; in decimal where it
/// is a byte; and without white space where it is positive.
pub proof fn written_number_is_read_back(
    n: int,
    before: Seq<char>,
    after: Seq<char>,
    default: int,
)
    requires
        0 <= n <= u32::MAX,
        forall|k: int| 0 <= k < before.len() ==> super::white_space(#[trigger] before[k]),
        forall|k: int| 0 <= k < after.len() ==> super::white_space(#[trigger] after[k]),
    ensures
        super::number(Some(before + written(n, 10) + after), default) == n,
        super::number(Some(before + (seq!['0', 'x'] + written(n, 16)) + after), default) == n,
        n < 256 ==> super::decimal_byte(Some(before + written(n, 10) + after)) == Some(n),
        n >= 256 ==> super::decimal_byte(Some(before + written(n, 10) + after)) is None,
        n > 0 ==> super::positive(Some(written(n, 10)), default) == n,
        n == 0 ==> super::positive(Some(written(n, 10)), default) == default,
{
    let d = written(n, 10);
    let h = written(n, 16);
    let x = seq!['0', 'x'] + h;
    digits_are_written(n, 10);
    digits_are_written(n, 16);
    middle_is_left(before, d, after);
    middle_is_left(before, x, after);
    assert(x.skip(2) =~= h);
    assert(d.len() >= 2 ==> d[1] != 'x');
}

/// A setting that is not there, or is no number, stands for the default.
pub proof fn default_stands_in(s: Seq<char>, at: int, default: int)
    requires
        0 <= at < s.len(),
        !super::white_space(s[0]),
        !super::white_space(s.last()),
        super::digit_value(s[at], 16) is None,
        at == 0 ==> s[0] != '+',
        at == 1 ==> s[1] != 'x',
        !(at == 2 && s[0] == '0' && s[1] == 'x' && s[2] == '+'),
    ensures
        super::number(None, default) == default,
        super::positive(None, default) == default,
        super::decimal_byte(None) is None,
        super::number(Some(s), default) == default,
        super::positive(Some(s), default) == default,
        super::decimal_byte(Some(s)) is None,
{
    ends_are_trimmed(s, 0, s.len() as int);
    assert(s.subrange(0, s.len() as int) =~= s);
    no_number(s, 10, at);
    if s.len() >= 2 && s[0] == '0' && s[1] == 'x' {
        assert(at >= 2);
        assert(s.skip(2)[at - 2] == s[at]);
        no_number(s.skip(2), 16, at - 2);
    }
}

proof fn no_number(s: Seq<char>, radix: int, at: int)
    requires
        radix == 10 || radix == 16,
        0 <= at < s.len(),
        super::digit_value(s[at], 16) is None,
        at == 0 ==> s[0] != '+',
    ensures
        forall|max: int| #[trigger] super::unsigned(s, radix, max) is None,
{
    digits_are_worth(s[at], 10);
    digits_are_worth(s[at], 16);
    super::lemma_no_digit(s, radix, at);
    if at > 0 {
        assert(s.skip(1)[at - 1] == s[at]);
        super::lemma_no_digit(s.skip(1), radix, at - 1);
    }
}

proof fn digits_are_written(n: int, radix: int)
    requires
        0 <= n,
        radix == 10 || radix == 16,
    ensures
        written(n, radix).len() > 0,
        super::digits_value(written(n, radix), radix) == Some(n),
        forall|k: int|
            0 <= k < written(n, radix).len() ==> is_digit(#[trigger] written(n, radix)[k]),
    decreases n,
{
    let w = written(n, radix);
    if n < radix {
        assert(w.drop_last() =~= Seq::empty());
        assert(super::digits_value(w.drop_last(), radix) == Some(0int));
        assert(0 * radix == 0);
        digit_is_read_back(n, radix);
    } else {
        vstd::arithmetic::div_mod::lemma_div_decreases(n, radix);
        vstd::arithmetic::div_mod::lemma_div_pos_is_pos(n, radix);
        digits_are_written(n / radix, radix);
        assert(w.drop_last() =~= written(n / radix, radix));
        digit_is_read_back(n % radix, radix);
        vstd::arithmetic::div_mod::lemma_fundamental_div_mod(n, radix);
        assert(n / radix * radix == radix * (n / radix)) by (nonlinear_arith);
        assert forall|k: int| 0 <= k < w.len() implies is_digit(#[trigger] w[k]) by {
            if k < w.len() - 1 {
                assert(w[k] == written(n / radix, radix)[k]);
            }
        }
    }
}

spec fn is_digit(c: char) -> bool {
    48 <= c as u32 <= 57 || 97 <= c as u32 <= 102
}

proof fn digit_is_read_back(n: int, radix: int)
    requires
        0 <= n < radix <= 16,
    ensures
        super::digit_value(digit_char(n), radix) == Some(n),
        is_digit(digit_char(n)),
{
}

proof fn middle_is_left(before: Seq<char>, s: Seq<char>, after: Seq<char>)
    requires
        s.len() > 0,
        is_digit(s[0]),
        is_digit(s.last()),
        forall|k: int| 0 <= k < before.len() ==> super::white_space(#[trigger] before[k]),
        forall|k: int| 0 <= k < after.len() ==> super::white_space(#[trigger] after[k]),
    ensures
        super::trimmed(before + s + after) == s,
{
    let all = before + s + after;
    let i = before.len() as int;
    let j = i + s.len();
    assert(all[i] == s[0] && all[j - 1] == s.last());
    assert forall|k: int| j <= k < all.len() implies super::white_space(#[trigger] all[k]) by {
        assert(all[k] == after[k - j]);
    }
    assert forall|k: int| 0 <= k < i implies super::white_space(#[trigger] all[k]) by {
        assert(all[k] == before[k]);
    }
    ends_are_trimmed(all, i, j);
    assert(all.subrange(i, j) =~= s);
}

/// How a setting is read: trimmed, and by its first two characters in base sixteen
/// or ten, up to 32 bits; or as a decimal byte; or as it is, in base ten and
/// positive.
pub proof fn settings_are_read(s: Seq<char>, default: int)
    ensures
        ({
            let t = super::trimmed(s);
            let hex = t.len() >= 2 && t[0] == '0' && t[1] == 'x';
            let dec = super::unsigned(t, 10, 0xFFFF_FFFF);
            let sixteen = super::unsigned(t.skip(2), 16, 0xFFFF_FFFF);
            let plain = super::unsigned(s, 10, 0xFFFF_FFFF);
            &&& hex && sixteen is Some ==> super::number(Some(s), default) == sixteen->0
            &&& hex && sixteen is None ==> super::number(Some(s), default) == default
            &&& !hex && dec is Some ==> super::number(Some(s), default) == dec->0
            &&& !hex && dec is None ==> super::number(Some(s), default) == default
            &&& super::decimal_byte(Some(s)) == super::unsigned(t, 10, 255)
            &&& plain is Some && plain->0 > 0 ==> super::positive(Some(s), default) == plain->0
            &&& plain is None || plain->0 <= 0 ==> super::positive(Some(s), default) == default
        }),
{
}

} // verus!
