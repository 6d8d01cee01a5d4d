//! Whole numbers as text: decimal and hexadecimal, written and read back.

use crate::text::chars_of;
use vstd::arithmetic::div_mod::{
    lemma_div_decreases, lemma_fundamental_div_mod, lemma_mod_bound, lemma_small_mod,
};
use vstd::arithmetic::mul::lemma_mul_is_commutative;
use vstd::prelude::*;

verus! {

/// The character of a digit below sixteen.
pub open spec fn digit_char(d: int) -> char {
    if d < 10 {
        (48 + d) as char
    } else {
        (87 + d) as char
    }
}

/// The digits of `n` in a base from two to sixteen, the highest first.
pub open spec fn digits(n: int, base: int) -> Seq<char>
    decreases n,
{
    if n < base || base < 2 {
        seq![digit_char(n)]
    } else {
        proof {
            lemma_div_decreases(n, base);
        }
        digits(n / base, base).push(digit_char(n % base))
    }
}

/// The value of a digit, if the character is one in this base.
pub open spec fn digit_value(c: char, base: int) -> Option<int> {
    let u = c as int;
    let d = if 48 <= u <= 57 {
        u - 48
    } else if 97 <= u <= 102 {
        u - 87
    } else if 65 <= u <= 70 {
        u - 55
    } else {
        base
    };
    if d < base {
        Some(d)
    } else {
        None
    }
}

/// The number that a run of digits stands for, if all characters are digits.
pub open spec fn digits_value(s: Seq<char>, base: int) -> Option<int>
    decreases s.len(),
{
    if s.len() == 0 {
        Some(0)
    } else {
        match (digits_value(s.drop_last(), base), digit_value(s.last(), base)) {
            (Some(n), Some(d)) => Some(n * base + d),
            _ => None,
        }
    }
}

/// The number that digits with an optional plus sign stand for, if it is at most `max`.
pub open spec fn unsigned_value(s: Seq<char>, base: int, max: int) -> Option<int> {
    let d = if s.len() > 0 && s[0] == '+' {
        s.skip(1)
    } else {
        s
    };
    if d.len() == 0 {
        None
    } else {
        match digits_value(d, base) {
            Some(n) => if n <= max {
                Some(n)
            } else {
                None
            },
            None => None,
        }
    }
}

/// The number that decimal digits with an optional sign stand for, if it fits in 64 bits.
pub open spec fn i64_value(s: Seq<char>) -> Option<int> {
    if s.len() > 0 && s[0] == '-' {
        if s.len() == 1 {
            None
        } else {
            match digits_value(s.skip(1), 10) {
                Some(n) => if -n >= i64::MIN {
                    Some(-n)
                } else {
                    None
                },
                None => None,
            }
        }
    } else {
        unsigned_value(s, 10, i64::MAX as int)
    }
}

/// A number in decimal, with a minus sign when it is negative.
pub open spec fn decimal(n: int) -> Seq<char> {
    if n < 0 {
        seq!['-'] + digits(-n, 10)
    } else {
        digits(n, 10)
    }
}

/// A number in lower-case hexadecimal.
pub open spec fn hexadecimal(n: int) -> Seq<char> {
    digits(n, 16)
}

/// A digit reads back as its value.
pub proof fn lemma_digit_roundtrip(d: int, base: int)
    requires
        0 <= d < base <= 16,
    ensures
        digit_value(digit_char(d), base) == Some(d),
        digit_char(d) as int == (if d < 10 {
            48 + d
        } else {
            87 + d
        }),
{
}

/// Digits read back as the number that they were written from.
pub proof fn lemma_digits_roundtrip(n: int, base: int)
    requires
        0 <= n,
        2 <= base <= 16,
    ensures
        digits_value(digits(n, base), base) == Some(n),
        digits(n, base).len() > 0,
        forall|i: int|
            0 <= i < digits(n, base).len() ==> {
                let u = #[trigger] digits(n, base)[i] as int;
                48 <= u <= 57 || 97 <= u <= 102
            },
    decreases n,
{
    let s = digits(n, base);
    if n < base {
        lemma_digit_roundtrip(n, base);
        assert(s.drop_last() =~= Seq::<char>::empty());
        assert(digits_value(s.drop_last(), base) == Some(0int));
        assert(0 * base + n == n) by (nonlinear_arith);
    } else {
        lemma_div_decreases(n, base);
        lemma_fundamental_div_mod(n, base);
        assert(0 <= n % base < base) by (nonlinear_arith)
            requires
                2 <= base,
        ;
        assert(0 <= n / base) by (nonlinear_arith)
            requires
                2 <= base,
                0 <= n,
        ;
        lemma_digits_roundtrip(n / base, base);
        lemma_digit_roundtrip(n % base, base);
        assert(s.drop_last() =~= digits(n / base, base));
        lemma_mul_is_commutative(n / base, base);
    }
}

/// A run of digits that starts with more than `max` stands for more than `max`.
proof fn lemma_digits_grow(s: Seq<char>, k: int, base: int, max: int)
    requires
        0 <= k <= s.len(),
        2 <= base,
        0 <= max,
        match digits_value(s.take(k), base) {
            Some(n) => n > max,
            None => true,
        },
    ensures
        match digits_value(s, base) {
            Some(n) => n > max,
            None => true,
        },
    decreases s.len(),
{
    if k < s.len() {
        let t = s.drop_last();
        assert(t.take(k) =~= s.take(k));
        lemma_digits_grow(t, k, base, max);
        if let (Some(n), Some(d)) = (digits_value(t, base), digit_value(s.last(), base)) {
            assert(n * base + d > max) by (nonlinear_arith)
                requires
                    n > max,
                    max >= 0,
                    base >= 2,
                    d >= 0,
            ;
        }
    } else {
        assert(s.take(k) =~= s);
    }
}

/// The value of one digit.
fn digit_of(c: char, base: u64) -> (r: Option<u64>)
    requires
        2 <= base <= 16,
    ensures
        match r {
            Some(d) => digit_value(c, base as int) == Some(d as int) && d < base,
            None => digit_value(c, base as int) is None,
        },
{
    let d: u64 = if '0' <= c && c <= '9' {
        (c as u64) - 48
    } else if 'a' <= c && c <= 'f' {
        (c as u64) - 87
    } else if 'A' <= c && c <= 'F' {
        (c as u64) - 55
    } else {
        base
    };
    if d < base {
        Some(d)
    } else {
        None
    }
}

/// The number that the digits from `from` on stand for, if it is at most `max`.
fn magnitude(cs: &[char], from: usize, base: u64, max: u64) -> (r: Option<u64>)
    requires
        from <= cs@.len(),
        2 <= base <= 16,
    ensures
        match r {
            Some(n) => digits_value(cs@.skip(from as int), base as int) == Some(n as int) && n <= max,
            None => match digits_value(cs@.skip(from as int), base as int) {
                Some(n) => n > max,
                None => true,
            },
        },
{
    let mut n: u64 = 0;
    let mut i: usize = from;
    let ghost s = cs@.skip(from as int);
    assert(s.take(0) =~= Seq::<char>::empty());
    while i < cs.len()
        invariant
            from <= i <= cs@.len(),
            s == cs@.skip(from as int),
            2 <= base <= 16,
            n <= max,
            digits_value(s.take(i - from), base as int) == Some(n as int),
        decreases cs@.len() - i,
    {
        let ghost t = s.take(i - from + 1);
        assert(t.drop_last() =~= s.take(i - from));
        assert(t.last() == cs@[i as int]);
        match digit_of(cs[i], base) {
            Some(d) => {
                assert(n * base + d <= 0xffff_ffff_ffff_ffff * 16 + 16) by (nonlinear_arith)
                    requires
                        n <= 0xffff_ffff_ffff_ffff,
                        base <= 16,
                        d < base,
                ;
                let wide: u128 = (n as u128) * (base as u128) + (d as u128);
                if wide > max as u128 {
                    proof {
                        lemma_digits_grow(s, i - from + 1, base as int, max as int);
                    }
                    return None;
                }
                n = wide as u64;
            },
            None => {
                proof {
                    lemma_digits_grow(s, i - from + 1, base as int, max as int);
                }
                return None;
            },
        }
        i += 1;
    }
    assert(s.take(i - from) =~= s);
    Some(n)
}

/// Reads digits with an optional plus sign, as long as the number is at most `max`.
pub fn parse_unsigned(s: &str, base: u64, max: u64) -> (r: Option<u64>)
    requires
        2 <= base <= 16,
    ensures
        match r {
            Some(n) => unsigned_value(s@, base as int, max as int) == Some(n as int),
            None => unsigned_value(s@, base as int, max as int) is None,
        },
{
    let cs = chars_of(s);
    let from: usize = if cs.len() > 0 && cs[0] == '+' {
        1
    } else {
        0
    };
    if from == cs.len() {
        return None;
    }
    assert(cs@.skip(0) =~= cs@);
    magnitude(cs.as_slice(), from, base, max)
}

/// Reads a decimal number with an optional sign.
pub fn parse_i64(s: &str) -> (r: Option<i64>)
    ensures
        match r {
            Some(n) => i64_value(s@) == Some(n as int),
            None => i64_value(s@) is None,
        },
{
    let cs = chars_of(s);
    if cs.len() > 0 && cs[0] == '-' {
        if cs.len() == 1 {
            return None;
        }
        match magnitude(cs.as_slice(), 1, 10, 0x8000_0000_0000_0000) {
            Some(n) => Some((0 - n as i128) as i64),
            None => None,
        }
    } else {
        match parse_unsigned(s, 10, 0x7fff_ffff_ffff_ffff) {
            Some(n) => Some(n as i64),
            None => None,
        }
    }
}

/// Writes the digits of `n` behind what `out` holds.
fn push_digits(n: u64, base: u64, out: &mut String)
    requires
        2 <= base <= 16,
    ensures
        final(out)@ == old(out)@ + digits(n as int, base as int),
    decreases n,
{
    let ghost before = out@;
    if n >= base {
        proof {
            lemma_div_decreases(n as int, base as int);
        }
        push_digits(n / base, base, out);
    }
    proof {
        if n < base {
            lemma_small_mod(n as nat, base as nat);
        }
        lemma_mod_bound(n as int, base as int);
    }
    let d: u8 = (n % base) as u8;
    let c: char = if d < 10 {
        (48 + d) as char
    } else {
        (87 + d) as char
    };
    assert(c == digit_char(d as int));
    out.push(c);
    assert(out@ =~= before + digits(n as int, base as int));
}

/// A number in decimal.
pub fn decimal_u64(n: u64) -> (r: String)
    ensures
        r@ == decimal(n as int),
{
    let mut s = String::new();
    push_digits(n, 10, &mut s);
    s
}

/// A number in decimal, with a minus sign when it is negative.
pub fn decimal_i64(n: i64) -> (r: String)
    ensures
        r@ == decimal(n as int),
{
    let mut s = String::new();
    if n < 0 {
        s.push('-');
        push_digits((0 - n as i128) as u64, 10, &mut s);
    } else {
        push_digits(n as u64, 10, &mut s);
    }
    s
}

/// A number in lower-case hexadecimal.
pub fn hexadecimal_u64(n: u64) -> (r: String)
    ensures
        r@ == hexadecimal(n as int),
{
    let mut s = String::new();
    push_digits(n, 16, &mut s);
    s
}

/// Every 64-bit number reads back from its decimal form.
pub proof fn lemma_decimal_roundtrip(n: int)
    requires
        i64::MIN <= n <= i64::MAX,
    ensures
        i64_value(decimal(n)) == Some(n),
{
    if n < 0 {
        lemma_digits_roundtrip(-n, 10);
        assert(decimal(n).skip(1) =~= digits(-n, 10));
    } else {
        lemma_digits_roundtrip(n, 10);
        assert(digits(n, 10)[0] as int >= 48);
    }
}

/// Every number up to `max` reads back from its hexadecimal form.
pub proof fn lemma_hexadecimal_roundtrip(n: int, max: int)
    requires
        0 <= n <= max,
    ensures
        unsigned_value(hexadecimal(n), 16, max) == Some(n),
{
    lemma_digits_roundtrip(n, 16);
    assert(digits(n, 16)[0] as int >= 48);
}

/// No decimal form holds a character outside the digits and the minus sign.
pub proof fn lemma_decimal_chars(n: int)
    ensures
        decimal(n).len() > 0,
        forall|i: int|
            0 <= i < decimal(n).len() ==> {
                let u = #[trigger] decimal(n)[i] as int;
                48 <= u <= 57 || 97 <= u <= 102 || u == 45
            },
{
    if n < 0 {
        lemma_digits_roundtrip(-n, 10);
        assert forall|i: int| 0 <= i < decimal(n).len() implies {
            let u = #[trigger] decimal(n)[i] as int;
            48 <= u <= 57 || 97 <= u <= 102 || u == 45
        } by {
            if i > 0 {
                assert(decimal(n)[i] == digits(-n, 10)[i - 1]);
            }
        }
    } else {
        lemma_digits_roundtrip(n, 10);
    }
}

/// A natural number in decimal reads back as itself, up to any limit that it keeps.
pub proof fn lemma_unsigned_roundtrip(n: int, max: int)
    requires
        0 <= n <= max,
    ensures
        unsigned_value(decimal(n), 10, max) == Some(n),
        n < max ==> unsigned_value(decimal(max), 10, n) is None,
{
    lemma_digits_roundtrip(n, 10);
    lemma_digits_roundtrip(max, 10);
    assert(digits(n, 10)[0] as int >= 48);
    assert(digits(max, 10)[0] as int >= 48);
}

/// Decimal numbers are read by their places: one more digit behind a number makes it ten times
/// as much and adds the digit's own value; a minus sign before it takes it below zero, a plus
/// sign changes nothing, and no other character is accepted.
pub proof fn law_places_of_decimals(s: Seq<char>, n: int, c: char)
    requires
        s.len() > 0,
        s[0] != '-',
        s[0] != '+',
        i64_value(s) == Some(n),
    ensures
        '0' <= c <= '9' && 10 * n + (c as int - '0' as int) <= i64::MAX ==> i64_value(s.push(c))
            == Some(10 * n + (c as int - '0' as int)),
        '0' <= c <= '9' && 10 * n + (c as int - '0' as int) > i64::MAX ==> i64_value(
            s.push(c),
        ) is None,
        !('0' <= c <= '9') ==> i64_value(s.push(c)) is None,
        i64_value(seq!['-'] + s) == Some(-n),
        i64_value(seq!['+'] + s) == Some(n),
        '0' <= c <= '9' ==> i64_value(seq![c]) == Some(c as int - '0' as int),
        !('0' <= c <= '9') ==> i64_value(seq![c]) is None,
        i64_value(Seq::empty()) is None,
        n >= 0,
{
    lemma_digits_not_negative(s, 10);
    assert(s.push(c).drop_last() =~= s);
    assert((seq!['-'] + s).skip(1) =~= s);
    assert((seq!['+'] + s).skip(1) =~= s);
    reveal_with_fuel(digits_value, 3);
    assert(seq![c].drop_last() =~= Seq::<char>::empty());
    assert(seq![c].skip(1) =~= Seq::<char>::empty());
}

/// Hexadecimal digits may be small or capital letters, and each stands for its own value.
pub proof fn law_hexadecimal_digits(s: Seq<char>, n: int, c: char, max: int)
    requires
        s.len() > 0,
        s[0] != '+',
        unsigned_value(s, 16, max) == Some(n),
    ensures
        '0' <= c <= '9' && 16 * n + (c as int - '0' as int) <= max ==> unsigned_value(
            s.push(c),
            16,
            max,
        ) == Some(16 * n + (c as int - '0' as int)),
        'a' <= c <= 'f' && 16 * n + 10 + (c as int - 'a' as int) <= max ==> unsigned_value(
            s.push(c),
            16,
            max,
        ) == Some(16 * n + 10 + (c as int - 'a' as int)),
        'A' <= c <= 'F' && 16 * n + 10 + (c as int - 'A' as int) <= max ==> unsigned_value(
            s.push(c),
            16,
            max,
        ) == Some(16 * n + 10 + (c as int - 'A' as int)),
        !('0' <= c <= '9') && !('a' <= c <= 'f') && !('A' <= c <= 'F') ==> unsigned_value(
            s.push(c),
            16,
            max,
        ) is None,
{
    assert(s.push(c).drop_last() =~= s);
}

/// Digits stand for no negative number.
proof fn lemma_digits_not_negative(s: Seq<char>, base: int)
    requires
        base >= 2,
    ensures
        digits_value(s, base) matches Some(n) ==> n >= 0,
    decreases s.len(),
{
    if s.len() > 0 {
        lemma_digits_not_negative(s.drop_last(), base);
        match digits_value(s.drop_last(), base) {
            Some(n) => {
                assert(n * base >= 0) by (nonlinear_arith)
                    requires
                        n >= 0,
                        base >= 2,
                ;
            },
            None => {},
        }
    }
}

/// Numbers are written without needless zeros: only zero itself begins with one.
pub proof fn law_numbers_are_short(n: int, base: int)
    requires
        0 <= n,
        2 <= base <= 16,
    ensures
        n == 0 ==> digits(n, base) == seq!['0'],
        n > 0 ==> digits(n, base)[0] != '0',
        decimal(n) == digits(n, 10),
        n > 0 ==> decimal(-n) == seq!['-'] + decimal(n),
        hexadecimal(n) == digits(n, 16),
    decreases n,
{
    lemma_digits_roundtrip(n, base);
    if n == 0 {
        lemma_digit_roundtrip(0, base);
        assert(digits(n, base) =~= seq!['0']);
    } else if n < base {
        lemma_digit_roundtrip(n, base);
    } else {
        assert(0 < n / base < n) by (nonlinear_arith)
            requires
                n >= base,
                base >= 2,
        ;
        law_numbers_are_short(n / base, base);
        lemma_digits_roundtrip(n / base, base);
    }
}

} // verus!
