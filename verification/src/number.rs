//! Numbers as text: decimal and hexadecimal, written and read.

use vstd::prelude::*;

use crate::text::chars_of;

verus! {

/// What the digit `c` counts, or 16 where it is no digit.
pub open spec fn digit_value(c: char) -> int {
    if '0' <= c && c <= '9' {
        c as int - '0' as int
    } else if 'a' <= c && c <= 'f' {
        c as int - 'a' as int + 10
    } else if 'A' <= c && c <= 'F' {
        c as int - 'A' as int + 10
    } else {
        16
    }
}

/// Every character of `s` is a digit of `base`.
pub open spec fn all_digits(s: Seq<char>, base: int) -> bool {
    forall|i: int| 0 <= i < s.len() ==> digit_value(#[trigger] s[i]) < base
}

/// The number that the digits `s` write in `base`.
pub open spec fn digits_value(s: Seq<char>, base: int) -> int
    decreases s.len(),
{
    if s.len() == 0 {
        0
    } else {
        digits_value(s.drop_last(), base) * base + digit_value(s.last())
    }
}

/// The digits of an unsigned number, behind an optional plus sign.
pub open spec fn unsigned_digits(s: Seq<char>) -> Seq<char> {
    if s.len() > 1 && s[0] == '+' {
        s.skip(1)
    } else {
        s
    }
}

/// The number that `s` writes in `base`: digits, at least one, behind an
/// optional plus sign.
pub open spec fn number_of(s: Seq<char>, base: int) -> Option<int> {
    let t = unsigned_digits(s);
    if t.len() > 0 && all_digits(t, base) {
        Some(digits_value(t, base))
    } else {
        None
    }
}

/// The digit that counts `d`.
pub open spec fn digit_char(d: int) -> char {
    if d < 10 {
        ('0' as int + d) as char
    } else {
        ('a' as int + d - 10) as char
    }
}

/// `n` in decimal.
pub open spec fn dec_of(n: nat) -> Seq<char>
    decreases n,
{
    if n < 10 {
        seq![digit_char(n as int)]
    } else {
        dec_of(n / 10).push(digit_char((n % 10) as int))
    }
}

/// Each byte as two small hexadecimal digits.
pub open spec fn hex_of(bytes: Seq<u8>) -> Seq<char>
    decreases bytes.len(),
{
    if bytes.len() == 0 {
        Seq::empty()
    } else {
        hex_of(bytes.drop_last()).push(digit_char((bytes.last() / 16) as int)).push(
            digit_char((bytes.last() % 16) as int),
        )
    }
}

/// What the digit `c` counts, or 16 where it is no digit.
pub fn digit_at(c: char) -> (r: u8)
    ensures
        r == digit_value(c),
        r <= 16,
{
    if '0' <= c && c <= '9' {
        (c as u8) - 48
    } else if 'a' <= c && c <= 'f' {
        (c as u8) - 87
    } else if 'A' <= c && c <= 'F' {
        (c as u8) - 55
    } else {
        16
    }
}

/// More digits never make a smaller number.
pub proof fn lemma_digits_grow(s: Seq<char>, base: int, i: int)
    requires
        0 <= i <= s.len(),
        base >= 1,
    ensures
        0 <= digits_value(s.take(i), base) <= digits_value(s, base),
    decreases s.len(),
{
    if i < s.len() {
        lemma_digits_grow(s.drop_last(), base, i);
        assert(s.drop_last().take(i) =~= s.take(i));
        let v = digits_value(s.drop_last(), base);
        assert(v <= v * base) by (nonlinear_arith)
            requires
                v >= 0,
                base >= 1,
        ;
    } else {
        assert(s.take(i) =~= s);
        if s.len() > 0 {
            lemma_digits_grow(s.drop_last(), base, s.len() - 1);
            assert(s.drop_last().take(s.len() - 1) =~= s.drop_last());
            let v = digits_value(s.drop_last(), base);
            assert(0 <= v * base) by (nonlinear_arith)
                requires
                    v >= 0,
                    base >= 1,
            ;
        }
    }
}

/// The number of at most `max` that `s` writes in `base`.
pub fn parse_number(s: &str, base: u8, max: u64) -> (r: Option<u64>)
    requires
        2 <= base <= 16,
    ensures
        r matches Some(n) ==> number_of(s@, base as int) == Some(n as int) && n <= max,
        r is None ==> (number_of(s@, base as int) matches Some(n) ==> n > max),
{
    let cs = chars_of(s);
    let start: usize = if cs.len() > 1 && cs[0] == '+' {
        1
    } else {
        0
    };
    let ghost t = unsigned_digits(s@);
    assert(t =~= cs@.skip(start as int));
    if start == cs.len() {
        return None;
    }
    let mut n: u64 = 0;
    let mut i: usize = start;
    assert(t.take(0) =~= Seq::<char>::empty());
    while i < cs.len()
        invariant
            start <= i <= cs.len(),
            cs@ == s@,
            2 <= base <= 16,
            t == unsigned_digits(s@),
            t =~= cs@.skip(start as int),
            all_digits(t.take(i - start), base as int),
            n == digits_value(t.take(i - start), base as int),
            n <= max,
        decreases cs.len() - i,
    {
        let d: u8 = digit_at(cs[i]);
        let ghost before = t.take(i - start);
        let ghost after = t.take(i + 1 - start);
        proof {
            assert(after.drop_last() =~= before);
            assert(after.last() == cs[i as int]);
        }
        if d >= base {
            assert(digit_value(t[i - start]) >= base);
            return None;
        }
        assert(0 <= n * base <= u64::MAX * 16) by (nonlinear_arith)
            requires
                0 <= n <= u64::MAX,
                2 <= base <= 16,
        ;
        let wide: u128 = n as u128 * base as u128 + d as u128;
        assert(wide == digits_value(after, base as int));
        if wide > max as u128 {
            proof {
                lemma_digits_grow(t, base as int, i + 1 - start);
            }
            return None;
        }
        n = wide as u64;
        assert forall|k: int| 0 <= k < after.len() implies digit_value(#[trigger] after[k])
            < base by {
            if k < before.len() {
                assert(after[k] == before[k]);
            }
        }
        i = i + 1;
    }
    assert(t.take(i - start) =~= t);
    Some(n)
}

/// The `u64` that `s` writes in decimal.
pub fn parse_u64(s: &str) -> (r: Option<u64>)
    ensures
        r matches Some(n) ==> number_of(s@, 10) == Some(n as int),
        r is None ==> (number_of(s@, 10) matches Some(n) ==> n > u64::MAX),
{
    parse_number(s, 10, u64::MAX)
}

/// The `u32` that `s` writes in decimal.
pub fn parse_u32(s: &str) -> (r: Option<u32>)
    ensures
        r matches Some(n) ==> number_of(s@, 10) == Some(n as int),
        r is None ==> (number_of(s@, 10) matches Some(n) ==> n > u32::MAX),
{
    match parse_number(s, 10, u32::MAX as u64) {
        Some(n) => Some(n as u32),
        None => None,
    }
}

/// `d` as a digit.
fn digit_of(d: u8) -> (c: char)
    requires
        d < 16,
    ensures
        c == digit_char(d as int),
{
    if d < 10 {
        (48 + d) as char
    } else {
        (87 + d) as char
    }
}

/// `n` in decimal.
pub fn dec(n: u64) -> (out: String)
    ensures
        out@ == dec_of(n as nat),
    decreases n,
{
    let mut out = if n < 10 {
        String::new()
    } else {
        dec(n / 10)
    };
    out.push(digit_of((n % 10) as u8));
    proof {
        if n < 10 {
            assert(out@ =~= seq![digit_char(n as int)]);
        }
    }
    out
}

/// `n` in decimal, where it may be wider than a word.
pub fn dec_wide(n: u128) -> (out: String)
    ensures
        out@ == dec_of(n as nat),
    decreases n,
{
    let mut out = if n < 10 {
        String::new()
    } else {
        dec_wide(n / 10)
    };
    out.push(digit_of((n % 10) as u8));
    proof {
        if n < 10 {
            assert(out@ =~= seq![digit_char(n as int)]);
        }
    }
    out
}

/// Each byte as two small hexadecimal digits.
pub fn hex(bytes: &[u8]) -> (out: String)
    ensures
        out@ == hex_of(bytes@),
        out@.len() == 2 * bytes@.len(),
{
    let mut out = String::new();
    let mut i: usize = 0;
    while i < bytes.len()
        invariant
            i <= bytes.len(),
            out@ == hex_of(bytes@.take(i as int)),
            out@.len() == 2 * i,
        decreases bytes.len() - i,
    {
        assert(bytes@.take(i + 1).drop_last() =~= bytes@.take(i as int));
        out.push(digit_of(bytes[i] / 16));
        out.push(digit_of(bytes[i] % 16));
        i = i + 1;
    }
    assert(bytes@.take(i as int) =~= bytes@);
    out
}

/// Decimal text is digits, begins with no plus sign and is never empty.
pub proof fn lemma_dec_digits(n: nat)
    ensures
        dec_of(n).len() > 0,
        all_digits(dec_of(n), 10),
        digits_value(dec_of(n), 10) == n,
    decreases n,
{
    if n >= 10 {
        lemma_dec_digits(n / 10);
        let p = dec_of(n / 10);
        assert(dec_of(n).drop_last() =~= p);
        assert forall|i: int| 0 <= i < dec_of(n).len() implies digit_value(#[trigger] dec_of(n)[i])
            < 10 by {
            if i < p.len() {
                assert(dec_of(n)[i] == p[i]);
            }
        }
    } else {
        let s = dec_of(n);
        assert(s.drop_last() =~= Seq::<char>::empty());
        assert(digits_value(s.drop_last(), 10) == 0);
    }
}

/// A number written in decimal reads back as itself.
pub proof fn law_decimal_reads_back(n: nat)
    ensures
        number_of(dec_of(n), 10) == Some(n as int),
{
    lemma_dec_digits(n);
    let s = dec_of(n);
    assert(digit_value(s[0]) < 10);
    assert(unsigned_digits(s) == s);
}

/// Bytes in hexadecimal have two digits each, and each byte is read back from its two.
pub proof fn law_hexadecimal_reads_back(b: Seq<u8>, i: int)
    requires
        0 <= i < b.len(),
    ensures
        hex_of(b).len() == 2 * b.len(),
        digit_value(hex_of(b)[2 * i]) * 16 + digit_value(hex_of(b)[2 * i + 1]) == b[i],
        !('A' <= hex_of(b)[2 * i] && hex_of(b)[2 * i] <= 'F'),
        !('A' <= hex_of(b)[2 * i + 1] && hex_of(b)[2 * i + 1] <= 'F'),
    decreases b.len(),
{
    let rest = b.drop_last();
    if i < rest.len() {
        law_hexadecimal_reads_back(rest, i);
        assert(rest[i] == b[i]);
    } else {
        lemma_hex_len(rest);
        let x = b.last();
        assert((x / 16) * 16 + x % 16 == x);
    }
}

proof fn lemma_hex_len(b: Seq<u8>)
    ensures
        hex_of(b).len() == 2 * b.len(),
    decreases b.len(),
{
    if b.len() > 0 {
        lemma_hex_len(b.drop_last());
    }
}

/// A number is read digit by digit, each further digit worth one and what stands before it the
/// base; a plus may lead it, and nothing but digits may stand in it.
pub proof fn law_how_a_number_is_read(s: Seq<char>, c: char, base: int)
    requires
        2 <= base <= 16,
    ensures
        s.len() > 0 && s[0] != '+' && number_of(s, base) is Some && digit_value(c) < base ==> number_of(
            s.push(c),
            base,
        ) == Some(number_of(s, base)->Some_0 * base + digit_value(c)),
        s.len() > 0 && s[0] != '+' && digit_value(c) >= base ==> number_of(s.push(c), base) is None,
        s.len() > 0 && s[0] != '+' ==> number_of(seq!['+'] + s, base) == number_of(s, base),
        number_of(Seq::empty(), base) is None,
        0 <= digit_value(c) <= 16,
        '0' <= c && c <= '9' ==> digit_value(c) == c as int - '0' as int,
{
    let t = s.push(c);
    assert(t.drop_last() =~= s);
    assert((seq!['+'] + s).skip(1) =~= s);
    if s.len() > 0 && s[0] != '+' {
        assert(t[0] == s[0]);
        assert(unsigned_digits(t) == t);
        assert(unsigned_digits(s) == s);
        assert(t[t.len() - 1] == c);
        if all_digits(s, base) && digit_value(c) < base {
            assert forall|i: int| 0 <= i < t.len() implies digit_value(#[trigger] t[i]) < base by {
                if i < s.len() {
                    assert(t[i] == s[i]);
                }
            }
        }
        if digit_value(c) >= base {
            assert(!all_digits(t, base));
        }
    }
}

} // verus!
