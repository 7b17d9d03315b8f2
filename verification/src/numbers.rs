//! Decimal numerals: writing and reading unsigned integers.
use vstd::prelude::*;

verus! {

/// The numeral of the digit `d`.
pub open spec fn digit_char(d: nat) -> char {
    (48 + d) as char
}

/// Whether `c` is an ASCII digit.
pub open spec fn is_digit(c: char) -> bool {
    '0' <= c && c <= '9'
}

/// The value of the digit `c`.
pub open spec fn digit_value(c: char) -> int {
    c as int - 48
}

/// The decimal numeral of `n`, without leading zeros.
pub open spec fn decimal(n: nat) -> Seq<char>
    decreases n,
{
    if n < 10 {
        seq![digit_char(n)]
    } else {
        decimal(n / 10).push(digit_char(n % 10))
    }
}

/// The value of the digits `s`, most significant first.
pub open spec fn digits_value(s: Seq<char>) -> int
    decreases s.len(),
{
    if s.len() == 0 {
        0
    } else {
        digits_value(s.drop_last()) * 10 + digit_value(s.last())
    }
}

/// Whether all of `s` are ASCII digits.
pub open spec fn all_digits(s: Seq<char>) -> bool {
    forall|i: int| 0 <= i < s.len() ==> is_digit(#[trigger] s[i])
}

/// `s` without one leading `+`.
pub open spec fn unsigned_part(s: Seq<char>) -> Seq<char> {
    if s.len() > 0 && s[0] == '+' {
        s.drop_first()
    } else {
        s
    }
}

/// What `str::parse::<u64>` gives: an optional `+`, then one or more ASCII
/// digits whose value fits in a `u64`.
pub open spec fn parse_decimal(s: Seq<char>) -> Option<u64> {
    let d = unsigned_part(s);
    if d.len() > 0 && all_digits(d) && digits_value(d) <= u64::MAX {
        Some(digits_value(d) as u64)
    } else {
        None
    }
}

/// The decimal numeral of `n`.
pub fn decimal_chars(n: u64) -> (s: Vec<char>)
    ensures
        s@ == decimal(n as nat),
    decreases n,
{
    if n < 10 {
        let c = ((n as u8) + 48u8) as char;
        let mut s: Vec<char> = Vec::new();
        s.push(c);
        proof {
            assert(s@ =~= seq![digit_char(n as nat)]);
        }
        s
    } else {
        let mut s = decimal_chars(n / 10);
        let c = (((n % 10) as u8) + 48u8) as char;
        s.push(c);
        s
    }
}

/// The decimal numeral of `n`, as a string.
pub fn decimal_string(n: u64) -> (s: String)
    ensures
        s@ == decimal(n as nat),
{
    let v = decimal_chars(n);
    crate::text::string_of(v.as_slice())
}

/// The digits of a value are no fewer, in value, than those of any prefix.
proof fn lemma_digits_value_prefix(s: Seq<char>, i: int)
    requires
        0 <= i <= s.len(),
        all_digits(s),
    ensures
        digits_value(s.take(i)) <= digits_value(s),
        digits_value(s.take(i)) >= 0,
    decreases s.len() - i,
{
    if i < s.len() {
        lemma_digits_value_prefix(s, i + 1);
        assert(s.take(i + 1).drop_last() =~= s.take(i));
        assert(is_digit(s[i]));
    } else {
        assert(s.take(i) =~= s);
        lemma_digits_value_nonneg(s);
    }
}

proof fn lemma_digits_value_nonneg(s: Seq<char>)
    requires
        all_digits(s),
    ensures
        digits_value(s) >= 0,
    decreases s.len(),
{
    if s.len() > 0 {
        assert(all_digits(s.drop_last())) by {
            assert forall|i: int| 0 <= i < s.drop_last().len() implies is_digit(#[trigger] s.drop_last()[i]) by {
                assert(s.drop_last()[i] == s[i]);
            }
        }
        lemma_digits_value_nonneg(s.drop_last());
        assert(is_digit(s.last()));
    }
}

/// Reads `s` as an unsigned decimal, as `str::parse::<u64>` does.
pub fn parse_u64(s: &[char]) -> (r: Option<u64>)
    ensures
        r == parse_decimal(s@),
{
    let start: usize = if s.len() > 0 && s[0] == '+' {
        1
    } else {
        0
    };
    let ghost d = unsigned_part(s@);
    proof {
        assert(d =~= s@.subrange(start as int, s@.len() as int));
    }
    if start >= s.len() {
        return None;
    }
    let mut v: u64 = 0;
    let mut i: usize = start;
    while i < s.len()
        invariant
            start <= i <= s.len(),
            d == s@.subrange(start as int, s@.len() as int),
            d == unsigned_part(s@),
            all_digits(d.take(i - start)),
            v == digits_value(d.take(i - start)),
        decreases s.len() - i,
    {
        let c = s[i];
        let ghost k: int = i - start;
        proof {
            assert(d[k] == c);
            assert(d.take(k + 1).drop_last() =~= d.take(k));
            assert(d.take(k + 1).last() == c);
        }
        if !('0' <= c && c <= '9') {
            proof {
                assert(!is_digit(d[k]));
                assert(!all_digits(d));

            }
            return None;
        }
        let dv = (c as u32 - 48) as u64;
        if v > (u64::MAX - dv) / 10 {
            proof {
                assert(all_digits(d.take(k + 1))) by {
                    assert forall|j: int| 0 <= j < d.take(k + 1).len() implies is_digit(#[trigger] d.take(k + 1)[j]) by {
                        if j < k {
                            assert(d.take(k + 1)[j] == d.take(k)[j]);
                        }
                    }
                }
                assert(digits_value(d.take(k + 1)) > u64::MAX) by (nonlinear_arith)
                    requires
                        digits_value(d.take(k + 1)) == v * 10 + dv,
                        v > (u64::MAX - dv) / 10,
                        dv <= 9,
                ;
                if all_digits(d) {
                    lemma_digits_value_prefix(d, k + 1);
                }
            }
            return None;
        }
        v = v * 10 + dv;
        i = i + 1;
        proof {
            assert forall|j: int| 0 <= j < d.take(k + 1).len() implies is_digit(#[trigger] d.take(k + 1)[j]) by {
                if j < k {
                    assert(d.take(k + 1)[j] == d.take(k)[j]);
                }
            }
        }
    }
    proof {
        assert(d.take(s.len() - start) =~= d);
    }
    Some(v)
}

/// A numeral reads back as the number it was written from.
pub proof fn lemma_parse_decimal_roundtrip(n: u64)
    ensures
        parse_decimal(decimal(n as nat)) == Some(n),
{
    lemma_decimal_digits(n as nat);
}

/// The numeral of `n` is a non-empty run of digits whose value is `n`.
pub proof fn lemma_decimal_digits(n: nat)
    ensures
        decimal(n).len() > 0,
        all_digits(decimal(n)),
        digits_value(decimal(n)) == n,
    decreases n,
{
    if n < 10 {
        let s = decimal(n);
        assert(s.drop_last() =~= Seq::<char>::empty());
        assert(digits_value(s.drop_last()) == 0);
    }
    if n >= 10 {
        lemma_decimal_digits(n / 10);
        let s = decimal(n);
        assert(s.drop_last() =~= decimal(n / 10));
        assert(n == (n / 10) * 10 + n % 10) by (nonlinear_arith);
        assert(s.last() == digit_char(n % 10));
        assert(digit_value(s.last()) == n % 10);
        assert(digits_value(s) == digits_value(s.drop_last()) * 10 + digit_value(s.last()));
        assert forall|i: int| 0 <= i < s.len() implies is_digit(#[trigger] s[i]) by {
            if i < s.len() - 1 {
                assert(s[i] == decimal(n / 10)[i]);
            }
        }
    }
}


/// The lower-case hexadecimal numeral of the digit `d` (below 16).
pub open spec fn hex_char(d: nat) -> char {
    if d < 10 {
        (48 + d) as char
    } else {
        (87 + d) as char
    }
}

/// The last `count` lower-case hexadecimal digits of `n`, most significant first.
pub open spec fn hex_digits(n: nat, count: nat) -> Seq<char>
    decreases count,
{
    if count == 0 {
        seq![]
    } else {
        hex_digits(n / 16, (count - 1) as nat).push(hex_char(n % 16))
    }
}

/// `n` in sixteen lower-case hexadecimal digits, zero-padded (`{:016x}`).
pub fn hex16(n: u64) -> (s: Vec<char>)
    ensures
        s@ == hex_digits(n as nat, 16),
{
    let mut digits: Vec<char> = Vec::new();
    let mut v: u64 = n;
    let mut i: usize = 0;
    proof {
        lemma_hex_digits_len(n as nat, 16);
        assert(pow16(0) == 1);
        assert((n as nat) / 1 == n as nat);
    }
    while i < 16
        invariant
            i <= 16,
            hex_digits(n as nat, 16).len() == 16,
            digits@.len() == i,
            forall|j: int| 0 <= j < i ==> #[trigger] digits@[j] == hex_digits(n as nat, 16)[15 - j],
            v as nat == (n as nat) / pow16(i as nat),
        decreases 16 - i,
    {
        let d = (v % 16) as u8;
        let c = if d < 10 {
            (d + 48u8) as char
        } else {
            (d + 87u8) as char
        };
        proof {
            lemma_hex_digit_at(n as nat, i as nat);
        }
        digits.push(c);
        proof {
            lemma_pow16_step(n as nat, i as nat);
        }
        v = v / 16;
        i = i + 1;
    }
    let mut s: Vec<char> = Vec::new();
    let mut j: usize = 16;
    while j > 0
        invariant
            j <= 16,
            digits@.len() == 16,
            hex_digits(n as nat, 16).len() == 16,
            forall|t: int| 0 <= t < 16 ==> #[trigger] digits@[t] == hex_digits(n as nat, 16)[15 - t],
            s@ == hex_digits(n as nat, 16).take(16 - j),
        decreases j,
    {
        j = j - 1;
        s.push(digits[j]);
        proof {
            assert(s@ =~= hex_digits(n as nat, 16).take(16 - j));
        }
    }
    proof {
        lemma_hex_digits_len(n as nat, 16);
        assert(s@ =~= hex_digits(n as nat, 16));
    }
    s
}

/// Sixteen to the power `i`.
pub open spec fn pow16(i: nat) -> nat
    decreases i,
{
    if i == 0 {
        1
    } else {
        16 * pow16((i - 1) as nat)
    }
}

proof fn lemma_pow16_positive(i: nat)
    ensures
        pow16(i) > 0,
    decreases i,
{
    if i > 0 {
        lemma_pow16_positive((i - 1) as nat);
    }
}

proof fn lemma_pow16_step(n: nat, i: nat)
    ensures
        n / pow16(i + 1) == (n / pow16(i)) / 16,
{
    lemma_pow16_positive(i);
    assert(pow16(i + 1) == 16 * pow16(i));
    vstd::arithmetic::div_mod::lemma_div_denominator(n as int, pow16(i) as int, 16);
    assert(pow16(i) * 16 == 16 * pow16(i)) by (nonlinear_arith);
}

proof fn lemma_hex_digits_len(n: nat, count: nat)
    ensures
        hex_digits(n, count).len() == count,
    decreases count,
{
    if count > 0 {
        lemma_hex_digits_len(n / 16, (count - 1) as nat);
    }
}

/// The digit `i` places from the right of `hex_digits(n, count)` is that of
/// `n / 16^i`.
proof fn lemma_hex_digit_at_general(n: nat, count: nat, i: nat)
    requires
        i < count,
    ensures
        hex_digits(n, count).len() == count,
        hex_digits(n, count)[count - 1 - i] == hex_char((n / pow16(i)) % 16),
    decreases count,
{
    lemma_hex_digits_len(n, count);
    if i == 0 {
        assert(pow16(0) == 1);
        assert(n / 1 == n);
    } else {
        lemma_hex_digit_at_general(n / 16, (count - 1) as nat, (i - 1) as nat);
        lemma_pow16_positive((i - 1) as nat);
        vstd::arithmetic::div_mod::lemma_div_denominator(n as int, 16, pow16((i - 1) as nat) as int);
        assert(pow16(i) == 16 * pow16((i - 1) as nat));
        assert(hex_digits(n, count)[count - 1 - i] == hex_digits(n / 16, (count - 1) as nat)[count - 1 - i]);
    }
}

proof fn lemma_hex_digit_at(n: nat, i: nat)
    requires
        i < 16,
    ensures
        hex_digits(n, 16)[15 - i] == hex_char((n / pow16(i)) % 16),
{
    lemma_hex_digit_at_general(n, 16, i);
}

} // verus!
