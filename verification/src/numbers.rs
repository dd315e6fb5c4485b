//! Decimal strings for the karma bounds: an exact spec of what a signed
//! decimal string denotes, a verified parser to `i32`, and a verified
//! printer back to the canonical decimal form.

use vstd::prelude::*;

verus! {

/// Spec: the character is a decimal digit.
pub open spec fn is_digit(c: char) -> bool {
    '0' <= c && c <= '9'
}

/// Spec: numeric value of a digit character.
pub open spec fn digit_val(c: char) -> int {
    c as int - 48
}

/// Spec: every character of `s` is a decimal digit.
pub open spec fn all_digits(s: Seq<char>) -> bool {
    forall|i: int| 0 <= i < s.len() ==> is_digit(#[trigger] s[i])
}

/// Spec: value of an unsigned digit string, most significant digit first.
pub open spec fn digits_val(s: Seq<char>) -> int
    decreases s.len(),
{
    if s.len() == 0 {
        0
    } else {
        digits_val(s.drop_last()) * 10 + digit_val(s.last())
    }
}

/// Spec: `s` is an optional sign followed by at least one digit.
pub open spec fn valid_int_string(s: Seq<char>) -> bool {
    if s.len() == 0 {
        false
    } else if s[0] == '-' || s[0] == '+' {
        s.len() > 1 && all_digits(s.skip(1))
    } else {
        all_digits(s)
    }
}

/// Spec: the signed value denoted by `s` (meaningful when `valid_int_string(s)`).
pub open spec fn int_string_val(s: Seq<char>) -> int {
    if s.len() == 0 {
        0
    } else if s[0] == '-' {
        -digits_val(s.skip(1))
    } else if s[0] == '+' {
        digits_val(s.skip(1))
    } else {
        digits_val(s)
    }
}

/// Spec: `s` denotes a value representable as an `i32`.
pub open spec fn valid_i32_string(s: Seq<char>) -> bool {
    valid_int_string(s) && i32::MIN <= int_string_val(s) && int_string_val(s) <= i32::MAX
}

/// Spec: ten to the `n`.
pub open spec fn pow10(n: nat) -> int
    decreases n,
{
    if n == 0 {
        1
    } else {
        10 * pow10((n - 1) as nat)
    }
}

proof fn lemma_digits_val_bounds(s: Seq<char>)
    requires
        all_digits(s),
    ensures
        0 <= digits_val(s) < pow10(s.len() as nat),
    decreases s.len(),
{
    if s.len() > 0 {
        assert(all_digits(s.drop_last())) by {
            assert(forall|i: int|
                0 <= i < s.len() - 1 ==> is_digit(#[trigger] s.drop_last()[i]) == is_digit(s[i]));
        }
        lemma_digits_val_bounds(s.drop_last());
        assert(is_digit(s.last()));
    }
}

proof fn lemma_digits_val_lower(s: Seq<char>)
    requires
        all_digits(s),
        s.len() > 0,
        s[0] != '0',
    ensures
        digits_val(s) >= pow10((s.len() - 1) as nat),
    decreases s.len(),
{
    if s.len() == 1 {
        assert(is_digit(s[0]));
        assert(digit_val(s[0]) >= 1);
        assert(digits_val(s) == digits_val(s.drop_last()) * 10 + digit_val(s.last()));
        assert(s.drop_last().len() == 0);
        assert(digits_val(s.drop_last()) == 0);
        assert(s.last() == s[0]);
        assert(pow10((s.len() - 1) as nat) == 1);
    } else {
        assert(all_digits(s.drop_last())) by {
            assert(forall|i: int|
                0 <= i < s.len() - 1 ==> is_digit(#[trigger] s.drop_last()[i]) == is_digit(s[i]));
        }
        assert(s.drop_last()[0] == s[0]);
        lemma_digits_val_lower(s.drop_last());
        assert(digits_val(s.drop_last()) >= pow10((s.len() - 2) as nat));
        assert(is_digit(s.last()));
        assert(digit_val(s.last()) >= 0);
        assert(digits_val(s) == digits_val(s.drop_last()) * 10 + digit_val(s.last()));
        assert(pow10((s.len() - 1) as nat) == 10 * pow10((s.len() - 2) as nat));
        assert(digits_val(s.drop_last()) * 10 >= pow10((s.len() - 2) as nat) * 10) by (nonlinear_arith)
            requires digits_val(s.drop_last()) >= pow10((s.len() - 2) as nat);
    }
}

proof fn lemma_digits_val_zero_prefix(s: Seq<char>)
    requires
        s.len() > 0,
        s[0] == '0',
    ensures
        digits_val(s) == digits_val(s.skip(1)),
    decreases s.len(),
{
    if s.len() == 1 {
        assert(s.skip(1).len() == 0);
        assert(digits_val(s) == digits_val(s.drop_last()) * 10 + digit_val(s.last()));
        assert(s.drop_last().len() == 0);
        assert(digit_val('0') == 0);
    } else {
        assert(s.drop_last()[0] == '0');
        lemma_digits_val_zero_prefix(s.drop_last());
        assert(s.drop_last().skip(1) == s.skip(1).drop_last());
        assert(s.skip(1).last() == s.last());
    }
}

proof fn lemma_digits_val_strip_zeros(s: Seq<char>, k: int)
    requires
        0 <= k <= s.len(),
        forall|i: int| 0 <= i < k ==> s[i] == '0',
    ensures
        digits_val(s) == digits_val(s.skip(k)),
    decreases k,
{
    if k > 0 {
        lemma_digits_val_zero_prefix(s);
        lemma_digits_val_strip_zeros(s.skip(1), k - 1);
        assert(s.skip(1).skip(k - 1) == s.skip(k));
    } else {
        assert(s.skip(0) == s);
    }
}

proof fn lemma_digits_val_snoc(s: Seq<char>, i: int)
    requires
        0 < i <= s.len(),
    ensures
        digits_val(s.take(i)) == digits_val(s.take(i - 1)) * 10 + digit_val(s[i - 1]),
{
    assert(s.take(i).drop_last() == s.take(i - 1));
    assert(s.take(i).last() == s[i - 1]);
}

/// Parses a signed decimal string; `None` when the characters do not form a
/// decimal integer that fits in an `i32`.
pub(crate) fn parse_i32(v: &Vec<char>) -> (r: Option<i32>)
    ensures
        r is Some <==> valid_i32_string(v@),
        r matches Some(x) ==> x as int == int_string_val(v@),
{
    if v.len() == 0 {
        return None;
    }
    let c0 = v[0];
    let negative = c0 == '-';
    let start: usize = if c0 == '-' || c0 == '+' {
        1
    } else {
        0
    };
    if start == v.len() {
        return None;
    }
    let ghost digits = v@.skip(start as int);
    let mut i: usize = start;
    while i < v.len()
        invariant
            start <= i <= v.len(),
            start < v.len(),
            digits == v@.skip(start as int),
            (v@[0] == '-' || v@[0] == '+') ==> start == 1,
            !(v@[0] == '-' || v@[0] == '+') ==> start == 0,
            forall|j: int| start <= j < i ==> is_digit(#[trigger] v@[j]),
        decreases v.len() - i,
    {
        let c = v[i];
        if c < '0' || c > '9' {
            proof {
                assert(!is_digit(v@[i as int]));
                assert(!all_digits(digits)) by {
                    assert(digits[i - start] == v@[i as int]);
                }
                if !(v@[0] == '-' || v@[0] == '+') {
                    assert(v@.skip(0) == v@);
                }
            }
            return None;
        }
        assert(is_digit(v@[i as int]));
        i += 1;
    }
    assert(all_digits(digits)) by {
        assert(forall|j: int|
            0 <= j < digits.len() ==> #[trigger] digits[j] == v@[j + start as int]);
    }
    proof {
        if !(v@[0] == '-' || v@[0] == '+') {
            assert(v@.skip(0) == v@);
        }
    }
    assert(valid_int_string(v@));
    let ghost magnitude = digits_val(digits);
    proof {
        lemma_digits_val_bounds(digits);
        if v@[0] == '-' {
            assert(int_string_val(v@) == -magnitude);
        } else if v@[0] == '+' {
            assert(int_string_val(v@) == magnitude);
        } else {
            assert(int_string_val(v@) == magnitude);
        }
    }

    // Skip leading zeros so that the digit count bounds the magnitude.
    let mut z: usize = start;
    while z < v.len() && v[z] == '0'
        invariant
            start <= z <= v.len(),
            forall|j: int| start <= j < z ==> v@[j] == '0',
        decreases v.len() - z,
    {
        z += 1;
    }
    let ghost sig = v@.skip(z as int);
    proof {
        lemma_digits_val_strip_zeros(digits, z - start);
        assert(digits.skip(z - start) == sig);
        assert(all_digits(sig)) by {
            assert(forall|j: int| 0 <= j < sig.len() ==> #[trigger] sig[j] == v@[j + z as int]);
        }
    }
    if v.len() - z > 10 {
        proof {
            lemma_digits_val_lower(sig);
            assert(pow10((sig.len() - 1) as nat) >= pow10(10)) by {
                lemma_pow10_mono(10, (sig.len() - 1) as nat);
            }
            assert(pow10(10) == 10000000000) by {
                reveal_with_fuel(pow10, 11);
            }
            assert(magnitude >= 10000000000);
            assert(!valid_i32_string(v@));
        }
        return None;
    }
    let mut acc: u64 = 0;
    let mut k: usize = z;
    while k < v.len()
        invariant
            z <= k <= v.len(),
            v.len() - z <= 10,
            sig == v@.skip(z as int),
            all_digits(sig),
            forall|j: int| z <= j < v@.len() ==> is_digit(#[trigger] v@[j]),
            acc as int == digits_val(sig.take(k - z)),
            (acc as int) < pow10((k - z) as nat),
        decreases v.len() - k,
    {
        let d = (v[k] as u32) - 48;
        proof {
            assert(is_digit(v@[k as int]));
            assert(sig[k - z] == v@[k as int]);
            lemma_digits_val_snoc(sig, k - z + 1);
            assert(pow10((k - z) as nat) <= pow10(10)) by {
                lemma_pow10_mono((k - z) as nat, 10);
            }
            assert(pow10(10) == 10000000000) by {
                reveal_with_fuel(pow10, 11);
            }
        }
        acc = acc * 10 + (d as u64);
        k += 1;
    }
    proof {
        assert(sig.take(v@.len() - z as int) == sig);
        assert(acc as int == digits_val(sig));
        assert(digits_val(sig) == digits_val(digits));
        if v@[0] == '-' || v@[0] == '+' {
            assert(digits == v@.skip(1));
        } else {
            assert(z >= start == 0);
            lemma_digits_val_strip_zeros(v@, z as int);
            assert(v@.skip(0) == v@);
        }
    }
    if negative {
        if acc > 2147483648 {
            return None;
        }
        let m = -(acc as i64);
        Some(m as i32)
    } else {
        if acc > 2147483647 {
            return None;
        }
        Some(acc as i32)
    }
}

proof fn lemma_pow10_pos(n: nat)
    ensures
        pow10(n) >= 1,
    decreases n,
{
    if n > 0 {
        lemma_pow10_pos((n - 1) as nat);
    }
}

proof fn lemma_pow10_mono(a: nat, b: nat)
    requires
        a <= b,
    ensures
        pow10(a) <= pow10(b),
        pow10(a) >= 1,
    decreases b,
{
    lemma_pow10_pos(a);
    if a < b {
        lemma_pow10_mono(a, (b - 1) as nat);
    }
}

/// Spec: canonical digit string of `n` (meaningful when `n >= 0`).
pub open spec fn nat_digits(n: int) -> Seq<char>
    decreases n,
{
    if n < 10 {
        seq![((48 + if n >= 0 { n } else { 0 }) as u8) as char]
    } else {
        nat_digits(n / 10) + seq![((48 + n % 10) as u8) as char]
    }
}

/// Spec: canonical decimal string of `n`, with `-` for negative values.
pub open spec fn int_string(n: int) -> Seq<char> {
    if n < 0 {
        seq!['-'] + nat_digits(-n)
    } else {
        nat_digits(n)
    }
}

/// The canonical digit string of a value denotes that value: printing and
/// parsing decimal numbers are inverses.
pub proof fn lemma_nat_digits_inverse(m: int)
    requires
        0 <= m,
    ensures
        nat_digits(m).len() > 0,
        all_digits(nat_digits(m)),
        digits_val(nat_digits(m)) == m,
    decreases m,
{
    if m < 10 {
        let c = ((48 + m) as u8) as char;
        assert(nat_digits(m) == seq![c]);
        assert(c as int == 48 + m);
        assert(is_digit(c));
        assert(digits_val(seq![c]) == digits_val(seq![c].drop_last()) * 10 + digit_val(c));
        assert(seq![c].drop_last().len() == 0);
    } else {
        lemma_nat_digits_inverse(m / 10);
        let tail = seq![((48 + m % 10) as u8) as char];
        assert(nat_digits(m) == nat_digits(m / 10) + tail);
        assert(nat_digits(m).drop_last() =~= nat_digits(m / 10));
        assert(nat_digits(m).last() == tail[0]);
        assert(tail[0] as int == 48 + m % 10);
        assert(all_digits(nat_digits(m))) by {
            assert(forall|i: int|
                0 <= i < nat_digits(m / 10).len() ==> #[trigger] nat_digits(m)[i] == nat_digits(
                    m / 10,
                )[i]);
        }
        assert(digits_val(nat_digits(m)) == digits_val(nat_digits(m / 10)) * 10 + digit_val(
            tail[0],
        ));
    }
}

/// The canonical decimal string of an `i32` is a valid decimal string of
/// exactly that value, and is no `MAX`/`MIN` keyword.
pub proof fn lemma_int_string_inverse(v: i32)
    ensures
        valid_i32_string(int_string(v as int)),
        int_string_val(int_string(v as int)) == v as int,
        int_string(v as int)[0] == '-' || is_digit(int_string(v as int)[0]),
        forall|i: int|
            0 <= i < int_string(v as int).len() ==> is_digit(#[trigger] int_string(v as int)[i])
                || int_string(v as int)[i] == '-',
{
    let s = int_string(v as int);
    if v < 0 {
        lemma_nat_digits_inverse(-(v as int));
        assert(s == seq!['-'] + nat_digits(-(v as int)));
        assert(s[0] == '-');
        assert(s.skip(1) =~= nat_digits(-(v as int)));
        assert(forall|i: int|
            1 <= i < s.len() ==> is_digit(#[trigger] s[i]) || s[i] == '-') by {
            assert(forall|i: int| 1 <= i < s.len() ==> s[i] == nat_digits(-(v as int))[i - 1]);
        }
    } else {
        lemma_nat_digits_inverse(v as int);
        assert(s == nat_digits(v as int));
        assert(is_digit(s[0]));
        assert(s[0] != '-' && s[0] != '+');
    }
}

/// The canonical digit characters of `n`, most significant first.
pub(crate) fn u64_digits(n: u64) -> (r: Vec<char>)
    ensures
        r@ == nat_digits(n as int),
{
    let mut out: Vec<char> = Vec::new();
    let mut m: u64 = n;
    loop
        invariant_except_break
            out@.len() == 0 ==> m == n,
            out@.len() > 0 ==> m > 0 && nat_digits(n as int) == nat_digits(m as int) + out@,
        ensures
            nat_digits(n as int) == out@,
        decreases m,
    {
        let ghost entry_m = m as int;
        let ghost entry_out = out@;
        let d = (m % 10) as u8;
        let c = (48 + d) as char;
        out.insert(0, c);
        proof {
            assert(out@ == seq![c] + entry_out);
        }
        m = m / 10;
        if m == 0 {
            proof {
                assert(nat_digits(entry_m) == seq![c]);
                if entry_out.len() == 0 {
                    assert(nat_digits(n as int) == seq![c] + entry_out);
                } else {
                    assert(nat_digits(n as int) == nat_digits(entry_m) + entry_out);
                }
            }
            break;
        }
        proof {
            assert(entry_m >= 10);
            assert(nat_digits(entry_m) == nat_digits(entry_m / 10) + seq![c]);
            if entry_out.len() == 0 {
                assert(nat_digits(n as int) == nat_digits(m as int) + out@);
            } else {
                assert(nat_digits(entry_m) + entry_out == nat_digits(m as int) + (seq![c]
                    + entry_out));
                assert(nat_digits(n as int) == nat_digits(m as int) + out@);
            }
        }
    }
    out
}

} // verus!
