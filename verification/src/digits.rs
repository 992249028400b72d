//! Decimal digit strings: parsing and formatting, with exact numeric
//! contracts.
//!
//! Presented one-time codes are compared by canonical numeric value, so the
//! library needs a parser from digit strings to integers and a formatter
//! back; both are tied to the same mathematical reading of a digit string,
//! [`digits_val`].

use vstd::prelude::*;
use vstd::arithmetic::div_mod::lemma_fundamental_div_mod;
use vstd::arithmetic::mul::lemma_mul_inequality;

verus! {

/// `c` is one of the ten ASCII decimal digits.
pub open spec fn is_digit_char(c: char) -> bool {
    48 <= c as int <= 57
}

/// The numeric value of an ASCII decimal digit.
pub open spec fn digit_val(c: char) -> int {
    c as int - 48
}

/// Every character of `s` is an ASCII decimal digit.
pub open spec fn all_digits(s: Seq<char>) -> bool {
    forall|i: int| 0 <= i < s.len() ==> is_digit_char(#[trigger] s[i])
}

/// The numeric value of a digit string, most significant digit first.
pub open spec fn digits_val(s: Seq<char>) -> int
    decreases s.len(),
{
    if s.len() == 0 {
        0
    } else {
        digits_val(s.drop_last()) * 10 + digit_val(s.last())
    }
}

/// Powers of ten.
pub open spec fn pow10(n: nat) -> int
    decreases n,
{
    if n == 0 {
        1
    } else {
        10 * pow10((n - 1) as nat)
    }
}

pub proof fn lemma_pow10_pos(n: nat)
    ensures
        pow10(n) >= 1,
    decreases n,
{
    if n > 0 {
        lemma_pow10_pos((n - 1) as nat);
    }
}

/// A digit string's value is never negative.
pub proof fn lemma_digits_val_nonneg(s: Seq<char>)
    requires
        all_digits(s),
    ensures
        digits_val(s) >= 0,
    decreases s.len(),
{
    if s.len() > 0 {
        assert(all_digits(s.drop_last()));
        lemma_digits_val_nonneg(s.drop_last());
    }
}

/// Extending a digit string to the right never decreases its value.
pub proof fn lemma_digits_val_prefix_le(s: Seq<char>, k: int)
    requires
        all_digits(s),
        0 <= k <= s.len(),
    ensures
        digits_val(s.take(k)) <= digits_val(s),
    decreases s.len() - k,
{
    if k < s.len() {
        assert(s.take(k + 1).drop_last() =~= s.take(k));
        assert(all_digits(s.take(k)));
        lemma_digits_val_nonneg(s.take(k));
        assert(digits_val(s.take(k + 1)) == digits_val(s.take(k)) * 10 + digit_val(s[k]));
        lemma_digits_val_prefix_le(s, k + 1);
    } else {
        assert(s.take(k) =~= s);
    }
}

/// A digit string's value is below `pow10` of its length, and, when it does
/// not start with the digit zero, at least `pow10` of its length less one.
pub proof fn lemma_digits_val_bounds(s: Seq<char>)
    requires
        all_digits(s),
        s.len() > 0,
    ensures
        digits_val(s) < pow10(s.len()),
        s[0] != '0' ==> digits_val(s) >= pow10((s.len() - 1) as nat),
    decreases s.len(),
{
    if s.len() == 1 {
        assert(digits_val(s.drop_last()) == 0);
        assert(digits_val(s) == digit_val(s[0]));
        assert(pow10(0) == 1);
        assert(s[0] != '0' ==> digit_val(s[0]) >= 1);
    } else {
        let t = s.drop_last();
        assert(all_digits(t));
        lemma_digits_val_bounds(t);
        lemma_pow10_pos((s.len() - 2) as nat);
        assert(pow10(s.len()) == 10 * pow10((s.len() - 1) as nat));
        assert(pow10((s.len() - 1) as nat) == 10 * pow10((s.len() - 2) as nat));
        assert(t[0] == s[0]);
    }
}

/// Parse a string of ASCII decimal digits as an unsigned 64-bit number.
///
/// Returns the canonical numeric value exactly when the string is nonempty,
/// all digits, and the value fits; any other character, an empty string, or
/// an overflowing value yields `None`.
pub fn parse_u64_digits(s: &str) -> (r: Option<u64>)
    ensures
        r is Some <==> (s@.len() > 0 && all_digits(s@) && digits_val(s@) <= u64::MAX),
        r matches Some(v) ==> v == digits_val(s@),
{
    let n = s.unicode_len();
    if n == 0 {
        return None;
    }
    let mut acc: u64 = 0;
    let mut i: usize = 0;
    while i < n
        invariant
            0 <= i <= n,
            n == s@.len(),
            all_digits(s@.take(i as int)),
            acc == digits_val(s@.take(i as int)),
        decreases n - i,
    {
        let c = s.get_char(i);
        let v = c as u32;
        if v < 48 || v > 57 {
            assert(!is_digit_char(s@[i as int]));
            return None;
        }
        let d = (v - 48) as u64;
        proof {
            assert(s@.take(i as int + 1).drop_last() =~= s@.take(i as int));
            assert(all_digits(s@.take(i as int + 1)));
        }
        if acc > (u64::MAX - d) / 10 {
            proof {
                let q = (u64::MAX - d) as int / 10;
                lemma_fundamental_div_mod((u64::MAX - d) as int, 10);
                lemma_mul_inequality(q + 1, acc as int, 10);
                assert(acc * 10 + d > u64::MAX);
                if all_digits(s@) {
                    lemma_digits_val_prefix_le(s@, i as int + 1);
                }
            }
            return None;
        }
        proof {
            let q = (u64::MAX - d) as int / 10;
            lemma_fundamental_div_mod((u64::MAX - d) as int, 10);
            lemma_mul_inequality(acc as int, q, 10);
            assert(acc * 10 + d <= u64::MAX);
        }
        acc = acc * 10 + d;
        i += 1;
    }
    proof {
        assert(s@.take(n as int) =~= s@);
    }
    Some(acc)
}

/// The character for a decimal digit value.
pub fn digit_char(d: u32) -> (c: char)
    requires
        d < 10,
    ensures
        is_digit_char(c),
        digit_val(c) == d,
{
    match d {
        0 => '0',
        1 => '1',
        2 => '2',
        3 => '3',
        4 => '4',
        5 => '5',
        6 => '6',
        7 => '7',
        8 => '8',
        _ => '9',
    }
}

pub assume_specification[ String::push ](s: &mut String, ch: char)
    ensures
        final(s)@ == old(s)@.push(ch),
;

/// Format an unsigned 32-bit number as its canonical decimal string:
/// all digits, no redundant leading zero, and the same numeric value.
pub fn u32_to_dec_string(n: u32) -> (r: String)
    ensures
        r@.len() >= 1,
        all_digits(r@),
        digits_val(r@) == n,
        r@.len() > 1 ==> r@[0] != '0',
{
    if n == 0 {
        let mut z = String::new();
        z.push('0');
        proof {
            assert(z@ =~= seq!['0']);
            assert(z@.drop_last() =~= Seq::<char>::empty());
            assert(digits_val(Seq::<char>::empty()) == 0);
        }
        return z;
    }
    let mut rev: Vec<char> = Vec::new();
    let mut m = n;
    while m > 0
        invariant
            0 <= m <= n,
            n > 0,
            all_digits(rev@.reverse()),
            digits_val(rev@.reverse()) + m * pow10(rev@.len() as nat) == n,
            m == 0 ==> rev@.len() >= 1 && rev@[rev@.len() - 1] != '0',
            rev@.len() <= 10,
        decreases m,
    {
        proof {
            lemma_pow10_pos(rev@.len() as nat);
            if rev@.len() >= 10 {
                lemma_pow10_saturates(rev@.len() as nat);
                lemma_digits_val_nonneg(rev@.reverse());
                lemma_mul_inequality(1, m as int, pow10(rev@.len() as nat));
                assert(false);
            }
        }
        let d = m % 10;
        let c = digit_char(d);
        proof {
            let old_rev = rev@;
            let new_rev = rev@.push(c);
            let p = pow10(old_rev.len() as nat);
            let md = m as int / 10;
            let dd = m as int % 10;
            assert(new_rev.reverse() =~= seq![c] + old_rev.reverse());
            assert(all_digits(new_rev.reverse()));
            lemma_digits_val_prepend(c, old_rev.reverse());
            lemma_fundamental_div_mod(m as int, 10);
            assert(pow10(new_rev.len() as nat) == 10 * p);
            assert(dd * p + md * (10 * p) == m * p) by (nonlinear_arith)
                requires
                    m == 10 * md + dd,
            ;
            if md == 0 {
                assert(dd == m);
                assert(digit_val(c) != 0);
                assert(new_rev[new_rev.len() - 1] == c);
            }
        }
        rev.push(c);
        m = m / 10;
    }
    let mut out = String::new();
    let k = rev.len();
    let mut j: usize = 0;
    while j < k
        invariant
            0 <= j <= k,
            k == rev@.len(),
            out@ =~= rev@.reverse().take(j as int),
        decreases k - j,
    {
        let c = rev[k - 1 - j];
        proof {
            assert(rev@.reverse()[j as int] == rev@[k - 1 - j as int]);
            assert(out@.push(c) =~= rev@.reverse().take(j as int + 1));
        }
        out.push(c);
        j += 1;
    }
    proof {
        assert(out@ =~= rev@.reverse());
        assert(rev@.reverse()[0] == rev@[k - 1]);
    }
    out
}

/// A digit prepended to a digit string contributes its value times the
/// power of ten of the remaining length.
proof fn lemma_digits_val_prepend(c: char, s: Seq<char>)
    ensures
        digits_val(seq![c] + s) == digit_val(c) * pow10(s.len()) + digits_val(s),
    decreases s.len(),
{
    if s.len() == 0 {
        assert(seq![c] + s =~= seq![c]);
        assert(seq![c].drop_last() =~= Seq::<char>::empty());
        assert(digits_val(Seq::<char>::empty()) == 0);
        assert(digits_val(seq![c]) == digit_val(c));
    } else {
        let t = seq![c] + s;
        assert(t.drop_last() =~= seq![c] + s.drop_last());
        assert(t.last() == s.last());
        lemma_digits_val_prepend(c, s.drop_last());
        assert(pow10(s.len()) == 10 * pow10((s.len() - 1) as nat));
        assert(digit_val(c) * (10 * pow10((s.len() - 1) as nat)) == (digit_val(c) * pow10(
            (s.len() - 1) as nat,
        )) * 10) by (nonlinear_arith);
    }
}

/// Ten digits are enough for any `u32`.
proof fn lemma_pow10_saturates(n: nat)
    requires
        n >= 10,
    ensures
        pow10(n) > u32::MAX,
    decreases n,
{
    if n == 10 {
        reveal_with_fuel(pow10, 11);
        assert(pow10(10) == 10000000000);
    } else {
        lemma_pow10_saturates((n - 1) as nat);
        lemma_pow10_pos((n - 1) as nat);
    }
}

} // verus!
