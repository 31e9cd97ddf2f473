//! Decimal numerals over bytes: the shell-channel grammar addresses clients by
//! numeric id, so the relay both reads and prints base-ten numerals.

use vstd::prelude::*;

verus! {

/// An ASCII decimal digit.
pub open spec fn is_digit(b: u8) -> bool {
    48 <= b && b <= 57
}

/// Every byte of `s` is a decimal digit.
pub open spec fn all_digits(s: Seq<u8>) -> bool {
    forall|i: int| 0 <= i < s.len() ==> is_digit(#[trigger] s[i])
}

/// The value of `s` read as a base-ten numeral (most significant digit first).
pub open spec fn dec_val(s: Seq<u8>) -> int
    decreases s.len(),
{
    if s.len() == 0 {
        0
    } else {
        dec_val(s.drop_last()) * 10 + (s.last() - 48)
    }
}

/// The base-ten numeral of `n`, without leading zeros (`0` itself excepted).
pub open spec fn dec_digits(n: nat) -> Seq<u8>
    decreases n,
{
    if n < 10 {
        seq![(n + 48) as u8]
    } else {
        dec_digits(n / 10) + seq![((n % 10) + 48) as u8]
    }
}

proof fn lemma_dec_val_nonneg(s: Seq<u8>)
    requires
        all_digits(s),
    ensures
        dec_val(s) >= 0,
    decreases s.len(),
{
    if s.len() > 0 {
        assert(all_digits(s.drop_last()));
        lemma_dec_val_nonneg(s.drop_last());
    }
}

proof fn lemma_dec_val_prefix(s: Seq<u8>, k: int)
    requires
        all_digits(s),
        0 <= k <= s.len(),
    ensures
        dec_val(s) >= dec_val(s.take(k)),
    decreases s.len() - k,
{
    if k == s.len() {
        assert(s.take(k) =~= s);
    } else {
        lemma_dec_val_prefix(s, k + 1);
        let t = s.take(k + 1);
        assert(t.drop_last() =~= s.take(k));
        assert(all_digits(t));
        lemma_dec_val_nonneg(t.drop_last());
        assert(dec_val(t) == dec_val(s.take(k)) * 10 + (s[k] - 48));
        assert(dec_val(s.take(k)) * 10 >= dec_val(s.take(k)));
    }
}

/// Read `s` as a base-ten `u64`. Returns the value exactly when `s` is a
/// non-empty run of digits whose value fits in a `u64`.
pub fn parse_u64(s: &Vec<u8>) -> (r: Option<u64>)
    ensures
        r matches Some(v) <==> (s@.len() > 0 && all_digits(s@) && dec_val(s@) <= u64::MAX),
        r matches Some(v) ==> v == dec_val(s@),
{
    if s.len() == 0 {
        return None;
    }
    let mut acc: u64 = 0;
    let mut k: usize = 0;
    while k < s.len()
        invariant
            0 <= k <= s@.len(),
            all_digits(s@.take(k as int)),
            acc == dec_val(s@.take(k as int)),
        decreases s@.len() - k,
    {
        let b = s[k];
        if b < 48 || b > 57 {
            assert(!is_digit(s@[k as int]));
            return None;
        }
        let d = b - 48;
        if acc > (u64::MAX - (d as u64)) / 10 {
            proof {
                let t = s@.take(k + 1 as int);
                assert(t.drop_last() =~= s@.take(k as int));
                assert(dec_val(t) == acc * 10 + d);
                let m = u64::MAX - d;
                assert(acc >= m / 10 + 1);
                assert(acc * 10 >= (m / 10 + 1) * 10) by (nonlinear_arith)
                    requires
                        acc >= m / 10 + 1,
                ;
                assert((m / 10) * 10 + m % 10 == m) by (nonlinear_arith);
                assert(acc * 10 + d > u64::MAX);
                if all_digits(s@) {
                    lemma_dec_val_prefix(s@, k + 1);
                }
            }
            return None;
        }
        proof {
            let m = u64::MAX - d;
            assert(acc * 10 <= (m / 10) * 10) by (nonlinear_arith)
                requires
                    acc <= m / 10,
            ;
            assert((m / 10) * 10 + m % 10 == m) by (nonlinear_arith);
            let t = s@.take(k + 1 as int);
            assert(t.drop_last() =~= s@.take(k as int));
            assert(t.last() == s@[k as int]);
            assert(all_digits(t));
        }
        acc = acc * 10 + (d as u64);
        k = k + 1;
    }
    proof {
        assert(s@.take(k as int) =~= s@);
    }
    Some(acc)
}

/// Print `n` as a base-ten numeral.
pub fn u64_to_dec(n: u64) -> (r: Vec<u8>)
    ensures
        r@ == dec_digits(n as nat),
{
    let mut digits: Vec<u8> = Vec::new();
    let mut m: u64 = n;
    while m >= 10
        invariant
            dec_digits(n as nat) =~= dec_digits(m as nat) + Seq::new(
                digits@.len(),
                |i: int| digits@[digits@.len() - 1 - i],
            ),
        decreases m,
    {
        let d = (m % 10) as u8 + 48;
        let ghost old_digits = digits@;
        digits.push(d);
        proof {
            assert(dec_digits(m as nat) == dec_digits((m as nat) / 10) + seq![d]);
            assert(Seq::new(
                digits@.len(),
                |i: int| digits@[digits@.len() - 1 - i],
            ) =~= seq![d] + Seq::new(old_digits.len(), |i: int| old_digits[old_digits.len() - 1 - i]));
            assert((m as nat) / 10 == ((m / 10) as u64) as nat);
        }
        m = m / 10;
    }
    let d = m as u8 + 48;
    let ghost old_digits = digits@;
    digits.push(d);
    proof {
        assert(dec_digits(m as nat) =~= seq![d]);
        assert(Seq::new(
            digits@.len(),
            |i: int| digits@[digits@.len() - 1 - i],
        ) =~= seq![d] + Seq::new(old_digits.len(), |i: int| old_digits[old_digits.len() - 1 - i]));
        assert(dec_digits(n as nat) =~= Seq::new(
            digits@.len(),
            |i: int| digits@[digits@.len() - 1 - i],
        ));
    }
    let mut out: Vec<u8> = Vec::new();
    let mut k: usize = 0;
    let total = digits.len();
    while k < total
        invariant
            0 <= k <= total == digits@.len(),
            out@ =~= Seq::new(k as nat, |i: int| digits@[digits@.len() - 1 - i]),
        decreases total - k,
    {
        out.push(digits[total - 1 - k]);
        k = k + 1;
    }
    proof {
        assert(out@ =~= dec_digits(n as nat));
    }
    out
}

} // verus!
