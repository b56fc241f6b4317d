//! Decimal text for unsigned values: printing, parsing, and the laws tying
//! the two together.

use vstd::prelude::*;

verus! {

use crate::numeric::is_digit;
use crate::numeric::digit_run_len;

/// The decimal text of `n`: most significant digit first, no leading zero
/// except for `n == 0` itself.
pub open spec fn dec_of(n: nat) -> Seq<u8>
    decreases n,
{
    if n < 10 {
        seq![(48 + n) as u8]
    } else {
        dec_of(n / 10).push((48 + n % 10) as u8)
    }
}

/// Every byte of `s` is a digit.
pub open spec fn all_digits(s: Seq<u8>) -> bool {
    forall|i: int| 0 <= i < s.len() ==> is_digit(#[trigger] s[i])
}

/// The value of a digit string, most significant digit first.
pub open spec fn dec_val(s: Seq<u8>) -> int
    decreases s.len(),
{
    if s.len() == 0 {
        0
    } else {
        dec_val(s.drop_last()) * 10 + (s.last() - 48)
    }
}

/// The decimal text of a value is non-empty and all digits.
pub proof fn lemma_dec_of_digits(n: nat)
    ensures
        dec_of(n).len() >= 1,
        all_digits(dec_of(n)),
    decreases n,
{
    if n >= 10 {
        lemma_dec_of_digits(n / 10);
        assert forall|i: int| 0 <= i < dec_of(n).len() implies is_digit(#[trigger] dec_of(n)[i]) by {
            if i < dec_of(n / 10).len() {
                assert(dec_of(n)[i] == dec_of(n / 10)[i]);
            }
        }
    }
}

/// Law: parsing the decimal text of a value yields the value back.
pub proof fn lemma_dec_round_trip(n: nat)
    ensures
        dec_val(dec_of(n)) == n,
    decreases n,
{
    if n < 10 {
        assert(dec_of(n) == seq![(48 + n) as u8]);
        assert(dec_of(n).drop_last() =~= Seq::<u8>::empty());
        assert(dec_of(n).last() == (48 + n) as u8);
        assert(dec_val(dec_of(n)) == dec_val(Seq::<u8>::empty()) * 10 + ((48 + n) as u8 - 48));
        assert(dec_val(Seq::<u8>::empty()) == 0);
        assert(dec_val(dec_of(n)) == n);
    } else {
        lemma_dec_round_trip(n / 10);
        assert(dec_of(n) == dec_of(n / 10).push((48 + n % 10) as u8));
        assert(dec_of(n).drop_last() =~= dec_of(n / 10));
        assert(dec_of(n).last() == (48 + n % 10) as u8);
        vstd::arithmetic::div_mod::lemma_fundamental_div_mod(n as int, 10);
        assert(0 <= n % 10 < 10);
        assert((48 + n % 10) as u8 - 48 == n % 10);
        assert(dec_val(dec_of(n)) == dec_val(dec_of(n / 10)) * 10 + (n % 10));
        assert(dec_val(dec_of(n)) == (n / 10) * 10 + (n % 10));
        assert(n as int == 10 * ((n as int) / 10) + (n as int) % 10);
    }
}

/// A digit string's value is at least zero.
pub proof fn lemma_dec_val_nonneg(s: Seq<u8>)
    requires
        all_digits(s),
    ensures
        dec_val(s) >= 0,
    decreases s.len(),
{
    if s.len() > 0 {
        assert(all_digits(s.drop_last()));
        lemma_dec_val_nonneg(s.drop_last());
    }
}

/// A digit string's value bounds the value of each of its prefixes.
pub proof fn lemma_dec_val_prefix(s: Seq<u8>, j: int)
    requires
        all_digits(s),
        0 <= j <= s.len(),
    ensures
        dec_val(s.take(j)) <= dec_val(s),
    decreases s.len() - j,
{
    if j == s.len() {
        assert(s.take(j) =~= s);
    } else {
        lemma_dec_val_prefix(s, j + 1);
        let t = s.take(j + 1);
        assert(t.drop_last() =~= s.take(j));
        assert(all_digits(s.take(j)));
        lemma_dec_val_nonneg(s.take(j));
        assert(dec_val(t) == dec_val(s.take(j)) * 10 + (t.last() - 48));
        assert(dec_val(s.take(j)) * 10 >= dec_val(s.take(j))) by (nonlinear_arith)
            requires
                dec_val(s.take(j)) >= 0,
        ;
    }
}

/// A run of `m` digits at `i`, stopped by the end or a non-digit, is exactly
/// the digit run at `i`.
pub proof fn lemma_digit_run_exact(s: Seq<u8>, i: int, m: int)
    requires
        0 <= i,
        0 <= m,
        i + m <= s.len(),
        forall|k: int| i <= k < i + m ==> is_digit(#[trigger] s[k]),
        i + m == s.len() || !is_digit(s[i + m]),
    ensures
        digit_run_len(s, i) == m,
    decreases m,
{
    if m > 0 {
        lemma_digit_run_exact(s, i + 1, m - 1);
    }
}

/// Print `n` as decimal text.
#[verifier::loop_isolation(false)]
pub fn u64_to_dec(n: u64) -> (v: Vec<u8>)
    ensures
        v@ == dec_of(n as nat),
{
    if n < 10 {
        let d: u8 = 48 + (n as u8);
        let v: Vec<u8> = vec![d];
        proof {
            assert(v@ =~= dec_of(n as nat));
        }
        return v;
    }
    let mut acc: Vec<u8> = Vec::new();
    let mut cur: u64 = n;
    while cur > 0
        invariant
            cur >= 0,
            cur > 0 ==> dec_of(n as nat) == dec_of(cur as nat) + acc@.reverse(),
            cur == 0 ==> dec_of(n as nat) == acc@.reverse(),
        decreases cur,
    {
        let d: u8 = 48 + ((cur % 10) as u8);
        let ghost prev = acc@;
        acc.push(d);
        let ghost oldcur = cur as nat;
        cur = cur / 10;
        proof {
            assert(acc@.reverse() =~= seq![d] + prev.reverse());
            if oldcur >= 10 {
                assert(dec_of(oldcur) == dec_of(oldcur / 10).push(d));
                assert(dec_of(oldcur / 10).push(d) + prev.reverse() =~= dec_of(oldcur / 10) + (
                seq![d] + prev.reverse()));
            } else {
                assert(dec_of(oldcur) =~= seq![d]);
                assert(dec_of(oldcur) + prev.reverse() =~= seq![d] + prev.reverse());
            }
        }
    }
    let mut out: Vec<u8> = Vec::new();
    let mut i: usize = acc.len();
    while i > 0
        invariant
            i <= acc@.len(),
            out@.len() == acc@.len() - i,
            forall|k: int| 0 <= k < out@.len() ==> out@[k] == acc@[acc@.len() - 1 - k],
        decreases i,
    {
        i = i - 1;
        out.push(acc[i]);
    }
    proof {
        assert(out@ =~= acc@.reverse());
    }
    out
}

/// Parse the digit run at `start`: its value and the position after it, or
/// nothing when no digit stands at `start` or the value exceeds `u64::MAX`.
#[verifier::loop_isolation(false)]
pub fn parse_u64_at(s: &Vec<u8>, start: usize) -> (r: Option<(u64, usize)>)
    requires
        start <= s@.len(),
    ensures
        ({
            let m = digit_run_len(s@, start as int);
            let run = s@.subrange(start as int, start + m);
            match r {
                Some((v, np)) => m > 0 && np == start + m && np <= s@.len() && v == dec_val(run),
                None => m == 0 || dec_val(run) > u64::MAX,
            }
        }),
{
    let ghost m = digit_run_len(s@, start as int);
    let ghost run = s@.subrange(start as int, start + m);
    proof {
        lemma_run_facts(s@, start as int);
    }
    let mut j: usize = start;
    let mut val: u64 = 0;
    while j < s.len() && 48 <= s[j] && s[j] <= 57
        invariant
            start <= j <= s@.len(),
            j <= start + m,
            digit_run_len(s@, start as int) == (j - start) + digit_run_len(s@, j as int),
            val == dec_val(s@.subrange(start as int, j as int)),
        decreases s@.len() - j,
    {
        proof {
            assert(digit_run_len(s@, j as int) == 1 + digit_run_len(s@, j + 1));
            assert(j < start + m);
        }
        let d: u8 = s[j] - 48;
        let ghost pre = s@.subrange(start as int, j as int);
        let ghost ext = s@.subrange(start as int, j + 1);
        proof {
            assert(ext.drop_last() =~= pre);
            assert(ext.last() == s@[j as int]);
            assert(dec_val(ext) == val * 10 + d);
        }
        let v10 = match val.checked_mul(10) {
            Some(x) => x,
            None => {
                proof {
                    lemma_overflow_means_big(s@, start as int, m, j + 1, val * 10 + d);
                }
                return None;
            },
        };
        let nv = match v10.checked_add(d as u64) {
            Some(x) => x,
            None => {
                proof {
                    lemma_overflow_means_big(s@, start as int, m, j + 1, val * 10 + d);
                }
                return None;
            },
        };
        val = nv;
        j = j + 1;
    }
    proof {
        assert(digit_run_len(s@, j as int) == 0);
        assert(j == start + m);
    }
    if j == start {
        return None;
    }
    Some((val, j))
}

/// The digit run at `i` lies within `s`, holds digits only, and is stopped by
/// the end or a non-digit.
proof fn lemma_run_facts(s: Seq<u8>, i: int)
    requires
        0 <= i <= s.len(),
    ensures
        0 <= digit_run_len(s, i),
        i + digit_run_len(s, i) <= s.len(),
        forall|k: int| i <= k < i + digit_run_len(s, i) ==> is_digit(#[trigger] s[k]),
        i + digit_run_len(s, i) == s.len() || !is_digit(s[i + digit_run_len(s, i)]),
    decreases s.len() - i,
{
    if i < s.len() && is_digit(s[i]) {
        lemma_run_facts(s, i + 1);
    }
}

/// When a partial value already exceeds `u64::MAX`, the whole run's value
/// does too.
proof fn lemma_overflow_means_big(s: Seq<u8>, start: int, m: int, jext: int, partial: int)
    requires
        0 <= start,
        m == digit_run_len(s, start),
        start <= jext <= start + m <= s.len(),
        partial == dec_val(s.subrange(start, jext)),
        partial > u64::MAX,
    ensures
        dec_val(s.subrange(start, start + m)) > u64::MAX,
{
    lemma_run_facts(s, start);
    let run = s.subrange(start, start + m);
    assert(all_digits(run));
    assert(run.take(jext - start) =~= s.subrange(start, jext));
    lemma_dec_val_prefix(run, jext - start);
}

} // verus!
