//! The grammar of numeric text fields.
//!
//! A field is numeric when it matches the grammar that the standard library
//! documents for parsing a 32-bit floating-point value from a string:
//!
//! ```text
//! Float  ::= Sign? ( 'inf' | 'infinity' | 'nan' | Number )
//! Number ::= Count '.'? Count? Exp?
//!          | '.' Count Exp?
//! Exp    ::= ('e' | 'E') Sign? Count
//! Count  ::= Digit+
//! Sign   ::= '+' | '-'
//! ```
//!
//! with `inf`, `infinity` and `nan` matched case-insensitively. A syntactically
//! valid field always parses (out-of-range magnitudes round to infinity), so
//! this grammar is exactly the reader's "numeric field" condition. The value a
//! field denotes is never needed by this crate's logic.

use vstd::prelude::*;

verus! {

/// ASCII decimal digit.
pub open spec fn is_digit(b: u8) -> bool {
    48 <= b <= 57
}

/// ASCII '+' or '-'.
pub open spec fn is_sign(b: u8) -> bool {
    b == 43 || b == 45
}

/// Length of the run of digits in `s` starting at `i`.
pub open spec fn digit_run_len(s: Seq<u8>, i: int) -> int
    decreases s.len() - i when 0 <= i <= s.len()
{
    if i >= s.len() || !is_digit(s[i]) {
        0
    } else {
        1 + digit_run_len(s, i + 1)
    }
}

/// ASCII upper-case letters folded to lower case; other bytes unchanged.
pub open spec fn ascii_lower(b: u8) -> u8 {
    if 65 <= b <= 90 {
        (b + 32) as u8
    } else {
        b
    }
}

/// Case-insensitive equality of `s` against an already lower-case literal.
pub open spec fn matches_ci(s: Seq<u8>, lit: Seq<u8>) -> bool {
    s.len() == lit.len() && forall|i: int| 0 <= i < s.len() ==> ascii_lower(s[i]) == lit[i]
}

/// The bytes of "inf".
pub open spec fn inf_text() -> Seq<u8> {
    seq!['i' as u8, 'n' as u8, 'f' as u8]
}

/// The bytes of "infinity".
pub open spec fn infinity_text() -> Seq<u8> {
    seq!['i' as u8, 'n' as u8, 'f' as u8, 'i' as u8, 'n' as u8, 'i' as u8, 't' as u8, 'y' as u8]
}

/// The bytes of "nan".
pub open spec fn nan_text() -> Seq<u8> {
    seq!['n' as u8, 'a' as u8, 'n' as u8]
}

/// An exponent part filling `s` from position `p` to the end.
pub open spec fn is_exponent(s: Seq<u8>, p: int) -> bool {
    &&& p < s.len()
    &&& (s[p] == 'e' as u8 || s[p] == 'E' as u8)
    &&& {
        let q = if p + 1 < s.len() && is_sign(s[p + 1]) {
            p + 2
        } else {
            p + 1
        };
        q < s.len() && digit_run_len(s, q) == s.len() - q
    }
}

/// An unsigned number: digits, an optional point with optional further digits,
/// and an optional exponent; at least one digit before the exponent.
pub open spec fn is_number(s: Seq<u8>) -> bool {
    let d1 = digit_run_len(s, 0);
    if d1 == s.len() {
        d1 > 0
    } else if s[d1] == '.' as u8 {
        let d2 = digit_run_len(s, d1 + 1);
        let p = d1 + 1 + d2;
        (d1 > 0 || d2 > 0) && (p == s.len() || is_exponent(s, p))
    } else {
        d1 > 0 && is_exponent(s, d1)
    }
}

/// A numeric field: an optional sign, then a number or one of the named values.
pub open spec fn is_numeric_text(s: Seq<u8>) -> bool {
    let body = if s.len() > 0 && is_sign(s[0]) {
        s.skip(1)
    } else {
        s
    };
    ||| matches_ci(body, inf_text())
    ||| matches_ci(body, infinity_text())
    ||| matches_ci(body, nan_text())
    ||| is_number(body)
}

/// End position of the digit run starting at `i`.
fn scan_digits(s: &Vec<u8>, i: usize) -> (j: usize)
    requires
        i <= s@.len(),
    ensures
        i <= j <= s@.len(),
        j - i == digit_run_len(s@, i as int),
{
    let mut j: usize = i;
    while j < s.len() && 48 <= s[j] && s[j] <= 57
        invariant
            i <= j <= s@.len(),
            digit_run_len(s@, i as int) == (j - i) + digit_run_len(s@, j as int),
        decreases s@.len() - j,
    {
        proof {
            assert(digit_run_len(s@, j as int) == 1 + digit_run_len(s@, j + 1));
        }
        j = j + 1;
    }
    proof {
        assert(digit_run_len(s@, j as int) == 0);
    }
    j
}

/// Case-insensitive comparison of `s` against a lower-case literal.
fn check_ci(s: &Vec<u8>, start: usize, lit: &Vec<u8>) -> (r: bool)
    requires
        start <= s@.len(),
    ensures
        r == matches_ci(s@.skip(start as int), lit@),
{
    if s.len() - start != lit.len() {
        return false;
    }
    let mut i: usize = 0;
    while i < lit.len()
        invariant
            start + lit@.len() == s@.len(),
            s@.len() <= usize::MAX,
            i <= lit@.len(),
            forall|j: int| 0 <= j < i ==> ascii_lower(s@[start + j]) == lit@[j],
        decreases lit@.len() - i,
    {
        let b = s[start + i];
        let low = if 65 <= b && b <= 90 {
            b + 32
        } else {
            b
        };
        if low != lit[i] {
            proof {
                assert(ascii_lower(s@.skip(start as int)[i as int]) != lit@[i as int]);
            }
            return false;
        }
        i = i + 1;
    }
    proof {
        assert forall|j: int| 0 <= j < lit@.len() implies ascii_lower(
            s@.skip(start as int)[j],
        ) == lit@[j] by {
            assert(s@.skip(start as int)[j] == s@[start + j]);
        }
    }
    true
}

/// Whether an exponent part fills `s` from `p` to the end.
fn check_exponent(s: &Vec<u8>, p: usize) -> (r: bool)
    requires
        p <= s@.len(),
    ensures
        r == is_exponent(s@, p as int),
{
    if p >= s.len() {
        return false;
    }
    let b = s[p];
    if b != 101 && b != 69 {
        return false;
    }
    let q = if p + 1 < s.len() && (s[p + 1] == 43 || s[p + 1] == 45) {
        p + 2
    } else {
        p + 1
    };
    if q >= s.len() {
        return false;
    }
    let j = scan_digits(s, q);
    j == s.len()
}

/// Whether the whole field is numeric text.
pub fn is_numeric_field(s: &Vec<u8>) -> (r: bool)
    ensures
        r == is_numeric_text(s@),
{
    let start: usize = if s.len() > 0 && (s[0] == 43 || s[0] == 45) {
        1
    } else {
        0
    };
    let ghost body = if s@.len() > 0 && is_sign(s@[0]) {
        s@.skip(1)
    } else {
        s@
    };
    proof {
        assert(body =~= s@.skip(start as int));
    }
    let lit_inf: Vec<u8> = vec!['i' as u8, 'n' as u8, 'f' as u8];
    let lit_infinity: Vec<u8> = vec![
        'i' as u8,
        'n' as u8,
        'f' as u8,
        'i' as u8,
        'n' as u8,
        'i' as u8,
        't' as u8,
        'y' as u8,
    ];
    let lit_nan: Vec<u8> = vec!['n' as u8, 'a' as u8, 'n' as u8];
    proof {
        assert(lit_inf@ =~= inf_text());
        assert(lit_infinity@ =~= infinity_text());
        assert(lit_nan@ =~= nan_text());
    }
    if check_ci(s, start, &lit_inf) {
        return true;
    }
    if check_ci(s, start, &lit_infinity) {
        return true;
    }
    if check_ci(s, start, &lit_nan) {
        return true;
    }
    check_number(s, start)
}

/// Whether `s` from `start` to the end is an unsigned number.
fn check_number(s: &Vec<u8>, start: usize) -> (r: bool)
    requires
        start <= s@.len(),
    ensures
        r == is_number(s@.skip(start as int)),
{
    let ghost body = s@.skip(start as int);
    let d1_end = scan_digits(s, start);
    proof {
        lemma_digit_run_skip(s@, start as int, start as int);
        assert(digit_run_len(body, 0) == d1_end - start);
    }
    if d1_end == s.len() {
        return d1_end > start;
    }
    proof {
        assert(body[d1_end - start] == s@[d1_end as int]);
    }
    if s[d1_end] == 46 {
        let d2_end = scan_digits(s, d1_end + 1);
        proof {
            lemma_digit_run_skip(s@, start as int, d1_end + 1);
            assert(digit_run_len(body, (d1_end + 1 - start) as int) == d2_end - (d1_end + 1));
        }
        if d1_end == start && d2_end == d1_end + 1 {
            return false;
        }
        if d2_end == s.len() {
            return true;
        }
        let r = check_exponent(s, d2_end);
        proof {
            lemma_exponent_skip(s@, start as int, d2_end as int);
        }
        r
    } else {
        if d1_end == start {
            return false;
        }
        let r = check_exponent(s, d1_end);
        proof {
            lemma_exponent_skip(s@, start as int, d1_end as int);
        }
        r
    }
}

/// A digit run within the suffix `s.skip(start)` has the same length as the
/// corresponding run in `s`.
proof fn lemma_digit_run_skip(s: Seq<u8>, start: int, i: int)
    requires
        0 <= start <= i <= s.len(),
    ensures
        digit_run_len(s.skip(start), i - start) == digit_run_len(s, i),
    decreases s.len() - i,
{
    if i < s.len() && is_digit(s[i]) {
        lemma_digit_run_skip(s, start, i + 1);
    }
}

/// An exponent within the suffix `s.skip(start)` is an exponent in `s`.
proof fn lemma_exponent_skip(s: Seq<u8>, start: int, p: int)
    requires
        0 <= start <= p <= s.len(),
    ensures
        is_exponent(s.skip(start), p - start) == is_exponent(s, p),
{
    if p < s.len() && (s[p] == 'e' as u8 || s[p] == 'E' as u8) {
        let q = if p + 1 < s.len() && is_sign(s[p + 1]) {
            p + 2
        } else {
            p + 1
        };
        if q <= s.len() {
            lemma_digit_run_skip(s, start, q);
        }
    }
}

} // verus!
