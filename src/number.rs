//! Decimal numbers of the wire format, held exactly as a count of
//! millionths.
//!
//! A numeric field reads as an optional sign, then digits, then optionally a
//! point and more digits, with at least one digit in all and at most
//! `MAX_WHOLE_DIGITS` before the point. Digits past the sixth after the point
//! are dropped. Any other text reads as zero.

use vstd::prelude::*;
use vstd::arithmetic::div_mod::{lemma_mod_breakdown, lemma_fundamental_div_mod};

verus! {

/// The longest whole part that a numeric field may have.
pub const MAX_WHOLE_DIGITS: usize = 24;

pub open spec fn pow10(n: nat) -> nat
    decreases n,
{
    if n == 0 {
        1
    } else {
        10 * pow10((n - 1) as nat)
    }
}

pub open spec fn is_digit(c: char) -> bool {
    '0' <= c && c <= '9'
}

pub open spec fn digit_value(c: char) -> int {
    c as int - '0' as int
}

pub open spec fn all_digits(s: Seq<char>) -> bool {
    forall|i: int| 0 <= i < s.len() ==> is_digit(#[trigger] s[i])
}

/// The number that a run of decimal digits writes.
pub open spec fn digits_value(s: Seq<char>) -> int
    decreases s.len(),
{
    if s.len() == 0 {
        0
    } else {
        digits_value(s.drop_last()) * 10 + digit_value(s.last())
    }
}

/// The index of the first `c` in `s`, or its length where there is none.
pub open spec fn first_index(s: Seq<char>, c: char) -> nat
    decreases s.len(),
{
    if s.len() == 0 {
        0
    } else if s[0] == c {
        0
    } else {
        1 + first_index(s.skip(1), c)
    }
}

/// The millionths that the digits after the point give: the first six,
/// padded with zeros.
pub open spec fn fraction_value(f: Seq<char>) -> int {
    if f.len() >= 6 {
        digits_value(f.take(6))
    } else {
        digits_value(f) * pow10((6 - f.len()) as nat)
    }
}

/// The value of an unsigned numeric field, in millionths.
pub open spec fn unsigned_value(s: Seq<char>) -> Option<int> {
    let d = first_index(s, '.') as int;
    let whole = s.take(d);
    let frac = if d < s.len() { s.skip(d + 1) } else { Seq::empty() };
    if all_digits(whole) && all_digits(frac) && whole.len() + frac.len() >= 1 && whole.len()
        <= MAX_WHOLE_DIGITS {
        Some(digits_value(whole) * pow10(6) + fraction_value(frac))
    } else {
        None
    }
}

/// The value of a numeric field in millionths, where it is well formed.
pub open spec fn decimal_of(s: Seq<char>) -> Option<int> {
    if s.len() > 0 && s[0] == '-' {
        match unsigned_value(s.skip(1)) {
            Some(v) => Some(-v),
            None => None,
        }
    } else if s.len() > 0 && s[0] == '+' {
        unsigned_value(s.skip(1))
    } else {
        unsigned_value(s)
    }
}

/// What a numeric field reads as: its value, or zero where it is malformed.
pub open spec fn field_number(s: Seq<char>) -> int {
    match decimal_of(s) {
        Some(v) => v,
        None => 0,
    }
}

pub proof fn lemma_pow10_positive(n: nat)
    ensures
        pow10(n) >= 1,
    decreases n,
{
    if n > 0 {
        lemma_pow10_positive((n - 1) as nat);
    }
}

pub proof fn lemma_pow10_monotone(a: nat, b: nat)
    requires
        a <= b,
    ensures
        pow10(a) <= pow10(b),
    decreases b,
{
    if a < b {
        lemma_pow10_monotone(a, (b - 1) as nat);
        lemma_pow10_positive((b - 1) as nat);
    }
}

pub proof fn lemma_pow10_30()
    ensures
        pow10(30) == 1_000_000_000_000_000_000_000_000_000_000,
        pow10(24) == 1_000_000_000_000_000_000_000_000,
        pow10(6) == 1_000_000,
{
    reveal_with_fuel(pow10, 31);
}

pub proof fn lemma_digits_bound(s: Seq<char>)
    requires
        all_digits(s),
    ensures
        0 <= digits_value(s) < pow10(s.len()),
    decreases s.len(),
{
    if s.len() > 0 {
        assert(all_digits(s.drop_last()));
        lemma_digits_bound(s.drop_last());
        assert(is_digit(s[s.len() - 1]));
    }
}

/// Whether each character of `s[lo..hi]` is a digit.
fn digits_between(s: &Vec<char>, lo: usize, hi: usize) -> (r: bool)
    requires
        lo <= hi <= s@.len(),
    ensures
        r == all_digits(s@.subrange(lo as int, hi as int)),
{
    let mut i = lo;
    while i < hi
        invariant
            lo <= i <= hi <= s@.len(),
            all_digits(s@.subrange(lo as int, i as int)),
        decreases hi - i,
    {
        if !('0' <= s[i] && s[i] <= '9') {
            assert(!is_digit(s@.subrange(lo as int, hi as int)[i - lo]));
            return false;
        }
        assert(forall|j: int| 0 <= j < i + 1 - lo ==> #[trigger] s@.subrange(lo as int, i + 1)[j] == s@[lo + j]);
        assert(s@.subrange(lo as int, i + 1)[i - lo] == s@.subrange(lo as int, hi as int)[i - lo]);
        assert(forall|j: int| 0 <= j < i - lo ==> #[trigger] s@.subrange(lo as int, i + 1)[j] == s@.subrange(lo as int, i as int)[j]);
        i = i + 1;
    }
    true
}

/// The number that the digits `s[lo..hi]` write.
fn digits_value_between(s: &Vec<char>, lo: usize, hi: usize) -> (r: u128)
    requires
        lo <= hi <= s@.len(),
        hi - lo <= 30,
        all_digits(s@.subrange(lo as int, hi as int)),
    ensures
        r == digits_value(s@.subrange(lo as int, hi as int)),
        r < pow10((hi - lo) as nat),
{
    proof {
        lemma_pow10_30();
    }
    let mut acc: u128 = 0;
    let mut i = lo;
    while i < hi
        invariant
            lo <= i <= hi <= s@.len(),
            hi - lo <= 30,
            all_digits(s@.subrange(lo as int, hi as int)),
            acc == digits_value(s@.subrange(lo as int, i as int)),
            acc < pow10((i - lo) as nat),
            pow10(30) == 1_000_000_000_000_000_000_000_000_000_000,
        decreases hi - i,
    {
        let c = s[i];
        proof {
            assert(is_digit(s@.subrange(lo as int, hi as int)[i - lo]));
            assert(s@.subrange(lo as int, i + 1).drop_last() =~= s@.subrange(lo as int, i as int));
            lemma_pow10_monotone((i + 1 - lo) as nat, 30);
        }
        let d = (c as u32 - '0' as u32) as u128;
        acc = acc * 10 + d;
        i = i + 1;
    }
    acc
}

/// `pow10(k)` for a small `k`.
fn pow10_exec(k: usize) -> (r: u128)
    requires
        k <= 30,
    ensures
        r == pow10(k as nat),
{
    proof {
        lemma_pow10_30();
    }
    let mut r: u128 = 1;
    let mut i: usize = 0;
    while i < k
        invariant
            i <= k <= 30,
            r == pow10(i as nat),
            pow10(30) == 1_000_000_000_000_000_000_000_000_000_000,
        decreases k - i,
    {
        proof {
            lemma_pow10_monotone((i + 1) as nat, 30);
        }
        r = r * 10;
        i = i + 1;
    }
    r
}

/// The index of the first `c` in `s[lo..]`, or the length of `s`.
fn find_from(s: &Vec<char>, lo: usize, c: char) -> (r: usize)
    requires
        lo <= s@.len(),
    ensures
        r == lo + first_index(s@.skip(lo as int), c),
        r <= s@.len(),
{
    let mut i = lo;
    while i < s.len()
        invariant
            lo <= i <= s@.len(),
            first_index(s@.skip(lo as int), c) == (i - lo) + first_index(s@.skip(i as int), c),
        decreases s.len() - i,
    {
        if s[i] == c {
            return i;
        }
        assert(s@.skip(i as int).skip(1) =~= s@.skip(i + 1));
        i = i + 1;
    }
    i
}

/// The value of the unsigned field `s[lo..]`.
fn unsigned_between(s: &Vec<char>, lo: usize) -> (r: Option<i128>)
    requires
        lo <= s@.len(),
    ensures
        match unsigned_value(s@.skip(lo as int)) {
            Some(v) => r == Some(v as i128) && 0 <= v < pow10(30),
            None => r.is_none(),
        },
{
    let t = Ghost(s@.skip(lo as int));
    let d = find_from(s, lo, '.');
    let frac_lo = if d < s.len() { d + 1 } else { d };
    proof {
        assert(t@.take(d - lo) =~= s@.subrange(lo as int, d as int));
        if d < s.len() {
            assert(t@.skip(d - lo + 1) =~= s@.subrange(d + 1, s@.len() as int));
        } else {
            assert(Seq::<char>::empty() =~= s@.subrange(d as int, s@.len() as int));
        }
        lemma_pow10_30();
    }
    let whole_ok = digits_between(s, lo, d);
    let frac_ok = digits_between(s, frac_lo, s.len());
    if !whole_ok || !frac_ok || (d - lo) + (s.len() - frac_lo) == 0 || d - lo > MAX_WHOLE_DIGITS {
        return None;
    }
    let whole = digits_value_between(s, lo, d);
    let frac_len = s.len() - frac_lo;
    let taken = if frac_len >= 6 { 6 } else { frac_len };
    proof {
        let f = s@.subrange(frac_lo as int, s@.len() as int);
        assert(f.take(taken as int) =~= s@.subrange(frac_lo as int, frac_lo + taken));
        assert(all_digits(f.take(taken as int)));
        lemma_pow10_monotone((d - lo) as nat, 24);
    }
    let first6 = digits_value_between(s, frac_lo, frac_lo + taken);
    let pad = pow10_exec(6 - taken);
    proof {
        lemma_pow10_monotone(taken as nat, 6);
        lemma_pow10_positive((6 - taken) as nat);
        assert(pow10(taken as nat) * pow10((6 - taken) as nat) == pow10(6)) by {
            lemma_pow10_split(taken as nat, (6 - taken) as nat);
        }
        assert(first6 * pad < pow10(6)) by (nonlinear_arith)
            requires
                first6 < pow10(taken as nat),
                pow10(taken as nat) * pad == pow10(6),
                pad >= 1,
        ;
        assert(whole * 1_000_000 < pow10(30)) by (nonlinear_arith)
            requires
                whole < 1_000_000_000_000_000_000_000_000,
                pow10(30) == 1_000_000_000_000_000_000_000_000_000_000,
        ;
    }
    let v = whole * 1_000_000 + first6 * pad;
    proof {
        let f = s@.subrange(frac_lo as int, s@.len() as int);
        assert(f.take(taken as int) =~= s@.subrange(frac_lo as int, frac_lo + taken));
        assert(f.len() == frac_len);
        if frac_len < 6 {
            assert(f.take(taken as int) =~= f);
            assert(fraction_value(f) == digits_value(f) * pow10((6 - f.len()) as nat));
        } else {
            assert(pad == 1);
            assert(fraction_value(f) == digits_value(f.take(6)));
        }
        assert(fraction_value(f) == first6 * pad);
        assert(unsigned_value(t@) == Some(v as int));
    }
    Some(v as i128)
}

pub proof fn lemma_pow10_split(a: nat, b: nat)
    ensures
        pow10(a) * pow10(b) == pow10(a + b),
    decreases a,
{
    if a > 0 {
        lemma_pow10_split((a - 1) as nat, b);
        assert(pow10(a + b) == 10 * pow10((a - 1 + b) as nat));
        assert(pow10(a) * pow10(b) == 10 * (pow10((a - 1) as nat) * pow10(b))) by (nonlinear_arith)
            requires
                pow10(a) == 10 * pow10((a - 1) as nat),
        ;
    } else {
        assert(pow10(0) == 1);
        assert(a + b == b);
    }
}

/// Reads a numeric field; malformed text reads as zero.
pub fn parse_number(text: &Vec<char>) -> (r: i128)
    ensures
        r == field_number(text@),
        -pow10(30) < r < pow10(30),
{
    proof {
        lemma_pow10_30();
    }
    let signed = text.len() > 0 && (text[0] == '-' || text[0] == '+');
    let lo: usize = if signed { 1 } else { 0 };
    proof {
        assert(text@.skip(0) =~= text@);
    }
    match unsigned_between(text, lo) {
        Some(v) => {
            if text.len() > 0 && text[0] == '-' {
                -v
            } else {
                v
            }
        },
        None => 0,
    }
}

/// The character of a decimal digit.
pub open spec fn digit_char(d: int) -> char {
    if d == 0 {
        '0'
    } else if d == 1 {
        '1'
    } else if d == 2 {
        '2'
    } else if d == 3 {
        '3'
    } else if d == 4 {
        '4'
    } else if d == 5 {
        '5'
    } else if d == 6 {
        '6'
    } else if d == 7 {
        '7'
    } else if d == 8 {
        '8'
    } else {
        '9'
    }
}

/// The shortest decimal writing of `n`.
pub open spec fn nat_text(n: nat) -> Seq<char>
    decreases n,
{
    if n < 10 {
        seq![digit_char(n as int)]
    } else {
        nat_text(n / 10).push(digit_char((n % 10) as int))
    }
}

/// The last `k` decimal digits of `n`, with leading zeros.
pub open spec fn padded_text(n: nat, k: nat) -> Seq<char>
    decreases k,
{
    if k == 0 {
        Seq::empty()
    } else {
        padded_text(n / 10, (k - 1) as nat).push(digit_char((n % 10) as int))
    }
}

pub open spec fn abs(v: int) -> nat {
    if v < 0 {
        (-v) as nat
    } else {
        v as nat
    }
}

/// How a number of millionths is written in a field: its sign where it is
/// negative, the whole part, a point and six digits.
pub open spec fn number_text(v: int) -> Seq<char> {
    let sign = if v < 0 { seq!['-'] } else { Seq::empty() };
    sign + nat_text(abs(v) / 1_000_000) + seq!['.'] + padded_text(abs(v) % 1_000_000, 6)
}

pub proof fn lemma_digit_char(d: int)
    requires
        0 <= d < 10,
    ensures
        is_digit(digit_char(d)),
        digit_value(digit_char(d)) == d,
{
}

pub proof fn lemma_nat_text(n: nat, k: nat)
    ensures
        all_digits(nat_text(n)),
        digits_value(nat_text(n)) == n,
        nat_text(n).len() >= 1,
        k >= 1 && n < pow10(k) ==> nat_text(n).len() <= k,
    decreases n,
{
    if n < 10 {
        lemma_digit_char(n as int);
        assert(nat_text(n).drop_last() =~= Seq::<char>::empty());
        assert(digits_value(Seq::<char>::empty()) == 0);
        assert(digits_value(nat_text(n)) == digits_value(nat_text(n).drop_last()) * 10 + digit_value(nat_text(n).last()));
    } else {
        let k1 = if k >= 1 { (k - 1) as nat } else { 0 };
        lemma_nat_text(n / 10, k1);
        lemma_digit_char((n % 10) as int);
        assert(nat_text(n).drop_last() =~= nat_text(n / 10));
        lemma_fundamental_div_mod(n as int, 10);
        assert(digits_value(nat_text(n)) == digits_value(nat_text(n).drop_last()) * 10 + digit_value(nat_text(n).last()));
        if k >= 1 && n < pow10(k) {
            if k == 1 {
                assert(pow10(1) == 10) by {
                    reveal_with_fuel(pow10, 2);
                }
            } else {
                assert(n / 10 < pow10(k1)) by {
                    assert(pow10(k) == 10 * pow10(k1));
                }
            }
        }
    }
}

pub proof fn lemma_padded_text(n: nat, k: nat)
    ensures
        all_digits(padded_text(n, k)),
        padded_text(n, k).len() == k,
        digits_value(padded_text(n, k)) == n % pow10(k),
    decreases k,
{
    if k > 0 {
        let k1 = (k - 1) as nat;
        lemma_padded_text(n / 10, k1);
        lemma_digit_char((n % 10) as int);
        assert(padded_text(n, k).drop_last() =~= padded_text(n / 10, k1));
        lemma_pow10_positive(k1);
        lemma_mod_breakdown(n as int, 10, pow10(k1) as int);
        assert(pow10(k) == 10 * pow10(k1));
    }
}

pub proof fn lemma_first_index_after_digits(a: Seq<char>, b: Seq<char>)
    requires
        all_digits(a),
    ensures
        first_index(a + seq!['.'] + b, '.') == a.len(),
    decreases a.len(),
{
    if a.len() > 0 {
        assert(is_digit(a[0]));
        assert(all_digits(a.skip(1)));
        lemma_first_index_after_digits(a.skip(1), b);
        assert((a + seq!['.'] + b).skip(1) =~= a.skip(1) + seq!['.'] + b);
    }
}

/// Writing a number and reading it back gives the same number.
pub proof fn lemma_number_round_trip(v: int)
    requires
        -pow10(30) < v < pow10(30),
    ensures
        decimal_of(number_text(v)) == Some(v),
{
    lemma_pow10_30();
    let a = abs(v);
    let w = a / 1_000_000;
    let f = a % 1_000_000;
    lemma_nat_text(w, 24);
    lemma_padded_text(f, 6);
    let u = nat_text(w) + seq!['.'] + padded_text(f, 6);
    lemma_first_index_after_digits(nat_text(w), padded_text(f, 6));
    assert(u.take(nat_text(w).len() as int) =~= nat_text(w));
    assert(u.skip(nat_text(w).len() as int + 1) =~= padded_text(f, 6));
    assert(padded_text(f, 6).take(6) =~= padded_text(f, 6));
    assert(f % 1_000_000 == f);
    assert(unsigned_value(u) == Some(a as int));
    if v < 0 {
        assert(number_text(v).skip(1) =~= u);
    } else {
        assert(number_text(v) =~= u);
        lemma_digit_char(0);
        assert(is_digit(u[0]));
    }
}

fn digit_char_exec(d: u128) -> (r: char)
    requires
        d < 10,
    ensures
        r == digit_char(d as int),
{
    if d == 0 {
        '0'
    } else if d == 1 {
        '1'
    } else if d == 2 {
        '2'
    } else if d == 3 {
        '3'
    } else if d == 4 {
        '4'
    } else if d == 5 {
        '5'
    } else if d == 6 {
        '6'
    } else if d == 7 {
        '7'
    } else if d == 8 {
        '8'
    } else {
        '9'
    }
}

/// Appends the shortest decimal writing of `n`.
pub fn push_nat(out: &mut Vec<char>, n: u128)
    ensures
        final(out)@ == old(out)@ + nat_text(n as nat),
    decreases n,
{
    if n >= 10 {
        push_nat(out, n / 10);
    }
    out.push(digit_char_exec(n % 10));
    proof {
        if n < 10 {
            assert(n % 10 == n);
        }
        assert(final(out)@ =~= old(out)@ + nat_text(n as nat));
    }
}

/// Appends the last `k` decimal digits of `n`, with leading zeros.
pub fn push_padded(out: &mut Vec<char>, n: u128, k: usize)
    ensures
        final(out)@ == old(out)@ + padded_text(n as nat, k as nat),
    decreases k,
{
    if k > 0 {
        push_padded(out, n / 10, k - 1);
        out.push(digit_char_exec(n % 10));
        proof {
            assert(final(out)@ =~= old(out)@ + padded_text(n as nat, k as nat));
        }
    } else {
        proof {
            assert(final(out)@ =~= old(out)@ + padded_text(n as nat, k as nat));
        }
    }
}

/// Appends the field writing of a number of millionths.
pub fn push_number(out: &mut Vec<char>, v: i128)
    requires
        -pow10(30) < v < pow10(30),
    ensures
        final(out)@ == old(out)@ + number_text(v as int),
{
    proof {
        lemma_pow10_30();
    }
    let a: u128 = if v < 0 { (-v) as u128 } else { v as u128 };
    if v < 0 {
        out.push('-');
    }
    push_nat(out, a / 1_000_000);
    out.push('.');
    push_padded(out, a % 1_000_000, 6);
    proof {
        assert(final(out)@ =~= old(out)@ + number_text(v as int));
    }
}

/// Every numeric field reads as a number within the range that fields can
/// write.
pub proof fn lemma_field_number_range(s: Seq<char>)
    ensures
        -pow10(30) < field_number(s) < pow10(30),
{
    lemma_pow10_30();
    let t = if s.len() > 0 && (s[0] == '-' || s[0] == '+') { s.skip(1) } else { s };
    let d = first_index(t, '.') as int;
    let whole = t.take(d);
    let frac = if d < t.len() { t.skip(d + 1) } else { Seq::empty() };
    if all_digits(whole) && all_digits(frac) && whole.len() + frac.len() >= 1 && whole.len() <= 24 {
        lemma_digits_bound(whole);
        lemma_pow10_monotone(whole.len(), 24);
        if frac.len() >= 6 {
            assert(all_digits(frac.take(6)));
            lemma_digits_bound(frac.take(6));
        } else {
            lemma_digits_bound(frac);
            lemma_pow10_split(frac.len(), (6 - frac.len()) as nat);
            lemma_pow10_positive((6 - frac.len()) as nat);
            assert(digits_value(frac) * pow10((6 - frac.len()) as nat) < pow10(6)) by (nonlinear_arith)
                requires
                    digits_value(frac) < pow10(frac.len()),
                    pow10(frac.len()) * pow10((6 - frac.len()) as nat) == pow10(6),
                    pow10((6 - frac.len()) as nat) >= 1,
            ;
            assert(digits_value(frac) * pow10((6 - frac.len()) as nat) >= 0) by (nonlinear_arith)
                requires
                    digits_value(frac) >= 0,
                    pow10((6 - frac.len()) as nat) >= 1,
            ;
        }
        let w = digits_value(whole);
        assert(w * 1_000_000 <= (pow10(30) - 1_000_000)) by (nonlinear_arith)
            requires
                0 <= w < 1_000_000_000_000_000_000_000_000,
                pow10(30) == 1_000_000_000_000_000_000_000_000_000_000,
        ;
        assert(w * 1_000_000 >= 0) by (nonlinear_arith)
            requires
                0 <= w,
        ;
        assert(unsigned_value(t) == Some(w * pow10(6) + fraction_value(frac)));
    }
}

pub proof fn lemma_digits_free_of(s: Seq<char>, c: char)
    requires
        all_digits(s),
        !is_digit(c),
    ensures
        forall|i: int| 0 <= i < s.len() ==> s[i] != c,
{
    assert forall|i: int| 0 <= i < s.len() implies s[i] != c by {
        assert(is_digit(s[i]));
    }
}

/// A field writing of a number holds no comma.
pub proof fn lemma_number_text_has_no_comma(v: int)
    ensures
        forall|i: int| 0 <= i < number_text(v).len() ==> number_text(v)[i] != ',',
{
    let a = abs(v);
    lemma_nat_text(a / 1_000_000, 1);
    lemma_padded_text(a % 1_000_000, 6);
    lemma_digits_free_of(nat_text(a / 1_000_000), ',');
    lemma_digits_free_of(padded_text(a % 1_000_000, 6), ',');
    let sign = if v < 0 { seq!['-'] } else { Seq::empty() };
    let n = nat_text(a / 1_000_000);
    let p = padded_text(a % 1_000_000, 6);
    assert forall|i: int| 0 <= i < number_text(v).len() implies number_text(v)[i] != ',' by {
        if i < sign.len() {
            assert(number_text(v)[i] == sign[i]);
        } else if i < sign.len() + n.len() {
            assert(number_text(v)[i] == n[i - sign.len()]);
        } else if i == sign.len() + n.len() {
            assert(number_text(v)[i] == '.');
        } else {
            assert(number_text(v)[i] == p[i - sign.len() - n.len() - 1]);
        }
    }
}

} // verus!
