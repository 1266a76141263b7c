//! Human-readable quantities such as `1.5GiB` or `512kB`, read as byte counts.
//!
//! A quantity is a run of ASCII digits, an optional `.` with more digits,
//! then a run of ASCII letters naming the unit. `kb` and `mb` count in powers
//! of 1000, `mib` and `gib` in powers of 1024, `b` and any other suffix (or
//! none) count bytes. Units match without regard to ASCII case. The value is
//! computed exactly and truncated; a string with no leading digit reads as 0.

use vstd::prelude::*;
use crate::text::chars_of;

verus! {

pub open spec fn is_digit(c: char) -> bool {
    '0' <= c && c <= '9'
}

pub open spec fn digit_val(c: char) -> nat {
    (c as int - '0' as int) as nat
}

pub open spec fn is_ascii_letter(c: char) -> bool {
    ('a' <= c && c <= 'z') || ('A' <= c && c <= 'Z')
}

/// ASCII lower case of one character; other characters are kept.
pub open spec fn ascii_lower(c: char) -> char {
    if 'A' <= c && c <= 'Z' {
        ((c as u32) + 32) as char
    } else {
        c
    }
}

pub open spec fn pow10(n: nat) -> nat
    decreases n,
{
    if n == 0 {
        1
    } else {
        10 * pow10((n - 1) as nat)
    }
}

/// The number that a run of decimal digits denotes.
pub open spec fn digits_value(s: Seq<char>) -> nat
    decreases s.len(),
{
    if s.len() == 0 {
        0
    } else {
        digits_value(s.drop_last()) * 10 + digit_val(s.last())
    }
}

/// End of the run of digits that starts at `from`.
pub open spec fn digit_run_end(s: Seq<char>, from: int) -> int
    decreases s.len() - from,
{
    if 0 <= from < s.len() && is_digit(s[from]) {
        digit_run_end(s, from + 1)
    } else {
        from
    }
}

/// End of the run of ASCII letters that starts at `from`.
pub open spec fn letter_run_end(s: Seq<char>, from: int) -> int
    decreases s.len() - from,
{
    if 0 <= from < s.len() && is_ascii_letter(s[from]) {
        letter_run_end(s, from + 1)
    } else {
        from
    }
}

/// How many bytes one of `unit` stands for.
pub open spec fn unit_multiplier(unit: Seq<char>) -> nat {
    let u = unit.map_values(|c: char| ascii_lower(c));
    if u == seq!['b'] {
        1
    } else if u == seq!['k', 'b'] {
        1000
    } else if u == seq!['m', 'b'] {
        1000 * 1000
    } else if u == seq!['m', 'i', 'b'] {
        1024 * 1024
    } else if u == seq!['g', 'i', 'b'] {
        1024 * 1024 * 1024
    } else {
        1
    }
}

/// End of the integer part of the quantity in `s`.
pub open spec fn int_end(s: Seq<char>) -> int {
    digit_run_end(s, 0)
}

/// Start of the fraction digits (just past the `.`, or the integer's end).
pub open spec fn frac_start(s: Seq<char>) -> int {
    if int_end(s) < s.len() && s[int_end(s)] == '.' {
        int_end(s) + 1
    } else {
        int_end(s)
    }
}

pub open spec fn frac_end(s: Seq<char>) -> int {
    digit_run_end(s, frac_start(s))
}

pub open spec fn unit_of(s: Seq<char>) -> Seq<char> {
    s.subrange(frac_end(s), letter_run_end(s, frac_end(s)))
}

/// The exact byte count, truncated, of the quantity at the start of `s`:
/// `int.frac` times the unit's multiplier.
pub open spec fn quantity_bytes(s: Seq<char>) -> nat {
    if int_end(s) == 0 {
        0
    } else {
        let m = unit_multiplier(unit_of(s));
        let frac = s.subrange(frac_start(s), frac_end(s));
        digits_value(s.take(int_end(s))) * m + digits_value(frac) * m / pow10(frac.len())
    }
}

/// The byte count of `s`, saturated at `u64::MAX`.
pub open spec fn bytes_spec(s: Seq<char>) -> u64 {
    if quantity_bytes(s) > u64::MAX {
        u64::MAX
    } else {
        quantity_bytes(s) as u64
    }
}

proof fn lemma_digit_run_bounds(s: Seq<char>, from: int)
    requires
        0 <= from <= s.len(),
    ensures
        from <= digit_run_end(s, from) <= s.len(),
        forall|k: int| from <= k < digit_run_end(s, from) ==> is_digit(s[k]),
    decreases s.len() - from,
{
    if from < s.len() && is_digit(s[from]) {
        lemma_digit_run_bounds(s, from + 1);
    }
}

proof fn lemma_letter_run_bounds(s: Seq<char>, from: int)
    requires
        0 <= from <= s.len(),
    ensures
        from <= letter_run_end(s, from) <= s.len(),
    decreases s.len() - from,
{
    if from < s.len() && is_ascii_letter(s[from]) {
        lemma_letter_run_bounds(s, from + 1);
    }
}

proof fn lemma_digits_concat(a: Seq<char>, b: Seq<char>)
    ensures
        digits_value(a + b) == digits_value(a) * pow10(b.len()) + digits_value(b),
    decreases b.len(),
{
    if b.len() == 0 {
        assert(a + b =~= a);
        assert(pow10(0) == 1);
        assert(digits_value(b) == 0);
    } else {
        lemma_digits_concat(a, b.drop_last());
        assert((a + b).drop_last() =~= a + b.drop_last());
        assert((a + b).last() == b.last());
        let p = pow10(b.drop_last().len());
        assert(pow10(b.len()) == 10 * p);
        let x = digits_value(a);
        let y = digits_value(b.drop_last());
        let e = digit_val(b.last());
        assert(digits_value(a + b) == digits_value(a + b.drop_last()) * 10 + e);
        assert(digits_value(a + b.drop_last()) == x * p + y);
        assert(digits_value(b) == y * 10 + e);
        assert((x * p + y) * 10 + e == x * (10 * p) + (y * 10 + e)) by (nonlinear_arith);
    }
}

/// One step of the right-to-left fold over the fraction digits.
proof fn lemma_frac_step(d: nat, big_d: nat, m: nat, p: nat)
    requires
        p > 0,
    ensures
        (d * m + big_d * m / p) / 10 == (d * p + big_d) * m / (p * 10),
{
    let x: int = (big_d * m) as int;
    let a: int = (d * m) as int;
    let pi: int = p as int;
    vstd::arithmetic::div_mod::lemma_hoist_over_denominator(x, a, p);
    assert(x / pi + a == (x + a * pi) / pi);
    vstd::arithmetic::div_mod::lemma_div_denominator(x + a * pi, pi, 10);
    assert((d * p + big_d) * m == x + a * pi) by (nonlinear_arith)
        requires
            x == big_d * m,
            a == d * m,
            pi == p,
    ;
}

/// Scans the digits that start at `from`.
fn digit_run(v: &Vec<char>, from: usize) -> (r: usize)
    requires
        from <= v@.len(),
    ensures
        r as int == digit_run_end(v@, from as int),
{
    let mut i = from;
    while i < v.len() && '0' <= v[i] && v[i] <= '9'
        invariant
            from <= i <= v@.len(),
            digit_run_end(v@, from as int) == digit_run_end(v@, i as int),
        decreases v@.len() - i,
    {
        i = i + 1;
    }
    i
}

fn letter_run(v: &Vec<char>, from: usize) -> (r: usize)
    requires
        from <= v@.len(),
    ensures
        r as int == letter_run_end(v@, from as int),
{
    let mut i = from;
    while i < v.len() && (('a' <= v[i] && v[i] <= 'z') || ('A' <= v[i] && v[i] <= 'Z'))
        invariant
            from <= i <= v@.len(),
            letter_run_end(v@, from as int) == letter_run_end(v@, i as int),
        decreases v@.len() - i,
    {
        i = i + 1;
    }
    i
}

fn lower_char(c: char) -> (r: char)
    ensures
        r == ascii_lower(c),
{
    if 'A' <= c && c <= 'Z' {
        ((c as u8) + 32) as char
    } else {
        c
    }
}

fn unit_is(v: &Vec<char>, lo: usize, hi: usize, name: &[char]) -> (r: bool)
    requires
        lo <= hi <= v@.len(),
    ensures
        r == (v@.subrange(lo as int, hi as int).map_values(|c: char| ascii_lower(c)) == name@),
{
    let ghost u = v@.subrange(lo as int, hi as int).map_values(|c: char| ascii_lower(c));
    if hi - lo != name.len() {
        assert(u.len() != name@.len());
        return false;
    }
    let mut k: usize = 0;
    while k < name.len()
        invariant
            hi - lo == name@.len(),
            lo <= hi <= v@.len(),
            k <= name@.len(),
            u == v@.subrange(lo as int, hi as int).map_values(|c: char| ascii_lower(c)),
            forall|j: int| 0 <= j < k ==> u[j] == name@[j],
        decreases name@.len() - k,
    {
        if lower_char(v[lo + k]) != name[k] {
            assert(u[k as int] != name@[k as int]);
            return false;
        }
        k = k + 1;
    }
    assert(u =~= name@);
    true
}

fn multiplier_of(v: &Vec<char>, lo: usize, hi: usize) -> (r: u64)
    requires
        lo <= hi <= v@.len(),
    ensures
        r as nat == unit_multiplier(v@.subrange(lo as int, hi as int)),
        1 <= r <= 1024 * 1024 * 1024,
{
    if unit_is(v, lo, hi, &['b']) {
        1
    } else if unit_is(v, lo, hi, &['k', 'b']) {
        1000
    } else if unit_is(v, lo, hi, &['m', 'b']) {
        1000 * 1000
    } else if unit_is(v, lo, hi, &['m', 'i', 'b']) {
        1024 * 1024
    } else if unit_is(v, lo, hi, &['g', 'i', 'b']) {
        1024 * 1024 * 1024
    } else {
        1
    }
}

/// The byte count of the quantity held in `v`.
pub fn quantity_of_chars(v: &Vec<char>) -> (r: u64)
    ensures
        r == bytes_spec(v@),
{
    let ghost s = v@;
    let ie = digit_run(v, 0);
    proof {
        lemma_digit_run_bounds(s, 0);
    }
    if ie == 0 {
        return 0;
    }
    let fs = if ie < v.len() && v[ie] == '.' { ie + 1 } else { ie };
    let fe = digit_run(v, fs);
    proof {
        lemma_digit_run_bounds(s, fs as int);
    }
    let ue = letter_run(v, fe);
    proof {
        lemma_letter_run_bounds(s, fe as int);
    }
    let m = multiplier_of(v, fe, ue);
    // integer part, saturated
    let mut acc: u128 = 0;
    let mut i: usize = 0;
    while i < ie
        invariant
            ie as int == int_end(s),
            ie <= s.len(),
            s == v@,
            i <= ie,
            forall|k: int| 0 <= k < ie ==> is_digit(s[k]),
            acc <= u64::MAX,
            acc == (if digits_value(s.take(i as int)) > u64::MAX {
                u64::MAX as nat
            } else {
                digits_value(s.take(i as int))
            }),
        decreases ie - i,
    {
        let d = (v[i] as u32 - '0' as u32) as u128;
        assert(s.take(i + 1).drop_last() =~= s.take(i as int));
        assert(digits_value(s.take(i + 1)) == digits_value(s.take(i as int)) * 10 + d);
        let next = acc * 10 + d;
        acc = if next > u64::MAX as u128 { u64::MAX as u128 } else { next };
        i = i + 1;
    }
    assert(s.take(ie as int) =~= s.take(int_end(s)));
    // fraction part, folded from its last digit
    let mut t: u64 = 0;
    let mut j: usize = fe;
    assert(s.subrange(fe as int, fe as int) =~= Seq::<char>::empty());
    while j > fs
        invariant
            fs <= j <= fe,
            fe <= s.len(),
            s == v@,
            1 <= m <= 1024 * 1024 * 1024,
            forall|k: int| fs <= k < fe ==> is_digit(s[k]),
            t < m,
            t as nat == digits_value(s.subrange(j as int, fe as int)) * (m as nat) / pow10(
                (fe - j) as nat,
            ),
        decreases j,
    {
        j = j - 1;
        let d = (v[j] as u32 - '0' as u32) as u64;
        proof {
            let tail = s.subrange(j + 1, fe as int);
            assert(s.subrange(j as int, fe as int) =~= seq![s[j as int]] + tail);
            lemma_digits_concat(seq![s[j as int]], tail);
            assert(seq![s[j as int]].drop_last() =~= Seq::<char>::empty());
            assert(digits_value(Seq::<char>::empty()) == 0);
            assert(digit_val(s[j as int]) == d);
            assert(digits_value(seq![s[j as int]]) == d);
            assert(pow10((fe - j) as nat) == 10 * pow10((fe - (j + 1)) as nat));
            lemma_pow10_pos((fe - (j + 1)) as nat);
            lemma_frac_step(d as nat, digits_value(tail), m as nat, pow10((fe - (j + 1)) as nat));
            assert(pow10((fe - (j + 1)) as nat) * 10 == 10 * pow10((fe - (j + 1)) as nat));
            assert(d * m + t < 10 * m) by (nonlinear_arith)
                requires
                    d <= 9,
                    t < m,
            ;
        }
        t = (d * m + t) / 10;
    }
    assert(acc * m + t <= u64::MAX * (1024 * 1024 * 1024) + 1024 * 1024 * 1024) by (nonlinear_arith)
        requires
            acc <= u64::MAX,
            m <= 1024 * 1024 * 1024,
            t < m,
    ;
    let total: u128 = acc * (m as u128) + (t as u128);
    proof {
        let frac = s.subrange(frac_start(s), frac_end(s));
        assert(frac == s.subrange(fs as int, fe as int));
        let big_i = digits_value(s.take(int_end(s)));
        if big_i > u64::MAX {
            assert(acc * m >= acc) by (nonlinear_arith)
                requires
                    m >= 1,
            ;
            assert(big_i * m >= big_i) by (nonlinear_arith)
                requires
                    m >= 1,
            ;
        }
    }
    if total > u64::MAX as u128 {
        u64::MAX
    } else {
        total as u64
    }
}

proof fn lemma_pow10_pos(n: nat)
    ensures
        pow10(n) > 0,
    decreases n,
{
    if n > 0 {
        lemma_pow10_pos((n - 1) as nat);
    }
}

/// `s` and `t` differ at most in the ASCII case of their letters.
pub open spec fn same_but_case(s: Seq<char>, t: Seq<char>) -> bool {
    s.len() == t.len() && forall|i: int| 0 <= i < s.len() ==> ascii_lower(s[i]) == ascii_lower(t[i])
}

proof fn lemma_same_but_case_chars(s: Seq<char>, t: Seq<char>, i: int)
    requires
        same_but_case(s, t),
        0 <= i < s.len(),
    ensures
        is_digit(s[i]) <==> is_digit(t[i]),
        is_digit(s[i]) ==> s[i] == t[i],
        is_ascii_letter(s[i]) <==> is_ascii_letter(t[i]),
        (s[i] == '.') <==> (t[i] == '.'),
{
}

proof fn lemma_runs_same_but_case(s: Seq<char>, t: Seq<char>, from: int)
    requires
        same_but_case(s, t),
        0 <= from <= s.len(),
    ensures
        digit_run_end(s, from) == digit_run_end(t, from),
        letter_run_end(s, from) == letter_run_end(t, from),
    decreases s.len() - from,
{
    if from < s.len() {
        lemma_same_but_case_chars(s, t, from);
        lemma_runs_same_but_case(s, t, from + 1);
    }
}

/// Units are matched without regard to ASCII case: two quantities that
/// differ only in the case of their letters read as the same byte count.
pub proof fn lemma_units_ignore_case(s: Seq<char>, t: Seq<char>)
    requires
        same_but_case(s, t),
    ensures
        bytes_spec(s) == bytes_spec(t),
{
    lemma_runs_same_but_case(s, t, 0);
    lemma_digit_run_bounds(s, 0);
    let ie = int_end(s);
    if ie > 0 {
        if ie < s.len() {
            lemma_same_but_case_chars(s, t, ie);
        }
        let fs = frac_start(s);
        assert(fs == frac_start(t));
        lemma_runs_same_but_case(s, t, fs);
        lemma_digit_run_bounds(s, fs);
        let fe = frac_end(s);
        lemma_runs_same_but_case(s, t, fe);
        lemma_letter_run_bounds(s, fe);
        assert forall|k: int| 0 <= k < ie implies s[k] == t[k] by {
            lemma_same_but_case_chars(s, t, k);
        }
        assert(s.take(ie) =~= t.take(ie));
        assert forall|k: int| fs <= k < fe implies s[k] == t[k] by {
            lemma_same_but_case_chars(s, t, k);
        }
        assert(s.subrange(fs, fe) =~= t.subrange(fs, fe));
        let ue = letter_run_end(s, fe);
        assert(unit_of(s).map_values(|c: char| ascii_lower(c)) =~= unit_of(t).map_values(
            |c: char| ascii_lower(c),
        ));
        assert(unit_multiplier(unit_of(s)) == unit_multiplier(unit_of(t)));
    }
}

/// Reads a quantity such as `1.5GiB` as a byte count; malformed input reads
/// as 0 or as the bare number.
pub fn convert_to_bytes(value: &str) -> (r: u64)
    ensures
        r == bytes_spec(value@),
{
    let v = chars_of(value);
    quantity_of_chars(&v)
}

} // verus!
