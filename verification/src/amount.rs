//! Decimal strings and fixed-point values.
//!
//! The ledger reports reserve amounts as decimal strings, and the rate feeds
//! report numbers whose text takes the same shape. The library holds such a
//! value as an integer count of 1e-7 units (`_e7`), and a derived rate as a
//! count of 1e-4 units (`_e4`). A malformed amount parses to 0: the monitor
//! treats it as an empty reserve.

use vstd::prelude::*;
use vstd::string::*;

verus! {

pub open spec fn is_digit_char(c: char) -> bool {
    '0' as int <= c as int && c as int <= '9' as int
}

pub open spec fn digit_char_val(c: char) -> int {
    c as int - '0' as int
}

pub open spec fn all_digits(s: Seq<char>) -> bool {
    forall|i: int| 0 <= i < s.len() ==> is_digit_char(#[trigger] s[i])
}

/// Value of a string of decimal digits, most significant first.
pub open spec fn digits_val(s: Seq<char>) -> int
    decreases s.len(),
{
    if s.len() == 0 {
        0
    } else {
        digits_val(s.drop_last()) * 10 + digit_char_val(s.last())
    }
}

pub open spec fn pow10(n: nat) -> nat
    decreases n,
{
    if n == 0 {
        1
    } else {
        10 * pow10((n - 1) as nat)
    }
}

pub open spec fn has_dot(s: Seq<char>) -> bool {
    exists|k: int| 0 <= k < s.len() && s[k] == '.'
}

pub open spec fn dot_index(s: Seq<char>) -> int {
    choose|k: int| 0 <= k < s.len() && s[k] == '.'
}

pub open spec fn int_part(s: Seq<char>) -> Seq<char> {
    if has_dot(s) {
        s.take(dot_index(s))
    } else {
        s
    }
}

pub open spec fn frac_part(s: Seq<char>) -> Seq<char> {
    if has_dot(s) {
        s.skip(dot_index(s) + 1)
    } else {
        Seq::<char>::empty()
    }
}

/// A decimal string: digits with at most one dot, and at least one
/// character besides a lone dot. Signs and exponents do not qualify.
pub open spec fn valid_decimal(s: Seq<char>) -> bool {
    &&& s.len() > 0
    &&& all_digits(int_part(s))
    &&& all_digits(frac_part(s))
    &&& (has_dot(s) ==> s.len() > 1)
}

/// The first seven fractional digits, scaled to 1e-7 units.
pub open spec fn frac_val_e7(s: Seq<char>) -> int {
    if s.len() >= 7 {
        digits_val(s.take(7))
    } else {
        digits_val(s) * pow10((7 - s.len()) as nat)
    }
}

/// Exact value of a valid decimal string in 1e-7 units, fractional digits
/// beyond the seventh dropped.
pub open spec fn decimal_e7(s: Seq<char>) -> int {
    digits_val(int_part(s)) * 10_000_000 + frac_val_e7(frac_part(s))
}

/// What parsing yields: the value for a representable decimal string,
/// 0 for anything else.
pub open spec fn parse_e7_spec(s: Seq<char>) -> int {
    if valid_decimal(s) && decimal_e7(s) <= u64::MAX as int {
        decimal_e7(s)
    } else {
        0
    }
}

proof fn lemma_digits_val_step(p: Seq<char>, i: int)
    requires
        0 <= i < p.len(),
    ensures
        digits_val(p.take(i + 1)) == digits_val(p.take(i)) * 10 + digit_char_val(p[i]),
{
    assert(p.take(i + 1).drop_last() =~= p.take(i));
    assert(p.take(i + 1).last() == p[i]);
}

proof fn lemma_all_digits_step(p: Seq<char>, i: int)
    requires
        0 <= i < p.len(),
        all_digits(p.take(i)),
        is_digit_char(p[i]),
    ensures
        all_digits(p.take(i + 1)),
{
    assert forall|j: int| 0 <= j < i + 1 implies is_digit_char(#[trigger] p.take(i + 1)[j]) by {
        if j < i {
            assert(p.take(i + 1)[j] == p.take(i)[j]);
        } else {
            assert(p.take(i + 1)[j] == p[i]);
        }
    }
}

proof fn lemma_digits_val_bound(s: Seq<char>)
    requires
        all_digits(s),
    ensures
        0 <= digits_val(s) < pow10(s.len()),
    decreases s.len(),
{
    if s.len() == 0 {
    } else {
        let p = s.drop_last();
        assert(all_digits(p)) by {
            assert(forall|i: int| 0 <= i < p.len() ==> p[i] == s[i]);
        }
        lemma_digits_val_bound(p);
        assert(is_digit_char(s.last()));
        assert(pow10(s.len()) == 10 * pow10(p.len()));
        assert(digits_val(p) * 10 <= (pow10(p.len()) - 1) * 10) by {
            vstd::arithmetic::mul::lemma_mul_inequality(digits_val(p), pow10(p.len()) - 1, 10);
        }
        assert(digits_val(p) * 10 >= 0) by {
            vstd::arithmetic::mul::lemma_mul_inequality(0, digits_val(p), 10);
        }
    }
}

proof fn lemma_pow10_vals()
    ensures
        pow10(0) == 1,
        pow10(1) == 10,
        pow10(2) == 100,
        pow10(3) == 1_000,
        pow10(4) == 10_000,
        pow10(5) == 100_000,
        pow10(6) == 1_000_000,
        pow10(7) == 10_000_000,
{
    assert(pow10(0) == 1);
    assert(pow10(1) == 10);
    assert(pow10(2) == 100);
    assert(pow10(3) == 1_000);
    assert(pow10(4) == 10_000);
    assert(pow10(5) == 100_000);
    assert(pow10(6) == 1_000_000);
    assert(pow10(7) == 10_000_000);
}

proof fn lemma_pow10_pos(n: nat)
    ensures
        pow10(n) >= 1,
    decreases n,
{
    if n > 0 {
        lemma_pow10_pos((n - 1) as nat);
    }
}

proof fn lemma_pow10_monotonic(a: nat, b: nat)
    requires
        a <= b,
    ensures
        pow10(a) <= pow10(b),
    decreases b,
{
    if a < b {
        lemma_pow10_monotonic(a, (b - 1) as nat);
        lemma_pow10_pos((b - 1) as nat);
    }
}

proof fn lemma_pow10_adds(a: nat, b: nat)
    ensures
        pow10(a) * pow10(b) == pow10(a + b),
    decreases a,
{
    if a == 0 {
        assert(pow10(0) == 1);
    } else {
        lemma_pow10_adds((a - 1) as nat, b);
        assert((10 * pow10((a - 1) as nat)) * pow10(b) == 10 * (pow10((a - 1) as nat) * pow10(
            b,
        ))) by {
            vstd::arithmetic::mul::lemma_mul_is_associative(
                10,
                pow10((a - 1) as nat) as int,
                pow10(b) as int,
            );
        }
    }
}

/// In a valid decimal with a dot at `k`, that dot is the one the split
/// goes by, and both sides of it are digits.
proof fn lemma_dot_pins_split(s: Seq<char>, k: int)
    requires
        0 <= k < s.len(),
        s[k] == '.',
        valid_decimal(s),
    ensures
        dot_index(s) == k,
        all_digits(s.take(k)),
        all_digits(s.skip(k + 1)),
{
    assert(has_dot(s));
    let c = dot_index(s);
    assert(0 <= c < s.len() && s[c] == '.') by {
        assert(0 <= k < s.len() && s[k] == '.');
    }
    if k < c {
        assert(int_part(s)[k] == '.');
        assert(!is_digit_char('.'));
        assert(false);
    }
    if k > c {
        assert(frac_part(s)[k - c - 1] == s[k]);
        assert(!is_digit_char('.'));
        assert(false);
    }
}

/// A dot at `k` with digits on both sides of it is the split the spec
/// functions go by.
proof fn lemma_split_at_dot(s: Seq<char>, k: int)
    requires
        0 <= k < s.len(),
        s[k] == '.',
        all_digits(s.take(k)),
        all_digits(s.skip(k + 1)),
    ensures
        has_dot(s),
        dot_index(s) == k,
        int_part(s) == s.take(k),
        frac_part(s) == s.skip(k + 1),
{
    assert(has_dot(s));
    let c = dot_index(s);
    assert(0 <= c < s.len() && s[c] == '.') by {
        assert(0 <= k < s.len() && s[k] == '.');
    }
    if c < k {
        assert(s.take(k)[c] == '.');
        assert(!is_digit_char('.'));
        assert(false);
    }
    if c > k {
        assert(s.skip(k + 1)[c - k - 1] == s[c]);
        assert(!is_digit_char('.'));
        assert(false);
    }
}

fn digit_of(c: char) -> (r: Option<u64>)
    ensures
        r is Some <==> is_digit_char(c),
        r matches Some(d) ==> d as int == digit_char_val(c) && d < 10,
{
    match c {
        '0' => Some(0),
        '1' => Some(1),
        '2' => Some(2),
        '3' => Some(3),
        '4' => Some(4),
        '5' => Some(5),
        '6' => Some(6),
        '7' => Some(7),
        '8' => Some(8),
        '9' => Some(9),
        _ => None,
    }
}

fn pow10_u64(n: usize) -> (r: u64)
    requires
        n <= 7,
    ensures
        r as int == pow10(n as nat),
{
    let r: u64 = match n {
        0 => 1,
        1 => 10,
        2 => 100,
        3 => 1_000,
        4 => 10_000,
        5 => 100_000,
        6 => 1_000_000,
        _ => 10_000_000,
    };
    proof {
        lemma_pow10_vals();
    }
    r
}

/// Parse a decimal string into 1e-7 units; anything malformed, signed,
/// exponential or too large for `u64` yields 0.
pub fn parse_amount_e7(s: &str) -> (r: u64)
    ensures
        r as int == parse_e7_spec(s@),
{
    let n = s.unicode_len();
    if n == 0 {
        return 0;
    }
    // find the first dot
    let mut dot: Option<usize> = None;
    let mut i: usize = 0;
    while i < n
        invariant
            n == s@.len(),
            i <= n,
            dot matches Some(k) ==> k < n && s@[k as int] == '.',
            dot is None ==> forall|j: int| 0 <= j < i ==> s@[j] != '.',
        decreases n - i,
    {
        if dot.is_none() && s.get_char(i) == '.' {
            dot = Some(i);
        }
        i = i + 1;
    }
    let int_end: usize = match dot {
        Some(k) => k,
        None => n,
    };
    if n == 1 && int_end == 0 {
        // a lone dot
        proof {
            assert(s@[0] == '.');
            assert(has_dot(s@));
            assert(!valid_decimal(s@));
        }
        return 0;
    }
    // integer digits
    let mut val: u64 = 0;
    let mut ok: bool = true;
    let mut big: bool = false;
    i = 0;
    while i < int_end
        invariant
            n == s@.len(),
            int_end <= n,
            i <= int_end,
            ok ==> all_digits(s@.take(i as int)),
            ok && !big ==> val as int == digits_val(s@.take(i as int)),
            ok && big ==> digits_val(s@.take(i as int)) > u64::MAX as int,
            !ok ==> !all_digits(s@.take(int_end as int)),
        decreases int_end - i,
    {
        let c = s.get_char(i);
        match digit_of(c) {
            Some(d) => {
                if ok {
                    proof {
                        lemma_digits_val_step(s@, i as int);
                        lemma_all_digits_step(s@, i as int);
                    }
                    if !big {
                        let nv: u128 = val as u128 * 10 + d as u128;
                        if nv > u64::MAX as u128 {
                            big = true;
                        } else {
                            val = nv as u64;
                        }
                    } else {
                        proof {
                            let pre = s@.take(i as int);
                            assert(digits_val(pre) * 10 >= (u64::MAX as int + 1) * 10) by {
                                vstd::arithmetic::mul::lemma_mul_inequality(
                                    u64::MAX as int + 1,
                                    digits_val(pre),
                                    10,
                                );
                            }
                        }
                    }
                }
            },
            None => {
                if ok {
                    proof {
                        assert(s@.take(int_end as int)[i as int] == s@[i as int]);
                        assert(!all_digits(s@.take(int_end as int)));
                    }
                }
                ok = false;
            },
        }
        i = i + 1;
    }
    // fractional digits
    let frac_start: usize = match dot {
        Some(k) => k + 1,
        None => n,
    };
    let ghost fpart = s@.skip(frac_start as int);
    let mut fval: u64 = 0;
    let mut fcount: usize = 0;
    i = frac_start;
    while i < n
        invariant
            n == s@.len(),
            frac_start <= i <= n,
            fpart == s@.skip(frac_start as int),
            fpart.len() == n - frac_start,
            ok ==> all_digits(fpart.take(i - frac_start)),
            ok ==> fcount == (if i - frac_start <= 7 {
                i - frac_start
            } else {
                7
            }),
            ok ==> fval as int == digits_val(fpart.take(fcount as int)),
            ok ==> fval < 10_000_000,
            !ok ==> !all_digits(s@.take(int_end as int)) || !all_digits(fpart),
            ok ==> all_digits(s@.take(int_end as int)),
            ok && !big ==> val as int == digits_val(s@.take(int_end as int)),
            ok && big ==> digits_val(s@.take(int_end as int)) > u64::MAX as int,
            fcount <= 7,
        decreases n - i,
    {
        let c = s.get_char(i);
        proof {
            assert(fpart[i - frac_start] == s@[i as int]);
        }
        match digit_of(c) {
            Some(d) => {
                if ok {
                    if fcount < 7 {
                        proof {
                            lemma_digits_val_bound(fpart.take(fcount as int));
                            lemma_digits_val_step(fpart, fcount as int);
                            assert(fpart.take(fcount as int) =~= fpart.take(i - frac_start));
                            assert(pow10(fcount as nat) <= 1_000_000) by {
                                lemma_pow10_monotonic(fcount as nat, 6);
                                lemma_pow10_vals();
                            }
                            assert(digits_val(fpart.take(fcount as int)) * 10 <= (1_000_000 - 1)
                                * 10) by {
                                vstd::arithmetic::mul::lemma_mul_inequality(
                                    digits_val(fpart.take(fcount as int)),
                                    1_000_000 - 1,
                                    10,
                                );
                            }
                        }
                        fval = fval * 10 + d;
                        fcount = fcount + 1;
                    }
                    proof {
                        lemma_all_digits_step(fpart, i - frac_start);
                    }
                }
            },
            None => {
                if ok {
                    proof {
                        assert(!all_digits(fpart));
                    }
                }
                ok = false;
            },
        }
        i = i + 1;
    }
    if !ok {
        proof {
            if valid_decimal(s@) {
                match dot {
                    Some(k) => {
                        lemma_dot_pins_split(s@, k as int);
                        assert(s@.take(int_end as int) == s@.take(k as int));
                        assert(fpart == s@.skip(k as int + 1));
                        assert(false);
                    },
                    None => {
                        assert(s@.take(int_end as int) =~= s@);
                        assert(!has_dot(s@));
                        assert(int_part(s@) == s@);
                        assert(fpart =~= Seq::<char>::empty());
                        assert(all_digits(fpart));
                        assert(false);
                    },
                }
            }
        }
        return 0;
    }
    // the string is a valid decimal; identify the spec's split
    proof {
        assert(fpart.take(i - frac_start) =~= fpart);
        assert(all_digits(fpart));
        match dot {
            Some(k) => {
                assert(int_end == k);
                assert(n > 1) by {
                    if n == 1 {
                        assert(k == 0);
                    }
                }
                lemma_split_at_dot(s@, k as int);
                assert(int_part(s@) == s@.take(int_end as int));
                assert(frac_part(s@) == fpart);
                assert(valid_decimal(s@));
            },
            None => {
                assert(!has_dot(s@));
                assert(s@.take(int_end as int) =~= s@);
                assert(int_part(s@) == s@);
                assert(fpart =~= Seq::<char>::empty());
                assert(frac_part(s@) == fpart);
                assert(valid_decimal(s@));
            },
        }
        assert(fpart.len() == frac_part(s@).len());
    }
    if big {
        proof {
            assert(digits_val(int_part(s@)) > u64::MAX as int);
            assert(frac_val_e7(frac_part(s@)) >= 0) by {
                let fp = frac_part(s@);
                if fp.len() >= 7 {
                    assert(all_digits(fp.take(7))) by {
                        assert(forall|j: int| 0 <= j < 7 ==> fp.take(7)[j] == fp[j]);
                    }
                    lemma_digits_val_bound(fp.take(7));
                } else {
                    lemma_digits_val_bound(fp);
                    vstd::arithmetic::mul::lemma_mul_inequality(
                        0,
                        digits_val(fp),
                        pow10((7 - fp.len()) as nat) as int,
                    );
                }
            }
            assert(digits_val(int_part(s@)) * 10_000_000 >= (u64::MAX as int + 1) * 10_000_000)
                by {
                vstd::arithmetic::mul::lemma_mul_inequality(
                    u64::MAX as int + 1,
                    digits_val(int_part(s@)),
                    10_000_000,
                );
            }
            assert(decimal_e7(s@) > u64::MAX as int);
        }
        return 0;
    }
    // scale the fractional digits to seven places
    let mult = pow10_u64(7 - fcount);
    proof {
        lemma_digits_val_bound(fpart.take(fcount as int));
        assert((fval as int) * (mult as int) < 10_000_000) by {
            vstd::arithmetic::mul::lemma_mul_upper_bound(
                fval as int,
                pow10(fcount as nat) - 1,
                mult as int,
                pow10((7 - fcount) as nat) as int,
            );
            assert((pow10(fcount as nat) - 1) * pow10((7 - fcount) as nat) == pow10(
                fcount as nat,
            ) * pow10((7 - fcount) as nat) - pow10((7 - fcount) as nat)) by {
                vstd::arithmetic::mul::lemma_mul_is_distributive_sub_other_way(
                    pow10((7 - fcount) as nat) as int,
                    pow10(fcount as nat) as int,
                    1,
                );
            }
            lemma_pow10_adds(fcount as nat, (7 - fcount) as nat);
            lemma_pow10_vals();
            assert(mult >= 1);
        }
        assert(fval as int * mult as int >= 0) by {
            vstd::arithmetic::mul::lemma_mul_inequality(0, fval as int, mult as int);
        }
    }
    let fe7: u64 = fval * mult;
    proof {
        let fp = frac_part(s@);
        if fp.len() >= 7 {
            assert(fcount == 7);
            assert(mult as int == pow10(0));
            assert(pow10(0) == 1);
            assert(fe7 as int == digits_val(fp.take(7)));
            assert(fe7 as int == frac_val_e7(fp));
        } else {
            assert(fcount == fp.len());
            assert(fpart.take(fcount as int) =~= fp);
            assert(fe7 as int == digits_val(fp) * pow10((7 - fp.len()) as nat));
            assert(fe7 as int == frac_val_e7(fp));
        }
    }
    let total: u128 = val as u128 * 10_000_000 + fe7 as u128;
    proof {
        assert(total as int == digits_val(int_part(s@)) * 10_000_000 + frac_val_e7(
            frac_part(s@),
        ));
        assert(total as int == decimal_e7(s@));
    }
    if total > u64::MAX as u128 {
        0
    } else {
        total as u64
    }
}

pub open spec fn digit_char(d: int) -> char {
    if d == 0 {
        '0'
    } else if d == 1 {
        '1'
    } else if d == 2 {
        '2'
    } else if d == 3 {
        '3'
    } else if d == 4 {
        '4'
    } else if d == 5 {
        '5'
    } else if d == 6 {
        '6'
    } else if d == 7 {
        '7'
    } else if d == 8 {
        '8'
    } else {
        '9'
    }
}

/// Decimal text of a nonnegative number, without leading zeros
/// (a lone zero for 0).
pub open spec fn dec_seq(n: nat) -> Seq<char>
    decreases n,
{
    if n < 10 {
        seq![digit_char(n as int)]
    } else {
        dec_seq(n / 10).push(digit_char((n % 10) as int))
    }
}

/// The last `w` decimal digits of a number, zero-padded to exactly `w`.
pub open spec fn dec_pad(n: nat, w: nat) -> Seq<char>
    decreases w,
{
    if w == 0 {
        Seq::<char>::empty()
    } else {
        dec_pad(n / 10, (w - 1) as nat).push(digit_char((n % 10) as int))
    }
}

/// An e4 value printed with all four decimal places.
pub open spec fn fmt_e4(v: nat) -> Seq<char> {
    dec_seq(v / 10_000) + seq!['.'] + dec_pad(v % 10_000, 4)
}

/// An e2 value printed with both decimal places.
pub open spec fn fmt_e2(v: nat) -> Seq<char> {
    dec_seq(v / 100) + seq!['.'] + dec_pad(v % 100, 2)
}

/// An e4 value printed with two decimals, rounding half away from zero.
pub open spec fn fmt_e4_round2(v: nat) -> Seq<char> {
    fmt_e2(((v + 50) / 100) as nat)
}

/// An e7 value printed with two decimals, rounding half away from zero.
pub open spec fn fmt_e7_round2(v: nat) -> Seq<char> {
    fmt_e2(((v + 50_000) / 100_000) as nat)
}

/// An e7 value printed as a whole number, rounding half away from zero.
pub open spec fn fmt_e7_round0(v: nat) -> Seq<char> {
    dec_seq(((v + 5_000_000) / 10_000_000) as nat)
}

fn digit_str(d: u64) -> (r: &'static str)
    requires
        d < 10,
    ensures
        r@ =~= seq![digit_char(d as int)],
{
    proof {
        reveal_strlit("0");
        reveal_strlit("1");
        reveal_strlit("2");
        reveal_strlit("3");
        reveal_strlit("4");
        reveal_strlit("5");
        reveal_strlit("6");
        reveal_strlit("7");
        reveal_strlit("8");
        reveal_strlit("9");
    }
    match d {
        0 => "0",
        1 => "1",
        2 => "2",
        3 => "3",
        4 => "4",
        5 => "5",
        6 => "6",
        7 => "7",
        8 => "8",
        _ => "9",
    }
}

/// Render a number in decimal.
pub fn dec_string_u128(n: u128) -> (r: String)
    ensures
        r@ == dec_seq(n as nat),
    decreases n,
{
    if n < 10 {
        let d = digit_str(n as u64);
        let s = d.to_owned();
        proof {
            assert(s@ =~= dec_seq(n as nat));
        }
        s
    } else {
        let mut r = dec_string_u128(n / 10);
        let d = digit_str((n % 10) as u64);
        r.append(d);
        proof {
            assert(r@ =~= dec_seq(n as nat));
        }
        r
    }
}

/// Render the last `w` decimal digits, zero-padded to exactly `w`.
pub fn dec_pad_u64(n: u64, w: usize) -> (r: String)
    ensures
        r@ == dec_pad(n as nat, w as nat),
    decreases w,
{
    if w == 0 {
        let r = String::new();
        proof {
            assert(r@ =~= dec_pad(n as nat, 0));
        }
        r
    } else {
        let mut r = dec_pad_u64(n / 10, w - 1);
        let d = digit_str(n % 10);
        r.append(d);
        proof {
            assert(r@ =~= dec_pad(n as nat, w as nat));
        }
        r
    }
}

fn format_e2(v: u64) -> (r: String)
    ensures
        r@ == fmt_e2(v as nat),
{
    let mut r = dec_string_u128((v / 100) as u128);
    r.append(".");
    let frac = dec_pad_u64(v % 100, 2);
    r.append(frac.as_str());
    proof {
        reveal_strlit(".");
        assert(r@ =~= fmt_e2(v as nat));
    }
    r
}

/// Render an e4 value with all four decimal places.
pub fn format_e4(v: u128) -> (r: String)
    ensures
        r@ == fmt_e4(v as nat),
{
    let mut r = dec_string_u128(v / 10_000);
    r.append(".");
    let frac = dec_pad_u64((v % 10_000) as u64, 4);
    r.append(frac.as_str());
    proof {
        reveal_strlit(".");
        assert(r@ =~= fmt_e4(v as nat));
    }
    r
}

/// Render an e4 value with two decimals, rounding half away from zero.
pub fn format_e4_round2(v: u64) -> (r: String)
    ensures
        r@ == fmt_e4_round2(v as nat),
{
    let w = (v as u128 + 50) / 100;
    format_e2(w as u64)
}

/// Render an e7 value with two decimals, rounding half away from zero.
pub fn format_e7_round2(v: u64) -> (r: String)
    ensures
        r@ == fmt_e7_round2(v as nat),
{
    let w = (v as u128 + 50_000) / 100_000;
    format_e2(w as u64)
}

/// Render an e7 value as a whole number, rounding half away from zero.
pub fn format_e7_round0(v: u64) -> (r: String)
    ensures
        r@ == fmt_e7_round0(v as nat),
{
    let w = (v as u128 + 5_000_000) / 10_000_000;
    dec_string_u128(w)
}

} // verus!
