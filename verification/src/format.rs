use vstd::prelude::*;

verus! {

/// The character of a decimal digit.
pub open spec fn digit_char(d: nat) -> char {
    if d == 0 {
        '0'
    } else if d == 1 {
        '1'
    } else if d == 2 {
        '2'
    } else if d == 3 {
        '3'
    } else if d == 4 {
        '4'
    } else if d == 5 {
        '5'
    } else if d == 6 {
        '6'
    } else if d == 7 {
        '7'
    } else if d == 8 {
        '8'
    } else {
        '9'
    }
}

/// The decimal representation of `n`, without leading zeros.
pub open spec fn decimal(n: nat) -> Seq<char>
    decreases n,
{
    if n < 10 {
        seq![digit_char(n)]
    } else {
        decimal(n / 10) + seq![digit_char(n % 10)]
    }
}

/// The one-character string of a digit.
fn digit_str(d: u128) -> (s: &'static str)
    requires
        d < 10,
    ensures
        s@ == seq![digit_char(d as nat)],
{
    proof {
        reveal_strlit("0");
        reveal_strlit("1");
        reveal_strlit("2");
        reveal_strlit("3");
        reveal_strlit("4");
        reveal_strlit("5");
        reveal_strlit("6");
        reveal_strlit("7");
        reveal_strlit("8");
        reveal_strlit("9");
    }
    if d == 0 {
        "0"
    } else if d == 1 {
        "1"
    } else if d == 2 {
        "2"
    } else if d == 3 {
        "3"
    } else if d == 4 {
        "4"
    } else if d == 5 {
        "5"
    } else if d == 6 {
        "6"
    } else if d == 7 {
        "7"
    } else if d == 8 {
        "8"
    } else {
        "9"
    }
}

/// Appends the decimal representation of `n`.
fn push_decimal(s: &mut String, n: u128)
    ensures
        final(s)@ == old(s)@ + decimal(n as nat),
    decreases n,
{
    if n >= 10 {
        push_decimal(s, n / 10);
    }
    s.append(digit_str(n % 10));
    assert(final(s)@ =~= old(s)@ + decimal(n as nat));
}

/// The decimal representation of `n`.
pub fn u64_to_decimal(n: u64) -> (s: String)
    ensures
        s@ == decimal(n as nat),
{
    let mut s = String::new();
    push_decimal(&mut s, n as u128);
    assert(s@ =~= decimal(n as nat));
    s
}

/// `2` to the power `k`.
pub open spec fn pow2(k: nat) -> nat
    decreases k,
{
    if k == 0 {
        1
    } else {
        2 * pow2((k - 1) as nat)
    }
}

/// The largest `e` with `2^e <= n` (0 for `n < 2`).
pub open spec fn log2_floor(n: nat) -> nat
    decreases n,
{
    if n < 2 {
        0
    } else {
        1 + log2_floor(n / 2)
    }
}

/// `num / den` rounded to the nearest integer, ties to even.
pub open spec fn round_half_even(num: nat, den: nat) -> nat {
    let q = num / den;
    let r = num % den;
    if 2 * r > den {
        q + 1
    } else if 2 * r < den {
        q
    } else if q % 2 == 0 {
        q
    } else {
        q + 1
    }
}

/// For `n >= 10^6`: the power of two by which the 64-bit float nearest to
/// `n / 10^6` is scaled to an integer significand of 53 bits.
pub open spec fn million_scale(n: nat) -> nat {
    pow2((52 - log2_floor(n / 1_000_000)) as nat)
}

/// For `n >= 10^6`: the 53-bit significand of the 64-bit float nearest to
/// `n / 10^6` (rounded to nearest, ties to even), so that the float is
/// `million_significand(n) / million_scale(n)`.
pub open spec fn million_significand(n: nat) -> nat {
    round_half_even(n * million_scale(n), 1_000_000)
}

/// For `n >= 10^6`: the float nearest to `n / 10^6`, rounded to `10^-p`
/// (ties to even), in units of `10^-p`. This is how such a float prints with
/// `p` decimals.
pub open spec fn millions_in_units(n: nat, ten_pow_p: nat) -> nat {
    round_half_even(million_significand(n) * ten_pow_p, million_scale(n))
}

/// `2^k`, for `k <= 52`.
fn pow2_exec(k: u32) -> (r: u128)
    requires
        k <= 52,
    ensures
        r == pow2(k as nat),
        r <= 0x10_0000_0000_0000,
{
    let mut r: u128 = 1;
    let mut i: u32 = 0;
    while i < k
        invariant
            0 <= i <= k <= 52,
            r == pow2(i as nat),
        decreases k - i,
    {
        proof {
            lemma_pow2_split((i + 1) as nat, (52 - i - 1) as nat);
        }
        r = r * 2;
        i = i + 1;
    }
    proof {
        lemma_pow2_split(k as nat, (52 - k) as nat);
    }
    r
}

/// Powers of two multiply: `2^a * 2^b == 2^(a + b)`, and `2^52` is the constant.
proof fn lemma_pow2_split(a: nat, b: nat)
    requires
        a + b == 52,
    ensures
        pow2(a) * pow2(b) == 0x10_0000_0000_0000,
        pow2(a) >= 1,
        pow2(b) >= 1,
        pow2(a) <= 0x10_0000_0000_0000nat,
{
    lemma_pow2_add(a, b);
    lemma_pow2_52();
    lemma_pow2_pos(a);
    lemma_pow2_pos(b);
    assert(pow2(a) <= 0x10_0000_0000_0000nat) by (nonlinear_arith)
        requires
            pow2(a) * pow2(b) == 0x10_0000_0000_0000nat,
            pow2(b) >= 1,
    ;
}

proof fn lemma_pow2_pos(a: nat)
    ensures
        pow2(a) >= 1,
    decreases a,
{
    if a > 0 {
        lemma_pow2_pos((a - 1) as nat);
    }
}

proof fn lemma_pow2_add(a: nat, b: nat)
    ensures
        pow2(a) * pow2(b) == pow2(a + b),
    decreases a,
{
    if a == 0 {
        assert(pow2(0) == 1);
        assert(a + b == b);
    } else {
        let a1 = (a - 1) as nat;
        lemma_pow2_add(a1, b);
        let x = pow2(a1);
        let y = pow2(b);
        assert(pow2(a) == 2 * x);
        assert(pow2(a + b) == 2 * pow2(a1 + b));
        assert((2 * x) * y == 2 * (x * y)) by (nonlinear_arith);
    }
}

proof fn lemma_pow2_52()
    ensures
        pow2(52) == 0x10_0000_0000_0000,
{
    reveal_with_fuel(pow2, 53);
}


/// `log2_floor(n) < k` whenever `1 <= n < 2^k`.
proof fn lemma_log2_floor_lt(n: nat, k: nat)
    requires
        1 <= n < pow2(k),
    ensures
        log2_floor(n) < k,
    decreases k,
{
    if k == 0 {
        assert(pow2(0) == 1);
    } else if n >= 2 {
        assert(pow2(k) == 2 * pow2((k - 1) as nat));
        lemma_log2_floor_lt(n / 2, (k - 1) as nat);
    }
}

/// The largest `e` with `2^e <= n`.
fn log2_floor_exec(n: u32) -> (e: u32)
    requires
        1 <= n,
    ensures
        e == log2_floor(n as nat),
{
    let mut m = n;
    let mut e: u32 = 0;
    while m >= 2
        invariant
            1 <= m <= n,
            e <= n - m,
            e + log2_floor(m as nat) == log2_floor(n as nat),
        decreases m,
    {
        m = m / 2;
        e = e + 1;
    }
    e
}

/// `num / den` rounded to the nearest integer, ties to even.
fn round_half_even_exec(num: u128, den: u128) -> (r: u128)
    requires
        0 < den < 0x1_0000_0000_0000_0000_0000_0000_0000,
        num < u128::MAX,
    ensures
        r == round_half_even(num as nat, den as nat),
        r <= num / den + 1,
{
    let q = num / den;
    let rem = num % den;
    if 2 * rem > den {
        q + 1
    } else if 2 * rem < den {
        q
    } else if q % 2 == 0 {
        q
    } else {
        q + 1
    }
}

/// For `n >= 10^6`: the float nearest to `n / 10^6`, rounded to `10^-p`
/// (ties to even), in units of `10^-p` (see [`millions_in_units`]).
fn millions_in_units_exec(n: u32, ten_pow_p: u128) -> (d: u128)
    requires
        n >= 1_000_000,
        1 <= ten_pow_p <= 100,
    ensures
        d == millions_in_units(n as nat, ten_pow_p as nat),
{
    let q: u32 = n / 1_000_000;
    proof {
        assert(q < 8192);
        reveal_with_fuel(pow2, 14);
        lemma_log2_floor_lt(q as nat, 13);
    }
    let e = log2_floor_exec(q);
    let s = pow2_exec(52 - e);
    assert(s == million_scale(n as nat));
    assert((n as u128) * s <= 0x1_0000_0000 * 0x10_0000_0000_0000) by (nonlinear_arith)
        requires
            n <= 0xffff_ffffu32,
            s <= 0x10_0000_0000_0000u128,
    ;
    let num: u128 = (n as u128) * s;
    let m = round_half_even_exec(num, 1_000_000);
    assert(m * ten_pow_p <= 0x1_0000_0000 * 0x10_0000_0000_0000 * 100) by (nonlinear_arith)
        requires
            m <= num / 1_000_000 + 1,
            num <= 0x1_0000_0000 * 0x10_0000_0000_0000,
            ten_pow_p <= 100,
    ;
    proof {
        lemma_pow2_pos((52 - e) as nat);
    }
    round_half_even_exec(m * ten_pow_p, s)
}

/// Rounding to the nearest multiple: `round_half_even(num, den) * den` lies
/// within half of `den` of `num`.
proof fn lemma_round_half_even_close(num: nat, den: nat)
    requires
        den > 0,
    ensures
        -(den as int) <= 2 * (round_half_even(num, den) * den - num) <= den,
{
    let q = num / den;
    let r = num % den;
    vstd::arithmetic::div_mod::lemma_fundamental_div_mod(num as int, den as int);
    assert(0 <= r < den);
    assert(num == den * q + r);
    assert((q + 1) * den == q * den + den) by (nonlinear_arith);
    assert(den * q == q * den) by (nonlinear_arith);
}

/// For `n >= 10^6` (a `u32`), the float nearest to `n / 10^6`, rounded to
/// units of `10^-p` millions (`ten_pow_p * unit == 10^6`), lies within half a
/// unit of `n`: the float's own error never tips the rounding.
proof fn lemma_millions_close(n: nat, ten_pow_p: nat, unit: nat)
    requires
        1_000_000 <= n <= 0xffff_ffff,
        ten_pow_p * unit == 1_000_000,
        ten_pow_p > 0,
    ensures
        -(unit as int) <= 2 * (millions_in_units(n, ten_pow_p) * unit - n) <= unit,
{
    let q = n / 1_000_000;
    assert(1 <= q < 8192);
    reveal_with_fuel(pow2, 14);
    lemma_log2_floor_lt(q, 13);
    let e = log2_floor(q);
    let s = million_scale(n);
    assert(s == pow2((52 - e) as nat));
    lemma_pow2_add(20, (32 - e) as nat);
    lemma_pow2_pos((32 - e) as nat);
    reveal_with_fuel(pow2, 21);
    assert(pow2(20) == 1_048_576);
    assert(s >= 1_048_576) by (nonlinear_arith)
        requires
            s == pow2(20) * pow2((32 - e) as nat),
            pow2(20) == 1_048_576,
            pow2((32 - e) as nat) >= 1,
    ;
    let m = million_significand(n);
    let d = millions_in_units(n, ten_pow_p);
    lemma_round_half_even_close(n * s, 1_000_000);
    lemma_round_half_even_close(m * ten_pow_p, s);
    let a: int = d * s - m * ten_pow_p;
    let b: int = m * 1_000_000 - n * s;
    let x: int = d * unit - n;
    assert(x * s == b + a * unit) by (nonlinear_arith)
        requires
            a == d * s - m * ten_pow_p,
            b == m * 1_000_000 - n * s,
            x == d * unit - n,
            ten_pow_p * unit == 1_000_000,
    ;
    assert(-(unit as int) <= 2 * x <= unit) by (nonlinear_arith)
        requires
            x * s == b + a * unit,
            -(s as int) <= 2 * a <= s,
            -1_000_000 <= 2 * b <= 1_000_000,
            s >= 1_048_576,
            unit > 0,
    ;
}

/// The rounding of the rendered limits: from a million up, the one-decimal
/// and the two-decimal renderings show the exact number of millions to within
/// half of their last digit (`d` units of a tenth, or of a hundredth, of a
/// million); below a million the two renderings agree.
pub proof fn lemma_format_rounding(cu: u32)
    ensures
        cu >= 1_000_000 ==> -50_000 <= millions_in_units(cu as nat, 10) * 100_000 - cu <= 50_000,
        cu >= 1_000_000 ==> -5_000 <= millions_in_units(cu as nat, 100) * 10_000 - cu <= 5_000,
        cu < 1_000_000 ==> spec_format_cu_limit(Some(cu)) == spec_format_cu(cu),
{
    if cu >= 1_000_000 {
        lemma_millions_close(cu as nat, 10, 100_000);
        lemma_millions_close(cu as nat, 100, 10_000);
    }
}

/// How `format_cu` renders a compute-unit limit: millions with one decimal
/// (of the nearest 64-bit float, ties to even) and `M`, thousands (truncated)
/// and `k`, or the plain number.
pub open spec fn spec_format_cu(cu: u32) -> Seq<char> {
    if cu >= 1_000_000 {
        let d = millions_in_units(cu as nat, 10);
        decimal(d / 10) + seq!['.', digit_char(d % 10), 'M']
    } else if cu >= 1_000 {
        decimal((cu / 1_000) as nat) + seq!['k']
    } else {
        decimal(cu as nat)
    }
}

/// How `format_cu_limit` renders an optional compute-unit limit: millions
/// with two decimals (of the nearest 64-bit float, ties to even) and `M`,
/// thousands (truncated) and `k`, the plain number, or `N/A`.
pub open spec fn spec_format_cu_limit(cu: Option<u32>) -> Seq<char> {
    match cu {
        Some(c) => if c >= 1_000_000 {
            let d = millions_in_units(c as nat, 100);
            decimal(d / 100) + seq!['.', digit_char((d % 100) / 10), digit_char(d % 10), 'M']
        } else if c >= 1_000 {
            decimal((c / 1_000) as nat) + seq!['k']
        } else {
            decimal(c as nat)
        },
        None => seq!['N', '/', 'A'],
    }
}

/// Renders a compute-unit limit (see [`spec_format_cu`]); for example
/// 1500000 gives `1.5M` and 140000 gives `140k`.
pub fn format_cu(cu: u32) -> (s: String)
    ensures
        s@ == spec_format_cu(cu),
{
    proof {
        reveal_strlit(".");
        reveal_strlit("M");
        reveal_strlit("k");
    }
    let mut s = String::new();
    if cu >= 1_000_000 {
        let d = millions_in_units_exec(cu, 10);
        push_decimal(&mut s, d / 10);
        s.append(".");
        s.append(digit_str(d % 10));
        s.append("M");
    } else if cu >= 1_000 {
        push_decimal(&mut s, (cu / 1_000) as u128);
        s.append("k");
    } else {
        push_decimal(&mut s, cu as u128);
    }
    assert(s@ =~= spec_format_cu(cu));
    s
}

/// Renders an optional compute-unit limit (see [`spec_format_cu_limit`]);
/// for example `Some(1500000)` gives `1.50M` and `None` gives `N/A`.
pub fn format_cu_limit(cu: Option<u32>) -> (s: String)
    ensures
        s@ == spec_format_cu_limit(cu),
{
    proof {
        reveal_strlit(".");
        reveal_strlit("M");
        reveal_strlit("k");
        reveal_strlit("N/A");
    }
    let mut s = String::new();
    match cu {
        Some(c) => {
            if c >= 1_000_000 {
                let d = millions_in_units_exec(c, 100);
                push_decimal(&mut s, d / 100);
                s.append(".");
                s.append(digit_str((d % 100) / 10));
                s.append(digit_str(d % 10));
                s.append("M");
            } else if c >= 1_000 {
                push_decimal(&mut s, (c / 1_000) as u128);
                s.append("k");
            } else {
                push_decimal(&mut s, c as u128);
            }
        },
        None => {
            s.append("N/A");
        },
    }
    assert(s@ =~= spec_format_cu_limit(cu));
    s
}

} // verus!
