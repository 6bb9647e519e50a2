//! Human-readable byte counts, such as `1.5 KB`.
use vstd::prelude::*;

verus! {

/// 2 to the power `e`.
pub open spec fn p2(e: nat) -> nat
    decreases e,
{
    if e == 0 {
        1
    } else {
        2 * p2((e - 1) as nat)
    }
}

/// 2 to the power 53: the first integer above the 53-bit significand of an
/// `f64`.
pub open spec fn significand_limit() -> nat {
    9007199254740992
}

/// The number of low bits that an `f64` cannot hold of `b`: the smallest `e`
/// (from `e` on, at most 11) with `b < 2^(53 + e)`.
pub open spec fn dropped_bits(b: nat, e: nat) -> nat
    decreases 11 - e,
{
    if e >= 11 || b < significand_limit() * p2(e) {
        e
    } else {
        dropped_bits(b, e + 1)
    }
}

/// `n / d` rounded to the nearest integer, a tie to the even one.
pub open spec fn div_round_even(n: nat, d: nat) -> nat
    recommends
        d > 0,
{
    let q = n / d;
    let r = n % d;
    if 2 * r > d || (2 * r == d && q % 2 == 1) {
        q + 1
    } else {
        q
    }
}

/// `b as f64` for `b < 2^64`, as an integer: `b` rounded to the nearest value
/// with a 53-bit significand, a tie to the even significand.
pub open spec fn f64_value(b: nat) -> nat {
    let e = dropped_bits(b, 0);
    let d = p2(e);
    div_round_even(b, d) * d
}

/// `1024^k`, for the number of divisions made.
pub open spec fn unit_scale(k: nat) -> nat {
    if k == 0 {
        1
    } else if k == 1 {
        1024
    } else if k == 2 {
        1048576
    } else if k == 3 {
        1073741824
    } else if k == 4 {
        1099511627776
    } else {
        1125899906842624
    }
}

/// How many times the size is divided by 1024, walking the units B, KB, MB,
/// GB, TB: at each unit the walk stops if the size is under 1024 and divides
/// otherwise, so a size of 1024 TB or more is divided a fifth time (and is
/// still labelled TB, the last unit walked).
pub open spec fn size_divisions(v: nat) -> nat {
    if v < unit_scale(1) {
        0
    } else if v < unit_scale(2) {
        1
    } else if v < unit_scale(3) {
        2
    } else if v < unit_scale(4) {
        3
    } else if v < unit_scale(5) {
        4
    } else {
        5
    }
}

/// The unit names, from bytes up; TB for four divisions or more.
pub open spec fn unit_name(k: nat) -> Seq<char> {
    if k == 0 {
        "B"@
    } else if k == 1 {
        "KB"@
    } else if k == 2 {
        "MB"@
    } else if k == 3 {
        "GB"@
    } else {
        "TB"@
    }
}

/// The decimal digit of `d`.
pub open spec fn digit(d: nat) -> char {
    seq!['0', '1', '2', '3', '4', '5', '6', '7', '8', '9'][d as int]
}

/// The decimal representation of `n`, without leading zeros.
pub open spec fn decimal(n: nat) -> Seq<char>
    decreases n,
{
    if n < 10 {
        seq![digit(n)]
    } else {
        decimal(n / 10).push(digit(n % 10))
    }
}

/// The text of a size: the size divided by 1024 as often as
/// [`size_divisions`] says, with one decimal (rounded to nearest, a tie to
/// even), a space and the last unit walked (TB after four or five
/// divisions).
pub open spec fn human_size_spec(bytes: nat) -> Seq<char> {
    let v = f64_value(bytes);
    let k = size_divisions(v);
    let tenths = div_round_even(v * 10, unit_scale(k));
    decimal(tenths / 10) + seq!['.', digit(tenths % 10), ' '] + unit_name(k)
}

proof fn lemma_p2_small(e: nat)
    requires
        e <= 11,
    ensures
        p2(e) <= 2048,
        e <= 10 ==> p2(e) <= 1024,
        p2(e) >= 1,
    decreases e,
{
    let t = seq![1nat, 2, 4, 8, 16, 32, 64, 128, 256, 512, 1024, 2048];
    lemma_p2_table(e, t);
}

proof fn lemma_p2_table(e: nat, t: Seq<nat>)
    requires
        e <= 11,
        t == seq![1nat, 2, 4, 8, 16, 32, 64, 128, 256, 512, 1024, 2048],
    ensures
        p2(e) == t[e as int],
    decreases e,
{
    if e > 0 {
        lemma_p2_table((e - 1) as nat, t);
    }
}

fn digit_exec(d: u128) -> (c: char)
    requires
        d < 10,
    ensures
        c == digit(d as nat),
{
    let digits = ['0', '1', '2', '3', '4', '5', '6', '7', '8', '9'];
    assert(digits@ =~= seq!['0', '1', '2', '3', '4', '5', '6', '7', '8', '9']);
    digits[d as usize]
}

/// Appends the decimal representation of `n`.
pub(crate) fn push_decimal(out: &mut String, n: u128)
    ensures
        final(out)@ == old(out)@ + decimal(n as nat),
    decreases n,
{
    if n >= 10 {
        push_decimal(out, n / 10);
    }
    out.push(digit_exec(n % 10));
    proof {
        if n < 10 {
            assert(old(out)@ + decimal(n as nat) =~= old(out)@.push(digit(n as nat)));
        } else {
            assert(old(out)@ + decimal(n as nat) =~= (old(out)@ + decimal((n / 10) as nat)).push(
                digit((n % 10) as nat),
            ));
        }
    }
}

/// Appends the characters of `t`.
pub(crate) fn push_text(out: &mut String, t: &str)
    ensures
        final(out)@ == old(out)@ + t@,
{
    let cs = crate::text::chars_of(t);
    let mut i: usize = 0;
    while i < cs.len()
        invariant
            i <= cs@.len(),
            cs@ == t@,
            out@ == old(out)@ + cs@.take(i as int),
        decreases cs@.len() - i,
    {
        out.push(cs[i]);
        i = i + 1;
        assert(out@ =~= old(out)@ + cs@.take(i as int));
    }
    assert(cs@.take(i as int) =~= cs@);
}

/// Rounds `n / d` to the nearest integer, a tie to the even one.
fn div_round_even_exec(n: u128, d: u128) -> (r: u128)
    requires
        d > 0,
        n < 0x1_0000_0000_0000_0000_0000_0000_0000_0000 - 1,
    ensures
        r == div_round_even(n as nat, d as nat),
{
    let q = n / d;
    let rem = n % d;
    assert(q <= n) by (nonlinear_arith)
        requires
            q == n / d,
            d > 0,
    ;
    assert(rem < d);
    if rem > d - rem || (rem == d - rem && q % 2 == 1) {
        q + 1
    } else {
        q
    }
}

/// Formats a byte count as a human-readable size: `0.0 B`, `1.5 KB`,
/// `2.0 MB`, `1.0 GB`. The count is taken as an `f64` first (so counts above
/// 2^53 are rounded to 53 significant bits).
pub fn human_size(bytes: usize) -> (r: String)
    ensures
        r@ == human_size_spec(bytes as nat),
{
    let b = bytes as u128;
    let sig: u128 = 9007199254740992;
    let mut e: u128 = 0;
    let mut p: u128 = 1;
    proof {
        lemma_p2_small(0);
    }
    while e < 11 && b >= sig * p
        invariant
            e <= 11,
            p == p2(e as nat),
            p <= 2048,
            b == bytes,
            sig == significand_limit(),
            dropped_bits(b as nat, 0) == dropped_bits(b as nat, e as nat),
        decreases 11 - e,
    {
        proof {
            lemma_p2_small(e as nat);
            lemma_p2_small((e + 1) as nat);
        }
        e = e + 1;
        p = p * 2;
    }
    assert(dropped_bits(b as nat, e as nat) == e);
    assert(p >= 1) by {
        lemma_p2_small(e as nat);
    }
    let m = div_round_even_exec(b, p);
    assert(m <= b + 1) by (nonlinear_arith)
        requires
            m == div_round_even(b as nat, p as nat),
            p >= 1,
    {
        assert(b / p <= b);
    }
    assert(m * p <= (b + 1) * 2048) by (nonlinear_arith)
        requires
            m <= b + 1,
            p <= 2048,
    ;
    let v = m * p;
    assert(v == f64_value(bytes as nat));
    let k: u128 = if v < 1024 {
        0
    } else if v < 1048576 {
        1
    } else if v < 1073741824 {
        2
    } else if v < 1099511627776 {
        3
    } else if v < 1125899906842624 {
        4
    } else {
        5
    };
    let scale: u128 = if k == 0 {
        1
    } else if k == 1 {
        1024
    } else if k == 2 {
        1048576
    } else if k == 3 {
        1073741824
    } else if k == 4 {
        1099511627776
    } else {
        1125899906842624
    };
    assert(k == size_divisions(v as nat));
    assert(scale == unit_scale(k as nat));
    let tenths = div_round_even_exec(v * 10, scale);
    let mut out = String::new();
    push_decimal(&mut out, tenths / 10);
    out.push('.');
    out.push(digit_exec(tenths % 10));
    out.push(' ');
    let unit = if k == 0 {
        "B"
    } else if k == 1 {
        "KB"
    } else if k == 2 {
        "MB"
    } else if k == 3 {
        "GB"
    } else {
        "TB"
    };
    push_text(&mut out, unit);
    proof {
        assert(unit@ == unit_name(k as nat));
        assert(out@ =~= human_size_spec(bytes as nat));
    }
    out
}

} // verus!
