//! Exact decimal text of binary fractions, as the standard library prints
//! a double to a fixed number of decimals.
use vstd::prelude::*;
use crate::text::{dec_text, digit_char, push_char};
use vstd::arithmetic::div_mod::lemma_fundamental_div_mod_converse;

verus! {

/// Two to the `e`.
pub open spec fn pow2(e: nat) -> nat
    decreases e,
{
    if e == 0 { 1 } else { 2 * pow2((e - 1) as nat) }
}

/// Ten to the `e`.
pub open spec fn pow10(e: nat) -> nat
    decreases e,
{
    if e == 0 { 1 } else { 10 * pow10((e - 1) as nat) }
}

/// How many binary digits `n` has.
pub open spec fn bit_length(n: nat) -> nat
    decreases n,
{
    if n == 0 { 0 } else { 1 + bit_length(n / 2) }
}

/// `a / b` rounded to the nearest integer, ties to the even one.
pub open spec fn round_half_even(a: nat, b: nat) -> nat {
    let q = a / b;
    let r = a % b;
    if 2 * r > b || (2 * r == b && q % 2 == 1) { q + 1 } else { q }
}

/// The value that `n as f64` takes: `n` rounded to 53 significant bits,
/// ties to even.
pub open spec fn as_double(n: nat) -> nat {
    if bit_length(n) <= 53 {
        n
    } else {
        let u = pow2((bit_length(n) - 53) as nat);
        round_half_even(n, u) * u
    }
}

/// The last `w` decimal digits of `n`, leading zeros kept.
pub open spec fn padded_digits(n: nat, w: nat) -> Seq<char>
    decreases w,
{
    if w == 0 {
        Seq::empty()
    } else {
        padded_digits(n / 10, (w - 1) as nat).push(digit_char(n % 10))
    }
}

/// `v / 2^s` written with `p` decimals, rounded to nearest, ties to even.
pub open spec fn fixed_text(v: nat, s: nat, p: nat) -> Seq<char> {
    let q = round_half_even(v * pow10(p), pow2(s));
    if p == 0 {
        dec_text(q)
    } else {
        dec_text(q / pow10(p)) + "."@ + padded_digits(q % pow10(p), p)
    }
}

/// The number that decimal digits spell.
pub open spec fn digits_value(ds: Seq<u8>) -> nat
    decreases ds.len(),
{
    if ds.len() == 0 { 0 } else { digits_value(ds.drop_last()) * 10 + ds.last() as nat }
}

/// Whether every entry is a decimal digit.
pub open spec fn all_digits(ds: Seq<u8>) -> bool {
    forall|i: int| 0 <= i < ds.len() ==> #[trigger] ds[i] < 10
}

proof fn lemma_pow10_positive(e: nat)
    ensures
        pow10(e) >= 1,
    decreases e,
{
    if e > 0 {
        lemma_pow10_positive((e - 1) as nat);
    }
}

pub proof fn lemma_pow2_positive(e: nat)
    ensures
        pow2(e) >= 1,
    decreases e,
{
    if e > 0 {
        lemma_pow2_positive((e - 1) as nat);
    }
}

proof fn lemma_digits_bound(ds: Seq<u8>)
    requires
        all_digits(ds),
    ensures
        digits_value(ds) < pow10(ds.len()),
    decreases ds.len(),
{
    if ds.len() > 0 {
        let t = ds.drop_last();
        assert(all_digits(t)) by {
            assert forall|i: int| 0 <= i < t.len() implies #[trigger] t[i] < 10 by {
                assert(t[i] == ds[i]);
            }
        }
        lemma_digits_bound(t);
        let a = digits_value(t);
        let b = pow10(t.len());
        let d = ds.last() as nat;
        assert(ds[ds.len() - 1] < 10);
        assert(a * 10 + d < 10 * b) by (nonlinear_arith)
            requires a < b, d < 10;
    }
}

proof fn lemma_padded(ds: Seq<u8>)
    requires
        all_digits(ds),
    ensures
        padded_digits(digits_value(ds), ds.len()) == ds.map_values(|d: u8| digit_char(d as nat)),
    decreases ds.len(),
{
    if ds.len() > 0 {
        let t = ds.drop_last();
        assert(all_digits(t)) by {
            assert forall|i: int| 0 <= i < t.len() implies #[trigger] t[i] < 10 by {
                assert(t[i] == ds[i]);
            }
        }
        lemma_padded(t);
        let n = digits_value(ds);
        let d = ds.last() as nat;
        assert(ds[ds.len() - 1] < 10);
        assert(n / 10 == digits_value(t) && n % 10 == d) by (nonlinear_arith)
            requires n == digits_value(t) * 10 + d, d < 10;
        assert(padded_digits(n, ds.len()) =~= ds.map_values(|d: u8| digit_char(d as nat)));
    }
}

proof fn lemma_value_concat(a: Seq<u8>, b: Seq<u8>)
    ensures
        digits_value(a + b) == digits_value(a) * pow10(b.len()) + digits_value(b),
    decreases b.len(),
{
    if b.len() == 0 {
        assert(a + b =~= a);
        assert(pow10(0) == 1);
        assert(digits_value(a) * 1 == digits_value(a));
    } else {
        let b0 = b.drop_last();
        lemma_value_concat(a, b0);
        assert((a + b).drop_last() =~= a + b0);
        assert((a + b).last() == b.last());
        let x = digits_value(a);
        let p = pow10(b0.len());
        let y = digits_value(b0);
        let l = b.last() as nat;
        assert(pow10(b.len()) == 10 * p);
        assert(digits_value(a + b0) == x * p + y);
        assert(digits_value(a + b) == digits_value(a + b0) * 10 + l);
        assert(digits_value(b) == y * 10 + l);
        assert((x * p + y) * 10 + l == x * (10 * p) + (y * 10 + l)) by (nonlinear_arith);
        assert(digits_value(a + b) == x * pow10(b.len()) + digits_value(b));
    }
}

proof fn lemma_value_repeat(m: nat, d: u8)
    ensures
        d == 0 ==> digits_value(Seq::new(m, |i: int| d)) == 0,
        d == 9 ==> digits_value(Seq::new(m, |i: int| d)) + 1 == pow10(m),
    decreases m,
{
    if m > 0 {
        lemma_value_repeat((m - 1) as nat, d);
        assert(Seq::new(m, |i: int| d).drop_last() =~= Seq::new((m - 1) as nat, |i: int| d));
    }
}

/// Adds one to the number that the digits spell; true where it carries out.
fn increment_digits(ds: &mut Vec<u8>) -> (carry: bool)
    requires
        all_digits(old(ds)@),
    ensures
        final(ds)@.len() == old(ds)@.len(),
        all_digits(final(ds)@),
        digits_value(final(ds)@) + (if carry { pow10(old(ds)@.len()) } else { 0 }) == digits_value(old(ds)@) + 1,
{
    let ghost before = ds@;
    let n = ds.len();
    let mut i: usize = n;
    while i > 0 && ds[i - 1] == 9
        invariant
            i <= n,
            n == ds@.len(),
            ds@ == before,
            forall|j: int| i <= j < n ==> ds@[j] == 9,
        decreases i,
    {
        i -= 1;
    }
    let ghost nines = Seq::new((n - i) as nat, |k: int| 9u8);
    let ghost zeros = Seq::new((n - i) as nat, |k: int| 0u8);
    proof {
        lemma_value_repeat((n - i) as nat, 9u8);
        lemma_value_repeat((n - i) as nat, 0u8);
    }
    let mut out: Vec<u8> = Vec::new();
    let mut k: usize = 0;
    let top = if i == 0 { 0 } else { i - 1 };
    while k < top
        invariant
            k <= top < n || (top == 0 && k == 0),
            top <= n,
            n == ds@.len(),
            out@ == ds@.subrange(0, k as int),
        decreases top - k,
    {
        out.push(ds[k]);
        k += 1;
        assert(out@ =~= ds@.subrange(0, k as int));
    }
    let carry = i == 0;
    let ghost m = (n - i) as nat;
    if !carry {
        let x = ds[i - 1];
        out.push(x + 1);
        proof {
            let pre = ds@.subrange(0, i - 1);
            assert(out@ =~= pre.push((x + 1) as u8));
            assert(before =~= pre.push(x) + nines);
            lemma_value_concat(pre.push(x), nines);
            assert(pre.push((x + 1) as u8).drop_last() =~= pre);
            assert(pre.push(x).drop_last() =~= pre);
            assert(digits_value(out@) == digits_value(pre.push(x)) + 1);
        }
    } else {
        proof {
            assert(before =~= nines);
        }
    }
    let ghost head = out@;
    let mut z: usize = i;
    while z < n
        invariant
            i <= z <= n,
            out@ == head + Seq::new((z - i) as nat, |k: int| 0u8),
        decreases n - z,
    {
        out.push(0);
        z += 1;
        assert(out@ =~= head + Seq::new((z - i) as nat, |k: int| 0u8));
    }
    proof {
        assert(out@ =~= head + zeros);
        lemma_value_concat(head, zeros);
        let pm = pow10(m);
        if !carry {
            let pre = before.subrange(0, i - 1);
            let a = digits_value(pre.push(before[i - 1]));
            assert(before =~= pre.push(before[i - 1]) + nines);
            lemma_value_concat(pre.push(before[i - 1]), nines);
            assert(digits_value(head) == a + 1);
            assert((a + 1) * pm == a * pm + pm) by (nonlinear_arith);
        } else {
            assert(head.len() == 0);
            assert(digits_value(head) == 0);
            assert(m == n);
        }
        assert forall|j: int| 0 <= j < out@.len() implies #[trigger] out@[j] < 10 by {
            if j < head.len() && j + 1 < i {
                assert(out@[j] == before[j]);
                assert(before[j] < 10);
            }
        }
    }
    *ds = out;
    carry
}

/// Appends the decimal text of `n`.
pub fn push_wide_decimal(s: &mut String, n: u128)
    ensures
        final(s)@ == old(s)@ + dec_text(n as nat),
    decreases n,
{
    if n >= 10 {
        push_wide_decimal(s, n / 10);
    }
    let d: u128 = n % 10;
    push_char(s, ((d as u8) + 48u8) as char);
    assert(final(s)@ =~= old(s)@ + dec_text(n as nat));
}


pub proof fn lemma_pow2_monotone(a: nat, b: nat)
    requires
        a <= b,
    ensures
        pow2(a) <= pow2(b),
    decreases b - a,
{
    if a < b {
        lemma_pow2_monotone(a, (b - 1) as nat);
    }
}

pub proof fn lemma_pow2_64()
    ensures
        pow2(64) == 0x1_0000_0000_0000_0000,
{
    reveal_with_fuel(pow2, 65);
}

/// Powers of two add their exponents.
pub proof fn lemma_pow2_add(a: nat, b: nat)
    ensures
        pow2(a + b) == pow2(a) * pow2(b),
    decreases b,
{
    if b == 0 {
        assert(a + b == a);
        assert(pow2(a) * 1 == pow2(a));
    } else {
        lemma_pow2_add(a, (b - 1) as nat);
        assert(a + (b - 1) as nat == (a + b - 1) as nat);
        let x = pow2(a);
        let y = pow2((b - 1) as nat);
        assert(pow2(a + b) == 2 * pow2((a + b - 1) as nat));
        assert(pow2(b) == 2 * y);
        assert(x * (2 * y) == 2 * (x * y)) by (nonlinear_arith);
    }
}

pub proof fn lemma_pow2_large()
    ensures
        pow2(120) == 0x100_0000_0000_0000_0000_0000_0000_0000,
        pow2(126) == 0x4000_0000_0000_0000_0000_0000_0000_0000,
{
    lemma_pow2_64();
    reveal_with_fuel(pow2, 63);
    assert(pow2(56) == 0x100_0000_0000_0000);
    assert(pow2(62) == 0x4000_0000_0000_0000);
    lemma_pow2_add(64, 56);
    lemma_pow2_add(64, 62);
}

/// Two to the `e`, for `e <= 127`.
pub fn pow2_of(e: u32) -> (r: u128)
    requires
        e <= 127,
    ensures
        r == pow2(e as nat),
        e <= 64 ==> r <= 0x1_0000_0000_0000_0000,
        e <= 120 ==> r <= 0x100_0000_0000_0000_0000_0000_0000_0000,
{
    let mut r: u128 = 1;
    let mut i: u32 = 0;
    proof { lemma_pow2_64(); lemma_pow2_large(); }
    while i < e
        invariant
            i <= e <= 127,
            r == pow2(i as nat),
            pow2(126) == 0x4000_0000_0000_0000_0000_0000_0000_0000,
        decreases e - i,
    {
        proof { lemma_pow2_monotone(i as nat, 126); }
        r = r * 2;
        i += 1;
    }
    proof {
        if e <= 64 {
            lemma_pow2_monotone(e as nat, 64);
        }
        if e <= 120 {
            lemma_pow2_monotone(e as nat, 120);
        }
    }
    r
}

/// Appends `v / 2^s` written with `p` decimals, rounded to nearest, ties to even.
pub fn push_fixed(out: &mut String, v: u128, s: u32, p: usize)
    requires
        v < 0x2_0000_0000_0000_0000u128,
        s <= 60,
    ensures
        final(out)@ == old(out)@ + fixed_text(v as nat, s as nat, p as nat),
{
    let big = pow2_of(s);
    proof { lemma_pow2_positive(s as nat); }
    let ip = v / big;
    let mut r = v % big;
    let mut ds: Vec<u8> = Vec::new();
    let mut j: usize = 0;
    proof { lemma_pow10_positive(0); }
    assert(v == (ip * pow10(0) + digits_value(ds@)) * big + r) by (nonlinear_arith)
        requires ip == v / big, r == v % big, big > 0, pow10(0) == 1, digits_value(ds@) == 0;
    while j < p
        invariant
            j <= p,
            big == pow2(s as nat),
            1 <= big <= 0x1_0000_0000_0000_0000,
            ip <= v,
            v * pow10(j as nat) == (ip * pow10(j as nat) + digits_value(ds@)) * big + r,
            r < big,
            ds@.len() == j,
            all_digits(ds@),
        decreases p - j,
    {
        let r10 = r * 10;
        let d = r10 / big;
        let r2 = r10 % big;
        let ghost dv = digits_value(ds@);
        let ghost prev_ds = ds@;
        let ghost pj = pow10(j as nat);
        assert(d < 10) by (nonlinear_arith)
            requires d == r10 / big, r10 == r * 10, r < big, big > 0;
        assert(r10 == d * big + r2) by (nonlinear_arith)
            requires d == r10 / big, r2 == r10 % big, big > 0;
        assert(v * (10 * pj) == (ip * (10 * pj) + (dv * 10 + d)) * big + r2) by (nonlinear_arith)
            requires v * pj == (ip * pj + dv) * big + r, r10 == r * 10, r10 == d * big + r2;
        ds.push(d as u8);
        proof {
            assert(ds@.drop_last() =~= ds@.subrange(0, j as int));
            assert(ds@.subrange(0, j as int) =~= ds@.drop_last());
            assert(pow10((j + 1) as nat) == 10 * pj);
            assert(ds@.drop_last() =~= prev_ds);
            assert(ds@.last() == d as u8);
            assert(digits_value(ds@) == dv * 10 + d);
            assert forall|i: int| 0 <= i < ds@.len() implies #[trigger] ds@[i] < 10 by {
                if i < j {
                    assert(ds@[i] == ds@.drop_last()[i]);
                }
            }
        }
        r = r2;
        j += 1;
    }
    let ghost d0 = digits_value(ds@);
    let ghost pp = pow10(p as nat);
    let ghost q0 = ip * pp + d0;
    proof {
        lemma_pow10_positive(p as nat);
        lemma_digits_bound(ds@);
        lemma_fundamental_div_mod_converse((v * pp) as int, big as int, q0 as int, r as int);
    }
    let last_odd = if p == 0 { ip % 2 == 1 } else { ds[p - 1] % 2 == 1 };
    proof {
        if p > 0 {
            let pm = pow10((p - 1) as nat);
            assert(pp == 10 * pm);
            let t = ds@.drop_last();
            let l = ds@[p - 1] as nat;
            assert(d0 == digits_value(t) * 10 + l);
            let w = ip * pm + digits_value(t);
            assert(q0 == 10 * w + l) by (nonlinear_arith)
                requires q0 == ip * pp + d0, pp == 10 * pm, d0 == digits_value(t) * 10 + l, w == ip * pm + digits_value(t);
            assert((10 * w + l) % 2 == l % 2) by (nonlinear_arith);
        } else {
            assert(q0 == ip + d0);
            assert(d0 == 0);
        }
    }
    let up = 2 * r > big || (2 * r == big && last_odd);
    let ghost q = round_half_even((v * pp) as nat, big as nat);
    assert(q == q0 + if up { 1nat } else { 0nat });
    let mut whole = ip;
    let ghost old_ds = ds@;
    if up {
        if p == 0 {
            whole = ip + 1;
        } else {
            let c = increment_digits(&mut ds);
            if c {
                whole = ip + 1;
            }
        }
    }
    proof {
        lemma_digits_bound(ds@);
        let dn = digits_value(ds@);
        assert(q == whole * pp + dn) by (nonlinear_arith)
            requires q == q0 + (if up { 1nat } else { 0nat }), q0 == ip * pp + d0,
                (p == 0 ==> pp == 1 && d0 == 0 && dn == 0 && whole == ip + (if up { 1nat } else { 0nat })),
                (p > 0 && !up ==> dn == d0 && whole == ip),
                (p > 0 && up ==> (whole == ip && dn == d0 + 1) || (whole == ip + 1 && dn + pp == d0 + 1));
        lemma_fundamental_div_mod_converse(q as int, pp as int, whole as int, dn as int);
    }
    let ghost start = out@;
    push_wide_decimal(out, whole);
    if p > 0 {
        push_char(out, '.');
        let ghost mid = out@;
        let mut k: usize = 0;
        while k < ds.len()
            invariant
                k <= ds@.len(),
                all_digits(ds@),
                out@ == mid + ds@.subrange(0, k as int).map_values(|d: u8| digit_char(d as nat)),
            decreases ds@.len() - k,
        {
            let d = ds[k];
            assert(ds@[k as int] < 10);
            push_char(out, (d + 48u8) as char);
            k += 1;
            assert(out@ =~= mid + ds@.subrange(0, k as int).map_values(|d: u8| digit_char(d as nat)));
        }
        proof {
            lemma_padded(ds@);
            assert(ds@.subrange(0, ds@.len() as int) =~= ds@);
            reveal_strlit(".");
        }
        assert(out@ =~= start + fixed_text(v as nat, s as nat, p as nat));
    } else {
        assert(out@ =~= start + fixed_text(v as nat, s as nat, p as nat));
    }
}


proof fn lemma_bit_length_bound(n: nat, k: nat)
    requires
        n < pow2(k),
    ensures
        bit_length(n) <= k,
    decreases k,
{
    if n > 0 {
        if k == 0 {
            assert(false);
        } else {
            lemma_bit_length_bound(n / 2, (k - 1) as nat);
        }
    }
}

/// The value that `n as f64` takes, as an integer.
pub fn double_value(n: u64) -> (r: u128)
    ensures
        r == as_double(n as nat),
        r < 0x2_0000_0000_0000_0000u128,
{
    let mut m: u64 = n;
    let mut bl: u32 = 0;
    proof {
        lemma_pow2_64();
        lemma_bit_length_bound(n as nat, 64);
    }
    while m > 0
        invariant
            bit_length(n as nat) == bl + bit_length(m as nat),
            bit_length(n as nat) <= 64,
        decreases m,
    {
        m = m / 2;
        bl += 1;
    }
    if bl <= 53 {
        return n as u128;
    }
    let u = pow2_of(bl - 53);
    proof {
        lemma_pow2_positive((bl - 53) as nat);
        lemma_pow2_monotone((bl - 53) as nat, 11);
        reveal_with_fuel(pow2, 12);
    }
    let q = (n as u128) / u;
    let rem = (n as u128) % u;
    let q2 = if 2 * rem > u || (2 * rem == u && q % 2 == 1) { q + 1 } else { q };
    assert(q2 * u <= n + u) by (nonlinear_arith)
        requires q == (n as u128) / u, q2 <= q + 1, u > 0;
    q2 * u
}

} // verus!
