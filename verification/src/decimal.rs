//! Values of decimal digit strings, and the facts about them that the
//! number parser relies on.

use vstd::prelude::*;

verus! {

/// `10` raised to `n`.
pub open spec fn pow10(n: nat) -> nat
    decreases n,
{
    if n == 0 { 1 } else { 10 * pow10((n - 1) as nat) }
}

/// Every entry is a decimal digit value.
pub open spec fn all_digits(ds: Seq<u8>) -> bool {
    forall|i: int| 0 <= i < ds.len() ==> #[trigger] ds[i] < 10
}

/// The number that a sequence of digit values denotes, most significant first.
pub open spec fn digits_value(ds: Seq<u8>) -> nat
    decreases ds.len(),
{
    if ds.len() == 0 {
        0
    } else {
        digits_value(ds.drop_last()) * 10 + ds.last() as nat
    }
}

pub proof fn lemma_pow10_positive(n: nat)
    ensures
        pow10(n) >= 1,
    decreases n,
{
    if n > 0 {
        lemma_pow10_positive((n - 1) as nat);
    }
}

pub proof fn lemma_pow10_add(a: nat, b: nat)
    ensures
        pow10(a + b) == pow10(a) * pow10(b),
    decreases b,
{
    if b > 0 {
        let b1 = (b - 1) as nat;
        lemma_pow10_add(a, b1);
        let x = pow10(a);
        let y = pow10(b1);
        let s = pow10(a + b1);
        assert(s == x * y);
        assert(pow10(a + b) == 10 * s);
        assert(pow10(b) == 10 * y);
        assert(10 * (x * y) == x * (10 * y)) by (nonlinear_arith);
    } else {
        assert(pow10(0) == 1);
        assert(a + b == a);
    }
}

pub proof fn lemma_pow10_monotone(a: nat, b: nat)
    requires
        a <= b,
    ensures
        pow10(a) <= pow10(b),
{
    lemma_pow10_add(a, (b - a) as nat);
    lemma_pow10_positive((b - a) as nat);
    lemma_pow10_positive(a);
    let x = pow10(a);
    let y = pow10((b - a) as nat);
    assert(x <= x * y) by (nonlinear_arith)
        requires
            y >= 1,
            x >= 1,
    ;
}

pub proof fn lemma_pow10_small()
    ensures
        pow10(0) == 1,
        pow10(1) == 10,
        pow10(2) == 100,
        pow10(3) == 1000,
        pow10(4) == 10000,
        pow10(5) == 100000,
        pow10(6) == 1000000,
        pow10(7) == 10000000,
        pow10(8) == 100000000,
        pow10(9) == 1000000000,
        pow10(10) == 10000000000,
        pow10(11) == 100000000000,
        pow10(12) == 1000000000000,
        pow10(13) == 10000000000000,
{
    reveal_with_fuel(pow10, 14);
}

/// Appending digits: the value of `a + b`.
pub proof fn lemma_digits_value_concat(a: Seq<u8>, b: Seq<u8>)
    ensures
        digits_value(a + b) == digits_value(a) * pow10(b.len()) + digits_value(b),
    decreases b.len(),
{
    if b.len() == 0 {
        assert(a + b =~= a);
        assert(pow10(0) == 1);
        assert(digits_value(b) == 0);
    } else {
        let b0 = b.drop_last();
        lemma_digits_value_concat(a, b0);
        assert((a + b).drop_last() =~= a + b0);
        assert((a + b).last() == b.last());
        let va = digits_value(a);
        let p = pow10(b0.len());
        let vb0 = digits_value(b0);
        assert(digits_value(a + b0) == va * p + vb0);
        assert(digits_value(a + b) == digits_value(a + b0) * 10 + b.last() as nat);
        assert(digits_value(b) == vb0 * 10 + b.last() as nat);
        assert(pow10(b.len()) == 10 * p);
        assert((va * p + vb0) * 10 == va * (10 * p) + vb0 * 10) by (nonlinear_arith);
    }
}

/// A digit string of length `n` denotes a number below `10^n`.
pub proof fn lemma_digits_value_bound(ds: Seq<u8>)
    requires
        all_digits(ds),
    ensures
        digits_value(ds) < pow10(ds.len()),
    decreases ds.len(),
{
    if ds.len() > 0 {
        let d0 = ds.drop_last();
        assert(all_digits(d0));
        lemma_digits_value_bound(d0);
        let v = digits_value(d0);
        let p = pow10(d0.len());
        assert(ds.last() < 10);
        assert(v * 10 + ds.last() < 10 * p) by (nonlinear_arith)
            requires
                v < p,
                ds.last() < 10,
        ;
    }
}

/// A digit string that does not start with `0` has no fewer digits than its value needs.
pub proof fn lemma_digits_value_lower(ds: Seq<u8>)
    requires
        ds.len() > 0,
        ds[0] > 0,
    ensures
        digits_value(ds) >= pow10((ds.len() - 1) as nat),
{
    let head = ds.take(1);
    let tail = ds.skip(1);
    assert(ds =~= head + tail);
    lemma_digits_value_concat(head, tail);
    assert(head.drop_last() =~= Seq::<u8>::empty());
    assert(digits_value(head.drop_last()) == 0);
    assert(head.last() == ds[0]);
    assert(digits_value(head) == ds[0] as nat);
    let p = pow10(tail.len());
    let h = ds[0] as nat;
    assert(h * p >= p) by (nonlinear_arith)
        requires
            h >= 1,
    ;
}

/// A string of zeros denotes `0`.
pub proof fn lemma_digits_value_zeros(ds: Seq<u8>)
    requires
        forall|i: int| 0 <= i < ds.len() ==> #[trigger] ds[i] == 0,
    ensures
        digits_value(ds) == 0,
    decreases ds.len(),
{
    if ds.len() > 0 {
        lemma_digits_value_zeros(ds.drop_last());
    }
}

/// A digit string with some nonzero digit denotes a positive number.
pub proof fn lemma_digits_value_nonzero(ds: Seq<u8>, i: int)
    requires
        0 <= i < ds.len(),
        ds[i] > 0,
    ensures
        digits_value(ds) > 0,
{
    let a = ds.take(i);
    let b = ds.skip(i);
    assert(ds =~= a + b);
    lemma_digits_value_concat(a, b);
    lemma_digits_value_lower(b);
    lemma_pow10_positive((b.len() - 1) as nat);
}

/// Leading zeros do not change the value.
pub proof fn lemma_digits_value_leading_zeros(ds: Seq<u8>, z: int)
    requires
        0 <= z <= ds.len(),
        forall|i: int| 0 <= i < z ==> #[trigger] ds[i] == 0,
    ensures
        digits_value(ds) == digits_value(ds.skip(z)),
{
    let a = ds.take(z);
    let b = ds.skip(z);
    assert(ds =~= a + b);
    lemma_digits_value_concat(a, b);
    lemma_digits_value_zeros(a);
}


/// Whether `n * 10^scale` (a rational number of nanoseconds) lies in
/// `[1000000000, 3600000000000]`, that is between one second and one hour.
pub open spec fn ns_in_range(n: nat, scale: int) -> bool {
    if scale >= 0 {
        1000000000 <= n * pow10(scale as nat) <= 3600000000000
    } else {
        1000000000 * pow10((-scale) as nat) <= n && n <= 3600000000000 * pow10((-scale) as nat)
    }
}

/// `n * 10^scale` rounded down to a whole number.
pub open spec fn ns_floor(n: nat, scale: int) -> int {
    if scale >= 0 {
        (n * pow10(scale as nat)) as int
    } else {
        n as int / pow10((-scale) as nat) as int
    }
}

/// The first `t` digits of `ds`, padded with zeros on the right where `ds` is shorter.
pub open spec fn padded_prefix(ds: Seq<u8>, t: nat) -> Seq<u8> {
    Seq::new(t, |k: int| if k < ds.len() { ds[k] } else { 0u8 })
}

/// Number of leading zero digits.
pub open spec fn leading_zeros(ds: Seq<u8>) -> nat
    decreases ds.len(),
{
    if ds.len() > 0 && ds[0] == 0 {
        1 + leading_zeros(ds.drop_first())
    } else {
        0
    }
}

pub proof fn lemma_leading_zeros(ds: Seq<u8>)
    ensures
        leading_zeros(ds) <= ds.len(),
        forall|i: int| 0 <= i < leading_zeros(ds) ==> #[trigger] ds[i] == 0,
        leading_zeros(ds) < ds.len() ==> ds[leading_zeros(ds) as int] != 0,
    decreases ds.len(),
{
    if ds.len() > 0 && ds[0] == 0 {
        let r = ds.drop_first();
        lemma_leading_zeros(r);
        assert forall|i: int| 0 <= i < leading_zeros(ds) implies #[trigger] ds[i] == 0 by {
            if i > 0 {
                assert(ds[i] == r[i - 1]);
            }
        }
    }
}

/// A number with no nonzero digit, or whose magnitude is far from the range, is out of range.
pub proof fn lemma_scale_magnitude(n: nat, scale: int, lo: nat, hi: nat)
    requires
        pow10(lo) <= n || n == 0,
        n < pow10(hi),
    ensures
        n == 0 ==> !ns_in_range(n, scale),
        n > 0 && hi as int + scale <= 9 ==> !ns_in_range(n, scale),
        n > 0 && lo as int + scale >= 13 ==> !ns_in_range(n, scale),
{
    if n == 0 {
        if scale >= 0 {
            assert(0 * pow10(scale as nat) == 0);
        } else {
            lemma_pow10_positive((-scale) as nat);
        }
    }
    if n > 0 && hi as int + scale <= 9 {
        // n * 10^scale < 10^(hi + scale) <= 10^9
        if scale >= 0 {
            let s = scale as nat;
            lemma_pow10_add(hi, s);
            lemma_pow10_monotone(hi + s, 9);
            let p = pow10(s);
            lemma_pow10_positive(s);
            assert(n * p < pow10(hi) * p) by (nonlinear_arith)
                requires
                    n < pow10(hi),
                    p >= 1,
            {
            }
            lemma_pow10_positive(s);
            assert(pow10(hi) * p == pow10(hi + s));
            assert(pow10(hi + s) <= pow10(9));
            lemma_pow10_small();
            assert(n * p < 1000000000);
            assert(!ns_in_range(n, scale));
        } else {
            let j = (-scale) as nat;
            // 10^hi <= 10^(9 + j) == 10^9 * 10^j
            lemma_pow10_add(9, j);
            lemma_pow10_monotone(hi, 9 + j);
            lemma_pow10_small();
            assert(n < 1000000000 * pow10(j));
            assert(!ns_in_range(n, scale));
        }
    }
    if n > 0 && lo as int + scale >= 13 {
        if scale >= 0 {
            let s = scale as nat;
            lemma_pow10_add(lo, s);
            lemma_pow10_monotone(13, lo + s);
            lemma_pow10_small();
            let p = pow10(s);
            lemma_pow10_positive(s);
            assert(n * p >= pow10(lo) * p) by (nonlinear_arith)
                requires
                    n >= pow10(lo),
                    p >= 1,
            {
            }
            assert(pow10(lo) * p == pow10(lo + s));
            assert(n * p >= 10000000000000);
            assert(!ns_in_range(n, scale));
        } else {
            let j = (-scale) as nat;
            // 10^lo >= 10^(13 + j)
            lemma_pow10_add(13, j);
            lemma_pow10_monotone(13 + j, lo);
            lemma_pow10_small();
            let q = pow10(j);
            lemma_pow10_positive(j);
            assert(10000000000000 * q > 3600000000000 * q) by (nonlinear_arith)
                requires
                    q >= 1,
            {
            }
            assert(pow10(13 + j) == 10000000000000 * q);
            assert(n >= 10000000000000 * q);
            assert(!ns_in_range(n, scale));
        }
    }
}


/// Far from the range in magnitude: `scale >= 14` or `scale <= -(ds.len() + 9)` cannot give a
/// value in range.
pub proof fn lemma_far_scale_out_of_range(ds: Seq<u8>, scale: int)
    requires
        all_digits(ds),
        scale >= 14 || scale + ds.len() <= 9,
    ensures
        !ns_in_range(digits_value(ds), scale),
{
    let n = digits_value(ds);
    lemma_digits_value_bound(ds);
    lemma_pow10_small();
    lemma_scale_magnitude(n, scale, 0, ds.len());
}

/// The decision made from the `t = significant digits + scale` leading digits, where the
/// value has `d` significant digits after `z` leading zeros.
pub proof fn lemma_window(ds: Seq<u8>, scale: int, m: nat, exact: bool)
    requires
        all_digits(ds),
        leading_zeros(ds) < ds.len(),
        ({
            let t = ds.len() - leading_zeros(ds) + scale;
            &&& 10 <= t <= 13
            &&& m == digits_value(padded_prefix(ds.skip(leading_zeros(ds) as int), t as nat))
            &&& exact == (forall|k: int|
                t <= k < ds.len() - leading_zeros(ds) ==> #[trigger] ds.skip(
                    leading_zeros(ds) as int,
                )[k] == 0)
        }),
    ensures
        ns_in_range(digits_value(ds), scale) == (if exact {
            m <= 3600000000000
        } else {
            m < 3600000000000
        }),
        ns_in_range(digits_value(ds), scale) ==> ns_floor(digits_value(ds), scale) == m,
{
    let z = leading_zeros(ds);
    lemma_leading_zeros(ds);
    let sig = ds.skip(z as int);
    let d = sig.len();
    let t = d + scale;
    lemma_digits_value_leading_zeros(ds, z as int);
    let n = digits_value(ds);
    assert(n == digits_value(sig));
    assert(sig[0] == ds[z as int]);
    assert(all_digits(sig));
    lemma_pow10_small();
    if scale >= 0 {
        let s = scale as nat;
        let zeros = Seq::new(s, |k: int| 0u8);
        assert(padded_prefix(sig, t as nat) =~= sig + zeros);
        lemma_digits_value_concat(sig, zeros);
        lemma_digits_value_zeros(zeros);
        assert(m == n * pow10(s));
        lemma_digits_value_lower(sig);
        lemma_pow10_add((d - 1) as nat, s);
        lemma_pow10_monotone(9, (d - 1 + s) as nat);
        lemma_pow10_positive(s);
        let p = pow10(s);
        let lo = pow10((d - 1) as nat);
        assert(n * p >= lo * p) by (nonlinear_arith)
            requires
                n >= lo,
                p >= 1,
        {
        }
        assert(m >= 1000000000);
        assert(exact);
    } else {
        let j = (-scale) as nat;
        let tn = t as nat;
        let head = sig.take(tn as int);
        let rest = sig.skip(tn as int);
        assert(padded_prefix(sig, tn) =~= head);
        assert(sig =~= head + rest);
        assert(rest.len() == j);
        lemma_digits_value_concat(head, rest);
        let q = pow10(j);
        let r = digits_value(rest);
        assert(n == m * q + r);
        assert(all_digits(rest));
        lemma_digits_value_bound(rest);
        assert(head[0] == sig[0]);
        lemma_digits_value_lower(head);
        lemma_pow10_monotone(9, (tn - 1) as nat);
        assert(m >= 1000000000);
        lemma_pow10_positive(j);
        vstd::arithmetic::div_mod::lemma_fundamental_div_mod_converse(n as int, q as int, m as int, r as int);
        assert(n as int / q as int == m);
        assert(m * q >= 1000000000 * q) by (nonlinear_arith)
            requires
                m >= 1000000000,
                q >= 1,
        {
        }
        if exact {
            assert forall|k: int| 0 <= k < rest.len() implies #[trigger] rest[k] == 0 by {
                assert(rest[k] == sig[tn + k]);
            }
            lemma_digits_value_zeros(rest);
            assert((m * q <= 3600000000000 * q) == (m <= 3600000000000)) by (nonlinear_arith)
                requires
                    q >= 1,
            {
            }
        } else {
            let k = choose|k: int| t <= k < d && #[trigger] sig[k] != 0;
            assert(rest[k - tn] == sig[k]);
            lemma_digits_value_nonzero(rest, k - tn);
            assert((m * q + r <= 3600000000000 * q) == (m < 3600000000000)) by (nonlinear_arith)
                requires
                    q >= 1,
                    0 < r < q,
            {
                if m < 3600000000000 {
                    assert(m * q <= 3599999999999 * q);
                } else {
                    assert(m * q >= 3600000000000 * q);
                }
            }
        }
    }
}


pub proof fn lemma_leading_zeros_exact(ds: Seq<u8>, z: int)
    requires
        0 <= z <= ds.len(),
        forall|i: int| 0 <= i < z ==> #[trigger] ds[i] == 0,
        z == ds.len() || ds[z] != 0,
    ensures
        leading_zeros(ds) == z,
    decreases z,
{
    if z > 0 {
        let r = ds.drop_first();
        assert forall|i: int| 0 <= i < z - 1 implies #[trigger] r[i] == 0 by {
            assert(r[i] == ds[i + 1]);
        }
        lemma_leading_zeros_exact(r, z - 1);
    }
}

/// Decides whether `digits_value(ds) * 10^scale` nanoseconds lies between one second and one
/// hour, and gives that value rounded down to whole nanoseconds when it does.
pub fn scale_to_ns(ds: &Vec<u8>, scale: i128) -> (r: Option<u64>)
    requires
        all_digits(ds@),
        -0x1_0000_0000_0000_0000_0000 < scale < 0x1_0000_0000_0000_0000_0000,
    ensures
        r is Some <==> ns_in_range(digits_value(ds@), scale as int),
        r matches Some(m) ==> m == ns_floor(digits_value(ds@), scale as int),
{
    let len = ds.len();
    let mut z: usize = 0;
    while z < len && ds[z] == 0
        invariant
            z <= len,
            len == ds@.len(),
            forall|i: int| 0 <= i < z ==> #[trigger] ds@[i] == 0,
        decreases len - z,
    {
        z = z + 1;
    }
    proof {
        lemma_leading_zeros_exact(ds@, z as int);
    }
    let ghost n = digits_value(ds@);
    if z == len {
        proof {
            lemma_digits_value_zeros(ds@);
            lemma_digits_value_bound(ds@);
            lemma_scale_magnitude(n, scale as int, 0, ds@.len());
        }
        return None;
    }
    let d = len - z;
    let ghost sig = ds@.skip(z as int);
    proof {
        lemma_digits_value_leading_zeros(ds@, z as int);
        assert(sig[0] == ds@[z as int]);
        assert(all_digits(sig));
        lemma_digits_value_lower(sig);
        lemma_digits_value_bound(sig);
    }
    let t: i128 = d as i128 + scale;
    if t < 10 || t > 13 {
        proof {
            lemma_scale_magnitude(n, scale as int, (d - 1) as nat, d as nat);
        }
        return None;
    }
    let tu: usize = t as usize;
    let mut m: u64 = 0;
    let mut k: usize = 0;
    while k < tu
        invariant
            tu == t,
            10 <= t <= 13,
            k <= tu,
            len == ds@.len(),
            z < len,
            d == len - z,
            sig == ds@.skip(z as int),
            all_digits(ds@),
            m == digits_value(padded_prefix(sig, k as nat)),
            m < pow10(k as nat),
        decreases tu - k,
    {
        let digit: u8 = if k < d { ds[z + k] } else { 0 };
        proof {
            assert(padded_prefix(sig, (k + 1) as nat).drop_last() =~= padded_prefix(sig, k as nat));
            assert(padded_prefix(sig, (k + 1) as nat).last() == digit);
            lemma_pow10_monotone(k as nat, 12);
            lemma_pow10_small();
            assert(m * 10 + digit < pow10(k as nat) * 10) by (nonlinear_arith)
                requires
                    m < pow10(k as nat),
                    digit < 10,
            {
            }
        }
        m = m * 10 + digit as u64;
        k = k + 1;
    }
    let mut exact = true;
    let start: usize = if tu < d { z + tu } else { len };
    let mut i: usize = start;
    while i < len
        invariant
            len == ds@.len(),
            start <= i <= len,
            start == (if tu < d { z + tu } else { len as int }),
            exact == (forall|j: int| start <= j < i ==> #[trigger] ds@[j] == 0),
        decreases len - i,
    {
        if ds[i] != 0 {
            exact = false;
        }
        i = i + 1;
    }
    proof {
        assert(exact == (forall|k: int|
            t <= k < ds@.len() - leading_zeros(ds@) ==> #[trigger] ds@.skip(
                leading_zeros(ds@) as int,
            )[k] == 0)) by {
            if exact {
                assert forall|k: int| t <= k < ds@.len() - z implies #[trigger] ds@.skip(z as int)[k] == 0 by {
                    assert(ds@.skip(z as int)[k] == ds@[z + k]);
                }
            } else {
                let j = choose|j: int| start <= j < i && #[trigger] ds@[j] != 0;
                assert(ds@.skip(z as int)[j - z] == ds@[j]);
            }
        }
        lemma_window(ds@, scale as int, m as nat, exact);
    }
    if m <= 3600000000000 && (exact || m < 3600000000000) {
        Some(m)
    } else {
        None
    }
}


/// A value in range rounds down to a whole number of nanoseconds that is still in range.
pub proof fn lemma_ns_floor_in_range(n: nat, scale: int)
    requires
        ns_in_range(n, scale),
    ensures
        1000000000 <= ns_floor(n, scale) <= 3600000000000,
{
    if scale < 0 {
        let q = pow10((-scale) as nat);
        lemma_pow10_positive((-scale) as nat);
        vstd::arithmetic::div_mod::lemma_div_is_ordered((1000000000 * q) as int, n as int, q as int);
        vstd::arithmetic::div_mod::lemma_div_is_ordered(n as int, (3600000000000 * q) as int, q as int);
        vstd::arithmetic::div_mod::lemma_div_by_multiple(1000000000, q as int);
        vstd::arithmetic::div_mod::lemma_div_by_multiple(3600000000000, q as int);
    }
}

} // verus!
