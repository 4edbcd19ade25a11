//! The decimal value of a number text, and the law that the numeric order
//! of number texts (`num_order`) is the order of their values.
//!
//! A finite number text stands for the signed integer of its mantissa
//! digits times a power of ten (`dec_digits`, `dec_exp`); the exponent is
//! read as `exponent_of` reads it, which is exact below a billion
//! (`law_exponent_is_capped_value`).
use vstd::prelude::*;
use crate::numbers::{
    body, exponent_of, frac_range, key_order, law_num_order_antisymmetric, mag_order, mantissa, num_key, num_order,
    sat_value, seq_order, skip_zeros, trim_zeros_end, NumKeyView, EXPONENT_CAP,
};
use crate::text::{ci_char_eq, ci_eq, digits_end, is_digit};

verus! {

/// Ten to the power `k` (1 for `k <= 0`).
pub open spec fn pow10(k: int) -> int
    decreases k,
{
    if k <= 0 {
        1
    } else {
        10 * pow10(k - 1)
    }
}

/// Value of a decimal digit character.
pub open spec fn digit_value(c: char) -> int {
    (c as u32) - 48
}

/// Value of a string of decimal digits, most significant first.
pub open spec fn digits_int(d: Seq<char>) -> int
    decreases d.len(),
{
    if d.len() == 0 {
        0
    } else {
        digits_int(d.drop_last()) * 10 + digit_value(d.last())
    }
}

/// `s` (after its sign) is `inf`, `infinity` or `nan` in some case.
pub open spec fn is_special(s: Seq<char>) -> bool {
    let b = body(s);
    ci_eq(b, seq!['i', 'n', 'f']) || ci_eq(b, seq!['i', 'n', 'f', 'i', 'n', 'i', 't', 'y']) || ci_eq(
        b,
        seq!['n', 'a', 'n'],
    )
}

/// The signed integer of the mantissa digits of a finite number text.
pub open spec fn dec_digits(s: Seq<char>) -> int {
    let n = digits_int(mantissa(body(s)));
    if s.len() > 0 && s[0] == '-' {
        -n
    } else {
        n
    }
}

/// The power of ten that `dec_digits(s)` is scaled by: the exponent, less
/// the number of fraction digits.
pub open spec fn dec_exp(s: Seq<char>) -> int {
    let b = body(s);
    digits_end(b, 0) + exponent_of(b) - mantissa(b).len()
}

/// Both values brought to the smaller of their two powers of ten.
pub open spec fn dec_scaled(x: Seq<char>, y: Seq<char>) -> (int, int) {
    let m = if dec_exp(x) <= dec_exp(y) {
        dec_exp(x)
    } else {
        dec_exp(y)
    };
    (dec_digits(x) * pow10(dec_exp(x) - m), dec_digits(y) * pow10(dec_exp(y) - m))
}

/// The value of `x` is below the value of `y`.
pub open spec fn dec_less(x: Seq<char>, y: Seq<char>) -> bool {
    dec_scaled(x, y).0 < dec_scaled(x, y).1
}

/// `x` and `y` have the same value.
pub open spec fn dec_same(x: Seq<char>, y: Seq<char>) -> bool {
    dec_scaled(x, y).0 == dec_scaled(x, y).1
}

proof fn lemma_pow10_pos(k: int)
    ensures
        pow10(k) >= 1,
    decreases k,
{
    if k > 0 {
        lemma_pow10_pos(k - 1);
    }
}

proof fn lemma_pow10_add(a: int, b: int)
    requires
        a >= 0,
        b >= 0,
    ensures
        pow10(a + b) == pow10(a) * pow10(b),
    decreases a,
{
    if a > 0 {
        lemma_pow10_add(a - 1, b);
        let p = pow10(a - 1);
        let q = pow10(b);
        assert(10 * (p * q) == (10 * p) * q) by (nonlinear_arith);
    }
}

proof fn lemma_pow10_mono(a: int, b: int)
    requires
        0 <= a <= b,
    ensures
        pow10(a) <= pow10(b),
    decreases b - a,
{
    if a < b {
        lemma_pow10_mono(a, b - 1);
        lemma_pow10_pos(b - 1);
    }
}

/// Every character is a decimal digit.
pub open spec fn all_digits(d: Seq<char>) -> bool {
    forall|q: int| 0 <= q < d.len() ==> is_digit(#[trigger] d[q])
}

proof fn lemma_digits_append(a: Seq<char>, b: Seq<char>)
    ensures
        digits_int(a + b) == digits_int(a) * pow10(b.len() as int) + digits_int(b),
    decreases b.len(),
{
    if b.len() == 0 {
        assert(a + b =~= a);
    } else {
        let b2 = b.drop_last();
        assert((a + b).drop_last() =~= a + b2);
        assert((a + b).last() == b.last());
        lemma_digits_append(a, b2);
        let x = digits_int(a);
        let p = pow10(b2.len() as int);
        let y = digits_int(b2);
        let d = digit_value(b.last());
        assert(pow10(b.len() as int) == 10 * p);
        assert((x * p + y) * 10 + d == x * (10 * p) + (y * 10 + d)) by (nonlinear_arith);
    }
}

proof fn lemma_digits_zero(d: Seq<char>)
    requires
        forall|q: int| 0 <= q < d.len() ==> #[trigger] d[q] == '0',
    ensures
        digits_int(d) == 0,
    decreases d.len(),
{
    if d.len() > 0 {
        let d2 = d.drop_last();
        assert forall|q: int| 0 <= q < d2.len() implies #[trigger] d2[q] == '0' by {
            assert(d2[q] == d[q]);
        }
        lemma_digits_zero(d2);
        assert(d.last() == d[d.len() - 1]);
    }
}

proof fn lemma_digits_upper(d: Seq<char>)
    requires
        all_digits(d),
    ensures
        0 <= digits_int(d) < pow10(d.len() as int),
    decreases d.len(),
{
    if d.len() > 0 {
        let d2 = d.drop_last();
        assert forall|q: int| 0 <= q < d2.len() implies is_digit(#[trigger] d2[q]) by {
            assert(d2[q] == d[q]);
        }
        lemma_digits_upper(d2);
        assert(is_digit(d[d.len() - 1]));
        let x = digits_int(d2);
        let p = pow10(d2.len() as int);
        let v = digit_value(d.last());
        assert(0 <= v <= 9);
        assert(0 <= x * 10 + v < 10 * p) by (nonlinear_arith)
            requires
                0 <= x < p,
                0 <= v <= 9,
        ;
    }
}

proof fn lemma_not_zero_digit(c: char)
    requires
        c != '0',
    ensures
        (c as u32) != 48,
{
}

proof fn lemma_digits_single(c: char)
    ensures
        digits_int(seq![c]) == digit_value(c),
{
    let s = seq![c];
    assert(s.drop_last() =~= Seq::<char>::empty());
    assert(s.last() == c);
    assert(digits_int(s.drop_last()) == 0);
}

/// A digit string without a leading zero has exactly its length in digits.
proof fn lemma_digits_lower(d: Seq<char>)
    requires
        d.len() >= 1,
        all_digits(d),
        d[0] != '0',
    ensures
        pow10(d.len() - 1) <= digits_int(d) < pow10(d.len() as int),
{
    lemma_digits_upper(d);
    let r = d.subrange(1, d.len() as int);
    assert(d =~= seq![d[0]] + r);
    lemma_digits_append(seq![d[0]], r);
    lemma_digits_single(d[0]);
    assert forall|q: int| 0 <= q < r.len() implies is_digit(#[trigger] r[q]) by {
        assert(r[q] == d[q + 1]);
    }
    lemma_digits_upper(r);
    assert(is_digit(d[0]));
    let v = digit_value(d[0]);
    let p = pow10(r.len() as int);
    lemma_not_zero_digit(d[0]);
    assert(v >= 1);
    assert(v * p >= p) by (nonlinear_arith)
        requires
            v >= 1,
            p >= 0,
    ;
}

/// On digit strings of one length, the lexicographic order from index `i`
/// is the order of the values of the tails.
proof fn lemma_lex(u: Seq<char>, v: Seq<char>, i: int)
    requires
        u.len() == v.len(),
        0 <= i <= u.len(),
        all_digits(u),
        all_digits(v),
    ensures
        seq_order(u, v, i) < 0 <==> digits_int(u.subrange(i, u.len() as int)) < digits_int(
            v.subrange(i, v.len() as int),
        ),
        seq_order(u, v, i) == 0 <==> digits_int(u.subrange(i, u.len() as int)) == digits_int(
            v.subrange(i, v.len() as int),
        ),
    decreases u.len() - i,
{
    let n = u.len() as int;
    if i == n {
        assert(u.subrange(i, n) =~= Seq::<char>::empty());
        assert(v.subrange(i, n) =~= Seq::<char>::empty());
    } else {
        lemma_lex(u, v, i + 1);
        let ur = u.subrange(i + 1, n);
        let vr = v.subrange(i + 1, n);
        assert(u.subrange(i, n) =~= seq![u[i]] + ur);
        assert(v.subrange(i, n) =~= seq![v[i]] + vr);
        lemma_digits_append(seq![u[i]], ur);
        lemma_digits_append(seq![v[i]], vr);
        lemma_digits_single(u[i]);
        lemma_digits_single(v[i]);
        assert forall|q: int| 0 <= q < ur.len() implies is_digit(#[trigger] ur[q]) by {
            assert(ur[q] == u[q + i + 1]);
        }
        assert forall|q: int| 0 <= q < vr.len() implies is_digit(#[trigger] vr[q]) by {
            assert(vr[q] == v[q + i + 1]);
        }
        lemma_digits_upper(ur);
        lemma_digits_upper(vr);
        assert(is_digit(u[i]) && is_digit(v[i]));
        let p = pow10(n - i - 1);
        let du = digit_value(u[i]);
        let dv = digit_value(v[i]);
        let a = digits_int(ur);
        let b = digits_int(vr);
        if du < dv {
            assert(du * p + a < dv * p + b) by (nonlinear_arith)
                requires
                    du < dv,
                    0 <= a < p,
                    0 <= b,
            ;
        } else if du > dv {
            assert(du * p + a > dv * p + b) by (nonlinear_arith)
                requires
                    du > dv,
                    0 <= b < p,
                    0 <= a,
            ;
        }
    }
}

/// From `i` on, `z` holds zeros only and `w` a digit that is not zero at
/// `k`: `z` comes first.
proof fn lemma_zeros_first(z: Seq<char>, w: Seq<char>, i: int, k: int)
    requires
        z.len() == w.len(),
        0 <= i <= k < w.len(),
        w[k] != '0',
        all_digits(w),
        forall|q: int| i <= q < z.len() ==> #[trigger] z[q] == '0',
    ensures
        seq_order(z, w, i) == -1,
    decreases k - i,
{
    assert(is_digit(w[i]));
    if w[i] != '0' {
        lemma_not_zero_digit(w[i]);
    } else {
        lemma_zeros_first(z, w, i + 1, k);
    }
}

proof fn lemma_equal_tails(u: Seq<char>, v: Seq<char>, i: int)
    requires
        u.len() == v.len(),
        0 <= i <= u.len(),
        forall|q: int| i <= q < u.len() ==> #[trigger] u[q] == v[q],
    ensures
        seq_order(u, v, i) == 0,
    decreases u.len() - i,
{
    if i < u.len() {
        lemma_equal_tails(u, v, i + 1);
    }
}

/// `p` is `s` followed by zeros.
pub open spec fn zero_padded(p: Seq<char>, s: Seq<char>) -> bool {
    &&& s.len() <= p.len()
    &&& forall|q: int| 0 <= q < s.len() ==> #[trigger] p[q] == s[q]
    &&& forall|q: int| s.len() <= q < p.len() ==> #[trigger] p[q] == '0'
}

/// Padding two digit strings that end in a non-zero digit with zeros to one
/// length keeps their lexicographic order.
proof fn lemma_padding_keeps_order(s1: Seq<char>, s2: Seq<char>, p1: Seq<char>, p2: Seq<char>, i: int)
    requires
        s1.len() >= 1,
        s2.len() >= 1,
        s1.last() != '0',
        s2.last() != '0',
        all_digits(p1),
        all_digits(p2),
        zero_padded(p1, s1),
        zero_padded(p2, s2),
        p1.len() == p2.len(),
        0 <= i <= p1.len(),
    ensures
        seq_order(s1, s2, i) == seq_order(p1, p2, i),
    decreases p1.len() - i,
{
    if i >= s1.len() && i >= s2.len() {
        lemma_equal_tails(p1, p2, i);
    } else if i >= s1.len() {
        assert(p2[s2.len() - 1] == s2.last());
        lemma_zeros_first(p1, p2, i, s2.len() - 1);
    } else if i >= s2.len() {
        assert(p1[s1.len() - 1] == s1.last());
        lemma_zeros_first(p2, p1, i, s1.len() - 1);
        crate::numbers::lemma_seq_order_antisymmetric(p1, p2, i);
    } else {
        assert(p1[i] == s1[i] && p2[i] == s2[i]);
        lemma_padding_keeps_order(s1, s2, p1, p2, i + 1);
    }
}

proof fn lemma_digits_end(s: Seq<char>, i: int)
    requires
        0 <= i <= s.len(),
    ensures
        i <= digits_end(s, i) <= s.len(),
        forall|q: int| i <= q < digits_end(s, i) ==> is_digit(#[trigger] s[q]),
    decreases s.len() - i,
{
    if i < s.len() && is_digit(s[i]) {
        lemma_digits_end(s, i + 1);
    }
}

proof fn lemma_mantissa_digits(b: Seq<char>)
    ensures
        all_digits(mantissa(b)),
        mantissa(b).len() == digits_end(b, 0) + frac_range(b).1 - frac_range(b).0,
{
    lemma_digits_end(b, 0);
    let a = digits_end(b, 0);
    if a < b.len() && b[a] == '.' {
        lemma_digits_end(b, a + 1);
    }
    let (fs, fe) = frac_range(b);
    let m = mantissa(b);
    assert forall|q: int| 0 <= q < m.len() implies is_digit(#[trigger] m[q]) by {
        if q < a {
            assert(m[q] == b[q]);
        } else {
            assert(m[q] == b[fs + q - a]);
        }
    }
}

proof fn lemma_skip_zeros_prefix(d: Seq<char>, i: int)
    requires
        0 <= i <= d.len(),
    ensures
        i <= skip_zeros(d, i) <= d.len(),
        forall|q: int| i <= q < skip_zeros(d, i) ==> #[trigger] d[q] == '0',
        skip_zeros(d, i) < d.len() ==> d[skip_zeros(d, i)] != '0',
    decreases d.len() - i,
{
    if i < d.len() && d[i] == '0' {
        lemma_skip_zeros_prefix(d, i + 1);
    }
}

proof fn lemma_trim_zeros_suffix(d: Seq<char>, j: int)
    requires
        0 <= j <= d.len(),
    ensures
        0 <= trim_zeros_end(d, j) <= j,
        forall|q: int| trim_zeros_end(d, j) <= q < j ==> #[trigger] d[q] == '0',
        trim_zeros_end(d, j) > 0 ==> d[trim_zeros_end(d, j) - 1] != '0',
    decreases j,
{
    if j > 0 && d[j - 1] == '0' {
        lemma_trim_zeros_suffix(d, j - 1);
    }
}

/// A string of significant digits: non-empty, digits only, no leading or
/// trailing zero.
pub open spec fn sig_ok(sig: Seq<char>) -> bool {
    &&& sig.len() >= 1
    &&& all_digits(sig)
    &&& sig[0] != '0'
    &&& sig.last() != '0'
}

/// What the sort key of a finite number text says of its value: the rank
/// is the sign, and the magnitude is `0.sig * 10^p`, the mantissa digits
/// being `sig` followed by `t` zeros.
proof fn lemma_text_value(s: Seq<char>) -> (t: int)
    requires
        !is_special(s),
    ensures
        ({
            let k = num_key(s);
            let n = dec_digits(s);
            &&& 1 <= k.rank <= 3
            &&& (k.rank == 1 <==> n < 0)
            &&& (k.rank == 2 <==> n == 0)
            &&& (k.rank == 3 <==> n > 0)
            &&& (k.rank != 2 ==> {
                &&& t >= 0
                &&& sig_ok(k.sig)
                &&& (if k.rank == 3 { n } else { -n }) == digits_int(k.sig) * pow10(t)
                &&& dec_exp(s) + t == k.p - k.sig.len()
            })
        }),
{
    let b = body(s);
    let d = mantissa(b);
    let a = digits_end(b, 0);
    let lead = skip_zeros(d, 0);
    let end = trim_zeros_end(d, d.len() as int);
    lemma_mantissa_digits(b);
    lemma_skip_zeros_prefix(d, 0);
    lemma_trim_zeros_suffix(d, d.len() as int);
    let k = num_key(s);
    if lead >= d.len() {
        lemma_digits_zero(d);
        0
    } else {
        crate::numbers::lemma_trim_after_lead(d, lead, d.len() as int);
        let sig = d.subrange(lead, end);
        assert(k.sig == sig);
        let z1 = d.subrange(0, lead);
        let z2 = d.subrange(end, d.len() as int);
        assert(d =~= (z1 + sig) + z2);
        assert forall|q: int| 0 <= q < z1.len() implies #[trigger] z1[q] == '0' by {
            assert(z1[q] == d[q]);
        }
        assert forall|q: int| 0 <= q < z2.len() implies #[trigger] z2[q] == '0' by {
            assert(z2[q] == d[q + end]);
        }
        lemma_digits_zero(z1);
        lemma_digits_zero(z2);
        lemma_digits_append(z1 + sig, z2);
        lemma_digits_append(z1, sig);
        assert forall|q: int| 0 <= q < sig.len() implies is_digit(#[trigger] sig[q]) by {
            assert(sig[q] == d[q + lead]);
        }
        assert(sig[0] == d[lead]);
        assert(sig.last() == d[end - 1]);
        lemma_digits_lower(sig);
        lemma_pow10_pos(d.len() - end);
        let t = d.len() - end;
        let sv = digits_int(sig);
        assert(digits_int(d) == sv * pow10(t));
        assert(sv * pow10(t) > 0) by (nonlinear_arith)
            requires
                sv >= 1,
                pow10(t) >= 1,
        ;
        t
    }
}

/// Of two magnitudes `0.sig * 10^p`, the one with the smaller `p` is the
/// smaller.
proof fn lemma_mag_exponent(x: NumKeyView, y: NumKeyView, m: int)
    requires
        sig_ok(x.sig),
        sig_ok(y.sig),
        m <= x.p - x.sig.len(),
        m <= y.p - y.sig.len(),
        x.p < y.p,
    ensures
        digits_int(x.sig) * pow10(x.p - x.sig.len() - m) < digits_int(y.sig) * pow10(y.p - y.sig.len() - m),
{
    let lx = x.sig.len() as int;
    let ly = y.sig.len() as int;
    let ex = x.p - lx - m;
    let ey = y.p - ly - m;
    lemma_digits_lower(x.sig);
    lemma_digits_lower(y.sig);
    lemma_pow10_add(lx, ex);
    lemma_pow10_add(ly - 1, ey);
    lemma_pow10_mono(x.p - m, y.p - 1 - m);
    lemma_pow10_pos(ex);
    lemma_pow10_pos(ey);
    let sx = digits_int(x.sig);
    let sy = digits_int(y.sig);
    let px = pow10(ex);
    let py = pow10(ey);
    assert(sx * px < pow10(lx) * px) by (nonlinear_arith)
        requires
            sx < pow10(lx),
            px >= 1,
    ;
    assert(pow10(ly - 1) * py <= sy * py) by (nonlinear_arith)
        requires
            pow10(ly - 1) <= sy,
            py >= 1,
    ;
}

/// `mag_order` is the order of the magnitudes `0.sig * 10^p`, compared at
/// any common power of ten `m` below both.
proof fn lemma_mag(x: NumKeyView, y: NumKeyView, m: int)
    requires
        sig_ok(x.sig),
        sig_ok(y.sig),
        m <= x.p - x.sig.len(),
        m <= y.p - y.sig.len(),
    ensures
        mag_order(x, y) < 0 <==> digits_int(x.sig) * pow10(x.p - x.sig.len() - m) < digits_int(y.sig) * pow10(
            y.p - y.sig.len() - m,
        ),
{
    if x.p < y.p {
        lemma_mag_exponent(x, y, m);
    } else if x.p > y.p {
        lemma_mag_exponent(y, x, m);
    } else {
        let lx = x.sig.len() as int;
        let ly = y.sig.len() as int;
        let lm = if lx <= ly { ly } else { lx };
        let p1 = x.sig + Seq::new((lm - lx) as nat, |q: int| '0');
        let p2 = y.sig + Seq::new((lm - ly) as nat, |q: int| '0');
        let z1 = Seq::new((lm - lx) as nat, |q: int| '0');
        let z2 = Seq::new((lm - ly) as nat, |q: int| '0');
        assert(p1 == x.sig + z1);
        assert(p2 == y.sig + z2);
        assert forall|q: int| 0 <= q < z1.len() implies #[trigger] z1[q] == '0' by {}
        assert forall|q: int| 0 <= q < z2.len() implies #[trigger] z2[q] == '0' by {}
        lemma_digits_zero(z1);
        lemma_digits_zero(z2);
        lemma_digits_append(x.sig, z1);
        lemma_digits_append(y.sig, z2);
        assert forall|q: int| 0 <= q < p1.len() implies is_digit(#[trigger] p1[q]) by {
            if q < lx {
                assert(p1[q] == x.sig[q]);
            } else {
                assert(p1[q] == z1[q - lx]);
            }
        }
        assert forall|q: int| 0 <= q < p2.len() implies is_digit(#[trigger] p2[q]) by {
            if q < ly {
                assert(p2[q] == y.sig[q]);
            } else {
                assert(p2[q] == z2[q - ly]);
            }
        }
        assert(zero_padded(p1, x.sig));
        assert(zero_padded(p2, y.sig));
        lemma_padding_keeps_order(x.sig, y.sig, p1, p2, 0);
        lemma_lex(p1, p2, 0);
        assert(p1.subrange(0, lm) =~= p1);
        assert(p2.subrange(0, lm) =~= p2);
        let e = x.p - lm - m;
        lemma_pow10_add(lm - lx, e);
        lemma_pow10_add(lm - ly, e);
        lemma_pow10_pos(e);
        let q = pow10(e);
        let sx = digits_int(x.sig);
        let sy = digits_int(y.sig);
        let ax = pow10(lm - lx);
        let ay = pow10(lm - ly);
        assert(sx * (ax * q) == (sx * ax) * q) by (nonlinear_arith);
        assert(sy * (ay * q) == (sy * ay) * q) by (nonlinear_arith);
        assert((sx * ax) * q < (sy * ay) * q <==> sx * ax < sy * ay) by (nonlinear_arith)
            requires
                q >= 1,
        ;
    }
}

/// `num_order` on finite texts is the order of their values (one way).
proof fn lemma_less(x: Seq<char>, y: Seq<char>)
    requires
        !is_special(x),
        !is_special(y),
    ensures
        num_order(x, y) < 0 <==> dec_less(x, y),
{
    let tx = lemma_text_value(x);
    let ty = lemma_text_value(y);
    let kx = num_key(x);
    let ky = num_key(y);
    let ex = dec_exp(x);
    let ey = dec_exp(y);
    let m = if ex <= ey { ex } else { ey };
    let nx = dec_digits(x);
    let ny = dec_digits(y);
    lemma_pow10_pos(ex - m);
    lemma_pow10_pos(ey - m);
    let qx = pow10(ex - m);
    let qy = pow10(ey - m);
    assert(nx < 0 ==> nx * qx < 0) by (nonlinear_arith)
        requires
            qx >= 1,
    ;
    assert(nx > 0 ==> nx * qx > 0) by (nonlinear_arith)
        requires
            qx >= 1,
    ;
    assert(ny < 0 ==> ny * qy < 0) by (nonlinear_arith)
        requires
            qy >= 1,
    ;
    assert(ny > 0 ==> ny * qy > 0) by (nonlinear_arith)
        requires
            qy >= 1,
    ;
    assert(nx == 0 ==> nx * qx == 0) by (nonlinear_arith);
    assert(ny == 0 ==> ny * qy == 0) by (nonlinear_arith);
    assert(dec_scaled(x, y) == (nx * qx, ny * qy));
    if kx.rank == ky.rank && kx.rank != 2 {
        let sx = digits_int(kx.sig);
        let sy = digits_int(ky.sig);
        lemma_pow10_add(tx, ex - m);
        lemma_pow10_add(ty, ey - m);
        let ux = pow10(tx);
        let uy = pow10(ty);
        assert(ex - m + tx == kx.p - kx.sig.len() - m);
        assert(ey - m + ty == ky.p - ky.sig.len() - m);
        assert((sx * ux) * qx == sx * (ux * qx)) by (nonlinear_arith);
        assert((sy * uy) * qy == sy * (uy * qy)) by (nonlinear_arith);
        if kx.rank == 3 {
            lemma_mag(kx, ky, m);
            assert(nx * qx == sx * pow10(kx.p - kx.sig.len() - m));
            assert(ny * qy == sy * pow10(ky.p - ky.sig.len() - m));
            assert(num_order(x, y) == mag_order(kx, ky));
            assert(num_order(x, y) < 0 <==> dec_less(x, y));
        } else {
            lemma_mag(ky, kx, m);
            assert(nx * qx == -((sx * ux) * qx)) by (nonlinear_arith)
                requires
                    nx == -(sx * ux),
            ;
            assert(ny * qy == -((sy * uy) * qy)) by (nonlinear_arith)
                requires
                    ny == -(sy * uy),
            ;
            assert(num_order(x, y) == mag_order(ky, kx));
            assert(num_order(x, y) < 0 <==> dec_less(x, y));
        }
    } else if kx.rank == ky.rank {
        assert(num_order(x, y) == 0);
        assert(num_order(x, y) < 0 <==> dec_less(x, y));
    } else {
        assert(num_order(x, y) < 0 <==> kx.rank < ky.rank);
        assert(num_order(x, y) < 0 <==> dec_less(x, y));
    }
}

/// The numeric order of two finite number texts is the order of their
/// decimal values: `x` comes first exactly when its value is smaller, and
/// they tie exactly when the values are equal.
pub proof fn law_num_order_is_value_order(x: Seq<char>, y: Seq<char>)
    requires
        !is_special(x),
        !is_special(y),
    ensures
        num_order(x, y) < 0 <==> dec_less(x, y),
        num_order(x, y) == 0 <==> dec_same(x, y),
        num_order(x, y) > 0 <==> dec_less(y, x),
{
    lemma_less(x, y);
    lemma_less(y, x);
    law_num_order_antisymmetric(x, y);
}

/// The exponent digits `b[i..j]` are read as their decimal value, capped at
/// a billion (`EXPONENT_CAP`).
pub proof fn law_exponent_is_capped_value(b: Seq<char>, i: int, j: int)
    requires
        0 <= i <= j <= b.len(),
        forall|q: int| i <= q < j ==> is_digit(#[trigger] b[q]),
    ensures
        sat_value(b, i, j) == (if digits_int(b.subrange(i, j)) > EXPONENT_CAP {
            EXPONENT_CAP as int
        } else {
            digits_int(b.subrange(i, j))
        }),
    decreases j - i,
{
    if j > i {
        law_exponent_is_capped_value(b, i, j - 1);
        let u = b.subrange(i, j);
        let w = b.subrange(i, j - 1);
        assert(u.drop_last() =~= w);
        assert(u.last() == b[j - 1]);
        assert forall|q: int| 0 <= q < w.len() implies is_digit(#[trigger] w[q]) by {
            assert(w[q] == b[q + i]);
        }
        lemma_digits_upper(w);
        assert(is_digit(b[j - 1]));
    }
}

/// Where infinities and NaN go: minus infinity before every finite number,
/// plus infinity and NaN after every finite number, NaN after plus
/// infinity.
pub proof fn law_special_order(x: Seq<char>, y: Seq<char>)
    requires
        !is_special(x),
        is_special(y),
    ensures
        (y.len() > 0 && y[0] == '-' && !ci_eq(body(y), seq!['n', 'a', 'n'])) ==> num_order(y, x) < 0,
        !(y.len() > 0 && y[0] == '-' && !ci_eq(body(y), seq!['n', 'a', 'n'])) ==> num_order(x, y) < 0,
        ci_eq(body(y), seq!['n', 'a', 'n']) ==> forall|z: Seq<char>|
            !ci_eq(body(z), seq!['n', 'a', 'n']) ==> #[trigger] num_order(z, y) < 0,
{
    let _ = lemma_text_value(x);
    lemma_nan_is_not_inf(body(y));
    assert forall|z: Seq<char>| !ci_eq(body(z), seq!['n', 'a', 'n']) implies (ci_eq(body(y), seq!['n', 'a', 'n'])
        ==> #[trigger] num_order(z, y) < 0) by {
        lemma_nan_is_not_inf(body(y));
    }
}

proof fn lemma_nan_is_not_inf(b: Seq<char>)
    ensures
        ci_eq(b, seq!['n', 'a', 'n']) ==> !ci_eq(b, seq!['i', 'n', 'f']) && !ci_eq(
            b,
            seq!['i', 'n', 'f', 'i', 'n', 'i', 't', 'y'],
        ),
{
    if ci_eq(b, seq!['n', 'a', 'n']) && ci_eq(b, seq!['i', 'n', 'f']) {
        assert(ci_char_eq(b[0], seq!['n', 'a', 'n'][0]));
        assert(ci_char_eq(b[0], seq!['i', 'n', 'f'][0]));
    }
}

} // verus!
