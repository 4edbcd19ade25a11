//! The numeric order of number texts (as `is_number_text` accepts them):
//! minus infinity, negative numbers, zero, positive numbers, plus infinity,
//! and NaN last. Finite numbers are compared by their decimal values; an
//! exponent beyond a billion in size counts as a billion, which keeps the
//! order monotone in the true value.
use vstd::prelude::*;
use crate::text::{ci_eq, ci_eq_exec, digits_end, digits_end_exec, is_digit, sub_chars};

verus! {

/// Largest exponent size that is told apart.
pub const EXPONENT_CAP: i64 = 1_000_000_000;

/// Length of the leading sign (0 or 1).
pub open spec fn sign_len(s: Seq<char>) -> int {
    if s.len() > 0 && (s[0] == '+' || s[0] == '-') { 1 } else { 0 }
}

/// The text after its sign.
pub open spec fn body(s: Seq<char>) -> Seq<char> {
    s.subrange(sign_len(s), s.len() as int)
}

/// Start and end of the fraction digits of a decimal body whose integer
/// digits end at `a` (both `a` when there is no point).
pub open spec fn frac_range(b: Seq<char>) -> (int, int) {
    let a = digits_end(b, 0);
    if a < b.len() && b[a] == '.' { (a + 1, digits_end(b, a + 1)) } else { (a, a) }
}

/// All mantissa digits of a decimal body, integer then fraction part.
pub open spec fn mantissa(b: Seq<char>) -> Seq<char> {
    let a = digits_end(b, 0);
    let (fs, fe) = frac_range(b);
    b.subrange(0, a) + b.subrange(fs, fe)
}

/// Value of the digits `b[i..j]`, saturated at `EXPONENT_CAP`.
pub open spec fn sat_value(b: Seq<char>, i: int, j: int) -> int
    decreases j - i,
{
    if j <= i {
        0
    } else {
        let d = if is_digit(b[j - 1]) { (b[j - 1] as u32) - 48 } else { 0 };
        let v = sat_value(b, i, j - 1) * 10 + d;
        if v > EXPONENT_CAP { EXPONENT_CAP as int } else { v }
    }
}

/// The (saturated) exponent of a decimal body: 0 without one.
pub open spec fn exponent_of(b: Seq<char>) -> int {
    let fe = frac_range(b).1;
    if fe >= b.len() {
        0
    } else {
        let neg = fe + 1 < b.len() && b[fe + 1] == '-';
        let c = if fe + 1 < b.len() && (b[fe + 1] == '+' || b[fe + 1] == '-') { fe + 2 } else { fe + 1 };
        let v = sat_value(b, c, b.len() as int);
        if neg { -v } else { v }
    }
}

/// First index at or after `i` whose digit is not `0`.
pub open spec fn skip_zeros(d: Seq<char>, i: int) -> int
    decreases d.len() - i,
{
    if i >= d.len() || i < 0 {
        d.len() as int
    } else if d[i] == '0' {
        skip_zeros(d, i + 1)
    } else {
        i
    }
}

/// End of `d[..j]` without its trailing `0` digits.
pub open spec fn trim_zeros_end(d: Seq<char>, j: int) -> int
    decreases j,
{
    if j <= 0 || j > d.len() {
        if j > d.len() { d.len() as int } else { 0 }
    } else if d[j - 1] == '0' {
        trim_zeros_end(d, j - 1)
    } else {
        j
    }
}

/// Sort key of a number text: its rank (0 minus infinity, 1 negative,
/// 2 zero, 3 positive, 4 plus infinity, 5 NaN) and, for a non-zero finite
/// number `0.sig * 10^p`, its significant digits `sig` (no leading or
/// trailing zeros) and `p`.
pub struct NumKeyView {
    pub rank: int,
    pub p: int,
    pub sig: Seq<char>,
}

pub open spec fn num_key(s: Seq<char>) -> NumKeyView {
    let b = body(s);
    let neg = s.len() > 0 && s[0] == '-';
    if ci_eq(b, seq!['i', 'n', 'f']) || ci_eq(b, seq!['i', 'n', 'f', 'i', 'n', 'i', 't', 'y']) {
        NumKeyView { rank: if neg { 0 } else { 4 }, p: 0, sig: Seq::empty() }
    } else if ci_eq(b, seq!['n', 'a', 'n']) {
        NumKeyView { rank: 5, p: 0, sig: Seq::empty() }
    } else {
        let d = mantissa(b);
        let lead = skip_zeros(d, 0);
        let end = trim_zeros_end(d, d.len() as int);
        if lead >= d.len() {
            NumKeyView { rank: 2, p: 0, sig: Seq::empty() }
        } else {
            NumKeyView {
                rank: if neg { 1 } else { 3 },
                p: digits_end(b, 0) - lead + exponent_of(b),
                sig: d.subrange(lead, end),
            }
        }
    }
}

/// Lexicographic order of digit sequences from index `i` (a proper prefix
/// comes first): -1, 0 or 1.
pub open spec fn seq_order(a: Seq<char>, b: Seq<char>, i: int) -> int
    decreases (if a.len() >= b.len() { a.len() } else { b.len() }) - i,
{
    if i < 0 || (i >= a.len() && i >= b.len()) {
        0
    } else if i >= a.len() {
        -1
    } else if i >= b.len() {
        1
    } else if (a[i] as u32) < (b[i] as u32) {
        -1
    } else if (a[i] as u32) > (b[i] as u32) {
        1
    } else {
        seq_order(a, b, i + 1)
    }
}

/// Order of the magnitudes `0.sig * 10^p` of two non-zero numbers.
pub open spec fn mag_order(x: NumKeyView, y: NumKeyView) -> int {
    if x.p < y.p {
        -1
    } else if x.p > y.p {
        1
    } else {
        seq_order(x.sig, y.sig, 0)
    }
}

/// Order of two keys: -1, 0 or 1.
pub open spec fn key_order(x: NumKeyView, y: NumKeyView) -> int {
    if x.rank < y.rank {
        -1
    } else if x.rank > y.rank {
        1
    } else if x.rank == 3 {
        mag_order(x, y)
    } else if x.rank == 1 {
        mag_order(y, x)
    } else {
        0
    }
}

/// The numeric order of two number texts: -1, 0 or 1.
pub open spec fn num_order(a: Seq<char>, b: Seq<char>) -> int {
    key_order(num_key(a), num_key(b))
}

pub proof fn lemma_seq_order_antisymmetric(a: Seq<char>, b: Seq<char>, i: int)
    ensures
        seq_order(a, b, i) == -seq_order(b, a, i),
    decreases (if a.len() >= b.len() { a.len() } else { b.len() }) - i,
{
    if !(i < 0 || (i >= a.len() && i >= b.len())) && i < a.len() && i < b.len() && (a[i] as u32) == (b[i] as u32) {
        lemma_seq_order_antisymmetric(a, b, i + 1);
    }
}

/// Comparing the other way round gives the opposite answer.
pub proof fn law_num_order_antisymmetric(a: Seq<char>, b: Seq<char>)
    ensures
        num_order(a, b) == -num_order(b, a),
        -1 <= num_order(a, b) <= 1,
{
    lemma_seq_order_antisymmetric(num_key(a).sig, num_key(b).sig, 0);
    lemma_seq_order_antisymmetric(num_key(b).sig, num_key(a).sig, 0);
    lemma_seq_order_range(num_key(a).sig, num_key(b).sig, 0);
    lemma_seq_order_range(num_key(b).sig, num_key(a).sig, 0);
}

pub proof fn lemma_seq_order_range(a: Seq<char>, b: Seq<char>, i: int)
    ensures
        -1 <= seq_order(a, b, i) <= 1,
    decreases (if a.len() >= b.len() { a.len() } else { b.len() }) - i,
{
    if !(i < 0 || (i >= a.len() && i >= b.len())) && i < a.len() && i < b.len() && (a[i] as u32) == (b[i] as u32) {
        lemma_seq_order_range(a, b, i + 1);
    }
}

/// `seq_order` chains: `a <= b <= c` gives `a <= c`, equal only when both
/// steps are.
pub proof fn lemma_seq_order_transitive(a: Seq<char>, b: Seq<char>, c: Seq<char>, i: int)
    requires
        seq_order(a, b, i) <= 0,
        seq_order(b, c, i) <= 0,
    ensures
        seq_order(a, c, i) <= 0,
        seq_order(a, c, i) == 0 ==> seq_order(a, b, i) == 0 && seq_order(b, c, i) == 0,
    decreases a.len() + b.len() + c.len() - 3 * i,
{
    if i >= 0 && i < a.len() && i < b.len() && i < c.len() && (a[i] as u32) == (b[i] as u32) && (b[i] as u32)
        == (c[i] as u32) {
        lemma_seq_order_transitive(a, b, c, i + 1);
    }
}

/// The numeric order chains: `a <= b <= c` gives `a <= c`, and `a` and
/// `c` are equal only when all three are.
pub proof fn law_num_order_transitive(a: Seq<char>, b: Seq<char>, c: Seq<char>)
    requires
        num_order(a, b) <= 0,
        num_order(b, c) <= 0,
    ensures
        num_order(a, c) <= 0,
        num_order(a, c) == 0 ==> num_order(a, b) == 0 && num_order(b, c) == 0,
{
    let x = num_key(a);
    let y = num_key(b);
    let z = num_key(c);
    if x.rank == y.rank && y.rank == z.rank {
        if x.rank == 3 && x.p == y.p && y.p == z.p {
            lemma_seq_order_transitive(x.sig, y.sig, z.sig, 0);
        } else if x.rank == 1 && x.p == y.p && y.p == z.p {
            lemma_seq_order_transitive(z.sig, y.sig, x.sig, 0);
        }
    }
}

/// The key of a number text, as computed.
pub struct NumKey {
    pub rank: u8,
    pub p: i128,
    pub sig: Vec<char>,
}

impl View for NumKey {
    type V = NumKeyView;

    open spec fn view(&self) -> NumKeyView {
        NumKeyView { rank: self.rank as int, p: self.p as int, sig: self.sig@ }
    }
}

pub proof fn lemma_sat_value_range(b: Seq<char>, i: int, j: int)
    ensures
        0 <= sat_value(b, i, j) <= EXPONENT_CAP,
    decreases j - i,
{
    if j > i {
        lemma_sat_value_range(b, i, j - 1);
    }
}

fn sat_value_exec(b: &[char], i: usize, j: usize) -> (r: i64)
    requires
        i <= j <= b@.len(),
    ensures
        r == sat_value(b@, i as int, j as int),
        0 <= r <= EXPONENT_CAP,
{
    let mut v: i64 = 0;
    let mut k = i;
    while k < j
        invariant
            i <= k <= j <= b@.len(),
            v == sat_value(b@, i as int, k as int),
            0 <= v <= EXPONENT_CAP,
        decreases j - k,
    {
        let c = b[k];
        let u = c as u32;
        let d: i64 = if 48 <= u && u <= 57 { (u - 48) as i64 } else { 0 };
        let w = v * 10 + d;
        v = if w > EXPONENT_CAP { EXPONENT_CAP } else { w };
        k = k + 1;
    }
    v
}

fn skip_zeros_exec(d: &[char]) -> (r: usize)
    ensures
        r == skip_zeros(d@, 0),
        r <= d@.len(),
{
    let mut k: usize = 0;
    while k < d.len()
        invariant
            k <= d@.len(),
            skip_zeros(d@, 0) == skip_zeros(d@, k as int),
        decreases d@.len() - k,
    {
        if d[k] != '0' {
            return k;
        }
        k = k + 1;
    }
    k
}

fn trim_zeros_end_exec(d: &[char]) -> (r: usize)
    ensures
        r == trim_zeros_end(d@, d@.len() as int),
        r <= d@.len(),
{
    let mut j = d.len();
    while j > 0
        invariant
            j <= d@.len(),
            trim_zeros_end(d@, d@.len() as int) == trim_zeros_end(d@, j as int),
        ensures
            j <= d@.len(),
            trim_zeros_end(d@, d@.len() as int) == trim_zeros_end(d@, j as int),
            j == 0 || d@[j - 1] != '0',
        decreases j,
    {
        if d[j - 1] != '0' {
            break;
        }
        j = j - 1;
    }
    j
}

/// Whether the digits `d` hold a non-zero digit: then the trimmed end lies
/// after the first such digit.
pub proof fn lemma_trim_after_lead(d: Seq<char>, lead: int, j: int)
    requires
        0 <= lead < j <= d.len(),
        d[lead] != '0',
    ensures
        lead < trim_zeros_end(d, j) <= j,
    decreases j,
{
    if d[j - 1] == '0' {
        assert(j - 1 != lead);
        lemma_trim_after_lead(d, lead, j - 1);
    }
}

proof fn lemma_skip_zeros_facts(d: Seq<char>, i: int)
    requires
        0 <= i <= d.len(),
    ensures
        i <= skip_zeros(d, i) <= d.len(),
        skip_zeros(d, i) < d.len() ==> d[skip_zeros(d, i)] != '0',
    decreases d.len() - i,
{
    if i < d.len() && d[i] == '0' {
        lemma_skip_zeros_facts(d, i + 1);
    }
}

/// The sort key of a number text.
pub fn num_key_of(s: &[char]) -> (r: NumKey)
    ensures
        r@ == num_key(s@),
{
    let sl: usize = if s.len() > 0 && (s[0] == '+' || s[0] == '-') { 1 } else { 0 };
    let neg = s.len() > 0 && s[0] == '-';
    let b = sub_chars(s, sl, s.len());
    let inf = ['i', 'n', 'f'];
    let infinity = ['i', 'n', 'f', 'i', 'n', 'i', 't', 'y'];
    let nan = ['n', 'a', 'n'];
    proof {
        assert(inf@ =~= seq!['i', 'n', 'f']);
        assert(infinity@ =~= seq!['i', 'n', 'f', 'i', 'n', 'i', 't', 'y']);
        assert(nan@ =~= seq!['n', 'a', 'n']);
        assert(b@ == body(s@));
    }
    if ci_eq_exec(b.as_slice(), &inf) || ci_eq_exec(b.as_slice(), &infinity) {
        return NumKey { rank: if neg { 0 } else { 4 }, p: 0, sig: Vec::new() };
    }
    if ci_eq_exec(b.as_slice(), &nan) {
        return NumKey { rank: 5, p: 0, sig: Vec::new() };
    }
    let a = digits_end_exec(b.as_slice(), 0);
    let (fs, fe) = if a < b.len() && b[a] == '.' {
        (a + 1, digits_end_exec(b.as_slice(), a + 1))
    } else {
        (a, a)
    };
    let mut d = sub_chars(b.as_slice(), 0, a);
    let f = sub_chars(b.as_slice(), fs, fe);
    crate::text::push_chars(&mut d, f.as_slice());
    proof {
        assert(d@ == mantissa(b@));
    }
    let lead = skip_zeros_exec(d.as_slice());
    let end = trim_zeros_end_exec(d.as_slice());
    if lead >= d.len() {
        return NumKey { rank: 2, p: 0, sig: Vec::new() };
    }
    proof {
        lemma_skip_zeros_facts(d@, 0);
        lemma_trim_after_lead(d@, lead as int, d@.len() as int);
    }
    let e: i64 = if fe >= b.len() {
        0
    } else {
        let eneg = fe + 1 < b.len() && b[fe + 1] == '-';
        let c = if fe + 1 < b.len() && (b[fe + 1] == '+' || b[fe + 1] == '-') { fe + 2 } else { fe + 1 };
        let v = sat_value_exec(b.as_slice(), c, b.len());
        if eneg { -v } else { v }
    };
    proof {
        assert(e == exponent_of(b@));
    }
    let sig = sub_chars(d.as_slice(), lead, end);
    let p: i128 = (a as i128) - (lead as i128) + (e as i128);
    NumKey { rank: if neg { 1 } else { 3 }, p, sig }
}

fn seq_order_exec(a: &[char], b: &[char]) -> (r: i8)
    ensures
        r == seq_order(a@, b@, 0),
{
    let mut i: usize = 0;
    loop
        invariant
            seq_order(a@, b@, 0) == seq_order(a@, b@, i as int),
            i <= a@.len(),
            i <= b@.len(),
        decreases (if a@.len() >= b@.len() { a@.len() } else { b@.len() }) - i,
    {
        if i >= a.len() && i >= b.len() {
            return 0;
        }
        if i >= a.len() {
            return -1;
        }
        if i >= b.len() {
            return 1;
        }
        let x = a[i] as u32;
        let y = b[i] as u32;
        if x < y {
            return -1;
        }
        if x > y {
            return 1;
        }
        i = i + 1;
    }
}

/// The order of two keys: -1, 0 or 1.
pub fn key_order_of(x: &NumKey, y: &NumKey) -> (r: i8)
    ensures
        r == key_order(x@, y@),
{
    if x.rank < y.rank {
        -1
    } else if x.rank > y.rank {
        1
    } else if x.rank == 3 || x.rank == 1 {
        let (u, v) = if x.rank == 3 { (x, y) } else { (y, x) };
        if u.p < v.p {
            -1
        } else if u.p > v.p {
            1
        } else {
            seq_order_exec(u.sig.as_slice(), v.sig.as_slice())
        }
    } else {
        0
    }
}

/// Inserts index `x` into the order `o` of the texts `pos`: after every
/// index whose text is not greater than `x`'s, before the greater ones at
/// the end.
pub open spec fn ins_index(o: Seq<int>, pos: Seq<Seq<char>>, x: int) -> Seq<int>
    decreases o.len(),
{
    if o.len() == 0 {
        seq![x]
    } else if num_order(pos[x], pos[o.last()]) < 0 {
        ins_index(o.drop_last(), pos, x).push(o.last())
    } else {
        o.push(x)
    }
}

/// The stable order of the first `k` texts of `pos` by their numbers
/// (insertion sort).
pub open spec fn sort_order(pos: Seq<Seq<char>>, k: int) -> Seq<int>
    decreases k,
{
    if k <= 0 {
        Seq::empty()
    } else {
        ins_index(sort_order(pos, k - 1), pos, k - 1)
    }
}

/// Adjacent entries of `o` are in order: by number, then by index.
pub open spec fn stably_ordered(o: Seq<int>, pos: Seq<Seq<char>>) -> bool {
    forall|i: int|
        #![trigger o[i], o[i + 1]]
        0 <= i < o.len() - 1 ==> num_order(pos[o[i]], pos[o[i + 1]]) < 0 || (num_order(pos[o[i]], pos[o[i + 1]]) == 0
            && o[i] < o[i + 1])
}

/// Every earlier entry of `o` has a smaller number than a later one, or an
/// equal number and a smaller index.
pub open spec fn ordered_by_number(o: Seq<int>, pos: Seq<Seq<char>>) -> bool {
    forall|i: int, j: int|
        #![trigger o[i], o[j]]
        0 <= i < j < o.len() ==> num_order(pos[o[i]], pos[o[j]]) < 0 || (num_order(pos[o[i]], pos[o[j]]) == 0
            && o[i] < o[j])
}

proof fn lemma_ordered_from_adjacent(o: Seq<int>, pos: Seq<Seq<char>>)
    requires
        stably_ordered(o, pos),
    ensures
        ordered_by_number(o, pos),
{
    assert forall|i: int, j: int| #![trigger o[i], o[j]] 0 <= i < j < o.len() implies num_order(pos[o[i]], pos[o[j]]) < 0
        || (num_order(pos[o[i]], pos[o[j]]) == 0 && o[i] < o[j]) by {
        lemma_ordered_step(o, pos, i, j);
    }
}

proof fn lemma_ordered_step(o: Seq<int>, pos: Seq<Seq<char>>, i: int, j: int)
    requires
        stably_ordered(o, pos),
        0 <= i < j < o.len(),
    ensures
        num_order(pos[o[i]], pos[o[j]]) < 0 || (num_order(pos[o[i]], pos[o[j]]) == 0 && o[i] < o[j]),
    decreases j - i,
{
    let k = j - 1;
    assert(o[k + 1] == o[j]);
    if i < k {
        lemma_ordered_step(o, pos, i, k);
        law_num_order_antisymmetric(pos[o[i]], pos[o[k]]);
        law_num_order_antisymmetric(pos[o[k]], pos[o[j]]);
        law_num_order_transitive(pos[o[i]], pos[o[k]], pos[o[j]]);
        law_num_order_antisymmetric(pos[o[i]], pos[o[j]]);
    }
}

/// `o` lists each of `0..k` once.
pub open spec fn is_index_permutation(o: Seq<int>, k: int) -> bool {
    &&& o.len() == k
    &&& forall|i: int| 0 <= i < o.len() ==> 0 <= #[trigger] o[i] < k
    &&& forall|j: int| 0 <= j < k ==> #[trigger] o.contains(j)
}

proof fn lemma_ins_index(o: Seq<int>, pos: Seq<Seq<char>>, x: int)
    requires
        0 <= x < pos.len(),
        forall|i: int| 0 <= i < o.len() ==> 0 <= #[trigger] o[i] < x,
        stably_ordered(o, pos),
    ensures
        ({
            let r = ins_index(o, pos, x);
            &&& r.len() == o.len() + 1
            &&& forall|i: int| 0 <= i < r.len() ==> 0 <= #[trigger] r[i] <= x
            &&& r.contains(x)
            &&& forall|j: int| o.contains(j) ==> #[trigger] r.contains(j)
            &&& stably_ordered(r, pos)
            &&& (r.last() == x || (o.len() > 0 && r.last() == o.last()))
        }),
    decreases o.len(),
{
    let r = ins_index(o, pos, x);
    if o.len() == 0 {
        assert(r[0] == x);
    } else if num_order(pos[x], pos[o.last()]) < 0 {
        let o2 = o.drop_last();
        let l = o.last();
        assert forall|i: int| 0 <= i < o2.len() implies 0 <= #[trigger] o2[i] < x by {
            assert(o2[i] == o[i]);
        }
        assert(stably_ordered(o2, pos)) by {
            assert forall|i: int| #![trigger o2[i], o2[i + 1]] 0 <= i < o2.len() - 1 implies num_order(pos[o2[i]], pos[o2[i + 1]])
                < 0 || (num_order(pos[o2[i]], pos[o2[i + 1]]) == 0 && o2[i] < o2[i + 1]) by {
                assert(o2[i] == o[i] && o2[i + 1] == o[i + 1]);
            }
        }
        lemma_ins_index(o2, pos, x);
        let r2 = ins_index(o2, pos, x);
        assert(r == r2.push(l));
        assert(x < pos.len());
        law_num_order_antisymmetric(pos[x], pos[l]);
        assert forall|j: int| o.contains(j) implies #[trigger] r.contains(j) by {
            let k = choose|k: int| 0 <= k < o.len() && o[k] == j;
            if k == o.len() - 1 {
                assert(r[r.len() - 1] == j);
            } else {
                assert(o2[k] == j);
                assert(o2.contains(j));
                assert(r2.contains(j));
                let m = choose|m: int| 0 <= m < r2.len() && r2[m] == j;
                assert(r[m] == j);
            }
        }
        assert(r2.contains(x));
        let m = choose|m: int| 0 <= m < r2.len() && r2[m] == x;
        assert(r[m] == x);
        assert forall|i: int| 0 <= i < r.len() implies 0 <= #[trigger] r[i] <= x by {
            if i < r2.len() {
                assert(r[i] == r2[i]);
            }
        }
        assert(stably_ordered(r, pos)) by {
            assert forall|i: int| #![trigger r[i], r[i + 1]] 0 <= i < r.len() - 1 implies num_order(pos[r[i]], pos[r[i + 1]])
                < 0 || (num_order(pos[r[i]], pos[r[i + 1]]) == 0 && r[i] < r[i + 1]) by {
                if i < r.len() - 2 {
                    assert(r[i] == r2[i] && r[i + 1] == r2[i + 1]);
                } else {
                    assert(r[i] == r2.last());
                    assert(r[i + 1] == l);
                    if r2.last() == x {
                    } else {
                        assert(o.len() >= 2);
                        assert(r2.last() == o2.last());
                        assert(o2.last() == o[o.len() - 2]);
                        assert(o[o.len() - 2] == o[(o.len() - 2) + 1 - 1]);
                        let q = o.len() - 2;
                        assert(o[q + 1] == l);
                    }
                }
            }
        }
    } else {
        let l = o.last();
        law_num_order_antisymmetric(pos[x], pos[l]);
        assert(r == o.push(x));
        assert(r[r.len() - 1] == x);
        assert forall|j: int| o.contains(j) implies #[trigger] r.contains(j) by {
            let k = choose|k: int| 0 <= k < o.len() && o[k] == j;
            assert(r[k] == j);
        }
        assert forall|i: int| 0 <= i < r.len() implies 0 <= #[trigger] r[i] <= x by {
            if i < o.len() {
                assert(r[i] == o[i]);
            }
        }
        assert(stably_ordered(r, pos)) by {
            assert forall|i: int| #![trigger r[i], r[i + 1]] 0 <= i < r.len() - 1 implies num_order(pos[r[i]], pos[r[i + 1]])
                < 0 || (num_order(pos[r[i]], pos[r[i + 1]]) == 0 && r[i] < r[i + 1]) by {
                if i < r.len() - 2 {
                    assert(r[i] == o[i] && r[i + 1] == o[i + 1]);
                } else {
                    assert(r[i] == l);
                    assert(r[i + 1] == x);
                }
            }
        }
    }
}

/// The stable order lists every text once, ordered by number and, among
/// equal numbers, in their given order.
pub proof fn law_sort_order(pos: Seq<Seq<char>>, k: int)
    requires
        0 <= k <= pos.len(),
    ensures
        is_index_permutation(sort_order(pos, k), k),
        stably_ordered(sort_order(pos, k), pos),
        ordered_by_number(sort_order(pos, k), pos),
    decreases k,
{
    if k > 0 {
        law_sort_order(pos, k - 1);
        let o = sort_order(pos, k - 1);
        lemma_ins_index(o, pos, k - 1);
        let r = sort_order(pos, k);
        assert forall|i: int| 0 <= i < r.len() implies 0 <= #[trigger] r[i] < k by {}
        assert forall|j: int| 0 <= j < k implies #[trigger] r.contains(j) by {
            if j < k - 1 {
                assert(o.contains(j));
            }
        }
    }
    lemma_ordered_from_adjacent(sort_order(pos, k), pos);
}

/// Texts already in order (each number at most the next) keep their order.
pub proof fn law_sorted_input_kept(pos: Seq<Seq<char>>, k: int)
    requires
        0 <= k <= pos.len(),
        forall|i: int| #![trigger pos[i], pos[i + 1]] 0 <= i < k - 1 ==> num_order(pos[i], pos[i + 1]) <= 0,
    ensures
        sort_order(pos, k) == Seq::new(k as nat, |i: int| i),
    decreases k,
{
    if k > 0 {
        law_sorted_input_kept(pos, k - 1);
        let o = sort_order(pos, k - 1);
        if k >= 2 {
            assert(o.last() == k - 2);
            let j = k - 2;
            assert(num_order(pos[j], pos[j + 1]) <= 0);
            law_num_order_antisymmetric(pos[k - 1], pos[k - 2]);
        }
        assert(sort_order(pos, k) =~= Seq::new(k as nat, |i: int| i));
    }
}

/// The insertion place found from the end: the index `x` goes after `o[..j]`.
proof fn lemma_ins_index_at(o: Seq<int>, pos: Seq<Seq<char>>, x: int, j: int)
    requires
        0 <= j <= o.len(),
        forall|k: int| j <= k < o.len() ==> num_order(pos[x], pos[#[trigger] o[k]]) < 0,
        j == 0 || num_order(pos[x], pos[o[j - 1]]) >= 0,
    ensures
        ins_index(o, pos, x) == o.subrange(0, j).push(x) + o.subrange(j, o.len() as int),
    decreases o.len(),
{
    if o.len() == 0 {
        assert(ins_index(o, pos, x) =~= o.subrange(0, j).push(x) + o.subrange(j, o.len() as int));
    } else if j == o.len() {
        assert(!(num_order(pos[x], pos[o.last()]) < 0));
        assert(ins_index(o, pos, x) =~= o.subrange(0, j).push(x) + o.subrange(j, o.len() as int));
    } else {
        let o2 = o.drop_last();
        assert(num_order(pos[x], pos[o[o.len() - 1]]) < 0);
        assert forall|k: int| j <= k < o2.len() implies num_order(pos[x], pos[#[trigger] o2[k]]) < 0 by {
            assert(o2[k] == o[k]);
        }
        if j > 0 {
            assert(o2[j - 1] == o[j - 1]);
        }
        lemma_ins_index_at(o2, pos, x, j);
        assert(ins_index(o, pos, x) =~= o.subrange(0, j).push(x) + o.subrange(j, o.len() as int));
    }
}

/// The stable order of number texts (see `sort_order`).
pub fn stable_order(pos: &Vec<Vec<char>>) -> (o: Vec<usize>)
    ensures
        o@.len() == pos@.len(),
        forall|i: int| 0 <= i < o@.len() ==> #[trigger] (o@[i] as int) == sort_order(pos@.map_values(|v: Vec<char>| v@), pos@.len() as int)[i],
{
    let ghost ps = pos@.map_values(|v: Vec<char>| v@);
    let mut keys: Vec<NumKey> = Vec::new();
    let mut k: usize = 0;
    while k < pos.len()
        invariant
            k <= pos@.len(),
            keys@.len() == k,
            ps == pos@.map_values(|v: Vec<char>| v@),
            forall|i: int| 0 <= i < k ==> #[trigger] keys@[i]@ == num_key(ps[i]),
        decreases pos@.len() - k,
    {
        let key = num_key_of(pos[k].as_slice());
        keys.push(key);
        k = k + 1;
    }
    let mut o: Vec<usize> = Vec::new();
    let mut i: usize = 0;
    while i < pos.len()
        invariant
            i <= pos@.len(),
            keys@.len() == pos@.len(),
            ps == pos@.map_values(|v: Vec<char>| v@),
            ps.len() == pos@.len(),
            forall|q: int| 0 <= q < keys@.len() ==> #[trigger] keys@[q]@ == num_key(ps[q]),
            o@.len() == i,
            forall|q: int| 0 <= q < i ==> #[trigger] (o@[q] as int) == sort_order(ps, i as int)[q],
        decreases pos@.len() - i,
    {
        let ghost so = sort_order(ps, i as int);
        proof {
            law_sort_order(ps, i as int);
            assert forall|q: int| 0 <= q < so.len() implies 0 <= #[trigger] so[q] < i by {}
        }
        let mut j = o.len();
        while j > 0 && key_order_of(&keys[i], &keys[o[j - 1]]) < 0
            invariant
                j <= o@.len(),
                o@.len() == i,
                i < keys@.len(),
                so.len() == i,
                forall|q: int| 0 <= q < so.len() ==> 0 <= #[trigger] so[q] < i,
                forall|q: int| 0 <= q < i ==> #[trigger] (o@[q] as int) == so[q],
                forall|q: int| 0 <= q < keys@.len() ==> #[trigger] keys@[q]@ == num_key(ps[q]),
                keys@.len() == ps.len(),
                forall|q: int| j <= q < i ==> num_order(ps[i as int], ps[#[trigger] so[q]]) < 0,
            decreases j,
        {
            proof {
                assert(o@[j - 1] as int == so[j - 1]);
            }
            j = j - 1;
        }
        proof {
            if j > 0 {
                assert(o@[j - 1] as int == so[j - 1]);
            }
            lemma_ins_index_at(so, ps, i as int, j as int);
        }
        o.insert(j, i);
        proof {
            let ns = sort_order(ps, i + 1);
            assert(ns == ins_index(so, ps, i as int));
            assert forall|q: int| 0 <= q < i + 1 implies #[trigger] (o@[q] as int) == ns[q] by {
                if q < j {
                    assert(ns[q] == so[q]);
                } else if q == j {
                } else {
                    assert(ns[q] == so[q - 1]);
                }
            }
        }
        i = i + 1;
    }
    o
}

} // verus!
