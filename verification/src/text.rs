//! Character-level text helpers: strings are handled as sequences of
//! `char`s, as their views are.
use vstd::prelude::*;
use vstd::string::*;

verus! {

/// The characters of a string, in order.
pub fn chars_of(s: &str) -> (v: Vec<char>)
    ensures
        v@ == s@,
{
    let mut v: Vec<char> = Vec::new();
    for c in it: s.chars()
        invariant
            it.seq() == s@,
            v@ == it.seq().take(it.index() as int),
    {
        v.push(c);
    }
    v
}

/// Whether two strings hold the same characters.
pub fn str_eq(a: &str, b: &str) -> (r: bool)
    ensures
        r == (a@ == b@),
{
    let va = chars_of(a);
    let vb = chars_of(b);
    chars_eq(va.as_slice(), vb.as_slice())
}

/// Whether two character sequences are equal.
pub fn chars_eq(a: &[char], b: &[char]) -> (r: bool)
    ensures
        r == (a@ == b@),
{
    if a.len() != b.len() {
        return false;
    }
    let mut i: usize = 0;
    while i < a.len()
        invariant
            a@.len() == b@.len(),
            i <= a@.len(),
            a@.subrange(0, i as int) == b@.subrange(0, i as int),
        decreases a@.len() - i,
    {
        if a[i] != b[i] {
            return false;
        }
        proof {
            assert(a@.subrange(0, i + 1) =~= a@.subrange(0, i as int).push(a@[i as int]));
            assert(b@.subrange(0, i + 1) =~= b@.subrange(0, i as int).push(b@[i as int]));
        }
        i = i + 1;
    }
    proof {
        assert(a@ =~= a@.subrange(0, i as int));
        assert(b@ =~= b@.subrange(0, i as int));
    }
    true
}

/// Unicode `White_Space`, as `char::is_whitespace` tests it: tab, line feed,
/// vertical tab, form feed, carriage return, space, next line, no-break
/// space, ogham space mark, the spaces U+2000 to U+200A, line and paragraph
/// separators, narrow no-break space, medium mathematical space and
/// ideographic space.
pub open spec fn is_white_space(c: char) -> bool {
    let u = c as u32;
    ||| 0x9 <= u <= 0xd
    ||| u == 0x20
    ||| u == 0x85
    ||| u == 0xa0
    ||| u == 0x1680
    ||| 0x2000 <= u <= 0x200a
    ||| u == 0x2028
    ||| u == 0x2029
    ||| u == 0x202f
    ||| u == 0x205f
    ||| u == 0x3000
}

/// Whether a character is white space (`char::is_whitespace`).
pub fn is_whitespace(c: char) -> (r: bool)
    ensures
        r == is_white_space(c),
{
    let u = c as u32;
    (0x9 <= u && u <= 0xd) || u == 0x20 || u == 0x85 || u == 0xa0 || u == 0x1680 || (0x2000 <= u
        && u <= 0x200a) || u == 0x2028 || u == 0x2029 || u == 0x202f || u == 0x205f || u == 0x3000
}

/// First index at or after `i` that holds no white space (or the length).
pub open spec fn skip_ws(s: Seq<char>, i: int) -> int
    decreases s.len() - i,
{
    if i >= s.len() || i < 0 {
        s.len() as int
    } else if is_white_space(s[i]) {
        skip_ws(s, i + 1)
    } else {
        i
    }
}

/// First index at or after `i` that holds white space (or the length).
pub open spec fn find_ws(s: Seq<char>, i: int) -> int
    decreases s.len() - i,
{
    if i >= s.len() || i < 0 {
        s.len() as int
    } else if is_white_space(s[i]) {
        i
    } else {
        find_ws(s, i + 1)
    }
}

/// End of `s[..j]` once trailing white space is dropped.
pub open spec fn trim_end_at(s: Seq<char>, j: int) -> int
    decreases j,
{
    if j <= 0 || j > s.len() {
        if j > s.len() { s.len() as int } else { 0 }
    } else if is_white_space(s[j - 1]) {
        trim_end_at(s, j - 1)
    } else {
        j
    }
}

/// `str::trim`: the text without leading and trailing white space.
pub open spec fn trim(s: Seq<char>) -> Seq<char> {
    let a = skip_ws(s, 0);
    let b = trim_end_at(s, s.len() as int);
    if a < b { s.subrange(a, b) } else { Seq::empty() }
}

/// `split_once(char::is_whitespace)`: the text before the first white-space
/// character and the text after it.
pub open spec fn split_once_ws(s: Seq<char>) -> Option<(Seq<char>, Seq<char>)> {
    let i = find_ws(s, 0);
    if i < s.len() {
        Some((s.subrange(0, i), s.subrange(i + 1, s.len() as int)))
    } else {
        None
    }
}

/// `split_whitespace` from index `i` on: the maximal runs of characters that
/// are not white space, in order.
pub open spec fn words_from(s: Seq<char>, i: int) -> Seq<Seq<char>>
    decreases s.len() - i,
{
    let j = skip_ws(s, i);
    if i < 0 || j >= s.len() {
        Seq::empty()
    } else {
        let e = find_ws(s, j);
        if e <= i || e > s.len() {
            Seq::empty()
        } else {
            seq![s.subrange(j, e)] + words_from(s, e)
        }
    }
}

/// `str::split_whitespace`.
pub open spec fn words(s: Seq<char>) -> Seq<Seq<char>> {
    words_from(s, 0)
}

pub proof fn lemma_skip_ws_bounds(s: Seq<char>, i: int)
    requires
        0 <= i <= s.len(),
    ensures
        i <= skip_ws(s, i) <= s.len(),
        forall|k: int| i <= k < skip_ws(s, i) ==> is_white_space(#[trigger] s[k]),
        skip_ws(s, i) < s.len() ==> !is_white_space(s[skip_ws(s, i)]),
    decreases s.len() - i,
{
    if i < s.len() && is_white_space(s[i]) {
        lemma_skip_ws_bounds(s, i + 1);
    }
}

pub proof fn lemma_find_ws_bounds(s: Seq<char>, i: int)
    requires
        0 <= i <= s.len(),
    ensures
        i <= find_ws(s, i) <= s.len(),
        forall|k: int| i <= k < find_ws(s, i) ==> !is_white_space(#[trigger] s[k]),
        find_ws(s, i) < s.len() ==> is_white_space(s[find_ws(s, i)]),
    decreases s.len() - i,
{
    if i < s.len() && !is_white_space(s[i]) {
        lemma_find_ws_bounds(s, i + 1);
    }
}

pub proof fn lemma_trim_end_bounds(s: Seq<char>, j: int)
    requires
        0 <= j <= s.len(),
    ensures
        0 <= trim_end_at(s, j) <= j,
        forall|k: int| trim_end_at(s, j) <= k < j ==> is_white_space(#[trigger] s[k]),
        trim_end_at(s, j) > 0 ==> !is_white_space(s[trim_end_at(s, j) - 1]),
    decreases j,
{
    if j > 0 && is_white_space(s[j - 1]) {
        lemma_trim_end_bounds(s, j - 1);
    }
}

/// Index of the first white-space character at or after `i`, or the length.
pub fn find_ws_exec(s: &[char], i: usize) -> (r: usize)
    requires
        i <= s@.len(),
    ensures
        r == find_ws(s@, i as int),
{
    let mut k = i;
    while k < s.len()
        invariant
            i <= k <= s@.len(),
            find_ws(s@, i as int) == find_ws(s@, k as int),
        decreases s@.len() - k,
    {
        if is_whitespace(s[k]) {
            return k;
        }
        k = k + 1;
    }
    k
}

/// Index of the first character at or after `i` that is not white space, or
/// the length.
pub fn skip_ws_exec(s: &[char], i: usize) -> (r: usize)
    requires
        i <= s@.len(),
    ensures
        r == skip_ws(s@, i as int),
{
    let mut k = i;
    while k < s.len()
        invariant
            i <= k <= s@.len(),
            skip_ws(s@, i as int) == skip_ws(s@, k as int),
        decreases s@.len() - k,
    {
        if !is_whitespace(s[k]) {
            return k;
        }
        k = k + 1;
    }
    k
}

/// Copies `s[a..b]`.
pub fn sub_chars(s: &[char], a: usize, b: usize) -> (r: Vec<char>)
    requires
        a <= b <= s@.len(),
    ensures
        r@ == s@.subrange(a as int, b as int),
{
    let mut r: Vec<char> = Vec::new();
    let mut k = a;
    while k < b
        invariant
            a <= k <= b <= s@.len(),
            r@ == s@.subrange(a as int, k as int),
        decreases b - k,
    {
        r.push(s[k]);
        proof {
            assert(r@ =~= s@.subrange(a as int, k + 1));
        }
        k = k + 1;
    }
    r
}

/// `str::trim` on characters.
pub fn trim_chars(s: &[char]) -> (r: Vec<char>)
    ensures
        r@ == trim(s@),
{
    let a = skip_ws_exec(s, 0);
    let mut b = s.len();
    while b > 0
        invariant
            b <= s@.len(),
            trim_end_at(s@, s@.len() as int) == trim_end_at(s@, b as int),
        ensures
            b <= s@.len(),
            trim_end_at(s@, s@.len() as int) == trim_end_at(s@, b as int),
            b == 0 || !is_white_space(s@[b - 1]),
        decreases b,
    {
        if !is_whitespace(s[b - 1]) {
            break;
        }
        b = b - 1;
    }
    assert(trim_end_at(s@, b as int) == b);
    if a < b {
        sub_chars(s, a, b)
    } else {
        Vec::new()
    }
}

/// `split_once(char::is_whitespace)` on characters.
pub fn split_once_ws_chars(s: &[char]) -> (r: Option<(Vec<char>, Vec<char>)>)
    ensures
        match (r, split_once_ws(s@)) {
            (Some((x, y)), Some((sx, sy))) => x@ == sx && y@ == sy,
            (None, None) => true,
            _ => false,
        },
{
    let i = find_ws_exec(s, 0);
    proof {
        lemma_find_ws_bounds(s@, 0);
    }
    if i < s.len() {
        Some((sub_chars(s, 0, i), sub_chars(s, i + 1, s.len())))
    } else {
        None
    }
}

/// `split_whitespace` on characters.
pub fn words_chars(s: &[char]) -> (r: Vec<Vec<char>>)
    ensures
        r@.len() == words(s@).len(),
        forall|k: int| #![trigger r@[k]] 0 <= k < r@.len() ==> r@[k]@ == words(s@)[k],
{
    let mut out: Vec<Vec<char>> = Vec::new();
    let mut i: usize = 0;
    let ghost mut done: Seq<Seq<char>> = Seq::empty();
    loop
        invariant
            i <= s@.len(),
            words(s@) == done + words_from(s@, i as int),
            out@.len() == done.len(),
            forall|k: int| #![trigger out@[k]] 0 <= k < out@.len() ==> out@[k]@ == done[k],
        ensures
            words(s@) == done,
            out@.len() == done.len(),
            forall|k: int| #![trigger out@[k]] 0 <= k < out@.len() ==> out@[k]@ == done[k],
        decreases s@.len() - i,
    {
        let j = skip_ws_exec(s, i);
        proof {
            lemma_skip_ws_bounds(s@, i as int);
        }
        if j >= s.len() {
            proof {
                assert(words_from(s@, i as int) =~= Seq::<Seq<char>>::empty());
                assert(done + Seq::<Seq<char>>::empty() =~= done);
            }
            break;
        }
        let e = find_ws_exec(s, j);
        proof {
            lemma_find_ws_bounds(s@, j as int);
        }
        let w = sub_chars(s, j, e);
        proof {
            assert(words_from(s@, i as int) == seq![s@.subrange(j as int, e as int)] + words_from(s@, e as int));
            assert(words(s@) =~= (done + seq![s@.subrange(j as int, e as int)]) + words_from(s@, e as int));
            done = done + seq![w@];
        }
        out.push(w);
        i = e;
    }
    out
}

/// The lower-case form of a text, as `str::to_lowercase` computes it.
pub uninterp spec fn lowercase(s: Seq<char>) -> Seq<char>;

/// Whether every character is ASCII.
pub open spec fn is_ascii_text(s: Seq<char>) -> bool {
    forall|i: int| 0 <= i < s.len() ==> (#[trigger] s[i] as u32) < 128
}

/// An ASCII upper-case letter mapped to its lower-case form; any other
/// character is kept.
pub open spec fn ascii_lower_char(c: char) -> char {
    if 65 <= (c as u32) <= 90 { ((c as u32) + 32) as char } else { c }
}

/// ASCII lower-casing, character by character.
pub open spec fn ascii_lowercase(s: Seq<char>) -> Seq<char> {
    s.map_values(|c: char| ascii_lower_char(c))
}

/// The lower-case form of a text: for ASCII text, each upper-case letter
/// becomes its lower-case letter and every other character stays; beyond
/// ASCII, the Unicode mapping `lowercase`.
pub open spec fn to_lower(s: Seq<char>) -> Seq<char> {
    if is_ascii_text(s) { ascii_lowercase(s) } else { lowercase(s) }
}

/// `str::to_lowercase`. For ASCII text, std documents the result as ASCII
/// lower-casing (`A`-`Z` to `a`-`z`, other characters unchanged); beyond
/// ASCII the contract names the result and does not write out the Unicode
/// case mapping (with its context rule for final sigma).
#[verifier::external_body]
pub fn to_lowercase(s: &str) -> (r: String)
    ensures
        r@ == lowercase(s@),
        is_ascii_text(s@) ==> r@ == ascii_lowercase(s@),
{
    s.to_lowercase()
}

/// Collects characters into a `String` (`FromIterator<&char> for String`).
#[verifier::external_body]
pub fn string_from_chars(v: &[char]) -> (r: String)
    ensures
        r@ == v@,
{
    String::from_iter(v)
}

/// The lower-case form of a character sequence, as characters.
pub fn lowercase_chars(v: &[char]) -> (r: Vec<char>)
    ensures
        r@ == to_lower(v@),
{
    let s = string_from_chars(v);
    let l = to_lowercase(s.as_str());
    chars_of(l.as_str())
}

/// Whether a character sequence spells a given text.
pub fn chars_eq_str(a: &[char], b: &str) -> (r: bool)
    ensures
        r == (a@ == b@),
{
    let vb = chars_of(b);
    chars_eq(a, vb.as_slice())
}

/// Appends the characters of a text.
pub fn push_str(v: &mut Vec<char>, s: &str)
    ensures
        final(v)@ == old(v)@ + s@,
{
    let c = chars_of(s);
    let mut k: usize = 0;
    while k < c.len()
        invariant
            k <= c@.len(),
            c@ == s@,
            v@ == old(v)@ + s@.subrange(0, k as int),
        decreases c@.len() - k,
    {
        v.push(c[k]);
        proof {
            assert(s@.subrange(0, k + 1) =~= s@.subrange(0, k as int).push(s@[k as int]));
        }
        k = k + 1;
    }
    proof {
        assert(s@.subrange(0, k as int) =~= s@);
    }
}

/// Appends characters.
pub fn push_chars(v: &mut Vec<char>, s: &[char])
    ensures
        final(v)@ == old(v)@ + s@,
{
    let mut k: usize = 0;
    while k < s.len()
        invariant
            k <= s@.len(),
            v@ == old(v)@ + s@.subrange(0, k as int),
        decreases s@.len() - k,
    {
        v.push(s[k]);
        proof {
            assert(s@.subrange(0, k + 1) =~= s@.subrange(0, k as int).push(s@[k as int]));
        }
        k = k + 1;
    }
    proof {
        assert(s@.subrange(0, k as int) =~= s@);
    }
}

/// First index at or after `i` holding `c` (or the length).
pub open spec fn find_char(s: Seq<char>, i: int, c: char) -> int
    decreases s.len() - i,
{
    if i >= s.len() || i < 0 {
        s.len() as int
    } else if s[i] == c {
        i
    } else {
        find_char(s, i + 1, c)
    }
}

/// `str::split(c)` from index `i` on: the pieces between occurrences of `c`,
/// empty pieces included.
pub open spec fn pieces_from(s: Seq<char>, i: int, c: char) -> Seq<Seq<char>>
    decreases s.len() - i,
{
    let e = find_char(s, i, c);
    if i < 0 || i > s.len() || e < i || e >= s.len() {
        seq![s.subrange(i, s.len() as int)]
    } else {
        seq![s.subrange(i, e)] + pieces_from(s, e + 1, c)
    }
}

/// `str::split(c)`.
pub open spec fn pieces(s: Seq<char>, c: char) -> Seq<Seq<char>> {
    pieces_from(s, 0, c)
}

pub proof fn lemma_find_char_bounds(s: Seq<char>, i: int, c: char)
    requires
        0 <= i <= s.len(),
    ensures
        i <= find_char(s, i, c) <= s.len(),
        find_char(s, i, c) < s.len() ==> s[find_char(s, i, c)] == c,
    decreases s.len() - i,
{
    if i < s.len() && s[i] != c {
        lemma_find_char_bounds(s, i + 1, c);
    }
}

fn find_char_exec(s: &[char], i: usize, c: char) -> (r: usize)
    requires
        i <= s@.len(),
    ensures
        r == find_char(s@, i as int, c),
{
    let mut k = i;
    while k < s.len()
        invariant
            i <= k <= s@.len(),
            find_char(s@, i as int, c) == find_char(s@, k as int, c),
        decreases s@.len() - k,
    {
        if s[k] == c {
            return k;
        }
        k = k + 1;
    }
    k
}

/// `str::split(c)` on characters.
pub fn pieces_chars(s: &[char], c: char) -> (r: Vec<Vec<char>>)
    ensures
        r@.len() == pieces(s@, c).len(),
        forall|k: int| #![trigger r@[k]] 0 <= k < r@.len() ==> r@[k]@ == pieces(s@, c)[k],
{
    let mut out: Vec<Vec<char>> = Vec::new();
    let mut i: usize = 0;
    let ghost mut done: Seq<Seq<char>> = Seq::empty();
    loop
        invariant_except_break
            pieces(s@, c) == done + pieces_from(s@, i as int, c),
        invariant
            i <= s@.len(),
            out@.len() == done.len(),
            forall|k: int| #![trigger out@[k]] 0 <= k < out@.len() ==> out@[k]@ == done[k],
        ensures
            pieces(s@, c) == done,
            out@.len() == done.len(),
            forall|k: int| #![trigger out@[k]] 0 <= k < out@.len() ==> out@[k]@ == done[k],
        decreases s@.len() - i,
    {
        let e = find_char_exec(s, i, c);
        proof {
            lemma_find_char_bounds(s@, i as int, c);
        }
        let p = sub_chars(s, i, e);
        if e >= s.len() {
            proof {
                assert(pieces_from(s@, i as int, c) == seq![s@.subrange(i as int, s@.len() as int)]);
                done = done + seq![p@];
            }
            out.push(p);
            break;
        }
        proof {
            assert(pieces_from(s@, i as int, c) == seq![s@.subrange(i as int, e as int)] + pieces_from(s@, e + 1, c));
            assert(pieces(s@, c) =~= (done + seq![p@]) + pieces_from(s@, e + 1, c));
            done = done + seq![p@];
        }
        out.push(p);
        i = e + 1;
    }
    out
}

/// An ASCII decimal digit.
pub open spec fn is_digit(c: char) -> bool {
    48 <= (c as u32) <= 57
}

/// First index at or after `i` that holds no digit (or the length).
pub open spec fn digits_end(s: Seq<char>, i: int) -> int
    decreases s.len() - i,
{
    if i >= s.len() || i < 0 {
        s.len() as int
    } else if is_digit(s[i]) {
        digits_end(s, i + 1)
    } else {
        i
    }
}

/// `c` is the lower-case letter `l` in either case.
pub open spec fn ci_char_eq(c: char, l: char) -> bool {
    c == l || (c as u32) + 32 == (l as u32)
}

/// `s` spells the lower-case word `lit` in any case.
pub open spec fn ci_eq(s: Seq<char>, lit: Seq<char>) -> bool {
    s.len() == lit.len() && forall|i: int| 0 <= i < s.len() ==> ci_char_eq(#[trigger] s[i], lit[i])
}

/// From index `b` on: nothing, or `e`/`E`, an optional sign and one or more
/// digits up to the end.
pub open spec fn exponent_ok(s: Seq<char>, b: int) -> bool {
    ||| b == s.len()
    ||| (0 <= b < s.len() && (s[b] == 'e' || s[b] == 'E') && {
        let c = if b + 1 < s.len() && (s[b + 1] == '+' || s[b + 1] == '-') { b + 2 } else { b + 1 };
        let d = digits_end(s, c);
        d > c && d == s.len()
    })
}

/// Digits with an optional fraction (at least one digit in all), then an
/// optional exponent.
pub open spec fn is_decimal(s: Seq<char>) -> bool {
    let a = digits_end(s, 0);
    if a < s.len() && s[a] == '.' {
        let b = digits_end(s, a + 1);
        a + (b - a - 1) >= 1 && exponent_ok(s, b)
    } else {
        a >= 1 && exponent_ok(s, a)
    }
}

/// The text of a number as `f32::from_str` accepts it: an optional sign,
/// then `inf`, `infinity` or `nan` in any case, or decimal digits with an
/// optional fraction and an optional exponent. No white space is allowed.
pub open spec fn is_number_text(s: Seq<char>) -> bool {
    let body = if s.len() > 0 && (s[0] == '+' || s[0] == '-') { s.subrange(1, s.len() as int) } else { s };
    ||| ci_eq(body, seq!['i', 'n', 'f'])
    ||| ci_eq(body, seq!['i', 'n', 'f', 'i', 'n', 'i', 't', 'y'])
    ||| ci_eq(body, seq!['n', 'a', 'n'])
    ||| is_decimal(body)
}

fn is_digit_exec(c: char) -> (r: bool)
    ensures
        r == is_digit(c),
{
    let u = c as u32;
    48 <= u && u <= 57
}

pub fn digits_end_exec(s: &[char], i: usize) -> (r: usize)
    requires
        i <= s@.len(),
    ensures
        r == digits_end(s@, i as int),
        i <= r <= s@.len(),
{
    let mut k = i;
    while k < s.len()
        invariant
            i <= k <= s@.len(),
            digits_end(s@, i as int) == digits_end(s@, k as int),
        decreases s@.len() - k,
    {
        if !is_digit_exec(s[k]) {
            return k;
        }
        k = k + 1;
    }
    k
}

pub fn ci_eq_exec(s: &[char], lit: &[char]) -> (r: bool)
    ensures
        r == ci_eq(s@, lit@),
{
    if s.len() != lit.len() {
        return false;
    }
    let mut i: usize = 0;
    while i < s.len()
        invariant
            s@.len() == lit@.len(),
            i <= s@.len(),
            forall|k: int| 0 <= k < i ==> ci_char_eq(#[trigger] s@[k], lit@[k]),
        decreases s@.len() - i,
    {
        let c = s[i];
        let l = lit[i];
        if !(c == l || ((l as u32) >= 32 && (c as u32) == (l as u32) - 32)) {
            return false;
        }
        i = i + 1;
    }
    true
}

fn exponent_ok_exec(s: &[char], b: usize) -> (r: bool)
    requires
        b <= s@.len(),
    ensures
        r == exponent_ok(s@, b as int),
{
    if b == s.len() {
        return true;
    }
    if !(s[b] == 'e' || s[b] == 'E') {
        return false;
    }
    let c = if b + 1 < s.len() && (s[b + 1] == '+' || s[b + 1] == '-') { b + 2 } else { b + 1 };
    let d = digits_end_exec(s, c);
    d > c && d == s.len()
}

fn is_decimal_exec(s: &[char]) -> (r: bool)
    ensures
        r == is_decimal(s@),
{
    let a = digits_end_exec(s, 0);
    if a < s.len() && s[a] == '.' {
        let b = digits_end_exec(s, a + 1);
        a + (b - a - 1) >= 1 && exponent_ok_exec(s, b)
    } else {
        a >= 1 && exponent_ok_exec(s, a)
    }
}

/// Whether a text is a number that `f32::from_str` reads.
pub fn number_text(s: &[char]) -> (r: bool)
    ensures
        r == is_number_text(s@),
{
    let start: usize = if s.len() > 0 && (s[0] == '+' || s[0] == '-') { 1 } else { 0 };
    let body = sub_chars(s, start, s.len());
    proof {
        if start == 0 {
            assert(body@ =~= s@);
        }
    }
    let inf = ['i', 'n', 'f'];
    let infinity = ['i', 'n', 'f', 'i', 'n', 'i', 't', 'y'];
    let nan = ['n', 'a', 'n'];
    proof {
        assert(inf@ =~= seq!['i', 'n', 'f']);
        assert(infinity@ =~= seq!['i', 'n', 'f', 'i', 'n', 'i', 't', 'y']);
        assert(nan@ =~= seq!['n', 'a', 'n']);
    }
    ci_eq_exec(body.as_slice(), &inf) || ci_eq_exec(body.as_slice(), &infinity) || ci_eq_exec(body.as_slice(), &nan)
        || is_decimal_exec(body.as_slice())
}

} // verus!
