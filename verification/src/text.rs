//! Character-sequence primitives shared by every module: the library views a
//! string as its `Seq<char>`, and these functions read and build strings in
//! those terms.

use vstd::prelude::*;

verus! {

/// Unicode `White_Space`, the property `char::is_whitespace` and `str::trim`
/// go by.
pub open spec fn is_space_spec(c: char) -> bool {
    let u = c as u32;
    (0x9 <= u && u <= 0xD) || u == 0x20 || u == 0x85 || u == 0xA0 || u == 0x1680 || (0x2000
        <= u && u <= 0x200A) || u == 0x2028 || u == 0x2029 || u == 0x202F || u == 0x205F || u
        == 0x3000
}

/// Whether `c` is Unicode white space.
pub fn is_space(c: char) -> (r: bool)
    ensures
        r == is_space_spec(c),
{
    let u = c as u32;
    (0x9 <= u && u <= 0xD) || u == 0x20 || u == 0x85 || u == 0xA0 || u == 0x1680 || (0x2000
        <= u && u <= 0x200A) || u == 0x2028 || u == 0x2029 || u == 0x202F || u == 0x205F || u
        == 0x3000
}

/// Index of the first non-space character of `s` at or after `i`, stopping at `hi`.
pub open spec fn skip_ws(s: Seq<char>, i: int, hi: int) -> int
    decreases hi - i,
{
    if i < hi && 0 <= i < s.len() && is_space_spec(s[i]) {
        skip_ws(s, i + 1, hi)
    } else {
        i
    }
}

/// End index once trailing spaces of `s[lo..j]` are dropped.
pub open spec fn back_ws(s: Seq<char>, lo: int, j: int) -> int
    decreases j - lo,
{
    if lo < j && 0 < j <= s.len() && is_space_spec(s[j - 1]) {
        back_ws(s, lo, j - 1)
    } else {
        j
    }
}

/// `str::trim_start`.
pub open spec fn trim_start_seq(s: Seq<char>) -> Seq<char> {
    s.subrange(skip_ws(s, 0, s.len() as int), s.len() as int)
}

/// `str::trim`.
pub open spec fn trim_seq(s: Seq<char>) -> Seq<char> {
    let a = skip_ws(s, 0, s.len() as int);
    s.subrange(a, back_ws(s, a, s.len() as int))
}

pub proof fn lemma_skip_ws_bounds(s: Seq<char>, i: int, hi: int)
    requires
        0 <= i <= hi <= s.len(),
    ensures
        i <= skip_ws(s, i, hi) <= hi,
        forall|k: int| i <= k < skip_ws(s, i, hi) ==> is_space_spec(#[trigger] s[k]),
        skip_ws(s, i, hi) < hi ==> !is_space_spec(s[skip_ws(s, i, hi)]),
    decreases hi - i,
{
    if i < hi && is_space_spec(s[i]) {
        lemma_skip_ws_bounds(s, i + 1, hi);
    }
}

pub proof fn lemma_back_ws_bounds(s: Seq<char>, lo: int, j: int)
    requires
        0 <= lo <= j <= s.len(),
    ensures
        lo <= back_ws(s, lo, j) <= j,
        forall|k: int| back_ws(s, lo, j) <= k < j ==> is_space_spec(#[trigger] s[k]),
        lo < back_ws(s, lo, j) ==> !is_space_spec(s[back_ws(s, lo, j) - 1]),
    decreases j - lo,
{
    if lo < j && is_space_spec(s[j - 1]) {
        lemma_back_ws_bounds(s, lo, j - 1);
    }
}

/// The characters of `s`, in order.
pub fn chars_of(s: &str) -> (v: Vec<char>)
    ensures
        v@ == s@,
{
    let mut v: Vec<char> = Vec::new();
    for c in it: s.chars()
        invariant
            v@ == it.seq().take(it.index() as int),
            it.seq() == s@,
    {
        v.push(c);
        assert(it.seq().take(it.index() + 1) =~= it.seq().take(it.index() as int).push(c));
    }
    assert(s@.take(s@.len() as int) =~= s@);
    v
}

/// Appends `c` to `s` (`String::push`).
#[verifier::external_body]
pub(crate) fn push_char(s: &mut String, c: char)
    ensures
        final(s)@ == old(s)@.push(c),
{
    s.push(c);
}

/// Appends `v[lo..hi]` to `out`.
pub fn push_range(out: &mut String, v: &[char], lo: usize, hi: usize)
    requires
        lo <= hi <= v@.len(),
    ensures
        final(out)@ == old(out)@ + v@.subrange(lo as int, hi as int),
{
    let mut i = lo;
    while i < hi
        invariant
            lo <= i <= hi <= v@.len(),
            out@ == old(out)@ + v@.subrange(lo as int, i as int),
        decreases hi - i,
    {
        push_char(out, v[i]);
        assert(v@.subrange(lo as int, i + 1) =~= v@.subrange(lo as int, i as int).push(v@[i as int]));
        i = i + 1;
    }
}

/// Appends every character of `v` to `out`.
pub fn push_all(out: &mut String, v: &[char])
    ensures
        final(out)@ == old(out)@ + v@,
{
    push_range(out, v, 0, v.len());
    assert(v@.subrange(0, v@.len() as int) =~= v@);
}

/// A new string holding `v[lo..hi]`.
pub fn string_of_range(v: &[char], lo: usize, hi: usize) -> (s: String)
    requires
        lo <= hi <= v@.len(),
    ensures
        s@ == v@.subrange(lo as int, hi as int),
{
    let mut s = String::new();
    push_range(&mut s, v, lo, hi);
    s
}

/// A new string holding the characters of `v`.
pub fn string_of(v: &[char]) -> (s: String)
    ensures
        s@ == v@,
{
    let mut s = String::new();
    push_all(&mut s, v);
    s
}

/// A new vector holding `v[lo..hi]`.
pub fn sub_vec(v: &[char], lo: usize, hi: usize) -> (r: Vec<char>)
    requires
        lo <= hi <= v@.len(),
    ensures
        r@ == v@.subrange(lo as int, hi as int),
{
    let mut r: Vec<char> = Vec::new();
    let mut i = lo;
    while i < hi
        invariant
            lo <= i <= hi <= v@.len(),
            r@ == v@.subrange(lo as int, i as int),
        decreases hi - i,
    {
        r.push(v[i]);
        assert(v@.subrange(lo as int, i + 1) =~= v@.subrange(lo as int, i as int).push(v@[i as int]));
        i = i + 1;
    }
    r
}

/// Whether `pat` occurs in `v` starting at `i`.
pub open spec fn matches_at(v: Seq<char>, i: int, pat: Seq<char>) -> bool {
    0 <= i && i + pat.len() <= v.len() && v.subrange(i, i + pat.len()) == pat
}

/// Whether `pat` occurs in `v` starting at `i`.
pub fn starts_with_at(v: &[char], i: usize, pat: &[char]) -> (r: bool)
    ensures
        r == matches_at(v@, i as int, pat@),
{
    if i > v.len() || pat.len() > v.len() - i {
        return false;
    }
    let end = i + pat.len();
    let mut k: usize = 0;
    while k < pat.len()
        invariant
            k <= pat@.len(),
            i <= v@.len(),
            i + pat@.len() <= v@.len(),
            end == i + pat@.len(),
            forall|m: int| 0 <= m < k ==> v@[i + m] == pat@[m],
        decreases pat.len() - k,
    {
        if v[i + k] != pat[k] {
            assert(v@.subrange(i as int, i + pat@.len())[k as int] != pat@[k as int]);
            return false;
        }
        k = k + 1;
    }
    assert(v@.subrange(i as int, i + pat@.len()) =~= pat@);
    true
}

/// Whether the two sequences are equal.
pub fn seq_eq(a: &[char], b: &[char]) -> (r: bool)
    ensures
        r == (a@ == b@),
{
    if a.len() != b.len() {
        return false;
    }
    let r = starts_with_at(a, 0, b);
    assert(a@.subrange(0, b@.len() as int) =~= a@);
    r
}

/// Whether the two strings are equal.
pub fn str_eq(a: &str, b: &str) -> (r: bool)
    ensures
        r == (a@ == b@),
{
    let va = chars_of(a);
    let vb = chars_of(b);
    seq_eq(va.as_slice(), vb.as_slice())
}

/// Whether `s` begins with `pat`.
pub fn str_starts_with(s: &str, pat: &str) -> (r: bool)
    ensures
        r == matches_at(s@, 0, pat@),
{
    let vs = chars_of(s);
    let vp = chars_of(pat);
    starts_with_at(vs.as_slice(), 0, vp.as_slice())
}

/// The first index `k` with `lo <= k < hi` where `pat` occurs in `v`, as a spec.
pub open spec fn find_from(v: Seq<char>, lo: int, hi: int, pat: Seq<char>) -> Option<int>
    decreases hi - lo,
{
    if lo >= hi || lo < 0 {
        None
    } else if matches_at(v, lo, pat) {
        Some(lo)
    } else {
        find_from(v, lo + 1, hi, pat)
    }
}

pub proof fn lemma_find_from(v: Seq<char>, lo: int, hi: int, pat: Seq<char>)
    requires
        0 <= lo,
    ensures
        find_from(v, lo, hi, pat) matches Some(k) ==> lo <= k < hi && matches_at(v, k, pat)
            && forall|m: int| lo <= m < k ==> !matches_at(v, m, pat),
        find_from(v, lo, hi, pat) is None ==> forall|m: int| lo <= m < hi ==> !matches_at(v, m, pat),
    decreases hi - lo,
{
    if lo < hi && !matches_at(v, lo, pat) {
        lemma_find_from(v, lo + 1, hi, pat);
    }
}

/// The search from `lo` finds `k` when `pat` occurs at `k` and nowhere in
/// between.
pub proof fn lemma_find_from_is(v: Seq<char>, lo: int, hi: int, pat: Seq<char>, k: int)
    requires
        0 <= lo <= k < hi,
        matches_at(v, k, pat),
        forall|m: int| lo <= m < k ==> !matches_at(v, m, pat),
    ensures
        find_from(v, lo, hi, pat) == Some(k),
    decreases k - lo,
{
    if lo < k {
        lemma_find_from_is(v, lo + 1, hi, pat, k);
    }
}

/// The search from `lo` finds nothing when `pat` occurs nowhere from `lo`
/// on.
pub proof fn lemma_find_from_none(v: Seq<char>, lo: int, hi: int, pat: Seq<char>)
    requires
        0 <= lo,
        forall|m: int| lo <= m < hi ==> !matches_at(v, m, pat),
    ensures
        find_from(v, lo, hi, pat) is None,
    decreases hi - lo,
{
    if lo < hi {
        lemma_find_from_none(v, lo + 1, hi, pat);
    }
}

/// An occurrence that lies within `v[a..b]` is one of that piece.
pub proof fn lemma_matches_inside(v: Seq<char>, a: int, b: int, m: int, pat: Seq<char>)
    requires
        0 <= a <= m,
        m + pat.len() <= b <= v.len(),
    ensures
        matches_at(v, m, pat) == matches_at(v.subrange(a, b), m - a, pat),
{
    assert(v.subrange(a, b).subrange(m - a, m - a + pat.len()) =~= v.subrange(m, m + pat.len()));
}

/// `pat` cannot occur across position `p` when `v[p]` is a character that
/// `pat` holds only at its start.
pub proof fn lemma_no_straddle(v: Seq<char>, pat: Seq<char>, c: char, p: int, m: int)
    requires
        m < p < m + pat.len(),
        0 <= p < v.len(),
        v[p] == c,
        forall|j: int| 1 <= j < pat.len() ==> pat[j] != c,
    ensures
        !matches_at(v, m, pat),
{
    if matches_at(v, m, pat) {
        assert(v.subrange(m, m + pat.len())[p - m] == v[p]);
    }
}

/// The first occurrence of `pat` in `v` at or after `lo`.
pub open spec fn find_seq(v: Seq<char>, lo: int, pat: Seq<char>) -> Option<int> {
    find_from(v, lo, v.len() + 1 as int, pat)
}

/// The first occurrence of `pat` in `v` at or after `lo`.
pub fn find_at(v: &[char], lo: usize, pat: &[char]) -> (r: Option<usize>)
    requires
        lo <= v@.len(),
    ensures
        r matches Some(k) ==> find_seq(v@, lo as int, pat@) == Some(k as int),
        r is None ==> find_seq(v@, lo as int, pat@) is None,
        r matches Some(k) ==> lo <= k && k + pat@.len() <= v@.len(),
{
    let mut i = lo;
    while i <= v.len()
        invariant
            lo <= i <= v@.len() + 1,
            find_from(v@, lo as int, v@.len() + 1 as int, pat@) == find_from(v@, i as int, v@.len() + 1 as int, pat@),
        decreases v.len() + 1 - i,
    {
        if starts_with_at(v, i, pat) {
            return Some(i);
        }
        if i == v.len() {
            assert(find_from(v@, i + 1, v@.len() + 1 as int, pat@) is None);
            return None;
        }
        i = i + 1;
    }
    None
}

/// The first occurrence of the character `c` in `v` at or after `lo`.
pub fn find_char(v: &[char], lo: usize, c: char) -> (r: Option<usize>)
    requires
        lo <= v@.len(),
    ensures
        r matches Some(k) ==> lo <= k < v@.len() && v@[k as int] == c && forall|m: int|
            lo <= m < k ==> v@[m] != c,
        r is None ==> forall|m: int| lo <= m < v@.len() ==> v@[m] != c,
{
    let mut i = lo;
    while i < v.len()
        invariant
            lo <= i <= v@.len(),
            forall|m: int| lo <= m < i ==> v@[m] != c,
        decreases v.len() - i,
    {
        if v[i] == c {
            return Some(i);
        }
        i = i + 1;
    }
    None
}

/// Moves `i` forward past spaces, stopping at `hi`.
pub fn skip_spaces(v: &[char], i: usize, hi: usize) -> (r: usize)
    requires
        i <= hi <= v@.len(),
    ensures
        r == skip_ws(v@, i as int, hi as int),
        i <= r <= hi,
{
    let mut k = i;
    proof {
        lemma_skip_ws_bounds(v@, i as int, hi as int);
    }
    while k < hi && is_space(v[k])
        invariant
            i <= k <= hi <= v@.len(),
            skip_ws(v@, k as int, hi as int) == skip_ws(v@, i as int, hi as int),
        decreases hi - k,
    {
        k = k + 1;
    }
    k
}

/// Moves `j` back past spaces, stopping at `lo`.
pub fn back_spaces(v: &[char], lo: usize, j: usize) -> (r: usize)
    requires
        lo <= j <= v@.len(),
    ensures
        r == back_ws(v@, lo as int, j as int),
        lo <= r <= j,
{
    let mut k = j;
    proof {
        lemma_back_ws_bounds(v@, lo as int, j as int);
    }
    while k > lo && is_space(v[k - 1])
        invariant
            lo <= k <= j <= v@.len(),
            back_ws(v@, lo as int, k as int) == back_ws(v@, lo as int, j as int),
        decreases k - lo,
    {
        k = k - 1;
    }
    k
}

/// `str::trim`, as a new vector.
pub fn trim_vec(v: &[char]) -> (r: Vec<char>)
    ensures
        r@ == trim_seq(v@),
{
    let a = skip_spaces(v, 0, v.len());
    let b = back_spaces(v, a, v.len());
    sub_vec(v, a, b)
}

/// `str::trim`, as a new string.
pub fn trim_string(s: &str) -> (r: String)
    ensures
        r@ == trim_seq(s@),
{
    let v = chars_of(s);
    let a = skip_spaces(v.as_slice(), 0, v.len());
    let b = back_spaces(v.as_slice(), a, v.len());
    string_of_range(v.as_slice(), a, b)
}

/// The decimal digit for `d < 10`.
pub open spec fn digit_char(d: int) -> char {
    if d == 0 {
        '0'
    } else if d == 1 {
        '1'
    } else if d == 2 {
        '2'
    } else if d == 3 {
        '3'
    } else if d == 4 {
        '4'
    } else if d == 5 {
        '5'
    } else if d == 6 {
        '6'
    } else if d == 7 {
        '7'
    } else if d == 8 {
        '8'
    } else {
        '9'
    }
}

/// The decimal representation of `n`, as `format!("{n}")` writes it.
pub open spec fn decimal(n: nat) -> Seq<char>
    decreases n,
{
    if n < 10 {
        seq![digit_char(n as int)]
    } else {
        decimal(n / 10).push(digit_char((n % 10) as int))
    }
}

pub proof fn lemma_digit_char_injective(a: int, b: int)
    requires
        0 <= a < 10,
        0 <= b < 10,
        digit_char(a) == digit_char(b),
    ensures
        a == b,
{
}

pub proof fn lemma_decimal_len(n: nat)
    ensures
        decimal(n).len() >= 1,
        n >= 10 ==> decimal(n).len() >= 2,
        forall|k: int| 0 <= k < decimal(n).len() ==> ('0' as u32) <= (#[trigger] decimal(n)[k]) as u32 <= ('9' as u32),
    decreases n,
{
    if n >= 10 {
        lemma_decimal_len(n / 10);
    }
}

/// Different numbers have different decimal representations.
pub proof fn lemma_decimal_injective(a: nat, b: nat)
    requires
        decimal(a) == decimal(b),
    ensures
        a == b,
    decreases a,
{
    lemma_decimal_len(a);
    lemma_decimal_len(b);
    if a < 10 && b < 10 {
        assert(decimal(a) =~= seq![digit_char(a as int)]);
        assert(decimal(b) =~= seq![digit_char(b as int)]);
        assert(decimal(a)[0] == decimal(b)[0]);
        assert(seq![digit_char(a as int)][0] == digit_char(a as int));
        assert(seq![digit_char(b as int)][0] == digit_char(b as int));
        lemma_digit_char_injective(a as int, b as int);
    } else if a >= 10 && b >= 10 {
        let da = decimal(a);
        let db = decimal(b);
        assert(da.last() == digit_char((a % 10) as int));
        assert(db.last() == digit_char((b % 10) as int));
        lemma_digit_char_injective((a % 10) as int, (b % 10) as int);
        assert(da.drop_last() =~= decimal(a / 10));
        assert(db.drop_last() =~= decimal(b / 10));
        lemma_decimal_injective(a / 10, b / 10);
    } else {
        assert(decimal(a).len() != decimal(b).len());
    }
}

fn digit(d: usize) -> (c: char)
    requires
        d < 10,
    ensures
        c == digit_char(d as int),
{
    if d == 0 {
        '0'
    } else if d == 1 {
        '1'
    } else if d == 2 {
        '2'
    } else if d == 3 {
        '3'
    } else if d == 4 {
        '4'
    } else if d == 5 {
        '5'
    } else if d == 6 {
        '6'
    } else if d == 7 {
        '7'
    } else if d == 8 {
        '8'
    } else {
        '9'
    }
}

/// Appends the decimal representation of `n` to `out`.
pub fn push_decimal(out: &mut String, n: usize)
    ensures
        final(out)@ == old(out)@ + decimal(n as nat),
    decreases n,
{
    if n < 10 {
        push_char(out, digit(n));
        assert(old(out)@.push(digit_char(n as int)) =~= old(out)@ + seq![digit_char(n as int)]);
    } else {
        push_decimal(out, n / 10);
        push_char(out, digit(n % 10));
        assert(decimal(n as nat) == decimal((n / 10) as nat).push(digit_char((n % 10) as int)));
        assert(old(out)@ + decimal((n / 10) as nat).push(digit_char((n % 10) as int)) =~= (old(
            out,
        )@ + decimal((n / 10) as nat)).push(digit_char((n % 10) as int)));
    }
}

/// Appends `s` to `out`.
pub fn push_str(out: &mut String, s: &str)
    ensures
        final(out)@ == old(out)@ + s@,
{
    out.append(s);
}

/// Appends the decimal representation of a 64-bit `n` to `out`.
pub fn push_decimal_u64(out: &mut String, n: u64)
    ensures
        final(out)@ == old(out)@ + decimal(n as nat),
    decreases n,
{
    if n < 10 {
        push_char(out, digit(n as usize));
        assert(old(out)@.push(digit_char(n as int)) =~= old(out)@ + seq![digit_char(n as int)]);
    } else {
        push_decimal_u64(out, n / 10);
        push_char(out, digit((n % 10) as usize));
        assert(decimal(n as nat) == decimal((n / 10) as nat).push(digit_char((n % 10) as int)));
        assert(old(out)@ + decimal((n / 10) as nat).push(digit_char((n % 10) as int)) =~= (old(
            out,
        )@ + decimal((n / 10) as nat)).push(digit_char((n % 10) as int)));
    }
}

/// `after` is `before` with text appended: `before` is a prefix of it.
pub open spec fn appends(before: Seq<char>, after: Seq<char>) -> bool {
    before.len() <= after.len() && after.subrange(0, before.len() as int) == before
}

/// Leaving text as it is appends nothing.
pub broadcast proof fn lemma_appends_refl(a: Seq<char>)
    ensures
        #[trigger] appends(a, a),
{
    assert(a.subrange(0, a.len() as int) =~= a);
}

/// Appending more to an extension of `a` still extends `a`.
pub broadcast proof fn lemma_appends_extend(a: Seq<char>, b: Seq<char>, c: Seq<char>)
    requires
        appends(a, b),
    ensures
        #[trigger] appends(a, b + c),
{
    assert((b + c).subrange(0, a.len() as int) =~= b.subrange(0, a.len() as int));
}

/// Pushing a character onto an extension of `a` still extends `a`.
pub broadcast proof fn lemma_appends_push(a: Seq<char>, b: Seq<char>, c: char)
    requires
        appends(a, b),
    ensures
        #[trigger] appends(a, b.push(c)),
{
    assert(b.push(c).subrange(0, a.len() as int) =~= b.subrange(0, a.len() as int));
}

/// The facts that let a writer's contract show that it only appends.
pub broadcast group group_appends {
    lemma_appends_refl,
    lemma_appends_extend,
    lemma_appends_push,
    lemma_appends_trans,
}

/// Appending twice appends.
pub broadcast proof fn lemma_appends_trans(a: Seq<char>, b: Seq<char>, c: Seq<char>)
    requires
        #[trigger] appends(a, b),
        #[trigger] appends(b, c),
    ensures
        appends(a, c),
{
    assert(c.subrange(0, a.len() as int) =~= b.subrange(0, a.len() as int));
}


/// How many bytes `c` takes in UTF-8.
pub open spec fn utf8_width(c: char) -> nat {
    if (c as u32) <= 0x7F {
        1
    } else if (c as u32) <= 0x7FF {
        2
    } else if (c as u32) <= 0xFFFF {
        3
    } else {
        4
    }
}

/// How many bytes `s` takes in UTF-8: the byte offset of the position just
/// after it.
pub open spec fn utf8_len(s: Seq<char>) -> nat
    decreases s.len(),
{
    if s.len() == 0 {
        0
    } else {
        utf8_width(s[0]) + utf8_len(s.drop_first())
    }
}

/// The UTF-8 length of two texts one after the other is the sum of theirs.
pub proof fn lemma_utf8_len_concat(a: Seq<char>, b: Seq<char>)
    ensures
        utf8_len(a + b) == utf8_len(a) + utf8_len(b),
    decreases a.len(),
{
    if a.len() > 0 {
        assert((a + b).drop_first() =~= a.drop_first() + b);
        assert((a + b)[0] == a[0]);
        lemma_utf8_len_concat(a.drop_first(), b);
    } else {
        assert(a + b =~= b);
    }
}

/// `utf8_len` is the length of vstd's UTF-8 encoding.
pub proof fn lemma_utf8_len_encode(s: Seq<char>)
    ensures
        utf8_len(s) == vstd::utf8::encode_utf8(s).len(),
    decreases s.len(),
{
    if s.len() > 0 {
        let c = s[0];
        vstd::utf8::char_is_scalar(c);
        assert(vstd::utf8::encode_scalar(c as u32).len() == utf8_width(c));
        lemma_utf8_len_encode(s.drop_first());
    }
}

/// One more character adds its width.
pub proof fn lemma_utf8_len_take_step(s: Seq<char>, i: int)
    requires
        0 <= i < s.len(),
    ensures
        utf8_len(s.take(i + 1)) == utf8_len(s.take(i)) + utf8_width(s[i]),
{
    assert(s.take(i + 1) =~= s.take(i) + seq![s[i]]);
    lemma_utf8_len_concat(s.take(i), seq![s[i]]);
    assert(seq![s[i]].drop_first() =~= Seq::<char>::empty());
    assert(utf8_len(Seq::<char>::empty()) == 0);
    assert(utf8_len(seq![s[i]]) == utf8_width(s[i]) + utf8_len(seq![s[i]].drop_first()));
}

/// A prefix takes no more bytes than the whole.
pub proof fn lemma_utf8_len_take_le(s: Seq<char>, i: int)
    requires
        0 <= i <= s.len(),
    ensures
        utf8_len(s.take(i)) <= utf8_len(s),
{
    assert(s =~= s.take(i) + s.skip(i));
    lemma_utf8_len_concat(s.take(i), s.skip(i));
}

/// The byte offset in `s` of the character position `i`.
pub fn byte_offset(s: &str, v: &[char], i: usize) -> (r: usize)
    requires
        v@ == s@,
        i <= v@.len(),
    ensures
        r == utf8_len(s@.take(i as int)),
{
    proof {
        lemma_utf8_len_encode(s@);
        lemma_utf8_len_take_le(s@, i as int);
    }
    let total = s.as_bytes().len();
    let mut k: usize = 0;
    let mut r: usize = 0;
    while k < i
        invariant
            v@ == s@,
            i <= v@.len(),
            k <= i,
            r == utf8_len(s@.take(k as int)),
            utf8_len(s@) == total,
        decreases i - k,
    {
        proof {
            lemma_utf8_len_take_step(s@, k as int);
            lemma_utf8_len_take_le(s@, k + 1);
        }
        let c = v[k];
        let u = c as u32;
        let w: usize = if u <= 0x7F {
            1
        } else if u <= 0x7FF {
            2
        } else if u <= 0xFFFF {
            3
        } else {
            4
        };
        r = r + w;
        k = k + 1;
    }
    r
}

} // verus!
