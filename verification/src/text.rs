//! Character-level text utilities over `Vec<char>`, specified over `Seq<char>`.

use vstd::prelude::*;

verus! {

/// Unicode `White_Space`: the characters that `char::is_whitespace` and the
/// regex class `\s` accept.
pub open spec fn is_white(c: char) -> bool {
    let u = c as int;
    ||| 0x9 <= u <= 0xd
    ||| u == 0x20
    ||| u == 0x85
    ||| u == 0xa0
    ||| u == 0x1680
    ||| 0x2000 <= u <= 0x200a
    ||| u == 0x2028
    ||| u == 0x2029
    ||| u == 0x202f
    ||| u == 0x205f
    ||| u == 0x3000
}

pub open spec fn white() -> spec_fn(char) -> bool {
    |c: char| is_white(c)
}

pub open spec fn in_set(set: Seq<char>) -> spec_fn(char) -> bool {
    |c: char| set.contains(c)
}

/// First index at or after `i` whose character does not satisfy `p`.
pub open spec fn skip_while(s: Seq<char>, i: int, p: spec_fn(char) -> bool) -> int
    decreases s.len() - i,
{
    if 0 <= i < s.len() && p(s[i]) {
        skip_while(s, i + 1, p)
    } else {
        i
    }
}

/// Smallest `k <= j` such that every character in `s[k..j]` satisfies `p`.
pub open spec fn back_while(s: Seq<char>, j: int, p: spec_fn(char) -> bool) -> int
    decreases j,
{
    if 0 < j <= s.len() && p(s[j - 1]) {
        back_while(s, j - 1, p)
    } else {
        j
    }
}

/// `s` with the leading and trailing characters that satisfy `p` removed.
pub open spec fn trim_by(s: Seq<char>, p: spec_fn(char) -> bool) -> Seq<char> {
    let t = s.skip(skip_while(s, 0, p));
    t.take(back_while(t, t.len() as int, p))
}

/// What `str::trim` computes.
pub open spec fn trim(s: Seq<char>) -> Seq<char> {
    trim_by(s, white())
}

pub proof fn lemma_skip_while_bounds(s: Seq<char>, i: int, p: spec_fn(char) -> bool)
    requires
        0 <= i <= s.len(),
    ensures
        i <= skip_while(s, i, p) <= s.len(),
        skip_while(s, i, p) < s.len() ==> !p(s[skip_while(s, i, p)]),
        forall|k: int| i <= k < skip_while(s, i, p) ==> p(#[trigger] s[k]),
    decreases s.len() - i,
{
    if i < s.len() && p(s[i]) {
        lemma_skip_while_bounds(s, i + 1, p);
    }
}

pub proof fn lemma_back_while_bounds(s: Seq<char>, j: int, p: spec_fn(char) -> bool)
    requires
        0 <= j <= s.len(),
    ensures
        0 <= back_while(s, j, p) <= j,
        back_while(s, j, p) > 0 ==> !p(s[back_while(s, j, p) - 1]),
        forall|k: int| back_while(s, j, p) <= k < j ==> p(#[trigger] s[k]),
    decreases j,
{
    if 0 < j && p(s[j - 1]) {
        lemma_back_while_bounds(s, j - 1, p);
    }
}

/// Executable `White_Space` test.
pub fn is_whitespace_char(c: char) -> (r: bool)
    ensures
        r == is_white(c),
{
    let u: u32 = c as u32;
    (0x9 <= u && u <= 0xd) || u == 0x20 || u == 0x85 || u == 0xa0 || u == 0x1680 || (0x2000
        <= u && u <= 0x200a) || u == 0x2028 || u == 0x2029 || u == 0x202f || u == 0x205f || u
        == 0x3000
}

/// Copies `s[from..to]` into a new vector.
pub fn copy_range(s: &Vec<char>, from: usize, to: usize) -> (r: Vec<char>)
    requires
        from <= to <= s.len(),
    ensures
        r@ == s@.subrange(from as int, to as int),
{
    let mut r: Vec<char> = Vec::new();
    let mut i: usize = from;
    while i < to
        invariant
            from <= i <= to <= s.len(),
            r@ == s@.subrange(from as int, i as int),
        decreases to - i,
    {
        r.push(s[i]);
        i = i + 1;
    }
    r
}

/// What `str::trim` computes, on characters.
pub fn trim_chars(s: &Vec<char>) -> (r: Vec<char>)
    ensures
        r@ == trim(s@),
{
    let ghost p = white();
    let mut a: usize = 0;
    while a < s.len() && is_whitespace_char(s[a])
        invariant
            a <= s.len(),
            p == white(),
            skip_while(s@, a as int, p) == skip_while(s@, 0, p),
        decreases s.len() - a,
    {
        a = a + 1;
    }
    let ghost t = s@.skip(a as int);
    let mut b: usize = s.len();
    while b > a && is_whitespace_char(s[b - 1])
        invariant
            a <= b <= s.len(),
            t == s@.skip(a as int),
            p == white(),
            skip_while(s@, 0, p) == a,
            back_while(t, (b - a) as int, p) == back_while(t, t.len() as int, p),
        decreases b,
    {
        assert(t[(b - a) - 1] == s@[b - 1]);
        b = b - 1;
    }
    let r = copy_range(s, a, b);
    assert(r@ == t.take((b - a) as int));
    r
}

} // verus!

verus! {

/// The characters of `s`, in order.
pub fn chars_of(s: &str) -> (v: Vec<char>)
    ensures
        v@ == s@,
{
    let mut v: Vec<char> = Vec::new();
    for c in it: s.chars()
        invariant
            v@ == it.seq().take(it.index()),
            it.seq() == s@,
    {
        v.push(c);
    }
    v
}

} // verus!

verus! {

/// What `regex` replacing every `\s+` run by one space computes.
pub open spec fn collapse_from(s: Seq<char>, i: int) -> Seq<char>
    decreases s.len() - i,
{
    if i < 0 || i >= s.len() {
        seq![]
    } else if is_white(s[i]) {
        proof {
            lemma_skip_while_bounds(s, i + 1, white());
        }
        seq![' '] + collapse_from(s, skip_while(s, i + 1, white()))
    } else {
        seq![s[i]] + collapse_from(s, i + 1)
    }
}

pub open spec fn collapse_ws(s: Seq<char>) -> Seq<char> {
    collapse_from(s, 0)
}

/// Replaces every maximal run of whitespace by a single space.
pub fn collapse_whitespace(s: &Vec<char>) -> (r: Vec<char>)
    ensures
        r@ == collapse_ws(s@),
{
    let mut r: Vec<char> = Vec::new();
    let mut i: usize = 0;
    while i < s.len()
        invariant
            i <= s.len(),
            r@ + collapse_from(s@, i as int) == collapse_ws(s@),
        decreases s.len() - i,
    {
        if is_whitespace_char(s[i]) {
            let ghost i0 = i as int;
            let mut j: usize = i + 1;
            while j < s.len() && is_whitespace_char(s[j])
                invariant
                    i0 < j <= s.len(),
                    skip_while(s@, j as int, white()) == skip_while(s@, i0 + 1, white()),
                decreases s.len() - j,
            {
                j = j + 1;
            }
            assert(collapse_from(s@, i0) == seq![' '] + collapse_from(s@, j as int));
            r.push(' ');
            assert(r@ + collapse_from(s@, j as int) == collapse_ws(s@));
            i = j;
        } else {
            let ghost i0 = i as int;
            assert(collapse_from(s@, i0) == seq![s@[i0]] + collapse_from(s@, i0 + 1));
            r.push(s[i]);
            assert(r@ + collapse_from(s@, i0 + 1) == collapse_ws(s@));
            i = i + 1;
        }
    }
    r
}

/// `w` occurs in `s` starting at index `i`.
pub open spec fn occurs_at(s: Seq<char>, i: int, w: Seq<char>) -> bool {
    0 <= i && i + w.len() <= s.len() && s.subrange(i, i + w.len()) == w
}

/// `s` contains `w` as a contiguous piece (what `str::contains` answers).
pub open spec fn contains_seq(s: Seq<char>, w: Seq<char>) -> bool {
    exists|i: int| occurs_at(s, i, w)
}

/// Whether `w` occurs in `s` at index `i`.
pub fn matches_at(s: &Vec<char>, i: usize, w: &Vec<char>) -> (r: bool)
    ensures
        r == occurs_at(s@, i as int, w@),
{
    if i > s.len() || w.len() > s.len() - i {
        return false;
    }
    let mut k: usize = 0;
    while k < w.len()
        invariant
            i + w.len() <= s.len(),
            k <= w.len(),
            forall|m: int| 0 <= m < k ==> s@[i + m] == w@[m],
        decreases w.len() - k,
    {
        if s[i + k] != w[k] {
            assert(s@.subrange(i as int, i + w.len())[k as int] != w@[k as int]);
            return false;
        }
        k = k + 1;
    }
    assert(s@.subrange(i as int, i + w.len()) =~= w@);
    true
}

/// Whether `w` occurs anywhere in `s`.
pub fn contains_chars(s: &Vec<char>, w: &Vec<char>) -> (r: bool)
    ensures
        r == contains_seq(s@, w@),
{
    let mut i: usize = 0;
    while i < s.len()
        invariant
            i <= s.len(),
            forall|m: int| 0 <= m < i ==> !occurs_at(s@, m, w@),
        decreases s.len() - i,
    {
        if matches_at(s, i, w) {
            return true;
        }
        i = i + 1;
    }
    if matches_at(s, i, w) {
        return true;
    }
    assert forall|m: int| !occurs_at(s@, m, w@) by {
        if 0 <= m <= i {
        }
    }
    false
}

} // verus!

verus! {

pub open spec fn opt_int(r: Option<usize>) -> Option<int> {
    match r {
        Some(k) => Some(k as int),
        None => None,
    }
}

/// Simple case folding of a pattern character, as `(?i)` in the `regex` crate
/// applies it: an ASCII letter also matches its other case, `k` also matches
/// KELVIN SIGN and `s` also matches LATIN SMALL LETTER LONG S.
pub open spec fn ci_char(c: char, l: char) -> bool {
    if 'a' <= l && l <= 'z' {
        ||| c == l
        ||| c as int == l as int - 32
        ||| (l == 'k' && c as int == 0x212a)
        ||| (l == 's' && c as int == 0x17f)
    } else {
        c == l
    }
}

/// `w` (a lowercase pattern) occurs case-insensitively in `s` at index `i`.
pub open spec fn ci_occurs_at(s: Seq<char>, i: int, w: Seq<char>) -> bool {
    &&& 0 <= i
    &&& i + w.len() <= s.len()
    &&& forall|k: int| 0 <= k < w.len() ==> ci_char(#[trigger] s[i + k], w[k])
}

/// First index `k >= i` at which `w` occurs case-insensitively in `s`.
pub open spec fn ci_first(s: Seq<char>, w: Seq<char>, i: int) -> Option<int>
    decreases s.len() + 1 - i,
{
    if i < 0 || i + w.len() > s.len() {
        None
    } else if ci_occurs_at(s, i, w) {
        Some(i)
    } else {
        ci_first(s, w, i + 1)
    }
}

pub proof fn lemma_ci_first(s: Seq<char>, w: Seq<char>, i: int)
    requires
        0 <= i,
    ensures
        ci_first(s, w, i) matches Some(k) ==> i <= k && ci_occurs_at(s, k, w),
        ci_first(s, w, i) matches Some(k) ==> forall|m: int| i <= m < k ==> !ci_occurs_at(s, m, w),
        ci_first(s, w, i) is None ==> forall|m: int| i <= m ==> !ci_occurs_at(s, m, w),
    decreases s.len() + 1 - i,
{
    if i + w.len() <= s.len() && !ci_occurs_at(s, i, w) {
        lemma_ci_first(s, w, i + 1);
    }
}

pub fn ci_char_eq(c: char, l: char) -> (r: bool)
    ensures
        r == ci_char(c, l),
{
    if 'a' <= l && l <= 'z' {
        let u: u32 = c as u32;
        let v: u32 = l as u32;
        c == l || u + 32 == v || (l == 'k' && u == 0x212a) || (l == 's' && u == 0x17f)
    } else {
        c == l
    }
}

/// Whether the lowercase pattern `w` occurs case-insensitively in `s` at `i`.
pub fn ci_matches_at(s: &Vec<char>, i: usize, w: &Vec<char>) -> (r: bool)
    ensures
        r == ci_occurs_at(s@, i as int, w@),
{
    if i > s.len() || w.len() > s.len() - i {
        return false;
    }
    let mut k: usize = 0;
    while k < w.len()
        invariant
            i + w.len() <= s.len(),
            k <= w.len(),
            forall|m: int| 0 <= m < k ==> ci_char(#[trigger] s@[i + m], w@[m]),
        decreases w.len() - k,
    {
        if !ci_char_eq(s[i + k], w[k]) {
            return false;
        }
        k = k + 1;
    }
    true
}

/// The first case-insensitive occurrence of `w` in `s` at or after `from`.
pub fn ci_find_from(s: &Vec<char>, w: &Vec<char>, from: usize) -> (r: Option<usize>)
    ensures
        opt_int(r) == ci_first(s@, w@, from as int),
{
    if from > s.len() || w.len() > s.len() - from {
        return None;
    }
    let last: usize = s.len() - w.len();
    let mut i: usize = from;
    while i <= last
        invariant
            from <= i,
            last == s.len() - w.len(),
            w.len() <= s.len(),
            ci_first(s@, w@, i as int) == ci_first(s@, w@, from as int),
        decreases last + 1 - i,
    {
        if ci_matches_at(s, i, w) {
            return Some(i);
        }
        if i == last {
            assert(ci_first(s@, w@, i + 1) is None);
            return None;
        }
        i = i + 1;
    }
    None
}

pub open spec fn is_ascii_digit(c: char) -> bool {
    '0' <= c && c <= '9'
}

pub open spec fn all_ascii_digits(s: Seq<char>) -> bool {
    forall|i: int| 0 <= i < s.len() ==> is_ascii_digit(#[trigger] s[i])
}

/// The number that a string of ASCII digits denotes.
pub open spec fn digits_value(s: Seq<char>) -> int
    decreases s.len(),
{
    if s.len() == 0 {
        0
    } else {
        digits_value(s.drop_last()) * 10 + (s.last() as int - '0' as int)
    }
}

/// The digits part of an unsigned number: `s` without one leading `+`.
pub open spec fn unsigned_digits(s: Seq<char>) -> Seq<char> {
    if s.len() > 1 && s[0] == '+' {
        s.drop_first()
    } else {
        s
    }
}

/// What `str::parse` accepts for an unsigned integer type whose largest value
/// is `max`: an optional `+`, then one or more ASCII digits, denoting at most `max`.
pub open spec fn parse_unsigned(s: Seq<char>, max: int) -> Option<int> {
    let d = unsigned_digits(s);
    if d.len() > 0 && all_ascii_digits(d) && digits_value(d) <= max {
        Some(digits_value(d))
    } else {
        None
    }
}

proof fn lemma_digits_value_prefix(d: Seq<char>, k: int)
    requires
        all_ascii_digits(d),
        0 <= k <= d.len(),
    ensures
        0 <= digits_value(d.take(k)) <= digits_value(d),
    decreases d.len(),
{
    if d.len() > 0 {
        lemma_digits_value_nonneg(d.drop_last());
        if k == d.len() {
            assert(d.take(k) =~= d);
        } else {
            assert(d.drop_last().take(k) =~= d.take(k));
            lemma_digits_value_prefix(d.drop_last(), k);
        }
    } else {
        assert(d.take(k) =~= d);
    }
}

proof fn lemma_digits_value_nonneg(d: Seq<char>)
    requires
        all_ascii_digits(d),
    ensures
        0 <= digits_value(d),
    decreases d.len(),
{
    if d.len() > 0 {
        lemma_digits_value_nonneg(d.drop_last());
    }
}

/// `str::parse` for an unsigned integer no larger than `max`.
pub fn parse_decimal(s: &Vec<char>, max: u64) -> (r: Option<u64>)
    ensures
        opt_u64(r) == parse_unsigned(s@, max as int),
{
    let start: usize = if s.len() > 1 && s[0] == '+' {
        1
    } else {
        0
    };
    let ghost d = unsigned_digits(s@);
    assert(d =~= s@.skip(start as int));
    if start >= s.len() {
        return None;
    }
    let mut v: u64 = 0;
    let mut i: usize = start;
    while i < s.len()
        invariant
            start <= i <= s.len(),
            d == s@.skip(start as int),
            d == unsigned_digits(s@),
            all_ascii_digits(d.take(i - start)),
            v as int == digits_value(d.take(i - start)),
            v <= max,
        decreases s.len() - i,
    {
        let c = s[i];
        assert(d[i - start] == c);
        if !('0' <= c && c <= '9') {
            assert(!all_ascii_digits(d));
            assert(parse_unsigned(s@, max as int) is None);
            return None;
        }
        let dv: u64 = (c as u32 - '0' as u32) as u64;
        let nv: u128 = v as u128 * 10 + dv as u128;
        assert(d.take(i + 1 - start).drop_last() =~= d.take(i - start));
        assert(all_ascii_digits(d.take(i + 1 - start)));
        if nv > max as u128 {
            proof {
                if all_ascii_digits(d) {
                    lemma_digits_value_prefix(d, i + 1 - start);
                }
            }
            assert(parse_unsigned(s@, max as int) is None);
            return None;
        }
        v = nv as u64;
        i = i + 1;
    }
    assert(d.take(i - start) =~= d);
    Some(v)
}

pub open spec fn opt_u64(r: Option<u64>) -> Option<int> {
    match r {
        Some(k) => Some(k as int),
        None => None,
    }
}

} // verus!

verus! {

/// Whether `c` is one of the characters of `set`.
pub fn char_in(set: &Vec<char>, c: char) -> (r: bool)
    ensures
        r == set@.contains(c),
{
    let mut i: usize = 0;
    while i < set.len()
        invariant
            i <= set.len(),
            forall|k: int| 0 <= k < i ==> set@[k] != c,
        decreases set.len() - i,
    {
        if set[i] == c {
            return true;
        }
        i = i + 1;
    }
    false
}

/// What `str::trim_matches` with a set of characters computes.
pub fn trim_set(s: &Vec<char>, set: &Vec<char>) -> (r: Vec<char>)
    ensures
        r@ == trim_by(s@, in_set(set@)),
{
    let ghost p = in_set(set@);
    let mut a: usize = 0;
    while a < s.len() && char_in(set, s[a])
        invariant
            a <= s.len(),
            p == in_set(set@),
            skip_while(s@, a as int, p) == skip_while(s@, 0, p),
        decreases s.len() - a,
    {
        a = a + 1;
    }
    let ghost t = s@.skip(a as int);
    let mut b: usize = s.len();
    while b > a && char_in(set, s[b - 1])
        invariant
            a <= b <= s.len(),
            t == s@.skip(a as int),
            p == in_set(set@),
            skip_while(s@, 0, p) == a,
            back_while(t, (b - a) as int, p) == back_while(t, t.len() as int, p),
        decreases b,
    {
        assert(t[(b - a) - 1] == s@[b - 1]);
        b = b - 1;
    }
    let r = copy_range(s, a, b);
    assert(r@ == t.take((b - a) as int));
    r
}

/// Whether `a` and `b` hold the same characters.
pub fn same_chars(a: &Vec<char>, b: &Vec<char>) -> (r: bool)
    ensures
        r == (a@ == b@),
{
    if a.len() != b.len() {
        return false;
    }
    let mut i: usize = 0;
    while i < a.len()
        invariant
            a.len() == b.len(),
            i <= a.len(),
            forall|k: int| 0 <= k < i ==> a@[k] == b@[k],
        decreases a.len() - i,
    {
        if a[i] != b[i] {
            return false;
        }
        i = i + 1;
    }
    assert(a@ =~= b@);
    true
}

/// Appends the characters of `w` to `r`.
pub fn push_all(r: &mut Vec<char>, w: &Vec<char>)
    ensures
        final(r)@ == old(r)@ + w@,
{
    let mut i: usize = 0;
    let ghost r0 = r@;
    while i < w.len()
        invariant
            i <= w.len(),
            r@ == r0 + w@.take(i as int),
        decreases w.len() - i,
    {
        r.push(w[i]);
        i = i + 1;
        assert(w@.take(i as int) =~= w@.take(i - 1) + seq![w@[i - 1]]);
    }
    assert(w@.take(i as int) =~= w@);
}

} // verus!

verus! {

pub open spec fn not_in(set: Seq<char>) -> spec_fn(char) -> bool {
    |c: char| !set.contains(c)
}

/// The first index at or after `k` whose character is in `set`, or the length.
pub fn skip_not_in(s: &Vec<char>, k: usize, set: &Vec<char>) -> (r: usize)
    requires
        k <= s.len(),
    ensures
        r as int == skip_while(s@, k as int, not_in(set@)),
        k <= r <= s.len(),
{
    let mut j: usize = k;
    while j < s.len() && !char_in(set, s[j])
        invariant
            k <= j <= s.len(),
            skip_while(s@, j as int, not_in(set@)) == skip_while(s@, k as int, not_in(set@)),
        decreases s.len() - j,
    {
        j = j + 1;
    }
    j
}

/// Replaces every character of `from` by `to`.
pub fn replace_char(s: &Vec<char>, from: char, to: char) -> (r: Vec<char>)
    ensures
        r@ == s@.map_values(|c: char| if c == from { to } else { c }),
{
    let mut r: Vec<char> = Vec::new();
    let mut i: usize = 0;
    while i < s.len()
        invariant
            i <= s.len(),
            r@ == s@.take(i as int).map_values(|c: char| if c == from { to } else { c }),
        decreases s.len() - i,
    {
        let c = s[i];
        r.push(if c == from { to } else { c });
        i = i + 1;
        assert(s@.take(i as int).map_values(|c: char| if c == from { to } else { c }) =~= s@.take(
            i - 1,
        ).map_values(|c: char| if c == from { to } else { c }).push(
            if s@[i - 1] == from { to } else { s@[i - 1] },
        ));
    }
    assert(s@.take(i as int) =~= s@);
    r
}

} // verus!

verus! {

/// `s` without the trailing characters that are in `set`.
pub fn trim_end_set(s: &Vec<char>, set: &Vec<char>) -> (r: Vec<char>)
    ensures
        r@ == s@.take(back_while(s@, s@.len() as int, in_set(set@))),
{
    let mut b: usize = s.len();
    while b > 0 && char_in(set, s[b - 1])
        invariant
            b <= s.len(),
            back_while(s@, b as int, in_set(set@)) == back_while(s@, s@.len() as int, in_set(set@)),
        decreases b,
    {
        b = b - 1;
    }
    let r = copy_range(s, 0, b);
    assert(r@ =~= s@.take(b as int));
    r
}

} // verus!

verus! {

/// The decimal digits of `n`, as `u64::to_string` writes them.
pub open spec fn decimal(n: nat) -> Seq<char>
    decreases n,
{
    if n < 10 {
        seq![(0x30 + n) as char]
    } else {
        decimal(n / 10) + seq![(0x30 + n % 10) as char]
    }
}

/// Appends the decimal digits of `n`.
pub fn push_decimal(r: &mut Vec<char>, n: u64)
    ensures
        final(r)@ == old(r)@ + decimal(n as nat),
    decreases n,
{
    if n >= 10 {
        push_decimal(r, n / 10);
    }
    let d: u64 = n % 10;
    let c: char = if d == 0 {
        '0'
    } else if d == 1 {
        '1'
    } else if d == 2 {
        '2'
    } else if d == 3 {
        '3'
    } else if d == 4 {
        '4'
    } else if d == 5 {
        '5'
    } else if d == 6 {
        '6'
    } else if d == 7 {
        '7'
    } else if d == 8 {
        '8'
    } else {
        '9'
    };
    assert(c == (0x30 + n % 10) as char);
    r.push(c);
}

} // verus!

verus! {

pub proof fn lemma_parse_nonneg(s: Seq<char>, max: int)
    ensures
        parse_unsigned(s, max) matches Some(v) ==> v >= 0,
{
    let d = unsigned_digits(s);
    if d.len() > 0 && all_ascii_digits(d) {
        lemma_digits_value_nonneg(d);
    }
}

} // verus!

verus! {

/// The decimal digits of `n` are ASCII digits, the first is not `+`, and
/// they denote `n`.
pub proof fn lemma_decimal_digits(n: nat)
    ensures
        decimal(n).len() > 0,
        all_ascii_digits(decimal(n)),
        decimal(n)[0] != '+',
        digits_value(decimal(n)) == n,
    decreases n,
{
    if n >= 10 {
        lemma_decimal_digits(n / 10);
        let d = decimal(n);
        assert(d.drop_last() =~= decimal(n / 10));
        assert(d[0] == decimal(n / 10)[0]);
        assert(d.last() == (0x30 + n % 10) as char);
        assert(((0x30 + n % 10) as char) as int == 0x30 + n % 10);
        assert(digits_value(d) == digits_value(d.drop_last()) * 10 + (n % 10));
        assert((n / 10) * 10 + n % 10 == n) by (nonlinear_arith);
    } else {
        let d = decimal(n);
        assert(d.drop_last() =~= Seq::<char>::empty());
        assert(((0x30 + n) as char) as int == 0x30 + n);
        assert(digits_value(d) == digits_value(d.drop_last()) * 10 + (d.last() as int - '0' as int));
    }
}

/// Parsing the decimal digits of `n` gives back `n`.
pub proof fn lemma_parse_decimal(n: nat, max: int)
    requires
        n <= max,
    ensures
        parse_unsigned(decimal(n), max) == Some(n as int),
{
    lemma_decimal_digits(n);
}

} // verus!

verus! {

/// `char::to_ascii_lowercase`: `A`-`Z` become `a`-`z`, every other
/// character stays.
pub open spec fn ascii_lower(c: char) -> char {
    if 'A' <= c && c <= 'Z' {
        (c as int + 32) as char
    } else {
        c
    }
}

/// `s` with ASCII letters lowercased.
pub open spec fn ascii_lowered(s: Seq<char>) -> Seq<char> {
    s.map_values(|c: char| ascii_lower(c))
}

/// A character whose lowercase form this library states: an ASCII
/// character, or one that has no case in Unicode and so no lowercase
/// mapping (`char::to_lowercase` gives it back as it is): Latin-1
/// punctuation and signs, general punctuation, CJK symbols and punctuation,
/// kana, CJK unified ideographs, and full-width digits and punctuation.
pub open spec fn case_known(c: char) -> bool {
    let u = c as int;
    ||| u < 0x80
    ||| 0x80 <= u <= 0xbf
    ||| 0x2000 <= u <= 0x206f
    ||| 0x3000 <= u <= 0x30ff
    ||| 0x4e00 <= u <= 0x9fff
    ||| 0xff01 <= u <= 0xff20
    ||| 0xff3b <= u <= 0xff40
    ||| 0xff5b <= u <= 0xff65
}

/// Every character of `s` has a lowercase form stated here.
pub open spec fn is_case_known(s: Seq<char>) -> bool {
    forall|i: int| 0 <= i < s.len() ==> case_known(#[trigger] s[i])
}

} // verus!
