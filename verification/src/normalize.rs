//! Name normalisation: the comparison form of a name, the cleaned search form
//! of a name, its cache key, and the classifications built on them.

use vstd::prelude::*;
use crate::ext::{
    lower_text, decimal_digit, word_char, to_lowercase, string_of, is_regex_digit, is_regex_word,
};
use crate::text::{
    chars_of, collapse_whitespace, collapse_ws, contains_chars, contains_seq, is_white,
    is_whitespace_char, lemma_skip_while_bounds, matches_at, occurs_at, opt_int, skip_while,
    trim, trim_chars, white, copy_range, push_all, same_chars, trim_by, in_set, trim_set,
};

verus! {

/// The full-width and typographic punctuation that comparison folds.
pub open spec fn fold_punct(c: char) -> char {
    if c == '：' {
        ':'
    } else if c == '，' {
        ','
    } else if c == '（' {
        '('
    } else if c == '）' {
        ')'
    } else if c == '’' || c == '`' {
        '\''
    } else {
        c
    }
}

/// Punctuation folded and every whitespace run turned into one space: what
/// comparison does after lowercasing.
pub open spec fn folded(l: Seq<char>) -> Seq<char> {
    collapse_ws(l.map_values(|c: char| fold_punct(c)))
}

/// Comparison form of a name: trimmed, lowercased, punctuation folded and
/// every whitespace run turned into one space.
pub open spec fn normalized(v: Seq<char>) -> Seq<char> {
    folded(lower_text(trim(v)))
}

fn fold_punct_char(c: char) -> (r: char)
    ensures
        r == fold_punct(c),
{
    if c == '：' {
        ':'
    } else if c == '，' {
        ','
    } else if c == '（' {
        '('
    } else if c == '）' {
        ')'
    } else if c == '’' || c == '`' {
        '\''
    } else {
        c
    }
}

/// Folds punctuation and collapses whitespace runs in a lowercased text.
pub fn fold_lowered(l: &Vec<char>) -> (r: Vec<char>)
    ensures
        r@ == folded(l@),
{
    let mut m: Vec<char> = Vec::new();
    let mut i: usize = 0;
    while i < l.len()
        invariant
            i <= l.len(),
            m@ == l@.take(i as int).map_values(|c: char| fold_punct(c)),
        decreases l.len() - i,
    {
        m.push(fold_punct_char(l[i]));
        i = i + 1;
        assert(l@.take(i as int).map_values(|c: char| fold_punct(c)) =~= l@.take(i - 1).map_values(
            |c: char| fold_punct(c),
        ).push(fold_punct(l@[i - 1])));
    }
    assert(l@.take(i as int) =~= l@);
    collapse_whitespace(&m)
}

/// Comparison form of a name, on characters.
pub fn normalize_chars(v: &Vec<char>) -> (r: Vec<char>)
    ensures
        r@ == normalized(v@),
{
    let t = trim_chars(v);
    let ts = string_of(&t);
    let lower = to_lowercase(ts.as_str());
    fold_lowered(&chars_of(lower.as_str()))
}

/// Comparison form of a name: trimmed, lowercased, full-width punctuation
/// folded, whitespace runs collapsed to one space.
pub fn normalize_text(value: &str) -> (r: String)
    ensures
        r@ == normalized(value@),
{
    let v = chars_of(value);
    string_of(&normalize_chars(&v))
}

} // verus!

verus! {

/// `l` contains at least one of `words`.
pub open spec fn contains_any(l: Seq<char>, words: Seq<&str>) -> bool {
    exists|k: int| 0 <= k < words.len() && contains_seq(l, (#[trigger] words[k])@)
}

/// Whether `l` contains at least one of `words`.
pub fn contains_any_word(l: &Vec<char>, words: &[&str]) -> (r: bool)
    ensures
        r == contains_any(l@, words@),
{
    let mut k: usize = 0;
    while k < words.len()
        invariant
            k <= words@.len(),
            forall|m: int| 0 <= m < k ==> !contains_seq(l@, (#[trigger] words@[m])@),
        decreases words.len() - k,
    {
        let w = chars_of(words[k]);
        if contains_chars(l, &w) {
            return true;
        }
        k = k + 1;
    }
    false
}

pub open spec fn is_sep(c: char) -> bool {
    c == '.' || c == '/' || c == '-'
}

/// `s[k]` exists and is in the regex class `\d`.
pub open spec fn digit_at(s: Seq<char>, k: int) -> bool {
    0 <= k < s.len() && decimal_digit(s[k])
}

/// `s[k]` exists and is in the regex class `\w`.
pub open spec fn word_at(s: Seq<char>, k: int) -> bool {
    0 <= k < s.len() && word_char(s[k])
}

/// The regex assertion `\b` at position `i` of `s`.
pub open spec fn word_boundary(s: Seq<char>, i: int) -> bool {
    word_at(s, i - 1) != word_at(s, i)
}

/// `\b20\d{2}[./-]\d` matches at `i`.
pub open spec fn date_head(s: Seq<char>, i: int) -> bool {
    &&& 0 <= i
    &&& i + 6 <= s.len()
    &&& word_boundary(s, i)
    &&& s[i] == '2'
    &&& s[i + 1] == '0'
    &&& digit_at(s, i + 2)
    &&& digit_at(s, i + 3)
    &&& is_sep(s[i + 4])
    &&& digit_at(s, i + 5)
}

/// End of the greedy `\d{1,2}` month that starts at `i + 5`.
pub open spec fn month_end(s: Seq<char>, i: int) -> int {
    if digit_at(s, i + 6) {
        i + 7
    } else {
        i + 6
    }
}

/// End of the greedy optional `([./-]\d{1,2})?` that starts at `m`.
pub open spec fn day_end(s: Seq<char>, m: int) -> int {
    if 0 <= m < s.len() && is_sep(s[m]) && digit_at(s, m + 1) {
        if digit_at(s, m + 2) {
            m + 3
        } else {
            m + 2
        }
    } else {
        m
    }
}

/// End of the optional `(到期|截止|过期)` that starts at `k`.
pub open spec fn expiry_end(s: Seq<char>, k: int) -> int {
    if occurs_at(s, k, "到期"@) {
        k + "到期"@.len()
    } else if occurs_at(s, k, "截止"@) {
        k + "截止"@.len()
    } else if occurs_at(s, k, "过期"@) {
        k + "过期"@.len()
    } else {
        k
    }
}

/// Where the leftmost-first match of the date pattern
/// `\b20\d{2}[./-]\d{1,2}([./-]\d{1,2})?\s*(到期|截止|过期)?` that starts at `i` ends.
pub open spec fn date_match_end(s: Seq<char>, i: int) -> Option<int> {
    if date_head(s, i) {
        Some(expiry_end(s, skip_while(s, day_end(s, month_end(s, i)), white())))
    } else {
        None
    }
}

pub proof fn lemma_date_match_end(s: Seq<char>, i: int)
    ensures
        date_match_end(s, i) matches Some(e) ==> i < e <= s.len(),
{
    if date_head(s, i) {
        lemma_skip_while_bounds(s, day_end(s, month_end(s, i)), white());
    }
}

/// `s[p..]` with every date match removed, matches taken left to right.
pub open spec fn strip_dates_from(s: Seq<char>, p: int) -> Seq<char>
    decreases s.len() - p,
{
    if p < 0 || p >= s.len() {
        seq![]
    } else {
        match date_match_end(s, p) {
            Some(e) => {
                proof {
                    lemma_date_match_end(s, p);
                }
                strip_dates_from(s, e)
            },
            None => seq![s[p]] + strip_dates_from(s, p + 1),
        }
    }
}

fn is_sep_char(c: char) -> (r: bool)
    ensures
        r == is_sep(c),
{
    c == '.' || c == '/' || c == '-'
}

fn digit_at_exec(s: &Vec<char>, k: usize) -> (r: bool)
    ensures
        r == digit_at(s@, k as int),
{
    k < s.len() && is_regex_digit(s[k])
}

fn word_boundary_exec(s: &Vec<char>, i: usize) -> (r: bool)
    requires
        i <= s.len(),
    ensures
        r == word_boundary(s@, i as int),
{
    let before: bool = i > 0 && is_regex_word(s[i - 1]);
    let after: bool = i < s.len() && is_regex_word(s[i]);
    before != after
}

fn date_head_exec(s: &Vec<char>, i: usize) -> (r: bool)
    requires
        i <= s.len(),
    ensures
        r == date_head(s@, i as int),
{
    if s.len() - i < 6 {
        return false;
    }
    word_boundary_exec(s, i) && s[i] == '2' && s[i + 1] == '0' && digit_at_exec(s, i + 2)
        && digit_at_exec(s, i + 3) && is_sep_char(s[i + 4]) && digit_at_exec(s, i + 5)
}

fn day_end_exec(s: &Vec<char>, m: usize) -> (r: usize)
    requires
        m <= s.len(),
    ensures
        r as int == day_end(s@, m as int),
        r <= s.len(),
{
    if m < s.len() && is_sep_char(s[m]) && digit_at_exec(s, m + 1) {
        if digit_at_exec(s, m + 2) {
            m + 3
        } else {
            m + 2
        }
    } else {
        m
    }
}

fn skip_white_from(s: &Vec<char>, k: usize) -> (r: usize)
    requires
        k <= s.len(),
    ensures
        r as int == skip_while(s@, k as int, white()),
        k <= r <= s.len(),
{
    let mut j: usize = k;
    while j < s.len() && is_whitespace_char(s[j])
        invariant
            k <= j <= s.len(),
            skip_while(s@, j as int, white()) == skip_while(s@, k as int, white()),
        decreases s.len() - j,
    {
        j = j + 1;
    }
    j
}

fn date_match_end_exec(s: &Vec<char>, i: usize) -> (r: Option<usize>)
    requires
        i <= s.len(),
    ensures
        opt_int(r) == date_match_end(s@, i as int),
{
    if !date_head_exec(s, i) {
        return None;
    }
    let m: usize = if digit_at_exec(s, i + 6) {
        i + 7
    } else {
        i + 6
    };
    let d = day_end_exec(s, m);
    let k = skip_white_from(s, d);
    let w1 = chars_of("到期");
    let w2 = chars_of("截止");
    let w3 = chars_of("过期");
    if matches_at(s, k, &w1) {
        Some(k + w1.len())
    } else if matches_at(s, k, &w2) {
        Some(k + w2.len())
    } else if matches_at(s, k, &w3) {
        Some(k + w3.len())
    } else {
        Some(k)
    }
}

/// Removes every match of the date pattern, matches taken left to right.
pub fn strip_dates(s: &Vec<char>) -> (r: Vec<char>)
    ensures
        r@ == strip_dates_from(s@, 0),
{
    let mut r: Vec<char> = Vec::new();
    let mut p: usize = 0;
    while p < s.len()
        invariant
            p <= s.len(),
            r@ + strip_dates_from(s@, p as int) == strip_dates_from(s@, 0),
        decreases s.len() - p,
    {
        let ghost p0 = p as int;
        proof {
            lemma_date_match_end(s@, p0);
        }
        match date_match_end_exec(s, p) {
            Some(e) => {
                p = e;
            },
            None => {
                assert(strip_dates_from(s@, p0) == seq![s@[p0]] + strip_dates_from(s@, p0 + 1));
                r.push(s[p]);
                assert(r@ + strip_dates_from(s@, p0 + 1) == strip_dates_from(s@, 0));
                p = p + 1;
            },
        }
    }
    r
}

} // verus!

verus! {

/// `\d{1,2}` after the separator at `i + 4` can end at `m`.
pub open spec fn month_ok(s: Seq<char>, i: int, m: int) -> bool {
    m == i + 6 || (m == i + 7 && digit_at(s, i + 6))
}

/// `([./-]\d{1,2})?` starting at `m` can end at `e`.
pub open spec fn day_ok(s: Seq<char>, m: int, e: int) -> bool {
    ||| e == m
    ||| 0 <= m < s.len() && is_sep(s[m]) && digit_at(s, m + 1) && (e == m + 2 || (e == m + 3
        && digit_at(s, m + 2)))
}

/// The pattern `\b20\d{2}[./-]\d{1,2}([./-]\d{1,2})?\b` matches starting at `i`.
pub open spec fn dated_at(s: Seq<char>, i: int) -> bool {
    &&& date_head(s, i)
    &&& exists|m: int, e: int|
        #![trigger month_ok(s, i, m), day_ok(s, m, e)]
        month_ok(s, i, m) && day_ok(s, m, e) && word_boundary(s, e)
}

/// The pattern `\b20\d{2}[./-]\d{1,2}([./-]\d{1,2})?\b` matches somewhere in `s`.
pub open spec fn has_date(s: Seq<char>) -> bool {
    exists|i: int| dated_at(s, i)
}

/// The pattern `^[\d./\-\s]+$` matches `s`.
pub open spec fn numeric_only(s: Seq<char>) -> bool {
    &&& s.len() > 0
    &&& forall|k: int|
        0 <= k < s.len() ==> decimal_digit(#[trigger] s[k]) || is_sep(s[k]) || is_white(s[k])
}

/// Words that mark a parenthesised note as metadata rather than part of a name.
pub open spec fn metadata_words() -> Seq<&'static str> {
    seq![
        "到期",
        "截止",
        "过期",
        "有效期",
        "expires",
        "expire",
        "expired",
        "steam",
        "key",
        "gift",
        "code",
        "兑换",
        "激活",
        "领取",
        "平台",
        "cn",
        "global",
    ]
}

/// A parenthesised note whose text is `t` is metadata (an expiry date, a key
/// or platform remark, a bare number) and is dropped from a name.
pub open spec fn is_metadata(t: Seq<char>) -> bool {
    let l = normalized(t);
    contains_any(l, metadata_words()) || has_date(l) || numeric_only(l)
}

fn dated_at_exec(s: &Vec<char>, i: usize) -> (r: bool)
    requires
        i <= s.len(),
    ensures
        r == dated_at(s@, i as int),
{
    if !date_head_exec(s, i) {
        return false;
    }
    let ghost ss = s@;
    let ghost ii = i as int;
    let mut m: usize = i + 6;
    loop
        invariant
            ss == s@,
            ii == i,
            date_head(ss, ii),
            m == i + 6 || m == i + 7,
            month_ok(ss, ii, m as int),
            m == i + 7 ==> forall|e: int|
                #![trigger day_ok(ss, ii + 6, e)]
                day_ok(ss, ii + 6, e) ==> !word_boundary(ss, e),
        decreases i + 8 - m,
    {
        if word_boundary_exec(s, m) {
            assert(day_ok(ss, m as int, m as int));
            return true;
        }
        if m < s.len() && is_sep_char(s[m]) && digit_at_exec(s, m + 1) {
            if word_boundary_exec(s, m + 2) {
                assert(day_ok(ss, m as int, m + 2));
                return true;
            }
            if digit_at_exec(s, m + 2) && word_boundary_exec(s, m + 3) {
                assert(day_ok(ss, m as int, m + 3));
                return true;
            }
        }
        assert forall|e: int| #![trigger day_ok(ss, m as int, e)] day_ok(ss, m as int, e) implies !word_boundary(ss, e) by {
        }
        if m != i + 6 || !digit_at_exec(s, i + 6) {
            assert forall|mm: int, e: int|
                #![trigger month_ok(ss, ii, mm), day_ok(ss, mm, e)]
                month_ok(ss, ii, mm) && day_ok(ss, mm, e) implies !word_boundary(ss, e) by {
                if mm == ii + 6 {
                } else {
                }
            }
            return false;
        }
        m = i + 7;
    }
}

/// Whether the date pattern with a closing word boundary matches somewhere in `s`.
pub fn has_date_exec(s: &Vec<char>) -> (r: bool)
    ensures
        r == has_date(s@),
{
    let mut i: usize = 0;
    while i < s.len()
        invariant
            i <= s.len(),
            forall|k: int| 0 <= k < i ==> !dated_at(s@, k),
        decreases s.len() - i,
    {
        if dated_at_exec(s, i) {
            return true;
        }
        i = i + 1;
    }
    assert forall|k: int| !dated_at(s@, k) by {
        if k < 0 || k >= s.len() {
        }
    }
    false
}

fn numeric_only_exec(s: &Vec<char>) -> (r: bool)
    ensures
        r == numeric_only(s@),
{
    if s.len() == 0 {
        return false;
    }
    let mut k: usize = 0;
    while k < s.len()
        invariant
            k <= s.len(),
            forall|m: int|
                0 <= m < k ==> decimal_digit(#[trigger] s@[m]) || is_sep(s@[m]) || is_white(s@[m]),
        decreases s.len() - k,
    {
        let c = s[k];
        if !(is_regex_digit(c) || is_sep_char(c) || is_whitespace_char(c)) {
            return false;
        }
        k = k + 1;
    }
    true
}

/// Whether a parenthesised note with text `text` is metadata to drop from a name.
pub fn bracket_is_metadata(text: &Vec<char>) -> (r: bool)
    ensures
        r == is_metadata(text@),
{
    let lowered = normalize_chars(text);
    let words: [&str; 17] = [
        "到期",
        "截止",
        "过期",
        "有效期",
        "expires",
        "expire",
        "expired",
        "steam",
        "key",
        "gift",
        "code",
        "兑换",
        "激活",
        "领取",
        "平台",
        "cn",
        "global",
    ];
    assert(words@ == metadata_words());
    contains_any_word(&lowered, &words) || has_date_exec(&lowered) || numeric_only_exec(&lowered)
}

} // verus!

verus! {

pub open spec fn is_paren(c: char) -> bool {
    c == '(' || c == ')'
}

pub open spec fn not_paren() -> spec_fn(char) -> bool {
    |c: char| !is_paren(c)
}

/// Where the pattern `\(([^()]*)\)` that starts at `p` closes, if it matches there.
pub open spec fn bracket_close(s: Seq<char>, p: int) -> Option<int> {
    if 0 <= p < s.len() && s[p] == '(' {
        let j = skip_while(s, p + 1, not_paren());
        if j < s.len() && s[j] == ')' {
            Some(j)
        } else {
            None
        }
    } else {
        None
    }
}

pub proof fn lemma_bracket_close(s: Seq<char>, p: int)
    ensures
        bracket_close(s, p) matches Some(j) ==> p < j < s.len(),
{
    if 0 <= p < s.len() && s[p] == '(' {
        lemma_skip_while_bounds(s, p + 1, not_paren());
    }
}

/// One left-to-right pass over `s[p..]` that drops every innermost
/// parenthesised note that is metadata and keeps every other character.
pub open spec fn bracket_pass_from(s: Seq<char>, p: int) -> Seq<char>
    decreases s.len() - p,
{
    if p < 0 || p >= s.len() {
        seq![]
    } else {
        match bracket_close(s, p) {
            Some(j) => {
                proof {
                    lemma_bracket_close(s, p);
                }
                (if is_metadata(s.subrange(p + 1, j)) {
                    seq![]
                } else {
                    s.subrange(p, j + 1)
                }) + bracket_pass_from(s, j + 1)
            },
            None => seq![s[p]] + bracket_pass_from(s, p + 1),
        }
    }
}

pub proof fn lemma_bracket_pass_len(s: Seq<char>, p: int)
    requires
        0 <= p <= s.len(),
    ensures
        bracket_pass_from(s, p).len() <= s.len() - p,
        bracket_pass_from(s, p).len() == s.len() - p ==> bracket_pass_from(s, p) == s.skip(p),
    decreases s.len() - p,
{
    if p < s.len() {
        lemma_bracket_close(s, p);
        match bracket_close(s, p) {
            Some(j) => {
                lemma_bracket_pass_len(s, j + 1);
                if !is_metadata(s.subrange(p + 1, j)) && bracket_pass_from(s, p).len() == s.len()
                    - p {
                    assert(s.subrange(p, j + 1) + s.skip(j + 1) =~= s.skip(p));
                }
            },
            None => {
                lemma_bracket_pass_len(s, p + 1);
                if bracket_pass_from(s, p).len() == s.len() - p {
                    assert(seq![s[p]] + s.skip(p + 1) =~= s.skip(p));
                }
            },
        }
    } else {
        assert(s.skip(p) =~= seq![]);
    }
}

/// Repeats the pass until it changes nothing: the fixpoint that the loop of
/// `clean_name` reaches.
pub open spec fn bracket_fix(s: Seq<char>) -> Seq<char>
    decreases s.len(),
{
    let t = bracket_pass_from(s, 0);
    if t == s {
        s
    } else {
        proof {
            lemma_bracket_pass_len(s, 0);
            assert(s.skip(0) =~= s);
        }
        bracket_fix(t)
    }
}

/// One pass that drops metadata notes in parentheses.
fn bracket_pass(s: &Vec<char>) -> (r: Vec<char>)
    ensures
        r@ == bracket_pass_from(s@, 0),
{
    let mut r: Vec<char> = Vec::new();
    let mut p: usize = 0;
    while p < s.len()
        invariant
            p <= s.len(),
            r@ + bracket_pass_from(s@, p as int) == bracket_pass_from(s@, 0),
        decreases s.len() - p,
    {
        let ghost p0 = p as int;
        proof {
            lemma_bracket_close(s@, p0);
        }
        let mut close: Option<usize> = None;
        if s[p] == '(' {
            let mut j: usize = p + 1;
            while j < s.len() && !(s[j] == '(' || s[j] == ')')
                invariant
                    p0 < j <= s.len(),
                    skip_while(s@, j as int, not_paren()) == skip_while(s@, p0 + 1, not_paren()),
                decreases s.len() - j,
            {
                j = j + 1;
            }
            if j < s.len() && s[j] == ')' {
                close = Some(j);
            }
        }
        assert(opt_int(close) == bracket_close(s@, p0));
        match close {
            Some(j) => {
                let inner = copy_range(s, p + 1, j);
                if !bracket_is_metadata(&inner) {
                    let whole = copy_range(s, p, j + 1);
                    push_all(&mut r, &whole);
                }
                p = j + 1;
            },
            None => {
                r.push(s[p]);
                p = p + 1;
            },
        }
    }
    r
}

/// The full-width punctuation that cleaning folds, and the ideographic space.
pub open spec fn clean_punct(c: char) -> char {
    if c == '：' {
        ':'
    } else if c == '，' {
        ','
    } else if c == '（' {
        '('
    } else if c == '）' {
        ')'
    } else if c as int == 0x3000 {
        ' '
    } else {
        c
    }
}

/// The cleaned search form of a name: trimmed, punctuation folded, metadata
/// notes in parentheses and date remarks dropped, whitespace runs collapsed,
/// and ` -_|` and line breaks trimmed from both ends.
pub open spec fn cleaned(v: Seq<char>) -> Seq<char> {
    let a = trim(v).map_values(|c: char| clean_punct(c));
    let b = bracket_fix(a);
    let d = strip_dates_from(b, 0);
    trim_by(collapse_ws(d), in_set(" -_|\t\r\n"@))
}

fn clean_punct_char(c: char) -> (r: char)
    ensures
        r == clean_punct(c),
{
    if c == '：' {
        ':'
    } else if c == '，' {
        ','
    } else if c == '（' {
        '('
    } else if c == '）' {
        ')'
    } else if c == '\u{3000}' {
        ' '
    } else {
        c
    }
}

/// The cleaned search form of a name, on characters.
pub fn clean_chars(v: &Vec<char>) -> (r: Vec<char>)
    ensures
        r@ == cleaned(v@),
{
    let t = trim_chars(v);
    let mut a: Vec<char> = Vec::new();
    let mut i: usize = 0;
    while i < t.len()
        invariant
            i <= t.len(),
            a@ == t@.take(i as int).map_values(|c: char| clean_punct(c)),
        decreases t.len() - i,
    {
        a.push(clean_punct_char(t[i]));
        i = i + 1;
        assert(t@.take(i as int).map_values(|c: char| clean_punct(c)) =~= t@.take(i - 1).map_values(
            |c: char| clean_punct(c),
        ).push(clean_punct(t@[i - 1])));
    }
    assert(t@.take(i as int) =~= t@);
    let ghost a0 = a@;
    let mut text = a;
    loop
        invariant
            bracket_fix(text@) == bracket_fix(a0),
        ensures
            text@ == bracket_fix(a0),
        decreases text@.len(),
    {
        let next = bracket_pass(&text);
        if same_chars(&next, &text) {
            break;
        }
        proof {
            lemma_bracket_pass_len(text@, 0);
            assert(text@.skip(0) =~= text@);
        }
        text = next;
    }
    let d = strip_dates(&text);
    let c = collapse_whitespace(&d);
    let set = chars_of(" -_|\t\r\n");
    trim_set(&c, &set)
}

/// The cleaned search form of a name: remarks such as expiry dates in
/// parentheses are dropped.
pub fn clean_name(value: &str) -> (r: String)
    ensures
        r@ == cleaned(value@),
{
    let v = chars_of(value);
    string_of(&clean_chars(&v))
}

} // verus!

verus! {

/// A character that cache keys keep: `a`-`z`, `0`-`9` and CJK unified ideographs.
pub open spec fn key_char(c: char) -> bool {
    ('a' <= c && c <= 'z') || ('0' <= c && c <= '9') || is_cjk(c)
}

pub open spec fn is_cjk(c: char) -> bool {
    0x4e00 <= c as int && c as int <= 0x9fff
}

/// `s` without the characters that cache keys drop.
pub open spec fn compact(s: Seq<char>) -> Seq<char>
    decreases s.len(),
{
    if s.len() == 0 {
        seq![]
    } else if key_char(s.last()) {
        compact(s.drop_last()).push(s.last())
    } else {
        compact(s.drop_last())
    }
}

/// The key under which matches of a name are cached: the compact form of
/// its normalised cleaned name, or that normalised cleaned name where the
/// compact form is empty.
pub open spec fn cache_key_of(v: Seq<char>) -> Seq<char> {
    let n = normalized(cleaned(v));
    if compact(n).len() == 0 {
        n
    } else {
        compact(n)
    }
}

fn is_key_char(c: char) -> (r: bool)
    ensures
        r == key_char(c),
{
    ('a' <= c && c <= 'z') || ('0' <= c && c <= '9') || ('\u{4e00}' <= c && c <= '\u{9fff}')
}

/// The characters of `s` that cache keys keep.
pub fn compact_chars(s: &Vec<char>) -> (r: Vec<char>)
    ensures
        r@ == compact(s@),
{
    let mut r: Vec<char> = Vec::new();
    let mut i: usize = 0;
    while i < s.len()
        invariant
            i <= s.len(),
            r@ == compact(s@.take(i as int)),
        decreases s.len() - i,
    {
        assert(s@.take(i + 1).drop_last() =~= s@.take(i as int));
        if is_key_char(s[i]) {
            r.push(s[i]);
        }
        i = i + 1;
    }
    assert(s@.take(i as int) =~= s@);
    r
}

/// The cache key of a name, on characters.
pub fn cache_key_chars(v: &Vec<char>) -> (r: Vec<char>)
    ensures
        r@ == cache_key_of(v@),
{
    let c = clean_chars(v);
    let n = normalize_chars(&c);
    let k = compact_chars(&n);
    if k.len() == 0 {
        n
    } else {
        k
    }
}

/// The key under which the match for a name is cached.
pub fn cache_key(value: &str) -> (r: String)
    ensures
        r@ == cache_key_of(value@),
{
    let v = chars_of(value);
    string_of(&cache_key_chars(&v))
}

/// `s` holds a CJK unified ideograph.
pub open spec fn has_cjk_spec(s: Seq<char>) -> bool {
    exists|i: int| 0 <= i < s.len() && is_cjk(#[trigger] s[i])
}

/// Whether `s` holds a CJK unified ideograph.
pub fn has_cjk(s: &Vec<char>) -> (r: bool)
    ensures
        r == has_cjk_spec(s@),
{
    let mut i: usize = 0;
    while i < s.len()
        invariant
            i <= s.len(),
            forall|k: int| 0 <= k < i ==> !is_cjk(#[trigger] s@[k]),
        decreases s.len() - i,
    {
        if '\u{4e00}' <= s[i] && s[i] <= '\u{9fff}' {
            return true;
        }
        i = i + 1;
    }
    false
}

/// The store language for a query: Simplified Chinese where its cleaned name
/// holds a CJK ideograph, English otherwise.
pub open spec fn search_language(query: Seq<char>) -> Seq<char> {
    if has_cjk_spec(cleaned(query)) {
        "schinese"@
    } else {
        "english"@
    }
}

/// Chinese names are searched in the Simplified Chinese store, other names
/// in the English store.
pub fn steam_search_language(query: &str) -> (r: &'static str)
    ensures
        r@ == search_language(query@),
{
    let q = chars_of(query);
    if has_cjk(&clean_chars(&q)) {
        "schinese"
    } else {
        "english"
    }
}

/// The confidence label of a score: 高 from 88, 中 from 70, 低 below.
pub open spec fn confidence_label(score: int) -> Seq<char> {
    if score >= 88 {
        "高"@
    } else if score >= 70 {
        "中"@
    } else {
        "低"@
    }
}

/// The confidence label of a score.
pub fn confidence_for(score: i32) -> (r: String)
    ensures
        r@ == confidence_label(score as int),
{
    if score >= 88 {
        "高".to_owned()
    } else if score >= 70 {
        "中".to_owned()
    } else {
        "低".to_owned()
    }
}

/// Words that mark a store result as something other than the game itself.
pub open spec fn non_game_words() -> Seq<&'static str> {
    seq![
        " dlc",
        "soundtrack",
        "ost",
        "demo",
        "playtest",
        "dedicated server",
        "wallpaper",
        "artbook",
        " 试玩版",
        "图集",
        "原声音乐",
        "原声音乐集",
        "upgrade pack",
        "season pass",
        "expansion pass",
    ]
}

/// The text that the non-game test searches: a space, the normalised title,
/// a space, the normalised link.
pub open spec fn non_game_haystack(title: Seq<char>, url: Seq<char>) -> Seq<char> {
    seq![' '] + normalized(title) + seq![' '] + normalized(url)
}

/// A store result whose title or link names a DLC, soundtrack, demo,
/// playtest, server, wallpaper, artbook or pass is not the game itself.
pub open spec fn likely_non_game(title: Seq<char>, url: Seq<char>) -> bool {
    contains_any(non_game_haystack(title, url), non_game_words())
}

/// Whether a store result is likely not the game itself.
pub fn is_likely_non_game(title: &str, url: &str) -> (r: bool)
    ensures
        r == likely_non_game(title@, url@),
{
    let t = normalize_chars(&chars_of(title));
    let u = normalize_chars(&chars_of(url));
    let mut hay: Vec<char> = Vec::new();
    hay.push(' ');
    push_all(&mut hay, &t);
    hay.push(' ');
    push_all(&mut hay, &u);
    let words: [&str; 15] = [
        " dlc",
        "soundtrack",
        "ost",
        "demo",
        "playtest",
        "dedicated server",
        "wallpaper",
        "artbook",
        " 试玩版",
        "图集",
        "原声音乐",
        "原声音乐集",
        "upgrade pack",
        "season pass",
        "expansion pass",
    ];
    assert(words@ == non_game_words());
    assert(hay@ =~= non_game_haystack(title@, url@));
    contains_any_word(&hay, &words)
}

} // verus!
