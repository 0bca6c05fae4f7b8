//! Reading store search and suggestion pages: the store app links they list
//! with their titles, and the ranked candidates built from them.

use vstd::prelude::*;
use crate::ext::{is_regex_digit, is_regex_word, decimal_digit, string_of};
use crate::normalize::word_boundary;
use crate::text::{
    chars_of, ci_find_from, ci_first, ci_matches_at, ci_occurs_at, copy_range, in_set,
    lemma_ci_first, lemma_skip_while_bounds, not_in, opt_int, push_all, skip_not_in, skip_while,
};

verus! {

/// `word` occurs case-insensitively in `b[v..q]` between two word boundaries.
pub open spec fn has_class_word(b: Seq<char>, v: int, q: int, word: Seq<char>) -> bool {
    exists|w: int|
        #![trigger ci_occurs_at(b, w, word)]
        v <= w && w + word.len() <= q && ci_occurs_at(b, w, word) && word_boundary(b, w)
            && word_boundary(b, w + word.len())
}

/// End of the quoted class value that starts at `v`.
pub open spec fn value_end(b: Seq<char>, v: int) -> int {
    skip_while(b, v, not_in(seq!['"']))
}

/// End of the tag after the closing quote at `q`.
pub open spec fn tag_end_after(b: Seq<char>, q: int) -> int {
    skip_while(b, q + 1, not_in(seq!['>']))
}

/// From `c`, the pattern `class="[^"]*\b<word>\b[^"]*"[^>]*>.*?<close>` matches.
pub open spec fn class_ok(b: Seq<char>, c: int, word: Seq<char>, close: Seq<char>) -> bool {
    let v = c + "class=\""@.len();
    let q = value_end(b, v);
    let g = tag_end_after(b, q);
    &&& ci_occurs_at(b, c, "class=\""@)
    &&& q < b.len()
    &&& has_class_word(b, v, q, word)
    &&& g < b.len()
    &&& ci_first(b, close, g + 1) is Some
}

/// The last position `c` in `[lo, hi]` from which `class_ok` holds: the
/// position that the greedy `[^>]+` before `class="` settles on.
pub open spec fn best_class(b: Seq<char>, lo: int, hi: int, word: Seq<char>, close: Seq<char>) -> Option<int>
    decreases hi - lo + 1,
{
    if hi < lo {
        None
    } else if class_ok(b, hi, word, close) {
        Some(hi)
    } else {
        best_class(b, lo, hi - 1, word, close)
    }
}

/// The tag `<open[^>]+class="...">` that starts at `s`: its `class="` position.
pub open spec fn titled_tag_at(b: Seq<char>, s: int, open: Seq<char>, word: Seq<char>, close: Seq<char>) -> Option<int> {
    if ci_occurs_at(b, s, open) {
        best_class(b, s + open.len() + 1, skip_while(b, s + open.len(), not_in(seq!['>'])), word, close)
    } else {
        None
    }
}

/// The leftmost start at or after `p` of a titled tag, with its `class="` position.
pub open spec fn first_titled_tag(b: Seq<char>, p: int, open: Seq<char>, word: Seq<char>, close: Seq<char>) -> Option<int>
    decreases b.len() + 1 - p,
{
    if p < 0 || p > b.len() {
        None
    } else if titled_tag_at(b, p, open, word, close) is Some {
        titled_tag_at(b, p, open, word, close)
    } else {
        first_titled_tag(b, p + 1, open, word, close)
    }
}

/// The text that the first match of
/// `(?is)<open[^>]+class="[^"]*\b<word>\b[^"]*"[^>]*>(.*?)<close>` in `b` captures.
pub open spec fn tagged_title(b: Seq<char>, open: Seq<char>, word: Seq<char>, close: Seq<char>) -> Option<Seq<char>> {
    match first_titled_tag(b, 0, open, word, close) {
        Some(c) => {
            let g = tag_end_after(b, value_end(b, c + "class=\""@.len()));
            Some(b.subrange(g + 1, ci_first(b, close, g + 1)->0))
        },
        None => None,
    }
}

proof fn lemma_best_class(b: Seq<char>, lo: int, hi: int, word: Seq<char>, close: Seq<char>)
    ensures
        best_class(b, lo, hi, word, close) matches Some(c) ==> lo <= c <= hi && class_ok(b, c, word, close),
    decreases hi - lo + 1,
{
    if hi >= lo && !class_ok(b, hi, word, close) {
        lemma_best_class(b, lo, hi - 1, word, close);
    }
}

proof fn lemma_first_titled_tag(b: Seq<char>, p: int, open: Seq<char>, word: Seq<char>, close: Seq<char>)
    requires
        0 <= p,
    ensures
        first_titled_tag(b, p, open, word, close) matches Some(c) ==> class_ok(b, c, word, close),
    decreases b.len() + 1 - p,
{
    if p <= b.len() {
        if titled_tag_at(b, p, open, word, close) is Some {
            lemma_best_class(b, p + open.len() + 1, skip_while(b, p + open.len(), not_in(seq!['>'])), word, close);
        } else {
            lemma_first_titled_tag(b, p + 1, open, word, close);
        }
    }
}

fn has_class_word_exec(b: &Vec<char>, v: usize, q: usize, word: &Vec<char>) -> (r: bool)
    requires
        v <= q <= b.len(),
    ensures
        r == has_class_word(b@, v as int, q as int, word@),
{
    if word.len() > q - v {
        return false;
    }
    let last: usize = q - word.len();
    let mut w: usize = v;
    while w <= last
        invariant
            v <= w,
            last + word.len() == q,
            q <= b.len(),
            forall|m: int|
                #![trigger ci_occurs_at(b@, m, word@)]
                v <= m < w ==> !(ci_occurs_at(b@, m, word@) && word_boundary(b@, m) && word_boundary(
                    b@,
                    m + word@.len(),
                )),
        decreases last + 1 - w,
    {
        if ci_matches_at(b, w, word) && boundary_exec(b, w) && boundary_exec(b, w + word.len()) {
            return true;
        }
        if w == last {
            assert forall|m: int|
                #![trigger ci_occurs_at(b@, m, word@)]
                v <= m && m + word@.len() <= q implies !(ci_occurs_at(b@, m, word@) && word_boundary(
                    b@,
                    m,
                ) && word_boundary(b@, m + word@.len())) by {
                if m < w {
                } else {
                    assert(m == w);
                }
            }
            return false;
        }
        w = w + 1;
    }
    false
}

fn boundary_exec(b: &Vec<char>, i: usize) -> (r: bool)
    requires
        i <= b.len(),
    ensures
        r == word_boundary(b@, i as int),
{
    let before: bool = i > 0 && is_regex_word(b[i - 1]);
    let after: bool = i < b.len() && is_regex_word(b[i]);
    before != after
}

fn single(c: char) -> (r: Vec<char>)
    ensures
        r@ == seq![c],
{
    let mut r: Vec<char> = Vec::new();
    r.push(c);
    assert(r@ =~= seq![c]);
    r
}

fn class_ok_exec(b: &Vec<char>, c: usize, word: &Vec<char>, close: &Vec<char>, class_lit: &Vec<char>) -> (r: bool)
    requires
        c <= b.len(),
        class_lit@ == "class=\""@,
    ensures
        r == class_ok(b@, c as int, word@, close@),
{
    if !ci_matches_at(b, c, class_lit) {
        return false;
    }
    let v: usize = c + class_lit.len();
    let q = skip_not_in(b, v, &single('"'));
    if q >= b.len() {
        return false;
    }
    if !has_class_word_exec(b, v, q, word) {
        return false;
    }
    let g = skip_not_in(b, q + 1, &single('>'));
    if g >= b.len() {
        return false;
    }
    ci_find_from(b, close, g + 1).is_some()
}

fn best_class_exec(b: &Vec<char>, lo: usize, hi: usize, word: &Vec<char>, close: &Vec<char>, class_lit: &Vec<char>) -> (r: Option<usize>)
    requires
        hi <= b.len(),
        class_lit@ == "class=\""@,
    ensures
        opt_int(r) == best_class(b@, lo as int, hi as int, word@, close@),
{
    let mut h: usize = hi;
    loop
        invariant
            h <= hi <= b.len(),
            class_lit@ == "class=\""@,
            best_class(b@, lo as int, h as int, word@, close@) == best_class(b@, lo as int, hi as int, word@, close@),
        decreases h,
    {
        if h < lo {
            return None;
        }
        if class_ok_exec(b, h, word, close, class_lit) {
            return Some(h);
        }
        if h == 0 {
            assert(best_class(b@, lo as int, -1, word@, close@) is None);
            return None;
        }
        h = h - 1;
    }
}

fn titled_tag_at_exec(b: &Vec<char>, p: usize, open: &Vec<char>, word: &Vec<char>, close: &Vec<char>, class_lit: &Vec<char>) -> (r: Option<usize>)
    requires
        p <= b.len(),
        class_lit@ == "class=\""@,
    ensures
        opt_int(r) == titled_tag_at(b@, p as int, open@, word@, close@),
{
    if !ci_matches_at(b, p, open) {
        return None;
    }
    let lim = skip_not_in(b, p + open.len(), &single('>'));
    if p + open.len() >= b.len() {
        assert(best_class(b@, p + open@.len() + 1, lim as int, word@, close@) is None);
        return None;
    }
    let lo: usize = p + open.len() + 1;
    best_class_exec(b, lo, lim, word, close, class_lit)
}

fn first_titled_tag_exec(b: &Vec<char>, open: &Vec<char>, word: &Vec<char>, close: &Vec<char>, class_lit: &Vec<char>) -> (r: Option<usize>)
    requires
        class_lit@ == "class=\""@,
    ensures
        opt_int(r) == first_titled_tag(b@, 0, open@, word@, close@),
{
    let mut p: usize = 0;
    while p <= b.len()
        invariant
            p <= b.len() + 1,
            class_lit@ == "class=\""@,
            first_titled_tag(b@, p as int, open@, word@, close@) == first_titled_tag(b@, 0, open@, word@, close@),
        decreases b.len() + 1 - p,
    {
        let c = titled_tag_at_exec(b, p, open, word, close, class_lit);
        if c.is_some() {
            return c;
        }
        if p == b.len() {
            assert(first_titled_tag(b@, p + 1, open@, word@, close@) is None);
            return None;
        }
        p = p + 1;
    }
    None
}

/// The text captured by the first match of
/// `(?is)<open[^>]+class="[^"]*\b<word>\b[^"]*"[^>]*>(.*?)<close>` in `b`.
pub fn find_tagged_title(b: &Vec<char>, open: &Vec<char>, word: &Vec<char>, close: &Vec<char>) -> (r: Option<Vec<char>>)
    ensures
        match r {
            Some(x) => tagged_title(b@, open@, word@, close@) == Some(x@),
            None => tagged_title(b@, open@, word@, close@) is None,
        },
{
    let class_lit = chars_of("class=\"");
    let found = first_titled_tag_exec(b, open, word, close, &class_lit);
    proof {
        lemma_first_titled_tag(b@, 0, open@, word@, close@);
    }
    match found {
        Some(c) => {
            assert(class_ok(b@, c as int, word@, close@));
            assert(ci_occurs_at(b@, c as int, class_lit@));
            assert(c + class_lit@.len() <= b@.len());
            assert(c + class_lit.len() <= b.len());
            let v: usize = c + class_lit.len();
            let q = skip_not_in(b, v, &single('"'));
            let g = skip_not_in(b, q + 1, &single('>'));
            proof {
                lemma_ci_first(b@, close@, g + 1);
            }
            let e = ci_find_from(b, close, g + 1);
            match e {
                Some(e) => Some(copy_range(b, g + 1, e)),
                None => None,
            }
        },
        None => None,
    }
}

} // verus!

verus! {

pub open spec fn href_lit() -> Seq<char> {
    "href=\""@
}

pub open spec fn app_prefix() -> Seq<char> {
    "https://store.steampowered.com/app/"@
}

pub open spec fn digit_pred() -> spec_fn(char) -> bool {
    |c: char| decimal_digit(c)
}

/// Where the app id digits of the link in the `href` at `h` end.
pub open spec fn href_digits_end(t: Seq<char>, h: int) -> int {
    skip_while(t, h + href_lit().len() + app_prefix().len(), digit_pred())
}

/// Where the link in the `href` at `h` ends: before the first `"` or `?`
/// after the `/` that follows the app id.
pub open spec fn href_url_end(t: Seq<char>, h: int) -> int {
    skip_while(t, href_digits_end(t, h) + 1, not_in(seq!['"', '?']))
}

/// The quote that closes the `href` at `h`.
pub open spec fn href_quote(t: Seq<char>, h: int) -> int {
    skip_while(t, href_url_end(t, h), not_in(seq!['"']))
}

/// The `>` that closes the anchor tag whose `href` is at `h`.
pub open spec fn href_tag_end(t: Seq<char>, h: int) -> int {
    skip_while(t, href_quote(t, h) + 1, not_in(seq!['>']))
}

/// From `h`, the rest of the anchor pattern
/// `href="(https://store\.steampowered\.com/app/(\d+)/[^"?]+)[^"]*"[^>]*>(.*?)</a>` matches.
pub open spec fn href_ok(t: Seq<char>, h: int) -> bool {
    let d0 = h + href_lit().len() + app_prefix().len();
    let d = href_digits_end(t, h);
    &&& ci_occurs_at(t, h, href_lit())
    &&& ci_occurs_at(t, h + href_lit().len(), app_prefix())
    &&& d0 < d < t.len()
    &&& t[d] == '/'
    &&& href_url_end(t, h) > d + 1
    &&& href_quote(t, h) < t.len()
    &&& href_tag_end(t, h) < t.len()
    &&& ci_first(t, "</a>"@, href_tag_end(t, h) + 1) is Some
}

/// The last `h` in `[lo, hi]` with `href_ok`: where the greedy `[^>]+`
/// after `<a` settles.
pub open spec fn best_href(t: Seq<char>, lo: int, hi: int) -> Option<int>
    decreases hi - lo + 1,
{
    if hi < lo {
        None
    } else if href_ok(t, hi) {
        Some(hi)
    } else {
        best_href(t, lo, hi - 1)
    }
}

/// The anchor `(?is)<a[^>]+href="...` that starts at `s`: its `href` position.
pub open spec fn anchor_at(t: Seq<char>, s: int) -> Option<int> {
    if ci_occurs_at(t, s, "<a"@) {
        best_href(t, s + "<a"@.len() + 1, skip_while(t, s + "<a"@.len(), not_in(seq!['>'])))
    } else {
        None
    }
}

/// Where the body of the anchor whose `href` is at `h` ends (at `</a>`).
pub open spec fn anchor_body_end(t: Seq<char>, h: int) -> int {
    ci_first(t, "</a>"@, href_tag_end(t, h) + 1)->0
}

pub proof fn lemma_best_href(t: Seq<char>, lo: int, hi: int)
    ensures
        best_href(t, lo, hi) matches Some(h) ==> lo <= h <= hi && href_ok(t, h),
    decreases hi - lo + 1,
{
    if hi >= lo && !href_ok(t, hi) {
        lemma_best_href(t, lo, hi - 1);
    }
}

pub proof fn lemma_href_ok(t: Seq<char>, h: int)
    requires
        href_ok(t, h),
        0 <= h,
    ensures
        h + href_lit().len() + app_prefix().len() < href_digits_end(t, h) < href_url_end(t, h)
            <= href_quote(t, h) < href_tag_end(t, h) < anchor_body_end(t, h) + "</a>"@.len()
            <= t.len(),
        href_tag_end(t, h) + 1 <= anchor_body_end(t, h),
{
    lemma_skip_while_bounds(t, href_digits_end(t, h) + 1, not_in(seq!['"', '?']));
    lemma_skip_while_bounds(t, href_url_end(t, h), not_in(seq!['"']));
    lemma_skip_while_bounds(t, href_quote(t, h) + 1, not_in(seq!['>']));
    lemma_ci_first(t, "</a>"@, href_tag_end(t, h) + 1);
}

/// The `href` positions of the anchors that the pattern matches in `t[p..]`,
/// matches taken left to right without overlap.
pub open spec fn anchors_from(t: Seq<char>, p: int) -> Seq<int>
    decreases t.len() + 1 - p,
{
    if p < 0 || p > t.len() {
        seq![]
    } else {
        match anchor_at(t, p) {
            Some(h) => {
                proof {
                    lemma_best_href(t, p + "<a"@.len() + 1, skip_while(t, p + "<a"@.len(), not_in(seq!['>'])));
                    lemma_href_ok(t, h);
                }
                seq![h] + anchors_from(t, anchor_body_end(t, h) + "</a>"@.len())
            },
            None => anchors_from(t, p + 1),
        }
    }
}

fn href_ok_exec(t: &Vec<char>, h: usize, lits: &AnchorLits) -> (r: bool)
    requires
        h <= t.len(),
        lits.wf(),
    ensures
        r == href_ok(t@, h as int),
{
    if !ci_matches_at(t, h, &lits.href) {
        return false;
    }
    let k: usize = h + lits.href.len();
    if !ci_matches_at(t, k, &lits.prefix) {
        return false;
    }
    let d0: usize = k + lits.prefix.len();
    let mut d: usize = d0;
    while d < t.len() && is_regex_digit(t[d])
        invariant
            d0 <= d <= t.len(),
            skip_while(t@, d as int, digit_pred()) == skip_while(t@, d0 as int, digit_pred()),
        decreases t.len() - d,
    {
        d = d + 1;
    }
    if !(d0 < d && d < t.len() && t[d] == '/') {
        return false;
    }
    let u = skip_not_in(t, d + 1, &lits.quote_or_query);
    if u <= d + 1 {
        return false;
    }
    let q = skip_not_in(t, u, &lits.quote);
    if q >= t.len() {
        return false;
    }
    let g = skip_not_in(t, q + 1, &lits.gt);
    if g >= t.len() {
        return false;
    }
    ci_find_from(t, &lits.close_a, g + 1).is_some()
}

/// The literal pieces of the anchor pattern.
pub struct AnchorLits {
    pub open_a: Vec<char>,
    pub href: Vec<char>,
    pub prefix: Vec<char>,
    pub close_a: Vec<char>,
    pub quote_or_query: Vec<char>,
    pub quote: Vec<char>,
    pub gt: Vec<char>,
}

impl AnchorLits {
    pub open spec fn wf(&self) -> bool {
        &&& self.open_a@ == "<a"@
        &&& self.href@ == href_lit()
        &&& self.prefix@ == app_prefix()
        &&& self.close_a@ == "</a>"@
        &&& self.quote_or_query@ == seq!['"', '?']
        &&& self.quote@ == seq!['"']
        &&& self.gt@ == seq!['>']
    }

    pub fn new() -> (r: AnchorLits)
        ensures
            r.wf(),
    {
        let mut qq: Vec<char> = Vec::new();
        qq.push('"');
        qq.push('?');
        assert(qq@ =~= seq!['"', '?']);
        AnchorLits {
            open_a: chars_of("<a"),
            href: chars_of("href=\""),
            prefix: chars_of("https://store.steampowered.com/app/"),
            close_a: chars_of("</a>"),
            quote_or_query: qq,
            quote: single('"'),
            gt: single('>'),
        }
    }
}

fn anchor_at_exec(t: &Vec<char>, s: usize, lits: &AnchorLits) -> (r: Option<usize>)
    requires
        s <= t.len(),
        lits.wf(),
    ensures
        opt_int(r) == anchor_at(t@, s as int),
{
    if !ci_matches_at(t, s, &lits.open_a) {
        return None;
    }
    let lim = skip_not_in(t, s + lits.open_a.len(), &lits.gt);
    if s + lits.open_a.len() >= t.len() {
        assert(best_href(t@, s + "<a"@.len() + 1, lim as int) is None);
        return None;
    }
    let lo: usize = s + lits.open_a.len() + 1;
    assert(anchor_at(t@, s as int) == best_href(t@, lo as int, lim as int));
    let mut h: usize = lim;
    loop
        invariant
            h <= lim <= t.len(),
            lits.wf(),
            lo > 0,
            anchor_at(t@, s as int) == best_href(t@, lo as int, lim as int),
            best_href(t@, lo as int, h as int) == best_href(t@, lo as int, lim as int),
        decreases h,
    {
        if h < lo {
            return None;
        }
        if href_ok_exec(t, h, lits) {
            return Some(h);
        }
        h = h - 1;
    }
}

/// Positions inside an anchor whose `href` is at a given index.
pub struct AnchorParts {
    pub digits_end: usize,
    pub url_end: usize,
    pub tag_end: usize,
    pub body_end: usize,
}

fn anchor_parts(t: &Vec<char>, h: usize, lits: &AnchorLits) -> (r: AnchorParts)
    requires
        href_ok(t@, h as int),
        lits.wf(),
    ensures
        r.digits_end == href_digits_end(t@, h as int),
        r.url_end == href_url_end(t@, h as int),
        r.tag_end == href_tag_end(t@, h as int),
        r.body_end == anchor_body_end(t@, h as int),
{
    proof {
        lemma_href_ok(t@, h as int);
    }
    assert(ci_occurs_at(t@, h + href_lit().len(), app_prefix()));
    assert(h + lits.href@.len() + lits.prefix@.len() <= t@.len());
    assert(h + lits.href.len() + lits.prefix.len() <= t.len());
    let d0: usize = h + lits.href.len() + lits.prefix.len();
    let mut d: usize = d0;
    while d < t.len() && is_regex_digit(t[d])
        invariant
            d0 <= d <= t.len(),
            skip_while(t@, d as int, digit_pred()) == skip_while(t@, d0 as int, digit_pred()),
        decreases t.len() - d,
    {
        d = d + 1;
    }
    let u = skip_not_in(t, d + 1, &lits.quote_or_query);
    let q = skip_not_in(t, u, &lits.quote);
    let g = skip_not_in(t, q + 1, &lits.gt);
    let e = ci_find_from(t, &lits.close_a, g + 1);
    AnchorParts { digits_end: d, url_end: u, tag_end: g, body_end: e.unwrap() }
}

/// The `href` positions of the store app anchors in `t`, left to right.
pub fn find_anchors(t: &Vec<char>) -> (r: Vec<usize>)
    ensures
        r@.map_values(|h: usize| h as int) == anchors_from(t@, 0),
{
    let lits = AnchorLits::new();
    let mut r: Vec<usize> = Vec::new();
    let mut p: usize = 0;
    while p <= t.len()
        invariant
            p <= t.len() + 1,
            lits.wf(),
            r@.map_values(|h: usize| h as int) + anchors_from(t@, p as int) == anchors_from(t@, 0),
        decreases t.len() + 1 - p,
    {
        let ghost p0 = p as int;
        let ghost before = r@;
        match anchor_at_exec(t, p, &lits) {
            Some(h) => {
                proof {
                    lemma_best_href(t@, p0 + "<a"@.len() + 1, skip_while(t@, p0 + "<a"@.len(), not_in(seq!['>'])));
                    lemma_href_ok(t@, h as int);
                }
                let parts = anchor_parts(t, h, &lits);
                r.push(h);
                assert(r@.map_values(|h: usize| h as int) =~= before.map_values(|h: usize| h as int).push(h as int));
                p = parts.body_end + lits.close_a.len();
            },
            None => {
                if p == t.len() {
                    assert(anchors_from(t@, p0 + 1) == Seq::<int>::empty());
                    assert(r@.map_values(|h: usize| h as int) =~= anchors_from(t@, 0));
                    return r;
                }
                p = p + 1;
            },
        }
    }
    r
}

} // verus!

verus! {

/// `x[p..]` with every match of `<[^>]+>` removed.
pub open spec fn strip_tags_from(x: Seq<char>, p: int) -> Seq<char>
    decreases x.len() - p,
{
    if p < 0 || p >= x.len() {
        seq![]
    } else {
        let j = skip_while(x, p + 1, not_in(seq!['>']));
        if x[p] == '<' && j > p + 1 && j < x.len() {
            proof {
                lemma_skip_while_bounds(x, p + 1, not_in(seq!['>']));
            }
            strip_tags_from(x, j + 1)
        } else {
            seq![x[p]] + strip_tags_from(x, p + 1)
        }
    }
}

/// Removes every match of `<[^>]+>`.
pub fn strip_tags(x: &Vec<char>) -> (r: Vec<char>)
    ensures
        r@ == strip_tags_from(x@, 0),
{
    let gt = single('>');
    let mut r: Vec<char> = Vec::new();
    let mut p: usize = 0;
    while p < x.len()
        invariant
            p <= x.len(),
            gt@ == seq!['>'],
            r@ + strip_tags_from(x@, p as int) == strip_tags_from(x@, 0),
        decreases x.len() - p,
    {
        let ghost p0 = p as int;
        let j = skip_not_in(x, p + 1, &gt);
        if x[p] == '<' && j > p + 1 && j < x.len() {
            p = j + 1;
        } else {
            assert(strip_tags_from(x@, p0) == seq![x@[p0]] + strip_tags_from(x@, p0 + 1));
            r.push(x[p]);
            assert(r@ + strip_tags_from(x@, p0 + 1) == strip_tags_from(x@, 0));
            p = p + 1;
        }
    }
    r
}

/// A store app link found on a search page, with its title.
pub struct SearchLink {
    pub app_id: String,
    pub title: String,
    pub url: String,
}

pub ghost struct LinkView {
    pub app_id: Seq<char>,
    pub title: Seq<char>,
    pub url: Seq<char>,
}

impl View for SearchLink {
    type V = LinkView;

    open spec fn view(&self) -> LinkView {
        LinkView { app_id: self.app_id@, title: self.title@, url: self.url@ }
    }
}

/// The body of the anchor whose `href` is at `h`.
pub open spec fn anchor_body(t: Seq<char>, h: int) -> Seq<char> {
    t.subrange(href_tag_end(t, h) + 1, anchor_body_end(t, h))
}

/// The raw title in an anchor's body: a `title` span, else a `match_name` div.
pub open spec fn raw_title(t: Seq<char>, h: int) -> Option<Seq<char>> {
    let b = anchor_body(t, h);
    match tagged_title(b, "<span"@, "title"@, "</span>"@) {
        Some(x) => Some(x),
        None => tagged_title(b, "<div"@, "match_name"@, "</div>"@),
    }
}

/// The app id of the anchor whose `href` is at `h`.
pub open spec fn link_id(t: Seq<char>, h: int) -> Seq<char> {
    t.subrange(h + href_lit().len() + app_prefix().len(), href_digits_end(t, h))
}

/// The link of the anchor whose `href` is at `h`: entities decoded, trailing
/// slashes dropped, one slash appended.
pub open spec fn link_url(t: Seq<char>, h: int) -> Seq<char> {
    let u = crate::ext::html_decoded(t.subrange(h + href_lit().len(), href_url_end(t, h)));
    u.take(crate::text::back_while(u, u.len() as int, in_set(seq!['/']))) + seq!['/']
}

/// The title shown for a raw title: tags removed, entities decoded, trimmed.
pub open spec fn link_title(raw: Seq<char>) -> Seq<char> {
    crate::text::trim(crate::ext::html_decoded(strip_tags_from(raw, 0)))
}

/// The link that the anchor at `h` contributes, if it names a game.
pub open spec fn link_at(t: Seq<char>, h: int) -> Option<LinkView> {
    match raw_title(t, h) {
        Some(raw) => {
            let title = link_title(raw);
            let url = link_url(t, h);
            if title.len() == 0 || crate::normalize::likely_non_game(title, url) {
                None
            } else {
                Some(LinkView { app_id: link_id(t, h), title: title, url: url })
            }
        },
        None => None,
    }
}

pub open spec fn has_id(ls: Seq<LinkView>, id: Seq<char>) -> bool {
    exists|i: int| 0 <= i < ls.len() && (#[trigger] ls[i]).app_id == id
}

/// The links of the anchors at `hs`, each app id kept once (its first game link).
pub open spec fn collect_links(t: Seq<char>, hs: Seq<int>) -> Seq<LinkView>
    decreases hs.len(),
{
    if hs.len() == 0 {
        seq![]
    } else {
        let prev = collect_links(t, hs.drop_last());
        let h = hs.last();
        if has_id(prev, link_id(t, h)) {
            prev
        } else {
            match link_at(t, h) {
                Some(l) => prev.push(l),
                None => prev,
            }
        }
    }
}

/// The link for an anchor with app id `app_id`, from its title and address
/// with entities decoded: the title trimmed, the address with trailing `/`
/// replaced by one; none where the title is empty or names something other
/// than the game.
pub open spec fn game_link_view(app_id: Seq<char>, title: Seq<char>, url: Seq<char>) -> Option<LinkView> {
    let t = crate::text::trim(title);
    let u = url.take(crate::text::back_while(url, url.len() as int, in_set(seq!['/']))) + seq!['/'];
    if t.len() == 0 || crate::normalize::likely_non_game(t, u) {
        None
    } else {
        Some(LinkView { app_id: app_id, title: t, url: u })
    }
}

pub open spec fn opt_link_view(r: Option<SearchLink>) -> Option<LinkView> {
    match r {
        Some(l) => Some(l@),
        None => None,
    }
}

/// The link for an anchor from its app id and its decoded title and address.
pub fn game_link(app_id: &Vec<char>, title: &str, url: &str) -> (r: Option<SearchLink>)
    ensures
        opt_link_view(r) == game_link_view(app_id@, title@, url@),
{
    let t = crate::text::trim_chars(&chars_of(title));
    let slash = single('/');
    let mut u = crate::text::trim_end_set(&chars_of(url), &slash);
    u.push('/');
    assert(u@ =~= url@.take(crate::text::back_while(url@, url@.len() as int, in_set(seq!['/']))) + seq!['/']);
    let ts = string_of(&t);
    let us = string_of(&u);
    if t.len() == 0 || crate::normalize::is_likely_non_game(ts.as_str(), us.as_str()) {
        None
    } else {
        Some(SearchLink { app_id: string_of(app_id), title: ts, url: us })
    }
}

/// The game links that a store search or suggestion page lists, in page
/// order, one per app id.
pub open spec fn search_links(page: Seq<char>) -> Seq<LinkView> {
    collect_links(page, anchors_from(page, 0))
}

pub proof fn lemma_anchors_ok(t: Seq<char>, p: int)
    ensures
        forall|k: int| 0 <= k < anchors_from(t, p).len() ==> 0 <= #[trigger] anchors_from(t, p)[k] && href_ok(t, anchors_from(t, p)[k]),
    decreases t.len() + 1 - p,
{
    if 0 <= p <= t.len() {
        match anchor_at(t, p) {
            Some(h) => {
                lemma_best_href(t, p + "<a"@.len() + 1, skip_while(t, p + "<a"@.len(), not_in(seq!['>'])));
                lemma_href_ok(t, h);
                lemma_anchors_ok(t, anchor_body_end(t, h) + "</a>"@.len());
                let rest = anchors_from(t, anchor_body_end(t, h) + "</a>"@.len());
                assert(anchors_from(t, p) == seq![h] + rest);
                assert forall|k: int| 0 <= k < anchors_from(t, p).len() implies 0 <= #[trigger] anchors_from(t, p)[k] && href_ok(t, anchors_from(t, p)[k]) by {
                    if k > 0 {
                        assert(anchors_from(t, p)[k] == rest[k - 1]);
                    }
                }
            },
            None => {
                lemma_anchors_ok(t, p + 1);
                assert(anchors_from(t, p) == anchors_from(t, p + 1));
            },
        }
    } else {
        assert(anchors_from(t, p).len() == 0);
    }
}

} // verus!

verus! {

pub open spec fn link_views(ls: Seq<SearchLink>) -> Seq<LinkView> {
    ls.map_values(|l: SearchLink| l@)
}

fn has_link_id(links: &Vec<SearchLink>, id: &Vec<char>) -> (r: bool)
    ensures
        r == has_id(link_views(links@), id@),
{
    let mut k: usize = 0;
    while k < links.len()
        invariant
            k <= links.len(),
            forall|m: int| 0 <= m < k ==> (#[trigger] link_views(links@)[m]).app_id != id@,
        decreases links.len() - k,
    {
        let a = chars_of(links[k].app_id.as_str());
        if crate::text::same_chars(&a, id) {
            assert(link_views(links@)[k as int].app_id == id@);
            return true;
        }
        k = k + 1;
    }
    false
}

/// The game links that a store search or suggestion page lists, in page
/// order, one per app id: each anchor to a store app page whose body holds
/// a `title` span or a `match_name` div, unless its title is empty or names
/// something other than the game.
pub fn extract_search_links(page: &str) -> (r: Vec<SearchLink>)
    ensures
        link_views(r@) == search_links(page@),
{
    let t = chars_of(page);
    let hs = find_anchors(&t);
    let ghost hv = hs@.map_values(|h: usize| h as int);
    proof {
        lemma_anchors_ok(t@, 0);
    }
    let lits = AnchorLits::new();
    let span_open = chars_of("<span");
    let span_word = chars_of("title");
    let span_close = chars_of("</span>");
    let div_open = chars_of("<div");
    let div_word = chars_of("match_name");
    let div_close = chars_of("</div>");
    let slash = single('/');
    let mut links: Vec<SearchLink> = Vec::new();
    let mut i: usize = 0;
    while i < hs.len()
        invariant
            i <= hs.len(),
            hv == hs@.map_values(|h: usize| h as int),
            hv == anchors_from(t@, 0),
            t@ == page@,
            lits.wf(),
            span_open@ == "<span"@,
            span_word@ == "title"@,
            span_close@ == "</span>"@,
            div_open@ == "<div"@,
            div_word@ == "match_name"@,
            div_close@ == "</div>"@,
            slash@ == seq!['/'],
            forall|k: int| 0 <= k < hv.len() ==> 0 <= #[trigger] hv[k] && href_ok(t@, hv[k]),
            link_views(links@) == collect_links(t@, hv.take(i as int)),
        decreases hs.len() - i,
    {
        let h = hs[i];
        let ghost hi = hv[i as int];
        assert(hi == h as int);
        assert(hv.take(i + 1).drop_last() =~= hv.take(i as int));
        assert(href_ok(t@, h as int));
        proof {
            lemma_href_ok(t@, h as int);
        }
        let parts = anchor_parts(&t, h, &lits);
        let id_start: usize = h + lits.href.len() + lits.prefix.len();
        let id = copy_range(&t, id_start, parts.digits_end);
        assert(id@ == link_id(t@, h as int));
        if has_link_id(&links, &id) {
            i = i + 1;
            continue;
        }
        let body = copy_range(&t, parts.tag_end + 1, parts.body_end);
        assert(body@ == anchor_body(t@, h as int));
        let raw = match find_tagged_title(&body, &span_open, &span_word, &span_close) {
            Some(x) => Some(x),
            None => find_tagged_title(&body, &div_open, &div_word, &div_close),
        };
        match raw {
            None => {
                assert(raw_title(t@, h as int) is None);
                i = i + 1;
            },
            Some(raw) => {
                assert(raw_title(t@, h as int) == Some(raw@));
                let stripped = strip_tags(&raw);
                let decoded = crate::ext::decode_html_entities(string_of(&stripped).as_str());
                let u = copy_range(&t, h + lits.href.len(), parts.url_end);
                let ud = crate::ext::decode_html_entities(string_of(&u).as_str());
                assert(u@ == t@.subrange(h + href_lit().len(), href_url_end(t@, h as int)));
                let found = game_link(&id, decoded.as_str(), ud.as_str());
                assert(game_link_view(id@, decoded@, ud@) == link_at(t@, h as int));
                match found {
                    None => {
                        i = i + 1;
                    },
                    Some(link) => {
                        let ghost before = links@;
                        links.push(link);
                        assert(link_views(links@) =~= link_views(before).push(link_at(t@, h as int)->0));
                        i = i + 1;
                    },
                }
            },
        }
    }
    assert(hv.take(i as int) =~= hv);
    links
}

} // verus!

verus! {

/// The texts that a title's score compares: the normalised query and title,
/// and their compact forms.
pub struct ScoreTexts {
    pub query: String,
    pub title: String,
    pub compact_query: String,
    pub compact_title: String,
}

/// What title scoring compares for a query and a store title (the title's
/// entities decoded first); `None` where either side normalises to nothing,
/// which scores 0.
pub fn score_texts(query: &str, title: &str) -> (r: Option<ScoreTexts>)
    ensures
        ({
            let q = crate::normalize::normalized(query@);
            let t = crate::normalize::normalized(crate::ext::html_decoded(title@));
            match r {
                None => q.len() == 0 || t.len() == 0,
                Some(x) => q.len() > 0 && t.len() > 0 && x.query@ == q && x.title@ == t
                    && x.compact_query@ == crate::normalize::compact(q) && x.compact_title@
                    == crate::normalize::compact(t),
            }
        }),
{
    let q = crate::normalize::normalize_chars(&chars_of(query));
    let decoded = crate::ext::decode_html_entities(title);
    let t = crate::normalize::normalize_chars(&chars_of(decoded.as_str()));
    if q.len() == 0 || t.len() == 0 {
        return None;
    }
    let cq = crate::normalize::compact_chars(&q);
    let ct = crate::normalize::compact_chars(&t);
    Some(
        ScoreTexts {
            query: string_of(&q),
            title: string_of(&t),
            compact_query: string_of(&cq),
            compact_title: string_of(&ct),
        },
    )
}

/// A title's score from its similarity percentage: raised to 92 (84 for a
/// compact query shorter than six characters) where the compact title
/// contains the non-empty compact query, and kept within 0..=100.
pub open spec fn finished_score(similarity: int, cq: Seq<char>, ct: Seq<char>) -> int {
    let bonus: int = if cq.len() >= 6 {
        92
    } else {
        84
    };
    let s: int = if cq.len() > 0 && crate::text::contains_seq(ct, cq) && bonus > similarity {
        bonus
    } else {
        similarity
    };
    if s < 0 {
        0
    } else if s > 100 {
        100
    } else {
        s
    }
}

/// A title's score from its similarity percentage and the compared texts.
pub fn finish_title_score(similarity: i32, texts: &ScoreTexts) -> (r: i32)
    ensures
        r as int == finished_score(similarity as int, texts.compact_query@, texts.compact_title@),
{
    let cq = chars_of(texts.compact_query.as_str());
    let ct = chars_of(texts.compact_title.as_str());
    let mut score: i32 = similarity;
    if cq.len() > 0 && crate::text::contains_chars(&ct, &cq) {
        let bonus: i32 = if cq.len() >= 6 {
            92
        } else {
            84
        };
        if bonus > score {
            score = bonus;
        }
    }
    if score < 0 {
        0
    } else if score > 100 {
        100
    } else {
        score
    }
}

/// `c` is the candidate built from link `l` with score `s`.
pub open spec fn built_from(c: crate::candidate::Candidate, l: LinkView, s: i32) -> bool {
    &&& c.app_id@ == l.app_id
    &&& c.title@ == l.title
    &&& c.url@ == l.url
    &&& c.score == s
    &&& c.confidence@ == crate::normalize::confidence_label(s as int)
    &&& c.kind@ == "游戏本体"@
}

/// The candidates of a page's links with their scores, in page order.
pub fn link_candidates(links: &Vec<SearchLink>, scores: &Vec<i32>) -> (r: Vec<crate::candidate::Candidate>)
    requires
        scores.len() == links.len(),
    ensures
        r.len() == links.len(),
        forall|i: int| 0 <= i < r.len() ==> built_from(#[trigger] r@[i], links@[i]@, scores@[i]),
{
    let mut r: Vec<crate::candidate::Candidate> = Vec::new();
    let mut i: usize = 0;
    while i < links.len()
        invariant
            i <= links.len(),
            scores.len() == links.len(),
            r.len() == i,
            forall|k: int| 0 <= k < i ==> built_from(#[trigger] r@[k], links@[k]@, scores@[k]),
        decreases links.len() - i,
    {
        let l = &links[i];
        r.push(
            crate::candidate::Candidate {
                app_id: l.app_id.clone(),
                title: l.title.clone(),
                url: l.url.clone(),
                score: scores[i],
                confidence: crate::normalize::confidence_for(scores[i]),
                kind: "游戏本体".to_owned(),
            },
        );
        i = i + 1;
    }
    r
}

/// The ranked candidates of a search page: its links with their scores,
/// the best eight by descending score (stable).
pub fn rank_search_links(links: &Vec<SearchLink>, scores: &Vec<i32>) -> (r: Vec<crate::candidate::Candidate>)
    requires
        scores.len() == links.len(),
    ensures
        exists|cs: Seq<crate::candidate::Candidate>|
            cs.len() == links.len() && (forall|i: int|
                0 <= i < cs.len() ==> built_from(#[trigger] cs[i], links@[i]@, scores@[i]))
                && r@ == crate::candidate::top_candidates(cs),
{
    let cs = link_candidates(links, scores);
    crate::candidate::top_of(&cs)
}

/// Candidates cached for a query answer it only where there are some; an
/// empty cached list means the query is searched again.
pub fn reuse_cached_search(cached: Option<Vec<crate::candidate::Candidate>>) -> (r: Option<Vec<crate::candidate::Candidate>>)
    ensures
        match cached {
            Some(v) => if v@.len() > 0 {
                r matches Some(w) && w@ == v@
            } else {
                r is None
            },
            None => r is None,
        },
{
    match cached {
        Some(v) => if v.len() > 0 {
            Some(v)
        } else {
            None
        },
        None => None,
    }
}

/// Whether a search needs the suggestion endpoint too: no candidate, or a
/// best candidate scoring under 80.
pub fn needs_suggestions(candidates: &Vec<crate::candidate::Candidate>) -> (r: bool)
    ensures
        r == (candidates@.len() == 0 || candidates@[0].score < 80),
{
    candidates.len() == 0 || candidates[0].score < 80
}

/// The store search address for a query in a store language.
pub open spec fn search_address(query: Seq<char>, language: Seq<char>) -> Seq<char> {
    "https://store.steampowered.com/search/?term="@ + crate::ext::percent_encoded(
        vstd::utf8::encode_utf8(query),
    ) + "&category1=998&ndl=1&l="@ + language
}

/// The store suggestion address for a query in a store language.
pub open spec fn suggest_address(query: Seq<char>, language: Seq<char>) -> Seq<char> {
    "https://store.steampowered.com/search/suggest?term="@ + crate::ext::percent_encoded(
        vstd::utf8::encode_utf8(query),
    ) + "&f=games&cc=US&realm=1&l="@ + language
}

/// The store search address for a query.
pub fn search_url(query: &str, language: &str) -> (r: String)
    ensures
        r@ == search_address(query@, language@),
{
    let mut v = chars_of("https://store.steampowered.com/search/?term=");
    push_all(&mut v, &chars_of(crate::ext::url_encode(query).as_str()));
    push_all(&mut v, &chars_of("&category1=998&ndl=1&l="));
    push_all(&mut v, &chars_of(language));
    string_of(&v)
}

/// The store suggestion address for a query.
pub fn suggest_url(query: &str, language: &str) -> (r: String)
    ensures
        r@ == suggest_address(query@, language@),
{
    let mut v = chars_of("https://store.steampowered.com/search/suggest?term=");
    push_all(&mut v, &chars_of(crate::ext::url_encode(query).as_str()));
    push_all(&mut v, &chars_of("&f=games&cc=US&realm=1&l="));
    push_all(&mut v, &chars_of(language));
    string_of(&v)
}

/// The key of a query's cached search results.
pub open spec fn search_key(query: Seq<char>, language: Seq<char>) -> Seq<char> {
    "v2"@ + seq![':'] + language + seq![':'] + crate::normalize::cache_key_of(query)
}

/// The key under which a query's search candidates are cached.
pub fn search_cache_key(query: &str, language: &str) -> (r: String)
    ensures
        r@ == search_key(query@, language@),
{
    let mut v = chars_of("v2");
    v.push(':');
    push_all(&mut v, &chars_of(language));
    v.push(':');
    push_all(&mut v, &crate::normalize::cache_key_chars(&chars_of(query)));
    assert(v@ =~= search_key(query@, language@));
    string_of(&v)
}

} // verus!
